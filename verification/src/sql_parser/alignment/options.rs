//! How options are read inside of larger texts.

use vstd::prelude::*;

use crate::sql_parser::alignment::names::{
    aligned_data_type, aligned_identifier, aligned_item_name_list, aligned_raw_name, aligned_value,
};
use crate::sql_parser::alignment::{agrees, aligned};
use crate::sql_parser::keywords::Keyword;
use crate::sql_parser::kind::Kind;
use crate::sql_parser::names::{identifier, raw_name, value};
use crate::sql_parser::options::{
    data_type_option_value, name_sequence, object_option_value, option_sequence, option_value,
    option_value_list, optional_option_value,
};
use crate::sql_parser::outcome::Out::{Failed, Got};
use crate::sql_parser::parser::{Input, at_keyword, at_token, expected_at, onward, token, token_at};
use crate::sql_parser::syntax::TreeView;
use crate::sql_parser::token::TokenView;

verus! {

pub(crate) proof fn aligned_object_option_value(p: Input, larger: Input, ahead: int, i: int)
    requires
        aligned(p, larger, ahead),
        0 <= i <= p.toks.len(),
    ensures
        agrees(p, ahead, i + 1, object_option_value(p, i), object_option_value(larger, ahead + i)),
{
    reveal(object_option_value);
    let i = if at_token(p, i, TokenView::Eq) { i + 1 } else { i };
    aligned_raw_name(p, larger, ahead, i);
}

pub(crate) proof fn aligned_optional_option_value(p: Input, larger: Input, ahead: int, i: int)
    requires
        aligned(p, larger, ahead),
        0 <= i <= p.toks.len(),
    ensures
        agrees(p, ahead, i, optional_option_value(p, i), optional_option_value(larger, ahead + i)),
{
    reveal(optional_option_value);
    match token_at(p, i) {
        Some(TokenView::RParen) | Some(TokenView::Comma) | Some(TokenView::Semicolon) => {},
        None => {},
        _ => {
            let i = if at_token(p, i, TokenView::Eq) { i + 1 } else { i };
            aligned_option_value(p, larger, ahead, i);
        },
    }
}

pub(crate) proof fn unfold_option_sequence(p: Input, i: int)
    ensures
        option_sequence(p, i) == ({
            if at_token(p, i, TokenView::LParen) {
                let i = i + 1;
                if at_token(p, i, TokenView::RParen) {
                    let i = i + 1;
                    Got(TreeView::Node(Kind::SequenceValue, seq![TreeView::List(Seq::<TreeView>::empty())]), i)
                } else {
                    match option_value_list(p, i, Seq::<TreeView>::empty()) { Failed(e, i) => Failed(e, i), Got(vs, i) => {
                    match token(p, i, TokenView::RParen) { Failed(e, i) => Failed(e, i), Got(_, i) => {
                    Got(TreeView::Node(Kind::SequenceValue, seq![TreeView::List(vs)]), i)
                    }}
                    }}
                }
            } else {
                if at_token(p, i, TokenView::LBracket) {
                    let i = i + 1;
                    if at_token(p, i, TokenView::RBracket) {
                        let i = i + 1;
                        Got(TreeView::Node(Kind::SequenceValue, seq![TreeView::List(Seq::<TreeView>::empty())]), i)
                    } else {
                        match option_value_list(p, i, Seq::<TreeView>::empty()) { Failed(e, i) => Failed(e, i), Got(vs, i) => {
                        match token(p, i, TokenView::RBracket) { Failed(e, i) => Failed(e, i), Got(_, i) => {
                        Got(TreeView::Node(Kind::SequenceValue, seq![TreeView::List(vs)]), i)
                        }}
                        }}
                    }
                } else {
                    Got(TreeView::Absent, i)
                }
            }
        }),
{
    reveal(option_sequence);
    reveal(option_value_list);
}

pub(crate) proof fn aligned_option_sequence(p: Input, larger: Input, ahead: int, i: int)
    requires
        aligned(p, larger, ahead),
        0 <= i <= p.toks.len(),
    ensures
        agrees(p, ahead, i, option_sequence(p, i), option_sequence(larger, ahead + i)),
    decreases p.toks.len() - i, 0int,
{
    unfold_option_sequence(p, i);
    unfold_option_sequence(larger, ahead + i);
    if at_token(p, i, TokenView::LParen) {
        let i = i + 1;
        if !at_token(p, i, TokenView::RParen) {
            aligned_option_value_list(p, larger, ahead, i, Seq::<TreeView>::empty());
        }
    } else {
        if at_token(p, i, TokenView::LBracket) {
            let i = i + 1;
            if !at_token(p, i, TokenView::RBracket) {
                aligned_option_value_list(p, larger, ahead, i, Seq::<TreeView>::empty());
            }
        }
    }
}

pub(crate) proof fn aligned_name_sequence(p: Input, larger: Input, ahead: int, i: int)
    requires
        aligned(p, larger, ahead),
        0 <= i <= p.toks.len(),
    ensures
        agrees(p, ahead, i, name_sequence(p, i), name_sequence(larger, ahead + i)),
{
    reveal(name_sequence);
    if at_token(p, i, TokenView::LParen) {
        let i = i + 1;
        if !at_token(p, i, TokenView::RParen) {
            aligned_item_name_list(p, larger, ahead, i, Seq::<TreeView>::empty());
        }
    } else {
        if at_token(p, i, TokenView::LBracket) {
            let i = i + 1;
            if !at_token(p, i, TokenView::RBracket) {
                aligned_item_name_list(p, larger, ahead, i, Seq::<TreeView>::empty());
            }
        }
    }
}

pub(crate) proof fn unfold_option_value(p: Input, i: int)
    ensures
        option_value(p, i) == ({
            match option_sequence(p, i) { Failed(e, i) => Failed(e, i), Got(s, i) => {
            if !(s is Absent) {
                Got(s, i)
            } else {
                if at_keyword(p, i, Keyword::SECRET) {
                    let i = i + 1;
                    match raw_name(p, i) {
                        Got(name, i) => {
                            Got(TreeView::Node(Kind::SecretValue, seq![name]), i)
                        },
                        Failed(_, _) => {
                            Got(TreeView::Node(Kind::IdentValue, seq![TreeView::Text("secret"@)]), i)
                        },
                    }
                } else {
                    match value(p, i) {
                        Got(v, i) => {
                            Got(TreeView::Node(Kind::LiteralValue, seq![v]), i)
                        },
                        Failed(_, _) => {
                            match identifier(p, i) {
                                Got(id, i) => {
                                    Got(TreeView::Node(Kind::IdentValue, seq![id]), i)
                                },
                                Failed(_, _) => {
                                    Failed(expected_at(p, i, "option value"@), i)
                                },
                            }
                        },
                    }
                }
            }
            }}
        }),
{
    reveal(option_value);
    reveal(option_sequence);
}

pub(crate) proof fn aligned_option_value(p: Input, larger: Input, ahead: int, i: int)
    requires
        aligned(p, larger, ahead),
        0 <= i <= p.toks.len(),
    ensures
        agrees(p, ahead, i, option_value(p, i), option_value(larger, ahead + i)),
    decreases p.toks.len() - i, 1int,
{
    unfold_option_value(p, i);
    unfold_option_value(larger, ahead + i);
    aligned_option_sequence(p, larger, ahead, i);
    if let Got(s, i) = option_sequence(p, i) {
        if !(!(s is Absent)) {
            if at_keyword(p, i, Keyword::SECRET) {
                let i = i + 1;
                aligned_raw_name(p, larger, ahead, i);
            } else {
                aligned_value(p, larger, ahead, i);
                if value(p, i) is Failed {
                    aligned_identifier(p, larger, ahead, i);
                }
            }
        }
    }
}

pub(crate) proof fn unfold_option_value_list(p: Input, i: int, items: Seq<TreeView>)
    ensures
        option_value_list(p, i, items) == ({
            match onward(p, i, option_value(p, i)) { Failed(e, i) => Failed(e, i), Got(item, i) => {
            if at_token(p, i, TokenView::Comma) {
                let i = i + 1;
                option_value_list(p, i, items.push(item))
            } else {
                Got(items.push(item), i)
            }
            }}
        }),
{
    reveal(option_value_list);
    reveal(option_value);
}

pub(crate) proof fn aligned_option_value_list(p: Input, larger: Input, ahead: int, i: int, items: Seq<TreeView>)
    requires
        aligned(p, larger, ahead),
        0 <= i <= p.toks.len(),
    ensures
        agrees(p, ahead, i, option_value_list(p, i, items), option_value_list(larger, ahead + i, items)),
    decreases p.toks.len() - i, 2int,
{
    unfold_option_value_list(p, i, items);
    unfold_option_value_list(larger, ahead + i, items);
    aligned_option_value(p, larger, ahead, i);
    if let Got(item, i) = onward(p, i, option_value(p, i)) {
        if at_token(p, i, TokenView::Comma) {
            let i = i + 1;
            aligned_option_value_list(p, larger, ahead, i, items.push(item));
        }
    }
}

pub(crate) proof fn aligned_data_type_option_value(p: Input, larger: Input, ahead: int, i: int)
    requires
        aligned(p, larger, ahead),
        0 <= i <= p.toks.len(),
    ensures
        agrees(p, ahead, i + 1, data_type_option_value(p, i), data_type_option_value(larger, ahead + i)),
{
    reveal(data_type_option_value);
    let i = if at_token(p, i, TokenView::Eq) { i + 1 } else { i };
    aligned_data_type(p, larger, ahead, i);
}

} // verus!
