//! How `GRANT` and `REVOKE` are read inside of larger texts.

use vstd::prelude::*;

use crate::sql_parser::alignment::names::{
    aligned_database_name_list, aligned_identifier, aligned_identifier_list, aligned_object_name,
    aligned_schema_name_list,
};
use crate::sql_parser::alignment::show::aligned_plural_object_type;
use crate::sql_parser::alignment::{agrees, aligned};
use crate::sql_parser::checks::lives_in_schema;
use crate::sql_parser::grant::{
    grant, grant_privilege, grant_revoke_object_type, grant_revoke_object_type_inner,
    grant_revoke_plural_object_type, grant_role, grant_target_specification, object_names,
    object_type, privilege_specification, privileges, reassign_owned, revoke, revoke_privilege,
    revoke_role, role_specification, role_specification_list,
};
use crate::sql_parser::keywords::Keyword;
use crate::sql_parser::kind::Kind;
use crate::sql_parser::names::{identifier, identifier_list, object_name};
use crate::sql_parser::outcome::Out::{Failed, Got};
use crate::sql_parser::parser::{
    Input, at_keyword, at_keywords2, at_token, keyword, one_keyword, one_of, onward, past,
};
use crate::sql_parser::show::plural_object_type;
use crate::sql_parser::syntax::TreeView;
use crate::sql_parser::token::TokenView;

verus! {

pub(crate) proof fn aligned_grant(p: Input, larger: Input, ahead: int, i: int)
    requires
        aligned(p, larger, ahead),
        0 <= i <= p.toks.len(),
    ensures
        agrees(p, ahead, i + 1, grant(p, i), grant(larger, ahead + i)),
{
    reveal(grant);
    aligned_privilege_specification(p, larger, ahead, i);
    if let Got(privileges, i) = privilege_specification(p, i) {
        if privileges is Absent {
            aligned_grant_role(p, larger, ahead, i);
        } else {
            aligned_grant_privilege(p, larger, ahead, i, privileges);
        }
    }
}

pub(crate) proof fn aligned_grant_privilege(p: Input, larger: Input, ahead: int, i: int, privileges: TreeView)
    requires
        aligned(p, larger, ahead),
        0 <= i <= p.toks.len(),
    ensures
        agrees(p, ahead, i + 1, grant_privilege(p, i, privileges), grant_privilege(larger, ahead + i, privileges)),
{
    reveal(grant_privilege);
    if let Got(_, i) = keyword(p, i, Keyword::ON) {
        aligned_grant_target_specification(p, larger, ahead, i, "GRANT"@);
        if let Got(target, i) = grant_target_specification(p, i, "GRANT"@) {
            if let Got(_, i) = keyword(p, i, Keyword::TO) {
                aligned_role_specification_list(p, larger, ahead, i, Seq::<TreeView>::empty());
            }
        }
    }
}

pub(crate) proof fn aligned_grant_role(p: Input, larger: Input, ahead: int, i: int)
    requires
        aligned(p, larger, ahead),
        0 <= i <= p.toks.len(),
    ensures
        agrees(p, ahead, i + 1, grant_role(p, i), grant_role(larger, ahead + i)),
{
    reveal(grant_role);
    aligned_identifier(p, larger, ahead, i);
    if let Got(role_name, i) = identifier(p, i) {
        if let Got(_, i) = keyword(p, i, Keyword::TO) {
            aligned_role_specification_list(p, larger, ahead, i, Seq::<TreeView>::empty());
        }
    }
}

pub(crate) proof fn aligned_revoke(p: Input, larger: Input, ahead: int, i: int)
    requires
        aligned(p, larger, ahead),
        0 <= i <= p.toks.len(),
    ensures
        agrees(p, ahead, i + 1, revoke(p, i), revoke(larger, ahead + i)),
{
    reveal(revoke);
    aligned_privilege_specification(p, larger, ahead, i);
    if let Got(privileges, i) = privilege_specification(p, i) {
        if privileges is Absent {
            aligned_revoke_role(p, larger, ahead, i);
        } else {
            aligned_revoke_privilege(p, larger, ahead, i, privileges);
        }
    }
}

pub(crate) proof fn aligned_revoke_privilege(p: Input, larger: Input, ahead: int, i: int, privileges: TreeView)
    requires
        aligned(p, larger, ahead),
        0 <= i <= p.toks.len(),
    ensures
        agrees(p, ahead, i + 1, revoke_privilege(p, i, privileges), revoke_privilege(larger, ahead + i, privileges)),
{
    reveal(revoke_privilege);
    if let Got(_, i) = keyword(p, i, Keyword::ON) {
        aligned_grant_target_specification(p, larger, ahead, i, "REVOKE"@);
        if let Got(target, i) = grant_target_specification(p, i, "REVOKE"@) {
            if let Got(_, i) = keyword(p, i, Keyword::FROM) {
                aligned_role_specification_list(p, larger, ahead, i, Seq::<TreeView>::empty());
            }
        }
    }
}

pub(crate) proof fn aligned_revoke_role(p: Input, larger: Input, ahead: int, i: int)
    requires
        aligned(p, larger, ahead),
        0 <= i <= p.toks.len(),
    ensures
        agrees(p, ahead, i + 1, revoke_role(p, i), revoke_role(larger, ahead + i)),
{
    reveal(revoke_role);
    aligned_identifier(p, larger, ahead, i);
    if let Got(role_name, i) = identifier(p, i) {
        if let Got(_, i) = keyword(p, i, Keyword::FROM) {
            aligned_role_specification_list(p, larger, ahead, i, Seq::<TreeView>::empty());
        }
    }
}

pub(crate) proof fn aligned_grant_target_specification(p: Input, larger: Input, ahead: int, i: int, statement_type: Seq<char>)
    requires
        aligned(p, larger, ahead),
        0 <= i <= p.toks.len(),
    ensures
        agrees(p, ahead, i + 1, grant_target_specification(p, i, statement_type), grant_target_specification(larger, ahead + i, statement_type)),
{
    reveal(grant_target_specification);
    if at_keyword(p, i, Keyword::ALL) {
        let i = i + 1;
        aligned_grant_revoke_plural_object_type(p, larger, ahead, i, statement_type);
        if let Got(object_type, i) = grant_revoke_plural_object_type(p, i, statement_type) {
            let named = TreeView::Node(object_type, Seq::<TreeView>::empty());
            if at_keyword(p, i, Keyword::IN) {
                let i = i + 1;
                if !(!lives_in_schema(object_type) && object_type != Kind::SchemaType) {
                    if let Got(k, i) = one_keyword(p, i, seq![Keyword::DATABASE, Keyword::SCHEMA]) {
                        if k == Keyword::DATABASE {
                            aligned_database_name_list(p, larger, ahead, i, Seq::<TreeView>::empty());
                        } else {
                            if !(object_type == Kind::SchemaType) {
                                aligned_schema_name_list(p, larger, ahead, i, Seq::<TreeView>::empty());
                            }
                        }
                    }
                }
            }
        }
    } else {
        aligned_grant_revoke_object_type(p, larger, ahead, i, statement_type);
        if let Got(object_type, i) = grant_revoke_object_type(p, i, statement_type) {
            aligned_object_names(p, larger, ahead, i, object_type, Seq::<TreeView>::empty());
        }
    }
}

pub(crate) proof fn unfold_object_names(p: Input, i: int, object_type: Kind, names: Seq<TreeView>)
    ensures
        object_names(p, i, object_type, names) == ({
            match past(p, i, object_name(p, i, object_type)) { Failed(e, i) => Failed(e, i), Got(name, i) => {
            if at_token(p, i, TokenView::Comma) {
                let i = i + 1;
                object_names(p, i, object_type, names.push(name))
            } else {
                Got(names.push(name), i)
            }
            }}
        }),
{
    reveal(object_names);
}

pub(crate) proof fn aligned_object_names(p: Input, larger: Input, ahead: int, i: int, object_type: Kind, names: Seq<TreeView>)
    requires
        aligned(p, larger, ahead),
        0 <= i <= p.toks.len(),
    ensures
        agrees(p, ahead, i + 1, object_names(p, i, object_type, names), object_names(larger, ahead + i, object_type, names)),
    decreases p.toks.len() - i, 0int,
{
    unfold_object_names(p, i, object_type, names);
    unfold_object_names(larger, ahead + i, object_type, names);
    aligned_object_name(p, larger, ahead, i, object_type);
    if let Got(name, i) = past(p, i, object_name(p, i, object_type)) {
        if at_token(p, i, TokenView::Comma) {
            let i = i + 1;
            aligned_object_names(p, larger, ahead, i, object_type, names.push(name));
        }
    }
}

pub(crate) proof fn aligned_grant_revoke_object_type(p: Input, larger: Input, ahead: int, i: int, statement_type: Seq<char>)
    requires
        aligned(p, larger, ahead),
        0 <= i <= p.toks.len(),
    ensures
        agrees(p, ahead, i, grant_revoke_object_type(p, i, statement_type), grant_revoke_object_type(larger, ahead + i, statement_type)),
{
    reveal(grant_revoke_object_type);
    aligned_object_type(p, larger, ahead, i);
    if let Got(object_type, i) = object_type(p, i) {
        if !(object_type == Kind::NoType) {
            aligned_grant_revoke_object_type_inner(p, larger, ahead, i, statement_type, object_type);
        }
    }
}

pub(crate) proof fn aligned_grant_revoke_plural_object_type(p: Input, larger: Input, ahead: int, i: int, statement_type: Seq<char>)
    requires
        aligned(p, larger, ahead),
        0 <= i <= p.toks.len(),
    ensures
        agrees(p, ahead, i, grant_revoke_plural_object_type(p, i, statement_type), grant_revoke_plural_object_type(larger, ahead + i, statement_type)),
{
    reveal(grant_revoke_plural_object_type);
    aligned_plural_object_type(p, larger, ahead, i);
    if let Got(object_type, i) = plural_object_type(p, i) {
        if !(object_type == Kind::NoType) {
            aligned_grant_revoke_object_type_inner(p, larger, ahead, i, statement_type, object_type);
        }
    }
}

pub(crate) proof fn aligned_grant_revoke_object_type_inner(p: Input, larger: Input, ahead: int, i: int, statement_type: Seq<char>, object_type: Kind)
    requires
        aligned(p, larger, ahead),
        0 <= i <= p.toks.len(),
    ensures
        agrees(p, ahead, i, grant_revoke_object_type_inner(p, i, statement_type, object_type), grant_revoke_object_type_inner(larger, ahead + i, statement_type, object_type)),
{
    reveal(grant_revoke_object_type_inner);
}

pub(crate) proof fn aligned_object_type(p: Input, larger: Input, ahead: int, i: int)
    requires
        aligned(p, larger, ahead),
        0 <= i <= p.toks.len(),
    ensures
        agrees(p, ahead, i, object_type(p, i), object_type(larger, ahead + i)),
{
    reveal(object_type);
}

pub(crate) proof fn aligned_privilege_specification(p: Input, larger: Input, ahead: int, i: int)
    requires
        aligned(p, larger, ahead),
        0 <= i <= p.toks.len(),
    ensures
        agrees(p, ahead, i, privilege_specification(p, i), privilege_specification(larger, ahead + i)),
{
    reveal(privilege_specification);
    if !at_keyword(p, i, Keyword::ALL) {
        aligned_privileges(p, larger, ahead, i, Seq::<TreeView>::empty());
    }
}

pub(crate) proof fn unfold_privileges(p: Input, i: int, ps: Seq<TreeView>)
    ensures
        privileges(p, i, ps) == ({
            match one_of(p, i, seq![Keyword::INSERT, Keyword::SELECT, Keyword::UPDATE, Keyword::DELETE, Keyword::USAGE, Keyword::CREATE]) {
                Some(k) => {
                    let i = i + 1;
                    match onward(p, i, {
                        match k {
                            Keyword::INSERT => {
                                Got(TreeView::Node(Kind::InsertPrivilege, Seq::<TreeView>::empty()), i)
                            },
                            Keyword::SELECT => {
                                Got(TreeView::Node(Kind::SelectPrivilege, Seq::<TreeView>::empty()), i)
                            },
                            Keyword::UPDATE => {
                                Got(TreeView::Node(Kind::UpdatePrivilege, Seq::<TreeView>::empty()), i)
                            },
                            Keyword::DELETE => {
                                Got(TreeView::Node(Kind::DeletePrivilege, Seq::<TreeView>::empty()), i)
                            },
                            Keyword::USAGE => {
                                Got(TreeView::Node(Kind::UsagePrivilege, Seq::<TreeView>::empty()), i)
                            },
                            _ => {
                                Got(TreeView::Node(Kind::CreatePrivilege, Seq::<TreeView>::empty()), i)
                            },
                        }
                    }) { Failed(e, i) => Failed(e, i), Got(privilege, i) => {
                    if at_token(p, i, TokenView::Comma) {
                        let i = i + 1;
                        privileges(p, i, ps.push(privilege))
                    } else {
                        Got(ps.push(privilege), i)
                    }
                    }}
                },
                None => {
                    Got(ps, i)
                },
            }
        }),
{
    reveal(privileges);
}

pub(crate) proof fn aligned_privileges(p: Input, larger: Input, ahead: int, i: int, ps: Seq<TreeView>)
    requires
        aligned(p, larger, ahead),
        0 <= i <= p.toks.len(),
    ensures
        agrees(p, ahead, i, privileges(p, i, ps), privileges(larger, ahead + i, ps)),
    decreases p.toks.len() - i, 0int,
{
    unfold_privileges(p, i, ps);
    unfold_privileges(larger, ahead + i, ps);
    if let Some(k) = one_of(p, i, seq![Keyword::INSERT, Keyword::SELECT, Keyword::UPDATE, Keyword::DELETE, Keyword::USAGE, Keyword::CREATE]) {
        let i = i + 1;
        let part = {
            match k {
                Keyword::INSERT => {
                    Got(TreeView::Node(Kind::InsertPrivilege, Seq::<TreeView>::empty()), i)
                },
                Keyword::SELECT => {
                    Got(TreeView::Node(Kind::SelectPrivilege, Seq::<TreeView>::empty()), i)
                },
                Keyword::UPDATE => {
                    Got(TreeView::Node(Kind::UpdatePrivilege, Seq::<TreeView>::empty()), i)
                },
                Keyword::DELETE => {
                    Got(TreeView::Node(Kind::DeletePrivilege, Seq::<TreeView>::empty()), i)
                },
                Keyword::USAGE => {
                    Got(TreeView::Node(Kind::UsagePrivilege, Seq::<TreeView>::empty()), i)
                },
                _ => {
                    Got(TreeView::Node(Kind::CreatePrivilege, Seq::<TreeView>::empty()), i)
                },
            }
        };
        if let Got(privilege, i) = onward(p, i, part) {
            if at_token(p, i, TokenView::Comma) {
                let i = i + 1;
                aligned_privileges(p, larger, ahead, i, ps.push(privilege));
            }
        }
    }
}

pub(crate) proof fn aligned_role_specification(p: Input, larger: Input, ahead: int, i: int)
    requires
        aligned(p, larger, ahead),
        0 <= i <= p.toks.len(),
    ensures
        agrees(p, ahead, i + 1, role_specification(p, i), role_specification(larger, ahead + i)),
{
    reveal(role_specification);
    let i = if at_keyword(p, i, Keyword::GROUP) { i + 1 } else { i };
    aligned_identifier(p, larger, ahead, i);
}

pub(crate) proof fn unfold_role_specification_list(p: Input, i: int, items: Seq<TreeView>)
    ensures
        role_specification_list(p, i, items) == ({
            match past(p, i, role_specification(p, i)) { Failed(e, i) => Failed(e, i), Got(item, i) => {
            if at_token(p, i, TokenView::Comma) {
                let i = i + 1;
                role_specification_list(p, i, items.push(item))
            } else {
                Got(items.push(item), i)
            }
            }}
        }),
{
    reveal(role_specification_list);
}

pub(crate) proof fn aligned_role_specification_list(p: Input, larger: Input, ahead: int, i: int, items: Seq<TreeView>)
    requires
        aligned(p, larger, ahead),
        0 <= i <= p.toks.len(),
    ensures
        agrees(p, ahead, i + 1, role_specification_list(p, i, items), role_specification_list(larger, ahead + i, items)),
    decreases p.toks.len() - i, 0int,
{
    unfold_role_specification_list(p, i, items);
    unfold_role_specification_list(larger, ahead + i, items);
    aligned_role_specification(p, larger, ahead, i);
    if let Got(item, i) = past(p, i, role_specification(p, i)) {
        if at_token(p, i, TokenView::Comma) {
            let i = i + 1;
            aligned_role_specification_list(p, larger, ahead, i, items.push(item));
        }
    }
}

pub(crate) proof fn aligned_reassign_owned(p: Input, larger: Input, ahead: int, i: int)
    requires
        aligned(p, larger, ahead),
        0 <= i <= p.toks.len(),
    ensures
        agrees(p, ahead, i + 1, reassign_owned(p, i), reassign_owned(larger, ahead + i)),
{
    reveal(reassign_owned);
    if at_keywords2(p, i, Keyword::OWNED, Keyword::BY) {
        let i = i + 2;
        aligned_identifier_list(p, larger, ahead, i, Seq::<TreeView>::empty());
        if let Got(old_roles, i) = identifier_list(p, i, Seq::<TreeView>::empty()) {
            if let Got(_, i) = keyword(p, i, Keyword::TO) {
                aligned_identifier(p, larger, ahead, i);
            }
        }
    }
}

} // verus!
