//! Statements.

use vstd::prelude::*;

use crate::sql_parser::alter::{alter, drop_statement};
use crate::sql_parser::as_of::{optional_as_of};
use crate::sql_parser::checks::{is_node, keyword_named, find_keyword, is_keyword, text_in, is_preparable, is_preparable_statement};
use crate::sql_parser::create::{create};
use crate::sql_parser::expr::{expr, expr_list};
use crate::sql_parser::grant::{grant, reassign_owned, revoke};
use crate::sql_parser::keywords::{Keyword, keyword_text};
use crate::sql_parser::kind::{Kind};
use crate::sql_parser::names::{identifier, identifier_list, item_name, literal_uint, optional_alias, optional_table_alias, parenthesized_column_list, raw_name, value};
use crate::sql_parser::options::{optional_option_value};
use crate::sql_parser::outcome::Out::{Failed, Got};
use crate::sql_parser::outcome::{Out, Failure, FailureView, error_view, error};
use crate::sql_parser::parser::{Parser, Input, at_keyword, at_keywords2, at_keywords4, at_token, token_at, position, keyword, token, one_of, one_keyword, past, expected_at};
use crate::sql_parser::query::{order_by_expr_list, query};
use crate::sql_parser::select::{select_item_list, where_clause};
use crate::sql_parser::show::{show};
use crate::sql_parser::syntax::{group_tree_views, Tree, TreeView, Trees, node, list, trees0, trees1, trees2, trees3, trees4, trees5};
use crate::sql_parser::tables::{table_and_joins_list};
use crate::sql_parser::text::{no_text};
use crate::sql_parser::token::{Token, TokenView};

verus! {

/// What [`Parser::parse_statements`] yields from the token at `i` on.
#[verifier::opaque]
pub open spec fn statements(p: Input, i: int, due: bool, stmts: Seq<TreeView>) -> Out<Seq<TreeView>>
    decreases p.toks.len() - i, 0int,
{
    if at_token(p, i, TokenView::Semicolon) {
        let i = i + 1;
        statements(p, i, false, stmts)
    } else {
        match token_at(p, i) {
            None => {
                Got(stmts, i)
            },
            _ => {
                if due {
                    Failed(expected_at(p, i, "end of statement"@), i)
                } else {
                    match past(p, i, statement(p, i)) { Failed(e, i) => Failed(e, i), Got(s, i) => {
                    statements(p, i, true, stmts.push(s))
                    }}
                }
            },
        }
    }
}

impl Parser {
    /// Parse the statements that follow those in `stmts`, up to the end of the text.
    /// Empty statements, between successive statement delimiters, are ignored. A
    /// delimiter is due after a statement.
    pub fn parse_statements(&mut self, mut due: bool, mut stmts: Trees) -> (r: Result<Trees, Failure>)
        requires
            old(self).ready(),
        ensures
            final(self).follows(*old(self), statements(old(self).input(), old(self).index as int, due, stmts@), r),
        decreases old(self).tokens.len() - old(self).index, 0int,
    {
        broadcast use group_tree_views;

        proof {
            reveal(statements);
        }
        let ghost before = *self;
        let ghost goal = statements(self.input(), self.index as int, due, stmts@);
        #[verifier::loop_isolation(false)]
        loop
            invariant
                self.ready(),
                self.input() == before.input(),
                self.tokens.len() == before.tokens.len(),
                before.index <= self.index,
                before == *old(self),
                statements(self.input(), self.index as int, due, stmts@) == goal,
            decreases self.tokens.len() - self.index,
        {
            proof {
                reveal(statements);
            }
            if self.consume_token(&Token::Semicolon) {
                due = false;
                continue;
            } else {
                match self.peek_token() {
                    None => {
                        return Ok(stmts);
                    },
                    _ => {
                        if due {
                            return Err(self.expected_here("end of statement"));
                        } else {
                            let s = self.parse_statement()?;
                            let next_due = true;
                            let next_stmts = stmts.with(s);
                            due = next_due;
                            stmts = next_stmts;
                            continue;
                        }
                    },
                }
            }
        }
    }
}

/// What [`Parser::parse_statement`] yields from the token at `i` on.
#[verifier::opaque]
pub open spec fn statement(p: Input, i: int) -> Out<TreeView>
    decreases p.toks.len() - i, 0int,
{
    let found = token_at(p, i);
    let i = i + 1;
    match found {
        Some(TokenView::Keyword(Keyword::SELECT)) | Some(TokenView::Keyword(Keyword::WITH)) | Some(TokenView::Keyword(Keyword::VALUES)) => {
            let i = i - 1;
            match query(p, i) { Failed(e, i) => Failed(e, i), Got(q, i) => {
            match optional_as_of(p, i) { Failed(e, i) => Failed(e, i), Got(as_of, i) => {
            Got(TreeView::Node(Kind::SelectStatement, seq![q, as_of]), i)
            }}
            }}
        },
        Some(TokenView::Keyword(Keyword::CREATE)) => {
            create(p, i)
        },
        Some(TokenView::Keyword(Keyword::DISCARD)) => {
            discard(p, i)
        },
        Some(TokenView::Keyword(Keyword::DROP)) => {
            drop_statement(p, i)
        },
        Some(TokenView::Keyword(Keyword::DELETE)) => {
            delete(p, i)
        },
        Some(TokenView::Keyword(Keyword::INSERT)) => {
            insert(p, i)
        },
        Some(TokenView::Keyword(Keyword::UPDATE)) => {
            update(p, i)
        },
        Some(TokenView::Keyword(Keyword::ALTER)) => {
            alter(p, i)
        },
        Some(TokenView::Keyword(Keyword::COPY)) => {
            copy(p, i)
        },
        Some(TokenView::Keyword(Keyword::SET)) => {
            set(p, i)
        },
        Some(TokenView::Keyword(Keyword::RESET)) => {
            reset(p, i)
        },
        Some(TokenView::Keyword(Keyword::SHOW)) => {
            match show(p, i) { Failed(e, i) => Failed(e, i), Got(shown, i) => {
            Got(TreeView::Node(Kind::ShowStatement, seq![shown]), i)
            }}
        },
        Some(TokenView::Keyword(Keyword::START)) => {
            start_transaction(p, i)
        },
        Some(TokenView::Keyword(Keyword::BEGIN)) => {
            begin(p, i)
        },
        Some(TokenView::Keyword(Keyword::COMMIT)) => {
            commit(p, i)
        },
        Some(TokenView::Keyword(Keyword::ROLLBACK)) => {
            rollback(p, i)
        },
        Some(TokenView::Keyword(Keyword::TAIL)) => {
            Failed(error_view(position(p, i - 1), no_text() + "TAIL has been renamed to SUBSCRIBE"@), i)
        },
        Some(TokenView::Keyword(Keyword::SUBSCRIBE)) => {
            subscribe(p, i)
        },
        Some(TokenView::Keyword(Keyword::EXPLAIN)) => {
            explain(p, i)
        },
        Some(TokenView::Keyword(Keyword::DECLARE)) => {
            declare(p, i)
        },
        Some(TokenView::Keyword(Keyword::FETCH)) => {
            fetch(p, i)
        },
        Some(TokenView::Keyword(Keyword::CLOSE)) => {
            close(p, i)
        },
        Some(TokenView::Keyword(Keyword::PREPARE)) => {
            prepare(p, i)
        },
        Some(TokenView::Keyword(Keyword::EXECUTE)) => {
            execute(p, i)
        },
        Some(TokenView::Keyword(Keyword::DEALLOCATE)) => {
            deallocate(p, i)
        },
        Some(TokenView::Keyword(Keyword::RAISE)) => {
            raise(p, i)
        },
        Some(TokenView::Keyword(Keyword::GRANT)) => {
            grant(p, i)
        },
        Some(TokenView::Keyword(Keyword::REVOKE)) => {
            revoke(p, i)
        },
        Some(TokenView::Keyword(Keyword::REASSIGN)) => {
            reassign_owned(p, i)
        },
        Some(TokenView::Keyword(k)) => {
            Failed(error_view(position(p, i - 1), no_text() + "Unexpected keyword "@ + keyword_text(k) + " at the beginning of a statement"@), i)
        },
        Some(TokenView::LParen) => {
            let i = i - 1;
            match query(p, i) { Failed(e, i) => Failed(e, i), Got(q, i) => {
            Got(TreeView::Node(Kind::SelectStatement, seq![q, TreeView::Absent]), i)
            }}
        },
        None => {
            Failed(expected_at(p, i - 1, "SQL statement"@), i)
        },
        _ => {
            Failed(expected_at(p, i - 1, "a keyword at the beginning of a statement"@), i)
        },
    }
}

impl Parser {
    /// Parse a single top-level statement (such as SELECT, INSERT, CREATE, etc.),
    /// stopping before the statement separator, if any.
    #[verifier::rlimit(60)]
    pub fn parse_statement(&mut self) -> (r: Result<Tree, Failure>)
        requires
            old(self).ready(),
        ensures
            final(self).follows(*old(self), statement(old(self).input(), old(self).index as int), r),
            r is Ok ==> final(self).index > old(self).index,
        decreases old(self).tokens.len() - old(self).index, 0int,
    {
        broadcast use group_tree_views;

        proof {
            reveal(statement);
            reveal(copy);
            reveal(declare);
            reveal(prepare);
        }
        match self.next_token() {
            Some(Token::Keyword(Keyword::SELECT)) | Some(Token::Keyword(Keyword::WITH)) | Some(Token::Keyword(Keyword::VALUES)) => {
                self.prev_token();
                let q = self.parse_query()?;
                let as_of = self.parse_optional_as_of()?;
                Ok(node(Kind::SelectStatement, trees2(q, as_of)))
            },
            Some(Token::Keyword(Keyword::CREATE)) => {
                self.parse_create()
            },
            Some(Token::Keyword(Keyword::DISCARD)) => {
                self.parse_discard()
            },
            Some(Token::Keyword(Keyword::DROP)) => {
                self.parse_drop()
            },
            Some(Token::Keyword(Keyword::DELETE)) => {
                self.parse_delete()
            },
            Some(Token::Keyword(Keyword::INSERT)) => {
                self.parse_insert()
            },
            Some(Token::Keyword(Keyword::UPDATE)) => {
                self.parse_update()
            },
            Some(Token::Keyword(Keyword::ALTER)) => {
                self.parse_alter()
            },
            Some(Token::Keyword(Keyword::COPY)) => {
                self.parse_copy()
            },
            Some(Token::Keyword(Keyword::SET)) => {
                self.parse_set()
            },
            Some(Token::Keyword(Keyword::RESET)) => {
                self.parse_reset()
            },
            Some(Token::Keyword(Keyword::SHOW)) => {
                let shown = self.parse_show()?;
                Ok(node(Kind::ShowStatement, trees1(shown)))
            },
            Some(Token::Keyword(Keyword::START)) => {
                self.parse_start_transaction()
            },
            Some(Token::Keyword(Keyword::BEGIN)) => {
                self.parse_begin()
            },
            Some(Token::Keyword(Keyword::COMMIT)) => {
                self.parse_commit()
            },
            Some(Token::Keyword(Keyword::ROLLBACK)) => {
                self.parse_rollback()
            },
            Some(Token::Keyword(Keyword::TAIL)) => {
                let pos: usize = self.peek_prev_pos();
                Err(error(pos, String::new().concat("TAIL has been renamed to SUBSCRIBE")))
            },
            Some(Token::Keyword(Keyword::SUBSCRIBE)) => {
                self.parse_subscribe()
            },
            Some(Token::Keyword(Keyword::EXPLAIN)) => {
                self.parse_explain()
            },
            Some(Token::Keyword(Keyword::DECLARE)) => {
                self.parse_declare()
            },
            Some(Token::Keyword(Keyword::FETCH)) => {
                self.parse_fetch()
            },
            Some(Token::Keyword(Keyword::CLOSE)) => {
                self.parse_close()
            },
            Some(Token::Keyword(Keyword::PREPARE)) => {
                self.parse_prepare()
            },
            Some(Token::Keyword(Keyword::EXECUTE)) => {
                self.parse_execute()
            },
            Some(Token::Keyword(Keyword::DEALLOCATE)) => {
                self.parse_deallocate()
            },
            Some(Token::Keyword(Keyword::RAISE)) => {
                self.parse_raise()
            },
            Some(Token::Keyword(Keyword::GRANT)) => {
                self.parse_grant()
            },
            Some(Token::Keyword(Keyword::REVOKE)) => {
                self.parse_revoke()
            },
            Some(Token::Keyword(Keyword::REASSIGN)) => {
                self.parse_reassign_owned()
            },
            Some(Token::Keyword(k)) => {
                let pos: usize = self.peek_prev_pos();
                Err(error(pos, String::new().concat("Unexpected keyword ").concat(k.as_str()).concat(" at the beginning of a statement")))
            },
            Some(Token::LParen) => {
                self.prev_token();
                let q = self.parse_query()?;
                Ok(node(Kind::SelectStatement, trees2(q, Tree::Absent)))
            },
            None => {
                Err(self.expected_prev("SQL statement"))
            },
            _ => {
                Err(self.expected_prev("a keyword at the beginning of a statement"))
            },
        }
    }
}

/// What [`Parser::parse_discard`] yields from the token at `i` on.
#[verifier::opaque]
pub open spec fn discard(p: Input, i: int) -> Out<TreeView>
{
    match one_keyword(p, i, seq![Keyword::ALL, Keyword::PLANS, Keyword::SEQUENCES, Keyword::TEMP, Keyword::TEMPORARY]) { Failed(e, i) => Failed(e, i), Got(k, i) => {
    match k {
        Keyword::ALL => {
            Got(TreeView::Node(Kind::Discard, seq![TreeView::Node(Kind::DiscardAll, Seq::<TreeView>::empty())]), i)
        },
        Keyword::PLANS => {
            Got(TreeView::Node(Kind::Discard, seq![TreeView::Node(Kind::DiscardPlans, Seq::<TreeView>::empty())]), i)
        },
        Keyword::SEQUENCES => {
            Got(TreeView::Node(Kind::Discard, seq![TreeView::Node(Kind::DiscardSequences, Seq::<TreeView>::empty())]), i)
        },
        _ => {
            Got(TreeView::Node(Kind::Discard, seq![TreeView::Node(Kind::DiscardTemp, Seq::<TreeView>::empty())]), i)
        },
    }
    }}
}

impl Parser {
    /// Parse a `DISCARD` statement.
    pub fn parse_discard(&mut self) -> (r: Result<Tree, Failure>)
        requires
            old(self).ready(),
        ensures
            final(self).follows(*old(self), discard(old(self).input(), old(self).index as int), r),
            r is Ok ==> final(self).index > old(self).index,
            r matches Err(e) ==> !(e@ is Unhandled),
    {
        broadcast use group_tree_views;

        proof {
            reveal(discard);
        }
        let choices: [Keyword; 5] = [Keyword::ALL, Keyword::PLANS, Keyword::SEQUENCES, Keyword::TEMP, Keyword::TEMPORARY];
        assert(choices@ =~= seq![Keyword::ALL, Keyword::PLANS, Keyword::SEQUENCES, Keyword::TEMP, Keyword::TEMPORARY]);
        let k = self.expect_one_of_keywords(&choices)?;
        match k {
            Keyword::ALL => {
                Ok(node(Kind::Discard, trees1(node(Kind::DiscardAll, trees0()))))
            },
            Keyword::PLANS => {
                Ok(node(Kind::Discard, trees1(node(Kind::DiscardPlans, trees0()))))
            },
            Keyword::SEQUENCES => {
                Ok(node(Kind::Discard, trees1(node(Kind::DiscardSequences, trees0()))))
            },
            _ => {
                Ok(node(Kind::Discard, trees1(node(Kind::DiscardTemp, trees0()))))
            },
        }
    }
}

/// What [`Parser::parse_delete`] yields from the token at `i` on.
#[verifier::opaque]
pub open spec fn delete(p: Input, i: int) -> Out<TreeView>
{
    match keyword(p, i, Keyword::FROM) { Failed(e, i) => Failed(e, i), Got(_, i) => {
    match item_name(p, i) { Failed(e, i) => Failed(e, i), Got(table_name, i) => {
    match optional_table_alias(p, i) { Failed(e, i) => Failed(e, i), Got(alias, i) => {
    match {
        if at_keyword(p, i, Keyword::USING) {
            let i = i + 1;
            match table_and_joins_list(p, i, Seq::<TreeView>::empty()) { Failed(e, i) => Failed(e, i), Got(ts, i) => {
            Got(TreeView::List(ts), i)
            }}
        } else {
            Got(TreeView::List(Seq::<TreeView>::empty()), i)
        }
    } { Failed(e, i) => Failed(e, i), Got(using, i) => {
    match where_clause(p, i) { Failed(e, i) => Failed(e, i), Got(selection, i) => {
    Got(TreeView::Node(Kind::Delete, seq![table_name, alias, using, selection]), i)
    }}
    }}
    }}
    }}
    }}
}

impl Parser {
    /// Parse a `DELETE` statement.
    #[verifier::rlimit(30)]
    pub fn parse_delete(&mut self) -> (r: Result<Tree, Failure>)
        requires
            old(self).ready(),
        ensures
            final(self).follows(*old(self), delete(old(self).input(), old(self).index as int), r),
            r is Ok ==> final(self).index > old(self).index,
            r matches Err(e) ==> !(e@ is Unhandled),
    {
        broadcast use group_tree_views;

        proof {
            reveal(delete);
        }
        self.expect_keyword(Keyword::FROM)?;
        let table_name = self.parse_item_name()?;
        let alias = self.parse_optional_table_alias()?;
        let using = if self.parse_keyword(Keyword::USING) {
            let ts = self.parse_table_and_joins_list(trees0())?;
            list(ts)
        } else {
            list(trees0())
        };
        let selection = self.parse_where_clause()?;
        Ok(node(Kind::Delete, trees4(table_name, alias, using, selection)))
    }
}

/// What [`Parser::parse_insert`] yields from the token at `i` on.
#[verifier::opaque]
pub open spec fn insert(p: Input, i: int) -> Out<TreeView>
{
    match keyword(p, i, Keyword::INTO) { Failed(e, i) => Failed(e, i), Got(_, i) => {
    match raw_name(p, i) { Failed(e, i) => Failed(e, i), Got(table_name, i) => {
    match parenthesized_column_list(p, i, true) { Failed(e, i) => Failed(e, i), Got(columns, i) => {
    match {
        if at_keywords2(p, i, Keyword::DEFAULT, Keyword::VALUES) {
            let i = i + 2;
            Got(TreeView::Node(Kind::DefaultValues, Seq::<TreeView>::empty()), i)
        } else {
            query(p, i)
        }
    } { Failed(e, i) => Failed(e, i), Got(source, i) => {
    match returning(p, i) { Failed(e, i) => Failed(e, i), Got(returning, i) => {
    Got(TreeView::Node(Kind::Insert, seq![table_name, columns, source, returning]), i)
    }}
    }}
    }}
    }}
    }}
}

impl Parser {
    /// Parse an INSERT statement.
    pub fn parse_insert(&mut self) -> (r: Result<Tree, Failure>)
        requires
            old(self).ready(),
        ensures
            final(self).follows(*old(self), insert(old(self).input(), old(self).index as int), r),
            r is Ok ==> final(self).index > old(self).index,
            r matches Err(e) ==> !(e@ is Unhandled),
    {
        broadcast use group_tree_views;

        proof {
            reveal(insert);
        }
        self.expect_keyword(Keyword::INTO)?;
        let table_name = self.parse_raw_name()?;
        let columns = self.parse_parenthesized_column_list(true)?;
        let source = if self.parse_keywords2(Keyword::DEFAULT, Keyword::VALUES) {
            node(Kind::DefaultValues, trees0())
        } else {
            self.parse_query()?
        };
        let returning = self.parse_returning()?;
        Ok(node(Kind::Insert, trees4(table_name, columns, source, returning)))
    }
}

/// What [`Parser::parse_returning`] yields from the token at `i` on.
#[verifier::opaque]
pub open spec fn returning(p: Input, i: int) -> Out<TreeView>
{
    if at_keyword(p, i, Keyword::RETURNING) {
        let i = i + 1;
        match select_item_list(p, i, Seq::<TreeView>::empty()) { Failed(e, i) => Failed(e, i), Got(items, i) => {
        Got(TreeView::List(items), i)
        }}
    } else {
        Got(TreeView::List(Seq::<TreeView>::empty()), i)
    }
}

impl Parser {
    /// Parse a `RETURNING` clause, if there is one.
    pub fn parse_returning(&mut self) -> (r: Result<Tree, Failure>)
        requires
            old(self).ready(),
        ensures
            final(self).follows(*old(self), returning(old(self).input(), old(self).index as int), r),
            r matches Err(e) ==> !(e@ is Unhandled),
    {
        broadcast use group_tree_views;

        proof {
            reveal(returning);
        }
        if self.parse_keyword(Keyword::RETURNING) {
            let items = self.parse_select_item_list(trees0())?;
            Ok(list(items))
        } else {
            Ok(list(trees0()))
        }
    }
}

/// What [`Parser::parse_update`] yields from the token at `i` on.
#[verifier::opaque]
pub open spec fn update(p: Input, i: int) -> Out<TreeView>
{
    match item_name(p, i) { Failed(e, i) => Failed(e, i), Got(table_name, i) => {
    match optional_alias(p, i, true) { Failed(e, i) => Failed(e, i), Got(alias, i) => {
    match keyword(p, i, Keyword::SET) { Failed(e, i) => Failed(e, i), Got(_, i) => {
    match assignment_list(p, i, Seq::<TreeView>::empty()) { Failed(e, i) => Failed(e, i), Got(assignments, i) => {
    match where_clause(p, i) { Failed(e, i) => Failed(e, i), Got(selection, i) => {
    if alias is Absent {
        Got(TreeView::Node(Kind::Update, seq![table_name, TreeView::Absent, TreeView::List(assignments), selection]), i)
    } else {
        Got(TreeView::Node(Kind::Update, seq![table_name, TreeView::Node(Kind::TableAlias, seq![alias, TreeView::List(Seq::<TreeView>::empty()), TreeView::Flag(false)]), TreeView::List(assignments), selection]), i)
    }
    }}
    }}
    }}
    }}
    }}
}

impl Parser {
    /// Parse an `UPDATE` statement. The alias here doesn't support columns.
    #[verifier::rlimit(30)]
    pub fn parse_update(&mut self) -> (r: Result<Tree, Failure>)
        requires
            old(self).ready(),
        ensures
            final(self).follows(*old(self), update(old(self).input(), old(self).index as int), r),
            r is Ok ==> final(self).index > old(self).index,
            r matches Err(e) ==> !(e@ is Unhandled),
    {
        broadcast use group_tree_views;

        proof {
            reveal(update);
        }
        let table_name = self.parse_item_name()?;
        let alias = self.parse_optional_alias(true)?;
        self.expect_keyword(Keyword::SET)?;
        let assignments = self.parse_assignment_list(trees0())?;
        let selection = self.parse_where_clause()?;
        if alias.is_absent() {
            Ok(node(Kind::Update, trees4(table_name, Tree::Absent, list(assignments), selection)))
        } else {
            Ok(node(Kind::Update, trees4(table_name, node(Kind::TableAlias, trees3(alias, list(trees0()), Tree::Flag(false))), list(assignments), selection)))
        }
    }
}

/// What [`Parser::parse_assignment`] yields from the token at `i` on.
#[verifier::opaque]
pub open spec fn assignment(p: Input, i: int) -> Out<TreeView>
{
    match identifier(p, i) { Failed(e, i) => Failed(e, i), Got(id, i) => {
    match token(p, i, TokenView::Eq) { Failed(e, i) => Failed(e, i), Got(_, i) => {
    match expr(p, i) { Failed(e, i) => Failed(e, i), Got(v, i) => {
    Got(TreeView::Node(Kind::Assignment, seq![id, v]), i)
    }}
    }}
    }}
}

impl Parser {
    /// Parse a `var = expr` assignment, used in an UPDATE statement.
    pub fn parse_assignment(&mut self) -> (r: Result<Tree, Failure>)
        requires
            old(self).ready(),
        ensures
            final(self).follows(*old(self), assignment(old(self).input(), old(self).index as int), r),
            r is Ok ==> final(self).index > old(self).index,
            r matches Err(e) ==> !(e@ is Unhandled),
    {
        broadcast use group_tree_views;

        proof {
            reveal(assignment);
        }
        let id = self.parse_identifier()?;
        self.expect_token(&Token::Eq)?;
        let v = self.parse_expr()?;
        Ok(node(Kind::Assignment, trees2(id, v)))
    }
}

/// What [`Parser::parse_assignment_list`] yields from the token at `i` on.
#[verifier::opaque]
pub open spec fn assignment_list(p: Input, i: int, items: Seq<TreeView>) -> Out<Seq<TreeView>>
    decreases p.toks.len() - i, 0int,
{
    match past(p, i, assignment(p, i)) { Failed(e, i) => Failed(e, i), Got(item, i) => {
    if at_token(p, i, TokenView::Comma) {
        let i = i + 1;
        assignment_list(p, i, items.push(item))
    } else {
        Got(items.push(item), i)
    }
    }}
}

impl Parser {
    /// Parses one or more `assignment`, separated by commas, after those in `items`.
    pub fn parse_assignment_list(&mut self, mut items: Trees) -> (r: Result<Trees, Failure>)
        requires
            old(self).ready(),
        ensures
            final(self).follows(*old(self), assignment_list(old(self).input(), old(self).index as int, items@), r),
            r is Ok ==> final(self).index > old(self).index,
            r matches Ok(all) ==> all@.len() > items@.len(),
            r matches Err(e) ==> !(e@ is Unhandled),
        decreases old(self).tokens.len() - old(self).index, 0int,
    {
        broadcast use group_tree_views;

        proof {
            reveal(assignment_list);
        }
        let ghost before = *self;
        let ghost given = items@.len();
        let ghost goal = assignment_list(self.input(), self.index as int, items@);
        #[verifier::loop_isolation(false)]
        loop
            invariant
                self.ready(),
                self.input() == before.input(),
                self.tokens.len() == before.tokens.len(),
                before.index <= self.index,
                before == *old(self),
                given <= items@.len(),
                assignment_list(self.input(), self.index as int, items@) == goal,
            decreases self.tokens.len() - self.index,
        {
            proof {
                reveal(assignment_list);
            }
            let item = self.parse_assignment()?;
            if self.consume_token(&Token::Comma) {
                items = items.with(item);
                continue;
            } else {
                return Ok(items.with(item));
            }
        }
    }
}

/// What [`Parser::parse_copy`] yields from the token at `i` on.
#[verifier::opaque]
pub open spec fn copy(p: Input, i: int) -> Out<TreeView>
    decreases p.toks.len() - i, 0int,
{
    match {
        if at_token(p, i, TokenView::LParen) {
            let i = i + 1;
            match statement(p, i) { Failed(e, i) => Failed(e, i), Got(s, i) => {
            match token(p, i, TokenView::RParen) { Failed(e, i) => Failed(e, i), Got(_, i) => {
            if is_node(s, Kind::SelectStatement) {
                Got(s, i)
            } else {
                if is_node(s, Kind::Subscribe) {
                    Got(s, i)
                } else {
                    Failed(error_view(position(p, i - 1), no_text() + "unsupported query in COPY"@), i)
                }
            }
            }}
            }}
        } else {
            match raw_name(p, i) { Failed(e, i) => Failed(e, i), Got(name, i) => {
            match parenthesized_column_list(p, i, true) { Failed(e, i) => Failed(e, i), Got(columns, i) => {
            Got(TreeView::Node(Kind::CopyTable, seq![name, columns]), i)
            }}
            }}
        }
    } { Failed(e, i) => Failed(e, i), Got(relation, i) => {
    match one_keyword(p, i, seq![Keyword::FROM, Keyword::TO]) { Failed(e, i) => Failed(e, i), Got(k, i) => {
    match {
        if k == Keyword::TO {
            match keyword(p, i, Keyword::STDOUT) { Failed(e, i) => Failed(e, i), Got(_, i) => {
            Got(TreeView::Node(Kind::CopyTo, Seq::<TreeView>::empty()), i)
            }}
        } else {
            if !is_node(relation, Kind::CopyTable) {
                Failed(error_view(position(p, i - 1), no_text() + "queries not allowed in COPY FROM"@), i)
            } else {
                match keyword(p, i, Keyword::STDIN) { Failed(e, i) => Failed(e, i), Got(_, i) => {
                Got(TreeView::Node(Kind::CopyFrom, Seq::<TreeView>::empty()), i)
                }}
            }
        }
    } { Failed(e, i) => Failed(e, i), Got(direction, i) => {
    match {
        if at_keyword(p, i, Keyword::WITH) {
            let i = i + 1;
            match token(p, i, TokenView::LParen) { Failed(e, i) => Failed(e, i), Got(_, i) => {
            Got(true, i)
            }}
        } else {
            if at_token(p, i, TokenView::LParen) {
                let i = i + 1;
                Got(true, i)
            } else {
                Got(false, i)
            }
        }
    } { Failed(e, i) => Failed(e, i), Got(has_options, i) => {
    if has_options {
        match copy_option_list(p, i, Seq::<TreeView>::empty()) { Failed(e, i) => Failed(e, i), Got(options, i) => {
        match token(p, i, TokenView::RParen) { Failed(e, i) => Failed(e, i), Got(_, i) => {
        Got(TreeView::Node(Kind::Copy, seq![relation, direction, TreeView::List(options)]), i)
        }}
        }}
    } else {
        Got(TreeView::Node(Kind::Copy, seq![relation, direction, TreeView::List(Seq::<TreeView>::empty())]), i)
    }
    }}
    }}
    }}
    }}
}

impl Parser {
    /// Parse a copy statement.
    #[verifier::rlimit(60)]
    pub fn parse_copy(&mut self) -> (r: Result<Tree, Failure>)
        requires
            old(self).ready(),
        ensures
            final(self).follows(*old(self), copy(old(self).input(), old(self).index as int), r),
            r is Ok ==> final(self).index > old(self).index,
        decreases old(self).tokens.len() - old(self).index, 0int,
    {
        broadcast use group_tree_views;

        proof {
            reveal(copy);
            reveal(statement);
        }
        let relation = if self.consume_token(&Token::LParen) {
            let s = self.parse_statement()?;
            self.expect_token(&Token::RParen)?;
            if s.is_node(Kind::SelectStatement) {
                s
            } else if s.is_node(Kind::Subscribe) {
                s
            } else {
                let pos: usize = self.peek_prev_pos();
                return Err(error(pos, String::new().concat("unsupported query in COPY")));
            }
        } else {
            let name = self.parse_raw_name()?;
            let columns = self.parse_parenthesized_column_list(true)?;
            node(Kind::CopyTable, trees2(name, columns))
        };
        let choices: [Keyword; 2] = [Keyword::FROM, Keyword::TO];
        assert(choices@ =~= seq![Keyword::FROM, Keyword::TO]);
        let k = self.expect_one_of_keywords(&choices)?;
        let direction = if k == Keyword::TO {
            self.expect_keyword(Keyword::STDOUT)?;
            node(Kind::CopyTo, trees0())
        } else if !relation.is_node(Kind::CopyTable) {
            let pos: usize = self.peek_prev_pos();
            return Err(error(pos, String::new().concat("queries not allowed in COPY FROM")));
        } else {
            self.expect_keyword(Keyword::STDIN)?;
            node(Kind::CopyFrom, trees0())
        };
        let has_options = if self.parse_keyword(Keyword::WITH) {
            self.expect_token(&Token::LParen)?;
            true
        } else if self.consume_token(&Token::LParen) {
            true
        } else {
            false
        };
        if has_options {
            let options = self.parse_copy_option_list(trees0())?;
            self.expect_token(&Token::RParen)?;
            Ok(node(Kind::Copy, trees3(relation, direction, list(options))))
        } else {
            Ok(node(Kind::Copy, trees3(relation, direction, list(trees0()))))
        }
    }
}

/// What [`Parser::parse_copy_option`] yields from the token at `i` on.
#[verifier::opaque]
pub open spec fn copy_option(p: Input, i: int) -> Out<TreeView>
{
    match one_keyword(p, i, seq![Keyword::FORMAT, Keyword::DELIMITER, Keyword::NULL, Keyword::ESCAPE, Keyword::QUOTE, Keyword::HEADER]) { Failed(e, i) => Failed(e, i), Got(k, i) => {
    match {
        match k {
            Keyword::FORMAT => {
                Got(TreeView::Node(Kind::CopyFormat, Seq::<TreeView>::empty()), i)
            },
            Keyword::DELIMITER => {
                Got(TreeView::Node(Kind::CopyDelimiter, Seq::<TreeView>::empty()), i)
            },
            Keyword::NULL => {
                Got(TreeView::Node(Kind::CopyNull, Seq::<TreeView>::empty()), i)
            },
            Keyword::ESCAPE => {
                Got(TreeView::Node(Kind::CopyEscape, Seq::<TreeView>::empty()), i)
            },
            Keyword::QUOTE => {
                Got(TreeView::Node(Kind::CopyQuote, Seq::<TreeView>::empty()), i)
            },
            _ => {
                Got(TreeView::Node(Kind::CopyHeader, Seq::<TreeView>::empty()), i)
            },
        }
    } { Failed(e, i) => Failed(e, i), Got(name, i) => {
    match optional_option_value(p, i) { Failed(e, i) => Failed(e, i), Got(v, i) => {
    Got(TreeView::Node(Kind::CopyOption, seq![name, v]), i)
    }}
    }}
    }}
}

impl Parser {
    /// Parse an option of a copy statement.
    pub fn parse_copy_option(&mut self) -> (r: Result<Tree, Failure>)
        requires
            old(self).ready(),
        ensures
            final(self).follows(*old(self), copy_option(old(self).input(), old(self).index as int), r),
            r is Ok ==> final(self).index > old(self).index,
            r matches Err(e) ==> !(e@ is Unhandled),
    {
        broadcast use group_tree_views;

        proof {
            reveal(copy_option);
        }
        let choices: [Keyword; 6] = [Keyword::FORMAT, Keyword::DELIMITER, Keyword::NULL, Keyword::ESCAPE, Keyword::QUOTE, Keyword::HEADER];
        assert(choices@ =~= seq![Keyword::FORMAT, Keyword::DELIMITER, Keyword::NULL, Keyword::ESCAPE, Keyword::QUOTE, Keyword::HEADER]);
        let k = self.expect_one_of_keywords(&choices)?;
        let name = match k {
            Keyword::FORMAT => {
                node(Kind::CopyFormat, trees0())
            },
            Keyword::DELIMITER => {
                node(Kind::CopyDelimiter, trees0())
            },
            Keyword::NULL => {
                node(Kind::CopyNull, trees0())
            },
            Keyword::ESCAPE => {
                node(Kind::CopyEscape, trees0())
            },
            Keyword::QUOTE => {
                node(Kind::CopyQuote, trees0())
            },
            _ => {
                node(Kind::CopyHeader, trees0())
            },
        };
        let v = self.parse_optional_option_value()?;
        Ok(node(Kind::CopyOption, trees2(name, v)))
    }
}

/// What [`Parser::parse_copy_option_list`] yields from the token at `i` on.
#[verifier::opaque]
pub open spec fn copy_option_list(p: Input, i: int, items: Seq<TreeView>) -> Out<Seq<TreeView>>
    decreases p.toks.len() - i, 0int,
{
    match past(p, i, copy_option(p, i)) { Failed(e, i) => Failed(e, i), Got(item, i) => {
    if at_token(p, i, TokenView::Comma) {
        let i = i + 1;
        copy_option_list(p, i, items.push(item))
    } else {
        Got(items.push(item), i)
    }
    }}
}

impl Parser {
    /// Parses one or more `copy_option`, separated by commas, after those in `items`.
    pub fn parse_copy_option_list(&mut self, mut items: Trees) -> (r: Result<Trees, Failure>)
        requires
            old(self).ready(),
        ensures
            final(self).follows(*old(self), copy_option_list(old(self).input(), old(self).index as int, items@), r),
            r is Ok ==> final(self).index > old(self).index,
            r matches Ok(all) ==> all@.len() > items@.len(),
            r matches Err(e) ==> !(e@ is Unhandled),
        decreases old(self).tokens.len() - old(self).index, 0int,
    {
        broadcast use group_tree_views;

        proof {
            reveal(copy_option_list);
        }
        let ghost before = *self;
        let ghost given = items@.len();
        let ghost goal = copy_option_list(self.input(), self.index as int, items@);
        #[verifier::loop_isolation(false)]
        loop
            invariant
                self.ready(),
                self.input() == before.input(),
                self.tokens.len() == before.tokens.len(),
                before.index <= self.index,
                before == *old(self),
                given <= items@.len(),
                copy_option_list(self.input(), self.index as int, items@) == goal,
            decreases self.tokens.len() - self.index,
        {
            proof {
                reveal(copy_option_list);
            }
            let item = self.parse_copy_option()?;
            if self.consume_token(&Token::Comma) {
                items = items.with(item);
                continue;
            } else {
                return Ok(items.with(item));
            }
        }
    }
}

/// What [`Parser::parse_set`] yields from the token at `i` on.
#[verifier::opaque]
pub open spec fn set(p: Input, i: int) -> Out<TreeView>
{
    match {
        match one_of(p, i, seq![Keyword::SESSION, Keyword::LOCAL]) {
            Some(k) => {
                let i = i + 1;
                if k == Keyword::LOCAL {
                    Got(Kind::LocalScope, i)
                } else {
                    Got(Kind::SessionScope, i)
                }
            },
            None => {
                Got(Kind::NoType, i)
            },
        }
    } { Failed(e, i) => Failed(e, i), Got(modifier, i) => {
    match identifier_text(p, i) { Failed(e, i) => Failed(e, i), Got(name, i) => {
    match {
        if at_token(p, i, TokenView::Eq) {
            let i = i + 1;
            Got(true, i)
        } else {
            if at_keyword(p, i, Keyword::TO) {
                let i = i + 1;
                Got(true, i)
            } else {
                Got(false, i)
            }
        }
    } { Failed(e, i) => Failed(e, i), Got(normal, i) => {
    let local = modifier == Kind::LocalScope;
    let known = keyword_named(name);
    if known == Some(Keyword::SCHEMA) {
        match set_schema_to(p, i) { Failed(e, i) => Failed(e, i), Got(to, i) => {
        Got(TreeView::Node(Kind::SetVariable, seq![TreeView::Flag(local), TreeView::Text("search_path"@), to]), i)
        }}
    } else {
        if normal {
            match set_variable_to(p, i) { Failed(e, i) => Failed(e, i), Got(to, i) => {
            Got(TreeView::Node(Kind::SetVariable, seq![TreeView::Flag(local), TreeView::Text(name), to]), i)
            }}
        } else {
            if known == Some(Keyword::TIME) {
                match keyword(p, i, Keyword::ZONE) { Failed(e, i) => Failed(e, i), Got(_, i) => {
                match set_variable_to(p, i) { Failed(e, i) => Failed(e, i), Got(to, i) => {
                Got(TreeView::Node(Kind::SetVariable, seq![TreeView::Flag(local), TreeView::Text("timezone"@), to]), i)
                }}
                }}
            } else {
                if known == Some(Keyword::NAMES) {
                    match set_variable_to(p, i) { Failed(e, i) => Failed(e, i), Got(to, i) => {
                    Got(TreeView::Node(Kind::SetVariable, seq![TreeView::Flag(local), TreeView::Text("client_encoding"@), to]), i)
                    }}
                } else {
                    if known == Some(Keyword::TRANSACTION) && modifier == Kind::NoType {
                        match transaction_modes(p, i, true, Seq::<TreeView>::empty()) { Failed(e, i) => Failed(e, i), Got(modes, i) => {
                        Got(TreeView::Node(Kind::SetTransaction, seq![TreeView::Flag(true), TreeView::List(modes)]), i)
                        }}
                    } else {
                        if modifier == Kind::SessionScope && known == Some(Keyword::CHARACTERISTICS) {
                            if at_keywords2(p, i, Keyword::AS, Keyword::TRANSACTION) {
                                let i = i + 2;
                                match transaction_modes(p, i, true, Seq::<TreeView>::empty()) { Failed(e, i) => Failed(e, i), Got(modes, i) => {
                                Got(TreeView::Node(Kind::SetTransaction, seq![TreeView::Flag(false), TreeView::List(modes)]), i)
                                }}
                            } else {
                                Failed(expected_at(p, i, "equals sign or TO"@), i)
                            }
                        } else {
                            Failed(expected_at(p, i, "equals sign or TO"@), i)
                        }
                    }
                }
            }
        }
    }
    }}
    }}
    }}
}

impl Parser {
    /// Parse a `SET` statement.
    #[verifier::rlimit(60)]
    pub fn parse_set(&mut self) -> (r: Result<Tree, Failure>)
        requires
            old(self).ready(),
        ensures
            final(self).follows(*old(self), set(old(self).input(), old(self).index as int), r),
            r is Ok ==> final(self).index > old(self).index,
            r matches Err(e) ==> !(e@ is Unhandled),
    {
        broadcast use group_tree_views;

        proof {
            reveal(set);
        }
        let choices: [Keyword; 2] = [Keyword::SESSION, Keyword::LOCAL];
        assert(choices@ =~= seq![Keyword::SESSION, Keyword::LOCAL]);
        let modifier = match self.parse_one_of_keywords(&choices) {
            Some(k) => {
                if k == Keyword::LOCAL {
                    Kind::LocalScope
                } else {
                    Kind::SessionScope
                }
            },
            None => {
                Kind::NoType
            },
        };
        let name = self.parse_identifier_text()?;
        let normal = if self.consume_token(&Token::Eq) {
            true
        } else if self.parse_keyword(Keyword::TO) {
            true
        } else {
            false
        };
        let local = modifier == Kind::LocalScope;
        let known = find_keyword(name.as_str());
        if is_keyword(known, Keyword::SCHEMA) {
            let to = self.parse_set_schema_to()?;
            Ok(node(Kind::SetVariable, trees3(Tree::Flag(local), Tree::Text(String::from_str("search_path")), to)))
        } else if normal {
            let to = self.parse_set_variable_to()?;
            Ok(node(Kind::SetVariable, trees3(Tree::Flag(local), Tree::Text(name), to)))
        } else if is_keyword(known, Keyword::TIME) {
            self.expect_keyword(Keyword::ZONE)?;
            let to = self.parse_set_variable_to()?;
            Ok(node(Kind::SetVariable, trees3(Tree::Flag(local), Tree::Text(String::from_str("timezone")), to)))
        } else if is_keyword(known, Keyword::NAMES) {
            let to = self.parse_set_variable_to()?;
            Ok(node(Kind::SetVariable, trees3(Tree::Flag(local), Tree::Text(String::from_str("client_encoding")), to)))
        } else if is_keyword(known, Keyword::TRANSACTION) && modifier == Kind::NoType {
            let modes = self.parse_transaction_modes(true, trees0())?;
            Ok(node(Kind::SetTransaction, trees2(Tree::Flag(true), list(modes))))
        } else if modifier == Kind::SessionScope && is_keyword(known, Keyword::CHARACTERISTICS) {
            if self.parse_keywords2(Keyword::AS, Keyword::TRANSACTION) {
                let modes = self.parse_transaction_modes(true, trees0())?;
                Ok(node(Kind::SetTransaction, trees2(Tree::Flag(false), list(modes))))
            } else {
                Err(self.expected_here("equals sign or TO"))
            }
        } else {
            Err(self.expected_here("equals sign or TO"))
        }
    }
}

/// What [`Parser::parse_identifier_text`] yields from the token at `i` on.
#[verifier::opaque]
pub open spec fn identifier_text(p: Input, i: int) -> Out<Seq<char>>
{
    match identifier(p, i) { Failed(e, i) => Failed(e, i), Got(id, i) => {
    Got(text_in(id), i)
    }}
}

impl Parser {
    /// Parse an identifier as its text.
    pub fn parse_identifier_text(&mut self) -> (r: Result<String, Failure>)
        requires
            old(self).ready(),
        ensures
            final(self).follows(*old(self), identifier_text(old(self).input(), old(self).index as int), r),
            r is Ok ==> final(self).index > old(self).index,
            r matches Err(e) ==> !(e@ is Unhandled),
    {
        broadcast use group_tree_views;

        proof {
            reveal(identifier_text);
        }
        let id = self.parse_identifier()?;
        Ok(id.into_text())
    }
}

/// What [`Parser::parse_set_schema_to`] yields from the token at `i` on.
#[verifier::opaque]
pub open spec fn set_schema_to(p: Input, i: int) -> Out<TreeView>
{
    if at_keyword(p, i, Keyword::DEFAULT) {
        let i = i + 1;
        Got(TreeView::Node(Kind::SetToDefault, Seq::<TreeView>::empty()), i)
    } else {
        match set_variable_value(p, i) { Failed(e, i) => Failed(e, i), Got(v, i) => {
        Got(TreeView::Node(Kind::SetToValues, seq![TreeView::List(seq![v])]), i)
        }}
    }
}

impl Parser {
    /// Parse what a schema variable is set to.
    pub fn parse_set_schema_to(&mut self) -> (r: Result<Tree, Failure>)
        requires
            old(self).ready(),
        ensures
            final(self).follows(*old(self), set_schema_to(old(self).input(), old(self).index as int), r),
            r is Ok ==> final(self).index > old(self).index,
            r matches Err(e) ==> !(e@ is Unhandled),
    {
        broadcast use group_tree_views;

        proof {
            reveal(set_schema_to);
        }
        if self.parse_keyword(Keyword::DEFAULT) {
            Ok(node(Kind::SetToDefault, trees0()))
        } else {
            let v = self.parse_set_variable_value()?;
            Ok(node(Kind::SetToValues, trees1(list(trees1(v)))))
        }
    }
}

/// What [`Parser::parse_set_variable_to`] yields from the token at `i` on.
#[verifier::opaque]
pub open spec fn set_variable_to(p: Input, i: int) -> Out<TreeView>
{
    if at_keyword(p, i, Keyword::DEFAULT) {
        let i = i + 1;
        Got(TreeView::Node(Kind::SetToDefault, Seq::<TreeView>::empty()), i)
    } else {
        match set_variable_value_list(p, i, Seq::<TreeView>::empty()) { Failed(e, i) => Failed(e, i), Got(vs, i) => {
        Got(TreeView::Node(Kind::SetToValues, seq![TreeView::List(vs)]), i)
        }}
    }
}

impl Parser {
    /// Parse what a variable is set to.
    pub fn parse_set_variable_to(&mut self) -> (r: Result<Tree, Failure>)
        requires
            old(self).ready(),
        ensures
            final(self).follows(*old(self), set_variable_to(old(self).input(), old(self).index as int), r),
            r is Ok ==> final(self).index > old(self).index,
            r matches Err(e) ==> !(e@ is Unhandled),
    {
        broadcast use group_tree_views;

        proof {
            reveal(set_variable_to);
        }
        if self.parse_keyword(Keyword::DEFAULT) {
            Ok(node(Kind::SetToDefault, trees0()))
        } else {
            let vs = self.parse_set_variable_value_list(trees0())?;
            Ok(node(Kind::SetToValues, trees1(list(vs))))
        }
    }
}

/// What [`Parser::parse_set_variable_value`] yields from the token at `i` on.
#[verifier::opaque]
pub open spec fn set_variable_value(p: Input, i: int) -> Out<TreeView>
{
    match value(p, i) {
        Got(v, i) => {
            Got(TreeView::Node(Kind::LiteralVariable, seq![v]), i)
        },
        Failed(_, _) => {
            match identifier(p, i) {
                Got(id, i) => {
                    Got(TreeView::Node(Kind::IdentVariable, seq![id]), i)
                },
                Failed(_, _) => {
                    Failed(expected_at(p, i, "variable value"@), i)
                },
            }
        },
    }
}

impl Parser {
    /// Parse a value that a variable is set to.
    pub fn parse_set_variable_value(&mut self) -> (r: Result<Tree, Failure>)
        requires
            old(self).ready(),
        ensures
            final(self).follows(*old(self), set_variable_value(old(self).input(), old(self).index as int), r),
            r is Ok ==> final(self).index > old(self).index,
            r matches Err(e) ==> !(e@ is Unhandled),
    {
        broadcast use group_tree_views;

        proof {
            reveal(set_variable_value);
        }
        let mark: usize = self.index;
        match self.parse_value() {
            Ok(v) => {
                Ok(node(Kind::LiteralVariable, trees1(v)))
            },
            Err(_) => {
                self.index = mark;
                let mark: usize = self.index;
                match self.parse_identifier() {
                    Ok(id) => {
                        Ok(node(Kind::IdentVariable, trees1(id)))
                    },
                    Err(_) => {
                        self.index = mark;
                        Err(self.expected_here("variable value"))
                    },
                }
            },
        }
    }
}

/// What [`Parser::parse_set_variable_value_list`] yields from the token at `i` on.
#[verifier::opaque]
pub open spec fn set_variable_value_list(p: Input, i: int, items: Seq<TreeView>) -> Out<Seq<TreeView>>
    decreases p.toks.len() - i, 0int,
{
    match past(p, i, set_variable_value(p, i)) { Failed(e, i) => Failed(e, i), Got(item, i) => {
    if at_token(p, i, TokenView::Comma) {
        let i = i + 1;
        set_variable_value_list(p, i, items.push(item))
    } else {
        Got(items.push(item), i)
    }
    }}
}

impl Parser {
    /// Parses one or more `set_variable_value`, separated by commas, after those in `items`.
    pub fn parse_set_variable_value_list(&mut self, mut items: Trees) -> (r: Result<Trees, Failure>)
        requires
            old(self).ready(),
        ensures
            final(self).follows(*old(self), set_variable_value_list(old(self).input(), old(self).index as int, items@), r),
            r is Ok ==> final(self).index > old(self).index,
            r matches Ok(all) ==> all@.len() > items@.len(),
            r matches Err(e) ==> !(e@ is Unhandled),
        decreases old(self).tokens.len() - old(self).index, 0int,
    {
        broadcast use group_tree_views;

        proof {
            reveal(set_variable_value_list);
        }
        let ghost before = *self;
        let ghost given = items@.len();
        let ghost goal = set_variable_value_list(self.input(), self.index as int, items@);
        #[verifier::loop_isolation(false)]
        loop
            invariant
                self.ready(),
                self.input() == before.input(),
                self.tokens.len() == before.tokens.len(),
                before.index <= self.index,
                before == *old(self),
                given <= items@.len(),
                set_variable_value_list(self.input(), self.index as int, items@) == goal,
            decreases self.tokens.len() - self.index,
        {
            proof {
                reveal(set_variable_value_list);
            }
            let item = self.parse_set_variable_value()?;
            if self.consume_token(&Token::Comma) {
                items = items.with(item);
                continue;
            } else {
                return Ok(items.with(item));
            }
        }
    }
}

/// What [`Parser::parse_reset`] yields from the token at `i` on.
#[verifier::opaque]
pub open spec fn reset(p: Input, i: int) -> Out<TreeView>
{
    match identifier_text(p, i) { Failed(e, i) => Failed(e, i), Got(name, i) => {
    if keyword_named(name) == Some(Keyword::SCHEMA) {
        Got(TreeView::Node(Kind::ResetVariable, seq![TreeView::Text("search_path"@)]), i)
    } else {
        Got(TreeView::Node(Kind::ResetVariable, seq![TreeView::Text(name)]), i)
    }
    }}
}

impl Parser {
    /// Parse a `RESET` statement.
    pub fn parse_reset(&mut self) -> (r: Result<Tree, Failure>)
        requires
            old(self).ready(),
        ensures
            final(self).follows(*old(self), reset(old(self).input(), old(self).index as int), r),
            r is Ok ==> final(self).index > old(self).index,
            r matches Err(e) ==> !(e@ is Unhandled),
    {
        broadcast use group_tree_views;

        proof {
            reveal(reset);
        }
        let name = self.parse_identifier_text()?;
        if is_keyword(find_keyword(name.as_str()), Keyword::SCHEMA) {
            Ok(node(Kind::ResetVariable, trees1(Tree::Text(String::from_str("search_path")))))
        } else {
            Ok(node(Kind::ResetVariable, trees1(Tree::Text(name))))
        }
    }
}

/// What [`Parser::parse_start_transaction`] yields from the token at `i` on.
#[verifier::opaque]
pub open spec fn start_transaction(p: Input, i: int) -> Out<TreeView>
{
    match keyword(p, i, Keyword::TRANSACTION) { Failed(e, i) => Failed(e, i), Got(_, i) => {
    match transaction_modes(p, i, false, Seq::<TreeView>::empty()) { Failed(e, i) => Failed(e, i), Got(modes, i) => {
    Got(TreeView::Node(Kind::StartTransaction, seq![TreeView::List(modes)]), i)
    }}
    }}
}

impl Parser {
    /// Parse a `START TRANSACTION` statement.
    pub fn parse_start_transaction(&mut self) -> (r: Result<Tree, Failure>)
        requires
            old(self).ready(),
        ensures
            final(self).follows(*old(self), start_transaction(old(self).input(), old(self).index as int), r),
            r is Ok ==> final(self).index > old(self).index,
            r matches Err(e) ==> !(e@ is Unhandled),
    {
        broadcast use group_tree_views;

        proof {
            reveal(start_transaction);
        }
        self.expect_keyword(Keyword::TRANSACTION)?;
        let modes = self.parse_transaction_modes(false, trees0())?;
        Ok(node(Kind::StartTransaction, trees1(list(modes))))
    }
}

/// What [`Parser::parse_begin`] yields from the token at `i` on.
#[verifier::opaque]
pub open spec fn begin(p: Input, i: int) -> Out<TreeView>
{
    match skip_transaction_word(p, i) { Failed(e, i) => Failed(e, i), Got(_, i) => {
    match transaction_modes(p, i, false, Seq::<TreeView>::empty()) { Failed(e, i) => Failed(e, i), Got(modes, i) => {
    Got(TreeView::Node(Kind::StartTransaction, seq![TreeView::List(modes)]), i)
    }}
    }}
}

impl Parser {
    /// Parse a `BEGIN` statement, a nonstandard but common alias for `START TRANSACTION`.
    pub fn parse_begin(&mut self) -> (r: Result<Tree, Failure>)
        requires
            old(self).ready(),
        ensures
            final(self).follows(*old(self), begin(old(self).input(), old(self).index as int), r),
            r matches Err(e) ==> !(e@ is Unhandled),
    {
        broadcast use group_tree_views;

        proof {
            reveal(begin);
        }
        self.parse_skip_transaction_word()?;
        let modes = self.parse_transaction_modes(false, trees0())?;
        Ok(node(Kind::StartTransaction, trees1(list(modes))))
    }
}

/// What [`Parser::parse_skip_transaction_word`] yields from the token at `i` on.
#[verifier::opaque]
pub open spec fn skip_transaction_word(p: Input, i: int) -> Out<()>
{
    match one_of(p, i, seq![Keyword::TRANSACTION, Keyword::WORK]) {
        Some(_) => {
            let i = i + 1;
            Got((), i)
        },
        None => {
            Got((), i)
        },
    }
}

impl Parser {
    /// Parse `TRANSACTION` or `WORK`, if it is there.
    pub fn parse_skip_transaction_word(&mut self) -> (r: Result<(), Failure>)
        requires
            old(self).ready(),
        ensures
            final(self).follows(*old(self), skip_transaction_word(old(self).input(), old(self).index as int), r),
            r matches Err(e) ==> !(e@ is Unhandled),
    {
        broadcast use group_tree_views;

        proof {
            reveal(skip_transaction_word);
        }
        let choices: [Keyword; 2] = [Keyword::TRANSACTION, Keyword::WORK];
        assert(choices@ =~= seq![Keyword::TRANSACTION, Keyword::WORK]);
        match self.parse_one_of_keywords(&choices) {
            Some(_) => {
                Ok(())
            },
            None => {
                Ok(())
            },
        }
    }
}

/// What [`Parser::parse_isolation_level`] yields from the token at `i` on.
#[verifier::opaque]
pub open spec fn isolation_level(p: Input, i: int) -> Out<TreeView>
{
    if at_keywords2(p, i, Keyword::READ, Keyword::UNCOMMITTED) {
        let i = i + 2;
        Got(TreeView::Node(Kind::ReadUncommitted, Seq::<TreeView>::empty()), i)
    } else {
        if at_keywords2(p, i, Keyword::READ, Keyword::COMMITTED) {
            let i = i + 2;
            Got(TreeView::Node(Kind::ReadCommitted, Seq::<TreeView>::empty()), i)
        } else {
            if at_keywords2(p, i, Keyword::REPEATABLE, Keyword::READ) {
                let i = i + 2;
                Got(TreeView::Node(Kind::RepeatableRead, Seq::<TreeView>::empty()), i)
            } else {
                if at_keyword(p, i, Keyword::SERIALIZABLE) {
                    let i = i + 1;
                    Got(TreeView::Node(Kind::Serializable, Seq::<TreeView>::empty()), i)
                } else {
                    if at_keywords2(p, i, Keyword::STRICT, Keyword::SERIALIZABLE) {
                        let i = i + 2;
                        Got(TreeView::Node(Kind::StrictSerializable, Seq::<TreeView>::empty()), i)
                    } else {
                        Failed(expected_at(p, i, "isolation level"@), i)
                    }
                }
            }
        }
    }
}

impl Parser {
    /// Parse an isolation level.
    pub fn parse_isolation_level(&mut self) -> (r: Result<Tree, Failure>)
        requires
            old(self).ready(),
        ensures
            final(self).follows(*old(self), isolation_level(old(self).input(), old(self).index as int), r),
            r is Ok ==> final(self).index > old(self).index,
            r matches Err(e) ==> !(e@ is Unhandled),
    {
        broadcast use group_tree_views;

        proof {
            reveal(isolation_level);
        }
        if self.parse_keywords2(Keyword::READ, Keyword::UNCOMMITTED) {
            Ok(node(Kind::ReadUncommitted, trees0()))
        } else if self.parse_keywords2(Keyword::READ, Keyword::COMMITTED) {
            Ok(node(Kind::ReadCommitted, trees0()))
        } else if self.parse_keywords2(Keyword::REPEATABLE, Keyword::READ) {
            Ok(node(Kind::RepeatableRead, trees0()))
        } else if self.parse_keyword(Keyword::SERIALIZABLE) {
            Ok(node(Kind::Serializable, trees0()))
        } else if self.parse_keywords2(Keyword::STRICT, Keyword::SERIALIZABLE) {
            Ok(node(Kind::StrictSerializable, trees0()))
        } else {
            Err(self.expected_here("isolation level"))
        }
    }
}

/// What [`Parser::parse_transaction_modes`] yields from the token at `i` on.
#[verifier::opaque]
pub open spec fn transaction_modes(p: Input, i: int, required: bool, modes: Seq<TreeView>) -> Out<Seq<TreeView>>
    decreases p.toks.len() - i, 0int,
{
    if at_keywords2(p, i, Keyword::ISOLATION, Keyword::LEVEL) {
        let i = i + 2;
        match past(p, i, isolation_level(p, i)) { Failed(e, i) => Failed(e, i), Got(level, i) => {
        let comma = at_token(p, i, TokenView::Comma);
        let i = if comma { i + 1 } else { i };
        transaction_modes(p, i, comma, modes.push(TreeView::Node(Kind::IsolationLevelMode, seq![level])))
        }}
    } else {
        if at_keywords2(p, i, Keyword::READ, Keyword::ONLY) {
            let i = i + 2;
            let comma = at_token(p, i, TokenView::Comma);
            let i = if comma { i + 1 } else { i };
            transaction_modes(p, i, comma, modes.push(TreeView::Node(Kind::ReadOnlyMode, Seq::<TreeView>::empty())))
        } else {
            if at_keywords2(p, i, Keyword::READ, Keyword::WRITE) {
                let i = i + 2;
                let comma = at_token(p, i, TokenView::Comma);
                let i = if comma { i + 1 } else { i };
                transaction_modes(p, i, comma, modes.push(TreeView::Node(Kind::ReadWriteMode, Seq::<TreeView>::empty())))
            } else {
                if required {
                    Failed(expected_at(p, i, "transaction mode"@), i)
                } else {
                    Got(modes, i)
                }
            }
        }
    }
}

impl Parser {
    /// Parse the transaction modes that follow those in `modes`. ANSI requires a comma
    /// after each transaction mode, but PostgreSQL, for historical reasons, does not.
    /// We follow PostgreSQL in making the comma optional, since that is strictly more
    /// general.
    pub fn parse_transaction_modes(&mut self, mut required: bool, mut modes: Trees) -> (r: Result<Trees, Failure>)
        requires
            old(self).ready(),
        ensures
            final(self).follows(*old(self), transaction_modes(old(self).input(), old(self).index as int, required, modes@), r),
            r matches Err(e) ==> !(e@ is Unhandled),
        decreases old(self).tokens.len() - old(self).index, 0int,
    {
        broadcast use group_tree_views;

        proof {
            reveal(transaction_modes);
        }
        let ghost before = *self;
        let ghost goal = transaction_modes(self.input(), self.index as int, required, modes@);
        #[verifier::loop_isolation(false)]
        loop
            invariant
                self.ready(),
                self.input() == before.input(),
                self.tokens.len() == before.tokens.len(),
                before.index <= self.index,
                before == *old(self),
                transaction_modes(self.input(), self.index as int, required, modes@) == goal,
            decreases self.tokens.len() - self.index,
        {
            proof {
                reveal(transaction_modes);
            }
            if self.parse_keywords2(Keyword::ISOLATION, Keyword::LEVEL) {
                let level = self.parse_isolation_level()?;
                let comma = self.consume_token(&Token::Comma);
                let next_required = comma;
                let next_modes = modes.with(node(Kind::IsolationLevelMode, trees1(level)));
                required = next_required;
                modes = next_modes;
                continue;
            } else if self.parse_keywords2(Keyword::READ, Keyword::ONLY) {
                let comma = self.consume_token(&Token::Comma);
                let next_required = comma;
                let next_modes = modes.with(node(Kind::ReadOnlyMode, trees0()));
                required = next_required;
                modes = next_modes;
                continue;
            } else if self.parse_keywords2(Keyword::READ, Keyword::WRITE) {
                let comma = self.consume_token(&Token::Comma);
                let next_required = comma;
                let next_modes = modes.with(node(Kind::ReadWriteMode, trees0()));
                required = next_required;
                modes = next_modes;
                continue;
            } else if required {
                return Err(self.expected_here("transaction mode"));
            } else {
                return Ok(modes);
            }
        }
    }
}

/// What [`Parser::parse_commit`] yields from the token at `i` on.
#[verifier::opaque]
pub open spec fn commit(p: Input, i: int) -> Out<TreeView>
{
    match commit_rollback_chain(p, i) { Failed(e, i) => Failed(e, i), Got(chain, i) => {
    Got(TreeView::Node(Kind::Commit, seq![TreeView::Flag(chain)]), i)
    }}
}

impl Parser {
    /// Parse a `COMMIT` statement.
    pub fn parse_commit(&mut self) -> (r: Result<Tree, Failure>)
        requires
            old(self).ready(),
        ensures
            final(self).follows(*old(self), commit(old(self).input(), old(self).index as int), r),
            r matches Err(e) ==> !(e@ is Unhandled),
    {
        broadcast use group_tree_views;

        proof {
            reveal(commit);
        }
        let chain = self.parse_commit_rollback_chain()?;
        Ok(node(Kind::Commit, trees1(Tree::Flag(chain))))
    }
}

/// What [`Parser::parse_rollback`] yields from the token at `i` on.
#[verifier::opaque]
pub open spec fn rollback(p: Input, i: int) -> Out<TreeView>
{
    match commit_rollback_chain(p, i) { Failed(e, i) => Failed(e, i), Got(chain, i) => {
    Got(TreeView::Node(Kind::Rollback, seq![TreeView::Flag(chain)]), i)
    }}
}

impl Parser {
    /// Parse a `ROLLBACK` statement.
    pub fn parse_rollback(&mut self) -> (r: Result<Tree, Failure>)
        requires
            old(self).ready(),
        ensures
            final(self).follows(*old(self), rollback(old(self).input(), old(self).index as int), r),
            r matches Err(e) ==> !(e@ is Unhandled),
    {
        broadcast use group_tree_views;

        proof {
            reveal(rollback);
        }
        let chain = self.parse_commit_rollback_chain()?;
        Ok(node(Kind::Rollback, trees1(Tree::Flag(chain))))
    }
}

/// What [`Parser::parse_commit_rollback_chain`] yields from the token at `i` on.
#[verifier::opaque]
pub open spec fn commit_rollback_chain(p: Input, i: int) -> Out<bool>
{
    match skip_transaction_word(p, i) { Failed(e, i) => Failed(e, i), Got(_, i) => {
    if at_keyword(p, i, Keyword::AND) {
        let i = i + 1;
        let no = at_keyword(p, i, Keyword::NO);
        let i = if no { i + 1 } else { i };
        match keyword(p, i, Keyword::CHAIN) { Failed(e, i) => Failed(e, i), Got(_, i) => {
        Got(!no, i)
        }}
    } else {
        Got(false, i)
    }
    }}
}

impl Parser {
    /// Parse `AND [NO] CHAIN`, if it is there.
    pub fn parse_commit_rollback_chain(&mut self) -> (r: Result<bool, Failure>)
        requires
            old(self).ready(),
        ensures
            final(self).follows(*old(self), commit_rollback_chain(old(self).input(), old(self).index as int), r),
            r matches Err(e) ==> !(e@ is Unhandled),
    {
        broadcast use group_tree_views;

        proof {
            reveal(commit_rollback_chain);
        }
        self.parse_skip_transaction_word()?;
        if self.parse_keyword(Keyword::AND) {
            let no = self.parse_keyword(Keyword::NO);
            self.expect_keyword(Keyword::CHAIN)?;
            Ok(!no)
        } else {
            Ok(false)
        }
    }
}

/// What [`Parser::parse_optional_up_to`] yields from the token at `i` on.
#[verifier::opaque]
pub open spec fn optional_up_to(p: Input, i: int) -> Out<TreeView>
{
    if at_keyword(p, i, Keyword::UP) {
        let i = i + 1;
        match keyword(p, i, Keyword::TO) { Failed(e, i) => Failed(e, i), Got(_, i) => {
        expr(p, i)
        }}
    } else {
        Got(TreeView::Absent, i)
    }
}

impl Parser {
    /// Parse `UP TO`, if present.
    pub fn parse_optional_up_to(&mut self) -> (r: Result<Tree, Failure>)
        requires
            old(self).ready(),
        ensures
            final(self).follows(*old(self), optional_up_to(old(self).input(), old(self).index as int), r),
            r matches Err(e) ==> !(e@ is Unhandled),
    {
        broadcast use group_tree_views;

        proof {
            reveal(optional_up_to);
        }
        if self.parse_keyword(Keyword::UP) {
            self.expect_keyword(Keyword::TO)?;
            self.parse_expr()
        } else {
            Ok(Tree::Absent)
        }
    }
}

/// What [`Parser::parse_subscribe`] yields from the token at `i` on.
#[verifier::opaque]
pub open spec fn subscribe(p: Input, i: int) -> Out<TreeView>
{
    let i = if at_keyword(p, i, Keyword::TO) { i + 1 } else { i };
    match {
        if at_token(p, i, TokenView::LParen) {
            let i = i + 1;
            match query(p, i) { Failed(e, i) => Failed(e, i), Got(q, i) => {
            match token(p, i, TokenView::RParen) { Failed(e, i) => Failed(e, i), Got(_, i) => {
            Got(q, i)
            }}
            }}
        } else {
            raw_name(p, i)
        }
    } { Failed(e, i) => Failed(e, i), Got(relation, i) => {
    match {
        if at_keyword(p, i, Keyword::WITH) {
            let i = i + 1;
            match token(p, i, TokenView::LParen) { Failed(e, i) => Failed(e, i), Got(_, i) => {
            match subscribe_option_list(p, i, Seq::<TreeView>::empty()) { Failed(e, i) => Failed(e, i), Got(os, i) => {
            match token(p, i, TokenView::RParen) { Failed(e, i) => Failed(e, i), Got(_, i) => {
            Got(TreeView::List(os), i)
            }}
            }}
            }}
        } else {
            Got(TreeView::List(Seq::<TreeView>::empty()), i)
        }
    } { Failed(e, i) => Failed(e, i), Got(options, i) => {
    match optional_as_of(p, i) { Failed(e, i) => Failed(e, i), Got(as_of, i) => {
    match optional_up_to(p, i) { Failed(e, i) => Failed(e, i), Got(up_to, i) => {
    match {
        if at_keyword(p, i, Keyword::ENVELOPE) {
            let i = i + 1;
            match one_keyword(p, i, seq![Keyword::UPSERT, Keyword::DEBEZIUM]) { Failed(e, i) => Failed(e, i), Got(k, i) => {
            match token(p, i, TokenView::LParen) { Failed(e, i) => Failed(e, i), Got(_, i) => {
            match keyword(p, i, Keyword::KEY) { Failed(e, i) => Failed(e, i), Got(_, i) => {
            match parenthesized_column_list(p, i, false) { Failed(e, i) => Failed(e, i), Got(key_columns, i) => {
            match token(p, i, TokenView::RParen) { Failed(e, i) => Failed(e, i), Got(_, i) => {
            if k == Keyword::UPSERT {
                Got(TreeView::Node(Kind::EnvelopeUpsert, seq![key_columns]), i)
            } else {
                Got(TreeView::Node(Kind::EnvelopeDebezium, seq![key_columns]), i)
            }
            }}
            }}
            }}
            }}
            }}
        } else {
            if at_keywords4(p, i, Keyword::WITHIN, Keyword::TIMESTAMP, Keyword::ORDER, Keyword::BY) {
                let i = i + 4;
                match order_by_expr_list(p, i, Seq::<TreeView>::empty()) { Failed(e, i) => Failed(e, i), Got(es, i) => {
                Got(TreeView::Node(Kind::WithinTimestampOrderBy, seq![TreeView::List(es)]), i)
                }}
            } else {
                Got(TreeView::Node(Kind::Diffs, Seq::<TreeView>::empty()), i)
            }
        }
    } { Failed(e, i) => Failed(e, i), Got(output, i) => {
    Got(TreeView::Node(Kind::Subscribe, seq![relation, options, as_of, up_to, output]), i)
    }}
    }}
    }}
    }}
    }}
}

impl Parser {
    /// Parse a `SUBSCRIBE` statement.
    #[verifier::rlimit(60)]
    pub fn parse_subscribe(&mut self) -> (r: Result<Tree, Failure>)
        requires
            old(self).ready(),
        ensures
            final(self).follows(*old(self), subscribe(old(self).input(), old(self).index as int), r),
            r is Ok ==> final(self).index > old(self).index,
            r matches Err(e) ==> !(e@ is Unhandled),
    {
        broadcast use group_tree_views;

        proof {
            reveal(subscribe);
        }
        let _ = self.parse_keyword(Keyword::TO);
        let relation = if self.consume_token(&Token::LParen) {
            let q = self.parse_query()?;
            self.expect_token(&Token::RParen)?;
            q
        } else {
            self.parse_raw_name()?
        };
        let options = if self.parse_keyword(Keyword::WITH) {
            self.expect_token(&Token::LParen)?;
            let os = self.parse_subscribe_option_list(trees0())?;
            self.expect_token(&Token::RParen)?;
            list(os)
        } else {
            list(trees0())
        };
        let as_of = self.parse_optional_as_of()?;
        let up_to = self.parse_optional_up_to()?;
        let output = if self.parse_keyword(Keyword::ENVELOPE) {
            let choices: [Keyword; 2] = [Keyword::UPSERT, Keyword::DEBEZIUM];
            assert(choices@ =~= seq![Keyword::UPSERT, Keyword::DEBEZIUM]);
            let k = self.expect_one_of_keywords(&choices)?;
            self.expect_token(&Token::LParen)?;
            self.expect_keyword(Keyword::KEY)?;
            let key_columns = self.parse_parenthesized_column_list(false)?;
            self.expect_token(&Token::RParen)?;
            if k == Keyword::UPSERT {
                node(Kind::EnvelopeUpsert, trees1(key_columns))
            } else {
                node(Kind::EnvelopeDebezium, trees1(key_columns))
            }
        } else if self.parse_keywords4(Keyword::WITHIN, Keyword::TIMESTAMP, Keyword::ORDER, Keyword::BY) {
            let es = self.parse_order_by_expr_list(trees0())?;
            node(Kind::WithinTimestampOrderBy, trees1(list(es)))
        } else {
            node(Kind::Diffs, trees0())
        };
        Ok(node(Kind::Subscribe, trees5(relation, options, as_of, up_to, output)))
    }
}

/// What [`Parser::parse_subscribe_option`] yields from the token at `i` on.
#[verifier::opaque]
pub open spec fn subscribe_option(p: Input, i: int) -> Out<TreeView>
{
    match one_keyword(p, i, seq![Keyword::PROGRESS, Keyword::SNAPSHOT]) { Failed(e, i) => Failed(e, i), Got(k, i) => {
    match optional_option_value(p, i) { Failed(e, i) => Failed(e, i), Got(v, i) => {
    if k == Keyword::PROGRESS {
        Got(TreeView::Node(Kind::SubscribeOption, seq![TreeView::Node(Kind::Progress, Seq::<TreeView>::empty()), v]), i)
    } else {
        Got(TreeView::Node(Kind::SubscribeOption, seq![TreeView::Node(Kind::Snapshot, Seq::<TreeView>::empty()), v]), i)
    }
    }}
    }}
}

impl Parser {
    /// Parse an option of a `SUBSCRIBE` statement.
    pub fn parse_subscribe_option(&mut self) -> (r: Result<Tree, Failure>)
        requires
            old(self).ready(),
        ensures
            final(self).follows(*old(self), subscribe_option(old(self).input(), old(self).index as int), r),
            r is Ok ==> final(self).index > old(self).index,
            r matches Err(e) ==> !(e@ is Unhandled),
    {
        broadcast use group_tree_views;

        proof {
            reveal(subscribe_option);
        }
        let choices: [Keyword; 2] = [Keyword::PROGRESS, Keyword::SNAPSHOT];
        assert(choices@ =~= seq![Keyword::PROGRESS, Keyword::SNAPSHOT]);
        let k = self.expect_one_of_keywords(&choices)?;
        let v = self.parse_optional_option_value()?;
        if k == Keyword::PROGRESS {
            Ok(node(Kind::SubscribeOption, trees2(node(Kind::Progress, trees0()), v)))
        } else {
            Ok(node(Kind::SubscribeOption, trees2(node(Kind::Snapshot, trees0()), v)))
        }
    }
}

/// What [`Parser::parse_subscribe_option_list`] yields from the token at `i` on.
#[verifier::opaque]
pub open spec fn subscribe_option_list(p: Input, i: int, items: Seq<TreeView>) -> Out<Seq<TreeView>>
    decreases p.toks.len() - i, 0int,
{
    match past(p, i, subscribe_option(p, i)) { Failed(e, i) => Failed(e, i), Got(item, i) => {
    if at_token(p, i, TokenView::Comma) {
        let i = i + 1;
        subscribe_option_list(p, i, items.push(item))
    } else {
        Got(items.push(item), i)
    }
    }}
}

impl Parser {
    /// Parses one or more `subscribe_option`, separated by commas, after those in `items`.
    pub fn parse_subscribe_option_list(&mut self, mut items: Trees) -> (r: Result<Trees, Failure>)
        requires
            old(self).ready(),
        ensures
            final(self).follows(*old(self), subscribe_option_list(old(self).input(), old(self).index as int, items@), r),
            r is Ok ==> final(self).index > old(self).index,
            r matches Ok(all) ==> all@.len() > items@.len(),
            r matches Err(e) ==> !(e@ is Unhandled),
        decreases old(self).tokens.len() - old(self).index, 0int,
    {
        broadcast use group_tree_views;

        proof {
            reveal(subscribe_option_list);
        }
        let ghost before = *self;
        let ghost given = items@.len();
        let ghost goal = subscribe_option_list(self.input(), self.index as int, items@);
        #[verifier::loop_isolation(false)]
        loop
            invariant
                self.ready(),
                self.input() == before.input(),
                self.tokens.len() == before.tokens.len(),
                before.index <= self.index,
                before == *old(self),
                given <= items@.len(),
                subscribe_option_list(self.input(), self.index as int, items@) == goal,
            decreases self.tokens.len() - self.index,
        {
            proof {
                reveal(subscribe_option_list);
            }
            let item = self.parse_subscribe_option()?;
            if self.consume_token(&Token::Comma) {
                items = items.with(item);
                continue;
            } else {
                return Ok(items.with(item));
            }
        }
    }
}

/// What [`Parser::parse_explain_stage`] yields from the token at `i` on.
#[verifier::opaque]
pub open spec fn explain_stage(p: Input, i: int) -> Out<TreeView>
{
    match one_of(p, i, seq![Keyword::RAW, Keyword::DECORRELATED, Keyword::OPTIMIZED, Keyword::PHYSICAL, Keyword::PLAN, Keyword::OPTIMIZER, Keyword::QUERY, Keyword::TIMESTAMP]) {
        Some(k) => {
            let i = i + 1;
            match k {
                Keyword::RAW => {
                    match keyword(p, i, Keyword::PLAN) { Failed(e, i) => Failed(e, i), Got(_, i) => {
                    Got(TreeView::Node(Kind::RawPlan, Seq::<TreeView>::empty()), i)
                    }}
                },
                Keyword::DECORRELATED => {
                    match keyword(p, i, Keyword::PLAN) { Failed(e, i) => Failed(e, i), Got(_, i) => {
                    Got(TreeView::Node(Kind::DecorrelatedPlan, Seq::<TreeView>::empty()), i)
                    }}
                },
                Keyword::OPTIMIZED => {
                    match keyword(p, i, Keyword::PLAN) { Failed(e, i) => Failed(e, i), Got(_, i) => {
                    Got(TreeView::Node(Kind::OptimizedPlan, Seq::<TreeView>::empty()), i)
                    }}
                },
                Keyword::PLAN => {
                    Got(TreeView::Node(Kind::OptimizedPlan, Seq::<TreeView>::empty()), i)
                },
                Keyword::PHYSICAL => {
                    match keyword(p, i, Keyword::PLAN) { Failed(e, i) => Failed(e, i), Got(_, i) => {
                    Got(TreeView::Node(Kind::PhysicalPlan, Seq::<TreeView>::empty()), i)
                    }}
                },
                Keyword::OPTIMIZER => {
                    match keyword(p, i, Keyword::TRACE) { Failed(e, i) => Failed(e, i), Got(_, i) => {
                    Got(TreeView::Node(Kind::Trace, Seq::<TreeView>::empty()), i)
                    }}
                },
                Keyword::TIMESTAMP => {
                    Got(TreeView::Node(Kind::TimestampStage, Seq::<TreeView>::empty()), i)
                },
                _ => {
                    Failed(FailureView::Unhandled, i)
                },
            }
        },
        None => {
            Got(TreeView::Absent, i)
        },
    }
}

impl Parser {
    /// Parse the stage that an `EXPLAIN` shows, if one is given.
    #[verifier::rlimit(30)]
    pub fn parse_explain_stage(&mut self) -> (r: Result<Tree, Failure>)
        requires
            old(self).ready(),
        ensures
            final(self).follows(*old(self), explain_stage(old(self).input(), old(self).index as int), r),
    {
        broadcast use group_tree_views;

        proof {
            reveal(explain_stage);
        }
        let choices: [Keyword; 8] = [Keyword::RAW, Keyword::DECORRELATED, Keyword::OPTIMIZED, Keyword::PHYSICAL, Keyword::PLAN, Keyword::OPTIMIZER, Keyword::QUERY, Keyword::TIMESTAMP];
        assert(choices@ =~= seq![Keyword::RAW, Keyword::DECORRELATED, Keyword::OPTIMIZED, Keyword::PHYSICAL, Keyword::PLAN, Keyword::OPTIMIZER, Keyword::QUERY, Keyword::TIMESTAMP]);
        match self.parse_one_of_keywords(&choices) {
            Some(k) => {
                match k {
                    Keyword::RAW => {
                        self.expect_keyword(Keyword::PLAN)?;
                        Ok(node(Kind::RawPlan, trees0()))
                    },
                    Keyword::DECORRELATED => {
                        self.expect_keyword(Keyword::PLAN)?;
                        Ok(node(Kind::DecorrelatedPlan, trees0()))
                    },
                    Keyword::OPTIMIZED => {
                        self.expect_keyword(Keyword::PLAN)?;
                        Ok(node(Kind::OptimizedPlan, trees0()))
                    },
                    Keyword::PLAN => {
                        Ok(node(Kind::OptimizedPlan, trees0()))
                    },
                    Keyword::PHYSICAL => {
                        self.expect_keyword(Keyword::PLAN)?;
                        Ok(node(Kind::PhysicalPlan, trees0()))
                    },
                    Keyword::OPTIMIZER => {
                        self.expect_keyword(Keyword::TRACE)?;
                        Ok(node(Kind::Trace, trees0()))
                    },
                    Keyword::TIMESTAMP => {
                        Ok(node(Kind::TimestampStage, trees0()))
                    },
                    _ => {
                        Err(Failure::Unhandled)
                    },
                }
            },
            None => {
                Ok(Tree::Absent)
            },
        }
    }
}

/// What [`Parser::parse_explain`] yields from the token at `i` on.
#[verifier::opaque]
pub open spec fn explain(p: Input, i: int) -> Out<TreeView>
{
    match explain_stage(p, i) { Failed(e, i) => Failed(e, i), Got(stage, i) => {
    match {
        if at_keyword(p, i, Keyword::WITH) {
            let i = i + 1;
            if at_token(p, i, TokenView::LParen) {
                let i = i + 1;
                match identifier_list(p, i, Seq::<TreeView>::empty()) { Failed(e, i) => Failed(e, i), Got(flags, i) => {
                match token(p, i, TokenView::RParen) { Failed(e, i) => Failed(e, i), Got(_, i) => {
                Got(TreeView::List(flags), i)
                }}
                }}
            } else {
                let i = i - 1;
                Got(TreeView::List(Seq::<TreeView>::empty()), i)
            }
        } else {
            Got(TreeView::List(Seq::<TreeView>::empty()), i)
        }
    } { Failed(e, i) => Failed(e, i), Got(config_flags, i) => {
    match {
        if at_keyword(p, i, Keyword::AS) {
            let i = i + 1;
            match one_of(p, i, seq![Keyword::TEXT, Keyword::JSON, Keyword::DOT]) {
                Some(k) => {
                    let i = i + 1;
                    match k {
                        Keyword::TEXT => {
                            Got(TreeView::Node(Kind::ExplainText, Seq::<TreeView>::empty()), i)
                        },
                        Keyword::JSON => {
                            Got(TreeView::Node(Kind::ExplainJson, Seq::<TreeView>::empty()), i)
                        },
                        _ => {
                            Got(TreeView::Node(Kind::ExplainDot, Seq::<TreeView>::empty()), i)
                        },
                    }
                },
                None => {
                    Failed(error_view(position(p, i), no_text() + "expected a format"@), i)
                },
            }
        } else {
            Got(TreeView::Node(Kind::ExplainText, Seq::<TreeView>::empty()), i)
        }
    } { Failed(e, i) => Failed(e, i), Got(format, i) => {
    match {
        if stage is Absent {
            Got(TreeView::Node(Kind::OptimizedPlan, Seq::<TreeView>::empty()), i)
        } else {
            match keyword(p, i, Keyword::FOR) { Failed(e, i) => Failed(e, i), Got(_, i) => {
            Got(stage, i)
            }}
        }
    } { Failed(e, i) => Failed(e, i), Got(stage, i) => {
    let no_errors = at_keyword(p, i, Keyword::BROKEN);
    let i = if no_errors { i + 1 } else { i };
    match {
        if at_keyword(p, i, Keyword::VIEW) {
            let i = i + 1;
            match raw_name(p, i) { Failed(e, i) => Failed(e, i), Got(name, i) => {
            Got(TreeView::Node(Kind::ExplainView, seq![name]), i)
            }}
        } else {
            if at_keywords2(p, i, Keyword::MATERIALIZED, Keyword::VIEW) {
                let i = i + 2;
                match raw_name(p, i) { Failed(e, i) => Failed(e, i), Got(name, i) => {
                Got(TreeView::Node(Kind::ExplainMaterializedView, seq![name]), i)
                }}
            } else {
                match query(p, i) { Failed(e, i) => Failed(e, i), Got(q, i) => {
                Got(TreeView::Node(Kind::ExplainQuery, seq![q]), i)
                }}
            }
        }
    } { Failed(e, i) => Failed(e, i), Got(explainee, i) => {
    Got(TreeView::Node(Kind::Explain, seq![stage, config_flags, format, TreeView::Flag(no_errors), explainee]), i)
    }}
    }}
    }}
    }}
    }}
}

impl Parser {
    /// Parse an `EXPLAIN` statement, assuming that the `EXPLAIN` token
    /// has already been consumed.
    #[verifier::rlimit(60)]
    pub fn parse_explain(&mut self) -> (r: Result<Tree, Failure>)
        requires
            old(self).ready(),
        ensures
            final(self).follows(*old(self), explain(old(self).input(), old(self).index as int), r),
            r is Ok ==> final(self).index > old(self).index,
    {
        broadcast use group_tree_views;

        proof {
            reveal(explain);
        }
        let stage = self.parse_explain_stage()?;
        let config_flags = if self.parse_keyword(Keyword::WITH) {
            if self.consume_token(&Token::LParen) {
                let flags = self.parse_identifier_list(trees0())?;
                self.expect_token(&Token::RParen)?;
                list(flags)
            } else {
                self.prev_token();
                list(trees0())
            }
        } else {
            list(trees0())
        };
        let format = if self.parse_keyword(Keyword::AS) {
            let choices: [Keyword; 3] = [Keyword::TEXT, Keyword::JSON, Keyword::DOT];
            assert(choices@ =~= seq![Keyword::TEXT, Keyword::JSON, Keyword::DOT]);
            match self.parse_one_of_keywords(&choices) {
                Some(k) => {
                    match k {
                        Keyword::TEXT => {
                            node(Kind::ExplainText, trees0())
                        },
                        Keyword::JSON => {
                            node(Kind::ExplainJson, trees0())
                        },
                        _ => {
                            node(Kind::ExplainDot, trees0())
                        },
                    }
                },
                None => {
                    let pos: usize = self.peek_pos();
                    return Err(error(pos, String::new().concat("expected a format")));
                },
            }
        } else {
            node(Kind::ExplainText, trees0())
        };
        let stage = if stage.is_absent() {
            node(Kind::OptimizedPlan, trees0())
        } else {
            self.expect_keyword(Keyword::FOR)?;
            stage
        };
        let no_errors = self.parse_keyword(Keyword::BROKEN);
        let explainee = if self.parse_keyword(Keyword::VIEW) {
            let name = self.parse_raw_name()?;
            node(Kind::ExplainView, trees1(name))
        } else if self.parse_keywords2(Keyword::MATERIALIZED, Keyword::VIEW) {
            let name = self.parse_raw_name()?;
            node(Kind::ExplainMaterializedView, trees1(name))
        } else {
            let q = self.parse_query()?;
            node(Kind::ExplainQuery, trees1(q))
        };
        Ok(node(Kind::Explain, trees5(stage, config_flags, format, Tree::Flag(no_errors), explainee)))
    }
}

/// What [`Parser::parse_declare`] yields from the token at `i` on.
#[verifier::opaque]
pub open spec fn declare(p: Input, i: int) -> Out<TreeView>
    decreases p.toks.len() - i, 0int,
{
    match past(p, i, identifier(p, i)) { Failed(e, i) => Failed(e, i), Got(name, i) => {
    match keyword(p, i, Keyword::CURSOR) { Failed(e, i) => Failed(e, i), Got(_, i) => {
    let i = if at_keywords2(p, i, Keyword::WITHOUT, Keyword::HOLD) { i + 2 } else { i };
    match keyword(p, i, Keyword::FOR) { Failed(e, i) => Failed(e, i), Got(_, i) => {
    match statement(p, i) { Failed(e, i) => Failed(e, i), Got(s, i) => {
    Got(TreeView::Node(Kind::Declare, seq![name, s]), i)
    }}
    }}
    }}
    }}
}

impl Parser {
    /// Parse a `DECLARE` statement, assuming that the `DECLARE` token
    /// has already been consumed. `WITHOUT HOLD` is optional and the default.
    pub fn parse_declare(&mut self) -> (r: Result<Tree, Failure>)
        requires
            old(self).ready(),
        ensures
            final(self).follows(*old(self), declare(old(self).input(), old(self).index as int), r),
            r is Ok ==> final(self).index > old(self).index,
        decreases old(self).tokens.len() - old(self).index, 0int,
    {
        broadcast use group_tree_views;

        proof {
            reveal(declare);
            reveal(statement);
        }
        let name = self.parse_identifier()?;
        self.expect_keyword(Keyword::CURSOR)?;
        let _ = self.parse_keywords2(Keyword::WITHOUT, Keyword::HOLD);
        self.expect_keyword(Keyword::FOR)?;
        let s = self.parse_statement()?;
        Ok(node(Kind::Declare, trees2(name, s)))
    }
}

/// What [`Parser::parse_close`] yields from the token at `i` on.
#[verifier::opaque]
pub open spec fn close(p: Input, i: int) -> Out<TreeView>
{
    match identifier(p, i) { Failed(e, i) => Failed(e, i), Got(name, i) => {
    Got(TreeView::Node(Kind::Close, seq![name]), i)
    }}
}

impl Parser {
    /// Parse a `CLOSE` statement, assuming that the `CLOSE` token
    /// has already been consumed.
    pub fn parse_close(&mut self) -> (r: Result<Tree, Failure>)
        requires
            old(self).ready(),
        ensures
            final(self).follows(*old(self), close(old(self).input(), old(self).index as int), r),
            r is Ok ==> final(self).index > old(self).index,
            r matches Err(e) ==> !(e@ is Unhandled),
    {
        broadcast use group_tree_views;

        proof {
            reveal(close);
        }
        let name = self.parse_identifier()?;
        Ok(node(Kind::Close, trees1(name)))
    }
}

/// What [`Parser::parse_prepare`] yields from the token at `i` on.
#[verifier::opaque]
pub open spec fn prepare(p: Input, i: int) -> Out<TreeView>
    decreases p.toks.len() - i, 0int,
{
    match past(p, i, identifier(p, i)) { Failed(e, i) => Failed(e, i), Got(name, i) => {
    match keyword(p, i, Keyword::AS) { Failed(e, i) => Failed(e, i), Got(_, i) => {
    let at = position(p, i);
    match statement(p, i) { Failed(e, i) => Failed(e, i), Got(s, i) => {
    if is_preparable(s) {
        Got(TreeView::Node(Kind::Prepare, seq![name, s]), i)
    } else {
        Failed(error_view(at as int, no_text() + "unpreparable statement"@), i)
    }
    }}
    }}
    }}
}

impl Parser {
    /// Parse a `PREPARE` statement, assuming that the `PREPARE` token
    /// has already been consumed.
    pub fn parse_prepare(&mut self) -> (r: Result<Tree, Failure>)
        requires
            old(self).ready(),
        ensures
            final(self).follows(*old(self), prepare(old(self).input(), old(self).index as int), r),
            r is Ok ==> final(self).index > old(self).index,
        decreases old(self).tokens.len() - old(self).index, 0int,
    {
        broadcast use group_tree_views;

        proof {
            reveal(prepare);
            reveal(statement);
        }
        let name = self.parse_identifier()?;
        self.expect_keyword(Keyword::AS)?;
        let at: usize = self.peek_pos();
        let s = self.parse_statement()?;
        if is_preparable_statement(&s) {
            Ok(node(Kind::Prepare, trees2(name, s)))
        } else {
            let pos: usize = at;
            Err(error(pos, String::new().concat("unpreparable statement")))
        }
    }
}

/// What [`Parser::parse_execute`] yields from the token at `i` on.
#[verifier::opaque]
pub open spec fn execute(p: Input, i: int) -> Out<TreeView>
{
    match identifier(p, i) { Failed(e, i) => Failed(e, i), Got(name, i) => {
    if at_token(p, i, TokenView::LParen) {
        let i = i + 1;
        match expr_list(p, i, Seq::<TreeView>::empty()) { Failed(e, i) => Failed(e, i), Got(params, i) => {
        match token(p, i, TokenView::RParen) { Failed(e, i) => Failed(e, i), Got(_, i) => {
        Got(TreeView::Node(Kind::Execute, seq![name, TreeView::List(params)]), i)
        }}
        }}
    } else {
        Got(TreeView::Node(Kind::Execute, seq![name, TreeView::List(Seq::<TreeView>::empty())]), i)
    }
    }}
}

impl Parser {
    /// Parse a `EXECUTE` statement, assuming that the `EXECUTE` token
    /// has already been consumed.
    pub fn parse_execute(&mut self) -> (r: Result<Tree, Failure>)
        requires
            old(self).ready(),
        ensures
            final(self).follows(*old(self), execute(old(self).input(), old(self).index as int), r),
            r is Ok ==> final(self).index > old(self).index,
            r matches Err(e) ==> !(e@ is Unhandled),
    {
        broadcast use group_tree_views;

        proof {
            reveal(execute);
        }
        let name = self.parse_identifier()?;
        if self.consume_token(&Token::LParen) {
            let params = self.parse_expr_list(trees0())?;
            self.expect_token(&Token::RParen)?;
            Ok(node(Kind::Execute, trees2(name, list(params))))
        } else {
            Ok(node(Kind::Execute, trees2(name, list(trees0()))))
        }
    }
}

/// What [`Parser::parse_deallocate`] yields from the token at `i` on.
#[verifier::opaque]
pub open spec fn deallocate(p: Input, i: int) -> Out<TreeView>
{
    let i = if at_keyword(p, i, Keyword::PREPARE) { i + 1 } else { i };
    if at_keyword(p, i, Keyword::ALL) {
        let i = i + 1;
        Got(TreeView::Node(Kind::Deallocate, seq![TreeView::Absent]), i)
    } else {
        match identifier(p, i) { Failed(e, i) => Failed(e, i), Got(name, i) => {
        Got(TreeView::Node(Kind::Deallocate, seq![name]), i)
        }}
    }
}

impl Parser {
    /// Parse a `DEALLOCATE` statement, assuming that the `DEALLOCATE` token
    /// has already been consumed.
    pub fn parse_deallocate(&mut self) -> (r: Result<Tree, Failure>)
        requires
            old(self).ready(),
        ensures
            final(self).follows(*old(self), deallocate(old(self).input(), old(self).index as int), r),
            r is Ok ==> final(self).index > old(self).index,
            r matches Err(e) ==> !(e@ is Unhandled),
    {
        broadcast use group_tree_views;

        proof {
            reveal(deallocate);
        }
        let _ = self.parse_keyword(Keyword::PREPARE);
        if self.parse_keyword(Keyword::ALL) {
            Ok(node(Kind::Deallocate, trees1(Tree::Absent)))
        } else {
            let name = self.parse_identifier()?;
            Ok(node(Kind::Deallocate, trees1(name)))
        }
    }
}

/// What [`Parser::parse_fetch`] yields from the token at `i` on.
#[verifier::opaque]
pub open spec fn fetch(p: Input, i: int) -> Out<TreeView>
{
    let i = if at_keyword(p, i, Keyword::FORWARD) { i + 1 } else { i };
    match {
        match literal_uint(p, i) {
            Got(n, i) => {
                Got(TreeView::Node(Kind::ForwardCount, seq![TreeView::Num(n)]), i)
            },
            Failed(_, _) => {
                if at_keyword(p, i, Keyword::ALL) {
                    let i = i + 1;
                    Got(TreeView::Node(Kind::ForwardAll, Seq::<TreeView>::empty()), i)
                } else {
                    Got(TreeView::Absent, i)
                }
            },
        }
    } { Failed(e, i) => Failed(e, i), Got(count, i) => {
    let i = if at_keyword(p, i, Keyword::FROM) { i + 1 } else { i };
    match identifier(p, i) { Failed(e, i) => Failed(e, i), Got(name, i) => {
    match {
        if at_keyword(p, i, Keyword::WITH) {
            let i = i + 1;
            match token(p, i, TokenView::LParen) { Failed(e, i) => Failed(e, i), Got(_, i) => {
            match fetch_option_list(p, i, Seq::<TreeView>::empty()) { Failed(e, i) => Failed(e, i), Got(os, i) => {
            match token(p, i, TokenView::RParen) { Failed(e, i) => Failed(e, i), Got(_, i) => {
            Got(TreeView::List(os), i)
            }}
            }}
            }}
        } else {
            Got(TreeView::List(Seq::<TreeView>::empty()), i)
        }
    } { Failed(e, i) => Failed(e, i), Got(options, i) => {
    Got(TreeView::Node(Kind::Fetch, seq![name, count, options]), i)
    }}
    }}
    }}
}

impl Parser {
    /// Parse a `FETCH` statement, assuming that the `FETCH` token
    /// has already been consumed.
    pub fn parse_fetch(&mut self) -> (r: Result<Tree, Failure>)
        requires
            old(self).ready(),
        ensures
            final(self).follows(*old(self), fetch(old(self).input(), old(self).index as int), r),
            r is Ok ==> final(self).index > old(self).index,
            r matches Err(e) ==> !(e@ is Unhandled),
    {
        broadcast use group_tree_views;

        proof {
            reveal(fetch);
        }
        let _ = self.parse_keyword(Keyword::FORWARD);
        let mark: usize = self.index;
        let count = match self.parse_literal_uint() {
            Ok(n) => {
                node(Kind::ForwardCount, trees1(Tree::Num(n)))
            },
            Err(_) => {
                self.index = mark;
                if self.parse_keyword(Keyword::ALL) {
                    node(Kind::ForwardAll, trees0())
                } else {
                    Tree::Absent
                }
            },
        };
        let _ = self.parse_keyword(Keyword::FROM);
        let name = self.parse_identifier()?;
        let options = if self.parse_keyword(Keyword::WITH) {
            self.expect_token(&Token::LParen)?;
            let os = self.parse_fetch_option_list(trees0())?;
            self.expect_token(&Token::RParen)?;
            list(os)
        } else {
            list(trees0())
        };
        Ok(node(Kind::Fetch, trees3(name, count, options)))
    }
}

/// What [`Parser::parse_fetch_option`] yields from the token at `i` on.
#[verifier::opaque]
pub open spec fn fetch_option(p: Input, i: int) -> Out<TreeView>
{
    match keyword(p, i, Keyword::TIMEOUT) { Failed(e, i) => Failed(e, i), Got(_, i) => {
    match optional_option_value(p, i) { Failed(e, i) => Failed(e, i), Got(v, i) => {
    Got(TreeView::Node(Kind::FetchOption, seq![TreeView::Node(Kind::Timeout, Seq::<TreeView>::empty()), v]), i)
    }}
    }}
}

impl Parser {
    /// Parse an option of a `FETCH` statement.
    pub fn parse_fetch_option(&mut self) -> (r: Result<Tree, Failure>)
        requires
            old(self).ready(),
        ensures
            final(self).follows(*old(self), fetch_option(old(self).input(), old(self).index as int), r),
            r is Ok ==> final(self).index > old(self).index,
            r matches Err(e) ==> !(e@ is Unhandled),
    {
        broadcast use group_tree_views;

        proof {
            reveal(fetch_option);
        }
        self.expect_keyword(Keyword::TIMEOUT)?;
        let v = self.parse_optional_option_value()?;
        Ok(node(Kind::FetchOption, trees2(node(Kind::Timeout, trees0()), v)))
    }
}

/// What [`Parser::parse_fetch_option_list`] yields from the token at `i` on.
#[verifier::opaque]
pub open spec fn fetch_option_list(p: Input, i: int, items: Seq<TreeView>) -> Out<Seq<TreeView>>
    decreases p.toks.len() - i, 0int,
{
    match past(p, i, fetch_option(p, i)) { Failed(e, i) => Failed(e, i), Got(item, i) => {
    if at_token(p, i, TokenView::Comma) {
        let i = i + 1;
        fetch_option_list(p, i, items.push(item))
    } else {
        Got(items.push(item), i)
    }
    }}
}

impl Parser {
    /// Parses one or more `fetch_option`, separated by commas, after those in `items`.
    pub fn parse_fetch_option_list(&mut self, mut items: Trees) -> (r: Result<Trees, Failure>)
        requires
            old(self).ready(),
        ensures
            final(self).follows(*old(self), fetch_option_list(old(self).input(), old(self).index as int, items@), r),
            r is Ok ==> final(self).index > old(self).index,
            r matches Ok(all) ==> all@.len() > items@.len(),
            r matches Err(e) ==> !(e@ is Unhandled),
        decreases old(self).tokens.len() - old(self).index, 0int,
    {
        broadcast use group_tree_views;

        proof {
            reveal(fetch_option_list);
        }
        let ghost before = *self;
        let ghost given = items@.len();
        let ghost goal = fetch_option_list(self.input(), self.index as int, items@);
        #[verifier::loop_isolation(false)]
        loop
            invariant
                self.ready(),
                self.input() == before.input(),
                self.tokens.len() == before.tokens.len(),
                before.index <= self.index,
                before == *old(self),
                given <= items@.len(),
                fetch_option_list(self.input(), self.index as int, items@) == goal,
            decreases self.tokens.len() - self.index,
        {
            proof {
                reveal(fetch_option_list);
            }
            let item = self.parse_fetch_option()?;
            if self.consume_token(&Token::Comma) {
                items = items.with(item);
                continue;
            } else {
                return Ok(items.with(item));
            }
        }
    }
}

/// What [`Parser::parse_raise`] yields from the token at `i` on.
#[verifier::opaque]
pub open spec fn raise(p: Input, i: int) -> Out<TreeView>
{
    match one_of(p, i, seq![Keyword::DEBUG, Keyword::INFO, Keyword::LOG, Keyword::NOTICE, Keyword::WARNING]) {
        Some(k) => {
            let i = i + 1;
            match k {
                Keyword::DEBUG => {
                    Got(TreeView::Node(Kind::Raise, seq![TreeView::Node(Kind::DebugSeverity, Seq::<TreeView>::empty())]), i)
                },
                Keyword::INFO => {
                    Got(TreeView::Node(Kind::Raise, seq![TreeView::Node(Kind::InfoSeverity, Seq::<TreeView>::empty())]), i)
                },
                Keyword::LOG => {
                    Got(TreeView::Node(Kind::Raise, seq![TreeView::Node(Kind::LogSeverity, Seq::<TreeView>::empty())]), i)
                },
                Keyword::NOTICE => {
                    Got(TreeView::Node(Kind::Raise, seq![TreeView::Node(Kind::NoticeSeverity, Seq::<TreeView>::empty())]), i)
                },
                _ => {
                    Got(TreeView::Node(Kind::Raise, seq![TreeView::Node(Kind::WarningSeverity, Seq::<TreeView>::empty())]), i)
                },
            }
        },
        None => {
            Failed(expected_at(p, i, "severity level"@), i)
        },
    }
}

impl Parser {
    /// Parse a `RAISE` statement, assuming that the `RAISE` token
    /// has already been consumed.
    pub fn parse_raise(&mut self) -> (r: Result<Tree, Failure>)
        requires
            old(self).ready(),
        ensures
            final(self).follows(*old(self), raise(old(self).input(), old(self).index as int), r),
            r is Ok ==> final(self).index > old(self).index,
            r matches Err(e) ==> !(e@ is Unhandled),
    {
        broadcast use group_tree_views;

        proof {
            reveal(raise);
        }
        let choices: [Keyword; 5] = [Keyword::DEBUG, Keyword::INFO, Keyword::LOG, Keyword::NOTICE, Keyword::WARNING];
        assert(choices@ =~= seq![Keyword::DEBUG, Keyword::INFO, Keyword::LOG, Keyword::NOTICE, Keyword::WARNING]);
        match self.parse_one_of_keywords(&choices) {
            Some(k) => {
                match k {
                    Keyword::DEBUG => {
                        Ok(node(Kind::Raise, trees1(node(Kind::DebugSeverity, trees0()))))
                    },
                    Keyword::INFO => {
                        Ok(node(Kind::Raise, trees1(node(Kind::InfoSeverity, trees0()))))
                    },
                    Keyword::LOG => {
                        Ok(node(Kind::Raise, trees1(node(Kind::LogSeverity, trees0()))))
                    },
                    Keyword::NOTICE => {
                        Ok(node(Kind::Raise, trees1(node(Kind::NoticeSeverity, trees0()))))
                    },
                    _ => {
                        Ok(node(Kind::Raise, trees1(node(Kind::WarningSeverity, trees0()))))
                    },
                }
            },
            None => {
                Err(self.expected_here("severity level"))
            },
        }
    }
}

} // verus!
