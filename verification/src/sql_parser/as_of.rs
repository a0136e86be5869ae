//! The `AS OF` clause.

use vstd::prelude::*;

use crate::sql_parser::expr::expr;
use crate::sql_parser::keywords::Keyword;
use crate::sql_parser::kind::Kind;
use crate::sql_parser::outcome::Out::{Failed, Got};
use crate::sql_parser::outcome::{expected_found, Failure, FailureView, Out};
use crate::sql_parser::parser::{at_keyword, at_keywords2, keyword, token_at, Input, Parser};
use crate::sql_parser::syntax::{group_tree_views, node, trees1, Tree, TreeView};

verus! {

/// A timestamp, the error of whose expression says what was expected.
pub open spec fn timestamp(p: Input, i: int, what: Seq<char>) -> Out<TreeView> {
    match expr(p, i) {
        Got(e, j) => Got(e, j),
        Failed(FailureView::Error { pos, message }, j) => Failed(
            expected_found(pos, what, token_at(p, j)),
            j,
        ),
        Failed(FailureView::Unhandled, j) => Failed(FailureView::Unhandled, j),
    }
}

/// What [`Parser::parse_optional_as_of`] yields from the token at `i` on.
#[verifier::opaque]
pub open spec fn optional_as_of(p: Input, i: int) -> Out<TreeView> {
    if at_keyword(p, i, Keyword::AS) {
        match keyword(p, i + 1, Keyword::OF) { Failed(e, i) => Failed(e, i), Got(_, i) => {
        if at_keywords2(p, i, Keyword::AT, Keyword::LEAST) {
            match timestamp(p, i + 2, "a timestamp value after 'AS OF AT LEAST'"@) {
                Failed(e, i) => Failed(e, i),
                Got(e, i) => Got(TreeView::Node(Kind::AsOfAtLeast, seq![e]), i),
            }
        } else {
            match timestamp(p, i, "a timestamp value after 'AS OF'"@) {
                Failed(e, i) => Failed(e, i),
                Got(e, i) => Got(TreeView::Node(Kind::AsOfAt, seq![e]), i),
            }
        }
        }}
    } else {
        Got(TreeView::Absent, i)
    }
}

impl Parser {
    /// Parse a timestamp, the error of whose expression says what was expected.
    fn parse_timestamp(&mut self, what: &str) -> (r: Result<Tree, Failure>)
        requires
            old(self).ready(),
        ensures
            final(self).follows(*old(self), timestamp(old(self).input(), old(self).index as int, what@), r),
            r matches Err(e) ==> !(e@ is Unhandled),
    {
        match self.parse_expr() {
            Ok(e) => Ok(e),
            Err(Failure::Error(e)) => Err(self.expected_next(e.pos, what)),
            Err(Failure::Unhandled) => Err(Failure::Unhandled),
        }
    }

    /// Parse `AS OF`, if present.
    pub fn parse_optional_as_of(&mut self) -> (r: Result<Tree, Failure>)
        requires
            old(self).ready(),
        ensures
            final(self).follows(*old(self), optional_as_of(old(self).input(), old(self).index as int), r),
            r matches Err(e) ==> !(e@ is Unhandled),
    {
        broadcast use group_tree_views;

        proof {
            reveal(optional_as_of);
        }
        if self.parse_keyword(Keyword::AS) {
            self.expect_keyword(Keyword::OF)?;
            if self.parse_keywords2(Keyword::AT, Keyword::LEAST) {
                let e = self.parse_timestamp("a timestamp value after 'AS OF AT LEAST'")?;
                Ok(node(Kind::AsOfAtLeast, trees1(e)))
            } else {
                let e = self.parse_timestamp("a timestamp value after 'AS OF'")?;
                Ok(node(Kind::AsOfAt, trees1(e)))
            }
        } else {
            Ok(Tree::Absent)
        }
    }
}

} // verus!
