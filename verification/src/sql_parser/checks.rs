//! Questions that grammar rules ask about trees, words and literals.

use vstd::prelude::*;

use crate::sql_parser::keywords::{
    is_reserved_in_column_alias_spec, is_reserved_in_table_alias_spec, is_reserved_spec,
    keyword_of, Keyword,
};
use crate::sql_parser::kind::Kind;
use crate::sql_parser::parser::{at_keyword, token_at, Input, Parser, Precedence};
use crate::sql_parser::syntax::{
    group_tree_views, list, node, trees0, trees1, trees2, views, views_index, Tree, TreeView, Trees,
};
use crate::sql_parser::text::{chars_of, decimal, decimal_text, no_text, text_eq, to_upper, upper};
use crate::sql_parser::token::{Token, TokenView};

verus! {

/// Whether a tree is a node of the given kind.
pub open spec fn is_node(t: TreeView, kind: Kind) -> bool {
    t matches TreeView::Node(k, _) && k == kind
}

impl Tree {
    /// Whether the tree is a node of the given kind.
    pub fn is_node(&self, kind: Kind) -> (r: bool)
        ensures
            r == is_node(self@, kind),
    {
        broadcast use group_tree_views;

        proof {
            reveal(<Tree as View>::view);
        }
        match self {
            Tree::Node(k, _) => *k == kind,
            _ => false,
        }
    }
}

/// The type name `interval`, with no modifiers.
pub open spec fn interval_type() -> TreeView {
    TreeView::Node(
        Kind::OtherType,
        seq![
            TreeView::Node(
                Kind::ItemName,
                seq![TreeView::List(seq![TreeView::Text("interval"@)])],
            ),
            TreeView::List(Seq::<TreeView>::empty()),
        ],
    )
}

/// Whether a data type is written `interval`.
pub open spec fn is_interval(t: TreeView) -> bool {
    t == interval_type()
}

/// Whether two trees stand for the same.
pub fn same_tree(a: &Tree, b: &Tree) -> (r: bool)
    ensures
        r == (a@ == b@),
    decreases a,
{
    broadcast use group_tree_views;

    proof {
        reveal(<Tree as View>::view);
    }
    match (a, b) {
        (Tree::Node(k, xs), Tree::Node(l, ys)) => {
            if *k != *l || xs.len() != ys.len() {
                assert(views(xs@).len() == xs.len() && views(ys@).len() == ys.len());
                return false;
            }
            let mut n: usize = 0;
            while n < xs.len()
                invariant
                    n <= xs.len(),
                    xs.len() == ys.len(),
                    *a == Tree::Node(*k, *xs),
                    *b == Tree::Node(*l, *ys),
                    forall|m: int| 0 <= m < n ==> (#[trigger] xs@[m])@ == ys@[m]@,
                decreases xs.len() - n,
            {
                proof {
                    assert(decreases_to!(*a => a->Node_1));
                    assert(decreases_to!(xs@ => xs@[n as int]));
                }
                if !same_tree(&xs[n], &ys[n]) {
                    proof {
                        broadcast use group_tree_views, views_index;

                        assert(views(xs@)[n as int] != views(ys@)[n as int]);
                    }
                    return false;
                }
                n += 1;
            }
            assert(views(xs@) =~= views(ys@)) by {
                broadcast use views_index;

                assert forall|m: int| 0 <= m < xs.len() implies #[trigger] views(xs@)[m] == views(ys@)[m] by {
                    assert(xs@[m]@ == ys@[m]@);
                }
            }
            true
        },
        (Tree::List(xs), Tree::List(ys)) => {
            if xs.len() != ys.len() {
                assert(views(xs@).len() == xs.len() && views(ys@).len() == ys.len());
                return false;
            }
            let mut n: usize = 0;
            while n < xs.len()
                invariant
                    n <= xs.len(),
                    xs.len() == ys.len(),
                    *a == Tree::List(*xs),
                    *b == Tree::List(*ys),
                    forall|m: int| 0 <= m < n ==> (#[trigger] xs@[m])@ == ys@[m]@,
                decreases xs.len() - n,
            {
                proof {
                    assert(decreases_to!(*a => a->List_0));
                    assert(decreases_to!(xs@ => xs@[n as int]));
                }
                if !same_tree(&xs[n], &ys[n]) {
                    proof {
                        broadcast use group_tree_views, views_index;

                        assert(views(xs@)[n as int] != views(ys@)[n as int]);
                    }
                    return false;
                }
                n += 1;
            }
            assert(views(xs@) =~= views(ys@)) by {
                broadcast use views_index;

                assert forall|m: int| 0 <= m < xs.len() implies #[trigger] views(xs@)[m] == views(ys@)[m] by {
                    assert(xs@[m]@ == ys@[m]@);
                }
            }
            true
        },
        (Tree::Text(s), Tree::Text(t)) => text_eq(s.as_str(), t.as_str()),
        (Tree::Flag(x), Tree::Flag(y)) => *x == *y,
        (Tree::Num(x), Tree::Num(y)) => *x == *y,
        (Tree::Int(x), Tree::Int(y)) => *x == *y,
        (Tree::Absent, Tree::Absent) => true,
        _ => false,
    }
}

/// Whether a data type is written `interval`.
pub fn is_interval_type(t: &Tree) -> (r: bool)
    ensures
        r == is_interval(t@),
{
    broadcast use group_tree_views;

    let name = node(
        Kind::ItemName,
        trees1(list(trees1(Tree::Text(String::from_str("interval"))))),
    );
    let interval = node(Kind::OtherType, trees2(name, list(trees0())));
    same_tree(t, &interval)
}

/// Whether a character can stand in an identifier without quotes, at its start
/// or after it.
pub open spec fn is_bare_char(c: char, start: bool) -> bool {
    ('a' <= c && c <= 'z') || c == '_' || (!start && '0' <= c && c <= '9')
}

/// Whether a keyword needs quotes as an identifier anywhere.
pub open spec fn is_sometimes_reserved(k: Keyword) -> bool {
    is_reserved_spec(k) || is_reserved_in_table_alias_spec(k) || is_reserved_in_column_alias_spec(k)
}

/// Whether an identifier can be written without quotes.
pub open spec fn is_bare(s: Seq<char>) -> bool {
    &&& s.len() > 0
    &&& forall|k: int| 0 <= k < s.len() ==> is_bare_char(#[trigger] s[k], k == 0)
    &&& match keyword_named(s) {
        Some(k) => !is_sometimes_reserved(k),
        None => true,
    }
}

/// `s` with each double quote doubled.
pub open spec fn double_quotes(s: Seq<char>) -> Seq<char>
    decreases s.len(),
{
    if s.len() == 0 {
        no_text()
    } else {
        let rest = double_quotes(s.drop_last());
        if s.last() == '"' {
            rest.push('"').push('"')
        } else {
            rest.push(s.last())
        }
    }
}

/// An identifier between double quotes.
pub open spec fn quoted_ident(s: Seq<char>) -> Seq<char> {
    no_text().push('"') + double_quotes(s) + seq!['"']
}

/// How an identifier is written: with quotes only where it needs them.
#[verifier::opaque]
pub open spec fn ident_text(s: Seq<char>) -> Seq<char> {
    if is_bare(s) {
        s
    } else {
        quoted_ident(s)
    }
}

/// An identifier between double quotes.
pub fn quote_ident(s: &str) -> (r: String)
    ensures
        r@ == quoted_ident(s@),
{
    let cs = chars_of(s);
    let mut out = String::new();
    out.push('"');
    let mut k: usize = 0;
    while k < cs.len()
        invariant
            k <= cs.len(),
            cs@ == s@,
            out@ == no_text().push('"') + double_quotes(s@.take(k as int)),
        decreases cs.len() - k,
    {
        let c = cs[k];
        assert(s@.take(k + 1).drop_last() =~= s@.take(k as int));
        if c == '"' {
            out.push('"');
        }
        out.push(c);
        k += 1;
        assert(out@ =~= no_text().push('"') + double_quotes(s@.take(k as int)));
    }
    assert(s@.take(k as int) =~= s@);
    out.push('"');
    assert(out@ =~= quoted_ident(s@));
    out
}

fn can_be_bare(s: &str) -> (r: bool)
    ensures
        r == is_bare(s@),
{
    let cs = chars_of(s);
    if cs.len() == 0 {
        return false;
    }
    let mut k: usize = 0;
    while k < cs.len()
        invariant
            k <= cs.len(),
            cs@ == s@,
            forall|j: int| 0 <= j < k ==> is_bare_char(#[trigger] s@[j], j == 0),
        decreases cs.len() - k,
    {
        let c = cs[k];
        if !(('a' <= c && c <= 'z') || c == '_' || (k != 0 && '0' <= c && c <= '9')) {
            assert(!is_bare_char(s@[k as int], k == 0));
            return false;
        }
        k += 1;
    }
    match find_keyword(s) {
        Some(kw) => !(kw.is_reserved() || kw.is_reserved_in_table_alias()
            || kw.is_reserved_in_column_alias()),
        None => true,
    }
}

/// How an identifier is written.
pub fn ident_string(s: &str) -> (r: String)
    ensures
        r@ == ident_text(s@),
{
    proof {
        reveal(ident_text);
    }
    if can_be_bare(s) {
        String::from_str(s)
    } else {
        quote_ident(s)
    }
}

/// Identifiers with dots between them.
pub open spec fn dotted(ids: Seq<TreeView>) -> Seq<char>
    decreases ids.len(),
{
    if ids.len() == 0 {
        no_text()
    } else if ids.len() == 1 {
        no_text() + ident_text(text_in(ids[0]))
    } else {
        dotted(ids.drop_last()) + "."@ + ident_text(text_in(ids.last()))
    }
}

/// How an item's name is written.
#[verifier::opaque]
pub open spec fn name_text(t: TreeView) -> Seq<char> {
    match t {
        TreeView::Node(Kind::IdName, cs) => if cs.len() == 2 {
            no_text() + "["@ + text_in(cs[0]) + " AS "@ + item_name_text(cs[1]) + "]"@
        } else {
            no_text()
        },
        _ => item_name_text(t),
    }
}

/// How an item's name is written that comes without an id.
pub open spec fn item_name_text(t: TreeView) -> Seq<char> {
    match t {
        TreeView::Node(_, cs) => if cs.len() == 1 && cs[0] is List {
            dotted(cs[0]->List_0)
        } else {
            no_text()
        },
        _ => no_text(),
    }
}

/// The text that a leaf holds.
pub open spec fn text_in(t: TreeView) -> Seq<char> {
    match t {
        TreeView::Text(s) => s,
        _ => no_text(),
    }
}

impl Tree {
    /// The text that the leaf holds.
    pub fn into_text(self) -> (r: String)
        ensures
            r@ == text_in(self@),
    {
        proof {
            reveal(<Tree as View>::view);
        }
        match self {
            Tree::Text(s) => s,
            _ => String::new(),
        }
    }

    /// The text that the leaf holds.
    pub fn text(&self) -> (r: String)
        ensures
            r@ == text_in(self@),
    {
        proof {
            reveal(<Tree as View>::view);
        }
        match self {
            Tree::Text(s) => s.clone(),
            _ => String::new(),
        }
    }
}

fn dotted_string(ids: &Vec<Tree>) -> (r: String)
    ensures
        r@ == dotted(views(ids@)),
{
    let mut out = String::new();
    let mut k: usize = 0;
    proof {
        reveal(<Tree as View>::view);
    }
    while k < ids.len()
        invariant
            k <= ids.len(),
            out@ == dotted(views(ids@).take(k as int)),
        decreases ids.len() - k,
    {
        proof {
            reveal(<Tree as View>::view);
        }
        assert(views(ids@).take(k + 1).drop_last() =~= views(ids@).take(k as int));
        let id = ident_string(ids[k].text().as_str());
        if k > 0 {
            out = out.concat(".");
        }
        out = out.concat(id.as_str());
        k += 1;
    }
    assert(views(ids@).take(k as int) =~= views(ids@));
    out
}

/// How an item's name is written that comes without an id.
pub fn item_name_string(t: &Tree) -> (r: String)
    ensures
        r@ == item_name_text(t@),
{
    broadcast use group_tree_views;

    proof {
        reveal(<Tree as View>::view);
    }
    match t {
        Tree::Node(_, cs) => {
            if cs.len() == 1 {
                assert(views(cs@)[0] == cs@[0]@);
                match &cs[0] {
                    Tree::List(ids) => dotted_string(ids),
                    _ => String::new(),
                }
            } else {
                String::new()
            }
        },
        _ => String::new(),
    }
}

/// How an item's name is written.
pub fn name_string(t: &Tree) -> (r: String)
    ensures
        r@ == name_text(t@),
{
    broadcast use group_tree_views;

    proof {
        reveal(<Tree as View>::view);
        reveal(name_text);
    }
    match t {
        Tree::Node(kind, cs) => {
            if *kind == Kind::IdName {
                if cs.len() == 2 {
                    assert(views(cs@)[0] == cs@[0]@ && views(cs@)[1] == cs@[1]@);
                    let id = cs[0].text();
                    let name = item_name_string(&cs[1]);
                    String::new().concat("[").concat(id.as_str()).concat(" AS ").concat(
                        name.as_str(),
                    ).concat("]")
                } else {
                    String::new()
                }
            } else {
                item_name_string(t)
            }
        },
        _ => item_name_string(t),
    }
}

/// The keyword that an identifier is, in upper or lower case, if it is one.
pub open spec fn keyword_named(s: Seq<char>) -> Option<Keyword> {
    keyword_of(upper(s))
}

/// The keyword that an identifier is, in upper or lower case, if it is one.
pub fn find_keyword(s: &str) -> (r: Option<Keyword>)
    ensures
        r == keyword_named(s@),
{
    Keyword::parse(to_upper(s).as_str())
}

/// Whether `found` is the keyword `k`.
pub fn is_keyword(found: Option<Keyword>, k: Keyword) -> (r: bool)
    ensures
        r == (found == Some(k)),
{
    match found {
        Some(f) => f == k,
        None => false,
    }
}

/// How significant a field of an interval is, the most significant first.
pub open spec fn field_order(k: Keyword) -> int {
    match k {
        Keyword::YEAR | Keyword::YEARS => 0,
        Keyword::MONTH | Keyword::MONTHS => 1,
        Keyword::DAY | Keyword::DAYS => 2,
        Keyword::HOUR | Keyword::HOURS => 3,
        Keyword::MINUTE | Keyword::MINUTES => 4,
        _ => 5,
    }
}

/// How significant a field of an interval is, the most significant first.
pub fn field_index(k: Keyword) -> (r: u8)
    ensures
        r == field_order(k),
{
    match k {
        Keyword::YEAR | Keyword::YEARS => 0,
        Keyword::MONTH | Keyword::MONTHS => 1,
        Keyword::DAY | Keyword::DAYS => 2,
        Keyword::HOUR | Keyword::HOURS => 3,
        Keyword::MINUTE | Keyword::MINUTES => 4,
        _ => 5,
    }
}

/// The field of an interval that a keyword names.
pub open spec fn field_kind(k: Keyword) -> Kind {
    match k {
        Keyword::YEAR | Keyword::YEARS => Kind::Year,
        Keyword::MONTH | Keyword::MONTHS => Kind::Month,
        Keyword::DAY | Keyword::DAYS => Kind::Day,
        Keyword::HOUR | Keyword::HOURS => Kind::Hour,
        Keyword::MINUTE | Keyword::MINUTES => Kind::Minute,
        _ => Kind::Second,
    }
}

/// The field of an interval that a keyword names.
pub open spec fn date_time_field(k: Keyword) -> TreeView {
    TreeView::Node(field_kind(k), Seq::<TreeView>::empty())
}

/// The field of an interval that a keyword names.
pub fn field_tree(k: Keyword) -> (r: Tree)
    ensures
        r@ == date_time_field(k),
{
    let kind = match k {
        Keyword::YEAR | Keyword::YEARS => Kind::Year,
        Keyword::MONTH | Keyword::MONTHS => Kind::Month,
        Keyword::DAY | Keyword::DAYS => Kind::Day,
        Keyword::HOUR | Keyword::HOURS => Kind::Hour,
        Keyword::MINUTE | Keyword::MINUTES => Kind::Minute,
        _ => Kind::Second,
    };
    node(kind, trees0())
}

/// Whether a keyword cannot be an alias without `AS`, of a table or of a column.
pub open spec fn alias_reserved(table: bool, k: Keyword) -> bool {
    if table {
        is_reserved_in_table_alias_spec(k)
    } else {
        is_reserved_in_column_alias_spec(k)
    }
}

/// Whether a keyword cannot be an alias without `AS`, of a table or of a column.
pub fn is_alias_reserved(table: bool, k: Keyword) -> (r: bool)
    ensures
        r == alias_reserved(table, k),
{
    if table {
        k.is_reserved_in_table_alias()
    } else {
        k.is_reserved_in_column_alias()
    }
}

/// A text as the debug formatting of `str` writes it.
pub uninterp spec fn debug_str(s: Seq<char>) -> Seq<char>;

/// The debug formatting of `str`, which depends on the text alone.
#[verifier::external_body]
pub(crate) fn debug_string(s: &str) -> (r: String)
    ensures
        r@ == debug_str(s@),
{
    format!("{:?}", s)
}

/// How a token that is no keyword is shown where it cannot be a value.
#[verifier::opaque]
pub open spec fn token_debug(t: TokenView) -> Seq<char> {
    match t {
        TokenView::Keyword(_) => no_text(),
        TokenView::Ident(s) => no_text() + "Ident("@ + debug_str(s) + ")"@,
        TokenView::String(s) => no_text() + "String("@ + debug_str(s) + ")"@,
        TokenView::HexString(s) => no_text() + "HexString("@ + debug_str(s) + ")"@,
        TokenView::Number(s) => no_text() + "Number("@ + debug_str(s) + ")"@,
        TokenView::Parameter(n) => no_text() + "Parameter("@ + decimal(n as nat) + ")"@,
        TokenView::Op(s) => no_text() + "Op("@ + debug_str(s) + ")"@,
        TokenView::Star => "Star"@,
        TokenView::Eq => "Eq"@,
        TokenView::LParen => "LParen"@,
        TokenView::RParen => "RParen"@,
        TokenView::LBracket => "LBracket"@,
        TokenView::RBracket => "RBracket"@,
        TokenView::Dot => "Dot"@,
        TokenView::Comma => "Comma"@,
        TokenView::Colon => "Colon"@,
        TokenView::DoubleColon => "DoubleColon"@,
        TokenView::Semicolon => "Semicolon"@,
    }
}

impl Token {
    /// How the token is shown where it cannot be a value.
    pub fn debug(&self) -> (r: String)
        ensures
            r@ == token_debug(self@),
    {
        proof {
            reveal(token_debug);
        }
        match self {
            Token::Keyword(_) => String::new(),
            Token::Ident(s) => String::new().concat("Ident(").concat(
                debug_string(s.as_str()).as_str(),
            ).concat(")"),
            Token::String(s) => String::new().concat("String(").concat(
                debug_string(s.as_str()).as_str(),
            ).concat(")"),
            Token::HexString(s) => String::new().concat("HexString(").concat(
                debug_string(s.as_str()).as_str(),
            ).concat(")"),
            Token::Number(s) => String::new().concat("Number(").concat(
                debug_string(s.as_str()).as_str(),
            ).concat(")"),
            Token::Parameter(n) => String::new().concat("Parameter(").concat(
                decimal_text(*n as u64).as_str(),
            ).concat(")"),
            Token::Op(s) => String::new().concat("Op(").concat(
                debug_string(s.as_str()).as_str(),
            ).concat(")"),
            Token::Star => String::from_str("Star"),
            Token::Eq => String::from_str("Eq"),
            Token::LParen => String::from_str("LParen"),
            Token::RParen => String::from_str("RParen"),
            Token::LBracket => String::from_str("LBracket"),
            Token::RBracket => String::from_str("RBracket"),
            Token::Dot => String::from_str("Dot"),
            Token::Comma => String::from_str("Comma"),
            Token::Colon => String::from_str("Colon"),
            Token::DoubleColon => String::from_str("DoubleColon"),
            Token::Semicolon => String::from_str("Semicolon"),
        }
    }
}

/// How many bits of precision a float type asks for; 53 where none is given.
pub open spec fn float_bits(t: TreeView) -> u64 {
    match t {
        TreeView::Num(n) => n,
        _ => 53,
    }
}

/// How many bits of precision a float type asks for.
pub fn float_precision(t: &Tree) -> (r: u64)
    ensures
        r == float_bits(t@),
{
    proof {
        reveal(<Tree as View>::view);
    }
    match t {
        Tree::Num(n) => *n,
        _ => 53,
    }
}

/// What a query body brings to the query around it: the CTEs, order, limit and
/// offset of a body that is itself a query in parentheses, and the body inside it.
pub open spec fn query_parts(body: TreeView) -> (TreeView, TreeView, TreeView, TreeView, TreeView) {
    let plain = (
        TreeView::Node(Kind::SimpleCtes, seq![TreeView::List(Seq::<TreeView>::empty())]),
        TreeView::List(Seq::<TreeView>::empty()),
        TreeView::Absent,
        TreeView::Absent,
        body,
    );
    match body {
        TreeView::Node(Kind::QueryBody, cs) => if cs.len() == 1 {
            match cs[0] {
                TreeView::Node(Kind::Query, q) => if q.len() == 5 {
                    (q[0], q[2], q[3], q[4], q[1])
                } else {
                    plain
                },
                _ => plain,
            }
        } else {
            plain
        },
        _ => plain,
    }
}

/// What a query body brings to the query around it.
pub fn split_query(body: Tree) -> (r: (Tree, Tree, Tree, Tree, Tree))
    ensures
        (r.0@, r.1@, r.2@, r.3@, r.4@) == query_parts(body@),
{
    broadcast use group_tree_views;

    proof {
        reveal(<Tree as View>::view);
    }
    match &body {
        Tree::Node(Kind::QueryBody, cs) => {
            if cs.len() == 1 {
                assert(views(cs@)[0] == cs@[0]@);
                match &cs[0] {
                    Tree::Node(Kind::Query, q) => {
                        if q.len() == 5 {
                            assert(views(q@)[0] == q@[0]@ && views(q@)[1] == q@[1]@ && views(q@)[2]
                                == q@[2]@ && views(q@)[3] == q@[3]@ && views(q@)[4] == q@[4]@);
                            return (q[0].copy(), q[2].copy(), q[3].copy(), q[4].copy(), q[1].copy());
                        }
                    },
                    _ => {},
                }
            }
        },
        _ => {},
    }
    (node(Kind::SimpleCtes, trees1(list(trees0()))), list(trees0()), Tree::Absent, Tree::Absent, body)
}

/// Whether the first part of a node is an empty list.
pub open spec fn no_members(t: TreeView) -> bool {
    match t {
        TreeView::Node(_, cs) => cs.len() > 0 && is_empty_list(cs[0]),
        _ => false,
    }
}

/// Whether a tree is an empty list.
pub open spec fn is_empty_list(t: TreeView) -> bool {
    t matches TreeView::List(ts) && ts.len() == 0
}

impl Tree {
    /// Whether the first part of the node is an empty list.
    pub fn has_no_members(&self) -> (r: bool)
        ensures
            r == no_members(self@),
    {
        broadcast use group_tree_views;

        proof {
            reveal(<Tree as View>::view);
        }
        match self {
            Tree::Node(_, cs) => {
                if cs.len() > 0 {
                    assert(views(cs@)[0] == cs@[0]@);
                    cs[0].is_empty_list()
                } else {
                    false
                }
            },
            _ => false,
        }
    }

    /// Whether the tree is an empty list.
    pub fn is_empty_list(&self) -> (r: bool)
        ensures
            r == is_empty_list(self@),
    {
        broadcast use group_tree_views;

        proof {
            reveal(<Tree as View>::view);
        }
        match self {
            Tree::List(ts) => ts.len() == 0,
            _ => false,
        }
    }
}

/// Whether a table with joins is a single table that is no nested join.
pub open spec fn lone_table(t: TreeView) -> bool {
    match t {
        TreeView::Node(_, cs) => cs.len() == 2 && !is_node(cs[0], Kind::NestedJoin) && is_empty_list(
            cs[1],
        ),
        _ => false,
    }
}

/// Whether a table with joins is a single table that is no nested join.
pub fn is_lone_table(t: &Tree) -> (r: bool)
    ensures
        r == lone_table(t@),
{
    broadcast use group_tree_views;

    proof {
        reveal(<Tree as View>::view);
    }
    match t {
        Tree::Node(_, cs) => {
            if cs.len() == 2 {
                assert(views(cs@)[0] == cs@[0]@ && views(cs@)[1] == cs@[1]@);
                !cs[0].is_node(Kind::NestedJoin) && cs[1].is_empty_list()
            } else {
                false
            }
        },
        _ => false,
    }
}

/// Whether objects of a type live in a schema.
pub open spec fn lives_in_schema(object_type: Kind) -> bool {
    match object_type {
        Kind::TableType
        | Kind::ViewType
        | Kind::MaterializedViewType
        | Kind::SourceType
        | Kind::SinkType
        | Kind::IndexType
        | Kind::TypeType
        | Kind::SecretType
        | Kind::ConnectionType
        | Kind::FuncType => true,
        _ => false,
    }
}

/// Whether objects of a type live in a schema.
pub fn is_schema_item(object_type: Kind) -> (r: bool)
    ensures
        r == lives_in_schema(object_type),
{
    match object_type {
        Kind::TableType
        | Kind::ViewType
        | Kind::MaterializedViewType
        | Kind::SourceType
        | Kind::SinkType
        | Kind::IndexType
        | Kind::TypeType
        | Kind::SecretType
        | Kind::ConnectionType
        | Kind::FuncType => true,
        _ => false,
    }
}

/// How a type of objects is named in a message.
#[verifier::opaque]
pub open spec fn object_type_text(object_type: Kind) -> Seq<char> {
    match object_type {
        Kind::TableType => "TABLE"@,
        Kind::ViewType => "VIEW"@,
        Kind::MaterializedViewType => "MATERIALIZED VIEW"@,
        Kind::SourceType => "SOURCE"@,
        Kind::SinkType => "SINK"@,
        Kind::IndexType => "INDEX"@,
        Kind::TypeType => "TYPE"@,
        Kind::RoleType => "ROLE"@,
        Kind::ClusterType => "CLUSTER"@,
        Kind::ClusterReplicaType => "CLUSTER REPLICA"@,
        Kind::SecretType => "SECRET"@,
        Kind::ConnectionType => "CONNECTION"@,
        Kind::DatabaseType => "DATABASE"@,
        Kind::SchemaType => "SCHEMA"@,
        _ => "FUNCTION"@,
    }
}

/// How a type of objects is named in a message.
pub fn object_type_name(object_type: Kind) -> (r: String)
    ensures
        r@ == object_type_text(object_type),
{
    proof {
        reveal(object_type_text);
    }
    match object_type {
        Kind::TableType => String::from_str("TABLE"),
        Kind::ViewType => String::from_str("VIEW"),
        Kind::MaterializedViewType => String::from_str("MATERIALIZED VIEW"),
        Kind::SourceType => String::from_str("SOURCE"),
        Kind::SinkType => String::from_str("SINK"),
        Kind::IndexType => String::from_str("INDEX"),
        Kind::TypeType => String::from_str("TYPE"),
        Kind::RoleType => String::from_str("ROLE"),
        Kind::ClusterType => String::from_str("CLUSTER"),
        Kind::ClusterReplicaType => String::from_str("CLUSTER REPLICA"),
        Kind::SecretType => String::from_str("SECRET"),
        Kind::ConnectionType => String::from_str("CONNECTION"),
        Kind::DatabaseType => String::from_str("DATABASE"),
        Kind::SchemaType => String::from_str("SCHEMA"),
        _ => String::from_str("FUNCTION"),
    }
}

/// Whether a text is one character that UTF-8 writes as one byte.
pub open spec fn one_byte(s: Seq<char>) -> bool {
    s.len() == 1 && (s[0] as u32) < 128
}

/// Whether a text is one character that UTF-8 writes as one byte.
pub fn is_one_byte(s: &str) -> (r: bool)
    ensures
        r == one_byte(s@),
{
    let cs = chars_of(s);
    cs.len() == 1 && (cs[0] as u32) < 128
}

/// Whether a tree is a number that fits in 32 bits.
pub open spec fn fits_i32(t: TreeView) -> bool {
    t matches TreeView::Int(n) && -0x8000_0000 <= n <= 0x7fff_ffff
}

/// Whether a tree is a number that fits in 32 bits.
pub fn is_i32(t: &Tree) -> (r: bool)
    ensures
        r == fits_i32(t@),
{
    proof {
        reveal(<Tree as View>::view);
    }
    match t {
        Tree::Int(n) => -0x8000_0000 <= *n && *n <= 0x7fff_ffff,
        _ => false,
    }
}

/// The first part of a node.
pub open spec fn first_child(t: TreeView) -> TreeView {
    match t {
        TreeView::Node(_, cs) => if cs.len() > 0 {
            cs[0]
        } else {
            TreeView::Absent
        },
        _ => TreeView::Absent,
    }
}

/// The first parts of nodes.
pub open spec fn first_children(ts: Seq<TreeView>) -> Seq<TreeView> {
    Seq::new(ts.len(), |k: int| first_child(ts[k]))
}

impl Trees {
    /// The first parts of these nodes.
    pub fn into_first_children(self) -> (r: Trees)
        ensures
            r@ == first_children(self@),
    {
        broadcast use group_tree_views;

        proof {
            reveal(<Tree as View>::view);
            reveal(<Trees as View>::view);
        }
        let mut out = trees0();
        let mut k: usize = 0;
        while k < self.0.len()
            invariant
                k <= self.0.len(),
                self@ == views(self.0@),
                out@ == first_children(self@).take(k as int),
            decreases self.0.len() - k,
        {
            proof {
                reveal(<Tree as View>::view);
            }
            let child = match &self.0[k] {
                Tree::Node(_, cs) => {
                    if cs.len() > 0 {
                        assert(views(cs@)[0] == cs@[0]@);
                        cs[0].copy()
                    } else {
                        Tree::Absent
                    }
                },
                _ => Tree::Absent,
            };
            assert(child@ == first_child(self@[k as int]));
            out = out.with(child);
            k += 1;
            assert(out@ =~= first_children(self@).take(k as int));
        }
        assert(first_children(self@).take(k as int) =~= first_children(self@));
        out
    }
}

/// Whether a statement can be prepared.
pub open spec fn is_preparable(t: TreeView) -> bool {
    is_node(t, Kind::SelectStatement) || is_node(t, Kind::Insert) || is_node(t, Kind::Delete)
        || is_node(t, Kind::Update)
}

/// Whether a statement can be prepared.
pub fn is_preparable_statement(t: &Tree) -> (r: bool)
    ensures
        r == is_preparable(t@),
{
    t.is_node(Kind::SelectStatement) || t.is_node(Kind::Insert) || t.is_node(Kind::Delete)
        || t.is_node(Kind::Update)
}

/// The precedence of an operator that is written `s`.
pub open spec fn operator_precedence(s: Seq<char>) -> Precedence {
    if s == "<"@ || s == "<="@ || s == "<>"@ || s == "!="@ || s == ">"@ || s == ">="@ {
        Precedence::Cmp
    } else if s == "+"@ || s == "-"@ {
        Precedence::PlusMinus
    } else if s == "/"@ || s == "%"@ {
        Precedence::MultiplyDivide
    } else {
        Precedence::Other
    }
}

/// The precedence of the token at `i` as an operator after an expression. That
/// of `NOT` varies depending on the keyword that follows it: before `IN`,
/// `BETWEEN` or `LIKE` it takes on the precedence of those, and otherwise it is no
/// infix operator.
pub open spec fn next_precedence(p: Input, i: int) -> Precedence {
    match token_at(p, i) {
        Some(TokenView::Keyword(Keyword::OR)) => Precedence::Or,
        Some(TokenView::Keyword(Keyword::AND)) => Precedence::And,
        Some(TokenView::Keyword(Keyword::NOT)) => if at_keyword(p, i + 1, Keyword::IN)
            || at_keyword(p, i + 1, Keyword::BETWEEN) || at_keyword(p, i + 1, Keyword::ILIKE)
            || at_keyword(p, i + 1, Keyword::LIKE) {
            Precedence::Like
        } else {
            Precedence::Zero
        },
        Some(TokenView::Keyword(Keyword::IS)) | Some(TokenView::Keyword(Keyword::ISNULL)) =>
            Precedence::Is,
        Some(TokenView::Keyword(Keyword::IN))
        | Some(TokenView::Keyword(Keyword::BETWEEN))
        | Some(TokenView::Keyword(Keyword::ILIKE))
        | Some(TokenView::Keyword(Keyword::LIKE)) => Precedence::Like,
        Some(TokenView::Keyword(Keyword::OPERATOR)) => Precedence::Other,
        Some(TokenView::Op(s)) => operator_precedence(s),
        Some(TokenView::Eq) => Precedence::Cmp,
        Some(TokenView::Star) => Precedence::MultiplyDivide,
        Some(TokenView::Keyword(Keyword::COLLATE)) | Some(TokenView::Keyword(Keyword::AT)) =>
            Precedence::PostfixCollateAt,
        Some(TokenView::DoubleColon) | Some(TokenView::LBracket) | Some(TokenView::Dot) =>
            Precedence::PostfixSubscriptCast,
        _ => Precedence::Zero,
    }
}

impl Parser {
    /// Whether the token after the next is the keyword `kw`.
    pub fn peek_second_is(&self, kw: Keyword) -> (r: bool)
        ensures
            r == at_keyword(self.input(), self.index + 1, kw),
    {
        match self.peek_nth_token(1) {
            Some(Token::Keyword(k)) => k == kw,
            _ => false,
        }
    }

    /// Get the precedence of the next token.
    pub fn get_next_precedence(&self) -> (r: Precedence)
        ensures
            r == next_precedence(self.input(), self.index as int),
    {
        match self.peek_token() {
            Some(Token::Keyword(Keyword::OR)) => Precedence::Or,
            Some(Token::Keyword(Keyword::AND)) => Precedence::And,
            Some(Token::Keyword(Keyword::NOT)) => {
                if self.peek_second_is(Keyword::IN) || self.peek_second_is(Keyword::BETWEEN)
                    || self.peek_second_is(Keyword::ILIKE) || self.peek_second_is(Keyword::LIKE) {
                    Precedence::Like
                } else {
                    Precedence::Zero
                }
            },
            Some(Token::Keyword(Keyword::IS)) | Some(Token::Keyword(Keyword::ISNULL)) => {
                Precedence::Is
            },
            Some(Token::Keyword(Keyword::IN))
            | Some(Token::Keyword(Keyword::BETWEEN))
            | Some(Token::Keyword(Keyword::ILIKE))
            | Some(Token::Keyword(Keyword::LIKE)) => Precedence::Like,
            Some(Token::Keyword(Keyword::OPERATOR)) => Precedence::Other,
            Some(Token::Op(op)) => {
                let s = op.as_str();
                if text_eq(s, "<") || text_eq(s, "<=") || text_eq(s, "<>") || text_eq(s, "!=")
                    || text_eq(s, ">") || text_eq(s, ">=") {
                    Precedence::Cmp
                } else if text_eq(s, "+") || text_eq(s, "-") {
                    Precedence::PlusMinus
                } else if text_eq(s, "/") || text_eq(s, "%") {
                    Precedence::MultiplyDivide
                } else {
                    Precedence::Other
                }
            },
            Some(Token::Eq) => Precedence::Cmp,
            Some(Token::Star) => Precedence::MultiplyDivide,
            Some(Token::Keyword(Keyword::COLLATE)) | Some(Token::Keyword(Keyword::AT)) => {
                Precedence::PostfixCollateAt
            },
            Some(Token::DoubleColon) | Some(Token::LBracket) | Some(Token::Dot) => {
                Precedence::PostfixSubscriptCast
            },
            _ => Precedence::Zero,
        }
    }
}

} // verus!
