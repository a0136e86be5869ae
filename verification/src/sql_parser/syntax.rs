//! The syntax tree.
//!
//! A tree is uniform: a node has a [`Kind`], which names the construct, and
//! one child for each part of it, in a fixed order. A part that was left out is
//! [`Tree::Absent`]; a repeated part is a [`Tree::List`].

use vstd::prelude::*;

use crate::sql_parser::kind::Kind;

verus! {

/// A tree of SQL syntax.
#[derive(Debug)]
pub enum Tree {
    /// A construct with its parts.
    Node(Kind, Vec<Tree>),
    /// A repeated part.
    List(Vec<Tree>),
    /// The text of an identifier or of a literal.
    Text(String),
    /// Whether an optional word was there.
    Flag(bool),
    /// An unsigned number.
    Num(u64),
    /// A signed number.
    Int(i64),
    /// A part that was left out.
    Absent,
}

/// What a [`Tree`] stands for.
pub enum TreeView {
    Node(Kind, Seq<TreeView>),
    List(Seq<TreeView>),
    Text(Seq<char>),
    Flag(bool),
    Num(u64),
    Int(i64),
    Absent,
}

/// What the trees `ts` stand for, one by one.
pub open spec fn views(ts: Seq<Tree>) -> Seq<TreeView> {
    Seq::new(ts.len(), |k: int| tree_view(ts[k]))
}

/// What `t` stands for.
pub open spec fn tree_view(t: Tree) -> TreeView
    decreases t,
{
    match t {
        Tree::Node(kind, ts) => TreeView::Node(
            kind,
            Seq::new(
                ts@.len(),
                |k: int|
                    if 0 <= k < ts@.len() {
                        tree_view(ts@[k])
                    } else {
                        TreeView::Absent
                    },
            ),
        ),
        Tree::List(ts) => TreeView::List(
            Seq::new(
                ts@.len(),
                |k: int|
                    if 0 <= k < ts@.len() {
                        tree_view(ts@[k])
                    } else {
                        TreeView::Absent
                    },
            ),
        ),
        Tree::Text(s) => TreeView::Text(s@),
        Tree::Flag(b) => TreeView::Flag(b),
        Tree::Num(n) => TreeView::Num(n),
        Tree::Int(n) => TreeView::Int(n),
        Tree::Absent => TreeView::Absent,
    }
}

impl View for Tree {
    type V = TreeView;

    #[verifier::opaque]
    open spec fn view(&self) -> TreeView {
        tree_view(*self)
    }
}

/// Trees in a row.
#[derive(Debug)]
pub struct Trees(pub Vec<Tree>);

impl View for Trees {
    type V = Seq<TreeView>;

    #[verifier::opaque]
    open spec fn view(&self) -> Seq<TreeView> {
        views(self.0@)
    }
}

/// A node stands for its kind and for what its children stand for.
pub broadcast proof fn node_view(kind: Kind, ts: Vec<Tree>)
    ensures
        #[trigger] Tree::Node(kind, ts)@ == TreeView::Node(kind, views(ts@)),
{
    reveal(<Tree as View>::view);
    let v = Tree::Node(kind, ts);
    assert(views(ts@) =~= tree_view(v)->Node_1);
}

/// A list stands for what its members stand for.
pub broadcast proof fn list_view(ts: Vec<Tree>)
    ensures
        #[trigger] Tree::List(ts)@ == TreeView::List(views(ts@)),
{
    reveal(<Tree as View>::view);
    let v = Tree::List(ts);
    assert(views(ts@) =~= tree_view(v)->List_0);
}

/// A leaf stands for what it holds.
pub broadcast proof fn text_view(s: String)
    ensures
        #[trigger] Tree::Text(s)@ == TreeView::Text(s@),
{
    reveal(<Tree as View>::view);
}

pub broadcast proof fn flag_view(b: bool)
    ensures
        #[trigger] Tree::Flag(b)@ == TreeView::Flag(b),
{
    reveal(<Tree as View>::view);
}

pub broadcast proof fn num_view(n: u64)
    ensures
        #[trigger] Tree::Num(n)@ == TreeView::Num(n),
{
    reveal(<Tree as View>::view);
}

pub broadcast proof fn int_view(n: i64)
    ensures
        #[trigger] Tree::Int(n)@ == TreeView::Int(n),
{
    reveal(<Tree as View>::view);
}

pub broadcast proof fn absent_view(t: Tree)
    ensures
        t is Absent ==> #[trigger] t@ == TreeView::Absent,
        t@ is Absent ==> t is Absent,
{
    reveal(<Tree as View>::view);
}

/// What trees stand for, one by one.
pub broadcast proof fn views_index(ts: Seq<Tree>, k: int)
    requires
        0 <= k < ts.len(),
    ensures
        #[trigger] views(ts)[k] == ts[k]@,
{
    reveal(<Tree as View>::view);
}

/// How each form of tree is to be read.
pub broadcast group group_tree_views {
    node_view,
    list_view,
    text_view,
    flag_view,
    num_view,
    int_view,
    absent_view,
}

/// A node of the given kind.
pub fn node(kind: Kind, children: Trees) -> (r: Tree)
    ensures
        r@ == TreeView::Node(kind, children@),
{
    broadcast use group_tree_views;

    proof {
        reveal(<Trees as View>::view);
    }
    Tree::Node(kind, children.0)
}

/// A list of the given trees.
pub fn list(members: Trees) -> (r: Tree)
    ensures
        r@ == TreeView::List(members@),
{
    broadcast use group_tree_views;

    proof {
        reveal(<Trees as View>::view);
    }
    Tree::List(members.0)
}

impl Tree {
    /// Whether this part was left out.
    pub fn is_absent(&self) -> (r: bool)
        ensures
            r == (self@ is Absent),
    {
        broadcast use group_tree_views;

        match self {
            Tree::Absent => true,
            _ => {
                proof {
                    reveal(<Tree as View>::view);
                }
                false
            },
        }
    }

    /// A tree that stands for the same.
    pub fn copy(&self) -> (r: Tree)
        ensures
            r@ == self@,
        decreases self,
    {
        broadcast use group_tree_views;

        match self {
            Tree::Node(kind, ts) => {
                let mut out: Vec<Tree> = Vec::new();
                let mut k: usize = 0;
                while k < ts.len()
                    invariant
                        k <= ts.len(),
                        k == out.len(),
                        *self == Tree::Node(*kind, *ts),
                        forall|j: int| 0 <= j < k ==> (#[trigger] out@[j])@ == ts@[j]@,
                    decreases ts.len() - k,
                {
                    assert(decreases_to!(*self => self->Node_1));
                    assert(decreases_to!(ts@ => ts@[k as int]));
                    let c = ts[k].copy();
                    out.push(c);
                    k += 1;
                }
                assert(views(out@) =~= views(ts@)) by {
                    broadcast use views_index;

                    assert forall|j: int| 0 <= j < ts.len() implies views(out@)[j] == #[trigger] views(
                        ts@,
                    )[j] by {
                        assert(out@[j]@ == ts@[j]@);
                    }
                }
                Tree::Node(*kind, out)
            },
            Tree::List(ts) => {
                let mut out: Vec<Tree> = Vec::new();
                let mut k: usize = 0;
                while k < ts.len()
                    invariant
                        k <= ts.len(),
                        k == out.len(),
                        *self == Tree::List(*ts),
                        forall|j: int| 0 <= j < k ==> (#[trigger] out@[j])@ == ts@[j]@,
                    decreases ts.len() - k,
                {
                    assert(decreases_to!(*self => self->List_0));
                    assert(decreases_to!(ts@ => ts@[k as int]));
                    let c = ts[k].copy();
                    out.push(c);
                    k += 1;
                }
                assert(views(out@) =~= views(ts@)) by {
                    broadcast use views_index;

                    assert forall|j: int| 0 <= j < ts.len() implies views(out@)[j] == #[trigger] views(
                        ts@,
                    )[j] by {
                        assert(out@[j]@ == ts@[j]@);
                    }
                }
                Tree::List(out)
            },
            Tree::Text(s) => Tree::Text(s.clone()),
            Tree::Flag(b) => Tree::Flag(*b),
            Tree::Num(n) => Tree::Num(*n),
            Tree::Int(n) => Tree::Int(*n),
            Tree::Absent => Tree::Absent,
        }
    }
}

impl Trees {
    /// These trees and one more.
    pub fn with(self, t: Tree) -> (r: Trees)
        ensures
            r@ == self@.push(t@),
    {
        proof {
            reveal(<Trees as View>::view);
            reveal(<Tree as View>::view);
        }
        let mut v = self.0;
        let ghost before = v@;
        v.push(t);
        assert(views(v@) =~= views(before).push(t@));
        Trees(v)
    }

    /// These trees and then `more`.
    pub fn joined(self, more: Trees) -> (r: Trees)
        ensures
            r@ == self@ + more@,
    {
        proof {
            reveal(<Trees as View>::view);
        }
        let mut v = self.0;
        let mut w = more.0;
        let ghost first = v@;
        let ghost second = w@;
        v.append(&mut w);
        assert(views(v@) =~= views(first) + views(second));
        Trees(v)
    }

    /// How many trees there are.
    pub fn len(&self) -> (r: usize)
        ensures
            r == self@.len(),
    {
        proof {
            reveal(<Trees as View>::view);
        }
        self.0.len()
    }

    /// The first tree.
    pub fn into_first(self) -> (r: Tree)
        requires
            self@.len() > 0,
        ensures
            r@ == self@[0],
    {
        proof {
            reveal(<Trees as View>::view);
            reveal(<Tree as View>::view);
        }
        let mut v = self.0;
        v.swap_remove(0)
    }
}

/// No trees.
pub fn trees0() -> (r: Trees)
    ensures
        r@ == Seq::<TreeView>::empty(),
{
    proof {
        reveal(<Trees as View>::view);
    }
    let r = Trees(Vec::new());
    assert(r@ =~= Seq::<TreeView>::empty());
    r
}

/// One tree in a row.
pub fn trees1(a: Tree) -> (r: Trees)
    ensures
        r@ == seq![a@],
{
    trees0().with(a)
}

/// Two trees in a row.
pub fn trees2(a: Tree, b: Tree) -> (r: Trees)
    ensures
        r@ == seq![a@, b@],
{
    trees1(a).with(b)
}

/// Three trees in a row.
pub fn trees3(a: Tree, b: Tree, c: Tree) -> (r: Trees)
    ensures
        r@ == seq![a@, b@, c@],
{
    trees2(a, b).with(c)
}

/// Four trees in a row.
pub fn trees4(a: Tree, b: Tree, c: Tree, d: Tree) -> (r: Trees)
    ensures
        r@ == seq![a@, b@, c@, d@],
{
    trees3(a, b, c).with(d)
}

/// Five trees in a row.
pub fn trees5(a: Tree, b: Tree, c: Tree, d: Tree, e: Tree) -> (r: Trees)
    ensures
        r@ == seq![a@, b@, c@, d@, e@],
{
    trees4(a, b, c, d).with(e)
}

/// Six trees in a row.
pub fn trees6(a: Tree, b: Tree, c: Tree, d: Tree, e: Tree, f: Tree) -> (r: Trees)
    ensures
        r@ == seq![a@, b@, c@, d@, e@, f@],
{
    trees5(a, b, c, d, e).with(f)
}

/// Seven trees in a row.
pub fn trees7(a: Tree, b: Tree, c: Tree, d: Tree, e: Tree, f: Tree, g: Tree) -> (r: Trees)
    ensures
        r@ == seq![a@, b@, c@, d@, e@, f@, g@],
{
    trees6(a, b, c, d, e, f).with(g)
}

/// Eight trees in a row.
pub fn trees8(a: Tree, b: Tree, c: Tree, d: Tree, e: Tree, f: Tree, g: Tree, h: Tree) -> (r: Trees)
    ensures
        r@ == seq![a@, b@, c@, d@, e@, f@, g@, h@],
{
    trees7(a, b, c, d, e, f, g).with(h)
}

/// Nine trees in a row.
pub fn trees9(a: Tree, b: Tree, c: Tree, d: Tree, e: Tree, f: Tree, g: Tree, h: Tree, i: Tree) -> (r: Trees)
    ensures
        r@ == seq![a@, b@, c@, d@, e@, f@, g@, h@, i@],
{
    trees8(a, b, c, d, e, f, g, h).with(i)
}

/// Ten trees in a row.
pub fn trees10(a: Tree, b: Tree, c: Tree, d: Tree, e: Tree, f: Tree, g: Tree, h: Tree, i: Tree, j: Tree) -> (r: Trees)
    ensures
        r@ == seq![a@, b@, c@, d@, e@, f@, g@, h@, i@, j@],
{
    trees9(a, b, c, d, e, f, g, h, i).with(j)
}

/// Eleven trees in a row.
pub fn trees11(a: Tree, b: Tree, c: Tree, d: Tree, e: Tree, f: Tree, g: Tree, h: Tree, i: Tree, j: Tree, k: Tree) -> (r: Trees)
    ensures
        r@ == seq![a@, b@, c@, d@, e@, f@, g@, h@, i@, j@, k@],
{
    trees10(a, b, c, d, e, f, g, h, i, j).with(k)
}

} // verus!
