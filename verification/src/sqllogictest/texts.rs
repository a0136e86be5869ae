//! Operations on lists of texts.

use vstd::prelude::*;

use crate::sql_parser::text::{chars_of, no_text, text_eq, text_of, texts_view};

verus! {

/// The texts one after the other, with `sep` between them.
pub open spec fn joined(texts: Seq<Seq<char>>, sep: Seq<char>) -> Seq<char>
    decreases texts.len(),
{
    if texts.len() == 0 {
        no_text()
    } else if texts.len() == 1 {
        no_text() + texts[0]
    } else {
        joined(texts.drop_last(), sep) + sep + texts.last()
    }
}

/// Joins texts, with `sep` between them.
pub fn join(texts: &Vec<String>, sep: &str) -> (r: String)
    ensures
        r@ == joined(texts_view(texts@), sep@),
{
    let mut out = String::new();
    let mut k: usize = 0;
    while k < texts.len()
        invariant
            k <= texts.len(),
            out@ == joined(texts_view(texts@).take(k as int), sep@),
        decreases texts.len() - k,
    {
        assert(texts_view(texts@).take(k + 1).drop_last() =~= texts_view(texts@).take(k as int));
        if k > 0 {
            out = out.concat(sep);
        }
        out = out.concat(texts[k].as_str());
        k += 1;
    }
    assert(texts_view(texts@).take(k as int) =~= texts_view(texts@));
    out
}

/// Whether two lists hold the same texts in the same order.
pub fn same_texts(a: &Vec<String>, b: &Vec<String>) -> (r: bool)
    ensures
        r == (texts_view(a@) == texts_view(b@)),
{
    if a.len() != b.len() {
        assert(texts_view(a@).len() != texts_view(b@).len());
        return false;
    }
    let mut k: usize = 0;
    while k < a.len()
        invariant
            k <= a.len(),
            a.len() == b.len(),
            forall|j: int| 0 <= j < k ==> (#[trigger] a@[j])@ == b@[j]@,
        decreases a.len() - k,
    {
        if !text_eq(a[k].as_str(), b[k].as_str()) {
            assert(texts_view(a@)[k as int] != texts_view(b@)[k as int]);
            return false;
        }
        k += 1;
    }
    assert(texts_view(a@) =~= texts_view(b@));
    true
}

/// A list of the same texts.
pub fn copy_texts(a: &Vec<String>) -> (r: Vec<String>)
    ensures
        texts_view(r@) == texts_view(a@),
{
    let mut out: Vec<String> = Vec::new();
    let mut k: usize = 0;
    while k < a.len()
        invariant
            k <= a.len(),
            out.len() == k,
            forall|j: int| 0 <= j < k ==> (#[trigger] out@[j])@ == a@[j]@,
        decreases a.len() - k,
    {
        out.push(a[k].clone());
        k += 1;
    }
    assert(texts_view(out@) =~= texts_view(a@));
    out
}

/// Where the first `c` is from `i` on, or the end.
pub open spec fn char_from(s: Seq<char>, i: int, c: char) -> int
    decreases s.len() - i,
{
    if 0 <= i < s.len() && s[i] != c {
        char_from(s, i + 1, c)
    } else {
        i
    }
}

/// The part of a text before its first line break.
pub open spec fn first_line(s: Seq<char>) -> Seq<char> {
    s.subrange(0, char_from(s, 0, '\n'))
}

/// The part of a text before its first line break.
pub fn first_line_of(s: &str) -> (r: String)
    ensures
        r@ == first_line(s@),
        r@.len() <= s@.len(),
{
    let cs = chars_of(s);
    let mut k: usize = 0;
    while k < cs.len() && cs[k] != '\n'
        invariant
            k <= cs.len(),
            char_from(cs@, k as int, '\n') == char_from(cs@, 0, '\n'),
        decreases cs.len() - k,
    {
        k += 1;
    }
    text_of(&cs, 0, k)
}

/// `s` with `n` spaces at the start of each line.
pub open spec fn indented(s: Seq<char>, n: nat) -> Seq<char> {
    spaces(n) + indent_lines(s, n)
}

/// `n` spaces.
pub open spec fn spaces(n: nat) -> Seq<char> {
    Seq::new(n, |k: int| ' ')
}

/// `s` with `n` spaces after each line break.
pub open spec fn indent_lines(s: Seq<char>, n: nat) -> Seq<char>
    decreases s.len(),
{
    if s.len() == 0 {
        no_text()
    } else if s.last() == '\n' {
        indent_lines(s.drop_last(), n).push('\n') + spaces(n)
    } else {
        indent_lines(s.drop_last(), n).push(s.last())
    }
}

/// Indents each line of `s` by `n` spaces.
pub fn indent(s: &str, n: usize) -> (r: String)
    ensures
        r@ == indented(s@, n as nat),
{
    let mut space = String::new();
    let mut k: usize = 0;
    while k < n
        invariant
            k <= n,
            space@ == spaces(k as nat),
        decreases n - k,
    {
        space.push(' ');
        k += 1;
        assert(space@ =~= spaces(k as nat));
    }
    let cs = chars_of(s);
    let mut out = String::new();
    let mut i: usize = 0;
    while i < cs.len()
        invariant
            i <= cs.len(),
            cs@ == s@,
            space@ == spaces(n as nat),
            out@ == indent_lines(s@.take(i as int), n as nat),
        decreases cs.len() - i,
    {
        assert(s@.take(i + 1).drop_last() =~= s@.take(i as int));
        out.push(cs[i]);
        if cs[i] == '\n' {
            out = out.concat(space.as_str());
        }
        i += 1;
    }
    assert(s@.take(i as int) =~= s@);
    space.concat(out.as_str())
}

} // verus!
