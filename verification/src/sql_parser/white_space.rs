//! White space around a text.

use vstd::prelude::*;

use crate::sql_parser::expr::{interval_precision, interval_value};
use crate::sql_parser::lexer::{adjacent_string, at_char, byte_at, comment_end, dollar_string, end_of, find_text, has_newline, has_special, hex_number, in_class, is_special, number, operator_end, quoted_rest, scan, string_rest, text_at, tokens_from, tokens_of, trimmed_operator, unicode_escape, Blame, CharClass, Scan};
use crate::sql_parser::names::{
    identifier, literal_string, literal_uint, optional_precision, value,
};
use crate::sql_parser::number::is_digit;
use crate::sql_parser::outcome::Out::{Failed, Got};
use crate::sql_parser::outcome::{FailureView, Out};
use crate::sql_parser::parse::{input_of, is_blank, split_identifiers};
use crate::sql_parser::parser::{token_at, Input};
use crate::sql_parser::statement::{set_variable_value, set_variable_value_list};
use crate::sql_parser::syntax::TreeView;
use crate::sql_parser::text::{is_white, no_text};
use crate::sql_parser::token::TokenView;

verus! {

/// Whether `s` stands in `t`, behind `d` characters.
pub open spec fn stands(s: Seq<char>, t: Seq<char>, d: int) -> bool {
    &&& 0 <= d
    &&& d + s.len() <= t.len()
    &&& forall|k: int| 0 <= k < s.len() ==> t[d + k] == #[trigger] s[k]
}

/// Whether nothing but white space stands in a text from `i` on.
pub open spec fn trails(t: Seq<char>, i: int) -> bool {
    forall|k: int| i <= k < t.len() ==> in_class(#[trigger] t[k], CharClass::Space)
}

/// Whether a line ends at `i`, and a statement delimiter starts the next one.
pub open spec fn delimits(t: Seq<char>, i: int) -> bool {
    at_char(t, i, '\n') && at_char(t, i + 1, ';')
}

/// Whether `s` stands in `t`, behind `d` characters, and nothing that follows it there can be
/// taken for a part of it, unless it is open at its end.
pub open spec fn ends(s: Seq<char>, t: Seq<char>, d: int) -> bool {
    stands(s, t, d) && (trails(t, d + s.len()) || delimits(t, d + s.len()))
}

/// Whether `t` is `s` with white space around it, `d` characters of it before.
pub open spec fn pads(s: Seq<char>, t: Seq<char>, d: int) -> bool {
    &&& stands(s, t, d)
    &&& trails(t, d + s.len())
    &&& forall|k: int| 0 <= k < d ==> in_class(#[trigger] t[k], CharClass::Space)
}

/// Whether white space is in a set of characters.
spec fn spans_space(class: CharClass) -> bool {
    class == CharClass::Space || class == CharClass::NotNewline || class == CharClass::NotDollar
}

proof fn lemma_end_bounds(s: Seq<char>, i: int, class: CharClass)
    requires
        0 <= i <= s.len(),
    ensures
        i <= end_of(s, i, class) <= s.len(),
        i < s.len() && in_class(s[i], class) ==> i < end_of(s, i, class),
    decreases s.len() - i,
{
    if i < s.len() && in_class(s[i], class) {
        lemma_end_bounds(s, i + 1, class);
    }
}

/// What follows the text does not extend a run of characters, unless the run reaches the end of
/// the text and takes white space.
proof fn lemma_end(s: Seq<char>, t: Seq<char>, d: int, i: int, class: CharClass)
    requires
        ends(s, t, d),
        0 <= i <= s.len(),
    ensures
        i <= end_of(s, i, class) <= s.len(),
        end_of(s, i, class) < s.len() || !spans_space(class) ==> end_of(t, d + i, class) == d + end_of(
            s,
            i,
            class,
        ),
        end_of(s, i, class) == s.len() ==> d + s.len() <= end_of(t, d + i, class) <= t.len(),
    decreases s.len() - i,
{
    lemma_end_bounds(t, d + i, class);
    if i < s.len() {
        assert(t[d + i] == s[i]);
        if in_class(s[i], class) {
            lemma_end(s, t, d, i + 1, class);
        }
    }
}

/// White space runs to the end.
proof fn lemma_tail_runs(t: Seq<char>, i: int, class: CharClass)
    requires
        0 <= i <= t.len(),
        class == CharClass::NotDollar || class == CharClass::Space,
        trails(t, i),
    ensures
        end_of(t, i, class) == t.len(),
    decreases t.len() - i,
{
    if i < t.len() {
        lemma_tail_runs(t, i + 1, class);
    }
}

proof fn lemma_char(s: Seq<char>, t: Seq<char>, d: int, i: int, c: char)
    requires
        ends(s, t, d),
        0 <= i <= s.len(),
        !in_class(c, CharClass::Space),
    ensures
        at_char(t, d + i, c) == at_char(s, i, c),
{
    if i < s.len() {
        assert(t[d + i] == s[i]);
    }
}

proof fn lemma_comment_tail(t: Seq<char>, i: int, nesting: nat)
    requires
        0 <= i,
        trails(t, i),
    ensures
        comment_end(t, i, nesting) is None,
    decreases t.len() - i,
{
    if i < t.len() {
        lemma_comment_tail(t, i + 1, nesting);
    }
}

/// Whether the second index is the first, further on by `d`, or there is none. Where not
/// `closed`, there may be a second one without a first.
spec fn same_index(j: Option<int>, k: Option<int>, d: int, closed: bool) -> bool {
    match j {
        Some(j) => k == Some(d + j),
        None => closed ==> k is None,
    }
}

proof fn lemma_comment(s: Seq<char>, t: Seq<char>, d: int, i: int, nesting: nat)
    requires
        ends(s, t, d),
        0 <= i <= s.len(),
    ensures
        same_index(
            comment_end(s, i, nesting),
            comment_end(t, d + i, nesting),
            d,
            trails(t, d + s.len()),
        ),
        comment_end(s, i, nesting) matches Some(j) ==> i < j <= s.len(),
    decreases s.len() - i,
{
    if i == s.len() {
        if trails(t, d + i) {
            lemma_comment_tail(t, d + i, nesting);
        }
    } else {
        assert(t[d + i] == s[i]);
        lemma_char(s, t, d, i + 1, '/');
        lemma_char(s, t, d, i + 1, '*');
        if s[i] == '*' && at_char(s, i + 1, '/') {
            if nesting > 0 {
                lemma_comment(s, t, d, i + 2, (nesting - 1) as nat);
            }
        } else if s[i] == '/' && at_char(s, i + 1, '*') {
            lemma_comment(s, t, d, i + 2, nesting + 1);
        } else {
            lemma_comment(s, t, d, i + 1, nesting);
        }
    }
}

proof fn lemma_adjacent(s: Seq<char>, t: Seq<char>, d: int, i: int)
    requires
        ends(s, t, d),
        0 <= i <= s.len(),
    ensures
        same_index(adjacent_string(s, i), adjacent_string(t, d + i), d, true),
        adjacent_string(s, i) matches Some(j) ==> i <= j < s.len(),
{
    lemma_end(s, t, d, i, CharClass::Space);
    let j = end_of(s, i, CharClass::Space);
    let k = end_of(t, d + i, CharClass::Space);
    if j < s.len() {
        assert(k == d + j);
        lemma_char(s, t, d, j, '\'');
        assert(has_newline(s, i, j) == has_newline(t, d + i, d + j)) by {
            if has_newline(s, i, j) {
                let x = choose|x: int|
                    i <= x < j && 0 <= x < s.len() && (#[trigger] s[x] == '\n' || s[x] == '\r');
                assert(t[d + x] == s[x]);
            }
            if has_newline(t, d + i, d + j) {
                let x = choose|x: int|
                    d + i <= x < d + j && 0 <= x < t.len() && (#[trigger] t[x] == '\n' || t[x] == '\r');
                assert(t[d + (x - d)] == s[x - d]);
            }
        }
    } else {
        assert(!at_char(s, j, '\''));
        lemma_end_twice(t, d + i, d + j, CharClass::Space);
        if trails(t, d + j) {
            lemma_tail_runs(t, d + j, CharClass::Space);
        } else {
            assert(t[d + j] == '\n' && t[d + j + 1] == ';');
            assert(end_of(t, d + j + 1, CharClass::Space) == d + j + 1);
            assert(end_of(t, d + j, CharClass::Space) == d + j + 1);
        }
        assert(!at_char(t, k, '\''));
    }
}

proof fn lemma_hex(s: Seq<char>, t: Seq<char>, d: int, i: int, n: nat)
    requires
        ends(s, t, d),
        0 <= i <= s.len(),
    ensures
        hex_number(t, d + i, n) == hex_number(s, i, n),
        hex_number(s, i, n) is Some ==> n == 0 || i + n <= s.len(),
    decreases n,
{
    if n > 0 {
        lemma_hex(s, t, d, i, (n - 1) as nat);
        let k = i + n - 1;
        if k < s.len() {
            assert(t[d + k] == s[k]);
        }
    }
}

/// Whether two results of reading to an end are the same, the second further on by `d`. Where
/// not `closed`, the second may be one without the first.
spec fn same_rest(
    a: Result<(Seq<char>, int), Blame>,
    b: Result<(Seq<char>, int), Blame>,
    d: int,
    closed: bool,
) -> bool {
    match (a, b) {
        (Ok((x, i)), Ok((y, j))) => x == y && j == d + i,
        (Err(_), Err(_)) => true,
        (Err(_), Ok(_)) => !closed,
        _ => false,
    }
}

proof fn lemma_string_tail(t: Seq<char>, i: int, acc: Seq<char>, open: int, escapes: bool)
    requires
        0 <= i,
        trails(t, i),
    ensures
        string_rest(t, i, acc, open, escapes) is Err,
    decreases t.len() - i,
{
    if i < t.len() {
        lemma_string_tail(t, i + 1, acc.push(t[i]), open, escapes);
    }
}

proof fn lemma_string(
    s: Seq<char>,
    t: Seq<char>,
    d: int,
    i: int,
    acc: Seq<char>,
    open: int,
    open2: int,
    escapes: bool,
)
    requires
        ends(s, t, d),
        0 <= i <= s.len(),
    ensures
        same_rest(
            string_rest(s, i, acc, open, escapes),
            string_rest(t, d + i, acc, open2, escapes),
            d,
            trails(t, d + s.len()),
        ),
        string_rest(s, i, acc, open, escapes) matches Ok((_, j)) ==> i < j <= s.len(),
    decreases s.len() - i,
{
    if i == s.len() {
        if trails(t, d + i) {
            lemma_string_tail(t, d + i, acc, open2, escapes);
        }
    } else {
        assert(t[d + i] == s[i]);
        lemma_char(s, t, d, i + 1, '\'');
        if s[i] == '\'' {
            if at_char(s, i + 1, '\'') {
                lemma_string(s, t, d, i + 2, acc.push('\''), open, open2, escapes);
            } else {
                lemma_adjacent(s, t, d, i + 1);
                if let Some(j) = adjacent_string(s, i + 1) {
                    lemma_string(s, t, d, j + 1, acc, j, d + j, escapes);
                }
            }
        } else if escapes && s[i] == '\\' {
            if i + 1 >= s.len() {
                if trails(t, d + s.len()) && d + i + 1 < t.len() {
                    assert(in_class(t[d + i + 1], CharClass::Space));
                    lemma_string_tail(
                        t,
                        d + i + 2,
                        acc.push(crate::sql_parser::lexer::escaped(t[d + i + 1])),
                        open2,
                        escapes,
                    );
                }
            } else {
                assert(t[d + (i + 1)] == s[i + 1]);
                if s[i + 1] == 'u' || s[i + 1] == 'U' {
                    let n: nat = if s[i + 1] == 'u' {
                        4
                    } else {
                        8
                    };
                    lemma_hex(s, t, d, i + 2, n);
                    if let Some(c) = unicode_escape(s, i + 2, n) {
                        lemma_string(s, t, d, i + 2 + n, acc.push(c), open, open2, escapes);
                    }
                } else if !('0' <= s[i + 1] && s[i + 1] <= '7') && s[i + 1] != 'x' {
                    let c = crate::sql_parser::lexer::escaped(s[i + 1]);
                    lemma_string(s, t, d, i + 2, acc.push(c), open, open2, escapes);
                }
            }
        } else {
            lemma_string(s, t, d, i + 1, acc.push(s[i]), open, open2, escapes);
        }
    }
}

proof fn lemma_quoted_tail(t: Seq<char>, i: int, acc: Seq<char>, open: int)
    requires
        0 <= i,
        trails(t, i),
    ensures
        quoted_rest(t, i, acc, open) is Err,
    decreases t.len() - i,
{
    if i < t.len() {
        lemma_quoted_tail(t, i + 1, acc.push(t[i]), open);
    }
}

proof fn lemma_quoted(s: Seq<char>, t: Seq<char>, d: int, i: int, acc: Seq<char>, open: int, open2: int)
    requires
        ends(s, t, d),
        0 <= i <= s.len(),
    ensures
        same_rest(
            quoted_rest(s, i, acc, open),
            quoted_rest(t, d + i, acc, open2),
            d,
            trails(t, d + s.len()),
        ),
        quoted_rest(s, i, acc, open) matches Ok((_, j)) ==> i < j <= s.len(),
    decreases s.len() - i,
{
    if i == s.len() {
        if trails(t, d + i) {
            lemma_quoted_tail(t, d + i, acc, open2);
        }
    } else {
        assert(t[d + i] == s[i]);
        lemma_char(s, t, d, i + 1, '"');
        if s[i] == '"' {
            if at_char(s, i + 1, '"') {
                lemma_quoted(s, t, d, i + 2, acc.push('"'), open, open2);
            }
        } else if s[i] != '\0' {
            lemma_quoted(s, t, d, i + 1, acc.push(s[i]), open, open2);
        }
    }
}

/// A part of the text is the same part where the text stands in another.
proof fn lemma_part(s: Seq<char>, t: Seq<char>, d: int, i: int, j: int)
    requires
        ends(s, t, d),
        0 <= i <= j <= s.len(),
    ensures
        t.subrange(d + i, d + j) == s.subrange(i, j),
{
    assert forall|k: int| 0 <= k < j - i implies t.subrange(d + i, d + j)[k] == s.subrange(i, j)[k] by {
        assert(t[d + (i + k)] == s[i + k]);
    }
    assert(t.subrange(d + i, d + j) =~= s.subrange(i, j));
}

proof fn lemma_text_at(s: Seq<char>, t: Seq<char>, d: int, i: int, tag: Seq<char>)
    requires
        ends(s, t, d),
        0 <= i,
        tag.len() > 0,
        !in_class(tag.last(), CharClass::Space),
    ensures
        i + tag.len() <= s.len() || trails(t, d + s.len()) ==> text_at(t, d + i, tag) == text_at(
            s,
            i,
            tag,
        ),
{
    if i + tag.len() <= s.len() {
        lemma_part(s, t, d, i, i + tag.len());
    } else if trails(t, d + s.len()) && text_at(t, d + i, tag) {
        let k = d + i + tag.len() - 1;
        assert(t.subrange(d + i, d + i + tag.len())[tag.len() - 1] == t[k]);
        assert(in_class(t[k], CharClass::Space));
    }
}

proof fn lemma_find(s: Seq<char>, t: Seq<char>, d: int, i: int, tag: Seq<char>)
    requires
        ends(s, t, d),
        0 <= i,
        tag.len() > 0,
        !in_class(tag.last(), CharClass::Space),
    ensures
        same_index(find_text(s, i, tag), find_text(t, d + i, tag), d, trails(t, d + s.len())),
        find_text(s, i, tag) matches Some(k) ==> i <= k && k + tag.len() <= s.len(),
    decreases t.len() + 1 - d - i,
{
    if d + i <= t.len() {
        lemma_text_at(s, t, d, i, tag);
        lemma_find(s, t, d, i + 1, tag);
    }
}

/// Whether two scans find the same, the second further on by `d`. Where nothing but white space
/// follows the text, what is skipped may go on behind it; elsewhere, what is open at its end may
/// be closed behind it.
pub open spec fn same_scan(a: Scan, b: Scan, s: Seq<char>, t: Seq<char>, d: int) -> bool {
    match (a, b) {
        (Scan::Tok(x, j), Scan::Tok(y, k)) => x == y && k == d + j,
        (Scan::Skip(j), Scan::Skip(k)) => k == d + j || (trails(t, d + s.len()) && j == s.len() && d
            + s.len() <= k <= t.len()),
        (Scan::Bad(_), Scan::Bad(_)) => true,
        (Scan::Bad(_), _) => !trails(t, d + s.len()),
        _ => false,
    }
}

/// Whether a scan from `i` on ends in the text, and not where it began.
pub open spec fn proceeds(a: Scan, s: Seq<char>, i: int) -> bool {
    match a {
        Scan::Tok(_, j) => i < j <= s.len(),
        Scan::Skip(j) => i < j <= s.len(),
        _ => true,
    }
}

proof fn lemma_number(s: Seq<char>, t: Seq<char>, d: int, i: int)
    requires
        ends(s, t, d),
        0 <= i < s.len(),
        is_digit(s[i]) || s[i] == '.',
    ensures
        same_scan(number(s, i), number(t, d + i), s, t, d),
        proceeds(number(s, i), s, i),
{
    lemma_end(s, t, d, i, CharClass::Digit);
    lemma_end_bounds(s, i, CharClass::Digit);
    let whole = end_of(s, i, CharClass::Digit);
    lemma_char(s, t, d, whole, '.');
    let m = if at_char(s, whole, '.') {
        lemma_end(s, t, d, whole + 1, CharClass::Digit);
        end_of(s, whole + 1, CharClass::Digit)
    } else {
        whole
    };
    lemma_part(s, t, d, i, m);
    lemma_char(s, t, d, m, 'e');
    lemma_char(s, t, d, m, 'E');
    if at_char(s, m, 'e') || at_char(s, m, 'E') {
        lemma_char(s, t, d, m + 1, '-');
        lemma_char(s, t, d, m + 1, '+');
        let signed = at_char(s, m + 1, '-') || at_char(s, m + 1, '+');
        let start = if signed {
            m + 2
        } else {
            m + 1
        };
        lemma_end(s, t, d, start, CharClass::Digit);
        lemma_part(s, t, d, start, end_of(s, start, CharClass::Digit));
    }
}

proof fn lemma_operator_end(s: Seq<char>, t: Seq<char>, d: int, i: int)
    requires
        ends(s, t, d),
        0 <= i <= s.len(),
    ensures
        operator_end(t, d + i) == d + operator_end(s, i),
        i <= operator_end(s, i) <= s.len(),
    decreases s.len() - i,
{
    if i < s.len() {
        lemma_char(s, t, d, i + 1, '-');
        lemma_char(s, t, d, i + 1, '*');
        assert(t[d + i] == s[i]);
        if in_class(s[i], CharClass::Operator) && !(s[i] == '-' && at_char(s, i + 1, '-')) && !(s[i]
            == '/' && at_char(s, i + 1, '*')) {
            lemma_operator_end(s, t, d, i + 1);
        }
    }
}

proof fn lemma_trimmed(s: Seq<char>, t: Seq<char>, d: int, i: int, j: int)
    requires
        ends(s, t, d),
        0 <= i < j <= s.len(),
    ensures
        trimmed_operator(t, d + i, d + j) == d + trimmed_operator(s, i, j),
        i < trimmed_operator(s, i, j) <= j,
    decreases j - i,
{
    assert(t[d + (j - 1)] == s[j - 1]);
    assert(has_special(t, d + i, d + j) == has_special(s, i, j)) by {
        if has_special(s, i, j) {
            let k = choose|k: int| i <= k < j && is_special(#[trigger] s[k]);
            assert(t[d + k] == s[k]);
        }
        if has_special(t, d + i, d + j) {
            let k = choose|k: int| d + i <= k < d + j && is_special(#[trigger] t[k]);
            assert(t[d + (k - d)] == s[k - d]);
        }
    }
    if j - i > 1 && (s[j - 1] == '-' || s[j - 1] == '+') && !has_special(s, i, j) {
        lemma_trimmed(s, t, d, i, j - 1);
    }
}

proof fn lemma_dollar(s: Seq<char>, t: Seq<char>, d: int, i: int)
    requires
        ends(s, t, d),
        0 <= i < s.len(),
    ensures
        same_scan(dollar_string(s, i), dollar_string(t, d + i), s, t, d),
        proceeds(dollar_string(s, i), s, i),
{
    let j = end_of(s, i + 1, CharClass::NotDollar);
    lemma_end(s, t, d, i + 1, CharClass::NotDollar);
    if j < s.len() {
        lemma_part(s, t, d, i, j);
        let tag = s.subrange(i, j).push('$');
        lemma_find(s, t, d, j + 1, tag);
        if let Some(k) = find_text(s, j + 1, tag) {
            lemma_part(s, t, d, j + 1, k);
        }
    } else if trails(t, d + s.len()) {
        let k = end_of(t, d + i + 1, CharClass::NotDollar);
        lemma_tail_runs(t, d + s.len(), CharClass::NotDollar);
        lemma_end_twice(t, d + i + 1, d + s.len(), CharClass::NotDollar);
        assert(k == t.len());
    }
}

/// A run goes on from wherever in it.
proof fn lemma_end_twice(t: Seq<char>, i: int, j: int, class: CharClass)
    requires
        0 <= i <= j <= end_of(t, i, class),
    ensures
        end_of(t, j, class) == end_of(t, i, class),
    decreases j - i,
{
    if i < j {
        lemma_end_twice(t, i + 1, j, class);
    }
}

/// What the characters are does not depend on what stands around the text.
pub(crate) proof fn lemma_scan(s: Seq<char>, t: Seq<char>, d: int, i: int)
    requires
        ends(s, t, d),
        0 <= i < s.len(),
    ensures
        same_scan(scan(s, i), scan(t, d + i), s, t, d),
        proceeds(scan(s, i), s, i),
{
    reveal(scan);
    let c = s[i];
    assert(t[d + i] == c);
    lemma_char(s, t, d, i + 1, '-');
    lemma_char(s, t, d, i + 1, '*');
    lemma_char(s, t, d, i + 1, '\'');
    lemma_char(s, t, d, i + 1, ':');
    let digit = i + 1 < s.len() && is_digit(s[i + 1]);
    assert(digit == (d + i + 1 < t.len() && is_digit(t[d + i + 1]))) by {
        if i + 1 < s.len() {
            assert(t[d + (i + 1)] == s[i + 1]);
        }
    }
    if in_class(c, CharClass::Space) {
    } else if c == '-' && at_char(s, i + 1, '-') {
        lemma_end(s, t, d, i + 2, CharClass::NotNewline);
        let k = end_of(t, d + i + 2, CharClass::NotNewline);
        if end_of(s, i + 2, CharClass::NotNewline) == s.len() && !trails(t, d + s.len()) {
            lemma_end_twice(t, d + i + 2, d + s.len(), CharClass::NotNewline);
            assert(end_of(t, d + s.len(), CharClass::NotNewline) == d + s.len());
        }
    } else if c == '/' && at_char(s, i + 1, '*') {
        lemma_comment(s, t, d, i + 2, 0);
    } else if c == '\'' {
        lemma_string(s, t, d, i + 1, no_text(), i, d + i, false);
    } else if (c == 'x' || c == 'X') && at_char(s, i + 1, '\'') {
        lemma_string(s, t, d, i + 2, no_text(), i + 1, d + i + 1, false);
    } else if (c == 'e' || c == 'E') && at_char(s, i + 1, '\'') {
        lemma_string(s, t, d, i + 2, no_text(), i + 1, d + i + 1, true);
    } else if in_class(c, CharClass::IdentPart) && !is_digit(c) && c != '$' {
        lemma_end(s, t, d, i, CharClass::IdentPart);
        lemma_end_bounds(s, i, CharClass::IdentPart);
        lemma_part(s, t, d, i, end_of(s, i, CharClass::IdentPart));
    } else if c == '"' {
        lemma_quoted(s, t, d, i + 1, no_text(), i, d + i);
    } else if is_digit(c) || (c == '.' && digit) {
        lemma_number(s, t, d, i);
    } else if c == '$' {
        if digit {
            lemma_end(s, t, d, i + 1, CharClass::Digit);
            lemma_part(s, t, d, i + 1, end_of(s, i + 1, CharClass::Digit));
        } else {
            lemma_dollar(s, t, d, i);
        }
    } else if in_class(c, CharClass::Operator) {
        lemma_operator_end(s, t, d, i);
        lemma_operator_end(s, t, d, i + 1);
        let j = operator_end(s, i);
        assert(j > i);
        lemma_trimmed(s, t, d, i, j);
        lemma_part(s, t, d, i, trimmed_operator(s, i, j));
    }
}

/// Whether tokens are the same, apart from where they stand.
pub open spec fn same_tokens(a: Seq<(TokenView, int)>, b: Seq<(TokenView, int)>) -> bool {
    a.len() == b.len() && forall|k: int| 0 <= k < a.len() ==> (#[trigger] a[k]).0 == b[k].0
}

/// Whether two texts have the same tokens, apart from where they stand, or both have none.
pub open spec fn same_text(
    a: Result<Seq<(TokenView, int)>, Blame>,
    b: Result<Seq<(TokenView, int)>, Blame>,
) -> bool {
    match (a, b) {
        (Ok(a), Ok(b)) => same_tokens(a, b),
        (Err(_), Err(_)) => true,
        _ => false,
    }
}

proof fn lemma_no_tokens(t: Seq<char>, i: int, acc: Seq<(TokenView, int)>)
    requires
        0 <= i <= t.len(),
        trails(t, i),
    ensures
        tokens_from(t, i, acc) == Ok::<Seq<(TokenView, int)>, Blame>(acc),
    decreases t.len() - i,
{
    reveal(scan);
    if i < t.len() {
        lemma_no_tokens(t, i + 1, acc);
    }
}

proof fn lemma_skipped(t: Seq<char>, i: int, d: int, acc: Seq<(TokenView, int)>)
    requires
        0 <= i <= d <= t.len(),
        forall|k: int| i <= k < d ==> in_class(#[trigger] t[k], CharClass::Space),
    ensures
        tokens_from(t, i, acc) == tokens_from(t, d, acc),
    decreases d - i,
{
    reveal(scan);
    if i < d {
        lemma_skipped(t, i + 1, d, acc);
    }
}

pub(crate) proof fn lemma_tokens(
    s: Seq<char>,
    t: Seq<char>,
    d: int,
    i: int,
    acc: Seq<(TokenView, int)>,
    acc2: Seq<(TokenView, int)>,
)
    requires
        stands(s, t, d),
        trails(t, d + s.len()),
        0 <= i <= s.len(),
        same_tokens(acc, acc2),
    ensures
        same_text(tokens_from(s, i, acc), tokens_from(t, d + i, acc2)),
    decreases s.len() - i,
{
    if i == s.len() {
        lemma_no_tokens(s, i, acc);
        lemma_no_tokens(t, d + i, acc2);
    } else {
        lemma_scan(s, t, d, i);
        match (scan(s, i), scan(t, d + i)) {
            (Scan::Skip(j), Scan::Skip(k)) => {
                if k == d + j {
                    lemma_tokens(s, t, d, j, acc, acc2);
                } else {
                    lemma_no_tokens(s, j, acc);
                    lemma_no_tokens(t, k, acc2);
                }
            },
            (Scan::Tok(x, j), _) => {
                lemma_tokens(
                    s,
                    t,
                    d,
                    j,
                    acc.push((x, byte_at(s, i))),
                    acc2.push((x, byte_at(t, d + i))),
                );
            },
            _ => {},
        }
    }
}

/// White space around a text makes no difference to its tokens, apart from where they stand.
pub proof fn law_space_is_no_token(s: Seq<char>, t: Seq<char>, d: int)
    requires
        pads(s, t, d),
    ensures
        same_text(tokens_of(s), tokens_of(t)),
{
    lemma_skipped(t, 0, d, Seq::empty());
    lemma_tokens(s, t, d, 0, Seq::empty(), Seq::empty());
}

/// Whether two outcomes are the same, apart from what an error says.
spec fn same_outcome<T>(a: Out<T>, b: Out<T>) -> bool {
    match (a, b) {
        (Got(x, i), Got(y, j)) => x == y && i == j,
        (Failed(_, i), Failed(_, j)) => i == j,
        _ => false,
    }
}

/// Whether the same tokens stand everywhere.
spec fn same_input(p: Input, q: Input) -> bool {
    p.toks.len() == q.toks.len() && forall|i: int| #[trigger] token_at(p, i) == token_at(q, i)
}

proof fn lemma_identifier(p: Input, q: Input, i: int)
    requires
        same_input(p, q),
    ensures
        same_outcome(identifier(p, i), identifier(q, i)),
{
    reveal(identifier);
    assert(token_at(p, i) == token_at(q, i));
}

proof fn lemma_literal_string(p: Input, q: Input, i: int)
    requires
        same_input(p, q),
    ensures
        same_outcome(literal_string(p, i), literal_string(q, i)),
{
    reveal(literal_string);
    assert(token_at(p, i) == token_at(q, i));
}

proof fn lemma_precision(p: Input, q: Input, i: int, low: TreeView)
    requires
        same_input(p, q),
    ensures
        same_outcome(interval_precision(p, i, low), interval_precision(q, i, low)),
{
    reveal(interval_precision);
    reveal(optional_precision);
    reveal(literal_uint);
    assert(token_at(p, i) == token_at(q, i));
    assert(token_at(p, i + 1) == token_at(q, i + 1));
    assert(token_at(p, i + 2) == token_at(q, i + 2));
}

proof fn lemma_interval(p: Input, q: Input, i: int)
    requires
        same_input(p, q),
    ensures
        same_outcome(interval_value(p, i), interval_value(q, i)),
{
    reveal(interval_value);
    lemma_literal_string(p, q, i);
    if let Got(_, j) = literal_string(p, i) {
        assert(token_at(p, j) == token_at(q, j));
        assert(token_at(p, j + 1) == token_at(q, j + 1));
        assert(token_at(p, j + 2) == token_at(q, j + 2));
        assert forall|k: int, low: TreeView| same_outcome(
            #[trigger] interval_precision(p, k, low),
            interval_precision(q, k, low),
        ) by {
            lemma_precision(p, q, k, low);
        }
    }
}

proof fn lemma_value(p: Input, q: Input, i: int)
    requires
        same_input(p, q),
    ensures
        same_outcome(value(p, i), value(q, i)),
{
    reveal(value);
    assert(token_at(p, i) == token_at(q, i));
    assert(token_at(p, i + 1) == token_at(q, i + 1));
    lemma_interval(p, q, i + 1);
}

proof fn lemma_variable_value(p: Input, q: Input, i: int)
    requires
        same_input(p, q),
    ensures
        same_outcome(set_variable_value(p, i), set_variable_value(q, i)),
{
    reveal(set_variable_value);
    lemma_value(p, q, i);
    lemma_identifier(p, q, i);
}

proof fn lemma_variable_values(p: Input, q: Input, i: int, items: Seq<TreeView>)
    requires
        same_input(p, q),
    ensures
        same_outcome(
            set_variable_value_list(p, i, items),
            set_variable_value_list(q, i, items),
        ),
    decreases p.toks.len() - i,
{
    reveal(set_variable_value_list);
    lemma_variable_value(p, q, i);
    if let Got(item, j) = set_variable_value(p, i) {
        assert(token_at(p, j) == token_at(q, j));
        if i < j < p.toks.len() {
            lemma_variable_values(p, q, j + 1, items.push(item));
        }
    }
}

/// Whether two results are the same, apart from what an error says.
pub open spec fn same_result<T>(a: Result<T, FailureView>, b: Result<T, FailureView>) -> bool {
    match (a, b) {
        (Ok(x), Ok(y)) => x == y,
        (Err(_), Err(_)) => true,
        _ => false,
    }
}

/// White space before and after a list of identifiers is ignored.
pub proof fn law_split_ignores_space(s: Seq<char>, t: Seq<char>, d: int)
    requires
        pads(s, t, d),
    ensures
        same_result(split_identifiers(s), split_identifiers(t)),
{
    assert(is_blank(s) == is_blank(t)) by {
        if is_blank(t) {
            assert forall|k: int| 0 <= k < s.len() implies is_white(#[trigger] s[k]) by {
                assert(is_white(t[d + k]));
            }
        }
        if is_blank(s) {
            assert forall|k: int| 0 <= k < t.len() implies is_white(#[trigger] t[k]) by {
                if d <= k < d + s.len() {
                    assert(is_white(s[k - d]));
                    assert(t[d + (k - d)] == s[k - d]);
                }
            }
        }
    }
    if !is_blank(s) {
        law_space_is_no_token(s, t, d);
        if let (Ok(a), Ok(b)) = (tokens_of(s), tokens_of(t)) {
            let p = input_of(s, a);
            let q = input_of(t, b);
            lemma_variable_values(p, q, 0, Seq::empty());
        }
    }
}

} // verus!
