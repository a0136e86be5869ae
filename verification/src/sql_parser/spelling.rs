//! How tokens are spelled.

use vstd::prelude::*;

use crate::sql_parser::keywords::keyword_of;
use crate::sql_parser::lexer::{adjacent_string, at_char, byte_at, comment_end, end_of, in_class, operator_end, quoted_rest, scan, string_rest, tokens_from, tokens_of, trimmed_operator, Blame, CharClass, Scan};
use crate::sql_parser::number::{is_digit, read_digits, read_integer};
use crate::sql_parser::text::{is_ascii, lower, no_text, upper};
use crate::sql_parser::token::TokenView;

verus! {

/// A text in which each `c` stands twice.
pub open spec fn doubled(w: Seq<char>, c: char) -> Seq<char>
    decreases w.len(),
{
    if w.len() == 0 {
        Seq::empty()
    } else if w[0] == c {
        seq![c, c] + doubled(w.drop_first(), c)
    } else {
        seq![w[0]] + doubled(w.drop_first(), c)
    }
}

/// Whether a text stands in another at `i`.
pub open spec fn spelled(s: Seq<char>, i: int, t: Seq<char>) -> bool {
    0 <= i && i + t.len() <= s.len() && forall|k: int| 0 <= k < t.len() ==> #[trigger] s[i + k] == t[k]
}

proof fn lemma_spelled(s: Seq<char>, i: int, a: Seq<char>, b: Seq<char>)
    requires
        spelled(s, i, a + b),
    ensures
        spelled(s, i, a),
        spelled(s, i + a.len(), b),
{
    assert forall|k: int| 0 <= k < a.len() implies #[trigger] s[i + k] == a[k] by {
        assert((a + b)[k] == a[k]);
    }
    assert forall|k: int| 0 <= k < b.len() implies #[trigger] s[i + a.len() + k] == b[k] by {
        assert((a + b)[a.len() + k] == b[k]);
        assert(s[i + (a.len() + k)] == (a + b)[a.len() + k]);
    }
}

/// A string is what stands between single quotes, with each single quote in it written twice.
pub proof fn law_string_spelled(s: Seq<char>, i: int, w: Seq<char>)
    requires
        spelled(s, i, seq!['\''] + (doubled(w, '\'') + seq!['\''])),
        !at_char(s, i + 2 + doubled(w, '\'').len(), '\''),
        adjacent_string(s, i + 2 + doubled(w, '\'').len()) is None,
    ensures
        scan(s, i) == Scan::Tok(TokenView::String(w), i + 2 + doubled(w, '\'').len()),
{
    let q = seq!['\''];
    lemma_spelled(s, i, q, doubled(w, '\'') + q);
    assert(s[i + 0] == q[0]);
    lemma_string_rest(s, i + 1, no_text(), w, i);
    assert(no_text() + w =~= w);
    reveal(scan);
}

proof fn lemma_string_rest(s: Seq<char>, i: int, acc: Seq<char>, w: Seq<char>, open: int)
    requires
        spelled(s, i, doubled(w, '\'') + seq!['\'']),
        !at_char(s, i + 1 + doubled(w, '\'').len(), '\''),
        adjacent_string(s, i + 1 + doubled(w, '\'').len()) is None,
    ensures
        string_rest(s, i, acc, open, false) == Ok::<(Seq<char>, int), Blame>(
            (acc + w, i + 1 + doubled(w, '\'').len()),
        ),
    decreases w.len(),
{
    let q = seq!['\''];
    let text = doubled(w, '\'') + q;
    if w.len() == 0 {
        assert(s[i + 0] == text[0]);
        assert(acc + w =~= acc);
    } else {
        let rest = w.drop_first();
        assert(s[i + 0] == text[0]);
        if w[0] == '\'' {
            assert(s[i + 1] == text[1]);
            assert(text =~= seq!['\'', '\''] + (doubled(rest, '\'') + q));
            lemma_spelled(s, i, seq!['\'', '\''], doubled(rest, '\'') + q);
            lemma_string_rest(s, i + 2, acc.push('\''), rest, open);
            assert(acc.push('\'') + rest =~= acc + w);
        } else {
            assert(text =~= seq![w[0]] + (doubled(rest, '\'') + q));
            lemma_spelled(s, i, seq![w[0]], doubled(rest, '\'') + q);
            lemma_string_rest(s, i + 1, acc.push(w[0]), rest, open);
            assert(acc.push(w[0]) + rest =~= acc + w);
        }
    }
}

/// A name in double quotes is what stands between them, upper and lower case as they are, with
/// each double quote in it written twice.
pub proof fn law_quoted_name_spelled(s: Seq<char>, i: int, w: Seq<char>)
    requires
        spelled(s, i, seq!['"'] + (doubled(w, '"') + seq!['"'])),
        !at_char(s, i + 2 + doubled(w, '"').len(), '"'),
        !w.contains('\0'),
    ensures
        scan(s, i) == Scan::Tok(TokenView::Ident(w), i + 2 + doubled(w, '"').len()),
{
    let q = seq!['"'];
    lemma_spelled(s, i, q, doubled(w, '"') + q);
    assert(s[i + 0] == q[0]);
    assert forall|k: int| 0 <= k < w.len() implies #[trigger] w[k] != '\0' by {
        if w[k] == '\0' {
            assert(w.contains('\0'));
        }
    }
    lemma_quoted_rest(s, i + 1, no_text(), w, i);
    assert(no_text() + w =~= w);
    reveal(scan);
}

proof fn lemma_quoted_rest(s: Seq<char>, i: int, acc: Seq<char>, w: Seq<char>, open: int)
    requires
        spelled(s, i, doubled(w, '"') + seq!['"']),
        !at_char(s, i + 1 + doubled(w, '"').len(), '"'),
        forall|k: int| 0 <= k < w.len() ==> #[trigger] w[k] != '\0',
    ensures
        quoted_rest(s, i, acc, open) == Ok::<(Seq<char>, int), Blame>(
            (acc + w, i + 1 + doubled(w, '"').len()),
        ),
    decreases w.len(),
{
    let q = seq!['"'];
    let text = doubled(w, '"') + q;
    if w.len() == 0 {
        assert(s[i + 0] == text[0]);
        assert(acc + w =~= acc);
    } else {
        let rest = w.drop_first();
        assert(s[i + 0] == text[0]);
        assert forall|k: int| 0 <= k < rest.len() implies #[trigger] rest[k] != '\0' by {
            assert(rest[k] == w[k + 1]);
        }
        if w[0] == '"' {
            assert(s[i + 1] == text[1]);
            assert(text =~= seq!['"', '"'] + (doubled(rest, '"') + q));
            lemma_spelled(s, i, seq!['"', '"'], doubled(rest, '"') + q);
            lemma_quoted_rest(s, i + 2, acc.push('"'), rest, open);
            assert(acc.push('"') + rest =~= acc + w);
        } else {
            assert(text =~= seq![w[0]] + (doubled(rest, '"') + q));
            lemma_spelled(s, i, seq![w[0]], doubled(rest, '"') + q);
            lemma_quoted_rest(s, i + 1, acc.push(w[0]), rest, open);
            assert(acc.push(w[0]) + rest =~= acc + w);
        }
    }
}

/// Whether characters of a set stand from `i` to `j`, and none behind them.
pub open spec fn is_run(s: Seq<char>, i: int, j: int, class: CharClass) -> bool {
    &&& 0 <= i <= j <= s.len()
    &&& forall|k: int| i <= k < j ==> in_class(#[trigger] s[k], class)
    &&& j < s.len() ==> !in_class(s[j], class)
}

proof fn lemma_run(s: Seq<char>, i: int, j: int, class: CharClass)
    requires
        is_run(s, i, j, class),
    ensures
        end_of(s, i, class) == j,
    decreases j - i,
{
    if i < j {
        assert(in_class(s[i], class));
        lemma_run(s, i + 1, j, class);
    }
}

/// A word is a keyword in whatever case it is written, if there is one that is written so in
/// capitals; otherwise it is a name in lower case.
pub proof fn law_word_spelled(s: Seq<char>, i: int, j: int)
    requires
        i < j,
        is_run(s, i, j, CharClass::IdentPart),
        !is_digit(s[i]),
        s[i] != '$',
        !at_char(s, i + 1, '\''),
    ensures
        keyword_of(upper(s.subrange(i, j))) matches Some(k) ==> scan(s, i) == Scan::Tok(
            TokenView::Keyword(k),
            j,
        ),
        keyword_of(upper(s.subrange(i, j))) is None && is_ascii(s.subrange(i, j)) ==> scan(s, i)
            == Scan::Tok(TokenView::Ident(lower(s.subrange(i, j))), j),
{
    assert(in_class(s[i], CharClass::IdentPart));
    lemma_run(s, i, j, CharClass::IdentPart);
    reveal(scan);
}

/// Lower and upper case are taken letter by letter, and other characters stay as they are.
pub proof fn law_cases(s: Seq<char>, k: int)
    requires
        0 <= k < s.len(),
    ensures
        lower(s).len() == s.len() && upper(s).len() == s.len(),
        'A' <= s[k] && s[k] <= 'Z' ==> lower(s)[k] as int == s[k] as int + 32,
        !('A' <= s[k] && s[k] <= 'Z') ==> lower(s)[k] == s[k],
        'a' <= s[k] && s[k] <= 'z' ==> upper(s)[k] as int == s[k] as int - 32,
        !('a' <= s[k] && s[k] <= 'z') ==> upper(s)[k] == s[k],
{
}

/// Digits are a number, as they are; a point and further digits belong to it.
pub proof fn law_number_spelled(s: Seq<char>, i: int, j: int, k: int)
    requires
        i < j,
        is_run(s, i, j, CharClass::Digit),
        !at_char(s, j, 'e') && !at_char(s, j, 'E'),
    ensures
        !at_char(s, j, '.') ==> scan(s, i) == Scan::Tok(TokenView::Number(s.subrange(i, j)), j),
        at_char(s, j, '.') && is_run(s, j + 1, k, CharClass::Digit) && !at_char(s, k, 'e') && !at_char(s, k, 'E')
            ==> scan(s, i) == Scan::Tok(TokenView::Number(s.subrange(i, k)), k),
{
    assert(in_class(s[i], CharClass::Digit));
    lemma_run(s, i, j, CharClass::Digit);
    if at_char(s, j, '.') && is_run(s, j + 1, k, CharClass::Digit) {
        lemma_run(s, j + 1, k, CharClass::Digit);
    }
    reveal(scan);
}

/// Brackets, commas, semicolons, dots and colons are tokens of their own.
pub proof fn law_punctuation_spelled(s: Seq<char>, i: int)
    requires
        0 <= i < s.len(),
    ensures
        s[i] == '(' ==> scan(s, i) == Scan::Tok(TokenView::LParen, i + 1),
        s[i] == ')' ==> scan(s, i) == Scan::Tok(TokenView::RParen, i + 1),
        s[i] == '[' ==> scan(s, i) == Scan::Tok(TokenView::LBracket, i + 1),
        s[i] == ']' ==> scan(s, i) == Scan::Tok(TokenView::RBracket, i + 1),
        s[i] == ',' ==> scan(s, i) == Scan::Tok(TokenView::Comma, i + 1),
        s[i] == ';' ==> scan(s, i) == Scan::Tok(TokenView::Semicolon, i + 1),
        s[i] == '.' && !(i + 1 < s.len() && is_digit(s[i + 1])) ==> scan(s, i) == Scan::Tok(
            TokenView::Dot,
            i + 1,
        ),
        s[i] == ':' && at_char(s, i + 1, ':') ==> scan(s, i) == Scan::Tok(TokenView::DoubleColon, i + 2),
        s[i] == ':' && !at_char(s, i + 1, ':') ==> scan(s, i) == Scan::Tok(TokenView::Colon, i + 1),
{
    reveal(scan);
}

/// White space and comments are skipped: two hyphens comment to the end of the line.
pub proof fn law_skipped(s: Seq<char>, i: int, j: int)
    requires
        0 <= i < s.len(),
    ensures
        s[i] == ' ' || s[i] == '\t' || s[i] == '\n' || s[i] == '\r' ==> scan(s, i) == Scan::Skip(i + 1),
        s[i] == '-' && at_char(s, i + 1, '-') && is_run(s, i + 2, j, CharClass::NotNewline) ==> scan(s, i)
            == Scan::Skip(j),
        s[i] == '/' && at_char(s, i + 1, '*') && comment_end(s, i + 2, 0) == Some(j) ==> scan(s, i)
            == Scan::Skip(j),
        s[i] == '/' && at_char(s, i + 1, '*') && comment_end(s, i + 2, 0) is None ==> scan(s, i) is Bad,
{
    if s[i] == '-' && at_char(s, i + 1, '-') && is_run(s, i + 2, j, CharClass::NotNewline) {
        lemma_run(s, i + 2, j, CharClass::NotNewline);
    }
    reveal(scan);
}

/// Comments between `/*` and `*/` nest: each opening needs a closing of its own.
pub proof fn law_comments_nest(s: Seq<char>, i: int, nesting: nat)
    requires
        0 <= i,
        i + 1 < s.len(),
    ensures
        s[i] == '*' && s[i + 1] == '/' && nesting == 0 ==> comment_end(s, i, nesting) == Some(i + 2),
        s[i] == '*' && s[i + 1] == '/' && nesting > 0 ==> comment_end(s, i, nesting) == comment_end(
            s,
            i + 2,
            (nesting - 1) as nat,
        ),
        s[i] == '/' && s[i + 1] == '*' ==> comment_end(s, i, nesting) == comment_end(s, i + 2, nesting + 1),
        s[i] != '*' && s[i] != '/' ==> comment_end(s, i, nesting) == comment_end(s, i + 1, nesting),
{
}

/// An operator that is written with one character is that operator, where no other operator
/// character follows.
pub proof fn law_operator_spelled(s: Seq<char>, i: int)
    requires
        0 <= i < s.len(),
        in_class(s[i], CharClass::Operator),
        i + 1 < s.len() ==> !in_class(s[i + 1], CharClass::Operator),
    ensures
        s[i] == '*' ==> scan(s, i) == Scan::Tok(TokenView::Star, i + 1),
        s[i] == '=' ==> scan(s, i) == Scan::Tok(TokenView::Eq, i + 1),
        s[i] != '*' && s[i] != '=' ==> scan(s, i) == Scan::Tok(TokenView::Op(seq![s[i]]), i + 1),
{
    reveal_strlit("*");
    reveal_strlit("=");
    reveal_strlit("!=");
    let op = s.subrange(i, i + 1);
    assert(op =~= seq![s[i]]);
    assert("*"@ =~= seq!['*']);
    assert("="@ =~= seq!['=']);
    assert(op[0] == s[i]);
    reveal_with_fuel(operator_end, 2);
    reveal_with_fuel(trimmed_operator, 2);
    assert(operator_end(s, i) == i + 1);
    assert(trimmed_operator(s, i, i + 1) == i + 1);
    assert("!="@.len() == 2);
    assert("*"@[0] == '*' && "="@[0] == '=');
    reveal(scan);
}

/// What is read of a text is read token by token: what is skipped adds nothing, and each token
/// comes behind those before it, with the place at which it starts.
pub proof fn law_tokens_in_order(s: Seq<char>, i: int, acc: Seq<(TokenView, int)>, t: TokenView, j: int)
    requires
        0 <= i < j <= s.len(),
    ensures
        scan(s, i) == Scan::Skip(j) ==> tokens_from(s, i, acc) == tokens_from(s, j, acc),
        scan(s, i) == Scan::Tok(t, j) ==> tokens_from(s, i, acc) == tokens_from(
            s,
            j,
            acc.push((t, byte_at(s, i))),
        ),
        scan(s, i) matches Scan::Bad(b) ==> tokens_from(s, i, acc) is Err,
{
}

/// A text ends with its last token.
pub proof fn law_tokens_end(s: Seq<char>, acc: Seq<(TokenView, int)>)
    ensures
        tokens_from(s, s.len() as int, acc) == Ok::<Seq<(TokenView, int)>, Blame>(acc),
        tokens_of(s) == tokens_from(s, 0, Seq::empty()),
{
    reveal(scan);
}

/// The number that digits write.
pub open spec fn written_number(s: Seq<char>) -> int
    decreases s.len(),
{
    if s.len() == 0 {
        0
    } else {
        written_number(s.drop_last()) * 10 + (s.last() as int - '0' as int)
    }
}

proof fn lemma_digits_read(s: Seq<char>, k: int, max: int)
    requires
        0 <= k <= s.len(),
        0 <= max,
        forall|n: int| 0 <= n < s.len() ==> '0' <= #[trigger] s[n] <= '9',
        written_number(s.take(k)) <= max,
    ensures
        written_number(s) >= written_number(s.take(k)) >= 0,
        written_number(s) <= max ==> read_digits(s, k, written_number(s.take(k)), max) == Ok::<int, Seq<char>>(
            written_number(s),
        ),
        written_number(s) > max ==> read_digits(s, k, written_number(s.take(k)), max) is Err,
    decreases s.len() - k,
{
    lemma_number_positive(s.take(k));
    if k < s.len() {
        let next = s.take(k + 1);
        assert(next.drop_last() =~= s.take(k));
        assert(next.last() == s[k]);
        assert(written_number(next) == written_number(s.take(k)) * 10 + (s[k] as int - '0' as int));
        if written_number(next) <= max {
            lemma_digits_read(s, k + 1, max);
        } else {
            lemma_number_grows(s, k + 1);
        }
    } else {
        assert(s.take(k) =~= s);
    }
}

proof fn lemma_number_positive(s: Seq<char>)
    requires
        forall|n: int| 0 <= n < s.len() ==> '0' <= #[trigger] s[n] <= '9',
    ensures
        written_number(s) >= 0,
    decreases s.len(),
{
    if s.len() > 0 {
        assert(s.last() == s[s.len() - 1]);
        assert forall|n: int| 0 <= n < s.drop_last().len() implies '0' <= #[trigger] s.drop_last()[n] <= '9' by {
            assert(s.drop_last()[n] == s[n]);
        }
        lemma_number_positive(s.drop_last());
    }
}

proof fn lemma_number_grows(s: Seq<char>, k: int)
    requires
        0 <= k <= s.len(),
        forall|n: int| 0 <= n < s.len() ==> '0' <= #[trigger] s[n] <= '9',
    ensures
        written_number(s) >= written_number(s.take(k)) >= 0,
    decreases s.len() - k,
{
    lemma_number_positive(s.take(k));
    if k < s.len() {
        let next = s.take(k + 1);
        assert(next.drop_last() =~= s.take(k));
        assert(next.last() == s[k]);
        assert(written_number(next) == written_number(s.take(k)) * 10 + (s[k] as int - '0' as int));
        lemma_number_grows(s, k + 1);
    } else {
        assert(s.take(k) =~= s);
    }
}

/// Digits are read as the number that they write, and refused where it is beyond the limit.
pub proof fn law_digits_read(s: Seq<char>, max: int)
    requires
        s.len() > 0,
        0 <= max,
        forall|n: int| 0 <= n < s.len() ==> '0' <= #[trigger] s[n] <= '9',
    ensures
        written_number(s) <= max ==> read_integer(s, max) == Ok::<int, Seq<char>>(written_number(s)),
        written_number(s) > max ==> read_integer(s, max) is Err,
{
    assert(s.take(0) =~= Seq::<char>::empty());
    lemma_digits_read(s, 0, max);
}

/// A dollar sign and digits are the parameter of that number.
pub proof fn law_parameter_spelled(s: Seq<char>, i: int, j: int)
    requires
        0 <= i < s.len(),
        s[i] == '$',
        i + 1 < j,
        is_run(s, i + 1, j, CharClass::Digit),
    ensures
        written_number(s.subrange(i + 1, j)) <= usize::MAX ==> scan(s, i) == Scan::Tok(
            TokenView::Parameter(written_number(s.subrange(i + 1, j)) as usize),
            j,
        ),
        written_number(s.subrange(i + 1, j)) > usize::MAX ==> scan(s, i) is Bad,
{
    let w = s.subrange(i + 1, j);
    assert(in_class(s[i + 1], CharClass::Digit));
    lemma_run(s, i + 1, j, CharClass::Digit);
    assert forall|n: int| 0 <= n < w.len() implies '0' <= #[trigger] w[n] <= '9' by {
        assert(in_class(s[i + 1 + n], CharClass::Digit));
    }
    assert(w.take(0) =~= Seq::<char>::empty());
    lemma_digits_read(w, 0, usize::MAX as int);
    reveal(scan);
}

/// An exponent behind a number belongs to it: it is written with a capital `E`, and with its sign
/// where it is negative.
pub proof fn law_exponent_spelled(s: Seq<char>, i: int, j: int, negative: bool, k: int)
    requires
        i < j,
        is_run(s, i, j, CharClass::Digit),
        at_char(s, j, 'e') || at_char(s, j, 'E'),
        negative == at_char(s, j + 1, '-'),
        !at_char(s, j + 1, '+'),
        ({
            let start = if negative {
                j + 2
            } else {
                j + 1
            };
            start < k && is_run(s, start, k, CharClass::Digit)
        }),
    ensures
        scan(s, i) == Scan::Tok(
            TokenView::Number(
                s.subrange(i, j) + (if negative {
                    seq!['E', '-'] + s.subrange(j + 2, k)
                } else {
                    seq!['E'] + s.subrange(j + 1, k)
                }),
            ),
            k,
        ),
{
    let start = if negative {
        j + 2
    } else {
        j + 1
    };
    assert(in_class(s[i], CharClass::Digit));
    lemma_run(s, i, j, CharClass::Digit);
    lemma_run(s, start, k, CharClass::Digit);
    assert(no_text().push('E').push('-') =~= seq!['E', '-']);
    assert(no_text().push('E') =~= seq!['E']);
    let sign = if negative {
        seq!['E', '-']
    } else {
        seq!['E']
    };
    assert(s.subrange(i, j) + sign + s.subrange(start, k) =~= s.subrange(i, j) + (sign + s.subrange(start, k)));
    reveal(scan);
}

} // verus!
