//! Splitting SQL text into tokens.

use vstd::prelude::*;
use vstd::utf8::encode_utf8;

use crate::sql_parser::keywords::{keyword_of, Keyword};
use crate::sql_parser::number::{is_digit, read_digits};
use crate::sql_parser::outcome::ParserError;
use crate::sql_parser::parser::{lemma_tokens_view, tokens_view};
use crate::sql_parser::text::{
    chars_of, is_ascii, lower, no_text, quote, quoted, text_eq, text_of, to_upper, upper,
};
use crate::sql_parser::token::{Token, TokenView};

verus! {

/// The byte position at which the character at `i` starts.
pub open spec fn byte_at(s: Seq<char>, i: int) -> int {
    encode_utf8(s).len() - encode_utf8(s.skip(i)).len()
}

/// Sets of characters that text is split by.
#[derive(Copy, Clone, PartialEq, Eq, Structural)]
pub enum CharClass {
    Space,
    NotNewline,
    Digit,
    IdentPart,
    NotDollar,
    HexDigit,
    Operator,
}

/// Whether a character is in a set.
pub open spec fn in_class(c: char, class: CharClass) -> bool {
    match class {
        CharClass::Space => c == ' ' || c == '\t' || c == '\n' || c == '\r' || c == '\x0c',
        CharClass::NotNewline => c != '\n',
        CharClass::Digit => is_digit(c),
        CharClass::IdentPart => ('A' <= c && c <= 'Z') || ('a' <= c && c <= 'z') || is_digit(c)
            || c == '$' || c == '_' || c >= '\u{80}',
        CharClass::NotDollar => c != '$',
        CharClass::HexDigit => is_digit(c) || ('A' <= c && c <= 'F') || ('a' <= c && c <= 'f'),
        CharClass::Operator => c == '+' || c == '-' || c == '*' || c == '/' || c == '<' || c == '>'
            || c == '=' || is_special(c),
    }
}

/// Whether a character makes an operator that may end in `+` or `-`.
pub open spec fn is_special(c: char) -> bool {
    c == '~' || c == '!' || c == '@' || c == '#' || c == '%' || c == '^' || c == '&' || c == '|'
        || c == '`' || c == '?'
}

/// Where the characters of a set end that start at `i`.
pub open spec fn end_of(s: Seq<char>, i: int, class: CharClass) -> int
    decreases s.len() - i,
{
    if 0 <= i < s.len() && in_class(s[i], class) {
        end_of(s, i + 1, class)
    } else {
        i
    }
}

/// Whether the character at `i` is `c`.
pub open spec fn at_char(s: Seq<char>, i: int, c: char) -> bool {
    0 <= i < s.len() && s[i] == c
}

/// Why text could not be split: the index of the character to blame, and a message.
pub struct Blame {
    pub at: int,
    pub message: Seq<char>,
}

/// Where the comment ends that is open at `i`, inside `nesting` others.
pub open spec fn comment_end(s: Seq<char>, i: int, nesting: nat) -> Option<int>
    decreases s.len() - i,
{
    if i < 0 || i >= s.len() {
        None
    } else if s[i] == '*' && at_char(s, i + 1, '/') {
        if nesting == 0 {
            Some(i + 2)
        } else {
            comment_end(s, i + 2, (nesting - 1) as nat)
        }
    } else if s[i] == '/' && at_char(s, i + 1, '*') {
        comment_end(s, i + 2, nesting + 1)
    } else {
        comment_end(s, i + 1, nesting)
    }
}

/// Whether there is a line break from `i` up to `j`.
pub open spec fn has_newline(s: Seq<char>, i: int, j: int) -> bool {
    exists|k: int| i <= k < j && 0 <= k < s.len() && (#[trigger] s[k] == '\n' || s[k] == '\r')
}

/// Where a string goes on that was closed just before `i`: string literals are
/// concatenated if and only if the whitespace between them contains at least one
/// line break.
pub open spec fn adjacent_string(s: Seq<char>, i: int) -> Option<int> {
    let j = end_of(s, i, CharClass::Space);
    if has_newline(s, i, j) && at_char(s, j, '\'') {
        Some(j)
    } else {
        None
    }
}

/// The value of a hexadecimal digit.
pub open spec fn hex_value(c: char) -> int {
    if is_digit(c) {
        c as int - 48
    } else if 'a' <= c {
        c as int - 87
    } else {
        c as int - 55
    }
}

/// The number that the `n` hexadecimal digits from `i` on write, if they are there.
pub open spec fn hex_number(s: Seq<char>, i: int, n: nat) -> Option<int>
    decreases n,
{
    if n == 0 {
        Some(0)
    } else {
        match hex_number(s, i, (n - 1) as nat) {
            Some(high) => {
                let k = i + n - 1;
                if 0 <= k < s.len() && in_class(s[k], CharClass::HexDigit) {
                    Some(high * 16 + hex_value(s[k]))
                } else {
                    None
                }
            },
            None => None,
        }
    }
}

/// The character that the `n` hexadecimal digits from `i` on name, if they name one.
pub open spec fn unicode_escape(s: Seq<char>, i: int, n: nat) -> Option<char> {
    match hex_number(s, i, n) {
        Some(v) => if v < 0xd800 || (0xe000 <= v && v <= 0x10ffff) {
            Some(v as u32 as char)
        } else {
            None
        },
        None => None,
    }
}

/// The rest of a string from `i` on, after the characters `acc`, and where it
/// ends; the string was opened at `open`. Where `escapes`, a backslash has a meaning.
pub open spec fn string_rest(s: Seq<char>, i: int, acc: Seq<char>, open: int, escapes: bool) -> Result<(Seq<char>, int), Blame>
    decreases s.len() - i,
{
    if i < 0 || i >= s.len() {
        Err(Blame { at: open, message: "unterminated quoted string"@ })
    } else if s[i] == '\'' {
        if at_char(s, i + 1, '\'') {
            string_rest(s, i + 2, acc.push('\''), open, escapes)
        } else {
            match adjacent_string(s, i + 1) {
                Some(j) => if j > i {
                    string_rest(s, j + 1, acc, j, escapes)
                } else {
                    Ok((acc, i + 1))
                },
                None => Ok((acc, i + 1)),
            }
        }
    } else if escapes && s[i] == '\\' {
        if i + 1 >= s.len() {
            Err(Blame { at: open, message: "unterminated quoted string"@ })
        } else if s[i + 1] == 'u' || s[i + 1] == 'U' {
            let n: nat = if s[i + 1] == 'u' { 4 } else { 8 };
            match unicode_escape(s, i + 2, n) {
                Some(c) => string_rest(s, i + 2 + n, acc.push(c), open, escapes),
                None => Err(Blame { at: i, message: "invalid unicode escape"@ }),
            }
        } else if '0' <= s[i + 1] && s[i + 1] <= '7' {
            Err(Blame { at: i, message: "octal escapes are not supported"@ })
        } else if s[i + 1] == 'x' {
            Err(Blame { at: i, message: "hexadecimal escapes are not supported"@ })
        } else {
            string_rest(s, i + 2, acc.push(escaped(s[i + 1])), open, escapes)
        }
    } else {
        string_rest(s, i + 1, acc.push(s[i]), open, escapes)
    }
}

/// What a character stands for after a backslash.
pub open spec fn escaped(c: char) -> char {
    if c == 'b' {
        '\x08'
    } else if c == 'f' {
        '\x0c'
    } else if c == 'n' {
        '\n'
    } else if c == 'r' {
        '\r'
    } else if c == 't' {
        '\t'
    } else {
        c
    }
}

/// The rest of a quoted identifier from `i` on, after the characters `acc`, and
/// where it ends; it was opened at `open`.
pub open spec fn quoted_rest(s: Seq<char>, i: int, acc: Seq<char>, open: int) -> Result<(Seq<char>, int), Blame>
    decreases s.len() - i,
{
    if i < 0 || i >= s.len() {
        Err(Blame { at: open, message: "unterminated quoted identifier"@ })
    } else if s[i] == '"' {
        if at_char(s, i + 1, '"') {
            quoted_rest(s, i + 2, acc.push('"'), open)
        } else {
            Ok((acc, i + 1))
        }
    } else if s[i] == '\0' {
        Err(Blame { at: open, message: "null character in quoted identifier"@ })
    } else {
        quoted_rest(s, i + 1, acc.push(s[i]), open)
    }
}

/// Whether the text `t` stands at `i`.
pub open spec fn text_at(s: Seq<char>, i: int, t: Seq<char>) -> bool {
    0 <= i && i + t.len() <= s.len() && s.subrange(i, i + t.len()) == t
}

/// Where the text `t` first stands from `i` on.
pub open spec fn find_text(s: Seq<char>, i: int, t: Seq<char>) -> Option<int>
    decreases s.len() + 1 - i,
{
    if i < 0 || i > s.len() {
        None
    } else if text_at(s, i, t) {
        Some(i)
    } else {
        find_text(s, i + 1, t)
    }
}

/// What the next characters are.
pub enum Scan {
    /// Nothing: the text is at its end.
    End,
    /// Whitespace or a comment up to the given index.
    Skip(int),
    /// A token up to the given index.
    Tok(TokenView, int),
    /// No token.
    Bad(Blame),
}

/// The number literal that starts at `i`: digits, then maybe a fraction, then
/// maybe an exponent.
pub open spec fn number(s: Seq<char>, i: int) -> Scan {
    let whole = end_of(s, i, CharClass::Digit);
    let (mantissa, m) = if at_char(s, whole, '.') {
        let f = end_of(s, whole + 1, CharClass::Digit);
        (s.subrange(i, f), f)
    } else {
        (s.subrange(i, whole), whole)
    };
    if at_char(s, m, 'e') || at_char(s, m, 'E') {
        let minus = at_char(s, m + 1, '-');
        let signed = minus || at_char(s, m + 1, '+');
        let start = if signed { m + 2 } else { m + 1 };
        let end = end_of(s, start, CharClass::Digit);
        if end > start {
            let sign = if minus { no_text().push('E').push('-') } else { no_text().push('E') };
            Scan::Tok(TokenView::Number(mantissa + sign + s.subrange(start, end)), end)
        } else if signed {
            Scan::Bad(Blame { at: m + 1, message: "missing required exponent"@ })
        } else {
            Scan::Tok(TokenView::Number(mantissa), m)
        }
    } else {
        Scan::Tok(TokenView::Number(mantissa), m)
    }
}

/// Where the operator characters end that start at `i`; `--` and `/*` start
/// comments even there.
pub open spec fn operator_end(s: Seq<char>, i: int) -> int
    decreases s.len() - i,
{
    if 0 <= i < s.len() && in_class(s[i], CharClass::Operator) && !(s[i] == '-' && at_char(s, i + 1, '-'))
        && !(s[i] == '/' && at_char(s, i + 1, '*')) {
        operator_end(s, i + 1)
    } else {
        i
    }
}

/// Where the operator ends whose characters are those from `i` up to `j`: one of
/// several characters does not end in `+` or `-`, unless it has a character that
/// no operator of the standard has. So `1+-2` is `1 + (-2)`.
pub open spec fn trimmed_operator(s: Seq<char>, i: int, j: int) -> int
    decreases j - i,
{
    if j - i > 1 && (s[j - 1] == '-' || s[j - 1] == '+') && !has_special(s, i, j) {
        trimmed_operator(s, i, j - 1)
    } else {
        j
    }
}

/// Whether one of the characters from `i` up to `j` is in no operator of the standard.
pub open spec fn has_special(s: Seq<char>, i: int, j: int) -> bool {
    exists|k: int| i <= k < j && is_special(#[trigger] s[k])
}

/// The token for an operator.
pub open spec fn operator_token(op: Seq<char>) -> TokenView {
    if op == "*"@ {
        TokenView::Star
    } else if op == "="@ {
        TokenView::Eq
    } else if op == "!="@ {
        TokenView::Op("<>"@)
    } else {
        TokenView::Op(op)
    }
}

/// A text in lowercase, as Unicode has it.
pub uninterp spec fn lowercase(s: Seq<char>) -> Seq<char>;

/// `str::to_lowercase` gives a text that depends on `s` alone; of a text of ASCII
/// characters, the one with each letter in lowercase.
#[verifier::external_body]
fn to_lowercase(s: &str) -> (r: String)
    ensures
        r@ == lowercase(s@),
        is_ascii(s@) ==> r@ == lower(s@),
{
    s.to_lowercase()
}

/// The name that a word is where it is not quoted: the word in lowercase.
pub open spec fn folded(word: Seq<char>) -> Seq<char> {
    if is_ascii(word) {
        lower(word)
    } else {
        lowercase(word)
    }
}

/// The token for a word.
pub open spec fn word_token(word: Seq<char>) -> TokenView {
    match keyword_of(upper(word)) {
        Some(k) => TokenView::Keyword(k),
        None => TokenView::Ident(folded(word)),
    }
}

/// A string token, where `r` is the string.
pub open spec fn string_token(r: Result<(Seq<char>, int), Blame>, hex: bool) -> Scan {
    match r {
        Ok((text, j)) => Scan::Tok(
            if hex {
                TokenView::HexString(text)
            } else {
                TokenView::String(text)
            },
            j,
        ),
        Err(b) => Scan::Bad(b),
    }
}

/// The string between dollar signs that starts at `i`.
pub open spec fn dollar_string(s: Seq<char>, i: int) -> Scan {
    let j = end_of(s, i + 1, CharClass::NotDollar);
    let tag = s.subrange(i, j).push('$');
    match find_text(s, j + 1, tag) {
        Some(k) => Scan::Tok(TokenView::String(s.subrange(j + 1, k)), k + tag.len()),
        None => Scan::Bad(Blame { at: i, message: "unterminated dollar-quoted string"@ }),
    }
}

/// The parameter that starts at `i`.
pub open spec fn parameter(s: Seq<char>, i: int) -> Scan {
    let j = end_of(s, i + 1, CharClass::Digit);
    match read_digits(s.subrange(i + 1, j), 0, 0, usize::MAX as int) {
        Ok(n) => Scan::Tok(TokenView::Parameter(n as usize), j),
        Err(_) => Scan::Bad(Blame { at: i, message: "invalid parameter number"@ }),
    }
}

/// What the characters from `i` on are.
#[verifier::opaque]
pub open spec fn scan(s: Seq<char>, i: int) -> Scan {
    if i < 0 || i >= s.len() {
        Scan::End
    } else {
        let c = s[i];
        if in_class(c, CharClass::Space) {
            Scan::Skip(i + 1)
        } else if c == '-' && at_char(s, i + 1, '-') {
            Scan::Skip(end_of(s, i + 2, CharClass::NotNewline))
        } else if c == '/' && at_char(s, i + 1, '*') {
            match comment_end(s, i + 2, 0) {
                Some(j) => Scan::Skip(j),
                None => Scan::Bad(Blame { at: i, message: "unterminated multiline comment"@ }),
            }
        } else if c == '\'' {
            string_token(string_rest(s, i + 1, no_text(), i, false), false)
        } else if (c == 'x' || c == 'X') && at_char(s, i + 1, '\'') {
            string_token(string_rest(s, i + 2, no_text(), i + 1, false), true)
        } else if (c == 'e' || c == 'E') && at_char(s, i + 1, '\'') {
            string_token(string_rest(s, i + 2, no_text(), i + 1, true), false)
        } else if in_class(c, CharClass::IdentPart) && !is_digit(c) && c != '$' {
            let j = end_of(s, i, CharClass::IdentPart);
            Scan::Tok(word_token(s.subrange(i, j)), j)
        } else if c == '"' {
            match quoted_rest(s, i + 1, no_text(), i) {
                Ok((text, j)) => Scan::Tok(TokenView::Ident(text), j),
                Err(b) => Scan::Bad(b),
            }
        } else if is_digit(c) || (c == '.' && i + 1 < s.len() && is_digit(s[i + 1])) {
            number(s, i)
        } else if c == '$' {
            if i + 1 < s.len() && is_digit(s[i + 1]) {
                parameter(s, i)
            } else {
                dollar_string(s, i)
            }
        } else if c == '(' {
            Scan::Tok(TokenView::LParen, i + 1)
        } else if c == ')' {
            Scan::Tok(TokenView::RParen, i + 1)
        } else if c == ',' {
            Scan::Tok(TokenView::Comma, i + 1)
        } else if c == ';' {
            Scan::Tok(TokenView::Semicolon, i + 1)
        } else if c == ':' {
            if at_char(s, i + 1, ':') {
                Scan::Tok(TokenView::DoubleColon, i + 2)
            } else {
                Scan::Tok(TokenView::Colon, i + 1)
            }
        } else if c == '.' {
            Scan::Tok(TokenView::Dot, i + 1)
        } else if c == '[' {
            Scan::Tok(TokenView::LBracket, i + 1)
        } else if c == ']' {
            Scan::Tok(TokenView::RBracket, i + 1)
        } else if in_class(c, CharClass::Operator) {
            let j = trimmed_operator(s, i, operator_end(s, i));
            Scan::Tok(operator_token(s.subrange(i, j)), j)
        } else {
            Scan::Bad(
                Blame { at: i, message: no_text() + "unexpected character in input: "@ + quoted(seq![c]) },
            )
        }
    }
}

/// The tokens of the text from `i` on, after the tokens `acc`, each with its byte
/// position.
pub open spec fn tokens_from(s: Seq<char>, i: int, acc: Seq<(TokenView, int)>) -> Result<Seq<(TokenView, int)>, Blame>
    decreases s.len() - i,
{
    match scan(s, i) {
        Scan::End => Ok(acc),
        Scan::Skip(j) => if i < j <= s.len() {
            tokens_from(s, j, acc)
        } else {
            Ok(acc)
        },
        Scan::Tok(t, j) => if i < j <= s.len() {
            tokens_from(s, j, acc.push((t, byte_at(s, i))))
        } else {
            Ok(acc)
        },
        Scan::Bad(b) => Err(b),
    }
}

/// The tokens of a text, each with its byte position, or why it has none.
pub open spec fn tokens_of(s: Seq<char>) -> Result<Seq<(TokenView, int)>, Blame> {
    tokens_from(s, 0, Seq::empty())
}

fn is_in_class(c: char, class: CharClass) -> (r: bool)
    ensures
        r == in_class(c, class),
{
    let digit = '0' <= c && c <= '9';
    match class {
        CharClass::Space => c == ' ' || c == '\t' || c == '\n' || c == '\r' || c == '\x0c',
        CharClass::NotNewline => c != '\n',
        CharClass::Digit => digit,
        CharClass::IdentPart => ('A' <= c && c <= 'Z') || ('a' <= c && c <= 'z') || digit || c == '$'
            || c == '_' || c >= '\u{80}',
        CharClass::NotDollar => c != '$',
        CharClass::HexDigit => digit || ('A' <= c && c <= 'F') || ('a' <= c && c <= 'f'),
        CharClass::Operator => c == '+' || c == '-' || c == '*' || c == '/' || c == '<' || c == '>'
            || c == '=' || special(c),
    }
}

fn special(c: char) -> (r: bool)
    ensures
        r == is_special(c),
{
    c == '~' || c == '!' || c == '@' || c == '#' || c == '%' || c == '^' || c == '&' || c == '|' || c
        == '`' || c == '?'
}

fn find_end(cs: &Vec<char>, i: usize, class: CharClass) -> (r: usize)
    requires
        i <= cs.len(),
    ensures
        r == end_of(cs@, i as int, class),
        i <= r <= cs.len(),
{
    let mut k: usize = i;
    while k < cs.len() && is_in_class(cs[k], class)
        invariant
            i <= k <= cs.len(),
            end_of(cs@, k as int, class) == end_of(cs@, i as int, class),
        decreases cs.len() - k,
    {
        k += 1;
    }
    k
}

fn is_char_at(cs: &Vec<char>, i: usize, c: char) -> (r: bool)
    ensures
        r == at_char(cs@, i as int, c),
{
    i < cs.len() && cs[i] == c
}

fn find_comment_end(cs: &Vec<char>, i: usize) -> (r: Option<usize>)
    requires
        i <= cs.len(),
        cs.len() < usize::MAX,
    ensures
        match r {
            Some(j) => comment_end(cs@, i as int, 0) == Some(j as int) && i < j <= cs.len(),
            None => comment_end(cs@, i as int, 0) is None,
        },
{
    let mut k: usize = i;
    let mut nesting: usize = 0;
    while k < cs.len()
        invariant
            i <= k <= cs.len(),
            nesting <= k,
            cs.len() < usize::MAX,
            comment_end(cs@, k as int, nesting as nat) == comment_end(cs@, i as int, 0),
        decreases cs.len() - k,
    {
        if cs[k] == '*' && is_char_at(cs, k + 1, '/') {
            if nesting == 0 {
                return Some(k + 2);
            }
            nesting -= 1;
            k += 2;
        } else if cs[k] == '/' && is_char_at(cs, k + 1, '*') {
            nesting += 1;
            k += 2;
        } else {
            k += 1;
        }
    }
    None
}

fn find_adjacent_string(cs: &Vec<char>, i: usize) -> (r: Option<usize>)
    requires
        i <= cs.len(),
    ensures
        match r {
            Some(j) => adjacent_string(cs@, i as int) == Some(j as int) && i <= j < cs.len(),
            None => adjacent_string(cs@, i as int) is None,
        },
{
    let j = find_end(cs, i, CharClass::Space);
    let mut k: usize = i;
    let mut found = false;
    while k < j
        invariant
            i <= k <= j <= cs.len(),
            found == has_newline(cs@, i as int, k as int),
        decreases j - k,
    {
        if cs[k] == '\n' || cs[k] == '\r' {
            assert(cs@[k as int] == '\n' || cs@[k as int] == '\r');
            found = true;
        }
        k += 1;
        proof {
            if !found {
                assert(!has_newline(cs@, i as int, k as int));
            } else if has_newline(cs@, i as int, k - 1) {
                let w = choose|w: int| i <= w < k - 1 && 0 <= w < cs@.len() && (#[trigger] cs@[w] == '\n' || cs@[w] == '\r');
                assert(cs@[w] == '\n' || cs@[w] == '\r');
            }
        }
    }
    if found && is_char_at(cs, j, '\'') {
        Some(j)
    } else {
        None
    }
}

fn find_unicode_escape(cs: &Vec<char>, i: usize, n: usize) -> (r: Option<char>)
    requires
        i <= cs.len(),
        n <= 8,
    ensures
        r == unicode_escape(cs@, i as int, n as nat),
        r is Some ==> i + n <= cs.len(),
{
    let mut v: u64 = 0;
    let mut k: usize = 0;
    proof {
        assert(hex_number(cs@, i as int, 0) == Some(0int));
    }
    while k < n
        invariant
            k <= n <= 8,
            i + k <= cs.len(),
            hex_number(cs@, i as int, k as nat) == Some(v as int),
            k == 0 ==> v < 1,
            k == 1 ==> v < 0x10,
            k == 2 ==> v < 0x100,
            k == 3 ==> v < 0x1000,
            k == 4 ==> v < 0x1_0000,
            k == 5 ==> v < 0x10_0000,
            k == 6 ==> v < 0x100_0000,
            k == 7 ==> v < 0x1000_0000,
            k == 8 ==> v < 0x1_0000_0000,
        decreases n - k,
    {
        if k >= cs.len() - i || !is_in_class(cs[i + k], CharClass::HexDigit) {
            proof {
                assert(hex_number(cs@, i as int, (k + 1) as nat) is None);
                lemma_hex_none(cs@, i as int, (k + 1) as nat, n as nat);
            }
            return None;
        }
        let c = cs[i + k];
        let d: u64 = if '0' <= c && c <= '9' {
            c as u64 - 48
        } else if 'a' <= c {
            c as u64 - 87
        } else {
            c as u64 - 55
        };
        v = v * 16 + d;
        k += 1;
    }
    let code: u32 = v as u32;
    char_of(code)
}

/// `char::from_u32` gives the character with the given code, or nothing where there is none.
#[verifier::external_body]
fn char_of(code: u32) -> (r: Option<char>)
    ensures
        r == (if code < 0xd800 || (0xe000 <= code && code <= 0x10ffff) {
            Some(code as char)
        } else {
            None
        }),
{
    char::from_u32(code)
}

proof fn lemma_hex_none(s: Seq<char>, i: int, k: nat, n: nat)
    requires
        k <= n,
        hex_number(s, i, k) is None,
    ensures
        hex_number(s, i, n) is None,
    decreases n,
{
    if k < n {
        lemma_hex_none(s, i, k, (n - 1) as nat);
    }
}

/// What an exec function found to blame.
struct Fault {
    at: usize,
    message: String,
}

spec fn blames(f: Fault, b: Blame) -> bool {
    f.at == b.at && f.message@ == b.message
}

fn fault(at: usize, message: &str) -> (r: Fault)
    ensures
        r.at == at,
        r.message@ == message@,
{
    Fault { at, message: String::from_str(message) }
}

fn lex_string(cs: &Vec<char>, from: usize, opened: usize, escapes: bool) -> (r: Result<(String, usize), Fault>)
    requires
        opened < from <= cs.len(),
        cs.len() < usize::MAX,
    ensures
        match r {
            Ok((text, j)) => string_rest(cs@, from as int, no_text(), opened as int, escapes) == Ok::<(Seq<char>, int), Blame>(
                (text@, j as int),
            ) && from < j <= cs.len(),
            Err(f) => {
                &&& string_rest(cs@, from as int, no_text(), opened as int, escapes) matches Err(b)
                &&& blames(f, b)
                &&& f.at < cs.len()
            },
        },
{
    let mut s = String::new();
    let mut i: usize = from;
    let mut open: usize = opened;
    let ghost goal = string_rest(cs@, from as int, no_text(), opened as int, escapes);
    #[verifier::loop_isolation(false)]
    while i < cs.len()
        invariant
            from <= i <= cs.len(),
            open < i,
            string_rest(cs@, i as int, s@, open as int, escapes) == goal,
        decreases cs.len() - i,
    {
        let c = cs[i];
        if c == '\'' {
            if is_char_at(cs, i + 1, '\'') {
                s.push('\'');
                i += 2;
            } else {
                match find_adjacent_string(cs, i + 1) {
                    Some(j) => {
                        open = j;
                        i = j + 1;
                    },
                    None => {
                        return Ok((s, i + 1));
                    },
                }
            }
        } else if escapes && c == '\\' {
            if i + 1 >= cs.len() {
                return Err(fault(open, "unterminated quoted string"));
            }
            let e = cs[i + 1];
            if e == 'u' || e == 'U' {
                let n: usize = if e == 'u' { 4 } else { 8 };
                match find_unicode_escape(cs, i + 2, n) {
                    Some(u) => {
                        s.push(u);
                        i = i + 2 + n;
                    },
                    None => {
                        return Err(fault(i, "invalid unicode escape"));
                    },
                }
            } else if '0' <= e && e <= '7' {
                return Err(fault(i, "octal escapes are not supported"));
            } else if e == 'x' {
                return Err(fault(i, "hexadecimal escapes are not supported"));
            } else {
                let d = if e == 'b' {
                    '\x08'
                } else if e == 'f' {
                    '\x0c'
                } else if e == 'n' {
                    '\n'
                } else if e == 'r' {
                    '\r'
                } else if e == 't' {
                    '\t'
                } else {
                    e
                };
                s.push(d);
                i += 2;
            }
        } else {
            s.push(c);
            i += 1;
        }
    }
    Err(fault(open, "unterminated quoted string"))
}

fn lex_quoted_ident(cs: &Vec<char>, from: usize, open: usize) -> (r: Result<(String, usize), Fault>)
    requires
        open < from <= cs.len(),
        cs.len() < usize::MAX,
    ensures
        match r {
            Ok((text, j)) => quoted_rest(cs@, from as int, no_text(), open as int) == Ok::<(Seq<char>, int), Blame>(
                (text@, j as int),
            ) && from < j <= cs.len(),
            Err(f) => {
                &&& quoted_rest(cs@, from as int, no_text(), open as int) matches Err(b)
                &&& blames(f, b)
                &&& f.at < cs.len()
            },
        },
{
    let mut s = String::new();
    let mut i: usize = from;
    let ghost goal = quoted_rest(cs@, from as int, no_text(), open as int);
    #[verifier::loop_isolation(false)]
    while i < cs.len()
        invariant
            from <= i <= cs.len(),
            quoted_rest(cs@, i as int, s@, open as int) == goal,
        decreases cs.len() - i,
    {
        let c = cs[i];
        if c == '"' {
            if is_char_at(cs, i + 1, '"') {
                s.push('"');
                i += 2;
            } else {
                return Ok((s, i + 1));
            }
        } else if c == '\0' {
            return Err(fault(open, "null character in quoted identifier"));
        } else {
            s.push(c);
            i += 1;
        }
    }
    Err(fault(open, "unterminated quoted identifier"))
}

fn is_text_at(cs: &Vec<char>, i: usize, t: &Vec<char>) -> (r: bool)
    requires
        i <= cs.len(),
    ensures
        r == text_at(cs@, i as int, t@),
{
    if t.len() > cs.len() - i {
        return false;
    }
    let mut k: usize = 0;
    while k < t.len()
        invariant
            k <= t.len(),
            i + t.len() <= cs.len(),
            forall|m: int| 0 <= m < k ==> cs@[i + m] == #[trigger] t@[m],
        decreases t.len() - k,
    {
        if cs[i + k] != t[k] {
            assert(cs@.subrange(i as int, i + t.len())[k as int] != t@[k as int]);
            return false;
        }
        k += 1;
    }
    assert(cs@.subrange(i as int, i + t.len()) =~= t@);
    true
}

fn find_text_from(cs: &Vec<char>, i: usize, t: &Vec<char>) -> (r: Option<usize>)
    requires
        i <= cs.len(),
        cs.len() < usize::MAX,
    ensures
        match r {
            Some(k) => find_text(cs@, i as int, t@) == Some(k as int) && i <= k && k + t.len() <= cs.len(),
            None => find_text(cs@, i as int, t@) is None,
        },
{
    let mut k: usize = i;
    while k < cs.len()
        invariant
            i <= k <= cs.len(),
            cs.len() < usize::MAX,
            find_text(cs@, k as int, t@) == find_text(cs@, i as int, t@),
        decreases cs.len() - k,
    {
        if is_text_at(cs, k, t) {
            return Some(k);
        }
        k += 1;
    }
    if is_text_at(cs, k, t) {
        Some(k)
    } else {
        assert(find_text(cs@, k + 1, t@) is None);
        None
    }
}

/// What an exec function found the next characters to be.
enum Found {
    End,
    Skip(usize),
    Tok(Token, usize),
    Bad(Fault),
}

spec fn found_is(f: Found, s: Scan) -> bool {
    match f {
        Found::End => s is End,
        Found::Skip(j) => s == Scan::Skip(j as int),
        Found::Tok(t, j) => s == Scan::Tok(t@, j as int),
        Found::Bad(f) => s matches Scan::Bad(b) && blames(f, b),
    }
}

/// Whether what was found lies within the text and makes progress.
spec fn in_bounds(f: Found, i: int, n: int) -> bool {
    match f {
        Found::End => i >= n,
        Found::Skip(j) => i < j <= n,
        Found::Tok(t, j) => i < j <= n,
        Found::Bad(f) => f.at < n,
    }
}

fn lex_number(cs: &Vec<char>, i: usize) -> (r: Found)
    requires
        i < cs.len() < usize::MAX,
        is_digit(cs@[i as int]) || (cs@[i as int] == '.' && i + 1 < cs.len()),
    ensures
        found_is(r, number(cs@, i as int)),
        in_bounds(r, i as int, cs.len() as int),
{
    let whole = find_end(cs, i, CharClass::Digit);
    proof {
        if is_digit(cs@[i as int]) {
            lemma_end_of_from(cs@, i + 1, CharClass::Digit);
        }
    }
    let m = if is_char_at(cs, whole, '.') {
        find_end(cs, whole + 1, CharClass::Digit)
    } else {
        whole
    };
    let mantissa = text_of(cs, i, m);
    if is_char_at(cs, m, 'e') || is_char_at(cs, m, 'E') {
        let minus = is_char_at(cs, m + 1, '-');
        let signed = minus || is_char_at(cs, m + 1, '+');
        let start: usize = if signed { m + 2 } else { m + 1 };
        let end = find_end(cs, start, CharClass::Digit);
        if end > start {
            let mut sign = String::new();
            sign.push('E');
            if minus {
                sign.push('-');
            }
            let text = mantissa.concat(sign.as_str()).concat(text_of(cs, start, end).as_str());
            Found::Tok(Token::Number(text), end)
        } else if signed {
            Found::Bad(fault(m + 1, "missing required exponent"))
        } else {
            Found::Tok(Token::Number(mantissa), m)
        }
    } else {
        Found::Tok(Token::Number(mantissa), m)
    }
}

fn lex_parameter(cs: &Vec<char>, i: usize) -> (r: Found)
    requires
        i < cs.len() < usize::MAX,
    ensures
        found_is(r, parameter(cs@, i as int)),
        in_bounds(r, i as int, cs.len() as int),
{
    let j = find_end(cs, i + 1, CharClass::Digit);
    let ghost digits = cs@.subrange(i + 1, j as int);
    let mut n: usize = 0;
    let mut k: usize = i + 1;
    while k < j
        invariant
            i + 1 <= k <= j <= cs.len(),
            digits == cs@.subrange(i + 1, j as int),
            j == end_of(cs@, i + 1, CharClass::Digit),
            read_digits(digits, k - i - 1, n as int, usize::MAX as int) == read_digits(
                digits,
                0,
                0,
                usize::MAX as int,
            ),
        decreases j - k,
    {
        proof {
            lemma_end_of(cs@, i + 1, CharClass::Digit, k as int);
            assert(digits[k - i - 1] == cs@[k as int]);
        }
        let d: usize = (cs[k] as u32 - 48) as usize;
        if n > (usize::MAX - d) / 10 {
            return Found::Bad(fault(i, "invalid parameter number"));
        }
        n = n * 10 + d;
        k += 1;
    }
    Found::Tok(Token::Parameter(n), j)
}

proof fn lemma_end_of_from(s: Seq<char>, i: int, class: CharClass)
    ensures
        end_of(s, i, class) >= i,
    decreases s.len() - i,
{
    if 0 <= i < s.len() && in_class(s[i], class) {
        lemma_end_of_from(s, i + 1, class);
    }
}

proof fn lemma_end_of(s: Seq<char>, i: int, class: CharClass, k: int)
    requires
        0 <= i <= k < end_of(s, i, class),
    ensures
        0 <= k < s.len(),
        in_class(s[k], class),
    decreases s.len() - i,
{
    if i < s.len() && in_class(s[i], class) && i < k {
        lemma_end_of(s, i + 1, class, k);
    }
}

fn lex_dollar_string(cs: &Vec<char>, i: usize) -> (r: Found)
    requires
        i < cs.len() < usize::MAX,
    ensures
        found_is(r, dollar_string(cs@, i as int)),
        in_bounds(r, i as int, cs.len() as int),
{
    let j = find_end(cs, i + 1, CharClass::NotDollar);
    let mut tag: Vec<char> = Vec::new();
    let mut k: usize = i;
    while k < j
        invariant
            i <= k <= j <= cs.len(),
            tag@ == cs@.subrange(i as int, k as int),
        decreases j - k,
    {
        tag.push(cs[k]);
        k += 1;
        assert(cs@.subrange(i as int, k as int) =~= cs@.subrange(i as int, k - 1).push(cs@[k - 1]));
    }
    tag.push('$');
    if j == cs.len() {
        assert(find_text(cs@, j + 1, tag@) is None);
        Found::Bad(fault(i, "unterminated dollar-quoted string"))
    } else {
        match find_text_from(cs, j + 1, &tag) {
            Some(k) => Found::Tok(Token::String(text_of(cs, j + 1, k)), k + tag.len()),
            None => Found::Bad(fault(i, "unterminated dollar-quoted string")),
        }
    }
}

fn find_operator_end(cs: &Vec<char>, i: usize) -> (r: usize)
    requires
        i <= cs.len() < usize::MAX,
    ensures
        r == operator_end(cs@, i as int),
        i <= r <= cs.len(),
{
    let mut k: usize = i;
    while k < cs.len() && is_in_class(cs[k], CharClass::Operator) && !(cs[k] == '-' && is_char_at(
        cs,
        k + 1,
        '-',
    )) && !(cs[k] == '/' && is_char_at(cs, k + 1, '*'))
        invariant
            i <= k <= cs.len() < usize::MAX,
            operator_end(cs@, k as int) == operator_end(cs@, i as int),
        decreases cs.len() - k,
    {
        k += 1;
    }
    k
}

fn find_special(cs: &Vec<char>, i: usize, j: usize) -> (r: bool)
    requires
        i <= j <= cs.len(),
    ensures
        r == has_special(cs@, i as int, j as int),
{
    let mut k: usize = i;
    while k < j
        invariant
            i <= k <= j <= cs.len(),
            forall|m: int| i <= m < k ==> !is_special(#[trigger] cs@[m]),
        decreases j - k,
    {
        if special(cs[k]) {
            assert(is_special(cs@[k as int]));
            return true;
        }
        k += 1;
    }
    false
}

fn lex_op(cs: &Vec<char>, i: usize) -> (r: Found)
    requires
        i < cs.len() < usize::MAX,
        operator_end(cs@, i as int) > i,
    ensures
        ({
            let j = trimmed_operator(cs@, i as int, operator_end(cs@, i as int));
            found_is(r, Scan::Tok(operator_token(cs@.subrange(i as int, j)), j))
        }),
        in_bounds(r, i as int, cs.len() as int),
{
    let e = find_operator_end(cs, i);
    let mut j: usize = e;
    while j - i > 1 && (cs[j - 1] == '-' || cs[j - 1] == '+') && !find_special(cs, i, j)
        invariant
            i < j <= cs.len(),
            trimmed_operator(cs@, i as int, j as int) == trimmed_operator(cs@, i as int, e as int),
        decreases j,
    {
        j -= 1;
    }
    let op = text_of(cs, i, j);
    let token = if text_eq(op.as_str(), "*") {
        Token::Star
    } else if text_eq(op.as_str(), "=") {
        Token::Eq
    } else if text_eq(op.as_str(), "!=") {
        Token::Op(String::from_str("<>"))
    } else {
        Token::Op(op)
    };
    Found::Tok(token, j)
}

fn lex_ident(cs: &Vec<char>, i: usize) -> (r: Found)
    requires
        i < cs.len(),
        in_class(cs@[i as int], CharClass::IdentPart),
    ensures
        ({
            let j = end_of(cs@, i as int, CharClass::IdentPart);
            found_is(r, Scan::Tok(word_token(cs@.subrange(i as int, j)), j))
        }),
        in_bounds(r, i as int, cs.len() as int),
{
    proof {
        lemma_end_of_from(cs@, i + 1, CharClass::IdentPart);
    }
    let j = find_end(cs, i, CharClass::IdentPart);
    let word = text_of(cs, i, j);
    let token = match Keyword::parse(to_upper(word.as_str()).as_str()) {
        Some(k) => Token::Keyword(k),
        None => Token::Ident(to_lowercase(word.as_str())),
    };
    Found::Tok(token, j)
}

fn lex_string_token(cs: &Vec<char>, from: usize, open: usize, escapes: bool, hex: bool) -> (r: Found)
    requires
        open < from <= cs.len() < usize::MAX,
    ensures
        found_is(
            r,
            string_token(string_rest(cs@, from as int, no_text(), open as int, escapes), hex),
        ),
        in_bounds(r, open as int, cs.len() as int),
{
    match lex_string(cs, from, open, escapes) {
        Ok((text, j)) => {
            if hex {
                Found::Tok(Token::HexString(text), j)
            } else {
                Found::Tok(Token::String(text), j)
            }
        },
        Err(f) => Found::Bad(f),
    }
}

#[verifier::rlimit(50)]
fn scan_at(cs: &Vec<char>, i: usize) -> (r: Found)
    requires
        i <= cs.len() < usize::MAX,
    ensures
        found_is(r, scan(cs@, i as int)),
        in_bounds(r, i as int, cs.len() as int),
{
    proof {
        reveal(scan);
    }
    if i >= cs.len() {
        return Found::End;
    }
    let c = cs[i];
    let digit = '0' <= c && c <= '9';
    if is_in_class(c, CharClass::Space) {
        Found::Skip(i + 1)
    } else if c == '-' && is_char_at(cs, i + 1, '-') {
        Found::Skip(find_end(cs, i + 2, CharClass::NotNewline))
    } else if c == '/' && is_char_at(cs, i + 1, '*') {
        match find_comment_end(cs, i + 2) {
            Some(j) => Found::Skip(j),
            None => Found::Bad(fault(i, "unterminated multiline comment")),
        }
    } else if c == '\'' {
        lex_string_token(cs, i + 1, i, false, false)
    } else if (c == 'x' || c == 'X') && is_char_at(cs, i + 1, '\'') {
        lex_string_token(cs, i + 2, i + 1, false, true)
    } else if (c == 'e' || c == 'E') && is_char_at(cs, i + 1, '\'') {
        lex_string_token(cs, i + 2, i + 1, true, false)
    } else if is_in_class(c, CharClass::IdentPart) && !digit && c != '$' {
        lex_ident(cs, i)
    } else if c == '"' {
        match lex_quoted_ident(cs, i + 1, i) {
            Ok((text, j)) => Found::Tok(Token::Ident(text), j),
            Err(f) => Found::Bad(f),
        }
    } else if digit || (c == '.' && i + 1 < cs.len() && is_in_class(cs[i + 1], CharClass::Digit)) {
        lex_number(cs, i)
    } else if c == '$' {
        if i + 1 < cs.len() && is_in_class(cs[i + 1], CharClass::Digit) {
            lex_parameter(cs, i)
        } else {
            lex_dollar_string(cs, i)
        }
    } else if c == '(' {
        Found::Tok(Token::LParen, i + 1)
    } else if c == ')' {
        Found::Tok(Token::RParen, i + 1)
    } else if c == ',' {
        Found::Tok(Token::Comma, i + 1)
    } else if c == ';' {
        Found::Tok(Token::Semicolon, i + 1)
    } else if c == ':' {
        if is_char_at(cs, i + 1, ':') {
            Found::Tok(Token::DoubleColon, i + 2)
        } else {
            Found::Tok(Token::Colon, i + 1)
        }
    } else if c == '.' {
        Found::Tok(Token::Dot, i + 1)
    } else if c == '[' {
        Found::Tok(Token::LBracket, i + 1)
    } else if c == ']' {
        Found::Tok(Token::RBracket, i + 1)
    } else if is_in_class(c, CharClass::Operator) {
        assert(operator_end(cs@, i as int) == operator_end(cs@, i + 1));
        proof {
            lemma_operator_end(cs@, i + 1);
        }
        lex_op(cs, i)
    } else {
        let name = text_of(cs, i, i + 1);
        assert(cs@.subrange(i as int, i + 1) =~= seq![c]);
        Found::Bad(
            Fault {
                at: i,
                message: String::new().concat("unexpected character in input: ").concat(
                    quote(name.as_str()).as_str(),
                ),
            },
        )
    }
}

proof fn lemma_operator_end(s: Seq<char>, i: int)
    ensures
        operator_end(s, i) >= i,
    decreases s.len() - i,
{
    if 0 <= i < s.len() {
        lemma_operator_end(s, i + 1);
    }
}

/// How many bytes a character takes.
spec fn width(c: char) -> int {
    vstd::utf8::encode_scalar(c as u32).len() as int
}

proof fn lemma_byte_step(s: Seq<char>, i: int)
    requires
        0 <= i < s.len(),
    ensures
        encode_utf8(s.skip(i)).len() == width(s[i]) + encode_utf8(s.skip(i + 1)).len(),
        1 <= width(s[i]),
{
    assert(s.skip(i).drop_first() =~= s.skip(i + 1));
    assert(s.skip(i)[0] == s[i]);
    vstd::utf8::char_is_scalar(s[i]);
}

proof fn lemma_byte_bounds(s: Seq<char>, i: int)
    requires
        0 <= i <= s.len(),
    ensures
        i <= byte_at(s, i) <= encode_utf8(s).len(),
    decreases i,
{
    if i == 0 {
        assert(s.skip(0) =~= s);
    } else {
        lemma_byte_bounds(s, i - 1);
        lemma_byte_step(s, i - 1);
    }
}

fn char_width(c: char) -> (r: usize)
    ensures
        r == width(c),
{
    proof {
        vstd::utf8::char_is_scalar(c);
    }
    let v: u32 = c as u32;
    if v < 0x80 {
        1
    } else if v < 0x800 {
        2
    } else if v < 0x1_0000 {
        3
    } else {
        4
    }
}

fn offsets_of(sql: &str, cs: &Vec<char>) -> (r: Vec<usize>)
    requires
        cs@ == sql@,
    ensures
        r.len() == cs.len() + 1,
        forall|k: int| 0 <= k <= cs.len() ==> #[trigger] r@[k] == byte_at(sql@, k),
{
    let total = sql.as_bytes().len();
    let mut out: Vec<usize> = Vec::new();
    out.push(0);
    let mut k: usize = 0;
    assert(sql@.skip(0) =~= sql@);
    while k < cs.len()
        invariant
            k <= cs.len(),
            cs@ == sql@,
            total == encode_utf8(sql@).len(),
            out.len() == k + 1,
            forall|j: int| 0 <= j <= k ==> #[trigger] out@[j] == byte_at(sql@, j),
        decreases cs.len() - k,
    {
        proof {
            lemma_byte_step(sql@, k as int);
            lemma_byte_bounds(sql@, k + 1);
        }
        let w = char_width(cs[k]);
        let next: usize = out[k] + w;
        out.push(next);
        k += 1;
    }
    out
}

/// Splits a SQL text into tokens, each with the byte position at which it starts.
pub fn lex(sql: &str) -> (r: Result<Vec<(Token, usize)>, ParserError>)
    requires
        sql@.len() < usize::MAX,
    ensures
        match r {
            Ok(tokens) => {
                &&& tokens_of(sql@) == Ok::<Seq<(TokenView, int)>, Blame>(tokens_view(tokens))
                &&& tokens.len() <= sql@.len() <= encode_utf8(sql@).len()
                &&& forall|k: int|
                    0 <= k < tokens.len() ==> k <= (#[trigger] tokens@[k]).1 <= encode_utf8(sql@).len()
            },
            Err(e) => {
                &&& tokens_of(sql@) matches Err(b)
                &&& e@ == (byte_at(sql@, b.at), b.message)
                &&& e.pos <= encode_utf8(sql@).len()
            },
        },
{
    let cs = chars_of(sql);
    let offsets = offsets_of(sql, &cs);
    proof {
        lemma_byte_bounds(sql@, sql@.len() as int);
    }
    let mut tokens: Vec<(Token, usize)> = Vec::new();
    let mut i: usize = 0;
    proof {
        lemma_tokens_view(tokens);
        assert(tokens_view(tokens) =~= Seq::empty());
    }
    #[verifier::loop_isolation(false)]
    loop
        invariant
            i <= cs.len(),
            tokens.len() <= i,
            forall|k: int|
                0 <= k < tokens.len() ==> k <= (#[trigger] tokens@[k]).1 <= encode_utf8(sql@).len(),
            tokens_from(sql@, i as int, tokens_view(tokens)) == tokens_of(sql@),
        decreases cs.len() - i,
    {
        match scan_at(&cs, i) {
            Found::End => {
                return Ok(tokens);
            },
            Found::Skip(j) => {
                i = j;
            },
            Found::Tok(t, j) => {
                proof {
                    lemma_byte_bounds(sql@, i as int);
                }
                let ghost before = tokens;
                let ghost view = t@;
                tokens.push((t, offsets[i]));
                proof {
                    lemma_tokens_view(before);
                    lemma_tokens_view(tokens);
                    assert(tokens_view(tokens) =~= tokens_view(before).push((view, byte_at(sql@, i as int))));
                }
                i = j;
            },
            Found::Bad(f) => {
                proof {
                    lemma_byte_bounds(sql@, f.at as int);
                }
                return Err(ParserError::new(offsets[f.at], f.message));
            },
        }
    }
}

} // verus!
