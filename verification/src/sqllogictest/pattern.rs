//! Matching messages against expected errors.

use vstd::prelude::*;
use vstd::utf8::encode_utf8;

use crate::sqllogictest::outcome::{
    error_pattern, escaped, top_message, Outcome, OutcomeView,
};
use crate::sqllogictest::texts::{char_from, first_line};

verus! {

/// Whether a regular expression matches a text somewhere, or why it is no regular expression.
pub uninterp spec fn regex_search(pattern: Seq<char>, text: Seq<char>) -> Result<bool, Seq<char>>;

/// Whether `part` occurs in `text`.
pub open spec fn occurs(text: Seq<char>, part: Seq<char>) -> bool {
    exists|i: int|
        0 <= i <= text.len() - part.len() && #[trigger] text.subrange(i, i + part.len()) == part
}

/// How many bytes a text may have that makes a regular expression once it is escaped: compiled, a
/// regular expression may take ten times 2^20 bytes. Each byte of a plain text takes 32 of them,
/// and what stands around it 200.
pub open spec fn plain_limit() -> nat {
    327_673
}

/// Whether a search for a text within the limit, escaped, tells if the text occurs.
pub open spec fn finds_plain_text(pattern: Seq<char>, text: Seq<char>, r: Result<bool, String>) -> bool {
    forall|s: Seq<char>|
        encode_utf8(s).len() <= plain_limit() && pattern == #[trigger] escaped(s) ==> r == Ok::<bool, String>(
            occurs(text, s),
        )
}

/// `regex::Regex::new` followed by `is_match`. The result depends on the regular expression
/// and the text alone. What `regex::escape` makes of a text is a regular expression that matches
/// where the text occurs, unless it is too large to be compiled.
#[verifier::external_body]
fn regex_is_match(pattern: &str, text: &str) -> (r: Result<bool, String>)
    ensures
        match r {
            Ok(b) => regex_search(pattern@, text@) == Ok::<bool, Seq<char>>(b),
            Err(e) => regex_search(pattern@, text@) == Err::<bool, Seq<char>>(e@),
        },
        finds_plain_text(pattern@, text@, r),
{
    regex::Regex::new(pattern).map(|re| re.is_match(text)).map_err(|e| e.to_string())
}

/// Whether a regular expression matches a text somewhere, or why it is no regular expression.
pub fn is_match(pattern: &str, text: &str) -> (r: Result<bool, String>)
    ensures
        match r {
            Ok(b) => regex_search(pattern@, text@) == Ok::<bool, Seq<char>>(b),
            Err(e) => regex_search(pattern@, text@) == Err::<bool, Seq<char>>(e@),
        },
        finds_plain_text(pattern@, text@, r),
{
    regex_is_match(pattern, text)
}

/// Whether an outcome's own error message matches the outcome: it does, wherever there is one
/// that is not too large to be compiled.
pub fn err_msg_matches(o: &Outcome) -> (r: Option<Result<bool, String>>)
    ensures
        r is Some == error_pattern(o@) is Some,
        match o@ {
            OutcomeView::Unsupported { error, .. }
            | OutcomeView::ParseFailure { error, .. }
            | OutcomeView::PlanFailure { error, .. } => encode_utf8(
                first_line(top_message(error)),
            ).len() <= plain_limit() ==> r == Some(Ok::<bool, String>(true)),
            _ => true,
        },
{
    let pattern = match o.err_msg() {
        Some(p) => p,
        None => {
            return None;
        },
    };
    let message = match o {
        Outcome::Unsupported { error, .. }
        | Outcome::ParseFailure { error, .. }
        | Outcome::PlanFailure { error, .. } => error.message(),
        _ => String::new(),
    };
    proof {
        lemma_char_from(message@, 0, '\n');
        let line = first_line(message@);
        assert(message@.subrange(0, 0 + line.len() as int) =~= line);
        assert(occurs(message@, line));
    }
    Some(regex_is_match(pattern.as_str(), message.as_str()))
}

proof fn lemma_char_from(s: Seq<char>, i: int, c: char)
    requires
        0 <= i <= s.len(),
    ensures
        i <= char_from(s, i, c) <= s.len(),
    decreases s.len() - i,
{
    if i < s.len() && s[i] != c {
        lemma_char_from(s, i + 1, c);
    }
}

} // verus!
