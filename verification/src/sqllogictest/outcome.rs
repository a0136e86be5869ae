//! How a record of a test file comes out.

use vstd::prelude::*;

use crate::sql_parser::checks::{debug_str, debug_string};
use crate::sql_parser::text::{decimal, decimal_text, no_text, texts_view};
use crate::sqllogictest::ast::{location_text, Location, Output, OutputView};
use crate::sqllogictest::texts::{
    first_line, first_line_of, join, joined,
};

verus! {

/// An error and what caused it, from the outside in.
#[derive(Debug)]
pub struct ErrorChain {
    pub messages: Vec<String>,
}

impl View for ErrorChain {
    type V = Seq<Seq<char>>;

    open spec fn view(&self) -> Seq<Seq<char>> {
        texts_view(self.messages@)
    }
}

impl ErrorChain {
    /// An error that nothing else caused.
    pub fn of(message: String) -> (r: ErrorChain)
        ensures
            r@ == seq![message@],
    {
        let mut messages: Vec<String> = Vec::new();
        messages.push(message);
        let r = ErrorChain { messages };
        assert(r@ =~= seq![message@]);
        r
    }

    /// The outermost message.
    pub fn message(&self) -> (r: String)
        ensures
            r@ == top_message(self@),
    {
        if self.messages.len() > 0 {
            self.messages[0].clone()
        } else {
            String::new()
        }
    }

    /// The messages from the outside in, with colons between them.
    pub fn with_causes(&self) -> (r: String)
        ensures
            r@ == joined(self@, ": "@),
    {
        join(&self.messages, ": ")
    }
}

/// The outermost message of an error.
pub open spec fn top_message(chain: Seq<Seq<char>>) -> Seq<char> {
    if chain.len() > 0 {
        chain[0]
    } else {
        no_text()
    }
}

/// How a record comes out.
#[derive(Debug)]
pub enum Outcome {
    Unsupported { error: ErrorChain, location: Location },
    ParseFailure { error: ErrorChain, location: Location },
    PlanFailure { error: ErrorChain, location: Location },
    UnexpectedPlanSuccess { expected_error: String, location: Location },
    WrongNumberOfRowsInserted { expected_count: u64, actual_count: u64, location: Location },
    WrongColumnCount { expected_count: usize, actual_count: usize, location: Location },
    WrongColumnNames {
        expected_column_names: Vec<String>,
        actual_column_names: Vec<String>,
        location: Location,
    },
    OutputFailure {
        expected_output: Output,
        /// The rows as the client shows them.
        actual_raw_output: String,
        actual_output: Output,
        location: Location,
    },
    Bail { cause: Box<Outcome>, location: Location },
    Success,
}

/// What an [`Outcome`] stands for.
pub enum OutcomeView {
    Unsupported { error: Seq<Seq<char>>, location: (Seq<char>, usize) },
    ParseFailure { error: Seq<Seq<char>>, location: (Seq<char>, usize) },
    PlanFailure { error: Seq<Seq<char>>, location: (Seq<char>, usize) },
    UnexpectedPlanSuccess { expected_error: Seq<char>, location: (Seq<char>, usize) },
    WrongNumberOfRowsInserted {
        expected_count: u64,
        actual_count: u64,
        location: (Seq<char>, usize),
    },
    WrongColumnCount { expected_count: usize, actual_count: usize, location: (Seq<char>, usize) },
    WrongColumnNames {
        expected_column_names: Seq<Seq<char>>,
        actual_column_names: Seq<Seq<char>>,
        location: (Seq<char>, usize),
    },
    OutputFailure {
        expected_output: OutputView,
        actual_raw_output: Seq<char>,
        actual_output: OutputView,
        location: (Seq<char>, usize),
    },
    Bail { cause: Box<OutcomeView>, location: (Seq<char>, usize) },
    Success,
}

/// What an outcome stands for.
pub open spec fn outcome_view(o: Outcome) -> OutcomeView
    decreases o,
{
    match o {
        Outcome::Unsupported { error, location } => OutcomeView::Unsupported {
            error: error@,
            location: location@,
        },
        Outcome::ParseFailure { error, location } => OutcomeView::ParseFailure {
            error: error@,
            location: location@,
        },
        Outcome::PlanFailure { error, location } => OutcomeView::PlanFailure {
            error: error@,
            location: location@,
        },
        Outcome::UnexpectedPlanSuccess { expected_error, location } =>
            OutcomeView::UnexpectedPlanSuccess {
            expected_error: expected_error@,
            location: location@,
        },
        Outcome::WrongNumberOfRowsInserted { expected_count, actual_count, location } =>
            OutcomeView::WrongNumberOfRowsInserted {
            expected_count,
            actual_count,
            location: location@,
        },
        Outcome::WrongColumnCount { expected_count, actual_count, location } =>
            OutcomeView::WrongColumnCount { expected_count, actual_count, location: location@ },
        Outcome::WrongColumnNames { expected_column_names, actual_column_names, location } =>
            OutcomeView::WrongColumnNames {
            expected_column_names: texts_view(expected_column_names@),
            actual_column_names: texts_view(actual_column_names@),
            location: location@,
        },
        Outcome::OutputFailure { expected_output, actual_raw_output, actual_output, location } =>
            OutcomeView::OutputFailure {
            expected_output: expected_output@,
            actual_raw_output: actual_raw_output@,
            actual_output: actual_output@,
            location: location@,
        },
        Outcome::Bail { cause, location } => OutcomeView::Bail {
            cause: Box::new(outcome_view(*cause)),
            location: location@,
        },
        Outcome::Success => OutcomeView::Success,
    }
}

impl View for Outcome {
    type V = OutcomeView;

    open spec fn view(&self) -> OutcomeView {
        outcome_view(*self)
    }
}

/// How many kinds of outcomes there are.
pub const NUM_OUTCOMES: usize = 10;

/// The code of the outcome that is a success.
pub const SUCCESS_OUTCOME: usize = 9;

/// The code of an outcome, by which outcomes are counted.
pub open spec fn outcome_code(o: OutcomeView) -> int {
    match o {
        OutcomeView::Unsupported { .. } => 0,
        OutcomeView::ParseFailure { .. } => 1,
        OutcomeView::PlanFailure { .. } => 2,
        OutcomeView::UnexpectedPlanSuccess { .. } => 3,
        OutcomeView::WrongNumberOfRowsInserted { .. } => 4,
        OutcomeView::WrongColumnCount { .. } => 5,
        OutcomeView::WrongColumnNames { .. } => 6,
        OutcomeView::OutputFailure { .. } => 7,
        OutcomeView::Bail { .. } => 8,
        OutcomeView::Success => 9,
    }
}

/// Whether a character means something else than itself in a regular expression.
pub open spec fn is_meta(c: char) -> bool {
    c == '\\' || c == '.' || c == '+' || c == '*' || c == '?' || c == '(' || c == ')' || c == '|' || c
        == '[' || c == ']' || c == '{' || c == '}' || c == '^' || c == '$' || c == '#' || c == '&' || c
        == '-' || c == '~'
}

/// `s` with a backslash before each character that means something else than
/// itself in a regular expression.
pub open spec fn escaped(s: Seq<char>) -> Seq<char>
    decreases s.len(),
{
    if s.len() == 0 {
        no_text()
    } else if is_meta(s.last()) {
        escaped(s.drop_last()).push('\\').push(s.last())
    } else {
        escaped(s.drop_last()).push(s.last())
    }
}

/// `regex::escape` puts a backslash before each meta character.
#[verifier::external_body]
fn escape(s: &str) -> (r: String)
    ensures
        r@ == escaped(s@),
{
    regex::escape(s)
}

/// The message of an outcome with an error, as a regular expression that matches it.
pub open spec fn error_pattern(o: OutcomeView) -> Option<Seq<char>> {
    match o {
        OutcomeView::Unsupported { error, .. }
        | OutcomeView::ParseFailure { error, .. }
        | OutcomeView::PlanFailure { error, .. } => Some(escaped(first_line(top_message(error)))),
        _ => None,
    }
}

/// How texts are shown in a message about values.
pub open spec fn debug_list(texts: Seq<Seq<char>>) -> Seq<char> {
    no_text() + "["@ + joined(Seq::new(texts.len(), |k: int| debug_str(texts[k])), ", "@) + "]"@
}

/// How an output is shown in a message.
pub open spec fn output_debug(o: OutputView) -> Seq<char> {
    match o {
        OutputView::Values(vs) => no_text() + "Values("@ + debug_list(vs) + ")"@,
        OutputView::Hashed { num_values, md5 } => no_text() + "Hashed { num_values: "@ + decimal(
            num_values as nat,
        ) + ", md5: "@ + debug_str(md5) + " }"@,
    }
}

/// How an outcome is shown.
pub open spec fn outcome_text(o: OutcomeView) -> Seq<char>
    decreases o,
{
    match o {
        OutcomeView::Unsupported { error, location } => no_text() + "Unsupported:"@ + location_text(
            location,
        ) + ":\n"@ + joined(error, ": "@),
        OutcomeView::ParseFailure { error, location } => no_text() + "ParseFailure:"@ + location_text(
            location,
        ) + ":\n"@ + joined(error, ": "@),
        OutcomeView::PlanFailure { error, location } => no_text() + "PlanFailure:"@ + location_text(
            location,
        ) + ":\n"@ + joined(error, ": "@),
        OutcomeView::UnexpectedPlanSuccess { expected_error, location } => no_text()
            + "UnexpectedPlanSuccess:"@ + location_text(location) + " expected error: "@ + expected_error,
        OutcomeView::WrongNumberOfRowsInserted { expected_count, actual_count, location } => no_text()
            + "WrongNumberOfRowsInserted:"@ + location_text(location) + "\n        expected: "@ + decimal(
            expected_count as nat,
        ) + "\n        actually: "@ + decimal(actual_count as nat),
        OutcomeView::WrongColumnCount { expected_count, actual_count, location } => no_text()
            + "WrongColumnCount:"@ + location_text(location) + "\n        expected: "@ + decimal(
            expected_count as nat,
        ) + "\n        actually: "@ + decimal(actual_count as nat),
        OutcomeView::WrongColumnNames { expected_column_names, actual_column_names, location } =>
            no_text() + "Wrong Column Names:"@ + location_text(location)
            + ":\n        expected column names: "@ + joined(expected_column_names, " "@)
            + "\n        inferred column names: "@ + joined(actual_column_names, " "@),
        OutcomeView::OutputFailure { expected_output, actual_raw_output, actual_output, location } =>
            no_text() + "OutputFailure:"@ + location_text(location) + "\n        expected: "@
            + output_debug(expected_output) + "\n        actually: "@ + output_debug(actual_output)
            + "\n        actual raw: "@ + actual_raw_output,
        OutcomeView::Bail { cause, location } => no_text() + "Bail:"@ + location_text(location) + " "@
            + outcome_text(*cause),
        OutcomeView::Success => "Success"@,
    }
}

fn debug_list_string(texts: &Vec<String>) -> (r: String)
    ensures
        r@ == debug_list(texts_view(texts@)),
{
    let mut shown: Vec<String> = Vec::new();
    let mut k: usize = 0;
    while k < texts.len()
        invariant
            k <= texts.len(),
            shown.len() == k,
            forall|j: int| 0 <= j < k ==> (#[trigger] shown@[j])@ == debug_str(texts@[j]@),
        decreases texts.len() - k,
    {
        shown.push(debug_string(texts[k].as_str()));
        k += 1;
    }
    let ghost t = texts_view(texts@);
    assert(texts_view(shown@) =~= Seq::new(t.len(), |j: int| debug_str(t[j])));
    String::new().concat("[").concat(join(&shown, ", ").as_str()).concat("]")
}

fn output_string(o: &Output) -> (r: String)
    ensures
        r@ == output_debug(o@),
{
    match o {
        Output::Values(vs) => String::new().concat("Values(").concat(
            debug_list_string(vs).as_str(),
        ).concat(")"),
        Output::Hashed { num_values, md5 } => String::new().concat("Hashed { num_values: ").concat(
            decimal_text(*num_values as u64).as_str(),
        ).concat(", md5: ").concat(debug_string(md5.as_str()).as_str()).concat(" }"),
    }
}

impl Outcome {
    /// The code by which the outcome is counted.
    pub fn code(&self) -> (r: usize)
        ensures
            r == outcome_code(self@),
            r < NUM_OUTCOMES,
    {
        match self {
            Outcome::Unsupported { .. } => 0,
            Outcome::ParseFailure { .. } => 1,
            Outcome::PlanFailure { .. } => 2,
            Outcome::UnexpectedPlanSuccess { .. } => 3,
            Outcome::WrongNumberOfRowsInserted { .. } => 4,
            Outcome::WrongColumnCount { .. } => 5,
            Outcome::WrongColumnNames { .. } => 6,
            Outcome::OutputFailure { .. } => 7,
            Outcome::Bail { .. } => 8,
            Outcome::Success => 9,
        }
    }

    /// Whether the outcome is a success.
    pub fn success(&self) -> (r: bool)
        ensures
            r == (self@ is Success),
    {
        match self {
            Outcome::Success => true,
            _ => false,
        }
    }

    /// Returns an error message that will match self. Appropriate for
    /// rewriting error messages (i.e. not inserting error messages where we
    /// currently expect success). Only the first line of the message is taken, which
    /// should be sufficient for meaningfully matching the error.
    pub fn err_msg(&self) -> (r: Option<String>)
        ensures
            match r {
                Some(s) => error_pattern(self@) == Some(s@),
                None => error_pattern(self@) is None,
            },
    {
        match self {
            Outcome::Unsupported { error, .. }
            | Outcome::ParseFailure { error, .. }
            | Outcome::PlanFailure { error, .. } => {
                let message = error.message();
                Some(escape(first_line_of(message.as_str()).as_str()))
            },
            _ => None,
        }
    }

    /// How the outcome is shown.
    pub fn to_text(&self) -> (r: String)
        ensures
            r@ == outcome_text(self@),
        decreases self,
    {
        match self {
            Outcome::Unsupported { error, location } => String::new().concat("Unsupported:").concat(
                location.to_text().as_str(),
            ).concat(":\n").concat(error.with_causes().as_str()),
            Outcome::ParseFailure { error, location } => String::new().concat("ParseFailure:").concat(
                location.to_text().as_str(),
            ).concat(":\n").concat(error.with_causes().as_str()),
            Outcome::PlanFailure { error, location } => String::new().concat("PlanFailure:").concat(
                location.to_text().as_str(),
            ).concat(":\n").concat(error.with_causes().as_str()),
            Outcome::UnexpectedPlanSuccess { expected_error, location } => String::new().concat(
                "UnexpectedPlanSuccess:",
            ).concat(location.to_text().as_str()).concat(" expected error: ").concat(
                expected_error.as_str(),
            ),
            Outcome::WrongNumberOfRowsInserted { expected_count, actual_count, location } =>
                String::new().concat("WrongNumberOfRowsInserted:").concat(
                location.to_text().as_str(),
            ).concat("\n        expected: ").concat(decimal_text(*expected_count).as_str()).concat(
                "\n        actually: ",
            ).concat(decimal_text(*actual_count).as_str()),
            Outcome::WrongColumnCount { expected_count, actual_count, location } =>
                String::new().concat("WrongColumnCount:").concat(location.to_text().as_str()).concat(
                "\n        expected: ",
            ).concat(decimal_text(*expected_count as u64).as_str()).concat("\n        actually: ").concat(
                decimal_text(*actual_count as u64).as_str(),
            ),
            Outcome::WrongColumnNames { expected_column_names, actual_column_names, location } =>
                String::new().concat("Wrong Column Names:").concat(
                location.to_text().as_str(),
            ).concat(":\n        expected column names: ").concat(
                join(expected_column_names, " ").as_str(),
            ).concat("\n        inferred column names: ").concat(join(actual_column_names, " ").as_str()),
            Outcome::OutputFailure { expected_output, actual_raw_output, actual_output, location } =>
                String::new().concat("OutputFailure:").concat(location.to_text().as_str()).concat(
                "\n        expected: ",
            ).concat(output_string(expected_output).as_str()).concat("\n        actually: ").concat(
                output_string(actual_output).as_str(),
            ).concat("\n        actual raw: ").concat(actual_raw_output.as_str()),
            Outcome::Bail { cause, location } => String::new().concat("Bail:").concat(
                location.to_text().as_str(),
            ).concat(" ").concat(cause.to_text().as_str()),
            Outcome::Success => String::from_str("Success"),
        }
    }
}

/// How often each kind of outcome came up.
#[derive(Debug, PartialEq, Eq)]
pub struct Outcomes(pub [usize; 10]);

/// The sum of the first `n` counts.
pub open spec fn sum_counts(counts: Seq<usize>, n: int) -> int
    decreases n,
{
    if n <= 0 || n > counts.len() {
        0
    } else {
        sum_counts(counts, n - 1) + counts[n - 1]
    }
}

impl View for Outcomes {
    type V = Seq<usize>;

    open spec fn view(&self) -> Seq<usize> {
        self.0@
    }
}

impl Outcomes {
    /// How many outcomes there were.
    pub open spec fn total(self) -> int {
        sum_counts(self@, NUM_OUTCOMES as int)
    }

    /// No outcomes.
    pub fn none() -> (r: Outcomes)
        ensures
            r@ == Seq::new(10, |k: int| 0usize),
    {
        let r = Outcomes([0, 0, 0, 0, 0, 0, 0, 0, 0, 0]);
        assert(r@ =~= Seq::new(10, |k: int| 0usize));
        r
    }
}

impl Default for Outcomes {
    fn default() -> (r: Outcomes)
        ensures
            r@ == Seq::new(10, |k: int| 0usize),
    {
        Outcomes::none()
    }
}

/// How each kind of outcome is named in a summary.
pub open spec fn outcome_name(code: int) -> Seq<char> {
    if code == 0 {
        "unsupported"@
    } else if code == 1 {
        "parse-failure"@
    } else if code == 2 {
        "plan-failure"@
    } else if code == 3 {
        "unexpected-plan-success"@
    } else if code == 4 {
        "wrong-number-of-rows-inserted"@
    } else if code == 5 {
        "wrong-column-count"@
    } else if code == 6 {
        "wrong-column-names"@
    } else if code == 7 {
        "output-failure"@
    } else if code == 8 {
        "bail"@
    } else {
        "success"@
    }
}

/// How each kind of outcome is named in JSON.
pub open spec fn outcome_key(code: int) -> Seq<char> {
    if code == 0 {
        "unsupported"@
    } else if code == 1 {
        "parse_failure"@
    } else if code == 2 {
        "plan_failure"@
    } else if code == 3 {
        "unexpected_plan_success"@
    } else if code == 4 {
        "wrong_number_of_rows_affected"@
    } else if code == 5 {
        "wrong_column_count"@
    } else if code == 6 {
        "wrong_column_names"@
    } else if code == 7 {
        "output_failure"@
    } else if code == 8 {
        "bail"@
    } else {
        "success"@
    }
}

fn name_of(code: usize) -> (r: &'static str)
    ensures
        r@ == outcome_name(code as int),
{
    if code == 0 {
        "unsupported"
    } else if code == 1 {
        "parse-failure"
    } else if code == 2 {
        "plan-failure"
    } else if code == 3 {
        "unexpected-plan-success"
    } else if code == 4 {
        "wrong-number-of-rows-inserted"
    } else if code == 5 {
        "wrong-column-count"
    } else if code == 6 {
        "wrong-column-names"
    } else if code == 7 {
        "output-failure"
    } else if code == 8 {
        "bail"
    } else {
        "success"
    }
}

fn key_of(code: usize) -> (r: &'static str)
    ensures
        r@ == outcome_key(code as int),
{
    if code == 0 {
        "unsupported"
    } else if code == 1 {
        "parse_failure"
    } else if code == 2 {
        "plan_failure"
    } else if code == 3 {
        "unexpected_plan_success"
    } else if code == 4 {
        "wrong_number_of_rows_affected"
    } else if code == 5 {
        "wrong_column_count"
    } else if code == 6 {
        "wrong_column_names"
    } else if code == 7 {
        "output_failure"
    } else if code == 8 {
        "bail"
    } else {
        "success"
    }
}

proof fn lemma_sum_monotone(counts: Seq<usize>, n: int, m: int)
    requires
        0 <= n <= m <= counts.len(),
    ensures
        0 <= sum_counts(counts, n) <= sum_counts(counts, m),
    decreases m,
{
    if n < m {
        lemma_sum_monotone(counts, n, m - 1);
    } else if n > 0 {
        lemma_sum_monotone(counts, n - 1, n - 1);
    }
}

proof fn lemma_sum_split(counts: Seq<usize>, k: int, m: int)
    requires
        0 <= k < m <= counts.len(),
    ensures
        counts[k] <= sum_counts(counts, m),
        counts[k] == sum_counts(counts, m) ==> forall|j: int|
            0 <= j < m && j != k ==> #[trigger] counts[j] == 0,
        (forall|j: int| 0 <= j < m && j != k ==> #[trigger] counts[j] == 0) ==> counts[k]
            == sum_counts(counts, m),
    decreases m,
{
    lemma_sum_monotone(counts, 0, m - 1);
    if k == m - 1 {
        lemma_sum_zero(counts, m - 1);
    } else {
        lemma_sum_split(counts, k, m - 1);
    }
}

proof fn lemma_sum_zero(counts: Seq<usize>, m: int)
    requires
        0 <= m <= counts.len(),
    ensures
        (sum_counts(counts, m) == 0) == (forall|j: int| 0 <= j < m ==> #[trigger] counts[j] == 0),
    decreases m,
{
    lemma_sum_monotone(counts, 0, m);
    if m > 0 {
        lemma_sum_monotone(counts, 0, m - 1);
        lemma_sum_zero(counts, m - 1);
    }
}

/// Some outcome is a failure exactly where there is one that is no success.
pub proof fn law_any_failed(o: Outcomes)
    ensures
        (o@[SUCCESS_OUTCOME as int] < o.total()) == (exists|k: int|
            0 <= k < SUCCESS_OUTCOME && #[trigger] o@[k] > 0),
{
    lemma_sum_split(o@, SUCCESS_OUTCOME as int, NUM_OUTCOMES as int);
    if o@[SUCCESS_OUTCOME as int] < o.total() {
        assert(exists|k: int| 0 <= k < NUM_OUTCOMES && k != SUCCESS_OUTCOME && #[trigger] o@[k] != 0);
    } else if exists|k: int| 0 <= k < SUCCESS_OUTCOME && #[trigger] o@[k] > 0 {
        let k = choose|k: int| 0 <= k < SUCCESS_OUTCOME && #[trigger] o@[k] > 0;
        assert(o@[k] == 0);
    }
}

/// The counts of two tallies taken together.
pub open spec fn added(a: Seq<usize>, b: Seq<usize>) -> Seq<usize> {
    Seq::new(10, |k: int| (a[k] + b[k]) as usize)
}

impl Outcomes {
    fn sum(&self) -> (r: usize)
        requires
            self.total() <= usize::MAX,
        ensures
            r == self.total(),
    {
        let mut n: usize = 0;
        let mut sum: usize = 0;
        while n < 10
            invariant
                n <= 10,
                sum == sum_counts(self@, n as int),
                self.total() <= usize::MAX,
            decreases 10 - n,
        {
            proof {
                lemma_sum_monotone(self@, n + 1, 10);
            }
            sum = sum + self.0[n];
            n += 1;
        }
        sum
    }

    /// Counts the outcomes of `rhs` too.
    pub fn add_assign(&mut self, rhs: Outcomes)
        requires
            forall|k: int| 0 <= k < 10 ==> old(self)@[k] + #[trigger] rhs@[k] <= usize::MAX,
        ensures
            final(self)@ == added(old(self)@, rhs@),
    {
        let ghost before = self@;
        let mut n: usize = 0;
        while n < 10
            invariant
                n <= 10,
                before.len() == 10,
                forall|k: int| 0 <= k < 10 ==> before[k] + #[trigger] rhs@[k] <= usize::MAX,
                forall|k: int| 0 <= k < n ==> #[trigger] self@[k] == before[k] + rhs@[k],
                forall|k: int| n <= k < 10 ==> #[trigger] self@[k] == before[k],
            decreases 10 - n,
        {
            assert(before[n as int] + rhs@[n as int] <= usize::MAX);
            assert(self@[n as int] == before[n as int]);
            let sum: usize = self.0[n] + rhs.0[n];
            self.0[n] = sum;
            n += 1;
        }
        assert(self@ =~= added(before, rhs@));
    }

    /// Counts one more outcome with the given code.
    pub fn count(&mut self, code: usize)
        requires
            code < NUM_OUTCOMES,
            old(self)@[code as int] < usize::MAX,
        ensures
            final(self)@ == old(self)@.update(code as int, (old(self)@[code as int] + 1) as usize),
    {
        let ghost before = self@;
        let more: usize = self.0[code] + 1;
        self.0[code] = more;
        assert(self@ =~= before.update(code as int, more));
    }

    /// Whether some outcome is a failure.
    pub fn any_failed(&self) -> (r: bool)
        requires
            self.total() <= usize::MAX,
        ensures
            r == (self@[SUCCESS_OUTCOME as int] < self.total()),
    {
        self.0[SUCCESS_OUTCOME] < self.sum()
    }

    /// The counts under the names that JSON has for them.
    pub fn as_json(&self) -> (r: Vec<(String, usize)>)
        ensures
            r.len() == NUM_OUTCOMES,
            forall|k: int|
                0 <= k < NUM_OUTCOMES ==> (#[trigger] r@[k]).0@ == outcome_key(k) && r@[k].1 == self@[k],
    {
        let mut entries: Vec<(String, usize)> = Vec::new();
        let mut n: usize = 0;
        while n < 10
            invariant
                n <= 10,
                entries.len() == n,
                forall|k: int|
                    0 <= k < n ==> (#[trigger] entries@[k]).0@ == outcome_key(k) && entries@[k].1
                        == self@[k],
            decreases 10 - n,
        {
            entries.push((String::from_str(key_of(n)), self.0[n]));
            n += 1;
        }
        entries
    }

    /// The outcomes with how they are to be shown.
    pub fn display(&self, no_fail: bool) -> (r: OutcomesDisplay<'_>)
        ensures
            r.inner == self,
            r.no_fail == no_fail,
    {
        OutcomesDisplay { inner: self, no_fail }
    }
}

/// Outcomes to be shown.
pub struct OutcomesDisplay<'a> {
    pub inner: &'a Outcomes,
    pub no_fail: bool,
}

/// How a summary starts: whether all is well.
pub open spec fn verdict(o: Outcomes, no_fail: bool) -> Seq<char> {
    if o@[SUCCESS_OUTCOME as int] == o.total() {
        "PASS"@
    } else if no_fail {
        "FAIL-IGNORE"@
    } else {
        "FAIL"@
    }
}

/// The counts above zero among the first `n`, each with its name.
pub open spec fn counted(counts: Seq<usize>, n: int) -> Seq<char>
    decreases n,
{
    if n <= 0 || n > counts.len() {
        no_text()
    } else if counts[n - 1] > 0 {
        counted(counts, n - 1) + " "@ + outcome_name(n - 1) + "="@ + decimal(counts[n - 1] as nat)
    } else {
        counted(counts, n - 1)
    }
}

/// A summary of outcomes.
pub open spec fn summary(o: Outcomes, no_fail: bool) -> Seq<char> {
    no_text() + verdict(o, no_fail) + ":"@ + counted(o@, NUM_OUTCOMES as int) + " total="@ + decimal(
        o.total() as nat,
    )
}

impl<'a> OutcomesDisplay<'a> {
    /// A summary of the outcomes.
    pub fn to_text(&self) -> (r: String)
        requires
            self.inner.total() <= usize::MAX,
        ensures
            r@ == summary(*self.inner, self.no_fail),
    {
        let total = self.inner.sum();
        let head = if self.inner.0[SUCCESS_OUTCOME] == total {
            "PASS"
        } else if self.no_fail {
            "FAIL-IGNORE"
        } else {
            "FAIL"
        };
        let mut counts = String::new();
        let mut n: usize = 0;
        while n < 10
            invariant
                n <= 10,
                counts@ == counted(self.inner@, n as int),
            decreases 10 - n,
        {
            let c = self.inner.0[n];
            if c > 0 {
                counts = counts.concat(" ").concat(name_of(n)).concat("=").concat(
                    decimal_text(c as u64).as_str(),
                );
            }
            n += 1;
        }
        String::new().concat(head).concat(":").concat(counts.as_str()).concat(" total=").concat(
            decimal_text(total as u64).as_str(),
        )
    }
}

} // verus!
