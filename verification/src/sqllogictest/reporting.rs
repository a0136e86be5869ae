//! What holds of how outcomes are reported.

use vstd::prelude::*;

use crate::sqllogictest::outcome::{counted, law_any_failed, verdict, Outcomes, SUCCESS_OUTCOME};
use crate::sqllogictest::texts::indent_lines;

verus! {

/// A text in which no line ends stays as it is, and behind each line break stand the spaces that
/// are asked for.
pub proof fn law_indented(s: Seq<char>, t: Seq<char>, n: nat)
    ensures
        !s.contains('\n') ==> indent_lines(s, n) == s,
        indent_lines(s + seq!['\n'] + t, n) == indent_lines(s, n) + seq!['\n'] + Seq::new(n, |k: int| ' ')
            + indent_lines(t, n),
    decreases s.len() + t.len(),
{
    let nl = seq!['\n'];
    let w = s + nl + t;
    if t.len() == 0 {
        assert(w =~= s.push('\n'));
        assert(w.drop_last() =~= s);
        assert(indent_lines(w, n) =~= indent_lines(s, n) + nl + Seq::new(n, |k: int| ' ') + indent_lines(t, n));
    } else {
        law_indented(s, t.drop_last(), n);
        assert(w.drop_last() =~= s + nl + t.drop_last());
        assert(w.last() == t.last());
        assert(indent_lines(w, n) =~= indent_lines(s, n) + nl + Seq::new(n, |k: int| ' ') + indent_lines(t, n));
    }
    if !s.contains('\n') && s.len() > 0 {
        assert forall|k: int| 0 <= k < s.drop_last().len() implies s.drop_last()[k] != '\n' by {
            assert(s.contains(s[k]));
        }
        assert(s.contains(s.last())) by {
            assert(s[s.len() - 1] == s.last());
        }
        law_indented(s.drop_last(), Seq::empty(), n);
        assert(s.drop_last().push(s.last()) =~= s);
    }
}

/// All is well exactly where no outcome but success was counted; what is not well is a failure
/// unless failures are to be ignored.
pub proof fn law_verdict(o: Outcomes, no_fail: bool)
    requires
        o@[SUCCESS_OUTCOME as int] <= o.total(),
    ensures
        (forall|k: int| 0 <= k < SUCCESS_OUTCOME ==> #[trigger] o@[k] == 0) ==> verdict(o, no_fail) == "PASS"@,
        (exists|k: int| 0 <= k < SUCCESS_OUTCOME && #[trigger] o@[k] > 0) && !no_fail ==> verdict(o, no_fail)
            == "FAIL"@,
        (exists|k: int| 0 <= k < SUCCESS_OUTCOME && #[trigger] o@[k] > 0) && no_fail ==> verdict(o, no_fail)
            == "FAIL-IGNORE"@,
{
    law_any_failed(o);
}

/// A summary names each outcome that was counted, with its count, and no other.
pub proof fn law_counts_named(counts: Seq<usize>, n: int)
    requires
        0 < n <= counts.len(),
    ensures
        counts[n - 1] == 0 ==> counted(counts, n) == counted(counts, n - 1),
        counts[n - 1] > 0 ==> counted(counts, n - 1).is_prefix_of(counted(counts, n)) && counted(counts, n).len()
            > counted(counts, n - 1).len(),
{
    reveal_strlit("=");
    if counts[n - 1] > 0 {
        let a = counted(counts, n - 1);
        assert(counted(counts, n).subrange(0, a.len() as int) =~= a);
    }
}

} // verus!
