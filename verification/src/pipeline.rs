//! The build pipeline's aggregation: per-unit compile results, the
//! completion report, and the rule that linking happens only when every
//! translation unit compiled.

use vstd::prelude::*;
use crate::strutil::ends_with_spec;
use crate::strutil::str_ends_with;

verus! {

/// Whether a build hook names a script for the embedded scripting engine
/// rather than a shell command.
pub fn is_rhai_script(script: &str) -> (r: bool)
    ensures
        r == ends_with_spec(script@, ".rhai"@),
{
    str_ends_with(script, ".rhai")
}

/// What compiling one translation unit produced.
pub struct BuildResult {
    pub success: bool,
    pub stdout: String,
    pub stderr: String,
}

/// How many units compiled.
pub open spec fn spec_count_success(rs: Seq<BuildResult>) -> int
    decreases rs.len(),
{
    if rs.len() == 0 {
        0
    } else {
        spec_count_success(rs.drop_last()) + if rs.last().success {
            1int
        } else {
            0int
        }
    }
}

/// The aggregate of one compile phase.
pub struct CompletionReport {
    pub succeeded: usize,
    pub failed: usize,
}

/// Aggregate the compile phase: every unit is counted exactly once.
pub fn completion_report(results: &Vec<BuildResult>) -> (r: CompletionReport)
    ensures
        r.succeeded == spec_count_success(results@),
        r.succeeded + r.failed == results@.len(),
{
    let n = results.len();
    let mut succeeded: usize = 0;
    proof {
        assert(results@.take(0) =~= Seq::<BuildResult>::empty());
    }
    let mut i: usize = 0;
    while i < n
        invariant
            n == results@.len(),
            i <= n,
            succeeded <= i,
            succeeded == spec_count_success(results@.take(i as int)),
        decreases n - i,
    {
        proof {
            assert(results@.take(i as int + 1).drop_last() =~= results@.take(i as int));
            assert(results@.take(i as int + 1).last() == results@[i as int]);
        }
        if results[i].success {
            succeeded += 1;
        }
        i += 1;
    }
    proof {
        assert(results@.take(n as int) =~= results@);
    }
    CompletionReport { succeeded, failed: n - succeeded }
}

/// Linking happens only when every translation unit compiled; one failure
/// skips the link and fails the command.
pub fn link_allowed(results: &Vec<BuildResult>) -> (r: bool)
    ensures
        r == (forall|i: int| 0 <= i < results@.len() ==> (#[trigger] results@[i]).success),
{
    let n = results.len();
    let mut i: usize = 0;
    while i < n
        invariant
            n == results@.len(),
            i <= n,
            forall|j: int| 0 <= j < i ==> (#[trigger] results@[j]).success,
        decreases n - i,
    {
        if !results[i].success {
            assert(!results@[i as int].success);
            return false;
        }
        i += 1;
    }
    true
}

} // verus!
