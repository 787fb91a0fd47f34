//! The test runner's deterministic core: recognizing test translation units
//! by extension, naming their output binaries, classifying each run, and the
//! pass/fail accounting of the two-phase walk — every discovered file is
//! compiled once, only the successfully compiled ones run, and the totals
//! are exact.

use vstd::prelude::*;
use crate::strutil::last_segment;
use crate::strutil::lemma_rfind_char_exact;
use crate::strutil::lemma_rfind_char_none;
use crate::strutil::rfind_char;
use crate::strutil::spec_last_segment;
use crate::strutil::spec_rfind_char;
use crate::strutil::str_eq;

verus! {

// ---------------------------------------------------------------------------
// Discovery: extensions, stems, output paths
// ---------------------------------------------------------------------------
/// The extension of a path with `/` separators: the part of the file name
/// after its last `.`, unless that dot leads the name.
pub open spec fn spec_extension(p: Seq<char>) -> Option<Seq<char>> {
    let f = spec_last_segment(p);
    match spec_rfind_char(f, '.') {
        Some(i) => if i > 0 {
            Some(f.skip(i + 1))
        } else {
            None
        },
        None => None,
    }
}

/// The file name without its extension.
pub open spec fn spec_file_stem(p: Seq<char>) -> Seq<char> {
    let f = spec_last_segment(p);
    match spec_rfind_char(f, '.') {
        Some(i) => if i > 0 {
            f.take(i)
        } else {
            f
        },
        None => f,
    }
}

pub fn extension_of(p: &str) -> (r: Option<String>)
    ensures
        match r {
            Some(e) => spec_extension(p@) == Some(e@),
            None => spec_extension(p@) is None,
        },
{
    let f = last_segment(p);
    let flen = f.as_str().unicode_len();
    match rfind_char(f.as_str(), '.') {
        Some(i) => {
            proof {
                lemma_rfind_char_exact(f@, '.', i as int);
            }
            if i > 0 {
                Some(String::from_str(f.as_str().substring_char(i + 1, flen)))
            } else {
                None
            }
        },
        None => {
            proof {
                lemma_rfind_char_none(f@, '.');
            }
            None
        },
    }
}

/// The file name without its extension.
pub fn file_stem(p: &str) -> (r: String)
    ensures
        r@ == spec_file_stem(p@),
{
    let f = last_segment(p);
    let flen = f.as_str().unicode_len();
    match rfind_char(f.as_str(), '.') {
        Some(i) => {
            proof {
                lemma_rfind_char_exact(f@, '.', i as int);
            }
            if i > 0 {
                String::from_str(f.as_str().substring_char(0, i))
            } else {
                f
            }
        },
        None => {
            proof {
                lemma_rfind_char_none(f@, '.');
            }
            f
        },
    }
}

/// A C++ translation unit: extension `cpp`, `cc` or `cxx`.
pub open spec fn spec_is_cpp(p: Seq<char>) -> bool {
    match spec_extension(p) {
        Some(e) => e == "cpp"@ || e == "cc"@ || e == "cxx"@,
        None => false,
    }
}

/// A C translation unit: extension `c`.
pub open spec fn spec_is_c(p: Seq<char>) -> bool {
    match spec_extension(p) {
        Some(e) => e == "c"@,
        None => false,
    }
}

/// A file the test runner compiles and runs.
pub open spec fn spec_recognized(p: Seq<char>) -> bool {
    spec_is_cpp(p) || spec_is_c(p)
}

pub fn is_cpp_source(p: &str) -> (r: bool)
    ensures
        r == spec_is_cpp(p@),
{
    match extension_of(p) {
        Some(e) => str_eq(e.as_str(), "cpp") || str_eq(e.as_str(), "cc") || str_eq(
            e.as_str(),
            "cxx",
        ),
        None => false,
    }
}

pub fn is_c_source(p: &str) -> (r: bool)
    ensures
        r == spec_is_c(p@),
{
    match extension_of(p) {
        Some(e) => str_eq(e.as_str(), "c"),
        None => false,
    }
}

/// The binary a test source compiles into.
pub fn test_output_path(p: &str) -> (r: String)
    ensures
        r@ == "build/tests/"@ + spec_file_stem(p@),
{
    String::from_str("build/tests/").concat(file_stem(p).as_str())
}

/// One discovered test unit.
pub struct TestUnit {
    pub path: String,
    pub is_cpp: bool,
}

/// The recognized files of a directory walk, in walk order, each marked as
/// C or C++.
pub open spec fn spec_discover(paths: Seq<String>) -> Seq<(Seq<char>, bool)>
    decreases paths.len(),
{
    if paths.len() == 0 {
        Seq::empty()
    } else {
        spec_discover(paths.drop_last()) + (if spec_recognized(paths.last()@) {
            seq![(paths.last()@, spec_is_cpp(paths.last()@))]
        } else {
            Seq::empty()
        })
    }
}

/// How many walked files are recognized test sources.
pub open spec fn spec_count_recognized(paths: Seq<String>) -> int
    decreases paths.len(),
{
    if paths.len() == 0 {
        0
    } else {
        spec_count_recognized(paths.drop_last()) + if spec_recognized(paths.last()@) {
            1int
        } else {
            0int
        }
    }
}

/// Select and classify the recognized sources of a directory walk.
pub fn discover_tests(paths: &Vec<String>) -> (r: Vec<TestUnit>)
    ensures
        r@.len() == spec_discover(paths@).len(),
        forall|i: int|
            0 <= i < r@.len() ==> ((#[trigger] r@[i]).path@, r@[i].is_cpp) == spec_discover(
                paths@,
            )[i],
{
    let n = paths.len();
    let mut units: Vec<TestUnit> = Vec::new();
    proof {
        assert(paths@.take(0) =~= Seq::<String>::empty());
    }
    let mut i: usize = 0;
    while i < n
        invariant
            n == paths@.len(),
            i <= n,
            units@.len() == spec_discover(paths@.take(i as int)).len(),
            forall|j: int|
                0 <= j < units@.len() ==> ((#[trigger] units@[j]).path@, units@[j].is_cpp)
                    == spec_discover(paths@.take(i as int))[j],
        decreases n - i,
    {
        proof {
            assert(paths@.take(i as int + 1).drop_last() =~= paths@.take(i as int));
            assert(paths@.take(i as int + 1).last() == paths@[i as int]);
        }
        let cpp = is_cpp_source(paths[i].as_str());
        let c = is_c_source(paths[i].as_str());
        if cpp || c {
            units.push(TestUnit { path: paths[i].clone(), is_cpp: cpp });
        }
        i += 1;
    }
    proof {
        assert(paths@.take(n as int) =~= paths@);
    }
    units
}

/// Law: discovery selects exactly the recognized files: the number of units
/// equals the number of recognized files in the walk.
pub proof fn lemma_discover_count(paths: Seq<String>)
    ensures
        spec_discover(paths).len() == spec_count_recognized(paths),
    decreases paths.len(),
{
    if paths.len() > 0 {
        lemma_discover_count(paths.drop_last());
    }
}

// ---------------------------------------------------------------------------
// Phase 2: execution order and outcome classification
// ---------------------------------------------------------------------------
/// The binaries phase 2 executes: those of the units that compiled, in
/// discovery order.
pub open spec fn spec_exec_plan(compiled: Seq<Option<String>>) -> Seq<Seq<char>>
    decreases compiled.len(),
{
    if compiled.len() == 0 {
        Seq::empty()
    } else {
        spec_exec_plan(compiled.drop_last()) + (match compiled.last() {
            Some(b) => seq![b@],
            None => Seq::empty(),
        })
    }
}

/// How many units compiled.
pub open spec fn spec_count_some(compiled: Seq<Option<String>>) -> int
    decreases compiled.len(),
{
    if compiled.len() == 0 {
        0
    } else {
        spec_count_some(compiled.drop_last()) + if compiled.last() is Some {
            1int
        } else {
            0int
        }
    }
}

/// The binaries to execute, in discovery order: one per compiled unit.
pub fn exec_plan(compiled: &Vec<Option<String>>) -> (r: Vec<String>)
    ensures
        r@.len() == spec_count_some(compiled@),
        forall|i: int| 0 <= i < r@.len() ==> (#[trigger] r@[i])@ == spec_exec_plan(compiled@)[i],
{
    let n = compiled.len();
    let mut bins: Vec<String> = Vec::new();
    proof {
        assert(compiled@.take(0) =~= Seq::<Option<String>>::empty());
        lemma_exec_plan_count(compiled@.take(0));
    }
    let mut i: usize = 0;
    while i < n
        invariant
            n == compiled@.len(),
            i <= n,
            bins@.len() == spec_count_some(compiled@.take(i as int)),
            bins@.len() == spec_exec_plan(compiled@.take(i as int)).len(),
            forall|j: int|
                0 <= j < bins@.len() ==> (#[trigger] bins@[j])@ == spec_exec_plan(
                    compiled@.take(i as int),
                )[j],
        decreases n - i,
    {
        proof {
            assert(compiled@.take(i as int + 1).drop_last() =~= compiled@.take(i as int));
            assert(compiled@.take(i as int + 1).last() == compiled@[i as int]);
            lemma_exec_plan_count(compiled@.take(i as int + 1));
        }
        match &compiled[i] {
            Some(b) => {
                bins.push(b.clone());
            },
            None => {},
        }
        i += 1;
    }
    proof {
        assert(compiled@.take(n as int) =~= compiled@);
    }
    bins
}

/// Law: phase 2 executes exactly the binaries that compiled: the execution
/// list is as long as the number of compiled units.
pub proof fn lemma_exec_plan_count(compiled: Seq<Option<String>>)
    ensures
        spec_exec_plan(compiled).len() == spec_count_some(compiled),
    decreases compiled.len(),
{
    if compiled.len() > 0 {
        lemma_exec_plan_count(compiled.drop_last());
    }
}

/// Law: the counts of one test run. With one compile attempt per discovered
/// unit and one outcome per attempt: the number of compile attempts equals
/// the number of recognized files in the walk, the number of execution
/// attempts equals the number of units that compiled, and the reported total
/// counts every recognized file.
pub proof fn lemma_test_runner_counts(paths: Seq<String>, compiled: Seq<Option<String>>)
    requires
        compiled.len() == spec_discover(paths).len(),
    ensures
        spec_discover(paths).len() == spec_count_recognized(paths),
        spec_exec_plan(compiled).len() == spec_count_some(compiled),
        spec_count_some(compiled) <= spec_count_recognized(paths),
{
    lemma_discover_count(paths);
    lemma_exec_plan_count(compiled);
    lemma_count_some_bound(compiled);
}

proof fn lemma_count_some_bound(compiled: Seq<Option<String>>)
    ensures
        0 <= spec_count_some(compiled) <= compiled.len(),
    decreases compiled.len(),
{
    if compiled.len() > 0 {
        lemma_count_some_bound(compiled.drop_last());
    }
}

/// How one discovered file fared.
#[derive(Clone, Copy, PartialEq, Eq, Structural, Debug)]
pub enum TestOutcome {
    /// The file did not compile; it is never executed.
    CompileFail,
    /// The binary ran and exited zero.
    Pass,
    /// The binary ran and exited nonzero.
    Fail,
    /// The binary could not be launched.
    ExecFail,
}

/// How launching one compiled binary went.
#[derive(Clone, Copy, PartialEq, Eq, Structural, Debug)]
pub enum ExecStatus {
    /// The process ran to completion; the flag is a zero exit.
    Exited(bool),
    /// The process could not be started.
    LaunchFailed,
}

/// Classify one executed binary: a zero exit passes, a nonzero exit fails,
/// and a launch error is reported apart from both.
pub fn outcome_of_run(status: ExecStatus) -> (r: TestOutcome)
    ensures
        status == ExecStatus::Exited(true) ==> r == TestOutcome::Pass,
        status == ExecStatus::Exited(false) ==> r == TestOutcome::Fail,
        status == ExecStatus::LaunchFailed ==> r == TestOutcome::ExecFail,
{
    match status {
        ExecStatus::Exited(true) => TestOutcome::Pass,
        ExecStatus::Exited(false) => TestOutcome::Fail,
        ExecStatus::LaunchFailed => TestOutcome::ExecFail,
    }
}

/// How many outcomes passed.
pub open spec fn spec_count_pass(os: Seq<TestOutcome>) -> int
    decreases os.len(),
{
    if os.len() == 0 {
        0
    } else {
        spec_count_pass(os.drop_last()) + if os.last() == TestOutcome::Pass {
            1int
        } else {
            0int
        }
    }
}

/// The final summary of a test run.
pub struct TestReport {
    pub passed: usize,
    pub total: usize,
}

/// Tally a run: `total` counts every discovered file, compiled or not;
/// `passed` counts exactly the zero exits.
pub fn tally(outcomes: &Vec<TestOutcome>) -> (r: TestReport)
    ensures
        r.total == outcomes@.len(),
        r.passed == spec_count_pass(outcomes@),
        r.passed <= r.total,
{
    let n = outcomes.len();
    let mut passed: usize = 0;
    proof {
        assert(outcomes@.take(0) =~= Seq::<TestOutcome>::empty());
    }
    let mut i: usize = 0;
    while i < n
        invariant
            n == outcomes@.len(),
            i <= n,
            passed <= i,
            passed == spec_count_pass(outcomes@.take(i as int)),
        decreases n - i,
    {
        proof {
            assert(outcomes@.take(i as int + 1).drop_last() =~= outcomes@.take(i as int));
            assert(outcomes@.take(i as int + 1).last() == outcomes@[i as int]);
        }
        if outcomes[i] == TestOutcome::Pass {
            passed += 1;
        }
        i += 1;
    }
    proof {
        assert(outcomes@.take(n as int) =~= outcomes@);
    }
    TestReport { passed, total: n }
}

/// Overall command success: at least one test, and every test passed.
pub fn all_passed(report: &TestReport) -> (r: bool)
    ensures
        r == (report.total > 0 && report.passed == report.total),
{
    report.total > 0 && report.passed == report.total
}

} // verus!
