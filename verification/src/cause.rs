//! Suspected causes, their order, and the classifier that reads one cause out
//! of the log of the end toolchain.

use crate::text::{
    contains, lemma_text_lt_irreflexive, lemma_text_lt_total, lemma_text_lt_transitive, text_contains,
    text_eq, text_lt, text_precedes,
};
use vstd::prelude::*;
use vstd::string::*;

verus! {

/// Why a crate is thought to have regressed.
#[derive(Debug, Hash, PartialOrd, Ord)]
pub enum SuspectedCause {
    /// The named crate did not compile.
    CompileError { crate_name: String },
    /// The documentation of the named crate did not build.
    DocumentationError { crate_name: String },
    /// The library tests of the named crate failed.
    TestFailure { crate_name: String },
    /// The documentation tests of the named crate failed.
    DocTestFailure { crate_name: String },
    /// The log names no single cause.
    Unknown,
}

/// What a [`SuspectedCause`] holds, as plain text.
pub enum CauseView {
    CompileError { crate_name: Seq<char> },
    DocumentationError { crate_name: Seq<char> },
    TestFailure { crate_name: Seq<char> },
    DocTestFailure { crate_name: Seq<char> },
    Unknown,
}

impl View for SuspectedCause {
    type V = CauseView;

    open spec fn view(&self) -> CauseView {
        match self {
            SuspectedCause::CompileError { crate_name } => CauseView::CompileError {
                crate_name: crate_name@,
            },
            SuspectedCause::DocumentationError { crate_name } => CauseView::DocumentationError {
                crate_name: crate_name@,
            },
            SuspectedCause::TestFailure { crate_name } => CauseView::TestFailure {
                crate_name: crate_name@,
            },
            SuspectedCause::DocTestFailure { crate_name } => CauseView::DocTestFailure {
                crate_name: crate_name@,
            },
            SuspectedCause::Unknown => CauseView::Unknown,
        }
    }
}

impl DeepView for SuspectedCause {
    type V = CauseView;

    open spec fn deep_view(&self) -> CauseView {
        self@
    }
}

impl CauseView {
    /// The place of the variant among the variants; `Unknown` is last.
    pub open spec fn rank(self) -> int {
        match self {
            CauseView::CompileError { .. } => 0,
            CauseView::DocumentationError { .. } => 1,
            CauseView::TestFailure { .. } => 2,
            CauseView::DocTestFailure { .. } => 3,
            CauseView::Unknown => 4,
        }
    }

    /// The crate that the cause names; `Unknown` names none.
    pub open spec fn name(self) -> Option<Seq<char>> {
        match self {
            CauseView::CompileError { crate_name } => Some(crate_name),
            CauseView::DocumentationError { crate_name } => Some(crate_name),
            CauseView::TestFailure { crate_name } => Some(crate_name),
            CauseView::DocTestFailure { crate_name } => Some(crate_name),
            CauseView::Unknown => None,
        }
    }

    /// The cause as the report shows it: the crate it names, or
    /// `unknown causes`.
    pub open spec fn text(self) -> Seq<char> {
        match self.name() {
            Some(crate_name) => crate_name,
            None => "unknown causes"@,
        }
    }

    /// The cause order: by variant, then by the crate named.
    pub open spec fn lt(self, other: CauseView) -> bool {
        ||| self.rank() < other.rank()
        ||| self.rank() == other.rank() && self.name() is Some && text_lt(
            self.name()->0,
            other.name()->0,
        )
    }
}

/// No cause comes before itself.
pub proof fn lemma_cause_lt_irreflexive(a: CauseView)
    ensures
        !a.lt(a),
{
    if a.name() is Some {
        lemma_text_lt_irreflexive(a.name()->0);
    }
}

/// The cause order is transitive.
pub proof fn lemma_cause_lt_transitive(a: CauseView, b: CauseView, c: CauseView)
    requires
        a.lt(b),
        b.lt(c),
    ensures
        a.lt(c),
{
    if a.rank() == b.rank() && b.rank() == c.rank() {
        lemma_text_lt_transitive(a.name()->0, b.name()->0, c.name()->0);
    }
}

/// Of two causes one comes first, or they are the same cause.
pub proof fn lemma_cause_lt_total(a: CauseView, b: CauseView)
    ensures
        a.lt(b) || b.lt(a) || a == b,
{
    if a.rank() == b.rank() && a.name() is Some {
        lemma_text_lt_total(a.name()->0, b.name()->0);
    }
}

impl Clone for SuspectedCause {
    fn clone(&self) -> (copy: Self)
        ensures
            copy@ == self@,
    {
        match self {
            SuspectedCause::CompileError { crate_name } => SuspectedCause::CompileError {
                crate_name: crate_name.clone(),
            },
            SuspectedCause::DocumentationError { crate_name } => SuspectedCause::DocumentationError {
                crate_name: crate_name.clone(),
            },
            SuspectedCause::TestFailure { crate_name } => SuspectedCause::TestFailure {
                crate_name: crate_name.clone(),
            },
            SuspectedCause::DocTestFailure { crate_name } => SuspectedCause::DocTestFailure {
                crate_name: crate_name.clone(),
            },
            SuspectedCause::Unknown => SuspectedCause::Unknown,
        }
    }
}

impl PartialEq for SuspectedCause {
    fn eq(&self, other: &Self) -> (same: bool) {
        match (self, other) {
            (
                SuspectedCause::CompileError { crate_name: a },
                SuspectedCause::CompileError { crate_name: b },
            ) => text_eq(a.as_str(), b.as_str()),
            (
                SuspectedCause::DocumentationError { crate_name: a },
                SuspectedCause::DocumentationError { crate_name: b },
            ) => text_eq(a.as_str(), b.as_str()),
            (
                SuspectedCause::TestFailure { crate_name: a },
                SuspectedCause::TestFailure { crate_name: b },
            ) => text_eq(a.as_str(), b.as_str()),
            (
                SuspectedCause::DocTestFailure { crate_name: a },
                SuspectedCause::DocTestFailure { crate_name: b },
            ) => text_eq(a.as_str(), b.as_str()),
            (SuspectedCause::Unknown, SuspectedCause::Unknown) => true,
            _ => false,
        }
    }
}

impl vstd::std_specs::cmp::PartialEqSpecImpl for SuspectedCause {
    open spec fn obeys_eq_spec() -> bool {
        true
    }

    open spec fn eq_spec(&self, other: &Self) -> bool {
        self@ == other@
    }
}

impl Eq for SuspectedCause {

}

impl SuspectedCause {
    /// The crate that the cause names; `Unknown` names none.
    pub fn crate_name(&self) -> (name: Option<&str>)
        ensures
            name.deep_view() == self@.name(),
    {
        match self {
            SuspectedCause::CompileError { crate_name } => Some(crate_name.as_str()),
            SuspectedCause::DocumentationError { crate_name } => Some(crate_name.as_str()),
            SuspectedCause::TestFailure { crate_name } => Some(crate_name.as_str()),
            SuspectedCause::DocTestFailure { crate_name } => Some(crate_name.as_str()),
            SuspectedCause::Unknown => None,
        }
    }

    /// The cause as the report shows it.
    pub fn to_string(&self) -> (shown: String)
        ensures
            shown@ == self@.text(),
    {
        match self.crate_name() {
            Some(crate_name) => String::from_str(crate_name),
            None => String::from_str("unknown causes"),
        }
    }

    /// The place of the variant among the variants.
    fn rank(&self) -> (rank: u8)
        ensures
            rank == self@.rank(),
    {
        match self {
            SuspectedCause::CompileError { .. } => 0,
            SuspectedCause::DocumentationError { .. } => 1,
            SuspectedCause::TestFailure { .. } => 2,
            SuspectedCause::DocTestFailure { .. } => 3,
            SuspectedCause::Unknown => 4,
        }
    }

    /// Whether `self` comes before `other` in the cause order.
    pub fn precedes(&self, other: &SuspectedCause) -> (before: bool)
        ensures
            before == self@.lt(other@),
    {
        let mine = self.rank();
        let theirs = other.rank();
        if mine != theirs {
            return mine < theirs;
        }
        match (self.crate_name(), other.crate_name()) {
            (Some(a), Some(b)) => text_precedes(a, b),
            _ => false,
        }
    }
}

/// The pattern of a compile-error marker; its one group is the crate named.
/// The first letter may be of either case.
pub const COMPILE_MARKER: &'static str = "[Cc]ould not compile `([^)]+?)`";

/// The pattern of a documentation-error marker; its one group is the crate
/// named. The first letter is a capital.
pub const DOCUMENT_MARKER: &'static str = "Could not document `([^`)]+?)`";

/// What a log holds when the library tests of the crate failed.
pub const LIB_TEST_MARKER: &'static str = "error: test failed, to rerun pass '--lib'";

/// What a log holds when the documentation tests of the crate failed.
pub const DOC_TEST_MARKER: &'static str = "error: test failed, to rerun pass '--doc'";

/// For one of the two marker patterns: the crate names that the pattern's
/// group captures in `log`, one for each match, the matches taken from the
/// left and not overlapping.
pub uninterp spec fn marker_captures(pattern: Seq<char>, log: Seq<char>) -> Seq<Seq<char>>;

/// `regex::Regex::new`, then `regex::Regex::captures_iter` and, of each
/// `regex::Captures`, the text of group 1. The two marker patterns are valid
/// regular expressions whose group 1 takes part in every match, so nothing
/// here fails; the names come back in the order of the matches.
#[verifier::external_body]
fn capture_names(pattern: &str, log: &str) -> (names: Vec<String>)
    requires
        pattern@ == COMPILE_MARKER@ || pattern@ == DOCUMENT_MARKER@,
    ensures
        names.deep_view() == marker_captures(pattern@, log@),
{
    let marker = regex::Regex::new(pattern).unwrap();
    marker.captures_iter(log).map(|found| found[1].to_string()).collect()
}

/// The candidate causes of one log: a compile error for each crate that a
/// compile-error marker names, a documentation error for each crate that a
/// documentation-error marker names, then a test failure and a
/// documentation-test failure of the crate itself where the log reports them.
pub open spec fn candidates(
    compile_names: Seq<Seq<char>>,
    document_names: Seq<Seq<char>>,
    lib_tests_failed: bool,
    doc_tests_failed: bool,
    own_name: Seq<char>,
) -> Seq<CauseView> {
    let compile_errors = compile_names.map_values(
        |name: Seq<char>| CauseView::CompileError { crate_name: name },
    );
    let documentation_errors = document_names.map_values(
        |name: Seq<char>| CauseView::DocumentationError { crate_name: name },
    );
    let test_failure = if lib_tests_failed {
        seq![CauseView::TestFailure { crate_name: own_name }]
    } else {
        seq![]
    };
    let doc_test_failure = if doc_tests_failed {
        seq![CauseView::DocTestFailure { crate_name: own_name }]
    } else {
        seq![]
    };
    compile_errors + documentation_errors + test_failure + doc_test_failure
}

/// The one cause that a list of candidates stands for: the candidate itself
/// where there is exactly one, `Unknown` where there is none or several.
pub open spec fn resolved(candidates: Seq<CauseView>) -> CauseView {
    if candidates.len() == 1 {
        candidates[0]
    } else {
        CauseView::Unknown
    }
}

/// The cause of the regression of the crate called `own_name` whose end log
/// is `log`.
pub open spec fn log_cause(log: Seq<char>, own_name: Seq<char>) -> CauseView {
    resolved(
        candidates(
            marker_captures(COMPILE_MARKER@, log),
            marker_captures(DOCUMENT_MARKER@, log),
            text_contains(log, LIB_TEST_MARKER@),
            text_contains(log, DOC_TEST_MARKER@),
            own_name,
        ),
    )
}

/// Lists the candidate causes that the findings in one log give.
pub fn candidate_causes(
    compile_names: &[String],
    document_names: &[String],
    lib_tests_failed: bool,
    doc_tests_failed: bool,
    own_name: &str,
) -> (list: Vec<SuspectedCause>)
    ensures
        list.deep_view() == candidates(
            compile_names.deep_view(),
            document_names.deep_view(),
            lib_tests_failed,
            doc_tests_failed,
            own_name@,
        ),
{
    let ghost compile_part = compile_names.deep_view().map_values(
        |name: Seq<char>| CauseView::CompileError { crate_name: name },
    );
    let ghost document_part = document_names.deep_view().map_values(
        |name: Seq<char>| CauseView::DocumentationError { crate_name: name },
    );
    let mut list: Vec<SuspectedCause> = Vec::new();
    let mut i: usize = 0;
    while i < compile_names.len()
        invariant
            i <= compile_names.len(),
            compile_part == compile_names.deep_view().map_values(
                |name: Seq<char>| CauseView::CompileError { crate_name: name },
            ),
            list@.len() == i,
            list.deep_view() =~= compile_part.take(i as int),
        decreases compile_names.len() - i,
    {
        let ghost before = list.deep_view();
        list.push(SuspectedCause::CompileError { crate_name: compile_names[i].clone() });
        assert forall|k: int| 0 <= k <= i implies list.deep_view()[k] == compile_part[k] by {
            if k < i {
                assert(list.deep_view()[k] == before[k]);
            }
        }
        i = i + 1;
    }
    let mut j: usize = 0;
    while j < document_names.len()
        invariant
            j <= document_names.len(),
            document_part == document_names.deep_view().map_values(
                |name: Seq<char>| CauseView::DocumentationError { crate_name: name },
            ),
            list@.len() == compile_part.len() + j,
            list.deep_view() =~= compile_part + document_part.take(j as int),
        decreases document_names.len() - j,
    {
        let ghost before = list.deep_view();
        list.push(SuspectedCause::DocumentationError { crate_name: document_names[j].clone() });
        assert forall|k: int| 0 <= k < list@.len() implies list.deep_view()[k] == (compile_part
            + document_part.take(j + 1))[k] by {
            if k < before.len() {
                assert(list.deep_view()[k] == before[k]);
            }
        }
        j = j + 1;
    }
    assert(compile_part.take(i as int) =~= compile_part);
    assert(document_part.take(j as int) =~= document_part);
    let ghost markers = list.deep_view();
    if lib_tests_failed {
        list.push(SuspectedCause::TestFailure { crate_name: String::from_str(own_name) });
        assert(list.deep_view() =~= markers.push(CauseView::TestFailure { crate_name: own_name@ }));
    }
    let ghost with_lib = list.deep_view();
    if doc_tests_failed {
        list.push(SuspectedCause::DocTestFailure { crate_name: String::from_str(own_name) });
        assert(list.deep_view() =~= with_lib.push(
            CauseView::DocTestFailure { crate_name: own_name@ },
        ));
    }
    list
}

/// Resolves a list of candidates to one cause: the candidate itself where
/// there is exactly one, `Unknown` where there is none or several.
pub fn resolve(candidates: Vec<SuspectedCause>) -> (cause: SuspectedCause)
    ensures
        cause@ == resolved(candidates.deep_view()),
{
    let mut candidates = candidates;
    if candidates.len() == 1 {
        candidates.pop().unwrap()
    } else {
        SuspectedCause::Unknown
    }
}

/// Reads the cause of a regression out of the end log of the crate called
/// `own_name`.
pub fn classify(end_log: &str, own_name: &str) -> (cause: SuspectedCause)
    ensures
        cause@ == log_cause(end_log@, own_name@),
{
    let compile_names = capture_names(COMPILE_MARKER, end_log);
    let document_names = capture_names(DOCUMENT_MARKER, end_log);
    let lib_tests_failed = contains(end_log, LIB_TEST_MARKER);
    let doc_tests_failed = contains(end_log, DOC_TEST_MARKER);
    resolve(
        candidate_causes(
            compile_names.as_slice(),
            document_names.as_slice(),
            lib_tests_failed,
            doc_tests_failed,
            own_name,
        ),
    )
}

/// A log with exactly one compile-error marker and no other marker gives a
/// compile error of the crate that the marker names.
pub proof fn lemma_single_compile_marker(log: Seq<char>, own_name: Seq<char>)
    requires
        marker_captures(COMPILE_MARKER@, log).len() == 1,
        marker_captures(DOCUMENT_MARKER@, log).len() == 0,
        !text_contains(log, LIB_TEST_MARKER@),
        !text_contains(log, DOC_TEST_MARKER@),
    ensures
        log_cause(log, own_name) == (CauseView::CompileError {
            crate_name: marker_captures(COMPILE_MARKER@, log)[0],
        }),
{
}

/// A log with a compile-error marker and a report of failed tests, of the
/// library or of the documentation, gives `Unknown`.
pub proof fn lemma_compile_marker_and_test_failure(log: Seq<char>, own_name: Seq<char>)
    requires
        marker_captures(COMPILE_MARKER@, log).len() >= 1,
        text_contains(log, LIB_TEST_MARKER@) || text_contains(log, DOC_TEST_MARKER@),
    ensures
        log_cause(log, own_name) == CauseView::Unknown,
{
}

/// A log without any marker gives `Unknown`.
pub proof fn lemma_no_marker(log: Seq<char>, own_name: Seq<char>)
    requires
        marker_captures(COMPILE_MARKER@, log).len() == 0,
        marker_captures(DOCUMENT_MARKER@, log).len() == 0,
        !text_contains(log, LIB_TEST_MARKER@),
        !text_contains(log, DOC_TEST_MARKER@),
    ensures
        log_cause(log, own_name) == CauseView::Unknown,
{
}

/// How many candidate causes a log gives.
pub open spec fn candidate_count(log: Seq<char>) -> nat {
    let lib_tests: nat = if text_contains(log, LIB_TEST_MARKER@) {
        1
    } else {
        0
    };
    let doc_tests: nat = if text_contains(log, DOC_TEST_MARKER@) {
        1
    } else {
        0
    };
    marker_captures(COMPILE_MARKER@, log).len() + marker_captures(DOCUMENT_MARKER@, log).len()
        + lib_tests + doc_tests
}

/// A cause other than `Unknown` comes from a log with exactly one candidate,
/// and `Unknown` from every other log.
pub proof fn lemma_named_cause_iff_one_candidate(log: Seq<char>, own_name: Seq<char>)
    ensures
        log_cause(log, own_name) != CauseView::Unknown <==> candidate_count(log) == 1,
{
}

} // verus!
