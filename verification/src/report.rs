//! Typed model of a parsed test report: suites, nested suites, cases and
//! per-case outcomes, together with the model's well-formedness invariant
//! (per-suite counts are consistent and the report-wide totals fit in `u64`).

use vstd::prelude::*;

verus! {

broadcast use vstd::std_specs::vec::group_vec_axioms, vstd::seq::group_seq_axioms;

/// Outcome of a single test case. Every variant except `Success` carries the
/// diagnostic message and detail text reported for the case.
pub enum Status {
    Success,
    Failure { message: String, text: String },
    Error { message: String, text: String },
    Skipped { message: String, text: String },
}

/// A single test case: its display name, its outcome, and any captured output.
pub struct Case {
    pub name: String,
    pub status: Status,
    pub output: Option<String>,
}

/// A named grouping of test cases and nested suites, with the rolled-up counts
/// the report declared for it.
pub struct Suite {
    pub id: Option<String>,
    pub name: String,
    pub tests: u64,
    pub errors: u64,
    pub failures: u64,
    pub skipped: u64,
    pub suites: Vec<Suite>,
    pub cases: Vec<Case>,
}

/// A full parsed report: an ordered sequence of top-level suites.
pub struct Report {
    pub suites: Vec<Suite>,
}

/// Mathematical value of a `Status`.
pub ghost enum StatusV {
    Success,
    Failure { message: Seq<char>, text: Seq<char> },
    Error { message: Seq<char>, text: Seq<char> },
    Skipped { message: Seq<char>, text: Seq<char> },
}

/// Mathematical value of a `Case`.
pub ghost struct CaseV {
    pub name: Seq<char>,
    pub status: StatusV,
    pub output: Option<Seq<char>>,
}

/// Mathematical value of a `Suite`.
pub ghost struct SuiteV {
    pub id: Option<Seq<char>>,
    pub name: Seq<char>,
    pub tests: u64,
    pub errors: u64,
    pub failures: u64,
    pub skipped: u64,
    pub suites: Seq<SuiteV>,
    pub cases: Seq<CaseV>,
}

impl View for Status {
    type V = StatusV;

    open spec fn view(&self) -> StatusV {
        match self {
            Status::Success => StatusV::Success,
            Status::Failure { message, text } => StatusV::Failure {
                message: message@,
                text: text@,
            },
            Status::Error { message, text } => StatusV::Error {
                message: message@,
                text: text@,
            },
            Status::Skipped { message, text } => StatusV::Skipped {
                message: message@,
                text: text@,
            },
        }
    }
}

impl View for Case {
    type V = CaseV;

    open spec fn view(&self) -> CaseV {
        CaseV {
            name: self.name@,
            status: self.status@,
            output: match self.output {
                Some(o) => Some(o@),
                None => None,
            },
        }
    }
}

/// Mathematical value of a sequence of cases.
pub open spec fn cases_view(cs: Seq<Case>) -> Seq<CaseV> {
    Seq::new(cs.len(), |i: int| cs[i]@)
}

/// Mathematical value of a single suite.
pub open spec fn suite_view(s: Suite) -> SuiteV
    decreases s,
{
    SuiteV {
        id: match s.id {
            Some(i) => Some(i@),
            None => None,
        },
        name: s.name@,
        tests: s.tests,
        errors: s.errors,
        failures: s.failures,
        skipped: s.skipped,
        suites: suites_view(s.suites@),
        cases: cases_view(s.cases@),
    }
}

/// Mathematical value of a sequence of suites.
pub open spec fn suites_view(ss: Seq<Suite>) -> Seq<SuiteV>
    decreases ss,
{
    if ss.len() == 0 {
        Seq::empty()
    } else {
        suites_view(ss.drop_last()).push(suite_view(ss.last()))
    }
}

impl View for Suite {
    type V = SuiteV;

    open spec fn view(&self) -> SuiteV {
        suite_view(*self)
    }
}

impl View for Report {
    type V = Seq<SuiteV>;

    open spec fn view(&self) -> Seq<SuiteV> {
        suites_view(self.suites@)
    }
}

/// `suites_view` is a pointwise map of `suite_view` over the sequence.
pub proof fn lemma_suites_view(ss: Seq<Suite>)
    ensures
        suites_view(ss).len() == ss.len(),
        forall|i: int| 0 <= i < ss.len() ==> suites_view(ss)[i] == suite_view(#[trigger] ss[i]),
    decreases ss.len(),
{
    if ss.len() > 0 {
        lemma_suites_view(ss.drop_last());
        assert forall|i: int| 0 <= i < ss.len() implies suites_view(ss)[i] == suite_view(
            #[trigger] ss[i],
        ) by {
            if i < ss.len() - 1 {
                assert(ss.drop_last()[i] == ss[i]);
            }
        }
    }
}

/// The effective tree identifier of a suite: its explicit identifier if it has
/// one, else its name.
pub open spec fn effective_id(s: SuiteV) -> Seq<char> {
    match s.id {
        Some(i) => i,
        None => s.name,
    }
}

/// A suite's declared counts are consistent: the failing, erroring and skipped
/// counts together do not exceed the declared total.
pub open spec fn counts_ok(s: SuiteV) -> bool {
    s.errors + s.failures + s.skipped <= s.tests
}

/// Every suite of the tree rooted at `s` has consistent counts.
pub open spec fn suite_wf(s: SuiteV) -> bool
    decreases s,
{
    counts_ok(s) && forall|i: int| 0 <= i < s.suites.len() ==> suite_wf(#[trigger] s.suites[i])
}

/// Sum of the declared totals of a sequence of suites.
pub open spec fn sum_tests(ss: Seq<SuiteV>) -> int
    decreases ss.len(),
{
    if ss.len() == 0 {
        0
    } else {
        sum_tests(ss.drop_last()) + ss.last().tests
    }
}

/// Sum of the declared failure and error counts of a sequence of suites.
pub open spec fn sum_failures(ss: Seq<SuiteV>) -> int
    decreases ss.len(),
{
    if ss.len() == 0 {
        0
    } else {
        sum_failures(ss.drop_last()) + ss.last().failures + ss.last().errors
    }
}

/// Sum of the declared skipped counts of a sequence of suites.
pub open spec fn sum_skipped(ss: Seq<SuiteV>) -> int
    decreases ss.len(),
{
    if ss.len() == 0 {
        0
    } else {
        sum_skipped(ss.drop_last()) + ss.last().skipped
    }
}

/// Sum of the derived pass counts (total minus errors, failures and skipped)
/// of a sequence of suites.
pub open spec fn sum_passes(ss: Seq<SuiteV>) -> int
    decreases ss.len(),
{
    if ss.len() == 0 {
        0
    } else {
        sum_passes(ss.drop_last()) + ss.last().tests - ss.last().errors - ss.last().failures
            - ss.last().skipped
    }
}

/// The report model's invariant: every suite's counts are consistent, and the
/// report-wide total fits in a `u64`.
pub open spec fn report_wf(ss: Seq<SuiteV>) -> bool {
    (forall|i: int| 0 <= i < ss.len() ==> suite_wf(#[trigger] ss[i])) && sum_tests(ss) <= u64::MAX
}

/// For well-formed suites the three totals are non-negative and sum exactly
/// to the declared total across the suites.
pub proof fn lemma_sums(ss: Seq<SuiteV>)
    requires
        forall|i: int| 0 <= i < ss.len() ==> counts_ok(#[trigger] ss[i]),
    ensures
        0 <= sum_passes(ss),
        0 <= sum_failures(ss),
        0 <= sum_skipped(ss),
        sum_passes(ss) + sum_failures(ss) + sum_skipped(ss) == sum_tests(ss),
    decreases ss.len(),
{
    if ss.len() > 0 {
        assert(counts_ok(ss[ss.len() - 1]));
        lemma_sums(ss.drop_last());
    }
}

/// The declared total of a prefix never exceeds the total of the whole.
pub proof fn lemma_sum_tests_prefix(ss: Seq<SuiteV>, i: int)
    requires
        0 <= i <= ss.len(),
    ensures
        sum_tests(ss.subrange(0, i)) <= sum_tests(ss),
    decreases ss.len() - i,
{
    if i == ss.len() {
        assert(ss.subrange(0, i) =~= ss);
    } else {
        assert(ss.subrange(0, i + 1).drop_last() =~= ss.subrange(0, i));
        assert(ss.subrange(0, i + 1).last() == ss[i]);
        lemma_sum_tests_prefix(ss, i + 1);
    }
}


/// Whether every suite beneath `s` has consistent counts.
pub fn suite_is_wf(s: &Suite) -> (b: bool)
    ensures
        b == suite_wf(s@),
    decreases *s,
{
    let ghost sv = s@;
    proof {
        lemma_suites_view(s.suites@);
    }
    let ok = match s.errors.checked_add(s.failures) {
        Some(x) => match x.checked_add(s.skipped) {
            Some(y) => y <= s.tests,
            None => false,
        },
        None => false,
    };
    if !ok {
        proof {
            assert(!counts_ok(sv));
        }
        return false;
    }
    let n = s.suites.len();
    let mut i: usize = 0;
    while i < n
        invariant
            i <= n,
            n == s.suites@.len(),
            sv == s@,
            sv.suites.len() == n,
            forall|k: int| 0 <= k < n ==> sv.suites[k] == s.suites@[k]@,
            counts_ok(sv),
            forall|k: int| 0 <= k < i ==> suite_wf(#[trigger] sv.suites[k]),
        decreases n - i,
    {
        if !suite_is_wf(&s.suites[i]) {
            proof {
                assert(!suite_wf(sv.suites[i as int]));
            }
            return false;
        }
        i = i + 1;
    }
    true
}

/// Whether a report satisfies the model invariant: all counts consistent and
/// the report-wide total within range.
pub fn report_is_wf(report: &Report) -> (b: bool)
    ensures
        b == report_wf(report@),
{
    let ghost rv = report@;
    proof {
        lemma_suites_view(report.suites@);
        assert(rv.subrange(0, 0) =~= Seq::<SuiteV>::empty());
    }
    let n = report.suites.len();
    let mut i: usize = 0;
    while i < n
        invariant
            i <= n,
            n == report.suites@.len(),
            rv == report@,
            rv.len() == n,
            forall|k: int| 0 <= k < n ==> rv[k] == report.suites@[k]@,
            forall|k: int| 0 <= k < i ==> suite_wf(#[trigger] rv[k]),
        decreases n - i,
    {
        if !suite_is_wf(&report.suites[i]) {
            proof {
                assert(!suite_wf(rv[i as int]));
            }
            return false;
        }
        i = i + 1;
    }
    let mut total: u64 = 0;
    let mut i: usize = 0;
    while i < n
        invariant
            i <= n,
            n == report.suites@.len(),
            rv == report@,
            rv.len() == n,
            forall|k: int| 0 <= k < n ==> rv[k] == report.suites@[k]@,
            forall|k: int| 0 <= k < rv.len() ==> suite_wf(#[trigger] rv[k]),
            total == sum_tests(rv.subrange(0, i as int)),
        decreases n - i,
    {
        proof {
            assert(rv.subrange(0, i + 1).drop_last() =~= rv.subrange(0, i as int));
            assert(rv.subrange(0, i + 1).last() == rv[i as int]);
        }
        match total.checked_add(report.suites[i].tests) {
            Some(t) => {
                total = t;
            },
            None => {
                proof {
                    lemma_sum_tests_prefix(rv, i + 1);
                }
                return false;
            },
        }
        i = i + 1;
    }
    proof {
        assert(rv.subrange(0, n as int) =~= rv);
    }
    true
}

} // verus!
