//! Selection and auto-expand policy: on a fresh run, every suite node with a
//! failing or erroring case somewhere beneath it starts expanded, and the
//! first root node becomes the default selection.

use vstd::prelude::*;

use crate::report::{effective_id, Case, Report, Suite, SuiteV, CaseV};
use crate::tree::{forest_cases, suite_cases, TestRun};

verus! {

broadcast use vstd::std_specs::vec::group_vec_axioms, vstd::seq::group_seq_axioms;

/// A case whose outcome is a failure or an error.
pub open spec fn case_failed(c: CaseV) -> bool {
    c.status is Failure || c.status is Error
}

/// Some case in the sequence failed or errored.
pub open spec fn any_case_failed(cs: Seq<CaseV>) -> bool {
    exists|k: int| 0 <= k < cs.len() && case_failed(#[trigger] cs[k])
}

/// Some suite in the sequence contains a failing or erroring case.
pub open spec fn any_suite_failed(ss: Seq<SuiteV>) -> bool
    decreases ss,
{
    exists|k: int| 0 <= k < ss.len() && suite_has_failure(#[trigger] ss[k])
}

/// The suite contains a failing or erroring case, directly or in any nested
/// suite.
pub open spec fn suite_has_failure(s: SuiteV) -> bool
    decreases s,
{
    any_case_failed(s.cases) || any_suite_failed(s.suites)
}

/// Mathematical value of a sequence of identifiers.
pub open spec fn strings_view(v: Seq<String>) -> Seq<Seq<char>> {
    Seq::new(v.len(), |i: int| v[i]@)
}

/// Identifiers marked expanded beneath one suite: those of its nested suites
/// first, then the suite's own identifier if it contains a failure.
pub open spec fn expanded_under(s: SuiteV) -> Seq<Seq<char>>
    decreases s,
{
    expanded_in(s.suites) + if suite_has_failure(s) {
        seq![effective_id(s)]
    } else {
        Seq::empty()
    }
}

/// Identifiers marked expanded beneath a sequence of suites, in order.
pub open spec fn expanded_in(ss: Seq<SuiteV>) -> Seq<Seq<char>>
    decreases ss,
{
    if ss.len() == 0 {
        Seq::empty()
    } else {
        expanded_in(ss.drop_last()) + expanded_under(ss.last())
    }
}

/// Appending one more suite to a prefix adds exactly that suite's verdict.
proof fn lemma_any_suite_snoc(ss: Seq<SuiteV>, i: int)
    requires
        0 <= i < ss.len(),
    ensures
        any_suite_failed(ss.subrange(0, i + 1)) == (any_suite_failed(ss.subrange(0, i))
            || suite_has_failure(ss[i])),
{
    let a = ss.subrange(0, i);
    let b = ss.subrange(0, i + 1);
    if any_suite_failed(b) {
        let k = choose|k: int| 0 <= k < b.len() && suite_has_failure(#[trigger] b[k]);
        if k < i {
            assert(a[k] == ss[k]);
            assert(suite_has_failure(a[k]));
        } else {
            assert(b[k] == ss[i]);
        }
    }
    if any_suite_failed(a) {
        let k = choose|k: int| 0 <= k < a.len() && suite_has_failure(#[trigger] a[k]);
        assert(b[k] == ss[k]);
        assert(suite_has_failure(b[k]));
    }
    if suite_has_failure(ss[i]) {
        assert(suite_has_failure(b[i]));
    }
}

/// Appending one more case to a prefix adds exactly that case's verdict.
proof fn lemma_any_case_snoc(cs: Seq<CaseV>, i: int)
    requires
        0 <= i < cs.len(),
    ensures
        any_case_failed(cs.subrange(0, i + 1)) == (any_case_failed(cs.subrange(0, i))
            || case_failed(cs[i])),
{
    let a = cs.subrange(0, i);
    let b = cs.subrange(0, i + 1);
    if any_case_failed(b) {
        let k = choose|k: int| 0 <= k < b.len() && case_failed(#[trigger] b[k]);
        if k < i {
            assert(a[k] == cs[k]);
            assert(case_failed(a[k]));
        } else {
            assert(b[k] == cs[i]);
        }
    }
    if any_case_failed(a) {
        let k = choose|k: int| 0 <= k < a.len() && case_failed(#[trigger] a[k]);
        assert(b[k] == cs[k]);
        assert(case_failed(b[k]));
    }
    if case_failed(cs[i]) {
        assert(case_failed(b[i]));
    }
}

/// Whether a case failed or errored.
fn case_is_failed(c: &Case) -> (b: bool)
    ensures
        b == case_failed(c@),
{
    match &c.status {
        crate::report::Status::Failure { .. } => true,
        crate::report::Status::Error { .. } => true,
        _ => false,
    }
}

/// Post-order traversal beneath one suite: appends the identifier of every
/// suite (nested ones first, this one last) that contains a failing or
/// erroring case, and reports whether this suite contains one.
fn open_failed(suite: &Suite, opened: &mut Vec<String>) -> (failed: bool)
    ensures
        failed == suite_has_failure(suite@),
        strings_view(final(opened)@) == strings_view(old(opened)@) + expanded_under(suite@),
    decreases *suite,
{
    let ghost sv = suite@;
    proof {
        crate::report::lemma_suites_view(suite.suites@);
        assert(sv.suites.subrange(0, 0) =~= Seq::<SuiteV>::empty());
        assert(strings_view(opened@) =~= strings_view(old(opened)@) + expanded_in(
            sv.suites.subrange(0, 0),
        ));
    }
    let mut any: bool = false;
    let n = suite.suites.len();
    let mut i: usize = 0;
    while i < n
        invariant
            i <= n,
            n == suite.suites@.len(),
            sv == suite@,
            sv.suites.len() == n,
            forall|k: int| 0 <= k < n ==> sv.suites[k] == suite.suites@[k]@,
            any == any_suite_failed(sv.suites.subrange(0, i as int)),
            strings_view(opened@) == strings_view(old(opened)@) + expanded_in(
                sv.suites.subrange(0, i as int),
            ),
        decreases n - i,
    {
        let f = open_failed(&suite.suites[i], opened);
        any = any || f;
        proof {
            lemma_any_suite_snoc(sv.suites, i as int);
            assert(sv.suites.subrange(0, i + 1).drop_last() =~= sv.suites.subrange(0, i as int));
            assert(sv.suites.subrange(0, i + 1).last() == sv.suites[i as int]);
            assert(strings_view(opened@) =~= strings_view(old(opened)@) + expanded_in(
                sv.suites.subrange(0, i + 1),
            ));
        }
        i = i + 1;
    }
    proof {
        assert(sv.suites.subrange(0, n as int) =~= sv.suites);
        assert(sv.cases.subrange(0, 0) =~= Seq::<CaseV>::empty());
        assert(!any_case_failed(sv.cases.subrange(0, 0)));
    }
    let m = suite.cases.len();
    let mut j: usize = 0;
    let mut case_any: bool = false;
    while j < m
        invariant
            j <= m,
            m == suite.cases@.len(),
            sv == suite@,
            sv.cases.len() == m,
            forall|k: int| 0 <= k < m ==> sv.cases[k] == suite.cases@[k]@,
            case_any == any_case_failed(sv.cases.subrange(0, j as int)),
        decreases m - j,
    {
        let f = case_is_failed(&suite.cases[j]);
        case_any = case_any || f;
        proof {
            lemma_any_case_snoc(sv.cases, j as int);
        }
        j = j + 1;
    }
    proof {
        assert(sv.cases.subrange(0, m as int) =~= sv.cases);
    }
    let failed = any || case_any;
    if failed {
        let id = match &suite.id {
            Some(s) => s.clone(),
            None => suite.name.clone(),
        };
        let ghost prev = opened@;
        opened.push(id);
        proof {
            assert(strings_view(opened@) =~= strings_view(prev) + seq![effective_id(sv)]);
            assert(strings_view(opened@) =~= strings_view(old(opened)@) + expanded_under(sv));
        }
    } else {
        proof {
            assert(expanded_under(sv) =~= expanded_in(sv.suites));
        }
    }
    failed
}

/// Runs the auto-expand policy over a whole report: returns, in post-order,
/// the identifier of every suite that contains a failing or erroring case.
pub fn open_all_failed(report: &Report) -> (opened: Vec<String>)
    ensures
        strings_view(opened@) == expanded_in(report@),
{
    let ghost rv = report@;
    let mut opened: Vec<String> = Vec::new();
    proof {
        crate::report::lemma_suites_view(report.suites@);
        assert(rv.subrange(0, 0) =~= Seq::<SuiteV>::empty());
        assert(strings_view(opened@) =~= Seq::<Seq<char>>::empty() + expanded_in(
            rv.subrange(0, 0),
        ));
        assert(strings_view(opened@) =~= expanded_in(rv.subrange(0, 0)));
    }
    let n = report.suites.len();
    let mut i: usize = 0;
    while i < n
        invariant
            i <= n,
            n == report.suites@.len(),
            rv == report@,
            rv.len() == n,
            forall|k: int| 0 <= k < n ==> rv[k] == report.suites@[k]@,
            strings_view(opened@) == expanded_in(rv.subrange(0, i as int)),
        decreases n - i,
    {
        let ghost prev = opened@;
        let _ = open_failed(&report.suites[i], &mut opened);
        proof {
            assert(rv.subrange(0, i + 1).drop_last() =~= rv.subrange(0, i as int));
            assert(rv.subrange(0, i + 1).last() == rv[i as int]);
            assert(strings_view(opened@) =~= expanded_in(rv.subrange(0, i + 1)));
        }
        i = i + 1;
    }
    proof {
        assert(rv.subrange(0, n as int) =~= rv);
    }
    opened
}

/// Picks the default selection for a fresh run: the first root node's
/// identifier, or nothing when the tree is empty.
pub fn default_selection(run: &TestRun) -> (sel: Option<String>)
    ensures
        match sel {
            Some(id) => run.tree@.len() > 0 && id@ == run.tree@[0]@.id,
            None => run.tree@.len() == 0,
        },
{
    if run.tree.len() > 0 {
        Some(run.tree[0].id.clone())
    } else {
        None
    }
}

/// The suite `t` occurs somewhere in the forest `ss` (as a root or nested at
/// any depth).
pub open spec fn in_forest(ss: Seq<SuiteV>, t: SuiteV) -> bool
    decreases ss,
{
    exists|i: int| 0 <= i < ss.len() && in_suite(#[trigger] ss[i], t)
}

/// The suite `t` is `s` itself or occurs nested anywhere beneath it.
pub open spec fn in_suite(s: SuiteV, t: SuiteV) -> bool
    decreases s,
{
    s == t || in_forest(s.suites, t)
}

/// Membership in a concatenation is membership in either part.
proof fn lemma_concat_contains(a: Seq<Seq<char>>, b: Seq<Seq<char>>, x: Seq<char>)
    ensures
        (a + b).contains(x) == (a.contains(x) || b.contains(x)),
{
    if (a + b).contains(x) {
        let i = choose|i: int| 0 <= i < (a + b).len() && (a + b)[i] == x;
        if i < a.len() {
            assert(a[i] == x);
        } else {
            assert(b[i - a.len()] == x);
        }
    }
    if a.contains(x) {
        let i = choose|i: int| 0 <= i < a.len() && a[i] == x;
        assert((a + b)[i] == x);
    }
    if b.contains(x) {
        let i = choose|i: int| 0 <= i < b.len() && b[i] == x;
        assert((a + b)[a.len() + i] == x);
    }
}

/// Auto-expand, over a forest: an identifier is marked expanded exactly when
/// some suite in the forest carries that identifier and contains a failing or
/// erroring case.
pub proof fn lemma_auto_expand(ss: Seq<SuiteV>, id: Seq<char>)
    ensures
        expanded_in(ss).contains(id) <==> exists|t: SuiteV|
            #![auto]
            in_forest(ss, t) && effective_id(t) == id && suite_has_failure(t),
    decreases ss, 1int,
{
    if ss.len() == 0 {
        assert(!expanded_in(ss).contains(id));
        assert forall|t: SuiteV| !(#[trigger] in_forest(ss, t)) by {
            if in_forest(ss, t) {
                let i = choose|i: int| 0 <= i < ss.len() && in_suite(ss[i], t);
            }
        }
    } else {
        let rest = ss.drop_last();
        let s = ss.last();
        lemma_auto_expand(rest, id);
        lemma_auto_expand_suite(s, id);
        lemma_concat_contains(expanded_in(rest), expanded_under(s), id);
        if expanded_in(ss).contains(id) {
            if expanded_in(rest).contains(id) {
                let t = choose|t: SuiteV|
                    #![auto]
                    in_forest(rest, t) && effective_id(t) == id && suite_has_failure(t);
                let i = choose|i: int| 0 <= i < rest.len() && in_suite(#[trigger] rest[i], t);
                assert(ss[i] == rest[i]);
                assert(in_suite(ss[i], t));
            } else {
                let t = choose|t: SuiteV|
                    #![auto]
                    in_suite(s, t) && effective_id(t) == id && suite_has_failure(t);
                assert(ss[ss.len() - 1] == s);
                assert(in_suite(ss[ss.len() - 1], t));
            }
        }
        if exists|t: SuiteV| #![auto] in_forest(ss, t) && effective_id(t) == id
            && suite_has_failure(t) {
            let t = choose|t: SuiteV|
                #![auto]
                in_forest(ss, t) && effective_id(t) == id && suite_has_failure(t);
            let i = choose|i: int| 0 <= i < ss.len() && in_suite(#[trigger] ss[i], t);
            if i < ss.len() - 1 {
                assert(rest[i] == ss[i]);
                assert(in_forest(rest, t));
            } else {
                assert(in_suite(s, t));
            }
        }
    }
}

/// Auto-expand, beneath one suite: an identifier is marked expanded exactly
/// when this suite or one nested beneath it carries that identifier and
/// contains a failing or erroring case.
pub proof fn lemma_auto_expand_suite(s: SuiteV, id: Seq<char>)
    ensures
        expanded_under(s).contains(id) <==> exists|t: SuiteV|
            #![auto]
            in_suite(s, t) && effective_id(t) == id && suite_has_failure(t),
    decreases s, 0int,
{
    lemma_auto_expand(s.suites, id);
    let own: Seq<Seq<char>> = if suite_has_failure(s) {
        seq![effective_id(s)]
    } else {
        Seq::empty()
    };
    lemma_concat_contains(expanded_in(s.suites), own, id);
    if own.contains(id) {
        assert(own[0] == id);
        assert(in_suite(s, s));
    }
    if expanded_in(s.suites).contains(id) {
        let t = choose|t: SuiteV|
            #![auto]
            in_forest(s.suites, t) && effective_id(t) == id && suite_has_failure(t);
        assert(in_suite(s, t));
    }
    if exists|t: SuiteV| #![auto] in_suite(s, t) && effective_id(t) == id && suite_has_failure(t) {
        let t = choose|t: SuiteV|
            #![auto]
            in_suite(s, t) && effective_id(t) == id && suite_has_failure(t);
        if t == s {
            assert(own.contains(id)) by {
                assert(own[0] == id);
            }
        } else {
            assert(in_forest(s.suites, t));
        }
    }
}

/// A suite contains a failure exactly when one of its flattened cases failed
/// or errored: the expanded set is characterised by the cases alone.
pub proof fn lemma_failure_is_case_failure(s: SuiteV)
    ensures
        suite_has_failure(s) == any_case_failed(suite_cases(s)),
    decreases s, 0int,
{
    lemma_forest_failure_is_case_failure(s.suites);
    lemma_any_case_concat(forest_cases(s.suites), s.cases);
}

/// Forest version of `lemma_failure_is_case_failure`.
pub proof fn lemma_forest_failure_is_case_failure(ss: Seq<SuiteV>)
    ensures
        any_suite_failed(ss) == any_case_failed(forest_cases(ss)),
    decreases ss, 1int,
{
    if ss.len() == 0 {
        assert(!any_suite_failed(ss));
        assert(!any_case_failed(forest_cases(ss)));
    } else {
        let rest = ss.drop_last();
        lemma_forest_failure_is_case_failure(rest);
        lemma_failure_is_case_failure(ss.last());
        lemma_any_case_concat(forest_cases(rest), suite_cases(ss.last()));
        lemma_any_suite_snoc_full(ss);
    }
}

/// `any_case_failed` distributes over concatenation.
proof fn lemma_any_case_concat(a: Seq<CaseV>, b: Seq<CaseV>)
    ensures
        any_case_failed(a + b) == (any_case_failed(a) || any_case_failed(b)),
{
    if any_case_failed(a + b) {
        let k = choose|k: int| 0 <= k < (a + b).len() && case_failed(#[trigger] (a + b)[k]);
        if k < a.len() {
            assert(case_failed(a[k]));
        } else {
            assert(case_failed(b[k - a.len()]));
        }
    }
    if any_case_failed(a) {
        let k = choose|k: int| 0 <= k < a.len() && case_failed(#[trigger] a[k]);
        assert(case_failed((a + b)[k]));
    }
    if any_case_failed(b) {
        let k = choose|k: int| 0 <= k < b.len() && case_failed(#[trigger] b[k]);
        assert(case_failed((a + b)[a.len() + k]));
    }
}

/// A non-empty forest fails exactly when its front part or its last suite
/// does.
proof fn lemma_any_suite_snoc_full(ss: Seq<SuiteV>)
    requires
        ss.len() > 0,
    ensures
        any_suite_failed(ss) == (any_suite_failed(ss.drop_last()) || suite_has_failure(ss.last())),
{
    assert(ss.subrange(0, ss.len() as int) =~= ss);
    assert(ss.subrange(0, ss.len() - 1) =~= ss.drop_last());
    lemma_any_suite_snoc(ss, ss.len() - 1);
}

} // verus!
