//! Tree builder: converts a report into an ordered forest of display nodes,
//! a case-detail index keyed by case name (last write wins on collisions),
//! and rolled-up pass / failure / skip totals.

use vstd::hash_map::StringHashMap;
use vstd::prelude::*;

use crate::report::{
    counts_ok, effective_id, lemma_sums, lemma_sum_tests_prefix, report_wf, suite_wf, sum_failures,
    sum_passes, sum_skipped, sum_tests, CaseV, Report, Status, StatusV, Suite, SuiteV,
};

verus! {

broadcast use vstd::std_specs::vec::group_vec_axioms, vstd::seq::group_seq_axioms;

/// Display colour of a tree node: red for failure or error, yellow for
/// skipped, green otherwise.
#[derive(Clone, Copy, PartialEq, Eq, Structural, Debug)]
pub enum NodeColor {
    Red,
    Yellow,
    Green,
}

/// A display node: one per suite (internal node) and one per case (leaf).
pub struct TreeNode {
    pub id: String,
    pub label: String,
    pub color: NodeColor,
    pub children: Vec<TreeNode>,
}

/// Mathematical value of a `TreeNode`.
pub ghost struct TreeNodeV {
    pub id: Seq<char>,
    pub label: Seq<char>,
    pub color: NodeColor,
    pub children: Seq<TreeNodeV>,
}

/// Mathematical value of a single display node.
pub open spec fn node_view(t: TreeNode) -> TreeNodeV
    decreases t,
{
    TreeNodeV {
        id: t.id@,
        label: t.label@,
        color: t.color,
        children: nodes_view(t.children@),
    }
}

/// Mathematical value of a sequence of display nodes.
pub open spec fn nodes_view(ts: Seq<TreeNode>) -> Seq<TreeNodeV>
    decreases ts,
{
    if ts.len() == 0 {
        Seq::empty()
    } else {
        nodes_view(ts.drop_last()).push(node_view(ts.last()))
    }
}

impl View for TreeNode {
    type V = TreeNodeV;

    open spec fn view(&self) -> TreeNodeV {
        node_view(*self)
    }
}

/// `nodes_view` is a pointwise map of `node_view` over the sequence.
pub proof fn lemma_nodes_view(ts: Seq<TreeNode>)
    ensures
        nodes_view(ts).len() == ts.len(),
        forall|i: int| 0 <= i < ts.len() ==> nodes_view(ts)[i] == node_view(#[trigger] ts[i]),
    decreases ts.len(),
{
    if ts.len() > 0 {
        lemma_nodes_view(ts.drop_last());
        assert forall|i: int| 0 <= i < ts.len() implies nodes_view(ts)[i] == node_view(
            #[trigger] ts[i],
        ) by {
            if i < ts.len() - 1 {
                assert(ts.drop_last()[i] == ts[i]);
            }
        }
    }
}

/// Colour of a case leaf, derived from the case's outcome.
pub open spec fn color_of_status(st: StatusV) -> NodeColor {
    if st is Failure || st is Error {
        NodeColor::Red
    } else if st is Skipped {
        NodeColor::Yellow
    } else {
        NodeColor::Green
    }
}

/// Colour of a suite node, derived from its declared counts.
pub open spec fn suite_color(s: SuiteV) -> NodeColor {
    if s.failures > 0 {
        NodeColor::Red
    } else if s.skipped > 0 {
        NodeColor::Yellow
    } else {
        NodeColor::Green
    }
}

/// The leaf node a case is turned into.
pub open spec fn node_of_case(c: CaseV) -> TreeNodeV {
    TreeNodeV {
        id: c.name,
        label: c.name,
        color: color_of_status(c.status),
        children: Seq::empty(),
    }
}

/// The leaf nodes of a sequence of cases, in order.
pub open spec fn case_nodes(cs: Seq<CaseV>) -> Seq<TreeNodeV> {
    Seq::new(cs.len(), |i: int| node_of_case(cs[i]))
}

/// The node a suite is turned into: nested suites first, then the suite's own
/// cases, all in source order.
pub open spec fn node_of_suite(s: SuiteV) -> TreeNodeV
    decreases s,
{
    TreeNodeV {
        id: effective_id(s),
        label: s.name,
        color: suite_color(s),
        children: suite_nodes(s.suites) + case_nodes(s.cases),
    }
}

/// The nodes of a sequence of suites, in order.
pub open spec fn suite_nodes(ss: Seq<SuiteV>) -> Seq<TreeNodeV>
    decreases ss,
{
    if ss.len() == 0 {
        Seq::empty()
    } else {
        suite_nodes(ss.drop_last()).push(node_of_suite(ss.last()))
    }
}

/// All cases beneath a suite, in traversal order: cases of nested suites
/// first, then the suite's own cases.
pub open spec fn suite_cases(s: SuiteV) -> Seq<CaseV>
    decreases s,
{
    forest_cases(s.suites) + s.cases
}

/// All cases beneath a sequence of suites, in traversal order.
pub open spec fn forest_cases(ss: Seq<SuiteV>) -> Seq<CaseV>
    decreases ss,
{
    if ss.len() == 0 {
        Seq::empty()
    } else {
        forest_cases(ss.drop_last()) + suite_cases(ss.last())
    }
}

/// Detail recorded for a case in the case index.
pub struct TestInfo {
    pub output: Option<String>,
    pub result: Status,
}

/// Mathematical value of a `TestInfo`.
pub ghost struct TestInfoV {
    pub output: Option<Seq<char>>,
    pub result: StatusV,
}

impl View for TestInfo {
    type V = TestInfoV;

    open spec fn view(&self) -> TestInfoV {
        TestInfoV {
            output: match self.output {
                Some(o) => Some(o@),
                None => None,
            },
            result: self.result@,
        }
    }
}

/// The detail a case contributes to the case index.
pub open spec fn info_of(c: CaseV) -> TestInfoV {
    TestInfoV { output: c.output, result: c.status }
}

/// The case index as a mathematical map: the values of an exec map, viewed.
pub open spec fn infos_view(m: Map<Seq<char>, TestInfo>) -> Map<Seq<char>, TestInfoV> {
    m.map_values(|v: TestInfo| v@)
}

/// Extends an index with a sequence of cases in order; a later case with the
/// same name overwrites an earlier one.
pub open spec fn index_extend(m: Map<Seq<char>, TestInfoV>, cs: Seq<CaseV>) -> Map<
    Seq<char>,
    TestInfoV,
>
    decreases cs.len(),
{
    if cs.len() == 0 {
        m
    } else {
        index_extend(m, cs.drop_last()).insert(cs.last().name, info_of(cs.last()))
    }
}

/// The case index built from a sequence of cases in traversal order.
pub open spec fn case_index(cs: Seq<CaseV>) -> Map<Seq<char>, TestInfoV> {
    index_extend(Map::empty(), cs)
}

/// One complete, immutable materialization of a report: the display forest,
/// the case-detail index, and the aggregate totals.
pub struct TestRun {
    pub tree: Vec<TreeNode>,
    pub cases: StringHashMap<TestInfo>,
    pub passes: u64,
    pub failures: u64,
    pub skipped: u64,
}

/// Everything `TestRun::new` guarantees about the run built from a report:
/// the display forest, the case index and the totals are all the unique
/// values the report determines.
pub open spec fn is_build_of(rv: Seq<SuiteV>, r: TestRun) -> bool {
    &&& nodes_view(r.tree@) == suite_nodes(rv)
    &&& infos_view(r.cases@) == case_index(forest_cases(rv))
    &&& r.passes == sum_passes(rv)
    &&& r.failures == sum_failures(rv)
    &&& r.skipped == sum_skipped(rv)
}

/// Extending an index by a concatenation extends it by each part in turn.
pub proof fn lemma_index_extend_concat(m: Map<Seq<char>, TestInfoV>, a: Seq<CaseV>, b: Seq<CaseV>)
    ensures
        index_extend(m, a + b) == index_extend(index_extend(m, a), b),
    decreases b.len(),
{
    if b.len() == 0 {
        assert(a + b =~= a);
    } else {
        assert((a + b).drop_last() =~= a + b.drop_last());
        lemma_index_extend_concat(m, a, b.drop_last());
        assert((a + b).last() == b.last());
    }
}

/// Viewing the values of an exec index commutes with inserting one entry.
pub proof fn lemma_infos_view_insert(m: Map<Seq<char>, TestInfo>, k: Seq<char>, v: TestInfo)
    ensures
        infos_view(m.insert(k, v)) == infos_view(m).insert(k, v@),
{
    assert(infos_view(m.insert(k, v)) =~= infos_view(m).insert(k, v@));
}

/// Copies a status value.
fn clone_status(s: &Status) -> (r: Status)
    ensures
        r@ == s@,
{
    match s {
        Status::Success => Status::Success,
        Status::Failure { message, text } => Status::Failure {
            message: message.clone(),
            text: text.clone(),
        },
        Status::Error { message, text } => Status::Error {
            message: message.clone(),
            text: text.clone(),
        },
        Status::Skipped { message, text } => Status::Skipped {
            message: message.clone(),
            text: text.clone(),
        },
    }
}

/// Copies an optional captured-output string.
fn clone_opt_string(o: &Option<String>) -> (r: Option<String>)
    ensures
        (match r {
            Some(s) => Some(s@),
            None => None,
        }) == (match *o {
            Some(s) => Some(s@),
            None => None,
        }),
{
    match o {
        Some(s) => Some(s.clone()),
        None => None,
    }
}

/// Colour of the leaf for a case with this outcome.
fn status_color(s: &Status) -> (c: NodeColor)
    ensures
        c == color_of_status(s@),
{
    match s {
        Status::Failure { .. } => NodeColor::Red,
        Status::Error { .. } => NodeColor::Red,
        Status::Skipped { .. } => NodeColor::Yellow,
        Status::Success => NodeColor::Green,
    }
}

/// Builds the display node of one suite, depth first and in source order, and
/// records every case beneath it in the index, later entries overwriting
/// earlier ones of the same name.
fn build_tree(suite: &Suite, cases: &mut StringHashMap<TestInfo>) -> (t: TreeNode)
    ensures
        t@ == node_of_suite(suite@),
        infos_view(final(cases)@) == index_extend(infos_view(old(cases)@), suite_cases(suite@)),
    decreases *suite,
{
    let ghost sv = suite@;
    let ghost m0 = infos_view(cases@);
    let mut children: Vec<TreeNode> = Vec::new();
    proof {
        crate::report::lemma_suites_view(suite.suites@);
        assert(sv.suites.len() == suite.suites@.len());
        assert(sv.suites.subrange(0, 0) =~= Seq::<SuiteV>::empty());
        assert(forest_cases(sv.suites.subrange(0, 0)) =~= Seq::<CaseV>::empty());
    }
    let n = suite.suites.len();
    let mut i: usize = 0;
    while i < n
        invariant
            i <= n,
            n == suite.suites@.len(),
            sv == suite@,
            m0 == infos_view(old(cases)@),
            nodes_view(children@) == suite_nodes(sv.suites.subrange(0, i as int)),
            infos_view(cases@) == index_extend(m0, forest_cases(sv.suites.subrange(0, i as int))),
        decreases n - i,
    {
        proof {
            crate::report::lemma_suites_view(suite.suites@);
            assert(sv.suites[i as int] == suite.suites[i as int]@);
        }
        let ghost prev = children@;
        let child = build_tree(&suite.suites[i], cases);
        children.push(child);
        proof {
            assert(children@.drop_last() =~= prev);
            assert(children@.last() == child);
            assert(sv.suites.subrange(0, i + 1).drop_last() =~= sv.suites.subrange(0, i as int));
            assert(sv.suites.subrange(0, i + 1).last() == sv.suites[i as int]);
            assert(forest_cases(sv.suites.subrange(0, i + 1)) == forest_cases(
                sv.suites.subrange(0, i as int),
            ) + suite_cases(sv.suites[i as int]));
            lemma_index_extend_concat(
                m0,
                forest_cases(sv.suites.subrange(0, i as int)),
                suite_cases(sv.suites[i as int]),
            );
        }
        i = i + 1;
    }
    proof {
        assert(sv.suites.subrange(0, n as int) =~= sv.suites);
    }
    let m = suite.cases.len();
    let mut j: usize = 0;
    while j < m
        invariant
            j <= m,
            m == suite.cases@.len(),
            sv == suite@,
            m0 == infos_view(old(cases)@),
            nodes_view(children@) == suite_nodes(sv.suites) + case_nodes(
                sv.cases.subrange(0, j as int),
            ),
            infos_view(cases@) == index_extend(
                m0,
                forest_cases(sv.suites) + sv.cases.subrange(0, j as int),
            ),
        decreases m - j,
    {
        let c = &suite.cases[j];
        let info = TestInfo { output: clone_opt_string(&c.output), result: clone_status(&c.status) };
        proof {
            assert(sv.cases[j as int] == suite.cases[j as int]@);
            assert(info@ == info_of(sv.cases[j as int]));
            lemma_infos_view_insert(cases@, c.name@, info);
            assert((forest_cases(sv.suites) + sv.cases.subrange(0, j + 1)).drop_last()
                =~= forest_cases(sv.suites) + sv.cases.subrange(0, j as int));
            assert((forest_cases(sv.suites) + sv.cases.subrange(0, j + 1)).last() == sv.cases[
                j as int
            ]);
        }
        cases.insert(c.name.clone(), info);
        let leaf = TreeNode {
            id: c.name.clone(),
            label: c.name.clone(),
            color: status_color(&c.status),
            children: Vec::new(),
        };
        proof {
            assert(node_view(leaf).children =~= Seq::<TreeNodeV>::empty());
            assert(node_view(leaf) =~= node_of_case(sv.cases[j as int]));
        }
        let ghost prev = children@;
        children.push(leaf);
        proof {
            assert(children@.drop_last() =~= prev);
            assert(children@.last() == leaf);
            assert(case_nodes(sv.cases.subrange(0, j + 1)) =~= case_nodes(
                sv.cases.subrange(0, j as int),
            ).push(node_of_case(sv.cases[j as int])));
            assert(nodes_view(children@) =~= (suite_nodes(sv.suites) + case_nodes(
                sv.cases.subrange(0, j + 1),
            )));
        }
        j = j + 1;
    }
    proof {
        assert(sv.cases.subrange(0, m as int) =~= sv.cases);
        assert(forest_cases(sv.suites) + sv.cases =~= suite_cases(sv));
    }
    let id = match &suite.id {
        Some(s) => s.clone(),
        None => suite.name.clone(),
    };
    let color = if suite.failures > 0 {
        NodeColor::Red
    } else if suite.skipped > 0 {
        NodeColor::Yellow
    } else {
        NodeColor::Green
    };
    let t = TreeNode { id, label: suite.name.clone(), color, children };
    proof {
        assert(node_view(t) =~= node_of_suite(sv));
    }
    t
}

impl TestRun {
    /// Materializes a report: builds the display forest and case index by a
    /// depth-first, order-preserving traversal, and sums the totals over the
    /// top-level suites. The totals always satisfy
    /// `passes + failures + skipped == sum of the declared suite totals`.
    pub fn new(suites: Report) -> (r: TestRun)
        requires
            report_wf(suites@),
        ensures
            is_build_of(suites@, r),
            r.passes + r.failures + r.skipped == sum_tests(suites@),
    {
        let ghost rv = suites@;
        let n = suites.suites.len();
        proof {
            crate::report::lemma_suites_view(suites.suites@);
            assert(rv.subrange(0, 0) =~= Seq::<SuiteV>::empty());
        }
        let mut passes: u64 = 0;
        let mut failures: u64 = 0;
        let mut skipped: u64 = 0;
        let mut i: usize = 0;
        while i < n
            invariant
                i <= n,
                n == suites.suites@.len(),
                rv == suites@,
                report_wf(rv),
                rv.len() == n,
                forall|k: int| 0 <= k < n ==> rv[k] == suites.suites@[k]@,
                passes == sum_passes(rv.subrange(0, i as int)),
                failures == sum_failures(rv.subrange(0, i as int)),
                skipped == sum_skipped(rv.subrange(0, i as int)),
            decreases n - i,
        {
            proof {
                assert(rv.subrange(0, i + 1).drop_last() =~= rv.subrange(0, i as int));
                assert(rv.subrange(0, i + 1).last() == rv[i as int]);
                assert(suite_wf(rv[i as int]));
                assert forall|k: int| 0 <= k < rv.subrange(0, i + 1).len() implies counts_ok(
                    #[trigger] rv.subrange(0, i + 1)[k],
                ) by {
                    assert(rv.subrange(0, i + 1)[k] == rv[k]);
                    assert(suite_wf(rv[k]));
                }
                lemma_sums(rv.subrange(0, i + 1));
                lemma_sum_tests_prefix(rv, i + 1);
            }
            let s = &suites.suites[i];
            passes = passes + (s.tests - s.errors - s.failures - s.skipped);
            failures = failures + (s.failures + s.errors);
            skipped = skipped + s.skipped;
            i = i + 1;
        }
        proof {
            assert(rv.subrange(0, n as int) =~= rv);
        }
        let mut cases: StringHashMap<TestInfo> = StringHashMap::new();
        let mut tree: Vec<TreeNode> = Vec::new();
        proof {
            assert(infos_view(cases@) =~= Map::<Seq<char>, TestInfoV>::empty());
            assert(forest_cases(rv.subrange(0, 0)) =~= Seq::<CaseV>::empty());
        }
        let mut i: usize = 0;
        while i < n
            invariant
                i <= n,
                n == suites.suites@.len(),
                rv == suites@,
                rv.len() == n,
                forall|k: int| 0 <= k < n ==> rv[k] == suites.suites@[k]@,
                nodes_view(tree@) == suite_nodes(rv.subrange(0, i as int)),
                infos_view(cases@) == case_index(forest_cases(rv.subrange(0, i as int))),
            decreases n - i,
        {
            let ghost prev = tree@;
            let node = build_tree(&suites.suites[i], &mut cases);
            tree.push(node);
            proof {
                assert(tree@.drop_last() =~= prev);
                assert(tree@.last() == node);
                assert(rv.subrange(0, i + 1).drop_last() =~= rv.subrange(0, i as int));
                assert(rv.subrange(0, i + 1).last() == rv[i as int]);
                assert(forest_cases(rv.subrange(0, i + 1)) == forest_cases(
                    rv.subrange(0, i as int),
                ) + suite_cases(rv[i as int]));
                lemma_index_extend_concat(
                    Map::empty(),
                    forest_cases(rv.subrange(0, i as int)),
                    suite_cases(rv[i as int]),
                );
            }
            i = i + 1;
        }
        proof {
            assert(rv.subrange(0, n as int) =~= rv);
            assert forall|k: int| 0 <= k < rv.len() implies counts_ok(#[trigger] rv[k]) by {
                assert(suite_wf(rv[k]));
            }
            lemma_sums(rv);
        }
        TestRun { tree, cases, passes, failures, skipped }
    }
}

/// Building a run from a report is deterministic: two runs built from the
/// same report have identical tree shapes, identical case indexes, and
/// identical totals.
pub proof fn lemma_build_deterministic(rv: Seq<SuiteV>, r1: TestRun, r2: TestRun)
    requires
        is_build_of(rv, r1),
        is_build_of(rv, r2),
    ensures
        nodes_view(r1.tree@) == nodes_view(r2.tree@),
        infos_view(r1.cases@) == infos_view(r2.cases@),
        r1.passes == r2.passes,
        r1.failures == r2.failures,
        r1.skipped == r2.skipped,
{
}

/// When a name's last occurrence in traversal order is at position `j`, the
/// case index binds that name to exactly that occurrence's detail: on a name
/// collision the case visited last wins.
pub proof fn lemma_case_collision(cs: Seq<CaseV>, j: int)
    requires
        0 <= j < cs.len(),
        forall|k: int| j < k < cs.len() ==> (#[trigger] cs[k]).name != cs[j].name,
    ensures
        case_index(cs).contains_key(cs[j].name),
        case_index(cs)[cs[j].name] == info_of(cs[j]),
    decreases cs.len(),
{
    if j == cs.len() - 1 {
    } else {
        assert(cs.last().name != cs[j].name);
        assert(cs.drop_last()[j] == cs[j]);
        assert forall|k: int| j < k < cs.drop_last().len() implies (#[trigger] cs.drop_last()[k]).name
            != cs.drop_last()[j].name by {
            assert(cs.drop_last()[k] == cs[k]);
        }
        lemma_case_collision(cs.drop_last(), j);
    }
}

/// Number of childless nodes in a display tree.
pub open spec fn leaf_count(t: TreeNodeV) -> int
    decreases t,
{
    if t.children.len() == 0 {
        1
    } else {
        forest_leaf_count(t.children)
    }
}

/// Number of childless nodes in a display forest.
pub open spec fn forest_leaf_count(ts: Seq<TreeNodeV>) -> int
    decreases ts,
{
    if ts.len() == 0 {
        0
    } else {
        forest_leaf_count(ts.drop_last()) + leaf_count(ts.last())
    }
}

/// A suite that has at least one child at every level: such a suite's node is
/// never itself a leaf.
pub open spec fn suite_inhabited(s: SuiteV) -> bool
    decreases s,
{
    s.suites.len() + s.cases.len() > 0 && forall|i: int|
        0 <= i < s.suites.len() ==> suite_inhabited(#[trigger] s.suites[i])
}

/// Leaf nodes correspond one to one with cases: for a report whose suites all
/// have at least one child, the display forest has exactly one leaf per case,
/// flattened across nesting. (A suite with no children at all would add one
/// childless node of its own.)
pub proof fn lemma_leaf_count(ss: Seq<SuiteV>)
    requires
        forall|i: int| 0 <= i < ss.len() ==> suite_inhabited(#[trigger] ss[i]),
    ensures
        forest_leaf_count(suite_nodes(ss)) == forest_cases(ss).len(),
    decreases ss, 1int,
{
    if ss.len() > 0 {
        assert forall|i: int| 0 <= i < ss.drop_last().len() implies suite_inhabited(
            #[trigger] ss.drop_last()[i],
        ) by {
            assert(ss.drop_last()[i] == ss[i]);
        }
        lemma_leaf_count(ss.drop_last());
        lemma_leaf_count_suite(ss.last());
        assert(suite_nodes(ss).drop_last() =~= suite_nodes(ss.drop_last()));
        assert(suite_nodes(ss).last() == node_of_suite(ss.last()));
        assert(forest_leaf_count(suite_nodes(ss)) == forest_leaf_count(suite_nodes(ss.drop_last()))
            + leaf_count(node_of_suite(ss.last())));
    }
}

/// One suite's node contains exactly one leaf per case beneath the suite.
pub proof fn lemma_leaf_count_suite(s: SuiteV)
    requires
        suite_inhabited(s),
    ensures
        leaf_count(node_of_suite(s)) == suite_cases(s).len(),
    decreases s, 0int,
{
    lemma_forest_leaf_concat(suite_nodes(s.suites), case_nodes(s.cases));
    lemma_leaf_count(s.suites);
    lemma_case_nodes_leaves(s.cases);
    assert(node_of_suite(s).children.len() > 0) by {
        lemma_suite_nodes_len(s.suites);
    }
}

/// A sequence of suites yields one node per suite.
pub proof fn lemma_suite_nodes_len(ss: Seq<SuiteV>)
    ensures
        suite_nodes(ss).len() == ss.len(),
    decreases ss,
{
    if ss.len() > 0 {
        lemma_suite_nodes_len(ss.drop_last());
    }
}

/// Leaf counting distributes over concatenation of forests.
pub proof fn lemma_forest_leaf_concat(a: Seq<TreeNodeV>, b: Seq<TreeNodeV>)
    ensures
        forest_leaf_count(a + b) == forest_leaf_count(a) + forest_leaf_count(b),
    decreases b.len(),
{
    if b.len() == 0 {
        assert(a + b =~= a);
    } else {
        assert((a + b).drop_last() =~= a + b.drop_last());
        assert((a + b).last() == b.last());
        lemma_forest_leaf_concat(a, b.drop_last());
    }
}

/// Every node built from a case is a leaf, so a sequence of cases yields
/// exactly as many leaves as cases.
pub proof fn lemma_case_nodes_leaves(cs: Seq<CaseV>)
    ensures
        forest_leaf_count(case_nodes(cs)) == cs.len(),
    decreases cs.len(),
{
    if cs.len() > 0 {
        assert(case_nodes(cs).drop_last() =~= case_nodes(cs.drop_last()));
        assert(case_nodes(cs).last() == node_of_case(cs.last()));
        lemma_case_nodes_leaves(cs.drop_last());
        assert(node_of_case(cs.last()).children.len() == 0);
        assert(leaf_count(node_of_case(cs.last())) == 1);
        assert(forest_leaf_count(case_nodes(cs)) == forest_leaf_count(case_nodes(cs.drop_last()))
            + leaf_count(node_of_case(cs.last())));
    }
}

} // verus!
