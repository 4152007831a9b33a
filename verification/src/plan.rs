//! The plan pane: its tree of nodes, selection, folding and scrolling.
use crate::ordered;
use crate::ordered::TextSet;
use crate::plan_model;
use crate::plan_model::{
    PlanAttemptProgressSnapshot, PlanAttemptSnapshot, PlanExecutorPolicy, PlanLeaseSnapshot,
    PlanLeaseStatus, PlanLinkSnapshot, PlanLinkStatus, PlanNodeSnapshot, PlanNodeStatus,
    PlanSnapshot, SubagentActivitySnapshot,
};
use crate::text;
use vstd::prelude::*;

verus! {

/// How many nodes are live, ready and blocked.
#[derive(Debug, Clone, Copy, PartialEq, Eq, Structural)]
pub struct PlanCounts {
    pub live: usize,
    pub ready: usize,
    pub blocked: usize,
}

/// A row of the tree.
#[derive(Debug, PartialEq, Eq)]
pub struct PlanTreeRow {
    pub node_id: String,
    pub depth: usize,
    pub has_children: bool,
    pub collapsed: bool,
    pub ready: bool,
    pub status: PlanNodeStatus,
    pub executor_policy: PlanExecutorPolicy,
    pub objective: String,
    pub activity: Option<SubagentActivitySnapshot>,
}

/// The state of the plan pane.
#[derive(Debug, PartialEq, Eq)]
pub struct PlanUiState {
    pub snapshot: Option<PlanSnapshot>,
    pub selected_node_id: Option<String>,
    pub collapsed_node_ids: TextSet,
    pub scroll_offset: usize,
    pub inspector_scroll_offset: usize,
    pub subagent_activity: Vec<SubagentActivitySnapshot>,
    pub open: bool,
    pub focused: bool,
    pub inspector_open: bool,
}

/// A node that has not been superseded.
pub open spec fn current(n: PlanNodeSnapshot) -> bool {
    n.status != PlanNodeStatus::Superseded
}

/// Whether a current node with this id exists.
pub open spec fn known(nodes: Seq<PlanNodeSnapshot>, id: Seq<char>) -> bool {
    exists|i: int| 0 <= i < nodes.len() && current(#[trigger] nodes[i]) && nodes[i].id@ == id
}

pub open spec fn is_child(n: PlanNodeSnapshot, parent: Option<Seq<char>>) -> bool {
    plan_model::opt(n.parent_id) == parent && current(n)
}

/// Whether node `i` comes before node `j` among siblings.
pub open spec fn sibling_before(nodes: Seq<PlanNodeSnapshot>, i: int, j: int) -> bool {
    nodes[i].sibling_order < nodes[j].sibling_order || (nodes[i].sibling_order
        == nodes[j].sibling_order && ordered::lex_less(nodes[i].id@, nodes[j].id@))
}

/// The siblings with `i` put in behind those that do not come after it.
pub open spec fn with_sibling(nodes: Seq<PlanNodeSnapshot>, s: Seq<int>, i: int) -> Seq<int>
    decreases s.len(),
{
    if s.len() > 0 && sibling_before(nodes, i, s.last()) {
        with_sibling(nodes, s.drop_last(), i).push(s.last())
    } else {
        s.push(i)
    }
}

/// The current children of `parent` among the first `n` nodes, in order.
pub open spec fn children_among(
    nodes: Seq<PlanNodeSnapshot>,
    parent: Option<Seq<char>>,
    n: int,
) -> Seq<int>
    decreases n,
{
    if n <= 0 {
        Seq::empty()
    } else if is_child(nodes[n - 1], parent) {
        with_sibling(nodes, children_among(nodes, parent, n - 1), n - 1)
    } else {
        children_among(nodes, parent, n - 1)
    }
}

/// The current children of `parent` in order: by sibling order, then by id.
pub open spec fn children(nodes: Seq<PlanNodeSnapshot>, parent: Option<Seq<char>>) -> Seq<int> {
    children_among(nodes, parent, nodes.len() as int)
}

/// The position of the first listed node with an id.
pub open spec fn position_of(
    nodes: Seq<PlanNodeSnapshot>,
    list: Seq<int>,
    id: Seq<char>,
) -> Option<int>
    decreases list.len(),
{
    if list.len() == 0 {
        None
    } else {
        match position_of(nodes, list.drop_last(), id) {
            Some(p) => Some(p),
            None => if nodes[list.last()].id@ == id {
                Some(list.len() - 1)
            } else {
                None
            },
        }
    }
}

/// The nodes without a parent, the plan's root first.
pub open spec fn roots(snapshot: PlanSnapshot) -> Seq<int> {
    let all = children(snapshot.nodes@, None);
    match snapshot.root_node_id {
        Some(root) => match position_of(snapshot.nodes@, all, root@) {
            Some(p) => all.update(0, all[p]).update(p, all[0]),
            None => all,
        },
        None => all,
    }
}

/// The rows of a node and, where it is unfolded, of what lies below it. More levels
/// than there are nodes cannot occur in a tree; what lies deeper is cut off.
pub open spec fn subtree(
    nodes: Seq<PlanNodeSnapshot>,
    folded: Seq<Seq<char>>,
    i: int,
    depth: int,
    levels: nat,
) -> Seq<(int, int)>
    decreases levels, 0nat,
{
    if folded.contains(nodes[i].id@) || levels == 0 {
        seq![(i, depth)]
    } else {
        seq![(i, depth)] + forest(
            nodes,
            folded,
            children(nodes, Some(nodes[i].id@)),
            depth + 1,
            (levels - 1) as nat,
        )
    }
}

/// The rows of some nodes and of what lies below them.
pub open spec fn forest(
    nodes: Seq<PlanNodeSnapshot>,
    folded: Seq<Seq<char>>,
    list: Seq<int>,
    depth: int,
    levels: nat,
) -> Seq<(int, int)>
    decreases levels, list.len() + 1,
{
    if list.len() == 0 {
        Seq::empty()
    } else {
        forest(nodes, folded, list.drop_last(), depth, levels) + subtree(
            nodes,
            folded,
            list.last(),
            depth,
            levels,
        )
    }
}

/// The rows of the tree as pairs of a node and its depth.
pub open spec fn tree_rows(snapshot: PlanSnapshot, folded: Seq<Seq<char>>) -> Seq<(int, int)> {
    forest(snapshot.nodes@, folded, roots(snapshot), 0, snapshot.nodes@.len())
}

/// Whether every dependency of a node is completed.
pub open spec fn dependencies_completed(nodes: Seq<PlanNodeSnapshot>, n: PlanNodeSnapshot) -> bool {
    forall|d: int|
        0 <= d < n.depends_on@.len() ==> completed(nodes, #[trigger] n.depends_on@[d]@)
}

pub open spec fn completed(nodes: Seq<PlanNodeSnapshot>, id: Seq<char>) -> bool {
    exists|i: int|
        0 <= i < nodes.len() && (#[trigger] nodes[i]).id@ == id && nodes[i].status
            == PlanNodeStatus::Completed
}

pub open spec fn has_current_child(nodes: Seq<PlanNodeSnapshot>, id: Seq<char>) -> bool {
    exists|i: int| 0 <= i < nodes.len() && is_child(#[trigger] nodes[i], Some(id))
}

/// A node is ready when nothing works on it, its dependencies are completed, and it is
/// a pending leaf or a verifying parent of completed children only.
pub open spec fn ready(nodes: Seq<PlanNodeSnapshot>, n: PlanNodeSnapshot) -> bool {
    &&& current(n)
    &&& n.execution_summary.active == 0
    &&& dependencies_completed(nodes, n)
    &&& if has_current_child(nodes, n.id@) {
        &&& n.status == PlanNodeStatus::Verifying
        &&& forall|i: int|
            0 <= i < nodes.len() && is_child(#[trigger] nodes[i], Some(n.id@)) ==> nodes[i].status
                == PlanNodeStatus::Completed
    } else {
        n.status == PlanNodeStatus::Pending
    }
}

/// What is known of a subagent's task: the report with the latest time, of several the last.
pub open spec fn latest_report(
    reports: Seq<SubagentActivitySnapshot>,
    subagent: Seq<char>,
    task: Seq<char>,
) -> Option<int>
    decreases reports.len(),
{
    if reports.len() == 0 {
        None
    } else {
        let before = latest_report(reports.drop_last(), subagent, task);
        let last = reports.last();
        if last.subagent_id@ == subagent && last.task_id@ == task && (before is None
            || reports[before->0].updated_at_ms <= last.updated_at_ms) {
            Some(reports.len() - 1)
        } else {
            before
        }
    }
}

pub open spec fn link_counts(link: PlanLinkSnapshot) -> bool {
    link.status != PlanLinkStatus::Superseded && link.superseded_by is None
}

/// The latest report of a node's linked tasks, of several the last in link order.
pub open spec fn node_report(
    reports: Seq<SubagentActivitySnapshot>,
    links: Seq<PlanLinkSnapshot>,
) -> Option<int>
    decreases links.len(),
{
    if links.len() == 0 {
        None
    } else {
        let before = node_report(reports, links.drop_last());
        let link = links.last();
        match latest_report(reports, link.subagent_id@, link.task_id@) {
            Some(r) => if link_counts(link) && (before is None
                || reports[before->0].updated_at_ms <= reports[r].updated_at_ms) {
                Some(r)
            } else {
                before
            },
            None => before,
        }
    }
}

/// A node whose path is kept unfolded.
pub open spec fn active_node(snapshot: PlanSnapshot, id: Seq<char>) -> bool {
    ||| exists|i: int|
        0 <= i < snapshot.nodes@.len() && (#[trigger] snapshot.nodes@[i]).id@ == id && at_work(
            snapshot.nodes@[i],
        )
    ||| exists|i: int|
        0 <= i < snapshot.leases@.len() && (#[trigger] snapshot.leases@[i]).node_id@ == id
            && snapshot.leases@[i].status is Live
}

pub open spec fn at_work(n: PlanNodeSnapshot) -> bool {
    ||| n.status == PlanNodeStatus::InProgress
    ||| n.status == PlanNodeStatus::Verifying
    ||| n.execution_summary.active > 0
    ||| exists|k: int|
        0 <= k < n.links@.len() && (#[trigger] n.links@[k]).status == PlanLinkStatus::Active
}

/// The parent of the first node with an id.
pub open spec fn parent_of(nodes: Seq<PlanNodeSnapshot>, id: Seq<char>) -> Option<Seq<char>> {
    match plan_model::first_with_key(nodes, id) {
        Some(i) => plan_model::opt(nodes[i].parent_id),
        None => None,
    }
}

/// The ids above a node, up to `levels` of them.
pub open spec fn ancestors(nodes: Seq<PlanNodeSnapshot>, id: Seq<char>, levels: nat) -> Seq<
    Seq<char>,
>
    decreases levels,
{
    if levels == 0 {
        Seq::empty()
    } else {
        match parent_of(nodes, id) {
            Some(p) => seq![p] + ancestors(nodes, p, (levels - 1) as nat),
            None => Seq::empty(),
        }
    }
}

/// Whether an active node lies below `id`. A chain longer than there are nodes cannot
/// occur in a tree.
pub open spec fn on_active_path(snapshot: PlanSnapshot, id: Seq<char>) -> bool {
    exists|a: Seq<char>|
        active_node(snapshot, a) && (#[trigger] ancestors(
            snapshot.nodes@,
            a,
            snapshot.nodes@.len(),
        )).contains(id)
}

/// What a row shows of a node.
pub open spec fn is_row(
    row: PlanTreeRow,
    nodes: Seq<PlanNodeSnapshot>,
    folded: Seq<Seq<char>>,
    reports: Seq<SubagentActivitySnapshot>,
    at: (int, int),
) -> bool {
    let n = nodes[at.0];
    &&& row.node_id@ == n.id@
    &&& row.depth == at.1
    &&& row.has_children == has_current_child(nodes, n.id@)
    &&& row.collapsed == folded.contains(n.id@)
    &&& row.ready == ready(nodes, n)
    &&& row.status == n.status
    &&& row.executor_policy == n.executor_policy
    &&& row.objective@ == n.objective@
    &&& row.activity == match node_report(reports, n.links@) {
        Some(r) => Some(reports[r]),
        None => None,
    }
}

pub open spec fn are_rows(
    rows: Seq<PlanTreeRow>,
    nodes: Seq<PlanNodeSnapshot>,
    folded: Seq<Seq<char>>,
    reports: Seq<SubagentActivitySnapshot>,
    at: Seq<(int, int)>,
) -> bool {
    &&& rows.len() == at.len()
    &&& forall|k: int|
        0 <= k < rows.len() ==> is_row(#[trigger] rows[k], nodes, folded, reports, at[k])
}

pub proof fn lemma_with_sibling(nodes: Seq<PlanNodeSnapshot>, s: Seq<int>, p: int, i: int)
    requires
        0 <= p <= s.len(),
        forall|k: int| p <= k < s.len() ==> sibling_before(nodes, i, #[trigger] s[k]),
        p > 0 ==> !sibling_before(nodes, i, s[p - 1]),
    ensures
        with_sibling(nodes, s, i) == s.insert(p, i),
    decreases s.len(),
{
    if p == s.len() {
        assert(s.insert(p, i) =~= s.push(i));
    } else {
        assert(sibling_before(nodes, i, s[s.len() - 1]));
        lemma_with_sibling(nodes, s.drop_last(), p, i);
        assert(s.drop_last().insert(p, i).push(s.last()) =~= s.insert(p, i));
    }
}

/// Which nodes are listed as children: the current ones with that parent, each once.
pub proof fn lemma_children_among(
    nodes: Seq<PlanNodeSnapshot>,
    parent: Option<Seq<char>>,
    n: int,
)
    requires
        0 <= n <= nodes.len(),
    ensures
        forall|k: int|
            0 <= k < children_among(nodes, parent, n).len() ==> 0 <= (
            #[trigger] children_among(nodes, parent, n)[k]) < n && is_child(
                nodes[children_among(nodes, parent, n)[k]],
                parent,
            ),
        forall|i: int|
            0 <= i < n && is_child(#[trigger] nodes[i], parent) ==> children_among(
                nodes,
                parent,
                n,
            ).contains(i),
        children_among(nodes, parent, n).len() <= n,
        children_among(nodes, parent, n).no_duplicates(),
    decreases n,
{
    if n > 0 {
        lemma_children_among(nodes, parent, n - 1);
        let before = children_among(nodes, parent, n - 1);
        let after = children_among(nodes, parent, n);
        if is_child(nodes[n - 1], parent) {
            assert(!before.contains(n - 1));
            lemma_with_sibling_contents(nodes, before, n - 1);
            assert forall|k: int| 0 <= k < after.len() implies 0 <= #[trigger] after[k] < n
                && is_child(nodes[after[k]], parent) by {
                assert(after.contains(after[k]));
                if after[k] != n - 1 {
                    assert(before.contains(after[k]));
                }
            }
            assert forall|i: int| 0 <= i < n && is_child(#[trigger] nodes[i], parent) implies
                after.contains(i) by {
                if i < n - 1 {
                    assert(before.contains(i));
                }
            }
        }
    }
}

proof fn lemma_with_sibling_contents(nodes: Seq<PlanNodeSnapshot>, s: Seq<int>, i: int)
    requires
        s.no_duplicates(),
        !s.contains(i),
    ensures
        with_sibling(nodes, s, i).len() == s.len() + 1,
        with_sibling(nodes, s, i).no_duplicates(),
        forall|x: int| with_sibling(nodes, s, i).contains(x) <==> s.contains(x) || x == i,
    decreases s.len(),
{
    let r = with_sibling(nodes, s, i);
    if s.len() > 0 && sibling_before(nodes, i, s.last()) {
        let init = s.drop_last();
        assert(!init.contains(i)) by {
            if init.contains(i) {
                let k = choose|k: int| 0 <= k < init.len() && init[k] == i;
                assert(s[k] == i);
            }
        }
        lemma_with_sibling_contents(nodes, init, i);
        let t = with_sibling(nodes, init, i);
        assert(s.contains(s.last()));
        assert(!init.contains(s.last())) by {
            if init.contains(s.last()) {
                let k = choose|k: int| 0 <= k < init.len() && init[k] == s.last();
                assert(s[k] == s[s.len() - 1]);
            }
        }
        assert(!t.contains(s.last()));
        assert forall|x: int| r.contains(x) <==> s.contains(x) || x == i by {
            if s.contains(x) {
                let k = choose|k: int| 0 <= k < s.len() && s[k] == x;
                if k < s.len() - 1 {
                    assert(init[k] == x);
                    assert(init.contains(x));
                    assert(t.contains(x));
                    let m = choose|m: int| 0 <= m < t.len() && t[m] == x;
                    assert(r[m] == x);
                } else {
                    assert(r[t.len() as int] == x);
                }
            }
            if x == i {
                assert(t.contains(x));
                let m = choose|m: int| 0 <= m < t.len() && t[m] == x;
                assert(r[m] == x);
            }
            if r.contains(x) {
                let m = choose|m: int| 0 <= m < r.len() && r[m] == x;
                if m < t.len() {
                    assert(t[m] == x);
                    assert(t.contains(x));
                    if init.contains(x) {
                        let k = choose|k: int| 0 <= k < init.len() && init[k] == x;
                        assert(s[k] == x);
                    }
                }
            }
        }
        assert forall|a: int, b: int| 0 <= a < r.len() && 0 <= b < r.len() && a != b implies r[a]
            != r[b] by {
            if a < t.len() {
                assert(t.contains(t[a]));
            }
            if b < t.len() {
                assert(t.contains(t[b]));
            }
        }
    } else {
        assert forall|x: int| r.contains(x) <==> s.contains(x) || x == i by {
            if s.contains(x) {
                let k = choose|k: int| 0 <= k < s.len() && s[k] == x;
                assert(r[k] == x);
            }
            assert(r[s.len() as int] == i);
        }
        assert forall|a: int, b: int| 0 <= a < r.len() && 0 <= b < r.len() && a != b implies r[a]
            != r[b] by {
            if a < s.len() {
                assert(s.contains(s[a]));
            }
            if b < s.len() {
                assert(s.contains(s[b]));
            }
        }
    }
}

/// Children come in order: none stands before one that comes before it.
pub proof fn children_are_in_order(
    nodes: Seq<PlanNodeSnapshot>,
    parent: Option<Seq<char>>,
    n: int,
)
    requires
        0 <= n <= nodes.len(),
    ensures
        forall|a: int, b: int|
            0 <= a < b < children_among(nodes, parent, n).len() ==> !sibling_before(
                nodes,
                #[trigger] children_among(nodes, parent, n)[b],
                #[trigger] children_among(nodes, parent, n)[a],
            ),
    decreases n,
{
    if n > 0 {
        children_are_in_order(nodes, parent, n - 1);
        if is_child(nodes[n - 1], parent) {
            lemma_with_sibling_order(nodes, children_among(nodes, parent, n - 1), n - 1);
        }
    }
}

proof fn lemma_sibling_before_order(nodes: Seq<PlanNodeSnapshot>, i: int, j: int, k: int)
    ensures
        sibling_before(nodes, i, j) && sibling_before(nodes, j, k) ==> sibling_before(nodes, i, k),
        sibling_before(nodes, i, j) && !sibling_before(nodes, k, j) ==> sibling_before(
            nodes,
            i,
            k,
        ),
        !(sibling_before(nodes, i, j) && sibling_before(nodes, j, i)),
{
    let a = nodes[i].id@;
    let b = nodes[j].id@;
    let c = nodes[k].id@;
    if ordered::lex_less(a, b) && ordered::lex_less(b, c) {
        ordered::lex_less_is_transitive(a, b, c);
    }
    if ordered::lex_less(a, b) && ordered::lex_less(b, a) {
        ordered::lex_less_is_transitive(a, b, a);
        ordered::lex_less_is_irreflexive(a);
    }
    ordered::lex_less_is_total(c, b);
}

proof fn lemma_with_sibling_order(nodes: Seq<PlanNodeSnapshot>, s: Seq<int>, i: int)
    requires
        forall|a: int, b: int|
            0 <= a < b < s.len() ==> !sibling_before(nodes, #[trigger] s[b], #[trigger] s[a]),
    ensures
        forall|a: int, b: int|
            0 <= a < b < with_sibling(nodes, s, i).len() ==> !sibling_before(
                nodes,
                #[trigger] with_sibling(nodes, s, i)[b],
                #[trigger] with_sibling(nodes, s, i)[a],
            ),
        forall|a: int|
            0 <= a < with_sibling(nodes, s, i).len() ==> #[trigger] with_sibling(nodes, s, i)[a]
                == i || exists|k: int|
                0 <= k < s.len() && #[trigger] s[k] == with_sibling(nodes, s, i)[a],
    decreases s.len(),
{
    let r = with_sibling(nodes, s, i);
    if s.len() > 0 && sibling_before(nodes, i, s.last()) {
        let init = s.drop_last();
        assert forall|a: int, b: int| 0 <= a < b < init.len() implies !sibling_before(
            nodes,
            #[trigger] init[b],
            #[trigger] init[a],
        ) by {
            assert(init[a] == s[a] && init[b] == s[b]);
        }
        lemma_with_sibling_order(nodes, init, i);
        let t = with_sibling(nodes, init, i);
        assert forall|a: int| 0 <= a < t.len() implies !sibling_before(
            nodes,
            s.last(),
            #[trigger] t[a],
        ) && (t[a] == i || exists|k: int| 0 <= k < s.len() && #[trigger] s[k] == t[a]) by {
            if t[a] == i {
                lemma_sibling_before_order(nodes, i, s.last(), i);
            } else {
                let k = choose|k: int| 0 <= k < init.len() && #[trigger] init[k] == t[a];
                assert(s[k] == t[a]);
                assert(!sibling_before(nodes, s[s.len() - 1], s[k]));
            }
        }
        assert forall|a: int, b: int| 0 <= a < b < r.len() implies !sibling_before(
            nodes,
            #[trigger] r[b],
            #[trigger] r[a],
        ) by {
            assert(r[a] == t[a]);
            if b < t.len() {
                assert(r[b] == t[b]);
            }
        }
        assert forall|a: int| 0 <= a < r.len() implies #[trigger] r[a] == i || exists|k: int|
            0 <= k < s.len() && #[trigger] s[k] == r[a] by {
            if a < t.len() {
                assert(r[a] == t[a]);
            } else {
                assert(s[s.len() - 1] == r[a]);
            }
        }
    } else {
        assert forall|a: int, b: int| 0 <= a < b < r.len() implies !sibling_before(
            nodes,
            #[trigger] r[b],
            #[trigger] r[a],
        ) by {
            assert(r[a] == s[a]);
            if b < s.len() {
                assert(r[b] == s[b]);
            } else if a < s.len() - 1 {
                assert(!sibling_before(nodes, s[s.len() - 1], s[a]));
                if sibling_before(nodes, i, s[a]) {
                    lemma_sibling_before_order(nodes, i, s[a], s[s.len() - 1]);
                }
            }
        }
        assert forall|a: int| 0 <= a < r.len() implies #[trigger] r[a] == i || exists|k: int|
            0 <= k < s.len() && #[trigger] s[k] == r[a] by {
            if a < s.len() {
                assert(s[a] == r[a]);
            }
        }
    }
}

pub open spec fn ints(v: Seq<usize>) -> Seq<int> {
    v.map_values(|x: usize| x as int)
}

fn is_child_of(n: &PlanNodeSnapshot, parent: Option<&str>) -> (r: bool)
    ensures
        r == is_child(
            *n,
            match parent {
                Some(p) => Some(p@),
                None => None,
            },
        ),
{
    if n.status == PlanNodeStatus::Superseded {
        return false;
    }
    match parent {
        Some(p) => plan_model::opt_is(&n.parent_id, p),
        None => n.parent_id.is_none(),
    }
}

fn sibling_is_before(nodes: &Vec<PlanNodeSnapshot>, i: usize, j: usize) -> (r: bool)
    requires
        i < nodes@.len(),
        j < nodes@.len(),
    ensures
        r == sibling_before(nodes@, i as int, j as int),
{
    nodes[i].sibling_order < nodes[j].sibling_order || (nodes[i].sibling_order
        == nodes[j].sibling_order && ordered::text_less(
        nodes[i].id.as_str(),
        nodes[j].id.as_str(),
    ))
}

/// The current children of `parent` in order: by sibling order, then by id.
pub fn children_of(nodes: &Vec<PlanNodeSnapshot>, parent: Option<&str>) -> (r: Vec<usize>)
    ensures
        ints(r@) == children(
            nodes@,
            match parent {
                Some(p) => Some(p@),
                None => None,
            },
        ),
        forall|k: int| 0 <= k < r@.len() ==> (#[trigger] r@[k]) < nodes@.len(),
{
    let ghost parent_view: Option<Seq<char>> = match parent {
        Some(p) => Some(p@),
        None => None,
    };
    let mut r: Vec<usize> = Vec::new();
    let mut i: usize = 0;
    proof {
        assert(ints(r@) =~= children_among(nodes@, parent_view, 0));
    }
    while i < nodes.len()
        invariant
            i <= nodes@.len(),
            parent_view == (match parent {
                Some(p) => Some(p@),
                None => None,
            }),
            ints(r@) == children_among(nodes@, parent_view, i as int),
            forall|k: int| 0 <= k < r@.len() ==> (#[trigger] r@[k]) < i,
        decreases nodes@.len() - i,
    {
        if is_child_of(&nodes[i], parent) {
            let mut p: usize = r.len();
            while p > 0 && sibling_is_before(nodes, i, r[p - 1])
                invariant
                    p <= r@.len(),
                    i < nodes@.len(),
                    forall|k: int| 0 <= k < r@.len() ==> (#[trigger] r@[k]) < i,
                    forall|k: int|
                        p <= k < ints(r@).len() ==> sibling_before(
                            nodes@,
                            i as int,
                            #[trigger] ints(r@)[k],
                        ),
                decreases p,
            {
                p -= 1;
            }
            let ghost before = r@;
            r.insert(p, i);
            proof {
                lemma_with_sibling(nodes@, ints(before), p as int, i as int);
                assert(ints(r@) =~= ints(before).insert(p as int, i as int));
            }
        }
        i += 1;
    }
    r
}

/// The nodes without a parent, the plan's root first.
pub fn root_nodes(snapshot: &PlanSnapshot) -> (r: Vec<usize>)
    ensures
        ints(r@) == roots(*snapshot),
        forall|k: int| 0 <= k < r@.len() ==> (#[trigger] r@[k]) < snapshot.nodes@.len(),
{
    let mut r = children_of(&snapshot.nodes, None);
    let ghost all = ints(r@);
    match &snapshot.root_node_id {
        None => {},
        Some(root) => {
            let mut p: usize = 0;
            proof {
                assert(all.take(0) =~= Seq::<int>::empty());
            }
            while p < r.len()
                invariant
                    p <= r@.len(),
                    all == ints(r@),
                    snapshot.root_node_id == Some(*root),
                    all == children(snapshot.nodes@, None),
                    forall|k: int| 0 <= k < r@.len() ==> (#[trigger] r@[k]) < snapshot.nodes@.len(),
                    position_of(snapshot.nodes@, all.take(p as int), root@) is None,
                decreases r@.len() - p,
            {
                proof {
                    assert(all.take(p + 1).drop_last() =~= all.take(p as int));
                }
                if text::same(snapshot.nodes[r[p]].id.as_str(), root.as_str()) {
                    proof {
                        lemma_position_in_prefix(snapshot.nodes@, all, p + 1, root@);
                    }
                    let first: usize = r[0];
                    let found: usize = r[p];
                    r.set(0, found);
                    r.set(p, first);
                    proof {
                        assert(ints(r@) =~= all.update(0, all[p as int]).update(p as int, all[0]));
                    }
                    return r;
                }
                p += 1;
            }
            proof {
                assert(all.take(p as int) =~= all);
            }
        },
    }
    r
}

proof fn lemma_position_in_prefix(
    nodes: Seq<PlanNodeSnapshot>,
    list: Seq<int>,
    n: int,
    id: Seq<char>,
)
    requires
        0 <= n <= list.len(),
        position_of(nodes, list.take(n), id) is Some,
    ensures
        position_of(nodes, list, id) == position_of(nodes, list.take(n), id),
    decreases list.len(),
{
    if n == list.len() {
        assert(list.take(n) =~= list);
    } else {
        assert(list.drop_last().take(n) =~= list.take(n));
        lemma_position_in_prefix(nodes, list.drop_last(), n, id);
    }
}

fn is_completed(nodes: &Vec<PlanNodeSnapshot>, id: &str) -> (r: bool)
    ensures
        r == completed(nodes@, id@),
{
    let mut i: usize = 0;
    while i < nodes.len()
        invariant
            i <= nodes@.len(),
            forall|k: int|
                0 <= k < i ==> !((#[trigger] nodes@[k]).id@ == id@ && nodes@[k].status
                    == PlanNodeStatus::Completed),
        decreases nodes@.len() - i,
    {
        if nodes[i].status == PlanNodeStatus::Completed && text::same(nodes[i].id.as_str(), id) {
            assert(nodes@[i as int].id@ == id@);
            return true;
        }
        i += 1;
    }
    false
}

fn has_child(nodes: &Vec<PlanNodeSnapshot>, id: &str) -> (r: bool)
    ensures
        r == has_current_child(nodes@, id@),
{
    let mut i: usize = 0;
    while i < nodes.len()
        invariant
            i <= nodes@.len(),
            forall|k: int| 0 <= k < i ==> !is_child(#[trigger] nodes@[k], Some(id@)),
        decreases nodes@.len() - i,
    {
        if is_child_of(&nodes[i], Some(id)) {
            assert(is_child(nodes@[i as int], Some(id@)));
            return true;
        }
        i += 1;
    }
    false
}

/// Whether a node can be worked on now.
pub fn node_is_ready(nodes: &Vec<PlanNodeSnapshot>, n: &PlanNodeSnapshot) -> (r: bool)
    ensures
        r == ready(nodes@, *n),
{
    if n.status == PlanNodeStatus::Superseded || n.execution_summary.active > 0 {
        return false;
    }
    let mut d: usize = 0;
    while d < n.depends_on.len()
        invariant
            d <= n.depends_on@.len(),
            forall|k: int|
                0 <= k < d ==> completed(nodes@, #[trigger] n.depends_on@[k]@),
        decreases n.depends_on@.len() - d,
    {
        if !is_completed(nodes, n.depends_on[d].as_str()) {
            return false;
        }
        d += 1;
    }
    if !has_child(nodes, n.id.as_str()) {
        return n.status == PlanNodeStatus::Pending;
    }
    if n.status != PlanNodeStatus::Verifying {
        return false;
    }
    let mut i: usize = 0;
    while i < nodes.len()
        invariant
            i <= nodes@.len(),
            forall|k: int|
                0 <= k < i && is_child(#[trigger] nodes@[k], Some(n.id@)) ==> nodes@[k].status
                    == PlanNodeStatus::Completed,
            has_current_child(nodes@, n.id@),
        decreases nodes@.len() - i,
    {
        if is_child_of(&nodes[i], Some(n.id.as_str())) && nodes[i].status
            != PlanNodeStatus::Completed {
            assert(is_child(nodes@[i as int], Some(n.id@)));
            return false;
        }
        i += 1;
    }
    true
}

/// The first current node with an id.
pub open spec fn first_current(nodes: Seq<PlanNodeSnapshot>, id: Seq<char>) -> Option<int>
    decreases nodes.len(),
{
    if nodes.len() == 0 {
        None
    } else {
        match first_current(nodes.drop_last(), id) {
            Some(i) => Some(i),
            None => if nodes.last().id@ == id && current(nodes.last()) {
                Some(nodes.len() - 1)
            } else {
                None
            },
        }
    }
}

pub proof fn lemma_first_current(nodes: Seq<PlanNodeSnapshot>, id: Seq<char>)
    ensures
        first_current(nodes, id) is Some <==> known(nodes, id),
        first_current(nodes, id) matches Some(i) ==> 0 <= i < nodes.len() && nodes[i].id@ == id
            && current(nodes[i]),
    decreases nodes.len(),
{
    if nodes.len() > 0 {
        let init = nodes.drop_last();
        lemma_first_current(init, id);
        if known(init, id) {
            let i = choose|i: int|
                0 <= i < init.len() && current(#[trigger] init[i]) && init[i].id@ == id;
            assert(current(nodes[i]));
        }
        if known(nodes, id) {
            let i = choose|i: int|
                0 <= i < nodes.len() && current(#[trigger] nodes[i]) && nodes[i].id@ == id;
            if i < init.len() {
                assert(current(init[i]));
            }
        }
        if nodes.last().id@ == id && current(nodes.last()) {
            assert(current(nodes[nodes.len() - 1]));
        }
    }
}

proof fn lemma_first_current_prefix(nodes: Seq<PlanNodeSnapshot>, n: int, id: Seq<char>)
    requires
        0 <= n <= nodes.len(),
        first_current(nodes.take(n), id) is Some,
    ensures
        first_current(nodes, id) == first_current(nodes.take(n), id),
    decreases nodes.len(),
{
    if n == nodes.len() {
        assert(nodes.take(n) =~= nodes);
    } else {
        assert(nodes.drop_last().take(n) =~= nodes.take(n));
        lemma_first_current_prefix(nodes.drop_last(), n, id);
    }
}

/// The first current node with an id.
pub fn find_current(nodes: &Vec<PlanNodeSnapshot>, id: &str) -> (r: Option<usize>)
    ensures
        r is Some <==> known(nodes@, id@),
        r matches Some(i) ==> i < nodes@.len() && first_current(nodes@, id@) == Some(i as int)
            && nodes@[i as int].id@ == id@ && current(nodes@[i as int]),
        r is None ==> first_current(nodes@, id@) is None,
{
    proof {
        lemma_first_current(nodes@, id@);
    }
    let mut i: usize = 0;
    proof {
        assert(nodes@.take(0) =~= Seq::<PlanNodeSnapshot>::empty());
    }
    while i < nodes.len()
        invariant
            i <= nodes@.len(),
            first_current(nodes@.take(i as int), id@) is None,
            first_current(nodes@, id@) is Some <==> known(nodes@, id@),
        decreases nodes@.len() - i,
    {
        proof {
            assert(nodes@.take(i + 1).drop_last() =~= nodes@.take(i as int));
        }
        if nodes[i].status != PlanNodeStatus::Superseded && text::same(nodes[i].id.as_str(), id) {
            proof {
                lemma_first_current_prefix(nodes@, i + 1, id@);
            }
            return Some(i);
        }
        i += 1;
    }
    proof {
        assert(nodes@.take(i as int) =~= nodes@);
    }
    None
}

fn find_report(
    reports: &Vec<SubagentActivitySnapshot>,
    subagent: &str,
    task: &str,
) -> (r: Option<usize>)
    ensures
        r is Some <==> latest_report(reports@, subagent@, task@) is Some,
        r matches Some(i) ==> i < reports@.len() && latest_report(reports@, subagent@, task@)
            == Some(i as int),
{
    let mut best: Option<usize> = None;
    let mut i: usize = 0;
    proof {
        assert(reports@.take(0) =~= Seq::<SubagentActivitySnapshot>::empty());
    }
    while i < reports.len()
        invariant
            i <= reports@.len(),
            best is Some <==> latest_report(reports@.take(i as int), subagent@, task@) is Some,
            best matches Some(b) ==> b < i && latest_report(
                reports@.take(i as int),
                subagent@,
                task@,
            ) == Some(b as int),
        decreases reports@.len() - i,
    {
        proof {
            assert(reports@.take(i + 1).drop_last() =~= reports@.take(i as int));
        }
        if text::same(reports[i].subagent_id.as_str(), subagent) && text::same(
            reports[i].task_id.as_str(),
            task,
        ) {
            let newer = match best {
                Some(b) => reports[b].updated_at_ms <= reports[i].updated_at_ms,
                None => true,
            };
            if newer {
                best = Some(i);
            }
        }
        i += 1;
    }
    proof {
        assert(reports@.take(i as int) =~= reports@);
    }
    best
}

fn works(n: &PlanNodeSnapshot) -> (r: bool)
    ensures
        r == at_work(*n),
{
    if n.status == PlanNodeStatus::InProgress || n.status == PlanNodeStatus::Verifying
        || n.execution_summary.active > 0 {
        return true;
    }
    let mut k: usize = 0;
    while k < n.links.len()
        invariant
            k <= n.links@.len(),
            forall|j: int|
                0 <= j < k ==> (#[trigger] n.links@[j]).status != PlanLinkStatus::Active,
            n.status != PlanNodeStatus::InProgress,
            n.status != PlanNodeStatus::Verifying,
            n.execution_summary.active == 0,
        decreases n.links@.len() - k,
    {
        if n.links[k].status == PlanLinkStatus::Active {
            assert(n.links@[k as int].status == PlanLinkStatus::Active);
            return true;
        }
        k += 1;
    }
    false
}

/// Whether one of the first `n` nodes is at work below `id`.
spec fn below_node(nodes: Seq<PlanNodeSnapshot>, n: int, id: Seq<char>) -> bool {
    exists|i: int|
        0 <= i < n && at_work(#[trigger] nodes[i]) && ancestors(
            nodes,
            nodes[i].id@,
            nodes.len(),
        ).contains(id)
}

/// Whether one of the first `n` leases is live on a node below `id`.
spec fn below_lease(
    nodes: Seq<PlanNodeSnapshot>,
    leases: Seq<PlanLeaseSnapshot>,
    n: int,
    id: Seq<char>,
) -> bool {
    exists|i: int|
        0 <= i < n && (#[trigger] leases[i]).status is Live && ancestors(
            nodes,
            leases[i].node_id@,
            nodes.len(),
        ).contains(id)
}

proof fn lemma_on_active_path(snapshot: PlanSnapshot, id: Seq<char>)
    ensures
        on_active_path(snapshot, id) <==> below_node(
            snapshot.nodes@,
            snapshot.nodes@.len() as int,
            id,
        ) || below_lease(
            snapshot.nodes@,
            snapshot.leases@,
            snapshot.leases@.len() as int,
            id,
        ),
{
    let nodes = snapshot.nodes@;
    let leases = snapshot.leases@;
    if on_active_path(snapshot, id) {
        let a = choose|a: Seq<char>|
            active_node(snapshot, a) && (#[trigger] ancestors(nodes, a, nodes.len())).contains(id);
        if exists|i: int| 0 <= i < nodes.len() && (#[trigger] nodes[i]).id@ == a && at_work(nodes[i]) {
            let i = choose|i: int|
                0 <= i < nodes.len() && (#[trigger] nodes[i]).id@ == a && at_work(nodes[i]);
            assert(at_work(nodes[i]));
        } else {
            let i = choose|i: int|
                0 <= i < leases.len() && (#[trigger] leases[i]).node_id@ == a
                    && leases[i].status is Live;
            assert(leases[i].status is Live);
        }
    }
    if below_node(nodes, nodes.len() as int, id) {
        let i = choose|i: int|
            0 <= i < nodes.len() && at_work(#[trigger] nodes[i]) && ancestors(
                nodes,
                nodes[i].id@,
                nodes.len(),
            ).contains(id);
        assert(active_node(snapshot, nodes[i].id@)) by {
            assert(snapshot.nodes@[i].id@ == nodes[i].id@);
        }
        assert(ancestors(nodes, nodes[i].id@, nodes.len()).contains(id));
    }
    if below_lease(nodes, leases, leases.len() as int, id) {
        let i = choose|i: int|
            0 <= i < leases.len() && (#[trigger] leases[i]).status is Live && ancestors(
                nodes,
                leases[i].node_id@,
                nodes.len(),
            ).contains(id);
        assert(active_node(snapshot, leases[i].node_id@)) by {
            assert(snapshot.leases@[i].node_id@ == leases[i].node_id@);
        }
        assert(ancestors(nodes, leases[i].node_id@, nodes.len()).contains(id));
    }
}

/// Takes the ids above a node out of the set.
fn remove_ancestors(nodes: &Vec<PlanNodeSnapshot>, id: &str, folded: &mut TextSet)
    requires
        ordered::ascending(old(folded)@),
    ensures
        ordered::ascending(final(folded)@),
        forall|x: Seq<char>|
            #[trigger] final(folded)@.contains(x) <==> old(folded)@.contains(x) && !ancestors(
                nodes@,
                id@,
                nodes@.len(),
            ).contains(x),
{
    let ghost start = folded@;
    let ghost all = ancestors(nodes@, id@, nodes@.len());
    let ghost mut done: Seq<Seq<char>> = Seq::empty();
    let mut cur = id.to_owned();
    let mut levels: usize = nodes.len();
    proof {
        assert(done + all =~= all);
    }
    while levels > 0
        invariant
            ordered::ascending(folded@),
            all == done + ancestors(nodes@, cur@, levels as nat),
            forall|x: Seq<char>|
                folded@.contains(x) <==> start.contains(x) && !done.contains(x),
        ensures
            ordered::ascending(folded@),
            all == done,
            forall|x: Seq<char>|
                folded@.contains(x) <==> start.contains(x) && !done.contains(x),
        decreases levels,
    {
        let parent: Option<String> = match plan_model::find_by_key(nodes, cur.as_str()) {
            Some(i) => nodes[i].parent_id.clone(),
            None => None,
        };
        proof {
            assert(plan_model::opt(parent) == parent_of(nodes@, cur@));
        }
        match parent {
            None => {
                proof {
                    assert(done + Seq::<Seq<char>>::empty() =~= done);
                }
                break;
            },
            Some(p) => {
                let ghost before = folded@;
                let _ = folded.remove(p.as_str());
                proof {
                    let next = done.push(p@);
                    assert(all =~= next + ancestors(nodes@, p@, (levels - 1) as nat));
                    assert forall|x: Seq<char>| #[trigger] folded@.contains(x) <==> start.contains(x)
                        && !next.contains(x) by {
                        assert(before.contains(x) <==> start.contains(x) && !done.contains(x));
                        if done.contains(x) {
                            let k = choose|k: int| 0 <= k < done.len() && done[k] == x;
                            assert(next[k] == x);
                        }
                        if next.contains(x) {
                            let k = choose|k: int| 0 <= k < next.len() && next[k] == x;
                            if k < done.len() {
                                assert(done[k] == x);
                            }
                        }
                        assert(next[done.len() as int] == p@);
                    }
                    done = next;
                }
                cur = p;
                levels -= 1;
                proof {
                    if levels == 0 {
                        assert(done + Seq::<Seq<char>>::empty() =~= done);
                    }
                }
            },
        }
    }
}

/// Unfolds whatever lies above a node that is at work.
pub fn reveal_active_paths(snapshot: &PlanSnapshot, folded: &mut TextSet)
    requires
        ordered::ascending(old(folded)@),
    ensures
        ordered::ascending(final(folded)@),
        forall|x: Seq<char>|
            #[trigger] final(folded)@.contains(x) <==> old(folded)@.contains(x) && !on_active_path(
                *snapshot,
                x,
            ),
{
    let ghost start = folded@;
    let ghost nodes = snapshot.nodes@;
    let ghost leases = snapshot.leases@;
    let mut i: usize = 0;
    while i < snapshot.nodes.len()
        invariant
            i <= snapshot.nodes@.len(),
            nodes == snapshot.nodes@,
            ordered::ascending(folded@),
            forall|x: Seq<char>|
                folded@.contains(x) <==> start.contains(x) && !below_node(nodes, i as int, x),
        decreases snapshot.nodes@.len() - i,
    {
        let ghost before = folded@;
        if works(&snapshot.nodes[i]) {
            remove_ancestors(&snapshot.nodes, snapshot.nodes[i].id.as_str(), folded);
        }
        proof {
            assert forall|x: Seq<char>| #[trigger] folded@.contains(x) <==> start.contains(x) && !below_node(
                nodes,
                i + 1,
                x,
            ) by {
                assert(before.contains(x) <==> start.contains(x) && !below_node(
                    nodes,
                    i as int,
                    x,
                ));
                if below_node(nodes, i as int, x) {
                    let k = choose|k: int|
                        0 <= k < i && at_work(#[trigger] nodes[k]) && ancestors(
                            nodes,
                            nodes[k].id@,
                            nodes.len(),
                        ).contains(x);
                    assert(at_work(nodes[k]));
                }
                if at_work(nodes[i as int]) && ancestors(
                    nodes,
                    nodes[i as int].id@,
                    nodes.len(),
                ).contains(x) {
                    assert(below_node(nodes, i + 1, x));
                }
            }
        }
        i += 1;
    }
    let mut j: usize = 0;
    while j < snapshot.leases.len()
        invariant
            j <= snapshot.leases@.len(),
            nodes == snapshot.nodes@,
            leases == snapshot.leases@,
            ordered::ascending(folded@),
            forall|x: Seq<char>|
                folded@.contains(x) <==> start.contains(x) && !below_node(
                    nodes,
                    nodes.len() as int,
                    x,
                ) && !below_lease(nodes, leases, j as int, x),
        decreases snapshot.leases@.len() - j,
    {
        let ghost before = folded@;
        let live = match &snapshot.leases[j].status {
            PlanLeaseStatus::Live => true,
            _ => false,
        };
        if live {
            remove_ancestors(&snapshot.nodes, snapshot.leases[j].node_id.as_str(), folded);
        }
        proof {
            assert forall|x: Seq<char>| #[trigger] folded@.contains(x) <==> start.contains(x) && !below_node(
                nodes,
                nodes.len() as int,
                x,
            ) && !below_lease(nodes, leases, j + 1, x) by {
                assert(before.contains(x) <==> start.contains(x) && !below_node(
                    nodes,
                    nodes.len() as int,
                    x,
                ) && !below_lease(nodes, leases, j as int, x));
                if below_lease(nodes, leases, j as int, x) {
                    let k = choose|k: int|
                        0 <= k < j && (#[trigger] leases[k]).status is Live && ancestors(
                            nodes,
                            leases[k].node_id@,
                            nodes.len(),
                        ).contains(x);
                    assert(leases[k].status is Live);
                }
                if leases[j as int].status is Live && ancestors(
                    nodes,
                    leases[j as int].node_id@,
                    nodes.len(),
                ).contains(x) {
                    assert(below_lease(nodes, leases, j + 1, x));
                }
            }
        }
        j += 1;
    }
    proof {
        assert forall|x: Seq<char>| #[trigger] folded@.contains(x) <==> start.contains(x) && !on_active_path(
            *snapshot,
            x,
        ) by {
            lemma_on_active_path(*snapshot, x);
            assert(folded@.contains(x) <==> start.contains(x) && !below_node(
                nodes,
                nodes.len() as int,
                x,
            ) && !below_lease(nodes, leases, leases.len() as int, x));
        }
    }
}

/// The rows of a possibly absent plan.
pub open spec fn rows_of(snapshot: Option<PlanSnapshot>, folded: Seq<Seq<char>>) -> Seq<
    (int, int),
> {
    match snapshot {
        Some(s) => tree_rows(s, folded),
        None => Seq::empty(),
    }
}

/// An offset kept within `n` rows.
pub open spec fn clamped(offset: int, n: int) -> int {
    if offset < n {
        offset
    } else if n > 0 {
        n - 1
    } else {
        0
    }
}

/// The rows of a forest name nodes of the plan that are current.
pub proof fn lemma_forest_rows(
    nodes: Seq<PlanNodeSnapshot>,
    folded: Seq<Seq<char>>,
    list: Seq<int>,
    depth: int,
    levels: nat,
)
    requires
        forall|k: int|
            0 <= k < list.len() ==> 0 <= (#[trigger] list[k]) < nodes.len() && current(
                nodes[list[k]],
            ),
    ensures
        forall|k: int|
            0 <= k < forest(nodes, folded, list, depth, levels).len() ==> ({
                let row = #[trigger] forest(nodes, folded, list, depth, levels)[k];
                &&& 0 <= row.0 < nodes.len()
                &&& current(nodes[row.0])
                &&& depth <= row.1 <= depth + levels
            }),
    decreases levels, list.len() + 1,
{
    if list.len() > 0 {
        let init = list.drop_last();
        assert forall|k: int| 0 <= k < init.len() implies 0 <= (#[trigger] init[k]) < nodes.len()
            && current(nodes[init[k]]) by {
            assert(init[k] == list[k]);
        }
        lemma_forest_rows(nodes, folded, init, depth, levels);
        assert(list.last() == list[list.len() - 1]);
        lemma_subtree_rows(nodes, folded, list.last(), depth, levels);
        let a = forest(nodes, folded, init, depth, levels);
        let b = subtree(nodes, folded, list.last(), depth, levels);
        assert forall|k: int| 0 <= k < (a + b).len() implies ({
            let row = #[trigger] (a + b)[k];
            &&& 0 <= row.0 < nodes.len()
            &&& current(nodes[row.0])
            &&& depth <= row.1 <= depth + levels
        }) by {
            if k < a.len() {
                assert((a + b)[k] == a[k]);
            } else {
                assert((a + b)[k] == b[k - a.len()]);
            }
        }
    }
}

proof fn lemma_subtree_rows(
    nodes: Seq<PlanNodeSnapshot>,
    folded: Seq<Seq<char>>,
    i: int,
    depth: int,
    levels: nat,
)
    requires
        0 <= i < nodes.len(),
        current(nodes[i]),
    ensures
        forall|k: int|
            0 <= k < subtree(nodes, folded, i, depth, levels).len() ==> ({
                let row = #[trigger] subtree(nodes, folded, i, depth, levels)[k];
                &&& 0 <= row.0 < nodes.len()
                &&& current(nodes[row.0])
                &&& depth <= row.1 <= depth + levels
            }),
        subtree(nodes, folded, i, depth, levels).len() > 0,
    decreases levels, 0nat,
{
    if !folded.contains(nodes[i].id@) && levels > 0 {
        let below = children(nodes, Some(nodes[i].id@));
        lemma_children_among(nodes, Some(nodes[i].id@), nodes.len() as int);
        lemma_forest_rows(nodes, folded, below, depth + 1, (levels - 1) as nat);
        let b = forest(nodes, folded, below, depth + 1, (levels - 1) as nat);
        let all = seq![(i, depth)] + b;
        assert forall|k: int| 0 <= k < all.len() implies ({
            let row = #[trigger] all[k];
            &&& 0 <= row.0 < nodes.len()
            &&& current(nodes[row.0])
            &&& depth <= row.1 <= depth + levels
        }) by {
            if k > 0 {
                assert(all[k] == b[k - 1]);
            }
        }
    }
}

proof fn lemma_roots(snapshot: PlanSnapshot)
    ensures
        forall|k: int|
            0 <= k < roots(snapshot).len() ==> 0 <= (#[trigger] roots(snapshot)[k])
                < snapshot.nodes@.len() && current(snapshot.nodes@[roots(snapshot)[k]]),
{
    let nodes = snapshot.nodes@;
    let all = children(nodes, None);
    lemma_children_among(nodes, None, nodes.len() as int);
    if let Some(root) = snapshot.root_node_id {
        lemma_position_range(nodes, all, root@);
    }
}

proof fn lemma_position_range(nodes: Seq<PlanNodeSnapshot>, list: Seq<int>, id: Seq<char>)
    ensures
        position_of(nodes, list, id) matches Some(p) ==> 0 <= p < list.len() && nodes[list[p]].id@
            == id,
    decreases list.len(),
{
    if list.len() > 0 {
        lemma_position_range(nodes, list.drop_last(), id);
    }
}

/// Superseded nodes never show in the tree, and every row names a node of the plan.
pub proof fn superseded_nodes_are_hidden(snapshot: PlanSnapshot, folded: Seq<Seq<char>>)
    ensures
        forall|k: int|
            0 <= k < tree_rows(snapshot, folded).len() ==> ({
                let row = #[trigger] tree_rows(snapshot, folded)[k];
                &&& 0 <= row.0 < snapshot.nodes@.len()
                &&& current(snapshot.nodes@[row.0])
                &&& 0 <= row.1 <= snapshot.nodes@.len()
            }),
{
    lemma_roots(snapshot);
    lemma_forest_rows(snapshot.nodes@, folded, roots(snapshot), 0, snapshot.nodes@.len());
}

/// The number of live attempts over all nodes.
pub open spec fn live_sum(nodes: Seq<PlanNodeSnapshot>) -> nat
    decreases nodes.len(),
{
    if nodes.len() == 0 {
        0
    } else {
        live_sum(nodes.drop_last()) + nodes.last().execution_summary.active as nat
    }
}

/// How many of the first `n` nodes are ready.
pub open spec fn ready_among(nodes: Seq<PlanNodeSnapshot>, n: int) -> nat
    decreases n,
{
    if n <= 0 {
        0
    } else {
        ready_among(nodes, n - 1) + if ready(nodes, nodes[n - 1]) {
            1nat
        } else {
            0nat
        }
    }
}

/// How many of the first `n` nodes are blocked.
pub open spec fn blocked_among(nodes: Seq<PlanNodeSnapshot>, n: int) -> nat
    decreases n,
{
    if n <= 0 {
        0
    } else {
        blocked_among(nodes, n - 1) + if nodes[n - 1].status == PlanNodeStatus::Blocked {
            1nat
        } else {
            0nat
        }
    }
}

/// The position of the row that shows a node.
pub open spec fn row_of(
    nodes: Seq<PlanNodeSnapshot>,
    at: Seq<(int, int)>,
    id: Seq<char>,
) -> Option<int>
    decreases at.len(),
{
    if at.len() == 0 {
        None
    } else {
        match row_of(nodes, at.drop_last(), id) {
            Some(k) => Some(k),
            None => if nodes[at.last().0].id@ == id {
                Some(at.len() - 1)
            } else {
                None
            },
        }
    }
}

proof fn lemma_row_prefix(
    nodes: Seq<PlanNodeSnapshot>,
    at: Seq<(int, int)>,
    n: int,
    id: Seq<char>,
)
    requires
        0 <= n <= at.len(),
        row_of(nodes, at.take(n), id) is Some,
    ensures
        row_of(nodes, at, id) == row_of(nodes, at.take(n), id),
    decreases at.len(),
{
    if n == at.len() {
        assert(at.take(n) =~= at);
    } else {
        assert(at.drop_last().take(n) =~= at.take(n));
        lemma_row_prefix(nodes, at.drop_last(), n, id);
    }
}

impl Default for PlanUiState {
    fn default() -> (r: Self)
        ensures
            r.snapshot is None,
            r.selected_node_id is None,
            r.collapsed_node_ids@.len() == 0,
            r.scroll_offset == 0,
            r.inspector_scroll_offset == 0,
            r.subagent_activity@.len() == 0,
            !r.open,
            !r.focused,
            !r.inspector_open,
            r.well_formed(),
    {
        PlanUiState {
            snapshot: None,
            selected_node_id: None,
            collapsed_node_ids: TextSet::default(),
            scroll_offset: 0,
            inspector_scroll_offset: 0,
            subagent_activity: Vec::new(),
            open: false,
            focused: false,
            inspector_open: false,
        }
    }
}

/// The pane after it has taken over a plan.
pub open spec fn took_snapshot(before: PlanUiState, after: PlanUiState, snapshot: PlanSnapshot) -> bool {
    &&& after.snapshot == Some(snapshot)
    &&& forall|x: Seq<char>|
        #[trigger] after.collapsed_node_ids@.contains(x) <==> before.collapsed_node_ids@.contains(x) && known(snapshot.nodes@, x) && !on_active_path(
            snapshot,
            x,
        )
    &&& (before.selected() is Some && known(snapshot.nodes@, before.selected()->0)) ==> {
        &&& after.selected() == before.selected()
        &&& after.inspector_scroll_offset == before.inspector_scroll_offset
    }
    &&& !(before.selected() is Some && known(snapshot.nodes@, before.selected()->0))
        ==> {
        &&& after.selected() == fallback_selection(snapshot)
        &&& after.inspector_scroll_offset == 0
    }
    &&& after.open == (before.open || before.snapshot is None)
    &&& after.focused == before.focused
    &&& after.inspector_open == before.inspector_open
    &&& after.subagent_activity == before.subagent_activity
    &&& after.scroll_offset == clamped(
        before.scroll_offset as int,
        after.rows().len() as int,
    )
}

/// The pane after it has taken over the progress of an attempt.
pub open spec fn took_progress(before: PlanUiState, after: PlanUiState, progress: PlanAttemptProgressSnapshot) -> bool {
    &&& after == (PlanUiState { snapshot: after.snapshot, ..before })
    &&& before.snapshot is None ==> after.snapshot is None
    &&& before.snapshot matches Some(last) ==> after.snapshot matches Some(new) && {
        &&& new == (PlanSnapshot {
            attempt_progress: new.attempt_progress,
            leases: new.leases,
            ..last
        })
        &&& new.attempt_progress@ == plan_model::upserted(
            last.attempt_progress@,
            progress,
        )
        &&& new.leases@ == heartbeat_applied(
            last.leases@,
            progress.attempt_id@,
            progress.last_subagent_heartbeat_at_ms,
            last.subagent_heartbeat_ttl_ms,
        )
    }
}

/// The pane after it has taken over a lease.
pub open spec fn took_lease(before: PlanUiState, after: PlanUiState, lease: PlanLeaseSnapshot) -> bool {
    &&& after == (PlanUiState { snapshot: after.snapshot, ..before })
    &&& before.snapshot is None ==> after.snapshot is None
    &&& before.snapshot matches Some(last) ==> after.snapshot matches Some(new) && {
        &&& new == (PlanSnapshot { leases: new.leases, ..last })
        &&& new.leases@ == plan_model::upserted(last.leases@, lease)
    }
}

/// The pane after it has taken over an attempt.
pub open spec fn took_attempt(before: PlanUiState, after: PlanUiState, attempt: PlanAttemptSnapshot) -> bool {
    &&& after == (PlanUiState { snapshot: after.snapshot, ..before })
    &&& before.snapshot is None ==> after.snapshot is None
    &&& before.snapshot matches Some(last) ==> after.snapshot matches Some(new) && {
        &&& new == (PlanSnapshot { attempts: new.attempts, ..last })
        &&& new.attempts@ == plan_model::upserted(last.attempts@, attempt)
    }
}

impl PlanUiState {
    pub open spec fn nodes(self) -> Seq<PlanNodeSnapshot> {
        match self.snapshot {
            Some(s) => s.nodes@,
            None => Seq::empty(),
        }
    }

    pub open spec fn rows(self) -> Seq<(int, int)> {
        rows_of(self.snapshot, self.collapsed_node_ids@)
    }

    pub open spec fn selected(self) -> Option<Seq<char>> {
        plan_model::opt(self.selected_node_id)
    }

    /// The selected node is a current one, and the tree is not scrolled past its last row.
    pub open spec fn well_formed(self) -> bool {
        &&& ordered::ascending(self.collapsed_node_ids@)
        &&& self.selected() matches Some(id) ==> known(self.nodes(), id)
        &&& self.scroll_offset == 0 || self.scroll_offset < self.rows().len()
    }

    /// Whether the pane is in order.
    pub fn is_well_formed(&self) -> (r: bool)
        ensures
            r == self.well_formed(),
    {
        if !self.collapsed_node_ids.is_ascending() {
            return false;
        }
        if let Some(id) = &self.selected_node_id {
            let found = match &self.snapshot {
                Some(snapshot) => find_current(&snapshot.nodes, id.as_str()).is_some(),
                None => false,
            };
            if !found {
                return false;
            }
        }
        self.scroll_offset == 0 || self.scroll_offset < self.visible_rows().len()
    }

    pub fn snapshot(&self) -> (r: Option<&PlanSnapshot>)
        ensures
            r == (match self.snapshot {
                Some(s) => Some(&s),
                None => None,
            }),
    {
        self.snapshot.as_ref()
    }

    pub fn selected_node_id(&self) -> (r: Option<&str>)
        ensures
            r is Some <==> self.selected() is Some,
            r matches Some(id) ==> self.selected() == Some(id@),
    {
        match &self.selected_node_id {
            Some(id) => Some(id.as_str()),
            None => None,
        }
    }

    /// The selected node.
    pub fn selected_node(&self) -> (r: Option<&PlanNodeSnapshot>)
        ensures
            r is Some <==> self.selected() is Some && known(self.nodes(), self.selected()->0),
            r matches Some(n) ==> first_current(self.nodes(), self.selected()->0) is Some && *n
                == self.nodes()[first_current(self.nodes(), self.selected()->0)->0],
    {
        match (&self.selected_node_id, &self.snapshot) {
            (Some(id), Some(snapshot)) => match find_current(&snapshot.nodes, id.as_str()) {
                Some(i) => Some(&snapshot.nodes[i]),
                None => None,
            },
            _ => None,
        }
    }

    /// The latest report of the tasks linked to a node.
    pub fn activity_for_node(&self, n: &PlanNodeSnapshot) -> (r: Option<&SubagentActivitySnapshot>)
        ensures
            r == (match node_report(self.subagent_activity@, n.links@) {
                Some(i) => Some(&self.subagent_activity@[i]),
                None => None,
            }),
    {
        let mut best: Option<usize> = None;
        let mut i: usize = 0;
        let ghost reports = self.subagent_activity@;
        proof {
            assert(n.links@.take(0) =~= Seq::<PlanLinkSnapshot>::empty());
        }
        while i < n.links.len()
            invariant
                i <= n.links@.len(),
                reports == self.subagent_activity@,
                best is Some <==> node_report(reports, n.links@.take(i as int)) is Some,
                best matches Some(b) ==> b < reports.len() && node_report(
                    reports,
                    n.links@.take(i as int),
                ) == Some(b as int),
            decreases n.links@.len() - i,
        {
            proof {
                assert(n.links@.take(i + 1).drop_last() =~= n.links@.take(i as int));
                assert(n.links@.take(i + 1).last() == n.links@[i as int]);
            }
            let counts = n.links[i].status != PlanLinkStatus::Superseded
                && n.links[i].superseded_by.is_none();
            match find_report(
                &self.subagent_activity,
                n.links[i].subagent_id.as_str(),
                n.links[i].task_id.as_str(),
            ) {
                Some(found) => {
                    let newer = match best {
                        Some(b) => self.subagent_activity[b].updated_at_ms
                            <= self.subagent_activity[found].updated_at_ms,
                        None => true,
                    };
                    if counts && newer {
                        best = Some(found);
                    }
                },
                None => {},
            }
            i += 1;
        }
        proof {
            assert(n.links@.take(i as int) =~= n.links@);
        }
        match best {
            Some(b) => Some(&self.subagent_activity[b]),
            None => None,
        }
    }

    /// Keeps the reports; of several on one task the latest counts.
    pub fn update_subagent_activity(&mut self, snapshots: Vec<SubagentActivitySnapshot>)
        requires
            old(self).well_formed(),
        ensures
            *final(self) == (PlanUiState { subagent_activity: snapshots, ..*old(self) }),
            final(self).well_formed(),
    {
        self.subagent_activity = snapshots;
    }

    fn append_visible_rows(
        &self,
        snapshot: &PlanSnapshot,
        i: usize,
        depth: usize,
        levels: usize,
        rows: &mut Vec<PlanTreeRow>,
        Ghost(at): Ghost<Seq<(int, int)>>,
    )
        requires
            i < snapshot.nodes@.len(),
            depth + levels <= usize::MAX,
            are_rows(
                old(rows)@,
                snapshot.nodes@,
                self.collapsed_node_ids@,
                self.subagent_activity@,
                at,
            ),
        ensures
            are_rows(
                final(rows)@,
                snapshot.nodes@,
                self.collapsed_node_ids@,
                self.subagent_activity@,
                at + subtree(
                    snapshot.nodes@,
                    self.collapsed_node_ids@,
                    i as int,
                    depth as int,
                    levels as nat,
                ),
            ),
        decreases levels,
    {
        let ghost nodes = snapshot.nodes@;
        let ghost folded = self.collapsed_node_ids@;
        let ghost reports = self.subagent_activity@;
        let n = &snapshot.nodes[i];
        let collapsed = self.collapsed_node_ids.contains(n.id.as_str());
        let has_children = has_child(&snapshot.nodes, n.id.as_str());
        let ready = node_is_ready(&snapshot.nodes, n);
        let activity = match self.activity_for_node(n) {
            Some(a) => Some(a.clone()),
            None => None,
        };
        rows.push(
            PlanTreeRow {
                node_id: n.id.clone(),
                depth,
                has_children,
                collapsed,
                ready,
                status: n.status,
                executor_policy: n.executor_policy,
                objective: n.objective.clone(),
                activity,
            },
        );
        let ghost here = at.push((i as int, depth as int));
        proof {
            assert(are_rows(rows@, nodes, folded, reports, here)) by {
                assert forall|k: int| 0 <= k < rows@.len() implies is_row(
                    #[trigger] rows@[k],
                    nodes,
                    folded,
                    reports,
                    here[k],
                ) by {
                    if k < at.len() {
                        assert(here[k] == at[k]);
                    }
                }
            }
        }
        if collapsed || levels == 0 {
            proof {
                assert(at + seq![(i as int, depth as int)] =~= here);
            }
            return ;
        }
        let below = children_of(&snapshot.nodes, Some(n.id.as_str()));
        let ghost list = ints(below@);
        let mut k: usize = 0;
        proof {
            assert(here + forest(nodes, folded, list.take(0), depth + 1, (levels - 1) as nat)
                =~= here);
        }
        while k < below.len()
            invariant
                k <= below@.len(),
                list == ints(below@),
                nodes == snapshot.nodes@,
                folded == self.collapsed_node_ids@,
                reports == self.subagent_activity@,
                levels > 0,
                depth + levels <= usize::MAX,
                forall|m: int| 0 <= m < below@.len() ==> (#[trigger] below@[m]) < nodes.len(),
                are_rows(
                    rows@,
                    nodes,
                    folded,
                    reports,
                    here + forest(
                        nodes,
                        folded,
                        list.take(k as int),
                        depth + 1,
                        (levels - 1) as nat,
                    ),
                ),
            decreases below@.len() - k,
        {
            let ghost so_far = here + forest(
                nodes,
                folded,
                list.take(k as int),
                depth + 1,
                (levels - 1) as nat,
            );
            self.append_visible_rows(
                snapshot,
                below[k],
                depth + 1,
                levels - 1,
                rows,
                Ghost(so_far),
            );
            proof {
                assert(list.take(k + 1).drop_last() =~= list.take(k as int));
                assert(list.take(k + 1).last() == below@[k as int]);
                let f = forest(nodes, folded, list.take(k as int), depth + 1, (levels - 1) as nat);
                let t = subtree(
                    nodes,
                    folded,
                    below@[k as int] as int,
                    depth + 1,
                    (levels - 1) as nat,
                );
                assert((here + f) + t =~= here + (f + t));
            }
            k += 1;
        }
        proof {
            assert(list.take(k as int) =~= list);
            let f = forest(nodes, folded, list, depth + 1, (levels - 1) as nat);
            assert(here + f =~= at + (seq![(i as int, depth as int)] + f));
        }
    }

    /// The rows of the tree, folded branches left out.
    pub fn visible_rows(&self) -> (r: Vec<PlanTreeRow>)
        ensures
            are_rows(
                r@,
                self.nodes(),
                self.collapsed_node_ids@,
                self.subagent_activity@,
                self.rows(),
            ),
    {
        let mut rows: Vec<PlanTreeRow> = Vec::new();
        match &self.snapshot {
            None => {},
            Some(snapshot) => {
                let top = root_nodes(snapshot);
                let ghost list = ints(top@);
                let ghost nodes = snapshot.nodes@;
                let ghost folded = self.collapsed_node_ids@;
                let levels: usize = snapshot.nodes.len();
                let mut k: usize = 0;
                proof {
                    assert(list.take(0) =~= Seq::<int>::empty());
                }
                while k < top.len()
                    invariant
                        k <= top@.len(),
                        list == ints(top@),
                        nodes == snapshot.nodes@,
                        folded == self.collapsed_node_ids@,
                        levels == nodes.len(),
                        forall|m: int| 0 <= m < top@.len() ==> (#[trigger] top@[m]) < nodes.len(),
                        are_rows(
                            rows@,
                            nodes,
                            folded,
                            self.subagent_activity@,
                            forest(nodes, folded, list.take(k as int), 0, levels as nat),
                        ),
                    decreases top@.len() - k,
                {
                    let ghost so_far = forest(
                        nodes,
                        folded,
                        list.take(k as int),
                        0,
                        levels as nat,
                    );
                    self.append_visible_rows(
                        snapshot,
                        top[k],
                        0,
                        levels,
                        &mut rows,
                        Ghost(so_far),
                    );
                    proof {
                        assert(list.take(k + 1).drop_last() =~= list.take(k as int));
                        assert(list.take(k + 1).last() == top@[k as int]);
                    }
                    k += 1;
                }
                proof {
                    assert(list.take(k as int) =~= list);
                }
            },
        }
        rows
    }

    /// How many nodes are live, ready and blocked.
    pub fn counts(&self) -> (r: PlanCounts)
        ensures
            r.live == (if live_sum(self.nodes()) <= usize::MAX {
                live_sum(self.nodes())
            } else {
                usize::MAX as nat
            }),
            r.ready == ready_among(self.nodes(), self.nodes().len() as int),
            r.blocked == blocked_among(self.nodes(), self.nodes().len() as int),
    {
        let mut live: usize = 0;
        let mut ready: usize = 0;
        let mut blocked: usize = 0;
        match &self.snapshot {
            None => {},
            Some(snapshot) => {
                let mut i: usize = 0;
                let ghost nodes = snapshot.nodes@;
                proof {
                    assert(nodes.take(0) =~= Seq::<PlanNodeSnapshot>::empty());
                }
                while i < snapshot.nodes.len()
                    invariant
                        i <= snapshot.nodes@.len(),
                        nodes == snapshot.nodes@,
                        ready <= i,
                        blocked <= i,
                        live == (if live_sum(nodes.take(i as int)) <= usize::MAX {
                            live_sum(nodes.take(i as int))
                        } else {
                            usize::MAX as nat
                        }),
                        ready == ready_among(nodes, i as int),
                        blocked == blocked_among(nodes, i as int),
                    decreases snapshot.nodes@.len() - i,
                {
                    proof {
                        assert(nodes.take(i + 1).drop_last() =~= nodes.take(i as int));
                        assert(nodes.take(i + 1).last() == nodes[i as int]);
                    }
                    live = live.saturating_add(snapshot.nodes[i].execution_summary.active as usize);
                    if node_is_ready(&snapshot.nodes, &snapshot.nodes[i]) {
                        ready += 1;
                    }
                    if snapshot.nodes[i].status == PlanNodeStatus::Blocked {
                        blocked += 1;
                    }
                    i += 1;
                }
                proof {
                    assert(nodes.take(i as int) =~= nodes);
                }
            },
        }
        PlanCounts { live, ready, blocked }
    }

    pub fn select_node(&mut self, node_id: &str) -> (r: bool)
        requires
            old(self).well_formed(),
        ensures
            r == known(old(self).nodes(), node_id@),
            !r ==> *final(self) == *old(self),
            r ==> final(self).selected() == Some(node_id@) && *final(self) == (PlanUiState {
                selected_node_id: final(self).selected_node_id,
                inspector_scroll_offset: 0,
                ..*old(self)
            }),
            final(self).well_formed(),
    {
        let found = match &self.snapshot {
            None => false,
            Some(snapshot) => find_current(&snapshot.nodes, node_id).is_some(),
        };
        if !found {
            return false;
        }
        self.selected_node_id = Some(node_id.to_owned());
        self.inspector_scroll_offset = 0;
        true
    }

    pub fn is_collapsed(&self, node_id: &str) -> (r: bool)
        ensures
            r == self.collapsed_node_ids@.contains(node_id@),
    {
        self.collapsed_node_ids.contains(node_id)
    }

    fn has_children(&self, node_id: &str) -> (r: bool)
        ensures
            r == has_current_child(self.nodes(), node_id@),
    {
        match &self.snapshot {
            None => false,
            Some(snapshot) => has_child(&snapshot.nodes, node_id),
        }
    }

    fn clamp_scroll_offset(&mut self)
        requires
            ordered::ascending(old(self).collapsed_node_ids@),
            old(self).selected() matches Some(id) ==> known(old(self).nodes(), id),
        ensures
            *final(self) == (PlanUiState {
                scroll_offset: final(self).scroll_offset,
                ..*old(self)
            }),
            final(self).scroll_offset == clamped(
                old(self).scroll_offset as int,
                old(self).rows().len() as int,
            ),
            final(self).well_formed(),
    {
        let last: usize = self.visible_rows().len().saturating_sub(1);
        if self.scroll_offset > last {
            self.scroll_offset = last;
        }
    }

    /// Folds or unfolds a node; one without children cannot be folded.
    pub fn toggle_collapse(&mut self, node_id: &str) -> (r: bool)
        requires
            old(self).well_formed(),
        ensures
            r == has_current_child(old(self).nodes(), node_id@),
            !r ==> *final(self) == *old(self),
            r ==> {
                &&& *final(self) == (PlanUiState {
                    collapsed_node_ids: final(self).collapsed_node_ids,
                    scroll_offset: final(self).scroll_offset,
                    ..*old(self)
                })
                &&& forall|x: Seq<char>|
                    #[trigger] final(self).collapsed_node_ids@.contains(x) <==> (if x == node_id@ {
                        !old(self).collapsed_node_ids@.contains(x)
                    } else {
                        old(self).collapsed_node_ids@.contains(x)
                    })
                &&& final(self).scroll_offset == clamped(
                    old(self).scroll_offset as int,
                    final(self).rows().len() as int,
                )
            },
            final(self).well_formed(),
    {
        if !self.has_children(node_id) {
            return false;
        }
        if !self.collapsed_node_ids.remove(node_id) {
            self.collapsed_node_ids.insert(node_id);
        }
        self.clamp_scroll_offset();
        true
    }

    /// Takes over a new snapshot. Folds of nodes that are gone or lie above work in
    /// progress go; a selection that is gone falls back to the root.
    pub fn update_snapshot(&mut self, snapshot: PlanSnapshot)
        requires
            old(self).well_formed(),
        ensures
            took_snapshot(*old(self), *final(self), snapshot),
            final(self).well_formed(),
    {
        let first_snapshot = self.snapshot.is_none();
        let ghost start = self.collapsed_node_ids@;
        let mut kept = TextSet::default();
        let mut i: usize = 0;
        {
            let items = self.collapsed_node_ids.items();
            let ghost all = text::views(items@);
            while i < items.len()
                invariant
                    i <= items@.len(),
                    all == text::views(items@),
                    ordered::ascending(kept@),
                    forall|x: Seq<char>|
                        #[trigger] kept@.contains(x) <==> all.take(i as int).contains(x) && known(
                            snapshot.nodes@,
                            x,
                        ),
                decreases items@.len() - i,
            {
                let ghost before = kept@;
                if find_current(&snapshot.nodes, items[i].as_str()).is_some() {
                    kept.insert(items[i].as_str());
                }
                proof {
                    let done = all.take(i as int);
                    let next = all.take(i + 1);
                    assert(next =~= done.push(items@[i as int]@));
                    assert forall|x: Seq<char>| #[trigger] kept@.contains(x) <==> next.contains(x)
                        && known(snapshot.nodes@, x) by {
                        assert(before.contains(x) <==> done.contains(x) && known(
                            snapshot.nodes@,
                            x,
                        ));
                        if done.contains(x) {
                            let k = choose|k: int| 0 <= k < done.len() && done[k] == x;
                            assert(next[k] == x);
                        }
                        if next.contains(x) {
                            let k = choose|k: int| 0 <= k < next.len() && next[k] == x;
                            if k < done.len() {
                                assert(done[k] == x);
                            }
                        }
                        assert(next[i as int] == items@[i as int]@);
                    }
                }
                i += 1;
            }
            proof {
                assert(all.take(i as int) =~= all);
                assert(all == start);
            }
        }
        let ghost before = kept@;
        reveal_active_paths(&snapshot, &mut kept);
        proof {
            assert forall|x: Seq<char>| #[trigger] kept@.contains(x) <==> start.contains(x)
                && known(snapshot.nodes@, x) && !on_active_path(snapshot, x) by {
                assert(before.contains(x) <==> start.contains(x) && known(snapshot.nodes@, x));
            }
        }
        let keep_selection = match &self.selected_node_id {
            Some(id) => find_current(&snapshot.nodes, id.as_str()).is_some(),
            None => false,
        };
        if !keep_selection {
            self.selected_node_id = fallback_selected(&snapshot);
            self.inspector_scroll_offset = 0;
        }
        self.collapsed_node_ids = kept;
        self.snapshot = Some(snapshot);
        if first_snapshot {
            self.open = true;
        }
        self.clamp_scroll_offset();
    }

    /// Takes over a progress report, and with it the lease's heartbeat.
    pub fn update_progress(&mut self, progress: PlanAttemptProgressSnapshot)
        requires
            old(self).well_formed(),
        ensures
            took_progress(*old(self), *final(self), progress),
            final(self).well_formed(),
    {
        match &mut self.snapshot {
            None => {},
            Some(snapshot) => {
                let attempt_id = progress.attempt_id.clone();
                let heartbeat = progress.last_subagent_heartbeat_at_ms;
                plan_model::upsert(&mut snapshot.attempt_progress, progress);
                match heartbeat {
                    None => {},
                    Some(at) => {
                        let ttl: u64 = snapshot.subagent_heartbeat_ttl_ms;
                        apply_heartbeat(&mut snapshot.leases, attempt_id.as_str(), at, ttl);
                    },
                }
            },
        }
    }

    pub fn update_lease(&mut self, lease: PlanLeaseSnapshot)
        requires
            old(self).well_formed(),
        ensures
            took_lease(*old(self), *final(self), lease),
            final(self).well_formed(),
    {
        match &mut self.snapshot {
            None => {},
            Some(snapshot) => {
                plan_model::upsert(&mut snapshot.leases, lease);
            },
        }
    }

    pub fn update_attempt(&mut self, attempt: PlanAttemptSnapshot)
        requires
            old(self).well_formed(),
        ensures
            took_attempt(*old(self), *final(self), attempt),
            final(self).well_formed(),
    {
        match &mut self.snapshot {
            None => {},
            Some(snapshot) => {
                plan_model::upsert(&mut snapshot.attempts, attempt);
            },
        }
    }

    pub fn is_open(&self) -> (r: bool)
        ensures
            r == self.open,
    {
        self.open
    }

    pub open spec fn focus(self) -> bool {
        self.open && self.focused
    }

    pub open spec fn inspecting(self) -> bool {
        self.focus() && self.inspector_open
    }

    pub fn is_focused(&self) -> (r: bool)
        ensures
            r == self.focus(),
    {
        self.open && self.focused
    }

    pub fn is_inspector_open(&self) -> (r: bool)
        ensures
            r == self.inspecting(),
    {
        self.is_focused() && self.inspector_open
    }

    /// Opens the pane and gives it the keys; without a plan nothing happens.
    pub fn open_and_focus(&mut self) -> (r: bool)
        requires
            old(self).well_formed(),
        ensures
            r == (old(self).snapshot is Some),
            *final(self) == (if r {
                PlanUiState { open: true, focused: true, ..*old(self) }
            } else {
                *old(self)
            }),
            final(self).well_formed(),
    {
        if self.snapshot.is_none() {
            return false;
        }
        self.open = true;
        self.focused = true;
        true
    }

    pub fn close(&mut self)
        requires
            old(self).well_formed(),
        ensures
            *final(self) == (PlanUiState {
                open: false,
                focused: false,
                inspector_open: false,
                inspector_scroll_offset: 0,
                ..*old(self)
            }),
            final(self).well_formed(),
    {
        self.open = false;
        self.focused = false;
        self.inspector_open = false;
        self.inspector_scroll_offset = 0;
    }

    /// Closes an open pane; opens a closed one and gives it the keys.
    pub fn toggle(&mut self)
        requires
            old(self).well_formed(),
        ensures
            *final(self) == toggled(*old(self)),
            final(self).well_formed(),
    {
        if self.open {
            self.close();
        } else {
            let _ = self.open_and_focus();
        }
    }

    pub fn leave_focus(&mut self)
        requires
            old(self).well_formed(),
        ensures
            *final(self) == (PlanUiState {
                focused: false,
                inspector_open: false,
                inspector_scroll_offset: 0,
                ..*old(self)
            }),
            final(self).well_formed(),
    {
        self.focused = false;
        self.inspector_open = false;
        self.inspector_scroll_offset = 0;
    }

    /// Shows the selected node in detail.
    pub fn open_inspector(&mut self) -> (r: bool)
        requires
            old(self).well_formed(),
        ensures
            r == (old(self).selected() is Some),
            *final(self) == (if r {
                PlanUiState { inspector_open: true, inspector_scroll_offset: 0, ..*old(self) }
            } else {
                *old(self)
            }),
            final(self).well_formed(),
    {
        if self.selected_node().is_none() {
            return false;
        }
        self.inspector_open = true;
        self.inspector_scroll_offset = 0;
        true
    }

    pub fn close_inspector(&mut self) -> (r: bool)
        requires
            old(self).well_formed(),
        ensures
            r == old(self).inspector_open,
            *final(self) == (if r {
                PlanUiState { inspector_open: false, inspector_scroll_offset: 0, ..*old(self) }
            } else {
                *old(self)
            }),
            final(self).well_formed(),
    {
        if !self.inspector_open {
            return false;
        }
        self.inspector_open = false;
        self.inspector_scroll_offset = 0;
        true
    }

    /// Selects the row before or behind the selected one.
    fn move_selection(&mut self, forward: bool) -> (r: bool)
        requires
            old(self).well_formed(),
        ensures
            ({
                let at = old(self).rows();
                let target = selection_target(*old(self), forward);
                &&& r == (at.len() > 0 && target != selection_row(*old(self)))
                &&& !r ==> *final(self) == *old(self)
                &&& r ==> final(self).selected() == Some(old(self).nodes()[at[target].0].id@)
                    && *final(self) == (PlanUiState {
                    selected_node_id: final(self).selected_node_id,
                    inspector_scroll_offset: 0,
                    ..*old(self)
                })
            }),
            final(self).well_formed(),
    {
        let rows = self.visible_rows();
        let ghost at = self.rows();
        let ghost nodes = self.nodes();
        if rows.len() == 0 {
            return false;
        }
        let mut current: usize = 0;
        match &self.selected_node_id {
            None => {},
            Some(selected) => {
                let mut k: usize = 0;
                proof {
                    assert(at.take(0) =~= Seq::<(int, int)>::empty());
                }
                while k < rows.len()
                    invariant_except_break
                        k <= rows@.len(),
                        current == 0,
                        are_rows(
                            rows@,
                            nodes,
                            self.collapsed_node_ids@,
                            self.subagent_activity@,
                            at,
                        ),
                        row_of(nodes, at.take(k as int), selected@) is None,
                        rows@.len() > 0,
                        k == rows@.len() ==> row_of(nodes, at, selected@) is None,
                    ensures
                        current == (match row_of(nodes, at, selected@) {
                            Some(p) => p,
                            None => 0,
                        }),
                        current < rows@.len() || current == 0,
                    decreases rows@.len() - k,
                {
                    proof {
                        assert(at.take(k + 1).drop_last() =~= at.take(k as int));
                        assert(is_row(
                            rows@[k as int],
                            nodes,
                            self.collapsed_node_ids@,
                            self.subagent_activity@,
                            at[k as int],
                        ));
                    }
                    if text::same(rows[k].node_id.as_str(), selected.as_str()) {
                        current = k;
                        proof {
                            lemma_row_prefix(nodes, at, k + 1, selected@);
                        }
                        break;
                    }
                    k += 1;
                    proof {
                        if k == rows@.len() {
                            assert(at.take(k as int) =~= at);
                        }
                    }
                }
            },
        }
        let next: usize = if forward {
            if current + 1 < rows.len() {
                current + 1
            } else {
                rows.len() - 1
            }
        } else {
            current.saturating_sub(1)
        };
        if next == current {
            return false;
        }
        proof {
            assert(is_row(
                rows@[next as int],
                nodes,
                self.collapsed_node_ids@,
                self.subagent_activity@,
                at[next as int],
            ));
            superseded_nodes_are_hidden(self.snapshot->0, self.collapsed_node_ids@);
            assert(current_row_is_known(nodes, at[next as int]));
        }
        self.selected_node_id = Some(rows[next].node_id.clone());
        self.inspector_scroll_offset = 0;
        true
    }

    pub fn select_previous(&mut self) -> (r: bool)
        requires
            old(self).well_formed(),
        ensures
            after_move(*old(self), *final(self), false, r),
            final(self).well_formed(),
    {
        self.move_selection(false)
    }

    pub fn select_next(&mut self) -> (r: bool)
        requires
            old(self).well_formed(),
        ensures
            after_move(*old(self), *final(self), true, r),
            final(self).well_formed(),
    {
        self.move_selection(true)
    }

    /// Folds the selected node, or selects its parent where there is nothing to fold.
    pub fn select_parent_or_collapse(&mut self) -> (r: bool)
        requires
            old(self).well_formed(),
        ensures
            parent_or_collapse(*old(self), *final(self), r),
            final(self).well_formed(),
    {
        let selected: String = match &self.selected_node_id {
            None => {
                return false;
            },
            Some(id) => id.clone(),
        };
        if self.has_children(selected.as_str()) && !self.is_collapsed(selected.as_str()) {
            return self.toggle_collapse(selected.as_str());
        }
        let parent: Option<String> = match self.selected_node() {
            Some(n) => n.parent_id.clone(),
            None => None,
        };
        match parent {
            None => false,
            Some(p) => self.select_node(p.as_str()),
        }
    }

    /// Unfolds the selected node, or selects its first child.
    pub fn select_child_or_expand(&mut self) -> (r: bool)
        requires
            old(self).well_formed(),
        ensures
            child_or_expand(*old(self), *final(self), r),
            final(self).well_formed(),
    {
        let selected: String = match &self.selected_node_id {
            None => {
                return false;
            },
            Some(id) => id.clone(),
        };
        if self.is_collapsed(selected.as_str()) {
            return self.toggle_collapse(selected.as_str());
        }
        let child: Option<String> = match &self.snapshot {
            None => None,
            Some(snapshot) => {
                let below = children_of(&snapshot.nodes, Some(selected.as_str()));
                proof {
                    assert(ints(below@).len() == below@.len());
                }
                if below.len() > 0 {
                    proof {
                        assert(ints(below@)[0] == below@[0]);
                    }
                    Some(snapshot.nodes[below[0]].id.clone())
                } else {
                    None
                }
            },
        };
        match child {
            None => false,
            Some(c) => self.select_node(c.as_str()),
        }
    }

    pub fn scroll_offset(&self) -> (r: usize)
        ensures
            r == self.scroll_offset,
    {
        self.scroll_offset
    }

    pub fn scroll_up_by(&mut self, amount: usize)
        requires
            old(self).well_formed(),
        ensures
            *final(self) == (PlanUiState {
                scroll_offset: final(self).scroll_offset,
                ..*old(self)
            }),
            final(self).scroll_offset == (if old(self).scroll_offset > amount {
                old(self).scroll_offset - amount
            } else {
                0
            }),
            final(self).well_formed(),
    {
        self.scroll_offset = self.scroll_offset.saturating_sub(amount);
    }

    pub fn scroll_down_by(&mut self, amount: usize)
        requires
            old(self).well_formed(),
        ensures
            *final(self) == (PlanUiState {
                scroll_offset: final(self).scroll_offset,
                ..*old(self)
            }),
            final(self).scroll_offset == clamped(
                old(self).scroll_offset + amount,
                old(self).rows().len() as int,
            ),
            final(self).well_formed(),
    {
        let last: usize = self.visible_rows().len().saturating_sub(1);
        let wanted: usize = self.scroll_offset.saturating_add(amount);
        self.scroll_offset = if wanted < last {
            wanted
        } else {
            last
        };
    }

    pub fn inspector_scroll_offset(&self) -> (r: usize)
        ensures
            r == self.inspector_scroll_offset,
    {
        self.inspector_scroll_offset
    }

    pub fn scroll_inspector_up_by(&mut self, amount: usize)
        requires
            old(self).well_formed(),
        ensures
            *final(self) == (PlanUiState {
                inspector_scroll_offset: final(self).inspector_scroll_offset,
                ..*old(self)
            }),
            final(self).inspector_scroll_offset == (if old(self).inspector_scroll_offset > amount {
                old(self).inspector_scroll_offset - amount
            } else {
                0
            }),
            final(self).well_formed(),
    {
        self.inspector_scroll_offset = self.inspector_scroll_offset.saturating_sub(amount);
    }

    pub fn scroll_inspector_down_by(&mut self, amount: usize)
        requires
            old(self).well_formed(),
        ensures
            *final(self) == (PlanUiState {
                inspector_scroll_offset: final(self).inspector_scroll_offset,
                ..*old(self)
            }),
            final(self).inspector_scroll_offset == (if old(self).inspector_scroll_offset + amount
                <= usize::MAX {
                old(self).inspector_scroll_offset + amount
            } else {
                usize::MAX as int
            }),
            final(self).well_formed(),
    {
        self.inspector_scroll_offset = self.inspector_scroll_offset.saturating_add(amount);
    }
}

/// The pane after it has been closed.
pub open spec fn closed_pane(s: PlanUiState) -> PlanUiState {
    PlanUiState {
        open: false,
        focused: false,
        inspector_open: false,
        inspector_scroll_offset: 0,
        ..s
    }
}

/// The pane after it has been opened and given the keys; without a plan it stays as it is.
pub open spec fn opened_pane(s: PlanUiState) -> PlanUiState {
    if s.snapshot is Some {
        PlanUiState { open: true, focused: true, ..s }
    } else {
        s
    }
}

/// The pane without the keys.
pub open spec fn unfocused_pane(s: PlanUiState) -> PlanUiState {
    PlanUiState { focused: false, inspector_open: false, inspector_scroll_offset: 0, ..s }
}

pub open spec fn toggled(s: PlanUiState) -> PlanUiState {
    if s.open {
        closed_pane(s)
    } else {
        opened_pane(s)
    }
}

/// A pane that is toggled twice is open or closed as before.
pub proof fn toggling_twice_keeps_the_pane_open_or_closed(s: PlanUiState)
    requires
        s.snapshot is Some,
    ensures
        toggled(toggled(s)).open == s.open,
{
}

/// A row names a known node.
pub open spec fn current_row_is_known(nodes: Seq<PlanNodeSnapshot>, row: (int, int)) -> bool {
    0 <= row.0 < nodes.len() && current(nodes[row.0])
}

/// The row of the selected node; the first where it shows in none.
pub open spec fn selection_row(s: PlanUiState) -> int {
    match s.selected() {
        Some(id) => match row_of(s.nodes(), s.rows(), id) {
            Some(k) => k,
            None => 0,
        },
        None => 0,
    }
}

/// The row that a step of the selection leads to.
pub open spec fn selection_target(s: PlanUiState, forward: bool) -> int {
    let here = selection_row(s);
    if forward {
        if here + 1 < s.rows().len() {
            here + 1
        } else {
            s.rows().len() - 1
        }
    } else if here > 0 {
        here - 1
    } else {
        0
    }
}

/// The pane after a step of the selection, and whether it moved.
pub open spec fn after_move(
    before: PlanUiState,
    after: PlanUiState,
    forward: bool,
    moved: bool,
) -> bool {
    let at = before.rows();
    let target = selection_target(before, forward);
    &&& moved == (at.len() > 0 && target != selection_row(before))
    &&& !moved ==> after == before
    &&& moved ==> after.selected() == Some(before.nodes()[at[target].0].id@) && after == (
    PlanUiState {
        selected_node_id: after.selected_node_id,
        inspector_scroll_offset: 0,
        ..before
    })
}

/// The pane after a node has been selected by id, and whether it could be.
pub open spec fn after_select(
    before: PlanUiState,
    after: PlanUiState,
    id: Seq<char>,
    done: bool,
) -> bool {
    &&& done == known(before.nodes(), id)
    &&& !done ==> after == before
    &&& done ==> after.selected() == Some(id) && after == (PlanUiState {
        selected_node_id: after.selected_node_id,
        inspector_scroll_offset: 0,
        ..before
    })
}

/// The pane after a node has been folded or unfolded, and whether it could be.
pub open spec fn after_toggle(
    before: PlanUiState,
    after: PlanUiState,
    id: Seq<char>,
    done: bool,
) -> bool {
    &&& done == has_current_child(before.nodes(), id)
    &&& !done ==> after == before
    &&& done ==> {
        &&& after == (PlanUiState {
            collapsed_node_ids: after.collapsed_node_ids,
            scroll_offset: after.scroll_offset,
            ..before
        })
        &&& forall|x: Seq<char>|
            after.collapsed_node_ids@.contains(x) <==> (if x == id {
                !before.collapsed_node_ids@.contains(x)
            } else {
                before.collapsed_node_ids@.contains(x)
            })
        &&& after.scroll_offset == clamped(before.scroll_offset as int, after.rows().len() as int)
    }
}

pub open spec fn parent_or_collapse(before: PlanUiState, after: PlanUiState, done: bool) -> bool {
    match before.selected() {
        None => !done && after == before,
        Some(id) => if has_current_child(before.nodes(), id)
            && !before.collapsed_node_ids@.contains(id) {
            after_toggle(before, after, id, done)
        } else {
            match first_current(before.nodes(), id) {
                Some(i) => match before.nodes()[i].parent_id {
                    Some(p) => after_select(before, after, p@, done),
                    None => !done && after == before,
                },
                None => !done && after == before,
            }
        },
    }
}

pub open spec fn child_or_expand(before: PlanUiState, after: PlanUiState, done: bool) -> bool {
    match before.selected() {
        None => !done && after == before,
        Some(id) => if before.collapsed_node_ids@.contains(id) {
            after_toggle(before, after, id, done)
        } else {
            let below = children(before.nodes(), Some(id));
            if below.len() > 0 {
                after_select(before, after, before.nodes()[below[0]].id@, done)
            } else {
                !done && after == before
            }
        },
    }
}

/// The leases once a heartbeat of an attempt has come in: its first lease lives on.
pub open spec fn heartbeat_applied(
    leases: Seq<PlanLeaseSnapshot>,
    attempt: Seq<char>,
    heartbeat: Option<u64>,
    ttl: u64,
) -> Seq<PlanLeaseSnapshot> {
    match (heartbeat, lease_of(leases, attempt)) {
        (Some(at), Some(i)) => leases.update(
            i,
            PlanLeaseSnapshot {
                last_heartbeat_at_ms: at,
                lease_expires_at_ms: if at + ttl <= u64::MAX {
                    (at + ttl) as u64
                } else {
                    u64::MAX
                },
                ..leases[i]
            },
        ),
        _ => leases,
    }
}

/// The first lease of an attempt.
pub open spec fn lease_of(leases: Seq<PlanLeaseSnapshot>, attempt: Seq<char>) -> Option<int>
    decreases leases.len(),
{
    if leases.len() == 0 {
        None
    } else {
        match lease_of(leases.drop_last(), attempt) {
            Some(i) => Some(i),
            None => if leases.last().attempt_id@ == attempt {
                Some(leases.len() - 1)
            } else {
                None
            },
        }
    }
}

proof fn lemma_lease_prefix(leases: Seq<PlanLeaseSnapshot>, n: int, attempt: Seq<char>)
    requires
        0 <= n <= leases.len(),
        lease_of(leases.take(n), attempt) is Some,
    ensures
        lease_of(leases, attempt) == lease_of(leases.take(n), attempt),
    decreases leases.len(),
{
    if n == leases.len() {
        assert(leases.take(n) =~= leases);
    } else {
        assert(leases.drop_last().take(n) =~= leases.take(n));
        lemma_lease_prefix(leases.drop_last(), n, attempt);
    }
}

fn apply_heartbeat(leases: &mut Vec<PlanLeaseSnapshot>, attempt: &str, at: u64, ttl: u64)
    ensures
        final(leases)@ == heartbeat_applied(old(leases)@, attempt@, Some(at), ttl),
{
    let ghost before = leases@;
    let mut i: usize = 0;
    proof {
        assert(before.take(0) =~= Seq::<PlanLeaseSnapshot>::empty());
    }
    while i < leases.len()
        invariant
            i <= leases@.len(),
            leases@ == before,
            before == old(leases)@,
            lease_of(before.take(i as int), attempt@) is None,
        decreases leases@.len() - i,
    {
        proof {
            assert(before.take(i + 1).drop_last() =~= before.take(i as int));
        }
        if text::same(leases[i].attempt_id.as_str(), attempt) {
            proof {
                lemma_lease_prefix(before, i + 1, attempt@);
            }
            leases[i].last_heartbeat_at_ms = at;
            leases[i].lease_expires_at_ms = at.saturating_add(ttl);
            proof {
                assert(leases@ =~= heartbeat_applied(before, attempt@, Some(at), ttl));
            }
            return ;
        }
        i += 1;
    }
    proof {
        assert(before.take(i as int) =~= before);
    }
}

/// What is selected where the selection is gone: the plan's root, else the first root.
pub open spec fn fallback_selection(snapshot: PlanSnapshot) -> Option<Seq<char>> {
    if snapshot.root_node_id is Some && known(snapshot.nodes@, snapshot.root_node_id->0@) {
        Some(snapshot.root_node_id->0@)
    } else if roots(snapshot).len() > 0 {
        Some(snapshot.nodes@[roots(snapshot)[0]].id@)
    } else {
        None
    }
}

fn fallback_selected(snapshot: &PlanSnapshot) -> (r: Option<String>)
    ensures
        plan_model::opt(r) == fallback_selection(*snapshot),
        r matches Some(id) ==> known(snapshot.nodes@, id@),
{
    match &snapshot.root_node_id {
        Some(root) => {
            if find_current(&snapshot.nodes, root.as_str()).is_some() {
                return Some(root.clone());
            }
        },
        None => {},
    }
    let top = root_nodes(snapshot);
    proof {
        assert(ints(top@).len() == top@.len());
        lemma_roots(*snapshot);
    }
    if top.len() > 0 {
        proof {
            assert(ints(top@)[0] == top@[0]);
            assert(current(snapshot.nodes@[top@[0] as int]));
        }
        Some(snapshot.nodes[top[0]].id.clone())
    } else {
        None
    }
}

proof fn lemma_dependencies(nodes: Seq<PlanNodeSnapshot>, n: PlanNodeSnapshot)
    ensures
        dependencies_completed(nodes, n) <==> (forall|id: Seq<char>| #[trigger]
            text::views(n.depends_on@).contains(id) ==> exists|i: int|
                0 <= i < nodes.len() && (#[trigger] nodes[i]).id@ == id && nodes[i].status
                    == PlanNodeStatus::Completed),
{
    let ids = text::views(n.depends_on@);
    let all = forall|id: Seq<char>| #[trigger]
        ids.contains(id) ==> exists|i: int|
            0 <= i < nodes.len() && (#[trigger] nodes[i]).id@ == id && nodes[i].status
                == PlanNodeStatus::Completed;
    if dependencies_completed(nodes, n) {
        assert forall|id: Seq<char>| #[trigger] ids.contains(id) implies exists|i: int|
            0 <= i < nodes.len() && (#[trigger] nodes[i]).id@ == id && nodes[i].status
                == PlanNodeStatus::Completed by {
            let d = choose|d: int| 0 <= d < ids.len() && ids[d] == id;
            assert(completed(nodes, n.depends_on@[d]@));
        }
        assert(all);
    }
    if all {
        assert forall|d: int| 0 <= d < n.depends_on@.len() implies completed(
            nodes,
            #[trigger] n.depends_on@[d]@,
        ) by {
            assert(ids[d] == n.depends_on@[d]@);
            assert(ids.contains(ids[d]));
        }
    }
}

/// A pending node without children and without work under way is ready exactly when every node
/// that it depends on is completed.
pub proof fn pending_leaves_wait_for_their_dependencies(
    nodes: Seq<PlanNodeSnapshot>,
    n: PlanNodeSnapshot,
)
    requires
        n.status == PlanNodeStatus::Pending,
        n.execution_summary.active == 0,
        forall|i: int|
            0 <= i < nodes.len() ==> (#[trigger] nodes[i]).status == PlanNodeStatus::Superseded || (
            nodes[i].parent_id matches Some(p) ==> p@ != n.id@),
    ensures
        ready(nodes, n) <==> (forall|id: Seq<char>| #[trigger]
            text::views(n.depends_on@).contains(id) ==> exists|i: int|
                0 <= i < nodes.len() && (#[trigger] nodes[i]).id@ == id && nodes[i].status
                    == PlanNodeStatus::Completed),
        n.depends_on@.len() == 0 ==> ready(nodes, n),
{
    assert(!has_current_child(nodes, n.id@)) by {
        if has_current_child(nodes, n.id@) {
            let i = choose|i: int| 0 <= i < nodes.len() && is_child(#[trigger] nodes[i], Some(n.id@));
            assert(nodes[i].status == PlanNodeStatus::Superseded || (nodes[i].parent_id matches Some(
                p,
            ) ==> p@ != n.id@));
        }
    }
    lemma_dependencies(nodes, n);
}

/// A node with children is ready exactly when it waits to be verified without work under way,
/// the nodes that it depends on are completed, and its children are.
pub proof fn parents_wait_for_their_children(
    nodes: Seq<PlanNodeSnapshot>,
    n: PlanNodeSnapshot,
    child: int,
)
    requires
        0 <= child < nodes.len(),
        nodes[child].status != PlanNodeStatus::Superseded,
        nodes[child].parent_id matches Some(p) && p@ == n.id@,
    ensures
        ready(nodes, n) <==> n.status == PlanNodeStatus::Verifying && n.execution_summary.active
            == 0 && (forall|i: int|
            0 <= i < nodes.len() && (#[trigger] nodes[i]).status != PlanNodeStatus::Superseded && (
            nodes[i].parent_id matches Some(p) && p@ == n.id@) ==> nodes[i].status
                == PlanNodeStatus::Completed) && (forall|id: Seq<char>| #[trigger]
            text::views(n.depends_on@).contains(id) ==> exists|i: int|
                0 <= i < nodes.len() && (#[trigger] nodes[i]).id@ == id && nodes[i].status
                    == PlanNodeStatus::Completed),
        ready(nodes, n) ==> nodes[child].status == PlanNodeStatus::Completed,
{
    assert(is_child(nodes[child], Some(n.id@)));
    assert(has_current_child(nodes, n.id@));
    lemma_dependencies(nodes, n);
    let children_done = forall|i: int|
        0 <= i < nodes.len() && (#[trigger] nodes[i]).status != PlanNodeStatus::Superseded && (
        nodes[i].parent_id matches Some(p) && p@ == n.id@) ==> nodes[i].status
            == PlanNodeStatus::Completed;
    if children_done {
        assert forall|i: int|
            0 <= i < nodes.len() && is_child(#[trigger] nodes[i], Some(n.id@)) implies nodes[i].status
            == PlanNodeStatus::Completed by {}
    }
    if ready(nodes, n) {
        assert forall|i: int|
            0 <= i < nodes.len() && (#[trigger] nodes[i]).status != PlanNodeStatus::Superseded && (
            nodes[i].parent_id matches Some(p) && p@ == n.id@) implies nodes[i].status
            == PlanNodeStatus::Completed by {
            assert(is_child(nodes[i], Some(n.id@)));
        }
        assert(children_done);
    }
}

/// Nothing is ready but what is pending or waits to be verified, and nothing that is worked on.
pub proof fn only_waiting_nodes_are_ready(nodes: Seq<PlanNodeSnapshot>, n: PlanNodeSnapshot)
    requires
        ready(nodes, n),
    ensures
        n.status == PlanNodeStatus::Pending || n.status == PlanNodeStatus::Verifying,
        n.execution_summary.active == 0,
        n.status == PlanNodeStatus::Verifying <==> (exists|i: int|
            0 <= i < nodes.len() && (#[trigger] nodes[i]).status != PlanNodeStatus::Superseded && (
            nodes[i].parent_id matches Some(p) && p@ == n.id@)),
{
    if has_current_child(nodes, n.id@) {
        let i = choose|i: int| 0 <= i < nodes.len() && is_child(#[trigger] nodes[i], Some(n.id@));
        assert(nodes[i].status != PlanNodeStatus::Superseded);
    }
    if exists|i: int|
        0 <= i < nodes.len() && (#[trigger] nodes[i]).status != PlanNodeStatus::Superseded && (
        nodes[i].parent_id matches Some(p) && p@ == n.id@) {
        let i = choose|i: int|
            0 <= i < nodes.len() && (#[trigger] nodes[i]).status != PlanNodeStatus::Superseded && (
            nodes[i].parent_id matches Some(p) && p@ == n.id@);
        assert(is_child(nodes[i], Some(n.id@)));
    }
}

proof fn lemma_counts_are_filters(nodes: Seq<PlanNodeSnapshot>, n: int)
    requires
        0 <= n <= nodes.len(),
    ensures
        ready_among(nodes, n) == nodes.take(n).filter(
            |x: PlanNodeSnapshot| ready(nodes, x),
        ).len(),
        blocked_among(nodes, n) == nodes.take(n).filter(
            |x: PlanNodeSnapshot| x.status == PlanNodeStatus::Blocked,
        ).len(),
        live_sum(nodes.take(n)) == nodes.take(n).fold_left(
            0int,
            |sum: int, x: PlanNodeSnapshot| sum + x.execution_summary.active,
        ),
    decreases n,
{
    reveal(Seq::filter);
    reveal_with_fuel(Seq::fold_left, 2);
    if n > 0 {
        lemma_counts_are_filters(nodes, n - 1);
        let now = nodes.take(n);
        assert(now.drop_last() =~= nodes.take(n - 1));
        assert(now.last() == nodes[n - 1]);
    }
}

/// The counts of a plan: as many ready and blocked nodes as there are, and the sum of the work
/// under way.
pub proof fn counts_are_those_of_the_nodes(nodes: Seq<PlanNodeSnapshot>)
    ensures
        ready_among(nodes, nodes.len() as int) == nodes.filter(
            |x: PlanNodeSnapshot| ready(nodes, x),
        ).len(),
        blocked_among(nodes, nodes.len() as int) == nodes.filter(
            |x: PlanNodeSnapshot| x.status == PlanNodeStatus::Blocked,
        ).len(),
        live_sum(nodes) == nodes.fold_left(
            0int,
            |sum: int, x: PlanNodeSnapshot| sum + x.execution_summary.active,
        ),
{
    assert(nodes.take(nodes.len() as int) =~= nodes);
    lemma_counts_are_filters(nodes, nodes.len() as int);
}

/// The children of a node are all its current ones, each once, by their place among the
/// siblings and, in the same place, by their ids.
pub proof fn children_are_the_current_ones_in_order(
    nodes: Seq<PlanNodeSnapshot>,
    parent: Option<Seq<char>>,
)
    ensures
        ({
            let c = children(nodes, parent);
            &&& c.no_duplicates()
            &&& forall|i: int|
                c.contains(i) <==> 0 <= i < nodes.len() && (#[trigger] nodes[i]).status
                    != PlanNodeStatus::Superseded && (match nodes[i].parent_id {
                    Some(p) => parent == Some(p@),
                    None => parent is None,
                })
            &&& forall|a: int, b: int|
                0 <= a < b < c.len() ==> nodes[#[trigger] c[a]].sibling_order < nodes[
                #[trigger] c[b]].sibling_order || (nodes[c[a]].sibling_order
                    == nodes[c[b]].sibling_order && (ordered::lex_less(
                    nodes[c[a]].id@,
                    nodes[c[b]].id@,
                ) || nodes[c[a]].id@ == nodes[c[b]].id@))
        }),
{
    let c = children(nodes, parent);
    lemma_children_among(nodes, parent, nodes.len() as int);
    children_are_in_order(nodes, parent, nodes.len() as int);
    assert forall|i: int|
        c.contains(i) <==> 0 <= i < nodes.len() && (#[trigger] nodes[i]).status
            != PlanNodeStatus::Superseded && (match nodes[i].parent_id {
            Some(p) => parent == Some(p@),
            None => parent is None,
        }) by {
        if c.contains(i) {
            let k = choose|k: int| 0 <= k < c.len() && c[k] == i;
            assert(is_child(nodes[c[k]], parent));
        }
        if 0 <= i < nodes.len() && is_child(nodes[i], parent) {
            assert(c.contains(i));
        }
    }
    assert forall|a: int, b: int| 0 <= a < b < c.len() implies nodes[#[trigger] c[a]].sibling_order
        < nodes[#[trigger] c[b]].sibling_order || (nodes[c[a]].sibling_order
        == nodes[c[b]].sibling_order && (ordered::lex_less(nodes[c[a]].id@, nodes[c[b]].id@)
        || nodes[c[a]].id@ == nodes[c[b]].id@)) by {
        assert(!sibling_before(nodes, c[b], c[a]));
        ordered::lex_less_is_total(nodes[c[a]].id@, nodes[c[b]].id@);
    }
}

proof fn lemma_position(nodes: Seq<PlanNodeSnapshot>, list: Seq<int>, id: Seq<char>)
    ensures
        position_of(nodes, list, id) matches Some(p) ==> 0 <= p < list.len() && nodes[list[p]].id@
            == id && (forall|k: int| 0 <= k < p ==> nodes[#[trigger] list[k]].id@ != id),
        position_of(nodes, list, id) is None ==> (forall|k: int|
            0 <= k < list.len() ==> nodes[#[trigger] list[k]].id@ != id),
    decreases list.len(),
{
    if list.len() > 0 {
        let init = list.drop_last();
        lemma_position(nodes, init, id);
        assert forall|k: int| 0 <= k < init.len() implies init[k] == #[trigger] list[k] by {}
    }
}

/// The roots of the tree are all current nodes without a parent, each once; where the plan
/// names one of them as its root, that one stands first.
pub proof fn the_named_root_stands_first(snapshot: PlanSnapshot)
    ensures
        ({
            let nodes = snapshot.nodes@;
            let r = roots(snapshot);
            &&& r.no_duplicates()
            &&& forall|i: int|
                r.contains(i) <==> 0 <= i < nodes.len() && (#[trigger] nodes[i]).status
                    != PlanNodeStatus::Superseded && nodes[i].parent_id is None
            &&& snapshot.root_node_id matches Some(root) ==> (forall|i: int|
                0 <= i < nodes.len() && (#[trigger] nodes[i]).id@ == root@ && nodes[i].status
                    != PlanNodeStatus::Superseded && nodes[i].parent_id is None ==> r.len() > 0
                    && nodes[r[0]].id@ == root@)
        }),
{
    let nodes = snapshot.nodes@;
    let all = children(nodes, None);
    let r = roots(snapshot);
    children_are_the_current_ones_in_order(nodes, None);
    assert forall|x: int| r.contains(x) <==> all.contains(x) by {
        if snapshot.root_node_id is Some {
            lemma_position(nodes, all, snapshot.root_node_id->0@);
            let at = position_of(nodes, all, snapshot.root_node_id->0@);
            if at is Some {
                let p = at->0;
                if r.contains(x) {
                    let k = choose|k: int| 0 <= k < r.len() && r[k] == x;
                    assert(r[k] == all[if k == p {
                        0
                    } else if k == 0 {
                        p
                    } else {
                        k
                    }]);
                }
                if all.contains(x) {
                    let k = choose|k: int| 0 <= k < all.len() && all[k] == x;
                    assert(all[k] == r[if k == p {
                        0
                    } else if k == 0 {
                        p
                    } else {
                        k
                    }]);
                }
            }
        }
    }
    if snapshot.root_node_id is Some {
        let root = snapshot.root_node_id->0;
        lemma_position(nodes, all, root@);
        assert forall|i: int|
            0 <= i < nodes.len() && (#[trigger] nodes[i]).id@ == root@ && nodes[i].status
                != PlanNodeStatus::Superseded && nodes[i].parent_id is None implies r.len() > 0
            && nodes[r[0]].id@ == root@ by {
            assert(all.contains(i));
            let k = choose|k: int| 0 <= k < all.len() && all[k] == i;
            assert(nodes[all[k]].id@ == root@);
        }
    }
}

/// Whether a row stands right above another as its parent: one level higher, unfolded, and
/// naming the node that the other one's node belongs to.
pub open spec fn is_parent_row(
    nodes: Seq<PlanNodeSnapshot>,
    folded: Seq<Seq<char>>,
    parent: (int, int),
    row: (int, int),
) -> bool {
    &&& 0 <= parent.0 < nodes.len()
    &&& parent.1 == row.1 - 1
    &&& !folded.contains(nodes[parent.0].id@)
    &&& nodes[row.0].parent_id matches Some(p) && p@ == nodes[parent.0].id@
}

/// Whether a row stands below one of the rows before it.
pub open spec fn has_parent_row(
    nodes: Seq<PlanNodeSnapshot>,
    folded: Seq<Seq<char>>,
    rows: Seq<(int, int)>,
    k: int,
) -> bool {
    exists|j: int| 0 <= j < k && is_parent_row(nodes, folded, #[trigger] rows[j], rows[k])
}

spec fn in_nodes(nodes: Seq<PlanNodeSnapshot>, list: Seq<int>) -> bool {
    forall|k: int| 0 <= k < list.len() ==> 0 <= #[trigger] list[k] < nodes.len()
}

proof fn lemma_forest_parents(
    nodes: Seq<PlanNodeSnapshot>,
    folded: Seq<Seq<char>>,
    list: Seq<int>,
    depth: int,
    levels: nat,
)
    requires
        in_nodes(nodes, list),
    ensures
        ({
            let rows = forest(nodes, folded, list, depth, levels);
            &&& forall|k: int|
                0 <= k < rows.len() ==> (#[trigger] rows[k]).1 >= depth && (rows[k].1 == depth
                    ==> list.contains(rows[k].0)) && (rows[k].1 > depth ==> has_parent_row(
                    nodes,
                    folded,
                    rows,
                    k,
                ))
            &&& forall|i: int| #[trigger] list.contains(i) ==> rows.contains((i, depth))
        }),
    decreases levels, list.len() + 1,
{
    let rows = forest(nodes, folded, list, depth, levels);
    if list.len() > 0 {
        let init = list.drop_last();
        let last = list.last();
        assert(in_nodes(nodes, init)) by {
            assert forall|k: int| 0 <= k < init.len() implies 0 <= #[trigger] init[k]
                < nodes.len() by {
                assert(init[k] == list[k]);
            }
        }
        assert(list[list.len() - 1] == last);
        lemma_forest_parents(nodes, folded, init, depth, levels);
        lemma_subtree_parents(nodes, folded, last, depth, levels);
        let a = forest(nodes, folded, init, depth, levels);
        let b = subtree(nodes, folded, last, depth, levels);
        assert(rows == a + b);
        assert forall|k: int| 0 <= k < rows.len() implies (#[trigger] rows[k]).1 >= depth && (
        rows[k].1 == depth ==> list.contains(rows[k].0)) && (rows[k].1 > depth ==> has_parent_row(
            nodes,
            folded,
            rows,
            k,
        )) by {
            if k < a.len() {
                assert(rows[k] == a[k]);
                if rows[k].1 == depth {
                    assert(init.contains(a[k].0));
                    let j = choose|j: int| 0 <= j < init.len() && init[j] == a[k].0;
                    assert(list[j] == a[k].0);
                } else {
                    assert(has_parent_row(nodes, folded, a, k));
                    let j = choose|j: int|
                        0 <= j < k && is_parent_row(nodes, folded, #[trigger] a[j], a[k]);
                    assert(rows[j] == a[j]);
                }
            } else {
                let m = k - a.len();
                assert(rows[k] == b[m]);
                if rows[k].1 == depth {
                    assert(list[list.len() - 1] == b[m].0);
                } else {
                    assert(has_parent_row(nodes, folded, b, m));
                    let j = choose|j: int|
                        0 <= j < m && is_parent_row(nodes, folded, #[trigger] b[j], b[m]);
                    assert(rows[a.len() + j] == b[j]);
                }
            }
        }
        assert forall|i: int| #[trigger] list.contains(i) implies rows.contains((i, depth)) by {
            let j = choose|j: int| 0 <= j < list.len() && list[j] == i;
            if j < init.len() {
                assert(init[j] == i);
                assert(init.contains(i));
                let m = choose|m: int| 0 <= m < a.len() && a[m] == (i, depth);
                assert(rows[m] == (i, depth));
            } else {
                assert(rows[a.len() as int] == b[0]);
            }
        }
    }
}

proof fn lemma_subtree_parents(
    nodes: Seq<PlanNodeSnapshot>,
    folded: Seq<Seq<char>>,
    i: int,
    depth: int,
    levels: nat,
)
    requires
        0 <= i < nodes.len(),
    ensures
        ({
            let rows = subtree(nodes, folded, i, depth, levels);
            &&& rows.len() > 0
            &&& rows[0] == (i, depth)
            &&& forall|k: int|
                0 <= k < rows.len() ==> (#[trigger] rows[k]).1 >= depth && (rows[k].1 == depth
                    ==> rows[k].0 == i) && (rows[k].1 > depth ==> has_parent_row(
                    nodes,
                    folded,
                    rows,
                    k,
                ))
            &&& folded.contains(nodes[i].id@) ==> rows.len() == 1
        }),
    decreases levels, 0nat,
{
    let rows = subtree(nodes, folded, i, depth, levels);
    if !(folded.contains(nodes[i].id@) || levels == 0) {
        let below = children(nodes, Some(nodes[i].id@));
        children_are_the_current_ones_in_order(nodes, Some(nodes[i].id@));
        assert(in_nodes(nodes, below)) by {
            assert forall|k: int| 0 <= k < below.len() implies 0 <= #[trigger] below[k]
                < nodes.len() by {
                assert(below.contains(below[k]));
            }
        }
        lemma_forest_parents(nodes, folded, below, depth + 1, (levels - 1) as nat);
        let b = forest(nodes, folded, below, depth + 1, (levels - 1) as nat);
        assert(rows == seq![(i, depth)] + b);
        assert forall|k: int| 0 <= k < rows.len() implies (#[trigger] rows[k]).1 >= depth && (
        rows[k].1 == depth ==> rows[k].0 == i) && (rows[k].1 > depth ==> has_parent_row(
            nodes,
            folded,
            rows,
            k,
        )) by {
            if k > 0 {
                assert(rows[k] == b[k - 1]);
                if b[k - 1].1 == depth + 1 {
                    assert(below.contains(b[k - 1].0));
                    assert(is_parent_row(nodes, folded, rows[0], rows[k]));
                } else {
                    assert(has_parent_row(nodes, folded, b, k - 1));
                    let j = choose|j: int|
                        0 <= j < k - 1 && is_parent_row(nodes, folded, #[trigger] b[j], b[k - 1]);
                    assert(rows[j + 1] == b[j]);
                }
            }
        }
    }
}

/// The rows of the tree: every root has one, at the left edge; at the left edge stand only
/// roots; and every other row stands behind the row of the node that it belongs to, one level
/// deeper, which is not folded.
pub proof fn rows_stand_below_their_parents(snapshot: PlanSnapshot, folded: Seq<Seq<char>>)
    ensures
        ({
            let nodes = snapshot.nodes@;
            let rows = tree_rows(snapshot, folded);
            &&& forall|i: int|
                0 <= i < nodes.len() && (#[trigger] nodes[i]).status != PlanNodeStatus::Superseded
                    && nodes[i].parent_id is None ==> rows.contains((i, 0))
            &&& forall|k: int|
                0 <= k < rows.len() ==> (#[trigger] rows[k]).1 >= 0 && 0 <= rows[k].0 < nodes.len()
                    && nodes[rows[k].0].status != PlanNodeStatus::Superseded && (rows[k].1 == 0
                    ==> nodes[rows[k].0].parent_id is None) && (rows[k].1 > 0 ==> has_parent_row(
                    nodes,
                    folded,
                    rows,
                    k,
                ))
        }),
{
    let nodes = snapshot.nodes@;
    let rows = tree_rows(snapshot, folded);
    let top = roots(snapshot);
    the_named_root_stands_first(snapshot);
    assert forall|k: int| 0 <= k < top.len() implies 0 <= #[trigger] top[k] < nodes.len()
        && current(nodes[top[k]]) by {
        assert(top.contains(top[k]));
    }
    assert(in_nodes(nodes, top));
    lemma_forest_parents(nodes, folded, top, 0, nodes.len());
    lemma_forest_rows(nodes, folded, top, 0, nodes.len());
    assert forall|i: int|
        0 <= i < nodes.len() && (#[trigger] nodes[i]).status != PlanNodeStatus::Superseded
            && nodes[i].parent_id is None implies rows.contains((i, 0)) by {
        assert(top.contains(i));
    }
    assert forall|k: int| 0 <= k < rows.len() implies (#[trigger] rows[k]).1 >= 0 && 0
        <= rows[k].0 < nodes.len() && nodes[rows[k].0].status != PlanNodeStatus::Superseded && (
    rows[k].1 == 0 ==> nodes[rows[k].0].parent_id is None) && (rows[k].1 > 0 ==> has_parent_row(
        nodes,
        folded,
        rows,
        k,
    )) by {
        if rows[k].1 == 0 {
            assert(top.contains(rows[k].0));
        }
    }
}

proof fn lemma_forest_shows_children(
    nodes: Seq<PlanNodeSnapshot>,
    folded: Seq<Seq<char>>,
    list: Seq<int>,
    depth: int,
    levels: nat,
    row: (int, int),
    child: int,
)
    requires
        in_nodes(nodes, list),
        forest(nodes, folded, list, depth, levels).contains(row),
        row.1 < depth + levels,
        0 <= row.0 < nodes.len(),
        !folded.contains(nodes[row.0].id@),
        0 <= child < nodes.len(),
        is_child(nodes[child], Some(nodes[row.0].id@)),
    ensures
        forest(nodes, folded, list, depth, levels).contains((child, row.1 + 1)),
    decreases levels, list.len() + 1,
{
    let rows = forest(nodes, folded, list, depth, levels);
    if list.len() > 0 {
        let init = list.drop_last();
        let last = list.last();
        assert(list[list.len() - 1] == last);
        assert(in_nodes(nodes, init)) by {
            assert forall|k: int| 0 <= k < init.len() implies 0 <= #[trigger] init[k]
                < nodes.len() by {
                assert(init[k] == list[k]);
            }
        }
        let a = forest(nodes, folded, init, depth, levels);
        let b = subtree(nodes, folded, last, depth, levels);
        let k = choose|k: int| 0 <= k < rows.len() && rows[k] == row;
        if k < a.len() {
            assert(a[k] == row);
            lemma_forest_shows_children(nodes, folded, init, depth, levels, row, child);
            let m = choose|m: int| 0 <= m < a.len() && a[m] == (child, row.1 + 1);
            assert(rows[m] == (child, row.1 + 1));
        } else {
            assert(b[k - a.len()] == row);
            lemma_subtree_shows_children(nodes, folded, last, depth, levels, row, child);
            let m = choose|m: int| 0 <= m < b.len() && b[m] == (child, row.1 + 1);
            assert(rows[a.len() + m] == (child, row.1 + 1));
        }
    }
}

proof fn lemma_subtree_shows_children(
    nodes: Seq<PlanNodeSnapshot>,
    folded: Seq<Seq<char>>,
    i: int,
    depth: int,
    levels: nat,
    row: (int, int),
    child: int,
)
    requires
        0 <= i < nodes.len(),
        subtree(nodes, folded, i, depth, levels).contains(row),
        row.1 < depth + levels,
        0 <= row.0 < nodes.len(),
        !folded.contains(nodes[row.0].id@),
        0 <= child < nodes.len(),
        is_child(nodes[child], Some(nodes[row.0].id@)),
    ensures
        subtree(nodes, folded, i, depth, levels).contains((child, row.1 + 1)),
    decreases levels, 0nat,
{
    let rows = subtree(nodes, folded, i, depth, levels);
    let k = choose|k: int| 0 <= k < rows.len() && rows[k] == row;
    if folded.contains(nodes[i].id@) || levels == 0 {
        assert(k == 0);
    } else {
        let below = children(nodes, Some(nodes[i].id@));
        children_are_the_current_ones_in_order(nodes, Some(nodes[i].id@));
        assert(in_nodes(nodes, below)) by {
            assert forall|m: int| 0 <= m < below.len() implies 0 <= #[trigger] below[m]
                < nodes.len() by {
                assert(below.contains(below[m]));
            }
        }
        let b = forest(nodes, folded, below, depth + 1, (levels - 1) as nat);
        if k == 0 {
            assert(below.contains(child)) by {
                assert(nodes[child].status != PlanNodeStatus::Superseded);
            }
            lemma_forest_parents(nodes, folded, below, depth + 1, (levels - 1) as nat);
            assert(b.contains((child, depth + 1)));
        } else {
            assert(b[k - 1] == row);
            lemma_forest_shows_children(
                nodes,
                folded,
                below,
                depth + 1,
                (levels - 1) as nat,
                row,
                child,
            );
        }
        let m = choose|m: int| 0 <= m < b.len() && b[m] == (child, row.1 + 1);
        assert(rows[m + 1] == (child, row.1 + 1));
    }
}

/// Below a row that is not folded, every current child of its node has a row, one level deeper.
pub proof fn unfolded_rows_show_their_children(
    snapshot: PlanSnapshot,
    folded: Seq<Seq<char>>,
    row: (int, int),
    child: int,
)
    requires
        tree_rows(snapshot, folded).contains(row),
        row.1 < snapshot.nodes@.len(),
        !folded.contains(snapshot.nodes@[row.0].id@),
        0 <= child < snapshot.nodes@.len(),
        snapshot.nodes@[child].status != PlanNodeStatus::Superseded,
        snapshot.nodes@[child].parent_id matches Some(p) && p@ == snapshot.nodes@[row.0].id@,
    ensures
        tree_rows(snapshot, folded).contains((child, row.1 + 1)),
{
    let nodes = snapshot.nodes@;
    let top = roots(snapshot);
    the_named_root_stands_first(snapshot);
    assert forall|k: int| 0 <= k < top.len() implies 0 <= #[trigger] top[k] < nodes.len()
        && current(nodes[top[k]]) by {
        assert(top.contains(top[k]));
    }
    assert(in_nodes(nodes, top));
    lemma_forest_rows(nodes, folded, top, 0, nodes.len());
    let rows = tree_rows(snapshot, folded);
    let k = choose|k: int| 0 <= k < rows.len() && rows[k] == row;
    assert(0 <= rows[k].0 < nodes.len());
    lemma_forest_shows_children(nodes, folded, top, 0, nodes.len(), row, child);
}

proof fn lemma_row_of(nodes: Seq<PlanNodeSnapshot>, at: Seq<(int, int)>, id: Seq<char>)
    ensures
        row_of(nodes, at, id) matches Some(k) ==> 0 <= k < at.len() && nodes[at[k].0].id@ == id && (
        forall|j: int| 0 <= j < k ==> nodes[(#[trigger] at[j]).0].id@ != id),
        row_of(nodes, at, id) is None ==> (forall|j: int|
            0 <= j < at.len() ==> nodes[(#[trigger] at[j]).0].id@ != id),
    decreases at.len(),
{
    if at.len() > 0 {
        let init = at.drop_last();
        lemma_row_of(nodes, init, id);
        assert forall|j: int| 0 <= j < init.len() implies init[j] == #[trigger] at[j] by {}
    }
}

/// A step of the selection leads to the row before or behind the one of the selected node, and
/// nowhere from the first row back or from the last one on. The plan and what is folded stay.
pub proof fn the_selection_steps_row_by_row(
    before: PlanUiState,
    after: PlanUiState,
    forward: bool,
    moved: bool,
    k: int,
)
    requires
        after_move(before, after, forward, moved),
        0 <= k < before.rows().len(),
        before.selected() == Some(before.nodes()[before.rows()[k].0].id@),
        forall|j: int|
            0 <= j < k ==> Some(before.nodes()[(#[trigger] before.rows()[j]).0].id@)
                != before.selected(),
    ensures
        moved <==> if forward {
            k + 1 < before.rows().len()
        } else {
            k > 0
        },
        !moved ==> after == before,
        moved ==> after.selected() == Some(
            before.nodes()[before.rows()[if forward {
                k + 1
            } else {
                k - 1
            }].0].id@,
        ),
        after.snapshot == before.snapshot,
        after.collapsed_node_ids == before.collapsed_node_ids,
        after.scroll_offset == before.scroll_offset,
        after.open == before.open,
        after.focused == before.focused,
{
    lemma_row_of(before.nodes(), before.rows(), before.selected()->0);
    assert(before.nodes()[before.rows()[k].0].id@ == before.selected()->0);
    let here = row_of(before.nodes(), before.rows(), before.selected()->0);
    assert(here is Some);
    if here->0 < k {
        assert(Some(before.nodes()[before.rows()[here->0].0].id@) != before.selected());
    }
}

/// A node that is folded and unfolded again leaves the folds as they were.
pub proof fn folding_twice_changes_no_fold(
    before: PlanUiState,
    between: PlanUiState,
    after: PlanUiState,
    id: Seq<char>,
    x: Seq<char>,
)
    requires
        after_toggle(before, between, id, true),
        after_toggle(between, after, id, true),
    ensures
        between.collapsed_node_ids@.contains(id) != before.collapsed_node_ids@.contains(id),
        after.collapsed_node_ids@.contains(x) <==> before.collapsed_node_ids@.contains(x),
        after.snapshot == before.snapshot,
        after.selected_node_id == before.selected_node_id,
{
}

proof fn lemma_latest_report(
    reports: Seq<SubagentActivitySnapshot>,
    subagent: Seq<char>,
    task: Seq<char>,
)
    ensures
        latest_report(reports, subagent, task) matches Some(r) ==> 0 <= r < reports.len()
            && reports[r].subagent_id@ == subagent && reports[r].task_id@ == task && (forall|
            k: int,
        |
            0 <= k < reports.len() && (#[trigger] reports[k]).subagent_id@ == subagent
                && reports[k].task_id@ == task ==> reports[k].updated_at_ms < reports[r].updated_at_ms
                || (reports[k].updated_at_ms == reports[r].updated_at_ms && k <= r)),
        latest_report(reports, subagent, task) is None ==> (forall|k: int|
            0 <= k < reports.len() ==> (#[trigger] reports[k]).subagent_id@ != subagent
                || reports[k].task_id@ != task),
    decreases reports.len(),
{
    if reports.len() > 0 {
        let init = reports.drop_last();
        lemma_latest_report(init, subagent, task);
        assert forall|k: int| 0 <= k < init.len() implies init[k] == #[trigger] reports[k] by {}
    }
}

/// The report that a node shows is one of a subagent that is linked to it in force, on the task
/// of the link, and none of these is newer; it shows none only where there is none.
pub proof fn nodes_show_their_latest_report(
    reports: Seq<SubagentActivitySnapshot>,
    links: Seq<PlanLinkSnapshot>,
)
    ensures
        node_report(reports, links) matches Some(r) ==> 0 <= r < reports.len() && (exists|l: int|
            0 <= l < links.len() && (#[trigger] links[l]).status != PlanLinkStatus::Superseded
                && links[l].superseded_by is None && links[l].subagent_id@
                == reports[r].subagent_id@ && links[l].task_id@ == reports[r].task_id@),
        forall|l: int, k: int|
            0 <= l < links.len() && 0 <= k < reports.len() && (#[trigger] links[l]).status
                != PlanLinkStatus::Superseded && links[l].superseded_by is None
                && links[l].subagent_id@ == (#[trigger] reports[k]).subagent_id@
                && links[l].task_id@ == reports[k].task_id@ ==> (node_report(
                reports,
                links,
            ) matches Some(r) && reports[k].updated_at_ms <= reports[r].updated_at_ms),
    decreases links.len(),
{
    if links.len() > 0 {
        let init = links.drop_last();
        let link = links.last();
        nodes_show_their_latest_report(reports, init);
        lemma_latest_report(reports, link.subagent_id@, link.task_id@);
        assert forall|l: int| 0 <= l < init.len() implies init[l] == #[trigger] links[l] by {}
        let before = node_report(reports, init);
        let now = node_report(reports, links);
        if now is Some {
            if now == before {
                let l = choose|l: int|
                    0 <= l < init.len() && (#[trigger] init[l]).status
                        != PlanLinkStatus::Superseded && init[l].superseded_by is None
                        && init[l].subagent_id@ == reports[now->0].subagent_id@ && init[l].task_id@
                        == reports[now->0].task_id@;
                assert(links[l] == init[l]);
            } else {
                assert(links[links.len() - 1] == link);
            }
        }
        assert forall|l: int, k: int|
            0 <= l < links.len() && 0 <= k < reports.len() && (#[trigger] links[l]).status
                != PlanLinkStatus::Superseded && links[l].superseded_by is None
                && links[l].subagent_id@ == (#[trigger] reports[k]).subagent_id@
                && links[l].task_id@ == reports[k].task_id@ implies (now matches Some(r)
            && reports[k].updated_at_ms <= reports[r].updated_at_ms) by {
            if l < init.len() {
                assert(init[l] == links[l]);
                assert(before is Some);
            }
        }
    }
}

/// A lease, an attempt or its progress takes the place of the first one that there is of its
/// key; else it stands behind the others. Nothing else changes.
pub proof fn news_take_the_place_of_the_old<T: plan_model::Keyed>(s: Seq<T>, x: T)
    ensures
        ({
            let r = plan_model::upserted(s, x);
            &&& (forall|k: int| 0 <= k < s.len() ==> (#[trigger] s[k]).key() != x.key()) ==> r
                == s.push(x)
            &&& forall|k: int|
                0 <= k < s.len() && (#[trigger] s[k]).key() == x.key() && (forall|j: int|
                    0 <= j < k ==> (#[trigger] s[j]).key() != x.key()) ==> r.len() == s.len()
                    && r[k] == x && (forall|j: int|
                    0 <= j < s.len() && j != k ==> #[trigger] r[j] == s[j])
        }),
{
    plan_model::lemma_first_with_key(s, x.key());
    let found = plan_model::first_with_key(s, x.key());
    assert forall|k: int|
        0 <= k < s.len() && (#[trigger] s[k]).key() == x.key() && (forall|j: int|
            0 <= j < k ==> (#[trigger] s[j]).key() != x.key()) implies found == Some(k) by {
        if found is Some && found->0 < k {
            assert(s[found->0].key() != x.key());
        }
    }
}

proof fn lemma_lease_of(leases: Seq<PlanLeaseSnapshot>, attempt: Seq<char>)
    ensures
        lease_of(leases, attempt) matches Some(i) ==> 0 <= i < leases.len() && leases[i].attempt_id@
            == attempt && (forall|k: int|
            0 <= k < i ==> (#[trigger] leases[k]).attempt_id@ != attempt),
        lease_of(leases, attempt) is None ==> (forall|k: int|
            0 <= k < leases.len() ==> (#[trigger] leases[k]).attempt_id@ != attempt),
    decreases leases.len(),
{
    if leases.len() > 0 {
        let init = leases.drop_last();
        lemma_lease_of(init, attempt);
        assert forall|k: int| 0 <= k < init.len() implies init[k] == #[trigger] leases[k] by {}
    }
}

/// A heartbeat keeps the lease of its attempt alive from then on for as long as leases live,
/// and touches no other; without one all leases stay as they are.
pub proof fn heartbeats_keep_their_lease_alive(
    leases: Seq<PlanLeaseSnapshot>,
    attempt: Seq<char>,
    at: u64,
    ttl: u64,
    i: int,
)
    requires
        0 <= i < leases.len(),
        leases[i].attempt_id@ == attempt,
        forall|k: int| 0 <= k < i ==> (#[trigger] leases[k]).attempt_id@ != attempt,
        at + ttl <= u64::MAX,
    ensures
        ({
            let r = heartbeat_applied(leases, attempt, Some(at), ttl);
            &&& r.len() == leases.len()
            &&& r[i].last_heartbeat_at_ms == at
            &&& r[i].lease_expires_at_ms == at + ttl
            &&& r[i].node_id == leases[i].node_id
            &&& r[i].attempt_id == leases[i].attempt_id
            &&& r[i].status == leases[i].status
            &&& forall|k: int| 0 <= k < leases.len() && k != i ==> #[trigger] r[k] == leases[k]
        }),
        heartbeat_applied(leases, attempt, None, ttl) == leases,
{
    lemma_lease_of(leases, attempt);
    let found = lease_of(leases, attempt);
    if found is Some && found->0 < i {
        assert(leases[found->0].attempt_id@ != attempt);
    }
    if found is Some && i < found->0 {
        assert(leases[i].attempt_id@ != attempt);
    }
}

/// A new snapshot keeps the selection wherever its node is still a current one, and else
/// selects a current node where there is any root; it opens the pane where it is the first, and
/// closes it never. A fold goes only when its node is gone or lies above work in progress, and
/// none comes.
pub proof fn new_snapshots_keep_what_they_can(
    before: PlanUiState,
    after: PlanUiState,
    snapshot: PlanSnapshot,
    i: int,
)
    requires
        took_snapshot(before, after, snapshot),
        0 <= i < snapshot.nodes@.len(),
        snapshot.nodes@[i].status != PlanNodeStatus::Superseded,
    ensures
        before.selected() == Some(snapshot.nodes@[i].id@) ==> after.selected() == before.selected(),
        snapshot.nodes@[i].parent_id is None ==> after.selected() is Some,
        before.open ==> after.open,
        before.snapshot is None ==> after.open,
        before.snapshot is Some ==> after.open == before.open,
        after.collapsed_node_ids@.contains(snapshot.nodes@[i].id@)
            ==> before.collapsed_node_ids@.contains(snapshot.nodes@[i].id@),
        before.collapsed_node_ids@.contains(snapshot.nodes@[i].id@) && !on_active_path(
            snapshot,
            snapshot.nodes@[i].id@,
        ) ==> after.collapsed_node_ids@.contains(snapshot.nodes@[i].id@),
{
    assert(known(snapshot.nodes@, snapshot.nodes@[i].id@));
    the_named_root_stands_first(snapshot);
    if snapshot.nodes@[i].parent_id is None {
        assert(roots(snapshot).contains(i));
    }
}

/// What lies above work in progress is not folded: the node that a node at work belongs to has
/// no fold once a new snapshot has come.
pub proof fn work_in_progress_is_not_folded_away(
    before: PlanUiState,
    after: PlanUiState,
    snapshot: PlanSnapshot,
    i: int,
)
    requires
        took_snapshot(before, after, snapshot),
        0 <= i < snapshot.nodes@.len(),
        snapshot.nodes@[i].status == PlanNodeStatus::InProgress || snapshot.nodes@[i].status
            == PlanNodeStatus::Verifying || snapshot.nodes@[i].execution_summary.active > 0,
        forall|k: int|
            0 <= k < i ==> (#[trigger] snapshot.nodes@[k]).id@ != snapshot.nodes@[i].id@,
        snapshot.nodes@[i].parent_id is Some,
    ensures
        !after.collapsed_node_ids@.contains(snapshot.nodes@[i].parent_id->0@),
{
    let nodes = snapshot.nodes@;
    let id = nodes[i].id@;
    let parent = nodes[i].parent_id->0@;
    assert(active_node(snapshot, id)) by {
        assert(at_work(snapshot.nodes@[i]));
    }
    plan_model::lemma_first_with_key(nodes, id);
    assert(plan_model::Keyed::key(&nodes[i]) == id);
    let found = plan_model::first_with_key(nodes, id);
    assert(found == Some(i)) by {
        if found is Some && found->0 < i {
            assert(nodes[found->0].id@ != id);
            assert(plan_model::Keyed::key(&nodes[found->0]) == id);
        }
    }
    assert(parent_of(nodes, id) == Some(parent));
    let above = ancestors(nodes, id, nodes.len());
    assert(above[0] == parent);
    assert(above.contains(parent));
    assert(on_active_path(snapshot, parent));
}

} // verus!
