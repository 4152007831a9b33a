//! What the conversation tells of a plan's changes.
use crate::plan;
use crate::plan_model;
use crate::plan_model::{
    PlanApprovalRequirementKind, PlanApprovalRequirementSnapshot, PlanApprovalRequirementStatus,
    PlanHarnessSnapshot, PlanNodeSnapshot, PlanNodeStatus, PlanPhase, PlanSnapshot,
};
use crate::text;
use crate::timeline;
use crate::timeline::TimelineItem;
use vstd::prelude::*;

verus! {

/// What a phase is called.
pub open spec fn phase_label(phase: PlanPhase) -> Seq<char> {
    match phase {
        PlanPhase::Planning => "planning"@,
        PlanPhase::AwaitingApproval => "awaiting approval"@,
        PlanPhase::Executing => "executing"@,
        PlanPhase::Completed => "completed"@,
        PlanPhase::Blocked => "blocked"@,
        PlanPhase::Cancelled => "cancelled"@,
    }
}

pub fn plan_phase_label(phase: PlanPhase) -> (r: &'static str)
    ensures
        r@ == phase_label(phase),
{
    match phase {
        PlanPhase::Planning => "planning",
        PlanPhase::AwaitingApproval => "awaiting approval",
        PlanPhase::Executing => "executing",
        PlanPhase::Completed => "completed",
        PlanPhase::Blocked => "blocked",
        PlanPhase::Cancelled => "cancelled",
    }
}

/// What is told when a plan enters a phase.
pub open spec fn phase_title(phase: PlanPhase) -> Seq<char> {
    match phase {
        PlanPhase::Planning => "Plan revision requested"@,
        PlanPhase::AwaitingApproval => "Plan awaiting approval"@,
        PlanPhase::Executing => "Plan execution started"@,
        PlanPhase::Completed => "Plan completed"@,
        PlanPhase::Blocked => "Plan blocked"@,
        PlanPhase::Cancelled => "Plan cancelled"@,
    }
}

fn entered_phase_title(phase: PlanPhase) -> (r: &'static str)
    ensures
        r@ == phase_title(phase),
{
    match phase {
        PlanPhase::Planning => "Plan revision requested",
        PlanPhase::AwaitingApproval => "Plan awaiting approval",
        PlanPhase::Executing => "Plan execution started",
        PlanPhase::Completed => "Plan completed",
        PlanPhase::Blocked => "Plan blocked",
        PlanPhase::Cancelled => "Plan cancelled",
    }
}

/// What a status that calls for attention is called.
pub open spec fn status_label(status: PlanNodeStatus) -> Seq<char> {
    match status {
        PlanNodeStatus::Blocked => "blocked"@,
        PlanNodeStatus::Failed => "failed"@,
        _ => "updated"@,
    }
}

pub fn plan_node_status_label(status: PlanNodeStatus) -> (r: &'static str)
    ensures
        r@ == status_label(status),
{
    match status {
        PlanNodeStatus::Blocked => "blocked",
        PlanNodeStatus::Failed => "failed",
        _ => "updated",
    }
}

/// How many nodes have not been superseded.
pub open spec fn current_nodes(nodes: Seq<PlanNodeSnapshot>) -> nat
    decreases nodes.len(),
{
    if nodes.len() == 0 {
        0
    } else {
        current_nodes(nodes.drop_last()) + (if plan::current(nodes.last()) {
            1nat
        } else {
            0nat
        })
    }
}

fn count_current(nodes: &Vec<PlanNodeSnapshot>) -> (r: usize)
    ensures
        r == current_nodes(nodes@),
{
    let mut n: usize = 0;
    let mut i: usize = 0;
    proof {
        assert(nodes@.take(0) =~= Seq::<PlanNodeSnapshot>::empty());
    }
    while i < nodes.len()
        invariant
            i <= nodes@.len(),
            n <= i,
            n == current_nodes(nodes@.take(i as int)),
        decreases nodes@.len() - i,
    {
        proof {
            assert(nodes@.take(i + 1).drop_last() =~= nodes@.take(i as int));
        }
        if nodes[i].status != PlanNodeStatus::Superseded {
            n += 1;
        }
        i += 1;
    }
    proof {
        assert(nodes@.take(i as int) =~= nodes@);
    }
    n
}

pub open spec fn same_kind(a: PlanApprovalRequirementKind, b: PlanApprovalRequirementKind) -> bool {
    match (a, b) {
        (
            PlanApprovalRequirementKind::UserReviewRequested,
            PlanApprovalRequirementKind::UserReviewRequested,
        ) => true,
        (
            PlanApprovalRequirementKind::SkillReviewRequested { skill_id: x },
            PlanApprovalRequirementKind::SkillReviewRequested { skill_id: y },
        ) => x@ == y@,
        (
            PlanApprovalRequirementKind::RootObjectiveChange,
            PlanApprovalRequirementKind::RootObjectiveChange,
        ) => true,
        (
            PlanApprovalRequirementKind::RootAcceptanceChange,
            PlanApprovalRequirementKind::RootAcceptanceChange,
        ) => true,
        (
            PlanApprovalRequirementKind::CapabilityOrPermissionExpansion,
            PlanApprovalRequirementKind::CapabilityOrPermissionExpansion,
        ) => true,
        (
            PlanApprovalRequirementKind::DestructiveExternalAuthority,
            PlanApprovalRequirementKind::DestructiveExternalAuthority,
        ) => true,
        (
            PlanApprovalRequirementKind::RequiredExternalInput { prompt: x },
            PlanApprovalRequirementKind::RequiredExternalInput { prompt: y },
        ) => x@ == y@,
        _ => false,
    }
}

pub open spec fn same_status(
    a: PlanApprovalRequirementStatus,
    b: PlanApprovalRequirementStatus,
) -> bool {
    match (a, b) {
        (PlanApprovalRequirementStatus::Pending, PlanApprovalRequirementStatus::Pending) => true,
        (PlanApprovalRequirementStatus::Other(x), PlanApprovalRequirementStatus::Other(y)) => x@
            == y@,
        _ => false,
    }
}

/// Whether two requirements of an approval say the same.
pub open spec fn same_requirement(
    a: PlanApprovalRequirementSnapshot,
    b: PlanApprovalRequirementSnapshot,
) -> bool {
    a.requirement_id@ == b.requirement_id@ && same_kind(a.kind, b.kind) && same_status(
        a.status,
        b.status,
    )
}

/// Whether two lists of requirements say the same.
pub open spec fn same_requirements(
    a: Seq<PlanApprovalRequirementSnapshot>,
    b: Seq<PlanApprovalRequirementSnapshot>,
) -> bool {
    a.len() == b.len() && forall|i: int|
        0 <= i < a.len() ==> same_requirement(#[trigger] a[i], b[i])
}

fn requirement_is(
    a: &PlanApprovalRequirementSnapshot,
    b: &PlanApprovalRequirementSnapshot,
) -> (r: bool)
    ensures
        r == same_requirement(*a, *b),
{
    let kinds = match (&a.kind, &b.kind) {
        (
            PlanApprovalRequirementKind::UserReviewRequested,
            PlanApprovalRequirementKind::UserReviewRequested,
        ) => true,
        (
            PlanApprovalRequirementKind::SkillReviewRequested { skill_id: x },
            PlanApprovalRequirementKind::SkillReviewRequested { skill_id: y },
        ) => text::same(x.as_str(), y.as_str()),
        (
            PlanApprovalRequirementKind::RootObjectiveChange,
            PlanApprovalRequirementKind::RootObjectiveChange,
        ) => true,
        (
            PlanApprovalRequirementKind::RootAcceptanceChange,
            PlanApprovalRequirementKind::RootAcceptanceChange,
        ) => true,
        (
            PlanApprovalRequirementKind::CapabilityOrPermissionExpansion,
            PlanApprovalRequirementKind::CapabilityOrPermissionExpansion,
        ) => true,
        (
            PlanApprovalRequirementKind::DestructiveExternalAuthority,
            PlanApprovalRequirementKind::DestructiveExternalAuthority,
        ) => true,
        (
            PlanApprovalRequirementKind::RequiredExternalInput { prompt: x },
            PlanApprovalRequirementKind::RequiredExternalInput { prompt: y },
        ) => text::same(x.as_str(), y.as_str()),
        _ => false,
    };
    let statuses = match (&a.status, &b.status) {
        (PlanApprovalRequirementStatus::Pending, PlanApprovalRequirementStatus::Pending) => true,
        (PlanApprovalRequirementStatus::Other(x), PlanApprovalRequirementStatus::Other(y)) =>
            text::same(x.as_str(), y.as_str()),
        _ => false,
    };
    kinds && statuses && text::same(a.requirement_id.as_str(), b.requirement_id.as_str())
}

fn requirements_are(
    a: &Vec<PlanApprovalRequirementSnapshot>,
    b: &Vec<PlanApprovalRequirementSnapshot>,
) -> (r: bool)
    ensures
        r == same_requirements(a@, b@),
{
    if a.len() != b.len() {
        return false;
    }
    let mut i: usize = 0;
    while i < a.len()
        invariant
            i <= a@.len(),
            a@.len() == b@.len(),
            forall|k: int| 0 <= k < i ==> same_requirement(#[trigger] a@[k], b@[k]),
        decreases a@.len() - i,
    {
        if !requirement_is(&a[i], &b[i]) {
            return false;
        }
        i += 1;
    }
    true
}

/// Whether two executors may use the same.
pub open spec fn same_harness(a: PlanHarnessSnapshot, b: PlanHarnessSnapshot) -> bool {
    &&& plan_model::opt(a.model_role) == plan_model::opt(b.model_role)
    &&& plan_model::opt(a.reasoning_effort) == plan_model::opt(b.reasoning_effort)
    &&& a.checkpoint_turn_interval == b.checkpoint_turn_interval
    &&& text::views(a.allowed_tools@) == text::views(b.allowed_tools@)
    &&& text::views(a.read_scope@) == text::views(b.read_scope@)
    &&& text::views(a.write_scope@) == text::views(b.write_scope@)
    &&& text::views(a.forbidden_paths@) == text::views(b.forbidden_paths@)
}

fn texts_are(a: &Vec<String>, b: &Vec<String>) -> (r: bool)
    ensures
        r == (text::views(a@) == text::views(b@)),
{
    proof {
        assert(text::views(a@).len() == a@.len());
        assert(text::views(b@).len() == b@.len());
    }
    if a.len() != b.len() {
        return false;
    }
    let mut i: usize = 0;
    while i < a.len()
        invariant
            i <= a@.len(),
            a@.len() == b@.len(),
            forall|k: int| 0 <= k < i ==> (#[trigger] a@[k])@ == b@[k]@,
        decreases a@.len() - i,
    {
        if !text::same(a[i].as_str(), b[i].as_str()) {
            proof {
                assert(text::views(a@)[i as int] != text::views(b@)[i as int]);
            }
            return false;
        }
        i += 1;
    }
    proof {
        assert(text::views(a@) =~= text::views(b@));
    }
    true
}

fn harness_is(a: &PlanHarnessSnapshot, b: &PlanHarnessSnapshot) -> (r: bool)
    ensures
        r == same_harness(*a, *b),
{
    plan_model::same_opt(&a.model_role, &b.model_role) && plan_model::same_opt(
        &a.reasoning_effort,
        &b.reasoning_effort,
    ) && a.checkpoint_turn_interval == b.checkpoint_turn_interval && texts_are(
        &a.allowed_tools,
        &b.allowed_tools,
    ) && texts_are(&a.read_scope, &b.read_scope) && texts_are(&a.write_scope, &b.write_scope)
        && texts_are(&a.forbidden_paths, &b.forbidden_paths)
}

/// Whether two nodes are defined alike, whatever has become of them.
pub open spec fn same_definition(a: PlanNodeSnapshot, b: PlanNodeSnapshot) -> bool {
    &&& plan_model::opt(a.parent_id) == plan_model::opt(b.parent_id)
    &&& a.sibling_order == b.sibling_order
    &&& a.objective@ == b.objective@
    &&& text::views(a.acceptance@) == text::views(b.acceptance@)
    &&& a.executor_policy == b.executor_policy
    &&& same_harness(a.harness, b.harness)
    &&& a.recovery_policy@ == b.recovery_policy@
    &&& text::views(a.depends_on@) == text::views(b.depends_on@)
}

fn definition_is(a: &PlanNodeSnapshot, b: &PlanNodeSnapshot) -> (r: bool)
    ensures
        r == same_definition(*a, *b),
{
    plan_model::same_opt(&a.parent_id, &b.parent_id) && a.sibling_order == b.sibling_order
        && text::same(a.objective.as_str(), b.objective.as_str()) && texts_are(
        &a.acceptance,
        &b.acceptance,
    ) && a.executor_policy == b.executor_policy && harness_is(&a.harness, &b.harness)
        && text::same(a.recovery_policy.as_str(), b.recovery_policy.as_str()) && texts_are(
        &a.depends_on,
        &b.depends_on,
    )
}

/// Whether a node is new or defined otherwise than before.
pub open spec fn redefined(before: Seq<PlanNodeSnapshot>, node: PlanNodeSnapshot) -> bool {
    match plan_model::first_with_key(before, node.id@) {
        Some(i) => !same_definition(before[i], node),
        None => true,
    }
}

/// Whether a plan is another one than before, whatever has become of its nodes.
pub open spec fn definition_changed(previous: PlanSnapshot, snapshot: PlanSnapshot) -> bool {
    ||| plan_model::opt(previous.root_node_id) != plan_model::opt(snapshot.root_node_id)
    ||| plan_model::opt(previous.coordinator_node_id) != plan_model::opt(
        snapshot.coordinator_node_id,
    )
    ||| previous.max_concurrency_hint != snapshot.max_concurrency_hint
    ||| exists|i: int|
        0 <= i < snapshot.nodes@.len() && redefined(
            previous.nodes@,
            #[trigger] snapshot.nodes@[i],
        )
}

pub fn plan_definition_changed(previous: &PlanSnapshot, snapshot: &PlanSnapshot) -> (r: bool)
    ensures
        r == definition_changed(*previous, *snapshot),
{
    if !plan_model::same_opt(&previous.root_node_id, &snapshot.root_node_id)
        || !plan_model::same_opt(&previous.coordinator_node_id, &snapshot.coordinator_node_id)
        || previous.max_concurrency_hint != snapshot.max_concurrency_hint {
        return true;
    }
    let mut i: usize = 0;
    while i < snapshot.nodes.len()
        invariant
            i <= snapshot.nodes@.len(),
            forall|k: int|
                0 <= k < i ==> !redefined(previous.nodes@, #[trigger] snapshot.nodes@[k]),
        decreases snapshot.nodes@.len() - i,
    {
        let changed = match plan_model::find_by_key(&previous.nodes, snapshot.nodes[i].id.as_str()) {
            Some(k) => !definition_is(&previous.nodes[k], &snapshot.nodes[i]),
            None => true,
        };
        if changed {
            proof {
                assert(redefined(previous.nodes@, snapshot.nodes@[i as int]));
            }
            return true;
        }
        i += 1;
    }
    false
}

/// Whether a node has just become blocked or failed.
pub open spec fn newly_unhealthy(before: Seq<PlanNodeSnapshot>, node: PlanNodeSnapshot) -> bool {
    (node.status == PlanNodeStatus::Blocked || node.status == PlanNodeStatus::Failed) && match
        plan_model::first_with_key(before, node.id@) {
        Some(i) => before[i].status != node.status,
        None => true,
    }
}

/// The first node, from `i` on, that has just become blocked or failed.
pub open spec fn first_unhealthy(
    before: Seq<PlanNodeSnapshot>,
    nodes: Seq<PlanNodeSnapshot>,
    i: int,
) -> Option<int>
    decreases nodes.len() - i,
{
    if i < 0 || i >= nodes.len() {
        None
    } else if newly_unhealthy(before, nodes[i]) {
        Some(i)
    } else {
        first_unhealthy(before, nodes, i + 1)
    }
}

pub open spec fn muted(title: Seq<char>, detail: Seq<char>) -> timeline::ItemView {
    timeline::ItemView::Muted { title, detail }
}

/// What the conversation tells of a plan: that there is one, that it changed its phase,
/// its scheduling or its approvals, that it grew, that it is another one, or that a node is
/// in trouble; the first of these that is so.
pub open spec fn plan_news(
    previous: Option<PlanSnapshot>,
    snapshot: PlanSnapshot,
    summary: Seq<char>,
) -> Option<timeline::ItemView> {
    match previous {
        None => Some(
            muted(
                "Plan mode"@,
                phase_label(snapshot.phase) + " · revision "@ + text::decimal(
                    snapshot.revision as nat,
                ) + " · "@ + text::decimal(current_nodes(snapshot.nodes@)) + " nodes"@,
            ),
        ),
        Some(before) => if before.phase != snapshot.phase {
            Some(muted(phase_title(snapshot.phase), summary))
        } else if before.scheduler_status@ != snapshot.scheduler_status@ {
            Some(muted(text::lower("Plan scheduling "@ + snapshot.scheduler_status@), summary))
        } else if !same_requirements(
            before.approval_requirements@,
            snapshot.approval_requirements@,
        ) {
            Some(muted("Plan approval updated"@, summary))
        } else if current_nodes(snapshot.nodes@) > current_nodes(before.nodes@) {
            Some(
                muted(
                    "Plan expanded"@,
                    summary + " · "@ + text::decimal(current_nodes(snapshot.nodes@)) + " nodes"@,
                ),
            )
        } else if definition_changed(before, snapshot) {
            Some(muted("Plan revised"@, summary))
        } else {
            match first_unhealthy(before.nodes@, snapshot.nodes@, 0) {
                Some(i) => Some(
                    timeline::ItemView::Diagnostic {
                        title: "Plan node "@ + status_label(snapshot.nodes@[i].status),
                        body: snapshot.nodes@[i].objective@,
                    },
                ),
                None => None,
            }
        },
    }
}

pub fn plan_timeline_item(
    previous: Option<&PlanSnapshot>,
    snapshot: &PlanSnapshot,
    summary: &str,
) -> (r: Option<TimelineItem>)
    ensures
        timeline::opt_item(r) == plan_news(
            match previous {
                Some(p) => Some(*p),
                None => None,
            },
            *snapshot,
            summary@,
        ),
{
    let active_nodes = count_current(&snapshot.nodes);
    let before = match previous {
        None => {
            let detail = text::cat6(
                plan_phase_label(snapshot.phase),
                " · revision ",
                text::decimal_text(snapshot.revision).as_str(),
                " · ",
                text::decimal_text(active_nodes as u64).as_str(),
                " nodes",
            );
            return Some(TimelineItem::muted("Plan mode", detail.as_str()));
        },
        Some(before) => before,
    };
    if before.phase != snapshot.phase {
        return Some(TimelineItem::muted(entered_phase_title(snapshot.phase), summary));
    }
    if !text::same(before.scheduler_status.as_str(), snapshot.scheduler_status.as_str()) {
        let title = text::cat2("Plan scheduling ", snapshot.scheduler_status.as_str());
        return Some(TimelineItem::muted(text::to_lower(title.as_str()).as_str(), summary));
    }
    if !requirements_are(&before.approval_requirements, &snapshot.approval_requirements) {
        return Some(TimelineItem::muted("Plan approval updated", summary));
    }
    if active_nodes > count_current(&before.nodes) {
        let detail = text::cat4(
            summary,
            " · ",
            text::decimal_text(active_nodes as u64).as_str(),
            " nodes",
        );
        return Some(TimelineItem::muted("Plan expanded", detail.as_str()));
    }
    if plan_definition_changed(before, snapshot) {
        return Some(TimelineItem::muted("Plan revised", summary));
    }
    let mut i: usize = 0;
    while i < snapshot.nodes.len()
        invariant
            i <= snapshot.nodes@.len(),
            first_unhealthy(before.nodes@, snapshot.nodes@, 0) == first_unhealthy(
                before.nodes@,
                snapshot.nodes@,
                i as int,
            ),
            previous == Some(before),
            plan_news(Some(*before), *snapshot, summary@) == (match first_unhealthy(
                before.nodes@,
                snapshot.nodes@,
                0,
            ) {
                Some(k) => Some(
                    timeline::ItemView::Diagnostic {
                        title: "Plan node "@ + status_label(snapshot.nodes@[k].status),
                        body: snapshot.nodes@[k].objective@,
                    },
                ),
                None => None,
            }),
        decreases snapshot.nodes@.len() - i,
    {
        let node = &snapshot.nodes[i];
        if node.status == PlanNodeStatus::Blocked || node.status == PlanNodeStatus::Failed {
            let news = match plan_model::find_by_key(&before.nodes, node.id.as_str()) {
                Some(k) => before.nodes[k].status != node.status,
                None => true,
            };
            if news {
                let title = text::cat2("Plan node ", plan_node_status_label(node.status));
                return Some(
                    TimelineItem::Diagnostic { title, body: node.objective.clone() },
                );
            }
        }
        i += 1;
    }
    None
}

/// A plan that is reported again as it was gives nothing to tell.
pub proof fn an_unchanged_plan_is_no_news(snapshot: PlanSnapshot, summary: Seq<char>)
    requires
        forall|i: int, j: int|
            0 <= i < j < snapshot.nodes@.len() ==> (#[trigger] snapshot.nodes@[i]).id@
                != (#[trigger] snapshot.nodes@[j]).id@,
    ensures
        plan_news(Some(snapshot), snapshot, summary) is None,
{
    let nodes = snapshot.nodes@;
    assert forall|i: int| 0 <= i < nodes.len() implies plan_model::first_with_key(
        nodes,
        (#[trigger] nodes[i]).id@,
    ) == Some(i) by {
        lemma_found_at(nodes, i);
    }
    assert forall|k: int| 0 <= k <= nodes.len() implies first_unhealthy(nodes, nodes, k)
        is None by {
        lemma_healthy(nodes, k);
    }
    assert(first_unhealthy(nodes, nodes, 0) is None);
}

proof fn lemma_found_at(nodes: Seq<PlanNodeSnapshot>, i: int)
    requires
        0 <= i < nodes.len(),
        forall|a: int, b: int|
            0 <= a < b < nodes.len() ==> (#[trigger] nodes[a]).id@ != (#[trigger] nodes[b]).id@,
    ensures
        plan_model::first_with_key(nodes, nodes[i].id@) == Some(i),
{
    plan_model::lemma_first_with_key(nodes, nodes[i].id@);
}

proof fn lemma_healthy(nodes: Seq<PlanNodeSnapshot>, k: int)
    requires
        0 <= k <= nodes.len(),
        forall|i: int|
            0 <= i < nodes.len() ==> plan_model::first_with_key(nodes, (#[trigger] nodes[i]).id@)
                == Some(i),
    ensures
        first_unhealthy(nodes, nodes, k) is None,
    decreases nodes.len() - k,
{
    if k < nodes.len() {
        assert(plan_model::first_with_key(nodes, nodes[k].id@) == Some(k));
        lemma_healthy(nodes, k + 1);
    }
}

/// The nodes that count are those that have not been superseded.
pub proof fn superseded_nodes_do_not_count(nodes: Seq<PlanNodeSnapshot>)
    ensures
        current_nodes(nodes) == nodes.filter(
            |n: PlanNodeSnapshot| n.status != PlanNodeStatus::Superseded,
        ).len(),
    decreases nodes.len(),
{
    let counts = |n: PlanNodeSnapshot| n.status != PlanNodeStatus::Superseded;
    reveal(Seq::filter);
    if nodes.len() > 0 {
        superseded_nodes_do_not_count(nodes.drop_last());
        assert(nodes.drop_last().filter(
            |n: PlanNodeSnapshot| n.status != PlanNodeStatus::Superseded,
        ) == nodes.drop_last().filter(counts));
    }
}

proof fn lemma_first_unhealthy(
    before: Seq<PlanNodeSnapshot>,
    nodes: Seq<PlanNodeSnapshot>,
    i: int,
)
    requires
        0 <= i,
    ensures
        first_unhealthy(before, nodes, i) matches Some(k) ==> i <= k < nodes.len()
            && newly_unhealthy(before, nodes[k]) && (forall|j: int|
            i <= j < k ==> !newly_unhealthy(before, #[trigger] nodes[j])),
        first_unhealthy(before, nodes, i) is None ==> (forall|j: int|
            i <= j < nodes.len() ==> !newly_unhealthy(before, #[trigger] nodes[j])),
    decreases nodes.len() - i,
{
    if i < nodes.len() && !newly_unhealthy(before, nodes[i]) {
        lemma_first_unhealthy(before, nodes, i + 1);
    }
}

/// The node whose trouble is told of is blocked or failed and was not so before, and it is the
/// first such node. Where no trouble is told of, every blocked or failed node was so before.
pub proof fn trouble_is_told_of_once(
    before: Seq<PlanNodeSnapshot>,
    nodes: Seq<PlanNodeSnapshot>,
    k: int,
    old_place: int,
)
    requires
        0 <= k < nodes.len(),
        0 <= old_place < before.len(),
        before[old_place].id@ == nodes[k].id@,
        forall|j: int|
            0 <= j < before.len() && j != old_place ==> (#[trigger] before[j]).id@ != nodes[k].id@,
    ensures
        first_unhealthy(before, nodes, 0) == Some(k) ==> (nodes[k].status == PlanNodeStatus::Blocked
            || nodes[k].status == PlanNodeStatus::Failed) && nodes[k].status
            != before[old_place].status,
        (nodes[k].status == PlanNodeStatus::Blocked || nodes[k].status == PlanNodeStatus::Failed)
            && nodes[k].status != before[old_place].status ==> (first_unhealthy(
            before,
            nodes,
            0,
        ) matches Some(told) && told <= k),
{
    plan_model::lemma_first_with_key(before, nodes[k].id@);
    assert(plan_model::first_with_key(before, nodes[k].id@) == Some(old_place)) by {
        assert(plan_model::Keyed::key(&before[old_place]) == nodes[k].id@);
    }
    lemma_first_unhealthy(before, nodes, 0);
    if newly_unhealthy(before, nodes[k]) {
        assert(first_unhealthy(before, nodes, 0) is Some);
    }
}

/// The first report of a plan, and every change of its phase, its scheduling, its approvals, its
/// growth or its definition is told of; where something is told though none of these changed, a
/// node has come into trouble. A change of the phase is told before anything else.
pub proof fn changes_of_a_plan_are_told_of(
    before: PlanSnapshot,
    snapshot: PlanSnapshot,
    summary: Seq<char>,
)
    ensures
        plan_news(None, snapshot, summary) is Some,
        before.phase != snapshot.phase || before.scheduler_status@ != snapshot.scheduler_status@
            || snapshot.nodes@.filter(
            |n: PlanNodeSnapshot| n.status != PlanNodeStatus::Superseded,
        ).len() > before.nodes@.filter(
            |n: PlanNodeSnapshot| n.status != PlanNodeStatus::Superseded,
        ).len() || plan_model::opt(before.root_node_id) != plan_model::opt(snapshot.root_node_id)
            || before.max_concurrency_hint != snapshot.max_concurrency_hint ==> (plan_news(
            Some(before),
            snapshot,
            summary,
        ) matches Some(timeline::ItemView::Muted { .. })),
        before.phase != snapshot.phase ==> (plan_news(
            Some(before),
            snapshot,
            summary,
        ) matches Some(timeline::ItemView::Muted { title, detail }) && detail == summary && title == (
        match snapshot.phase {
            PlanPhase::Planning => "Plan revision requested"@,
            PlanPhase::AwaitingApproval => "Plan awaiting approval"@,
            PlanPhase::Executing => "Plan execution started"@,
            PlanPhase::Completed => "Plan completed"@,
            PlanPhase::Blocked => "Plan blocked"@,
            PlanPhase::Cancelled => "Plan cancelled"@,
        })),
        plan_news(Some(before), snapshot, summary) matches Some(
            timeline::ItemView::Diagnostic { title, body },
        ) ==> exists|k: int|
            #![trigger snapshot.nodes@[k]]
            0 <= k < snapshot.nodes@.len() && body == snapshot.nodes@[k].objective@ && (
            (snapshot.nodes@[k].status == PlanNodeStatus::Blocked && title == "Plan node "@
                + "blocked"@) || (snapshot.nodes@[k].status == PlanNodeStatus::Failed && title
                == "Plan node "@ + "failed"@)),
{
    superseded_nodes_do_not_count(before.nodes@);
    superseded_nodes_do_not_count(snapshot.nodes@);
    lemma_first_unhealthy(before.nodes@, snapshot.nodes@, 0);
    match first_unhealthy(before.nodes@, snapshot.nodes@, 0) {
        Some(k) => {
            assert(newly_unhealthy(before.nodes@, snapshot.nodes@[k]));
        },
        None => {},
    }
}

/// A node that was not in a plan before makes it another plan.
pub proof fn new_nodes_make_another_plan(before: PlanSnapshot, snapshot: PlanSnapshot, k: int)
    requires
        0 <= k < snapshot.nodes@.len(),
        forall|j: int|
            0 <= j < before.nodes@.len() ==> (#[trigger] before.nodes@[j]).id@
                != snapshot.nodes@[k].id@,
    ensures
        definition_changed(before, snapshot),
{
    let id = snapshot.nodes@[k].id@;
    plan_model::lemma_first_with_key(before.nodes@, id);
    if plan_model::first_with_key(before.nodes@, id) is Some {
        let j = plan_model::first_with_key(before.nodes@, id)->0;
        assert(before.nodes@[j].id@ != id);
    }
    assert(redefined(before.nodes@, snapshot.nodes@[k]));
}

} // verus!
