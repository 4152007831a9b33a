//! What the user approves when approving a plan.
use crate::ordered;
use crate::ordered::TextSet;
use crate::plan;
use crate::plan::PlanUiState;
use crate::plan_model::{
    PlanApprovalRequirementKind, PlanApprovalRequirementSnapshot, PlanApprovalRequirementStatus,
    PlanCapabilityEnvelopeSnapshot, PlanNodeSnapshot, PlanSnapshot,
};
use crate::text;
use vstd::prelude::*;

verus! {

/// How an approval given in the terminal is recorded.
pub const USER_APPROVAL_REF: &'static str = "tui:user-approval";

/// A pending requirement and how it was resolved.
#[derive(Debug, PartialEq, Eq)]
pub struct RequirementResolution {
    pub requirement_id: String,
    pub resolution_ref: String,
}

/// An approval as it goes to the runtime.
#[derive(Debug, PartialEq, Eq)]
pub struct PlanApprovalInput {
    pub plan_id: String,
    pub expected_plan_revision: u64,
    pub review_resolution_ref: String,
    pub capability_envelope: Option<PlanCapabilityEnvelopeSnapshot>,
    pub authorization_refs: Vec<String>,
    pub requirement_resolution_refs: Vec<RequirementResolution>,
}

/// The plan's root, where it is a current node.
pub open spec fn root_node(snapshot: PlanSnapshot) -> Option<PlanNodeSnapshot> {
    match snapshot.root_node_id {
        Some(id) => match plan::first_current(snapshot.nodes@, id@) {
            Some(i) => Some(snapshot.nodes@[i]),
            None => None,
        },
        None => None,
    }
}

/// The tools asked for: those authorized already and the root's.
pub open spec fn asks_tool(snapshot: PlanSnapshot, x: Seq<char>) -> bool {
    (snapshot.authorized_capability_envelope matches Some(e) && text::views(
        e.allowed_tools@,
    ).contains(x)) || (root_node(snapshot) matches Some(r) && text::views(
        r.harness.allowed_tools@,
    ).contains(x))
}

pub open spec fn asks_read(snapshot: PlanSnapshot, x: Seq<char>) -> bool {
    (snapshot.authorized_capability_envelope matches Some(e) && text::views(
        e.read_scope@,
    ).contains(x)) || (root_node(snapshot) matches Some(r) && text::views(
        r.harness.read_scope@,
    ).contains(x))
}

pub open spec fn asks_write(snapshot: PlanSnapshot, x: Seq<char>) -> bool {
    (snapshot.authorized_capability_envelope matches Some(e) && text::views(
        e.write_scope@,
    ).contains(x)) || (root_node(snapshot) matches Some(r) && text::views(
        r.harness.write_scope@,
    ).contains(x))
}

pub open spec fn forbids(snapshot: PlanSnapshot, x: Seq<char>) -> bool {
    (snapshot.authorized_capability_envelope matches Some(e) && text::views(
        e.forbidden_paths@,
    ).contains(x)) || (root_node(snapshot) matches Some(r) && text::views(
        r.harness.forbidden_paths@,
    ).contains(x))
}

pub open spec fn pending(requirement: PlanApprovalRequirementSnapshot) -> bool {
    requirement.status is Pending
}

/// Whether destructive authority is asked for.
pub open spec fn asks_destructive(snapshot: PlanSnapshot) -> bool {
    (snapshot.authorized_capability_envelope matches Some(e) && e.destructive_external_authority)
        || exists|i: int|
        0 <= i < snapshot.approval_requirements@.len() && pending(
            #[trigger] snapshot.approval_requirements@[i],
        ) && snapshot.approval_requirements@[i].kind is DestructiveExternalAuthority
}

/// Whether a requirement with this id is pending.
pub open spec fn pending_id(snapshot: PlanSnapshot, x: Seq<char>) -> bool {
    exists|i: int|
        0 <= i < snapshot.approval_requirements@.len() && pending(
            #[trigger] snapshot.approval_requirements@[i],
        ) && snapshot.approval_requirements@[i].requirement_id@ == x
}

/// The scope that approving a plan grants: each list ascending and without repetition.
pub open spec fn is_envelope(e: PlanCapabilityEnvelopeSnapshot, snapshot: PlanSnapshot) -> bool {
    &&& ordered::ascending(text::views(e.allowed_tools@))
    &&& forall|x: Seq<char>|
        #[trigger] text::views(e.allowed_tools@).contains(x) <==> asks_tool(snapshot, x)
    &&& ordered::ascending(text::views(e.read_scope@))
    &&& forall|x: Seq<char>|
        #[trigger] text::views(e.read_scope@).contains(x) <==> asks_read(snapshot, x)
    &&& ordered::ascending(text::views(e.write_scope@))
    &&& forall|x: Seq<char>|
        #[trigger] text::views(e.write_scope@).contains(x) <==> asks_write(snapshot, x)
    &&& ordered::ascending(text::views(e.forbidden_paths@))
    &&& forall|x: Seq<char>|
        #[trigger] text::views(e.forbidden_paths@).contains(x) <==> forbids(snapshot, x)
    &&& e.destructive_external_authority == asks_destructive(snapshot)
}

pub open spec fn resolution_ids(v: Seq<RequirementResolution>) -> Seq<Seq<char>> {
    v.map_values(|r: RequirementResolution| r.requirement_id@)
}

/// Every pending requirement once, in the order of the ids, resolved by the user.
pub open spec fn are_resolutions(v: Seq<RequirementResolution>, snapshot: PlanSnapshot) -> bool {
    &&& ordered::ascending(resolution_ids(v))
    &&& forall|x: Seq<char>|
        #[trigger] resolution_ids(v).contains(x) <==> pending_id(snapshot, x)
    &&& forall|k: int|
        0 <= k < v.len() ==> (#[trigger] v[k]).resolution_ref@ == USER_APPROVAL_REF@
}

/// Two envelopes of one plan list the same.
pub proof fn envelopes_are_determined(
    a: PlanCapabilityEnvelopeSnapshot,
    b: PlanCapabilityEnvelopeSnapshot,
    snapshot: PlanSnapshot,
)
    requires
        is_envelope(a, snapshot),
        is_envelope(b, snapshot),
    ensures
        text::views(a.allowed_tools@) == text::views(b.allowed_tools@),
        text::views(a.read_scope@) == text::views(b.read_scope@),
        text::views(a.write_scope@) == text::views(b.write_scope@),
        text::views(a.forbidden_paths@) == text::views(b.forbidden_paths@),
        a.destructive_external_authority == b.destructive_external_authority,
{
    assert forall|x: Seq<char>| text::views(a.allowed_tools@).contains(x) <==> text::views(
        b.allowed_tools@,
    ).contains(x) by {}
    ordered::ascending_lists_are_determined(
        text::views(a.allowed_tools@),
        text::views(b.allowed_tools@),
    );
    assert forall|x: Seq<char>| text::views(a.read_scope@).contains(x) <==> text::views(
        b.read_scope@,
    ).contains(x) by {}
    ordered::ascending_lists_are_determined(
        text::views(a.read_scope@),
        text::views(b.read_scope@),
    );
    assert forall|x: Seq<char>| text::views(a.write_scope@).contains(x) <==> text::views(
        b.write_scope@,
    ).contains(x) by {}
    ordered::ascending_lists_are_determined(
        text::views(a.write_scope@),
        text::views(b.write_scope@),
    );
    assert forall|x: Seq<char>| text::views(a.forbidden_paths@).contains(x) <==> text::views(
        b.forbidden_paths@,
    ).contains(x) by {}
    ordered::ascending_lists_are_determined(
        text::views(a.forbidden_paths@),
        text::views(b.forbidden_paths@),
    );
}

/// An approval grants no tool that neither was authorized before nor the root asks for.
pub proof fn approvals_grant_only_what_is_asked(
    e: PlanCapabilityEnvelopeSnapshot,
    snapshot: PlanSnapshot,
    tool: Seq<char>,
)
    requires
        is_envelope(e, snapshot),
        text::views(e.allowed_tools@).contains(tool),
    ensures
        asks_tool(snapshot, tool),
{
}

fn merged(first: Option<&Vec<String>>, second: Option<&Vec<String>>) -> (r: Vec<String>)
    ensures
        ordered::ascending(text::views(r@)),
        forall|x: Seq<char>|
            #[trigger] text::views(r@).contains(x) <==> (first matches Some(a) && text::views(
                a@,
            ).contains(x)) || (second matches Some(b) && text::views(b@).contains(x)),
{
    let mut set = TextSet::default();
    if let Some(a) = first {
        set.extend(a);
    }
    let ghost mid = set@;
    proof {
        assert forall|x: Seq<char>| #[trigger] mid.contains(x) <==> (first matches Some(a)
            && text::views(a@).contains(x)) by {}
    }
    if let Some(b) = second {
        set.extend(b);
    }
    let r = ordered::clone_texts(set.items());
    proof {
        assert forall|x: Seq<char>| #[trigger] text::views(r@).contains(x) <==> (first matches Some(
            a,
        ) && text::views(a@).contains(x)) || (second matches Some(b) && text::views(
            b@,
        ).contains(x)) by {
            assert(set@.contains(x) <==> text::views(r@).contains(x));
            assert(mid.contains(x) <==> (first matches Some(a) && text::views(a@).contains(x)));
        }
    }
    r
}

fn is_pending(requirement: &PlanApprovalRequirementSnapshot) -> (r: bool)
    ensures
        r == pending(*requirement),
{
    match &requirement.status {
        PlanApprovalRequirementStatus::Pending => true,
        PlanApprovalRequirementStatus::Other(_) => false,
    }
}

/// The scope that approving a plan grants.
pub fn approval_envelope(snapshot: &PlanSnapshot) -> (r: PlanCapabilityEnvelopeSnapshot)
    ensures
        is_envelope(r, *snapshot),
{
    let root: Option<&PlanNodeSnapshot> = match &snapshot.root_node_id {
        Some(id) => match plan::find_current(&snapshot.nodes, id.as_str()) {
            Some(i) => Some(&snapshot.nodes[i]),
            None => None,
        },
        None => None,
    };
    proof {
        assert(root == match root_node(*snapshot) {
            Some(n) => Some(&n),
            None => None,
        });
    }
    let existing = snapshot.authorized_capability_envelope.as_ref();
    let mut destructive = match existing {
        Some(e) => e.destructive_external_authority,
        None => false,
    };
    let ghost before = destructive;
    let mut i: usize = 0;
    while i < snapshot.approval_requirements.len()
        invariant
            i <= snapshot.approval_requirements@.len(),
            destructive == (before || exists|k: int|
                0 <= k < i && pending(#[trigger] snapshot.approval_requirements@[k])
                    && snapshot.approval_requirements@[k].kind is DestructiveExternalAuthority),
        decreases snapshot.approval_requirements@.len() - i,
    {
        let is_destructive = match &snapshot.approval_requirements[i].kind {
            PlanApprovalRequirementKind::DestructiveExternalAuthority => true,
            _ => false,
        };
        if is_pending(&snapshot.approval_requirements[i]) && is_destructive {
            destructive = true;
            assert(pending(snapshot.approval_requirements@[i as int]));
        }
        i += 1;
    }
    let allowed_tools = merged(
        match existing {
            Some(e) => Some(&e.allowed_tools),
            None => None,
        },
        match root {
            Some(n) => Some(&n.harness.allowed_tools),
            None => None,
        },
    );
    let read_scope = merged(
        match existing {
            Some(e) => Some(&e.read_scope),
            None => None,
        },
        match root {
            Some(n) => Some(&n.harness.read_scope),
            None => None,
        },
    );
    let write_scope = merged(
        match existing {
            Some(e) => Some(&e.write_scope),
            None => None,
        },
        match root {
            Some(n) => Some(&n.harness.write_scope),
            None => None,
        },
    );
    let forbidden_paths = merged(
        match existing {
            Some(e) => Some(&e.forbidden_paths),
            None => None,
        },
        match root {
            Some(n) => Some(&n.harness.forbidden_paths),
            None => None,
        },
    );
    PlanCapabilityEnvelopeSnapshot {
        allowed_tools,
        read_scope,
        write_scope,
        forbidden_paths,
        destructive_external_authority: destructive,
    }
}

/// Every pending requirement, resolved by the user.
fn resolutions(snapshot: &PlanSnapshot) -> (r: Vec<RequirementResolution>)
    ensures
        are_resolutions(r@, *snapshot),
{
    let mut ids = TextSet::default();
    let mut i: usize = 0;
    let ghost all = snapshot.approval_requirements@;
    while i < snapshot.approval_requirements.len()
        invariant
            i <= snapshot.approval_requirements@.len(),
            all == snapshot.approval_requirements@,
            ordered::ascending(ids@),
            forall|x: Seq<char>|
                #[trigger] ids@.contains(x) <==> exists|k: int|
                    0 <= k < i && pending(#[trigger] all[k]) && all[k].requirement_id@ == x,
        decreases snapshot.approval_requirements@.len() - i,
    {
        let ghost before = ids@;
        if is_pending(&snapshot.approval_requirements[i]) {
            ids.insert(snapshot.approval_requirements[i].requirement_id.as_str());
        }
        proof {
            assert forall|x: Seq<char>| #[trigger] ids@.contains(x) <==> exists|k: int|
                0 <= k < i + 1 && pending(#[trigger] all[k]) && all[k].requirement_id@ == x by {
                assert(before.contains(x) <==> exists|k: int|
                    0 <= k < i && pending(#[trigger] all[k]) && all[k].requirement_id@ == x);
                if before.contains(x) {
                    let k = choose|k: int|
                        0 <= k < i && pending(#[trigger] all[k]) && all[k].requirement_id@ == x;
                    assert(pending(all[k]));
                }
                if pending(all[i as int]) && all[i as int].requirement_id@ == x {
                    assert(ids@.contains(x));
                }
            }
        }
        i += 1;
    }
    let items = ids.items();
    let mut r: Vec<RequirementResolution> = Vec::new();
    let mut j: usize = 0;
    while j < items.len()
        invariant
            j <= items@.len(),
            r@.len() == j,
            forall|k: int|
                0 <= k < j ==> (#[trigger] r@[k]).requirement_id@ == items@[k]@
                    && r@[k].resolution_ref@ == USER_APPROVAL_REF@,
        decreases items@.len() - j,
    {
        r.push(
            RequirementResolution {
                requirement_id: items[j].clone(),
                resolution_ref: USER_APPROVAL_REF.to_owned(),
            },
        );
        j += 1;
    }
    proof {
        assert(resolution_ids(r@) =~= text::views(items@));
        assert forall|x: Seq<char>| #[trigger] resolution_ids(r@).contains(x) <==> pending_id(
            *snapshot,
            x,
        ) by {
            assert(ids@.contains(x) <==> exists|k: int|
                0 <= k < all.len() && pending(#[trigger] all[k]) && all[k].requirement_id@ == x);
        }
    }
    r
}

/// How a requirement is named in a summary.
pub open spec fn requirement_label(kind: PlanApprovalRequirementKind) -> Seq<char> {
    match kind {
        PlanApprovalRequirementKind::UserReviewRequested => "user review"@,
        PlanApprovalRequirementKind::SkillReviewRequested { skill_id } => "skill review ("@
            + skill_id@ + ")"@,
        PlanApprovalRequirementKind::RootObjectiveChange => "root objective change"@,
        PlanApprovalRequirementKind::RootAcceptanceChange => "root acceptance change"@,
        PlanApprovalRequirementKind::CapabilityOrPermissionExpansion =>
            "capability or permission expansion"@,
        PlanApprovalRequirementKind::DestructiveExternalAuthority =>
            "destructive external authority"@,
        PlanApprovalRequirementKind::RequiredExternalInput { prompt } => "external input: "@
            + prompt@,
    }
}

pub fn approval_requirement_label(kind: &PlanApprovalRequirementKind) -> (r: String)
    ensures
        r@ == requirement_label(*kind),
{
    match kind {
        PlanApprovalRequirementKind::UserReviewRequested => "user review".to_owned(),
        PlanApprovalRequirementKind::SkillReviewRequested { skill_id } => text::cat3(
            "skill review (",
            skill_id.as_str(),
            ")",
        ),
        PlanApprovalRequirementKind::RootObjectiveChange => "root objective change".to_owned(),
        PlanApprovalRequirementKind::RootAcceptanceChange => "root acceptance change".to_owned(),
        PlanApprovalRequirementKind::CapabilityOrPermissionExpansion =>
            "capability or permission expansion".to_owned(),
        PlanApprovalRequirementKind::DestructiveExternalAuthority =>
            "destructive external authority".to_owned(),
        PlanApprovalRequirementKind::RequiredExternalInput { prompt } => text::cat2(
            "external input: ",
            prompt.as_str(),
        ),
    }
}

/// The values with commas between them, or "none".
pub open spec fn values_text(values: Seq<Seq<char>>) -> Seq<char> {
    if values.len() == 0 {
        "none"@
    } else {
        text::join(values, ", "@)
    }
}

pub fn display_values(values: &Vec<String>) -> (r: String)
    ensures
        r@ == values_text(text::views(values@)),
{
    proof {
        assert(text::views(values@).len() == values@.len());
    }
    if values.len() == 0 {
        "none".to_owned()
    } else {
        text::join_texts(values, ", ")
    }
}

/// One line for each pending requirement among the first `n`.
pub open spec fn requirement_lines(
    requirements: Seq<PlanApprovalRequirementSnapshot>,
    n: int,
) -> Seq<Seq<char>>
    decreases n,
{
    if n <= 0 {
        Seq::empty()
    } else if pending(requirements[n - 1]) {
        requirement_lines(requirements, n - 1).push(
            "- "@ + requirement_label(requirements[n - 1].kind),
        )
    } else {
        requirement_lines(requirements, n - 1)
    }
}

/// The lines of the summary that the user reads before approving.
pub open spec fn summary_lines(
    e: PlanCapabilityEnvelopeSnapshot,
    snapshot: PlanSnapshot,
) -> Seq<Seq<char>> {
    let head = seq![
        "Plan revision "@ + text::decimal(snapshot.revision as nat),
        "Tools: "@ + values_text(text::views(e.allowed_tools@)),
        "Read scope: "@ + values_text(text::views(e.read_scope@)),
        "Write scope: "@ + values_text(text::views(e.write_scope@)),
        "Forbidden paths: "@ + values_text(text::views(e.forbidden_paths@)),
        "Destructive external authority: "@ + if e.destructive_external_authority {
            "requested"@
        } else {
            "not requested"@
        },
        "Pending requirements:"@,
    ];
    let waiting = requirement_lines(
        snapshot.approval_requirements@,
        snapshot.approval_requirements@.len() as int,
    );
    head + if waiting.len() == 0 {
        seq!["- review boundary"@]
    } else {
        waiting
    }
}

fn push_text(lines: &mut Vec<String>, line: String)
    ensures
        text::views(final(lines)@) == text::views(old(lines)@).push(line@),
        final(lines)@.len() == old(lines)@.len() + 1,
{
    let ghost before = lines@;
    lines.push(line);
    proof {
        assert(text::views(lines@) =~= text::views(before).push(line@));
    }
}

impl PlanUiState {
    /// The approval of the plan that is shown.
    pub fn approval_input(&self) -> (r: Result<PlanApprovalInput, String>)
        ensures
            r is Ok <==> self.snapshot is Some,
            r matches Err(message) ==> message@ == "no active plan is available"@,
            r matches Ok(input) ==> {
                &&& input.plan_id@ == self.snapshot->0.plan_id@
                &&& input.expected_plan_revision == self.snapshot->0.revision
                &&& input.review_resolution_ref@ == USER_APPROVAL_REF@
                &&& input.capability_envelope is Some
                &&& is_envelope(input.capability_envelope->0, self.snapshot->0)
                &&& text::views(input.authorization_refs@) == seq![USER_APPROVAL_REF@]
                &&& are_resolutions(input.requirement_resolution_refs@, self.snapshot->0)
            },
    {
        match &self.snapshot {
            None => Err("no active plan is available".to_owned()),
            Some(snapshot) => {
                let mut refs: Vec<String> = Vec::new();
                refs.push(USER_APPROVAL_REF.to_owned());
                proof {
                    assert(text::views(refs@) =~= seq![USER_APPROVAL_REF@]);
                }
                Ok(
                    PlanApprovalInput {
                        plan_id: snapshot.plan_id.clone(),
                        expected_plan_revision: snapshot.revision,
                        review_resolution_ref: USER_APPROVAL_REF.to_owned(),
                        capability_envelope: Some(approval_envelope(snapshot)),
                        authorization_refs: refs,
                        requirement_resolution_refs: resolutions(snapshot),
                    },
                )
            },
        }
    }

    /// The summary that the user reads before approving.
    pub fn approval_summary(&self) -> (r: Result<String, String>)
        ensures
            r is Ok <==> self.snapshot is Some,
            r matches Err(message) ==> message@ == "no active plan is available"@,
            r matches Ok(summary) ==> exists|e: PlanCapabilityEnvelopeSnapshot|
                is_envelope(e, self.snapshot->0) && summary@ == text::join(
                    #[trigger] summary_lines(e, self.snapshot->0),
                    seq!['\n'],
                ),
    {
        match &self.snapshot {
            None => Err("no active plan is available".to_owned()),
            Some(snapshot) => {
                let e = approval_envelope(snapshot);
                let mut lines: Vec<String> = Vec::new();
                let ghost none = text::views(lines@);
                push_text(
                    &mut lines,
                    text::cat2("Plan revision ", text::decimal_text(snapshot.revision).as_str()),
                );
                push_text(
                    &mut lines,
                    text::cat2("Tools: ", display_values(&e.allowed_tools).as_str()),
                );
                push_text(
                    &mut lines,
                    text::cat2("Read scope: ", display_values(&e.read_scope).as_str()),
                );
                push_text(
                    &mut lines,
                    text::cat2("Write scope: ", display_values(&e.write_scope).as_str()),
                );
                push_text(
                    &mut lines,
                    text::cat2("Forbidden paths: ", display_values(&e.forbidden_paths).as_str()),
                );
                push_text(
                    &mut lines,
                    text::cat2(
                        "Destructive external authority: ",
                        if e.destructive_external_authority {
                            "requested"
                        } else {
                            "not requested"
                        },
                    ),
                );
                push_text(&mut lines, "Pending requirements:".to_owned());
                let ghost head = text::views(lines@);
                let ghost requirements = snapshot.approval_requirements@;
                let head_len: usize = lines.len();
                let mut i: usize = 0;
                proof {
                    assert(head + requirement_lines(requirements, 0) =~= head);
                    assert(none =~= Seq::<Seq<char>>::empty());
                }
                while i < snapshot.approval_requirements.len()
                    invariant
                        i <= snapshot.approval_requirements@.len(),
                        requirements == snapshot.approval_requirements@,
                        head.len() == head_len,
                        lines@.len() >= head_len,
                        text::views(lines@) == head + requirement_lines(requirements, i as int),
                    decreases snapshot.approval_requirements@.len() - i,
                {
                    if is_pending(&snapshot.approval_requirements[i]) {
                        let line = text::cat2(
                            "- ",
                            approval_requirement_label(
                                &snapshot.approval_requirements[i].kind,
                            ).as_str(),
                        );
                        push_text(&mut lines, line);
                        proof {
                            assert(head + requirement_lines(requirements, i + 1) =~= (head
                                + requirement_lines(requirements, i as int)).push(line@));
                        }
                    }
                    i += 1;
                }
                proof {
                    assert(text::views(lines@).len() == lines@.len());
                }
                if lines.len() == head_len {
                    push_text(&mut lines, "- review boundary".to_owned());
                }
                proof {
                    assert(text::views(lines@) =~= summary_lines(e, *snapshot));
                }
                let newline = "\n";
                proof {
                    reveal_strlit("\n");
                    assert(newline@ =~= seq!['\n']);
                }
                Ok(text::join_texts(&lines, newline))
            },
        }
    }
}

/// The root of a plan is the node that the plan names, and no superseded one; where the plan
/// names a node that it has there is a root.
pub proof fn the_root_is_the_node_that_is_named(snapshot: PlanSnapshot, k: int)
    requires
        0 <= k < snapshot.nodes@.len(),
        snapshot.root_node_id is Some,
        snapshot.nodes@[k].id@ == snapshot.root_node_id->0@,
        snapshot.nodes@[k].status != crate::plan_model::PlanNodeStatus::Superseded,
    ensures
        root_node(snapshot) matches Some(root) && root.id@ == snapshot.root_node_id->0@,
        (forall|j: int|
            0 <= j < snapshot.nodes@.len() && j != k ==> (#[trigger] snapshot.nodes@[j]).id@
                != snapshot.nodes@[k].id@) ==> root_node(snapshot) == Some(snapshot.nodes@[k]),
{
    plan::lemma_first_current(snapshot.nodes@, snapshot.root_node_id->0@);
    assert(plan::current(snapshot.nodes@[k]));
    assert(plan::known(snapshot.nodes@, snapshot.root_node_id->0@));
}

/// Approving a plan grants every tool and scope that was authorized before and that its root
/// asks for, and nothing besides; what was forbidden stays so. Destructive authority is granted
/// only where it was before or a pending requirement asks for it.
pub proof fn approval_grants_what_is_asked_for(
    e: PlanCapabilityEnvelopeSnapshot,
    snapshot: PlanSnapshot,
    x: Seq<char>,
)
    requires
        is_envelope(e, snapshot),
        snapshot.authorized_capability_envelope is Some,
        root_node(snapshot) is Some,
    ensures
        ({
            let given = snapshot.authorized_capability_envelope->0;
            let asked = root_node(snapshot)->0.harness;
            &&& text::views(e.allowed_tools@).contains(x) <==> text::views(
                given.allowed_tools@,
            ).contains(x) || text::views(asked.allowed_tools@).contains(x)
            &&& text::views(e.read_scope@).contains(x) <==> text::views(given.read_scope@).contains(
                x,
            ) || text::views(asked.read_scope@).contains(x)
            &&& text::views(e.write_scope@).contains(x) <==> text::views(
                given.write_scope@,
            ).contains(x) || text::views(asked.write_scope@).contains(x)
            &&& text::views(e.forbidden_paths@).contains(x) <==> text::views(
                given.forbidden_paths@,
            ).contains(x) || text::views(asked.forbidden_paths@).contains(x)
            &&& given.destructive_external_authority ==> e.destructive_external_authority
            &&& e.destructive_external_authority && !given.destructive_external_authority
                ==> exists|i: int|
                0 <= i < snapshot.approval_requirements@.len() && (
                #[trigger] snapshot.approval_requirements@[i]).status is Pending
                    && snapshot.approval_requirements@[i].kind is DestructiveExternalAuthority
        }),
{
}

/// Approving a plan resolves every pending requirement and no other, each as approved by the
/// user.
pub proof fn approval_resolves_what_is_pending(
    v: Seq<RequirementResolution>,
    snapshot: PlanSnapshot,
    k: int,
)
    requires
        are_resolutions(v, snapshot),
        0 <= k < snapshot.approval_requirements@.len(),
        forall|j: int|
            0 <= j < snapshot.approval_requirements@.len() && j != k ==> (
            #[trigger] snapshot.approval_requirements@[j]).requirement_id@
                != snapshot.approval_requirements@[k].requirement_id@,
    ensures
        snapshot.approval_requirements@[k].status is Pending <==> resolution_ids(v).contains(
            snapshot.approval_requirements@[k].requirement_id@,
        ),
{
    let id = snapshot.approval_requirements@[k].requirement_id@;
    if snapshot.approval_requirements@[k].status is Pending {
        assert(pending(snapshot.approval_requirements@[k]));
        assert(pending_id(snapshot, id));
    }
    assert(resolution_ids(v).contains(id) <==> pending_id(snapshot, id));
}

} // verus!
