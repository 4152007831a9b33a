//! A plan as the runtime reports it.
use crate::text;
use vstd::prelude::*;

verus! {

#[derive(Debug, Clone, Copy, PartialEq, Eq, Structural)]
pub enum PlanNodeStatus {
    Pending,
    InProgress,
    Expanded,
    Verifying,
    Completed,
    Blocked,
    Failed,
    Superseded,
}

#[derive(Debug, Clone, Copy, PartialEq, Eq, Structural)]
pub enum PlanPhase {
    Planning,
    AwaitingApproval,
    Executing,
    Completed,
    Blocked,
    Cancelled,
}

#[derive(Debug, Clone, Copy, PartialEq, Eq, Structural)]
pub enum PlanExecutorPolicy {
    Local,
    Delegate,
    Auto,
}

#[derive(Debug, Clone, Copy, PartialEq, Eq, Structural)]
pub enum PlanLinkStatus {
    Active,
    Completed,
    Failed,
    Cancelled,
    Superseded,
}

#[derive(Debug, Clone, Copy, PartialEq, Eq, Structural)]
pub enum SubagentActivityPhase {
    Starting,
    Running,
    Waiting,
    Completed,
    Failed,
    Cancelled,
}

/// Whether a lease is live; any other status goes by its name.
#[derive(Debug, Clone, PartialEq, Eq)]
pub enum PlanLeaseStatus {
    Live,
    Other(String),
}

/// Whether an approval is pending; any other status goes by its name.
#[derive(Debug, Clone, PartialEq, Eq)]
pub enum PlanApprovalRequirementStatus {
    Pending,
    Other(String),
}

#[derive(Debug, Clone, PartialEq, Eq)]
pub enum PlanApprovalRequirementKind {
    UserReviewRequested,
    SkillReviewRequested { skill_id: String },
    RootObjectiveChange,
    RootAcceptanceChange,
    CapabilityOrPermissionExpansion,
    DestructiveExternalAuthority,
    RequiredExternalInput { prompt: String },
}

#[derive(Debug, Clone, PartialEq, Eq)]
pub struct PlanApprovalRequirementSnapshot {
    pub requirement_id: String,
    pub kind: PlanApprovalRequirementKind,
    pub status: PlanApprovalRequirementStatus,
}

/// What a node's executor may use.
#[derive(Debug, Clone, PartialEq, Eq)]
pub struct PlanHarnessSnapshot {
    pub model_role: Option<String>,
    pub reasoning_effort: Option<String>,
    pub checkpoint_turn_interval: Option<u32>,
    pub allowed_tools: Vec<String>,
    pub read_scope: Vec<String>,
    pub write_scope: Vec<String>,
    pub forbidden_paths: Vec<String>,
}

#[derive(Debug, Clone, Copy, PartialEq, Eq, Structural)]
pub struct PlanExecutionSummary {
    pub active: u32,
    pub completed: u32,
    pub failed: u32,
    pub cancelled: u32,
}

/// A subagent that works on a node.
#[derive(Debug, Clone, PartialEq, Eq)]
pub struct PlanLinkSnapshot {
    pub binding_id: String,
    pub subagent_id: String,
    pub task_id: String,
    pub status: PlanLinkStatus,
    pub linked_at_ms: u64,
    pub terminal_at_ms: Option<u64>,
    pub superseded_by: Option<String>,
}

#[derive(Debug, Clone, PartialEq, Eq)]
pub struct PlanNodeResult {
    pub conclusion: String,
    pub verification: Vec<String>,
    pub changed_paths: Vec<String>,
    pub open_questions: Vec<String>,
}

/// A node of the plan.
#[derive(Debug, Clone, PartialEq, Eq)]
pub struct PlanNodeSnapshot {
    pub id: String,
    pub parent_id: Option<String>,
    pub sibling_order: u16,
    pub objective: String,
    pub acceptance: Vec<String>,
    pub status: PlanNodeStatus,
    pub executor_policy: PlanExecutorPolicy,
    pub harness: PlanHarnessSnapshot,
    pub recovery_policy: String,
    pub depends_on: Vec<String>,
    pub result: Option<PlanNodeResult>,
    pub created_revision: u64,
    pub updated_revision: u64,
    pub execution_summary: PlanExecutionSummary,
    pub links: Vec<PlanLinkSnapshot>,
}

#[derive(Debug, Clone, PartialEq, Eq)]
pub struct PlanDiagnostic {
    pub code: String,
    pub message: String,
}

/// An attempt at a node; the outcome goes by its name.
#[derive(Debug, Clone, PartialEq, Eq)]
pub struct PlanAttemptSnapshot {
    pub attempt_id: String,
    pub node_id: String,
    pub outcome: Option<String>,
    pub latest_checkpoint_ref: Option<String>,
    pub diagnostic: Option<PlanDiagnostic>,
}

#[derive(Debug, Clone, PartialEq, Eq)]
pub struct PlanLeaseSnapshot {
    pub lease_id: String,
    pub attempt_id: String,
    pub node_id: String,
    pub executor_session_id: String,
    pub last_heartbeat_at_ms: u64,
    pub lease_expires_at_ms: u64,
    pub status: PlanLeaseStatus,
}

#[derive(Debug, Clone, PartialEq, Eq)]
pub struct PlanAttemptProgressSnapshot {
    pub attempt_id: String,
    pub node_id: String,
    pub elapsed_ms: u64,
    pub model_turns: u64,
    pub artifacts_created: u64,
    pub last_subagent_heartbeat_at_ms: Option<u64>,
    pub last_durable_progress_at_ms: Option<u64>,
    pub provider_request_in_flight: bool,
    pub tool_call_in_flight: bool,
    pub summary: Option<String>,
    pub next_action: Option<String>,
}

/// A directive to an executor; kind and status go by their names.
#[derive(Debug, Clone, PartialEq, Eq)]
pub struct CoordinatorDirectiveSnapshot {
    pub node_id: String,
    pub sequence: u64,
    pub kind: String,
    pub status: String,
    pub reason: String,
    pub instruction: Option<String>,
}

/// What an approval authorizes.
#[derive(Debug, Clone, PartialEq, Eq)]
pub struct PlanCapabilityEnvelopeSnapshot {
    pub allowed_tools: Vec<String>,
    pub read_scope: Vec<String>,
    pub write_scope: Vec<String>,
    pub forbidden_paths: Vec<String>,
    pub destructive_external_authority: bool,
}

#[derive(Debug, Clone, PartialEq, Eq)]
pub struct PlanRevisionSummary {
    pub revision: u64,
    pub summary: String,
}

/// A plan at one revision; the scheduler's status goes by its name.
#[derive(Debug, Clone, PartialEq, Eq)]
pub struct PlanSnapshot {
    pub plan_id: String,
    pub revision: u64,
    pub phase: PlanPhase,
    pub root_node_id: Option<String>,
    pub coordinator_node_id: Option<String>,
    pub authorized_capability_envelope: Option<PlanCapabilityEnvelopeSnapshot>,
    pub approval_requirements: Vec<PlanApprovalRequirementSnapshot>,
    pub nodes: Vec<PlanNodeSnapshot>,
    pub attempts: Vec<PlanAttemptSnapshot>,
    pub leases: Vec<PlanLeaseSnapshot>,
    pub attempt_progress: Vec<PlanAttemptProgressSnapshot>,
    pub directives: Vec<CoordinatorDirectiveSnapshot>,
    pub subagent_heartbeat_ttl_ms: u64,
    pub max_concurrency_hint: Option<u32>,
    pub scheduler_status: String,
    pub revision_summaries: Vec<PlanRevisionSummary>,
}

/// What a subagent reports of a task.
#[derive(Debug, PartialEq, Eq)]
pub struct SubagentActivitySnapshot {
    pub subagent_id: String,
    pub task_id: String,
    pub phase: SubagentActivityPhase,
    pub summary: String,
    pub updated_at_ms: u64,
}

impl Clone for SubagentActivitySnapshot {
    fn clone(&self) -> (r: Self)
        ensures
            r == *self,
    {
        SubagentActivitySnapshot {
            subagent_id: self.subagent_id.clone(),
            task_id: self.task_id.clone(),
            phase: self.phase,
            summary: self.summary.clone(),
            updated_at_ms: self.updated_at_ms,
        }
    }
}

/// The characters of an optional text.
pub open spec fn opt(o: Option<String>) -> Option<Seq<char>> {
    match o {
        Some(s) => Some(s@),
        None => None,
    }
}

/// Whether two optional texts are the same.
pub fn same_opt(a: &Option<String>, b: &Option<String>) -> (r: bool)
    ensures
        r == (opt(*a) == opt(*b)),
{
    match (a, b) {
        (Some(x), Some(y)) => text::same(x.as_str(), y.as_str()),
        (None, None) => true,
        _ => false,
    }
}

/// Whether an optional text is `b`.
pub fn opt_is(a: &Option<String>, b: &str) -> (r: bool)
    ensures
        r == (opt(*a) == Some(b@)),
{
    match a {
        Some(x) => text::same(x.as_str(), b),
        None => false,
    }
}

/// Something that is found by a text.
pub trait Keyed {
    spec fn key(&self) -> Seq<char>;

    fn key_text(&self) -> (r: &str)
        ensures
            r@ == self.key(),
    ;
}

impl Keyed for PlanNodeSnapshot {
    open spec fn key(&self) -> Seq<char> {
        self.id@
    }

    fn key_text(&self) -> (r: &str) {
        self.id.as_str()
    }
}

impl Keyed for PlanAttemptSnapshot {
    open spec fn key(&self) -> Seq<char> {
        self.attempt_id@
    }

    fn key_text(&self) -> (r: &str) {
        self.attempt_id.as_str()
    }
}

impl Keyed for PlanLeaseSnapshot {
    open spec fn key(&self) -> Seq<char> {
        self.lease_id@
    }

    fn key_text(&self) -> (r: &str) {
        self.lease_id.as_str()
    }
}

impl Keyed for PlanAttemptProgressSnapshot {
    open spec fn key(&self) -> Seq<char> {
        self.attempt_id@
    }

    fn key_text(&self) -> (r: &str) {
        self.attempt_id.as_str()
    }
}

/// The first item with the given key.
pub open spec fn first_with_key<T: Keyed>(s: Seq<T>, key: Seq<char>) -> Option<int>
    decreases s.len(),
{
    if s.len() == 0 {
        None
    } else {
        match first_with_key(s.drop_last(), key) {
            Some(i) => Some(i),
            None => if s.last().key() == key {
                Some(s.len() - 1)
            } else {
                None
            },
        }
    }
}

/// The list with `x` in place of the first item with its key, or behind all others.
pub open spec fn upserted<T: Keyed>(s: Seq<T>, x: T) -> Seq<T> {
    match first_with_key(s, x.key()) {
        Some(i) => s.update(i, x),
        None => s.push(x),
    }
}

pub proof fn lemma_first_with_key<T: Keyed>(s: Seq<T>, key: Seq<char>)
    ensures
        first_with_key(s, key) matches Some(i) ==> 0 <= i < s.len() && s[i].key() == key
            && forall|k: int| 0 <= k < i ==> (#[trigger] s[k]).key() != key,
        first_with_key(s, key) is None ==> forall|k: int|
            0 <= k < s.len() ==> (#[trigger] s[k]).key() != key,
    decreases s.len(),
{
    if s.len() > 0 {
        lemma_first_with_key(s.drop_last(), key);
        assert forall|k: int| 0 <= k < s.len() - 1 implies s.drop_last()[k] == #[trigger] s[k] by {}
    }
}

/// The first item with the given key.
pub fn find_by_key<T: Keyed>(v: &Vec<T>, key: &str) -> (r: Option<usize>)
    ensures
        r is Some <==> first_with_key(v@, key@) is Some,
        r matches Some(i) ==> first_with_key(v@, key@) == Some(i as int) && i < v@.len()
            && v@[i as int].key() == key@,
{
    let mut i: usize = 0;
    proof {
        assert(v@.take(0) =~= Seq::<T>::empty());
    }
    while i < v.len()
        invariant
            i <= v@.len(),
            first_with_key(v@.take(i as int), key@) is None,
        decreases v@.len() - i,
    {
        proof {
            assert(v@.take(i + 1).drop_last() =~= v@.take(i as int));
        }
        if text::same(v[i].key_text(), key) {
            proof {
                lemma_first_in_prefix(v@, i + 1, key@);
            }
            return Some(i);
        }
        i += 1;
    }
    proof {
        assert(v@.take(i as int) =~= v@);
    }
    None
}

proof fn lemma_first_in_prefix<T: Keyed>(s: Seq<T>, n: int, key: Seq<char>)
    requires
        0 <= n <= s.len(),
        first_with_key(s.take(n), key) is Some,
    ensures
        first_with_key(s, key) == first_with_key(s.take(n), key),
    decreases s.len(),
{
    if n == s.len() {
        assert(s.take(n) =~= s);
    } else {
        assert(s.drop_last().take(n) =~= s.take(n));
        lemma_first_in_prefix(s.drop_last(), n, key);
    }
}

/// Puts `x` in place of the first item with its key, or behind all others.
pub fn upsert<T: Keyed>(v: &mut Vec<T>, x: T)
    ensures
        final(v)@ == upserted(old(v)@, x),
{
    match find_by_key(v, x.key_text()) {
        Some(i) => {
            v.set(i, x);
        },
        None => {
            v.push(x);
        },
    }
}

} // verus!
