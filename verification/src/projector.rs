//! What the events of a run make of the conversation.
use crate::ordered;
use crate::patch;
use crate::patch::{ArgumentLine, PatchReport};
use crate::plan;
use crate::plan::PlanUiState;
use crate::plan_model;
use crate::plan_model::{
    CoordinatorDirectiveSnapshot, PlanAttemptProgressSnapshot, PlanAttemptSnapshot,
    PlanLeaseSnapshot, PlanPhase, PlanSnapshot,
};
use crate::plan_projector;
use crate::process_output;
use crate::process_output::PreviewSource;
use crate::provider_overlay;
use crate::text;
use crate::textmap::TextMap;
use crate::timeline;
use crate::timeline::{CommandView, Elapsed, QueuedInputLane, TimelineItem};
use crate::tool_output;
use crate::tool_output::{CompletedProcess, ReadText, ToolOutput};
use vstd::prelude::*;

verus! {

/// An error: its code, and what it says.
#[derive(Debug, PartialEq, Eq)]
pub struct ErrorInfo {
    pub code: String,
    pub message: String,
}

/// A call of a tool. `summary` is the short form of its arguments; the others are arguments
/// of that name, where they are texts.
#[derive(Debug, PartialEq, Eq)]
pub struct ToolCall {
    pub id: String,
    pub name: String,
    pub summary: Option<String>,
    pub command: Option<String>,
    pub cwd: Option<String>,
    pub patch: Option<Vec<ArgumentLine>>,
}

/// The end of a call.
#[derive(Debug, PartialEq, Eq)]
pub struct ToolFinish {
    pub call_id: String,
    pub failed: bool,
    pub cancelled_by_user: bool,
    /// The short account of the error, where there is one.
    pub account: Option<String>,
    pub artifact_id: String,
    pub output: Option<ToolOutput>,
    /// The output without blanks around it and without control characters.
    pub clean: String,
    /// What the output says of a file, if it says that.
    pub read: Option<ReadText>,
    /// What the output says of a patch, if it says that.
    pub patch: Option<PatchReport>,
    /// How long the call took.
    pub elapsed: Option<Elapsed>,
}

/// Something that happens in a run.
#[derive(Debug, PartialEq, Eq)]
pub enum RuntimeEvent {
    AssistantMessage(String),
    AssistantMessageDelta(String),
    RunStateChanged,
    QueuedInputsChanged,
    QueuedInputAccepted { lane: QueuedInputLane, texts: Vec<String> },
    CompactionStarted,
    CompactionCompleted { checkpoint_id: String, covered_items: u64 },
    UsageUpdated,
    ToolCallStarted(ToolCall),
    ToolCallBatchStarted(Vec<ToolCall>),
    ToolCallFinished(ToolFinish),
    SubagentCompleted { summary: String, output_paths: Vec<String>, changed_paths: Vec<String> },
    SubagentFailed(ErrorInfo),
    SubagentCancelled(ErrorInfo),
    PlanUpdated { snapshot: PlanSnapshot, summary: String },
    PlanLeaseStarted(PlanLeaseSnapshot),
    PlanProgressUpdated(PlanAttemptProgressSnapshot),
    PlanAttemptProgressReported(PlanAttemptProgressSnapshot),
    PlanProgressReviewRequested(String),
    PlanDirectiveUpdated(CoordinatorDirectiveSnapshot),
    PlanAttemptFinished(PlanAttemptSnapshot),
    RunFailed(ErrorInfo),
    RunCancelled(ErrorInfo),
    Closed,
    /// Something that the conversation does not tell of.
    Other,
}

/// A tool that has been called and has not come to an end.
#[derive(Debug, PartialEq, Eq)]
pub struct StartedTool {
    pub name: String,
    pub timeline_index: usize,
    pub title: String,
    pub detail: String,
    pub patch_argument: Option<Vec<ArgumentLine>>,
    pub command: String,
    pub cwd: String,
    /// When it was called, where that is known.
    pub started_at_ms: Option<u64>,
}

/// A tool that has been called.
pub struct StartedView {
    pub name: Seq<char>,
    pub timeline_index: usize,
    pub title: Seq<char>,
    pub detail: Seq<char>,
    pub patch_argument: Option<Seq<patch::ArgumentLineView>>,
    pub command: Seq<char>,
    pub cwd: Seq<char>,
    pub started_at_ms: Option<u64>,
}

pub open spec fn opt_argument(a: Option<Vec<ArgumentLine>>) -> Option<Seq<patch::ArgumentLineView>> {
    match a {
        Some(v) => Some(patch::argument_views(v@)),
        None => None,
    }
}

impl View for StartedTool {
    type V = StartedView;

    open spec fn view(&self) -> StartedView {
        StartedView {
            name: self.name@,
            timeline_index: self.timeline_index,
            title: self.title@,
            detail: self.detail@,
            patch_argument: opt_argument(self.patch_argument),
            command: self.command@,
            cwd: self.cwd@,
            started_at_ms: self.started_at_ms,
        }
    }
}

/// A change of the conversation, or of what stands around it.
#[derive(Debug, PartialEq, Eq)]
pub enum Projection {
    Push(TimelineItem),
    /// Put an item in the place of another.
    Replace(usize, TimelineItem),
    /// Put a command that came to its end in the place of another item.
    ReplaceCommand(usize, CompletedProcess),
    /// Add to the answer at this place, or begin one.
    AppendAssistantDelta { index: Option<usize>, delta: String },
    /// Show what the run does now.
    ShowRunState,
    /// Show which messages wait.
    ShowQueue,
    /// Show how much was used.
    ShowUsage,
    /// The run that was announced has begun.
    ConfirmLocalRunStart,
    /// A message has been taken up; show it, unless it is shown already.
    ConfirmOrPushUserInput { text: String, lane: QueuedInputLane },
    OpenPlanApproval,
    /// Tell that the run has stopped, where that was asked for; else tell this, if anything.
    CompleteStopFeedback { otherwise: Option<TimelineItem> },
}

pub enum ProjectionView {
    Push(timeline::ItemView),
    Replace(usize, timeline::ItemView),
    ReplaceCommand(usize, tool_output::CompletedView),
    AppendAssistantDelta { index: Option<usize>, delta: Seq<char> },
    ShowRunState,
    ShowQueue,
    ShowUsage,
    ConfirmLocalRunStart,
    ConfirmOrPushUserInput { text: Seq<char>, lane: QueuedInputLane },
    OpenPlanApproval,
    CompleteStopFeedback { otherwise: Option<timeline::ItemView> },
}

impl View for Projection {
    type V = ProjectionView;

    open spec fn view(&self) -> ProjectionView {
        match self {
            Projection::Push(i) => ProjectionView::Push(i@),
            Projection::Replace(n, i) => ProjectionView::Replace(*n, i@),
            Projection::ReplaceCommand(n, c) => ProjectionView::ReplaceCommand(*n, c@),
            Projection::AppendAssistantDelta { index, delta } =>
                ProjectionView::AppendAssistantDelta { index: *index, delta: delta@ },
            Projection::ShowRunState => ProjectionView::ShowRunState,
            Projection::ShowQueue => ProjectionView::ShowQueue,
            Projection::ShowUsage => ProjectionView::ShowUsage,
            Projection::ConfirmLocalRunStart => ProjectionView::ConfirmLocalRunStart,
            Projection::ConfirmOrPushUserInput { text, lane } =>
                ProjectionView::ConfirmOrPushUserInput { text: text@, lane: *lane },
            Projection::OpenPlanApproval => ProjectionView::OpenPlanApproval,
            Projection::CompleteStopFeedback { otherwise } =>
                ProjectionView::CompleteStopFeedback { otherwise: timeline::opt_item(*otherwise) },
        }
    }
}

pub open spec fn projection_views(v: Seq<Projection>) -> Seq<ProjectionView> {
    v.map_values(|p: Projection| p@)
}

/// An item in the place of another, or behind the others.
pub open spec fn put(index: Option<usize>, item: timeline::ItemView) -> ProjectionView {
    match index {
        Some(i) => ProjectionView::Replace(i, item),
        None => ProjectionView::Push(item),
    }
}

fn put_item(index: Option<usize>, item: TimelineItem) -> (r: Projection)
    ensures
        r@ == put(index, item@),
{
    match index {
        Some(i) => Projection::Replace(i, item),
        None => Projection::Push(item),
    }
}

fn one(p: Projection) -> (r: Vec<Projection>)
    ensures
        projection_views(r@) == seq![p@],
{
    let r = vec![p];
    proof {
        assert(projection_views(r@) =~= seq![p@]);
    }
    r
}

fn nothing() -> (r: Vec<Projection>)
    ensures
        projection_views(r@) == Seq::<ProjectionView>::empty(),
{
    let r: Vec<Projection> = Vec::new();
    proof {
        assert(projection_views(r@) =~= Seq::empty());
    }
    r
}

fn push(v: &mut Vec<Projection>, p: Projection)
    ensures
        projection_views(final(v)@) == projection_views(old(v)@).push(p@),
{
    let ghost before = v@;
    v.push(p);
    proof {
        assert(projection_views(v@) =~= projection_views(before).push(p@));
    }
}

/// What the conversation remembers between events: the tools that have not come to an end,
/// the answer that is being written, and the compaction that is under way.
#[derive(Debug, PartialEq, Eq)]
pub struct TuiProjector {
    pub started_tools: TextMap<StartedTool>,
    pub streaming_assistant_index: Option<usize>,
    pub compaction_timeline_index: Option<usize>,
}

/// What the conversation remembers between events.
pub struct ProjectorView {
    pub tools: Map<Seq<char>, StartedView>,
    pub streaming: Option<usize>,
    pub compaction: Option<usize>,
}

impl View for TuiProjector {
    type V = ProjectorView;

    open spec fn view(&self) -> ProjectorView {
        ProjectorView {
            tools: self.started_tools.map(),
            streaming: self.streaming_assistant_index,
            compaction: self.compaction_timeline_index,
        }
    }
}

/// What stands around the events: how many items there are, what time it is, and whether the
/// approval of a plan is open.
#[derive(Debug, Clone, Copy, PartialEq, Eq, Structural)]
pub struct ProjectionContext {
    pub timeline_len: usize,
    pub now_ms: u64,
    pub approval_open: bool,
}

/// The item of a tool that is called.
pub open spec fn started_item(call: ToolCall, now_ms: u64) -> timeline::ItemView {
    let detail = tool_output::tool_detail(call.name@, plan_model::opt(call.summary));
    if call.name@ == "run_process"@ {
        timeline::ItemView::Running { detail, started_at_ms: now_ms }
    } else {
        timeline::ItemView::Muted { title: tool_output::tool_word(call.name@), detail }
    }
}

/// A tool that is called, as it is remembered.
pub open spec fn started(call: ToolCall, index: usize, at: Option<u64>) -> StartedView {
    StartedView {
        name: call.name@,
        timeline_index: index,
        title: tool_output::tool_word(call.name@),
        detail: tool_output::tool_detail(call.name@, plan_model::opt(call.summary)),
        patch_argument: opt_argument(call.patch),
        command: process_output::or_empty(plan_model::opt(call.command)),
        cwd: match call.cwd {
            Some(c) => c@,
            None => "."@,
        },
        started_at_ms: at,
    }
}

/// A tool's title with a word for how it went.
pub open spec fn ended_title(tool: StartedView, status: Seq<char>) -> Seq<char> {
    tool_output::titled(tool.title, tool.detail) + " -> "@ + status
}

pub open spec fn place(tool: Option<StartedView>) -> Option<usize> {
    match tool {
        Some(t) => Some(t.timeline_index),
        None => None,
    }
}

pub open spec fn is_command(tool: StartedView) -> bool {
    tool.name == "run_process"@
}

/// What a tool's end makes of the conversation. `process`, `exit_code` and `permission` are
/// what the output says of a command and of a permission.
pub open spec fn finished(
    tool: Option<StartedView>,
    f: ToolFinish,
    process: Option<process_output::PreviewView>,
    exit_code: Option<i64>,
    permission: Option<Seq<char>>,
) -> Seq<ProjectionView> {
    let output = tool_output::output_text(f.output);
    let account = plan_model::opt(f.account);
    if tool is Some && is_command(tool->0) {
        let t = tool->0;
        let failure = tool_output::command_failure(f.cancelled_by_user, f.failed, exit_code);
        seq![
            ProjectionView::ReplaceCommand(
                t.timeline_index,
                tool_output::CompletedView {
                    detail: t.detail,
                    exit_code,
                    failure,
                    preview: tool_output::preview_source(
                        failure,
                        process,
                        account,
                        output,
                        f.clean@,
                    ),
                    command: t.command,
                    cwd: t.cwd,
                    artifact_id: f.artifact_id@,
                    elapsed: if t.started_at_ms is Some {
                        f.elapsed
                    } else {
                        None
                    },
                },
            ),
        ]
    } else if f.cancelled_by_user {
        seq![
            put(
                place(tool),
                timeline::ItemView::Muted {
                    title: match tool {
                        Some(t) => ended_title(t, "cancelled"@),
                        None => "Tool -> cancelled"@,
                    },
                    detail: "cancelled by user"@,
                },
            ),
        ]
    } else if f.failed {
        seq![
            put(
                place(tool),
                timeline::ItemView::Diagnostic {
                    title: match tool {
                        Some(t) => ended_title(t, "failed"@),
                        None => "tool failed"@,
                    },
                    body: tool_output::failure_text(account, output, f.clean@),
                },
            ),
        ]
    } else {
        match tool {
            None => Seq::empty(),
            Some(t) => seq![
                ProjectionView::Replace(
                    t.timeline_index,
                    succeeded_item(t, f, output, permission),
                ),
            ],
        }
    }
}

/// The item of a tool that succeeded.
pub open spec fn succeeded_item(
    t: StartedView,
    f: ToolFinish,
    output: Seq<char>,
    permission: Option<Seq<char>>,
) -> timeline::ItemView {
    let short = tool_output::compacted(output, f.clean@);
    if t.name == "apply_patch"@ {
        let asked = match t.patch_argument {
            Some(lines) => Some(patch::flushed(patch::read_lines(lines))),
            None => None,
        };
        match patch::patch_item(f.patch, asked) {
            Some(item) => item,
            None => timeline::ItemView::Expanded { title: "patch"@, body: short },
        }
    } else {
        match tool_output::success_of(t.name, permission, f.read) {
            Some(body) => timeline::ItemView::Expanded {
                title: tool_output::titled(t.title, t.detail),
                body,
            },
            None => timeline::ItemView::Expanded {
                title: ended_title(t, "succeeded"@),
                body: short,
            },
        }
    }
}

fn title_of(tool: &StartedTool, status: &str) -> (r: String)
    ensures
        r@ == ended_title(tool@, status@),
{
    tool_output::completed_tool_title(tool.title.as_str(), tool.detail.as_str(), status)
}

fn succeeded(
    t: StartedTool,
    read: Option<ReadText>,
    report: Option<PatchReport>,
    output: &str,
    clean: &str,
    permission: Option<String>,
    Ghost(f): Ghost<ToolFinish>,
) -> (r: TimelineItem)
    requires
        f.read == read,
        f.patch == report,
        f.clean@ == clean@,
    ensures
        r@ == succeeded_item(t@, f, output@, plan_model::opt(permission)),
{
    if text::same(t.name.as_str(), "apply_patch") {
        let asked = match &t.patch_argument {
            Some(lines) => Some(patch::parse_apply_patch_argument(lines)),
            None => None,
        };
        let lent = match &asked {
            Some(p) => Some(p),
            None => None,
        };
        return match patch::parse_apply_patch_view(report, lent) {
            Some(item) => item,
            None => TimelineItem::expanded(
                "patch",
                tool_output::compact_tool_output(output, clean).as_str(),
            ),
        };
    }
    match tool_output::success_body(t.name.as_str(), permission, read) {
        Some(body) => TimelineItem::Expanded {
            title: tool_output::expanded_tool_title(t.title.as_str(), t.detail.as_str()),
            body,
        },
        None => TimelineItem::Expanded {
            title: title_of(&t, "succeeded"),
            body: tool_output::compact_tool_output(output, clean),
        },
    }
}

pub open spec fn opt_started(t: Option<StartedTool>) -> Option<StartedView> {
    match t {
        Some(t) => Some(t@),
        None => None,
    }
}

/// Decides what a tool's end makes of the conversation. `process`, `exit_code` and
/// `permission` are what the output says of a command and of a permission.
pub fn finish_tool(
    tool: Option<StartedTool>,
    f: ToolFinish,
    process: Option<PreviewSource>,
    exit_code: Option<i64>,
    permission: Option<String>,
) -> (r: Vec<Projection>)
    ensures
        projection_views(r@) == finished(
            opt_started(tool),
            f,
            process_output::opt_preview(process),
            exit_code,
            plan_model::opt(permission),
        ),
{
    let ghost given = f;
    let output = tool_output::tool_output_text(f.output);
    let account = provider_overlay::lend_opt(&f.account);
    let t = match tool {
        Some(t) => t,
        None => {
            if f.cancelled_by_user {
                return one(
                    Projection::Push(TimelineItem::muted("Tool -> cancelled", "cancelled by user")),
                );
            }
            if f.failed {
                let body = tool_output::failed_tool_body(
                    account,
                    output.as_str(),
                    f.clean.as_str(),
                );
                return one(
                    Projection::Push(
                        TimelineItem::Diagnostic { title: "tool failed".to_owned(), body },
                    ),
                );
            }
            return nothing();
        },
    };
    let index = t.timeline_index;
    if text::same(t.name.as_str(), "run_process") {
        let failure = tool_output::failure_of(f.cancelled_by_user, f.failed, exit_code);
        let preview = tool_output::preview_of_result(
            failure,
            process,
            account,
            output.as_str(),
            f.clean.as_str(),
        );
        let elapsed = match t.started_at_ms {
            Some(_) => f.elapsed,
            None => None,
        };
        return one(
            Projection::ReplaceCommand(
                index,
                CompletedProcess {
                    detail: t.detail,
                    exit_code,
                    failure,
                    preview,
                    command: t.command,
                    cwd: t.cwd,
                    artifact_id: f.artifact_id,
                    elapsed,
                },
            ),
        );
    }
    if f.cancelled_by_user {
        return one(
            Projection::Replace(
                index,
                TimelineItem::muted(title_of(&t, "cancelled").as_str(), "cancelled by user"),
            ),
        );
    }
    if f.failed {
        let body = tool_output::failed_tool_body(account, output.as_str(), f.clean.as_str());
        return one(
            Projection::Replace(
                index,
                TimelineItem::Diagnostic { title: title_of(&t, "failed"), body },
            ),
        );
    }
    one(
        Projection::Replace(
            index,
            succeeded(
                t,
                f.read,
                f.patch,
                output.as_str(),
                f.clean.as_str(),
                permission,
                Ghost(given),
            ),
        ),
    )
}

/// The commands that are under way, each with the word for how the run ended, in the order of
/// `keys`.
pub open spec fn stopped(
    keys: Seq<Seq<char>>,
    tools: Map<Seq<char>, StartedView>,
    status: Seq<char>,
) -> Seq<ProjectionView>
    decreases keys.len(),
{
    if keys.len() == 0 {
        Seq::empty()
    } else {
        let before = stopped(keys.drop_last(), tools, status);
        let t = tools[keys.last()];
        if is_command(t) {
            before.push(
                ProjectionView::Replace(
                    t.timeline_index,
                    timeline::ItemView::Muted {
                        title: ended_title(t, status),
                        detail: Seq::empty(),
                    },
                ),
            )
        } else {
            before
        }
    }
}

/// The tools that are no commands.
pub open spec fn without_commands(tools: Map<Seq<char>, StartedView>) -> Map<Seq<char>, StartedView> {
    tools.restrict(Set::new(|k: Seq<char>| !is_command(tools[k])))
}

/// The items of tools that are called together.
pub open spec fn started_items(calls: Seq<ToolCall>, now_ms: u64) -> Seq<ProjectionView> {
    calls.map_values(|c: ToolCall| ProjectionView::Push(started_item(c, now_ms)))
}

/// The tools with those that are called together, from the item `index` on.
pub open spec fn with_started(
    tools: Map<Seq<char>, StartedView>,
    calls: Seq<ToolCall>,
    index: int,
    now_ms: u64,
) -> Map<Seq<char>, StartedView>
    decreases calls.len(),
{
    if calls.len() == 0 {
        tools
    } else {
        with_started(tools, calls.drop_last(), index, now_ms).insert(
            calls.last().id@,
            started(calls.last(), (index + calls.len() - 1) as usize, Some(now_ms)),
        )
    }
}

pub open spec fn told(title: Seq<char>, detail: Seq<char>) -> ProjectionView {
    ProjectionView::Push(timeline::ItemView::Muted { title, detail })
}

pub open spec fn warned(title: Seq<char>, body: Seq<char>) -> ProjectionView {
    ProjectionView::Push(timeline::ItemView::Diagnostic { title, body })
}

/// Whether a plan lies open for review while it is planned.
pub open spec fn in_review(snapshot: PlanSnapshot) -> bool {
    snapshot.phase == PlanPhase::Planning && snapshot.root_node_id is Some
}

/// Whether a new plan asks for its approval: it enters its review or its approval, or the
/// approval that is open is one of an earlier plan.
pub open spec fn asks_for_approval(
    current: Option<PlanSnapshot>,
    snapshot: PlanSnapshot,
    approval_open: bool,
) -> bool {
    ||| in_review(snapshot) && !(current is Some && in_review(current->0))
    ||| snapshot.phase == PlanPhase::AwaitingApproval && !(current is Some && current->0.phase
        == PlanPhase::AwaitingApproval)
    ||| approval_open && current is Some && (current->0.plan_id@ != snapshot.plan_id@
        || current->0.revision != snapshot.revision)
}

/// What a new plan makes of the conversation.
pub open spec fn plan_projections(
    current: Option<PlanSnapshot>,
    snapshot: PlanSnapshot,
    summary: Seq<char>,
    approval_open: bool,
) -> Seq<ProjectionView> {
    let told = match plan_projector::plan_news(current, snapshot, summary) {
        Some(item) => seq![ProjectionView::Push(item)],
        None => Seq::empty(),
    };
    if asks_for_approval(current, snapshot, approval_open) {
        told.push(ProjectionView::OpenPlanApproval)
    } else {
        told
    }
}

/// Whether an attempt at a node ended in a way that the conversation tells of.
pub open spec fn told_outcome(outcome: Option<Seq<char>>) -> bool {
    outcome == Some("Blocked"@) || outcome == Some("SemanticFailure"@) || outcome == Some(
        "Interrupted"@,
    ) || outcome == Some("Cancelled"@)
}

pub open spec fn directive_title(status: Seq<char>) -> Option<Seq<char>> {
    if status == "Queued"@ {
        Some("Plan steering queued"@)
    } else if status == "Applied"@ {
        Some("Plan steering applied"@)
    } else {
        None
    }
}

/// What is told of an attempt: the message of its error, or its node.
pub open spec fn attempt_body(attempt: PlanAttemptSnapshot) -> Seq<char> {
    match attempt.diagnostic {
        Some(d) => d.message@,
        None => attempt.node_id@,
    }
}

/// What an event makes of the conversation.
pub open spec fn projected(
    p: TuiProjector,
    event: RuntimeEvent,
    c: ProjectionContext,
    plan: PlanUiState,
) -> Seq<ProjectionView> {
    match event {
        RuntimeEvent::AssistantMessage(t) => seq![
            put(p@.streaming, timeline::ItemView::Assistant { text: t@ }),
        ],
        RuntimeEvent::AssistantMessageDelta(d) => if d@.len() > 0 {
            seq![ProjectionView::AppendAssistantDelta { index: p@.streaming, delta: d@ }]
        } else {
            Seq::empty()
        },
        RuntimeEvent::RunStateChanged => seq![ProjectionView::ShowRunState],
        RuntimeEvent::QueuedInputsChanged => seq![ProjectionView::ShowQueue],
        RuntimeEvent::QueuedInputAccepted { lane, texts } => seq![
            ProjectionView::ConfirmLocalRunStart,
        ] + text::views(texts@).map_values(
            |t: Seq<char>| ProjectionView::ConfirmOrPushUserInput { text: t, lane },
        ),
        RuntimeEvent::CompactionStarted => seq![told("Compacting"@, "preparing checkpoint"@)],
        RuntimeEvent::CompactionCompleted { checkpoint_id, covered_items } => seq![
            put(
                p@.compaction,
                timeline::ItemView::Muted {
                    title: "Compacted"@,
                    detail: text::decimal(covered_items as nat) + " history items · "@
                        + checkpoint_id@,
                },
            ),
        ],
        RuntimeEvent::UsageUpdated => seq![ProjectionView::ShowUsage],
        RuntimeEvent::ToolCallStarted(call) => seq![
            ProjectionView::Push(started_item(call, c.now_ms)),
        ],
        RuntimeEvent::ToolCallBatchStarted(calls) => started_items(calls@, c.now_ms),
        RuntimeEvent::ToolCallFinished(f) => {
            let output = tool_output::output_text(f.output);
            finished(
                if p@.tools.dom().contains(f.call_id@) {
                    Some(p@.tools[f.call_id@])
                } else {
                    None
                },
                f,
                process_output::preview_of(output),
                process_output::exit_code_of(output),
                tool_output::permission_text(output),
            )
        },
        RuntimeEvent::SubagentCompleted { summary, output_paths, changed_paths } => seq![
            ProjectionView::Push(
                timeline::ItemView::Expanded {
                    title: "subagent completed"@,
                    body: summary@ + "\nchanged: "@ + text::join(
                        text::views(changed_paths@),
                        ", "@,
                    ) + "\noutputs: "@ + text::join(text::views(output_paths@), ", "@),
                },
            ),
        ],
        RuntimeEvent::SubagentFailed(e) => seq![warned(e.code@, e.message@)],
        RuntimeEvent::SubagentCancelled(e) => seq![warned(e.code@, e.message@)],
        RuntimeEvent::PlanUpdated { snapshot, summary } => plan_projections(
            plan.snapshot,
            snapshot,
            summary@,
            c.approval_open,
        ),
        RuntimeEvent::PlanProgressReviewRequested(reason) => seq![
            told("Plan review requested"@, reason@),
        ],
        RuntimeEvent::PlanDirectiveUpdated(d) => match directive_title(d.status@) {
            Some(title) => seq![told(title, text::lower(d.kind@ + ": "@ + d.reason@))],
            None => Seq::empty(),
        },
        RuntimeEvent::PlanAttemptFinished(attempt) => if told_outcome(
            plan_model::opt(attempt.outcome),
        ) {
            seq![
                warned("Plan node "@ + text::lower(attempt.outcome->0@), attempt_body(attempt)),
            ]
        } else {
            Seq::empty()
        },
        RuntimeEvent::RunFailed(e) => stopped(
            p.started_tools.keys_view(),
            p@.tools,
            "failed"@,
        ).push(
            put(
                p@.compaction,
                timeline::ItemView::Diagnostic {
                    title: if p@.compaction is Some {
                        "compaction failed"@
                    } else {
                        e.code@
                    },
                    body: e.message@,
                },
            ),
        ),
        RuntimeEvent::RunCancelled(e) => {
            let first = stopped(p.started_tools.keys_view(), p@.tools, "cancelled"@);
            match p@.compaction {
                Some(i) => first.push(
                    ProjectionView::Replace(
                        i,
                        timeline::ItemView::Muted {
                            title: "Compaction cancelled"@,
                            detail: e.message@,
                        },
                    ),
                ).push(ProjectionView::CompleteStopFeedback { otherwise: None }),
                None => first.push(
                    ProjectionView::CompleteStopFeedback {
                        otherwise: Some(
                            timeline::ItemView::Diagnostic { title: e.code@, body: e.message@ },
                        ),
                    },
                ),
            }
        },
        RuntimeEvent::Closed => stopped(
            p.started_tools.keys_view(),
            p@.tools,
            "interrupted"@,
        ).push(told("closed"@, "runtime stream closed"@)),
        _ => Seq::empty(),
    }
}

/// What is remembered after an event.
pub open spec fn remembered(p: ProjectorView, event: RuntimeEvent, c: ProjectionContext) -> ProjectorView {
    match event {
        RuntimeEvent::AssistantMessage(_) => ProjectorView { streaming: None, ..p },
        RuntimeEvent::CompactionStarted => ProjectorView {
            streaming: None,
            compaction: Some(c.timeline_len),
            ..p
        },
        RuntimeEvent::CompactionCompleted { checkpoint_id: _, covered_items: _ } => ProjectorView {
            compaction: None,
            ..p
        },
        RuntimeEvent::ToolCallStarted(call) => ProjectorView {
            tools: p.tools.insert(call.id@, started(call, c.timeline_len, Some(c.now_ms))),
            streaming: None,
            ..p
        },
        RuntimeEvent::ToolCallBatchStarted(calls) => ProjectorView {
            tools: with_started(p.tools, calls@, c.timeline_len as int, c.now_ms),
            streaming: if calls@.len() == 0 {
                p.streaming
            } else {
                None
            },
            ..p
        },
        RuntimeEvent::ToolCallFinished(f) => ProjectorView {
            tools: p.tools.remove(f.call_id@),
            ..p
        },
        RuntimeEvent::SubagentFailed(_) => ProjectorView { streaming: None, ..p },
        RuntimeEvent::SubagentCancelled(_) => ProjectorView { streaming: None, ..p },
        RuntimeEvent::RunFailed(_) => ProjectorView {
            tools: without_commands(p.tools),
            streaming: None,
            compaction: None,
        },
        RuntimeEvent::RunCancelled(_) => ProjectorView {
            tools: without_commands(p.tools),
            streaming: None,
            compaction: None,
        },
        RuntimeEvent::Closed => ProjectorView {
            tools: without_commands(p.tools),
            streaming: None,
            ..p
        },
        _ => p,
    }
}

/// The plan pane after an event.
pub open spec fn plan_after(before: PlanUiState, after: PlanUiState, event: RuntimeEvent) -> bool {
    match event {
        RuntimeEvent::PlanUpdated { snapshot, summary: _ } => plan::took_snapshot(
            before,
            after,
            snapshot,
        ),
        RuntimeEvent::PlanLeaseStarted(lease) => plan::took_lease(before, after, lease),
        RuntimeEvent::PlanProgressUpdated(progress) => plan::took_progress(
            before,
            after,
            progress,
        ),
        RuntimeEvent::PlanAttemptProgressReported(progress) => plan::took_progress(
            before,
            after,
            progress,
        ),
        RuntimeEvent::PlanAttemptFinished(attempt) => if told_outcome(
            plan_model::opt(attempt.outcome),
        ) {
            plan::took_attempt(before, after, attempt)
        } else {
            after == before
        },
        _ => after == before,
    }
}

/// How many items tools that are called begin at once.
pub open spec fn calls_in(event: RuntimeEvent) -> nat {
    match event {
        RuntimeEvent::ToolCallBatchStarted(calls) => calls@.len(),
        _ => 0,
    }
}

impl TuiProjector {
    pub fn new() -> (r: TuiProjector)
        ensures
            r.started_tools.well_formed(),
            r@ == (ProjectorView { tools: Map::empty(), streaming: None, compaction: None }),
    {
        TuiProjector {
            started_tools: TextMap::new(),
            streaming_assistant_index: None,
            compaction_timeline_index: None,
        }
    }

    /// Remembers a tool that is called; gives its item.
    fn start_tool(&mut self, call: ToolCall, index: usize, now_ms: u64, at: Option<u64>) -> (r:
        TimelineItem)
        requires
            old(self).started_tools.well_formed(),
        ensures
            final(self).started_tools.well_formed(),
            final(self)@ == (ProjectorView {
                tools: old(self)@.tools.insert(call.id@, started(call, index, at)),
                streaming: None,
                ..old(self)@
            }),
            r@ == started_item(call, now_ms),
    {
        self.streaming_assistant_index = None;
        let (title, detail) = tool_output::started_tool_title_and_detail(
            call.name.as_str(),
            provider_overlay::lend_opt(&call.summary),
        );
        let item = if text::same(call.name.as_str(), "run_process") {
            TimelineItem::Command {
                view: CommandView::Running { detail: detail.clone(), started_at_ms: now_ms },
            }
        } else {
            TimelineItem::Muted { title: title.clone(), detail: detail.clone() }
        };
        let command = match call.command {
            Some(c) => c,
            None => {
                let none = String::new();
                proof {
                    assert(none@ =~= Seq::empty());
                }
                none
            },
        };
        let cwd = match call.cwd {
            Some(c) => c,
            None => ".".to_owned(),
        };
        self.started_tools.insert(
            call.id.as_str(),
            StartedTool {
                name: call.name,
                timeline_index: index,
                title,
                detail,
                patch_argument: call.patch,
                command,
                cwd,
                started_at_ms: at,
            },
        );
        item
    }

    /// Remembers tools that are called together; gives their items.
    fn start_tools(&mut self, calls: Vec<ToolCall>, c: ProjectionContext) -> (r: Vec<Projection>)
        requires
            old(self).started_tools.well_formed(),
            c.timeline_len + calls@.len() <= usize::MAX,
        ensures
            final(self).started_tools.well_formed(),
            final(self)@ == (ProjectorView {
                tools: with_started(old(self)@.tools, calls@, c.timeline_len as int, c.now_ms),
                streaming: if calls@.len() == 0 {
                    old(self)@.streaming
                } else {
                    None
                },
                ..old(self)@
            }),
            projection_views(r@) == started_items(calls@, c.now_ms),
    {
        let ghost all = calls@;
        let ghost first = self@;
        let mut rest = calls;
        let mut r = nothing();
        let mut index: usize = c.timeline_len;
        proof {
            assert(all.skip(0) =~= all);
            assert(all.take(0) =~= Seq::empty());
            assert(started_items(all.take(0), c.now_ms) =~= Seq::empty());
        }
        while rest.len() > 0
            invariant
                self.started_tools.well_formed(),
                c.timeline_len <= index,
                c.timeline_len + all.len() <= usize::MAX,
                index - c.timeline_len <= all.len(),
                rest@ == all.skip(index - c.timeline_len),
                projection_views(r@) == started_items(
                    all.take(index - c.timeline_len),
                    c.now_ms,
                ),
                self@ == (ProjectorView {
                    tools: with_started(
                        first.tools,
                        all.take(index - c.timeline_len),
                        c.timeline_len as int,
                        c.now_ms,
                    ),
                    streaming: if index == c.timeline_len {
                        first.streaming
                    } else {
                        None
                    },
                    ..first
                }),
            decreases rest@.len(),
        {
            let ghost i = index - c.timeline_len;
            let call = rest.remove(0);
            proof {
                assert(call == all[i]);
                assert(rest@ =~= all.skip(i + 1));
                assert(all.take(i + 1).drop_last() =~= all.take(i));
                assert(all.take(i + 1).last() == call);
                assert(started_items(all.take(i + 1), c.now_ms) =~= started_items(
                    all.take(i),
                    c.now_ms,
                ).push(ProjectionView::Push(started_item(call, c.now_ms))));
            }
            let item = self.start_tool(call, index, c.now_ms, Some(c.now_ms));
            push(&mut r, Projection::Push(item));
            index = index + 1;
        }
        proof {
            assert(all.take(all.len() as int) =~= all);
        }
        r
    }

    /// Ends the commands that are under way, since their own ends will not come any more.
    fn finish_pending_commands(&mut self, status: &str) -> (r: Vec<Projection>)
        requires
            old(self).started_tools.well_formed(),
        ensures
            final(self).started_tools.well_formed(),
            final(self)@ == (ProjectorView {
                tools: without_commands(old(self)@.tools),
                ..old(self)@
            }),
            projection_views(r@) == stopped(
                old(self).started_tools.keys_view(),
                old(self)@.tools,
                status@,
            ),
    {
        let ghost first = self@;
        let keys = copy_texts(self.started_tools.keys());
        let ghost all = text::views(keys@);
        let mut r = nothing();
        let mut i: usize = 0;
        proof {
            assert(all.take(0) =~= Seq::empty());
            assert(ordered::ascending(all));
        }
        while i < keys.len()
            invariant
                i <= keys@.len(),
                all == text::views(keys@),
                ordered::ascending(all),
                forall|k: Seq<char>| #[trigger]
                    first.tools.dom().contains(k) <==> all.contains(k),
                self.started_tools.well_formed(),
                self@ == (ProjectorView { tools: self@.tools, ..first }),
                forall|k: Seq<char>| #[trigger]
                    self@.tools.dom().contains(k) <==> first.tools.dom().contains(k) && !(
                    is_command(first.tools[k]) && all.take(i as int).contains(k)),
                forall|k: Seq<char>| #[trigger]
                    self@.tools.dom().contains(k) ==> self@.tools[k] == first.tools[k],
                projection_views(r@) == stopped(all.take(i as int), first.tools, status@),
            decreases keys@.len() - i,
        {
            let key = keys[i].as_str();
            let ghost before = self@.tools;
            proof {
                assert(all.take(i + 1).drop_last() =~= all.take(i as int));
                assert(all[i as int] == key@);
                assert(all.contains(key@));
                if all.take(i as int).contains(key@) {
                    let j = choose|j: int|
                        0 <= j < all.take(i as int).len() && #[trigger] all.take(i as int)[j]
                            == key@;
                    assert(ordered::lex_less(all[j], all[i as int]));
                    ordered::lex_less_is_irreflexive(key@);
                }
                assert(first.tools.dom().contains(key@));
                assert(self@.tools.dom().contains(key@));
                assert forall|k: Seq<char>| all.take(i + 1).contains(k) <==> (all.take(
                    i as int,
                ).contains(k) || k == key@) by {
                    if all.take(i + 1).contains(k) {
                        let j = choose|j: int|
                            0 <= j < i + 1 && #[trigger] all.take(i + 1)[j] == k;
                        if j < i {
                            assert(all.take(i as int)[j] == k);
                        }
                    }
                    if all.take(i as int).contains(k) {
                        let j = choose|j: int| 0 <= j < i && #[trigger] all.take(i as int)[j] == k;
                        assert(all.take(i + 1)[j] == k);
                    }
                    if k == key@ {
                        assert(all.take(i + 1)[i as int] == k);
                    }
                }
            }
            let command = match self.started_tools.get(key) {
                Some(t) => text::same(t.name.as_str(), "run_process"),
                None => false,
            };
            if command {
                match self.started_tools.remove(key) {
                    Some(t) => {
                        let detail = String::new();
                        proof {
                            assert(detail@ =~= Seq::empty());
                        }
                        let item = TimelineItem::Muted { title: title_of(&t, status), detail };
                        push(&mut r, Projection::Replace(t.timeline_index, item));
                    },
                    None => {},
                }
            }
            i = i + 1;
        }
        proof {
            assert(all.take(i as int) =~= all);
            assert(self@.tools =~= without_commands(first.tools));
        }
        r
    }
}

/// A list of texts once more.
fn copy_texts(v: &Vec<String>) -> (r: Vec<String>)
    ensures
        text::views(r@) == text::views(v@),
        r@.len() == v@.len(),
{
    let mut r: Vec<String> = Vec::new();
    let mut i: usize = 0;
    while i < v.len()
        invariant
            i <= v@.len(),
            r@.len() == i,
            text::views(r@) == text::views(v@).take(i as int),
        decreases v@.len() - i,
    {
        let ghost before = r@;
        let t = v[i].clone();
        r.push(t);
        proof {
            assert(text::views(r@) =~= text::views(before).push(t@));
            assert(text::views(v@).take(i + 1) =~= text::views(v@).take(i as int).push(
                text::views(v@)[i as int],
            ));
        }
        i = i + 1;
    }
    proof {
        assert(text::views(v@).take(i as int) =~= text::views(v@));
    }
    r
}

/// The messages that have been taken up.
fn accepted(lane: QueuedInputLane, texts: Vec<String>) -> (r: Vec<Projection>)
    ensures
        projection_views(r@) == seq![ProjectionView::ConfirmLocalRunStart] + text::views(
            texts@,
        ).map_values(|t: Seq<char>| ProjectionView::ConfirmOrPushUserInput { text: t, lane }),
{
    let ghost all = text::views(texts@);
    let ghost shown = all.map_values(
        |t: Seq<char>| ProjectionView::ConfirmOrPushUserInput { text: t, lane },
    );
    let ghost head = seq![ProjectionView::ConfirmLocalRunStart];
    let mut r = one(Projection::ConfirmLocalRunStart);
    let mut i: usize = 0;
    proof {
        assert(head + shown.take(0) =~= head);
    }
    while i < texts.len()
        invariant
            i <= texts@.len(),
            all == text::views(texts@),
            shown == all.map_values(
                |t: Seq<char>| ProjectionView::ConfirmOrPushUserInput { text: t, lane },
            ),
            projection_views(r@) == head + shown.take(i as int),
        decreases texts@.len() - i,
    {
        push(&mut r, Projection::ConfirmOrPushUserInput { text: texts[i].clone(), lane });
        proof {
            assert(shown[i as int] == (ProjectionView::ConfirmOrPushUserInput {
                text: all[i as int],
                lane,
            }));
            assert(head + shown.take(i + 1) =~= (head + shown.take(i as int)).push(
                shown[i as int],
            ));
        }
        i = i + 1;
    }
    proof {
        assert(shown.take(i as int) =~= shown);
    }
    r
}

/// Decides whether a new plan asks for its approval.
fn plan_asks(current: &Option<PlanSnapshot>, snapshot: &PlanSnapshot, approval_open: bool) -> (r: bool)
    ensures
        r == asks_for_approval(*current, *snapshot, approval_open),
{
    let reviewed = snapshot.phase == PlanPhase::Planning && snapshot.root_node_id.is_some();
    let awaiting = snapshot.phase == PlanPhase::AwaitingApproval;
    match current {
        None => reviewed || awaiting,
        Some(c) => {
            let was_reviewed = c.phase == PlanPhase::Planning && c.root_node_id.is_some();
            let was_awaiting = c.phase == PlanPhase::AwaitingApproval;
            let other = !text::same(c.plan_id.as_str(), snapshot.plan_id.as_str()) || c.revision
                != snapshot.revision;
            (reviewed && !was_reviewed) || (awaiting && !was_awaiting) || (approval_open && other)
        },
    }
}

/// Takes over a new plan, and tells of it.
fn update_plan(plan: &mut PlanUiState, snapshot: PlanSnapshot, summary: &str, approval_open: bool) -> (r:
    Vec<Projection>)
    requires
        old(plan).well_formed(),
    ensures
        final(plan).well_formed(),
        plan::took_snapshot(*old(plan), *final(plan), snapshot),
        projection_views(r@) == plan_projections(
            old(plan).snapshot,
            snapshot,
            summary@,
            approval_open,
        ),
{
    let ask = plan_asks(&plan.snapshot, &snapshot, approval_open);
    let current = match &plan.snapshot {
        Some(s) => Some(s),
        None => None,
    };
    let news = plan_projector::plan_timeline_item(current, &snapshot, summary);
    plan.update_snapshot(snapshot);
    let mut r = match news {
        Some(item) => one(Projection::Push(item)),
        None => nothing(),
    };
    if ask {
        push(&mut r, Projection::OpenPlanApproval);
    }
    r
}

/// Tells of an attempt that ended, where it ended badly.
fn attempt_finished(plan: &mut PlanUiState, attempt: PlanAttemptSnapshot) -> (r: Vec<Projection>)
    requires
        old(plan).well_formed(),
    ensures
        final(plan).well_formed(),
        told_outcome(plan_model::opt(attempt.outcome)) ==> {
            &&& plan::took_attempt(*old(plan), *final(plan), attempt)
            &&& projection_views(r@) == seq![
                warned("Plan node "@ + text::lower(attempt.outcome->0@), attempt_body(attempt)),
            ]
        },
        !told_outcome(plan_model::opt(attempt.outcome)) ==> *final(plan) == *old(plan)
            && projection_views(r@) == Seq::<ProjectionView>::empty(),
{
    let outcome = match &attempt.outcome {
        Some(o) => o.as_str(),
        None => {
            return nothing();
        },
    };
    if !(text::same(outcome, "Blocked") || text::same(outcome, "SemanticFailure") || text::same(
        outcome,
        "Interrupted",
    ) || text::same(outcome, "Cancelled")) {
        return nothing();
    }
    let title = text::cat2("Plan node ", text::to_lower(outcome).as_str());
    let body = match &attempt.diagnostic {
        Some(d) => d.message.clone(),
        None => attempt.node_id.clone(),
    };
    plan.update_attempt(attempt);
    one(Projection::Push(TimelineItem::Diagnostic { title, body }))
}

fn directive_told(d: CoordinatorDirectiveSnapshot) -> (r: Vec<Projection>)
    ensures
        projection_views(r@) == (match directive_title(d.status@) {
            Some(title) => seq![told(title, text::lower(d.kind@ + ": "@ + d.reason@))],
            None => Seq::empty(),
        }),
{
    let title = if text::same(d.status.as_str(), "Queued") {
        "Plan steering queued"
    } else if text::same(d.status.as_str(), "Applied") {
        "Plan steering applied"
    } else {
        return nothing();
    };
    let detail = text::to_lower(text::cat3(d.kind.as_str(), ": ", d.reason.as_str()).as_str());
    one(Projection::Push(TimelineItem::muted(title, detail.as_str())))
}

impl TuiProjector {
    /// Ends a call: takes its tool out, and tells how it went.
    fn finish(&mut self, f: ToolFinish) -> (r: Vec<Projection>)
        requires
            old(self).started_tools.well_formed(),
        ensures
            final(self).started_tools.well_formed(),
            final(self)@ == (ProjectorView {
                tools: old(self)@.tools.remove(f.call_id@),
                ..old(self)@
            }),
            ({
                let output = tool_output::output_text(f.output);
                projection_views(r@) == finished(
                    if old(self)@.tools.dom().contains(f.call_id@) {
                        Some(old(self)@.tools[f.call_id@])
                    } else {
                        None
                    },
                    f,
                    process_output::preview_of(output),
                    process_output::exit_code_of(output),
                    tool_output::permission_text(output),
                )
            }),
    {
        let tool = self.started_tools.remove(f.call_id.as_str());
        let output = match &f.output {
            Some(ToolOutput::Text(t)) => t.as_str(),
            Some(ToolOutput::Json(t)) => t.as_str(),
            None => {
                proof {
                    reveal_strlit("");
                    assert(""@ =~= Seq::empty());
                }
                ""
            },
        };
        let command = match &tool {
            Some(t) => text::same(t.name.as_str(), "run_process"),
            None => false,
        };
        let asked = match &tool {
            Some(t) => text::same(t.name.as_str(), "request_permissions"),
            None => false,
        };
        let process = if command {
            process_output::process_output_preview(output)
        } else {
            None
        };
        let exit_code = if command {
            process_output::process_exit_code(output)
        } else {
            None
        };
        let permission = if asked {
            tool_output::permission_output_bodies(output)
        } else {
            None
        };
        finish_tool(tool, f, process, exit_code, permission)
    }

    /// Makes of an event what it means for the conversation and for the plan.
    pub fn apply(&mut self, event: RuntimeEvent, c: ProjectionContext, plan: &mut PlanUiState) -> (r:
        Vec<Projection>)
        requires
            old(self).started_tools.well_formed(),
            old(plan).well_formed(),
            c.timeline_len + calls_in(event) <= usize::MAX,
        ensures
            final(self).started_tools.well_formed(),
            final(plan).well_formed(),
            projection_views(r@) == projected(*old(self), event, c, *old(plan)),
            final(self)@ == remembered(old(self)@, event, c),
            plan_after(*old(plan), *final(plan), event),
    {
        match event {
            RuntimeEvent::AssistantMessage(text) => {
                let index = self.streaming_assistant_index.take();
                one(put_item(index, TimelineItem::Assistant { text }))
            },
            RuntimeEvent::AssistantMessageDelta(delta) => if delta.as_str().is_empty() {
                nothing()
            } else {
                one(
                    Projection::AppendAssistantDelta {
                        index: self.streaming_assistant_index,
                        delta,
                    },
                )
            },
            RuntimeEvent::RunStateChanged => one(Projection::ShowRunState),
            RuntimeEvent::QueuedInputsChanged => one(Projection::ShowQueue),
            RuntimeEvent::QueuedInputAccepted { lane, texts } => accepted(lane, texts),
            RuntimeEvent::CompactionStarted => {
                self.streaming_assistant_index = None;
                self.compaction_timeline_index = Some(c.timeline_len);
                one(Projection::Push(TimelineItem::muted("Compacting", "preparing checkpoint")))
            },
            RuntimeEvent::CompactionCompleted { checkpoint_id, covered_items } => {
                let detail = text::cat3(
                    text::decimal_text(covered_items).as_str(),
                    " history items · ",
                    checkpoint_id.as_str(),
                );
                let index = self.compaction_timeline_index.take();
                one(put_item(index, TimelineItem::muted("Compacted", detail.as_str())))
            },
            RuntimeEvent::UsageUpdated => one(Projection::ShowUsage),
            RuntimeEvent::ToolCallStarted(call) => {
                let item = self.start_tool(call, c.timeline_len, c.now_ms, Some(c.now_ms));
                one(Projection::Push(item))
            },
            RuntimeEvent::ToolCallBatchStarted(calls) => self.start_tools(calls, c),
            RuntimeEvent::ToolCallFinished(f) => self.finish(f),
            RuntimeEvent::SubagentCompleted { summary, output_paths, changed_paths } => {
                let body = text::cat5(
                    summary.as_str(),
                    "\nchanged: ",
                    text::join_texts(&changed_paths, ", ").as_str(),
                    "\noutputs: ",
                    text::join_texts(&output_paths, ", ").as_str(),
                );
                one(Projection::Push(TimelineItem::expanded("subagent completed", body.as_str())))
            },
            RuntimeEvent::SubagentFailed(e) | RuntimeEvent::SubagentCancelled(e) => {
                self.streaming_assistant_index = None;
                one(
                    Projection::Push(TimelineItem::Diagnostic { title: e.code, body: e.message }),
                )
            },
            RuntimeEvent::PlanUpdated { snapshot, summary } => update_plan(
                plan,
                snapshot,
                summary.as_str(),
                c.approval_open,
            ),
            RuntimeEvent::PlanLeaseStarted(lease) => {
                plan.update_lease(lease);
                nothing()
            },
            RuntimeEvent::PlanProgressUpdated(progress)
            | RuntimeEvent::PlanAttemptProgressReported(progress) => {
                plan.update_progress(progress);
                nothing()
            },
            RuntimeEvent::PlanProgressReviewRequested(reason) => one(
                Projection::Push(TimelineItem::muted("Plan review requested", reason.as_str())),
            ),
            RuntimeEvent::PlanDirectiveUpdated(d) => directive_told(d),
            RuntimeEvent::PlanAttemptFinished(attempt) => attempt_finished(plan, attempt),
            RuntimeEvent::RunFailed(e) => {
                let mut r = self.finish_pending_commands("failed");
                self.streaming_assistant_index = None;
                let title = match self.compaction_timeline_index {
                    Some(_) => "compaction failed".to_owned(),
                    None => e.code,
                };
                let index = self.compaction_timeline_index.take();
                push(
                    &mut r,
                    put_item(index, TimelineItem::Diagnostic { title, body: e.message }),
                );
                r
            },
            RuntimeEvent::RunCancelled(e) => {
                let mut r = self.finish_pending_commands("cancelled");
                self.streaming_assistant_index = None;
                match self.compaction_timeline_index.take() {
                    Some(i) => {
                        push(
                            &mut r,
                            Projection::Replace(
                                i,
                                TimelineItem::muted("Compaction cancelled", e.message.as_str()),
                            ),
                        );
                        push(&mut r, Projection::CompleteStopFeedback { otherwise: None });
                    },
                    None => {
                        push(
                            &mut r,
                            Projection::CompleteStopFeedback {
                                otherwise: Some(
                                    TimelineItem::Diagnostic { title: e.code, body: e.message },
                                ),
                            },
                        );
                    },
                }
                r
            },
            RuntimeEvent::Closed => {
                let mut r = self.finish_pending_commands("interrupted");
                self.streaming_assistant_index = None;
                push(
                    &mut r,
                    Projection::Push(TimelineItem::muted("closed", "runtime stream closed")),
                );
                r
            },
            RuntimeEvent::Other => nothing(),
        }
    }

    /// Remembers where the answer stands that has just been added to.
    pub fn streams_at(&mut self, index: usize)
        ensures
            *final(self) == (TuiProjector {
                streaming_assistant_index: Some(index),
                ..*old(self)
            }),
    {
        self.streaming_assistant_index = Some(index);
    }

    /// When a tool was called that has not come to an end.
    pub fn started_at(&self, call_id: &str) -> (r: Option<u64>)
        requires
            self.started_tools.well_formed(),
        ensures
            r == (if self@.tools.dom().contains(call_id@) {
                self@.tools[call_id@].started_at_ms
            } else {
                None
            }),
    {
        match self.started_tools.get(call_id) {
            Some(t) => t.started_at_ms,
            None => None,
        }
    }
}

/// Something that an earlier session holds.
#[derive(Debug, PartialEq, Eq)]
pub enum TranscriptItem {
    UserMessage(String),
    AssistantText(String),
    ToolCall(ToolCall),
    ToolResult(ToolFinish),
}

/// What an item of an earlier session makes of the conversation.
pub open spec fn transcript_projected(
    p: TuiProjector,
    item: TranscriptItem,
    c: ProjectionContext,
    plan: PlanUiState,
) -> Seq<ProjectionView> {
    match item {
        TranscriptItem::UserMessage(t) => seq![
            ProjectionView::ConfirmOrPushUserInput { text: t@, lane: QueuedInputLane::Next },
        ],
        TranscriptItem::AssistantText(t) => seq![
            ProjectionView::Push(timeline::ItemView::Assistant { text: t@ }),
        ],
        TranscriptItem::ToolCall(call) => seq![
            ProjectionView::Push(started_item(call, c.now_ms)),
        ],
        TranscriptItem::ToolResult(f) => projected(p, RuntimeEvent::ToolCallFinished(f), c, plan),
    }
}

/// What is remembered after an item of an earlier session: as after the event itself, but
/// that nobody knows when a tool was called.
pub open spec fn transcript_remembered(
    p: ProjectorView,
    item: TranscriptItem,
    c: ProjectionContext,
) -> ProjectorView {
    match item {
        TranscriptItem::UserMessage(_) => p,
        TranscriptItem::AssistantText(_) => ProjectorView { streaming: None, ..p },
        TranscriptItem::ToolCall(call) => ProjectorView {
            tools: p.tools.insert(call.id@, started(call, c.timeline_len, None)),
            streaming: None,
            ..p
        },
        TranscriptItem::ToolResult(f) => remembered(p, RuntimeEvent::ToolCallFinished(f), c),
    }
}

impl TuiProjector {
    /// Makes of an item of an earlier session what it means for the conversation.
    pub fn apply_transcript_item(
        &mut self,
        item: TranscriptItem,
        c: ProjectionContext,
        plan: &mut PlanUiState,
    ) -> (r: Vec<Projection>)
        requires
            old(self).started_tools.well_formed(),
            old(plan).well_formed(),
        ensures
            final(self).started_tools.well_formed(),
            *final(plan) == *old(plan),
            projection_views(r@) == transcript_projected(*old(self), item, c, *old(plan)),
            final(self)@ == transcript_remembered(old(self)@, item, c),
    {
        match item {
            TranscriptItem::UserMessage(text) => one(
                Projection::ConfirmOrPushUserInput { text, lane: QueuedInputLane::Next },
            ),
            TranscriptItem::AssistantText(text) => {
                self.streaming_assistant_index = None;
                one(Projection::Push(TimelineItem::Assistant { text }))
            },
            TranscriptItem::ToolCall(call) => {
                let item = self.start_tool(call, c.timeline_len, c.now_ms, None);
                one(Projection::Push(item))
            },
            TranscriptItem::ToolResult(f) => self.finish(f),
        }
    }
}

/// When a run ends, no command stays under way: each that was is told of, and none is left to
/// be finished later. What else was called stays.
pub proof fn ended_runs_leave_no_command(p: ProjectorView, event: RuntimeEvent, c: ProjectionContext)
    requires
        event is RunFailed || event is RunCancelled || event is Closed,
    ensures
        forall|k: Seq<char>| #[trigger]
            remembered(p, event, c).tools.dom().contains(k) <==> p.tools.dom().contains(k)
                && !is_command(p.tools[k]),
        remembered(p, event, c).streaming is None,
{
}

/// A call is told of once when it begins and once when it ends: its end is put in the place
/// of its beginning, and it is forgotten.
pub proof fn calls_end_where_they_began(
    p: ProjectorView,
    call: ToolCall,
    f: ToolFinish,
    c: ProjectionContext,
    process: Option<process_output::PreviewView>,
    exit_code: Option<i64>,
    permission: Option<Seq<char>>,
)
    requires
        f.call_id@ == call.id@,
    ensures
        ({
            let begun = remembered(p, RuntimeEvent::ToolCallStarted(call), c);
            let ended = remembered(begun, RuntimeEvent::ToolCallFinished(f), c);
            let shown = finished(
                Some(begun.tools[f.call_id@]),
                f,
                process,
                exit_code,
                permission,
            );
            &&& begun.tools.dom().contains(f.call_id@)
            &&& !ended.tools.dom().contains(f.call_id@)
            &&& shown.len() == 1
            &&& shown[0] matches ProjectionView::Replace(i, _) ==> i == c.timeline_len
            &&& shown[0] matches ProjectionView::ReplaceCommand(i, _) ==> i == c.timeline_len
            &&& shown[0] is Replace || shown[0] is ReplaceCommand
        }),
{
}

/// The items of a conversation after one change of it. A command that ended stands in the place
/// that the change names, as `ended`.
pub open spec fn with_change(
    items: Seq<timeline::ItemView>,
    change: ProjectionView,
    ended: timeline::ItemView,
) -> Seq<timeline::ItemView> {
    match change {
        ProjectionView::Push(item) => items.push(item),
        ProjectionView::Replace(at, item) => items.update(at as int, item),
        ProjectionView::ReplaceCommand(at, _) => items.update(at as int, ended),
        ProjectionView::AppendAssistantDelta { index, delta } => match index {
            Some(at) => match items[at as int] {
                timeline::ItemView::Assistant { text } => items.update(
                    at as int,
                    timeline::ItemView::Assistant { text: text + delta },
                ),
                _ => items,
            },
            None => items.push(timeline::ItemView::Assistant { text: delta }),
        },
        _ => items,
    }
}

/// The items of a conversation after some changes of it.
pub open spec fn with_changes(
    items: Seq<timeline::ItemView>,
    changes: Seq<ProjectionView>,
    ended: timeline::ItemView,
) -> Seq<timeline::ItemView>
    decreases changes.len(),
{
    if changes.len() == 0 {
        items
    } else {
        with_change(with_changes(items, changes.drop_last(), ended), changes.last(), ended)
    }
}

proof fn lemma_one_change(
    items: Seq<timeline::ItemView>,
    change: ProjectionView,
    ended: timeline::ItemView,
)
    ensures
        with_changes(items, seq![change], ended) == with_change(items, change, ended),
{
    reveal_with_fuel(with_changes, 2);
    assert(seq![change].drop_last() =~= Seq::<ProjectionView>::empty());
}

/// An answer is one item. Where it is being written, the whole of it takes the place of what
/// was written so far, and the conversation gets no longer; else it stands behind the others.
/// Either way nothing is being written afterwards.
pub proof fn an_answer_is_one_item(
    p: TuiProjector,
    t: String,
    c: ProjectionContext,
    plan: PlanUiState,
    items: Seq<timeline::ItemView>,
    ended: timeline::ItemView,
)
    requires
        p@.streaming matches Some(i) ==> i < items.len(),
    ensures
        ({
            let event = RuntimeEvent::AssistantMessage(t);
            let changes = projected(p, event, c, plan);
            let after = with_changes(items, changes, ended);
            let answer = timeline::ItemView::Assistant { text: t@ };
            &&& changes.len() == 1
            &&& p@.streaming matches Some(i) ==> {
                &&& changes[0] == ProjectionView::Replace(i, answer)
                &&& after.len() == items.len()
                &&& after[i as int] == answer
                &&& forall|k: int|
                    0 <= k < items.len() && k != i ==> #[trigger] after[k] == items[k]
            }
            &&& p@.streaming is None ==> {
                &&& after.len() == items.len() + 1
                &&& after.last() == answer
                &&& after.drop_last() == items
            }
            &&& remembered(p@, event, c).streaming is None
            &&& remembered(p@, event, c).tools == p@.tools
            &&& remembered(p@, event, c).compaction == p@.compaction
        }),
{
    let event = RuntimeEvent::AssistantMessage(t);
    let changes = projected(p, event, c, plan);
    assert(changes.len() == 1);
    assert(changes =~= seq![changes[0]]);
    lemma_one_change(items, changes[0], ended);
    assert(p@.streaming is None ==> with_changes(items, changes, ended).drop_last() =~= items);
}

/// A piece of an answer is added to what was written so far, and to nothing else; the first
/// piece begins the answer. An empty piece changes nothing.
pub proof fn pieces_add_to_the_answer(
    p: TuiProjector,
    d: String,
    c: ProjectionContext,
    plan: PlanUiState,
    items: Seq<timeline::ItemView>,
    before: Seq<char>,
    ended: timeline::ItemView,
)
    requires
        p@.streaming matches Some(i) ==> i < items.len() && items[i as int]
            == (timeline::ItemView::Assistant { text: before }),
    ensures
        ({
            let event = RuntimeEvent::AssistantMessageDelta(d);
            let after = with_changes(items, projected(p, event, c, plan), ended);
            &&& d@.len() == 0 ==> after == items
            &&& p@.streaming matches Some(i) ==> {
                &&& after.len() == items.len()
                &&& after[i as int] == (timeline::ItemView::Assistant { text: before + d@ })
                &&& forall|k: int|
                    0 <= k < items.len() && k != i ==> #[trigger] after[k] == items[k]
            }
            &&& p@.streaming is None && d@.len() > 0 ==> {
                &&& after.len() == items.len() + 1
                &&& after.last() == (timeline::ItemView::Assistant { text: d@ })
                &&& after.drop_last() == items
            }
            &&& remembered(p@, event, c) == p@
        }),
{
    let event = RuntimeEvent::AssistantMessageDelta(d);
    let changes = projected(p, event, c, plan);
    if d@.len() > 0 {
        assert(changes =~= seq![changes[0]]);
        lemma_one_change(items, changes[0], ended);
        assert(p@.streaming is None ==> with_changes(items, changes, ended).drop_last() =~= items);
    } else {
        assert(changes.len() == 0);
        assert(before + d@ =~= before);
    }
}

/// A tool that is called gets an item behind the others, and is remembered with the place of
/// that item under the id of its call, as it was called. A command is shown as running.
pub proof fn a_call_stands_behind_the_others(
    p: TuiProjector,
    call: ToolCall,
    c: ProjectionContext,
    plan: PlanUiState,
    items: Seq<timeline::ItemView>,
    ended: timeline::ItemView,
)
    requires
        c.timeline_len == items.len(),
    ensures
        ({
            let event = RuntimeEvent::ToolCallStarted(call);
            let after = with_changes(items, projected(p, event, c, plan), ended);
            let now = remembered(p@, event, c);
            &&& after.len() == items.len() + 1
            &&& after.drop_last() == items
            &&& call.name@ == "run_process"@ ==> after.last() is Running
                && after.last()->Running_started_at_ms == c.now_ms
            &&& call.name@ != "run_process"@ ==> after.last() is Muted
            &&& now.tools.dom() == p@.tools.dom().insert(call.id@)
            &&& now.tools[call.id@].timeline_index == items.len()
            &&& now.tools[call.id@].name == call.name@
            &&& now.tools[call.id@].started_at_ms == Some(c.now_ms)
            &&& call.command matches Some(s) ==> now.tools[call.id@].command == s@
            &&& call.cwd matches Some(s) ==> now.tools[call.id@].cwd == s@
            &&& call.patch matches Some(v) ==> now.tools[call.id@].patch_argument == Some(
                patch::argument_views(v@),
            )
            &&& forall|k: Seq<char>|
                k != call.id@ && p@.tools.dom().contains(k) ==> #[trigger] now.tools[k]
                    == p@.tools[k]
            &&& now.streaming is None
            &&& now.compaction == p@.compaction
        }),
{
    let event = RuntimeEvent::ToolCallStarted(call);
    let changes = projected(p, event, c, plan);
    assert(changes =~= seq![changes[0]]);
    lemma_one_change(items, changes[0], ended);
    assert(with_changes(items, changes, ended).drop_last() =~= items);
    assert(remembered(p@, event, c).tools.dom() =~= p@.tools.dom().insert(call.id@));
}

proof fn lemma_started_items(
    items: Seq<timeline::ItemView>,
    calls: Seq<ToolCall>,
    now_ms: u64,
    ended: timeline::ItemView,
)
    ensures
        ({
            let after = with_changes(items, started_items(calls, now_ms), ended);
            &&& after.len() == items.len() + calls.len()
            &&& after.take(items.len() as int) == items
            &&& forall|k: int|
                0 <= k < calls.len() ==> #[trigger] after[items.len() + k] == started_item(
                    calls[k],
                    now_ms,
                )
        }),
    decreases calls.len(),
{
    let after = with_changes(items, started_items(calls, now_ms), ended);
    if calls.len() == 0 {
        assert(after =~= items);
        assert(after.take(items.len() as int) =~= items);
    } else {
        let init = calls.drop_last();
        lemma_started_items(items, init, now_ms, ended);
        let before = with_changes(items, started_items(init, now_ms), ended);
        assert(started_items(calls, now_ms).drop_last() =~= started_items(init, now_ms));
        assert(after =~= before.push(started_item(calls.last(), now_ms)));
        assert(after.take(items.len() as int) =~= before.take(items.len() as int));
        assert forall|k: int| 0 <= k < calls.len() implies #[trigger] after[items.len() + k]
            == started_item(calls[k], now_ms) by {
            if k < init.len() {
                assert(before[items.len() + k] == started_item(init[k], now_ms));
            }
        }
    }
}

proof fn lemma_with_started(
    tools: Map<Seq<char>, StartedView>,
    calls: Seq<ToolCall>,
    index: int,
    now_ms: u64,
    k: int,
)
    requires
        0 <= k < calls.len(),
        index >= 0,
        index + calls.len() <= usize::MAX,
        forall|j: int| k < j < calls.len() ==> (#[trigger] calls[j]).id@ != calls[k].id@,
    ensures
        with_started(tools, calls, index, now_ms).dom().contains(calls[k].id@),
        with_started(tools, calls, index, now_ms)[calls[k].id@] == started(
            calls[k],
            (index + k) as usize,
            Some(now_ms),
        ),
    decreases calls.len(),
{
    if k < calls.len() - 1 {
        let init = calls.drop_last();
        assert(init[k] == calls[k]);
        assert forall|j: int| k < j < init.len() implies (#[trigger] init[j]).id@ != init[k].id@ by {
            assert(init[j] == calls[j]);
        }
        lemma_with_started(tools, init, index, now_ms, k);
        assert(calls[calls.len() - 1].id@ != calls[k].id@);
    }
}

/// Tools that are called together get their items in the order of the calls, behind the
/// others; each is remembered with the place of its own item.
pub proof fn calls_stand_in_their_order(
    p: TuiProjector,
    calls: Vec<ToolCall>,
    c: ProjectionContext,
    plan: PlanUiState,
    items: Seq<timeline::ItemView>,
    ended: timeline::ItemView,
    k: int,
)
    requires
        c.timeline_len == items.len(),
        items.len() + calls@.len() <= usize::MAX,
        0 <= k < calls@.len(),
    ensures
        ({
            let event = RuntimeEvent::ToolCallBatchStarted(calls);
            let after = with_changes(items, projected(p, event, c, plan), ended);
            let alone = projected(p, RuntimeEvent::ToolCallStarted(calls@[k]), c, plan);
            let now = remembered(p@, event, c);
            &&& after.len() == items.len() + calls@.len()
            &&& after.take(items.len() as int) == items
            &&& alone == seq![ProjectionView::Push(after[items.len() + k])]
            &&& (forall|j: int| k < j < calls@.len() ==> (#[trigger] calls@[j]).id@ != calls@[k].id@)
                ==> now.tools.dom().contains(calls@[k].id@)
                && now.tools[calls@[k].id@].timeline_index == items.len() + k
                && now.tools[calls@[k].id@].name == calls@[k].name@
            &&& now.streaming is None
        }),
{
    lemma_started_items(items, calls@, c.now_ms, ended);
    if forall|j: int| k < j < calls@.len() ==> (#[trigger] calls@[j]).id@ != calls@[k].id@ {
        lemma_with_started(p@.tools, calls@, c.timeline_len as int, c.now_ms, k);
    }
}

/// The end of a tool stands in the place of its beginning and nowhere else, and the tool is
/// forgotten, but no other. A command's end carries the command, its directory and where its
/// output is kept; of another tool, a failure is a diagnostic, and what was cancelled is told of
/// in passing.
pub proof fn a_tool_ends_in_its_place(
    p: TuiProjector,
    f: ToolFinish,
    c: ProjectionContext,
    plan: PlanUiState,
    items: Seq<timeline::ItemView>,
    ended: timeline::ItemView,
)
    requires
        p@.tools.dom().contains(f.call_id@),
        p@.tools[f.call_id@].timeline_index < items.len(),
    ensures
        ({
            let event = RuntimeEvent::ToolCallFinished(f);
            let changes = projected(p, event, c, plan);
            let after = with_changes(items, changes, ended);
            let t = p@.tools[f.call_id@];
            let at = t.timeline_index as int;
            let now = remembered(p@, event, c);
            &&& changes.len() == 1
            &&& after.len() == items.len()
            &&& forall|k: int|
                0 <= k < items.len() && k != at ==> #[trigger] after[k] == items[k]
            &&& t.name == "run_process"@ ==> (changes[0] matches ProjectionView::ReplaceCommand(
                i,
                done,
            ) && i == at && done.detail == t.detail && done.command == t.command && done.cwd
                == t.cwd && done.artifact_id == f.artifact_id@ && done.exit_code
                == process_output::exit_code_of(tool_output::output_text(f.output)) && (
            f.cancelled_by_user <==> done.failure == Some(timeline::CommandFailure::Cancelled)) && (
            t.started_at_ms is Some ==> done.elapsed == f.elapsed) && (t.started_at_ms is None
                ==> done.elapsed is None))
            &&& t.name != "run_process"@ && f.cancelled_by_user ==> after[at] is Muted
            &&& t.name != "run_process"@ && !f.cancelled_by_user && f.failed ==> after[at] is Diagnostic
            &&& t.name != "run_process"@ && !f.cancelled_by_user && !f.failed && t.name
                != "apply_patch"@ ==> after[at] is Expanded
            &&& t.name == "apply_patch"@ && !f.cancelled_by_user && !f.failed ==> after[at] is Expanded
                || after[at] is Patch
            &&& !now.tools.dom().contains(f.call_id@)
            &&& forall|k: Seq<char>|
                k != f.call_id@ && p@.tools.dom().contains(k) ==> now.tools.dom().contains(k)
                    && #[trigger] now.tools[k] == p@.tools[k]
            &&& now.streaming == p@.streaming
            &&& now.compaction == p@.compaction
        }),
{
    reveal_strlit("run_process");
    reveal_strlit("apply_patch");
    let changes = projected(p, RuntimeEvent::ToolCallFinished(f), c, plan);
    assert(changes =~= seq![changes[0]]);
    lemma_one_change(items, changes[0], ended);
    assert("run_process"@.len() != 11 || "run_process"@[0] == 'r');
    assert("apply_patch"@[0] == 'a');
}

/// The end of a tool of which no beginning is known changes the conversation only where the
/// tool failed or was cancelled: then it stands behind the others.
pub proof fn unknown_ends_are_told_where_they_failed(
    p: TuiProjector,
    f: ToolFinish,
    c: ProjectionContext,
    plan: PlanUiState,
    items: Seq<timeline::ItemView>,
    ended: timeline::ItemView,
)
    requires
        !p@.tools.dom().contains(f.call_id@),
    ensures
        ({
            let after = with_changes(
                items,
                projected(p, RuntimeEvent::ToolCallFinished(f), c, plan),
                ended,
            );
            &&& !f.cancelled_by_user && !f.failed ==> after == items
            &&& f.cancelled_by_user || f.failed ==> after.len() == items.len() + 1
                && after.drop_last() == items
            &&& f.cancelled_by_user ==> after.last() is Muted
            &&& !f.cancelled_by_user && f.failed ==> after.last() is Diagnostic
        }),
{
    let changes = projected(p, RuntimeEvent::ToolCallFinished(f), c, plan);
    if f.cancelled_by_user || f.failed {
        assert(changes =~= seq![changes[0]]);
        lemma_one_change(items, changes[0], ended);
        assert(with_changes(items, changes, ended).drop_last() =~= items);
    } else {
        assert(changes.len() == 0);
    }
}

/// Whether a change tells, in the place of a command, how the run stopped it.
pub open spec fn stops(change: ProjectionView, tool: StartedView, status: Seq<char>) -> bool {
    change matches ProjectionView::Replace(at, item) && at == tool.timeline_index && (
    item matches timeline::ItemView::Muted { title, detail } && detail.len() == 0 && (" -> "@
        + status).is_suffix_of(title))
}

/// Whether a change tells how the run stopped one of the commands.
pub open spec fn stops_one_of(
    change: ProjectionView,
    tools: Map<Seq<char>, StartedView>,
    status: Seq<char>,
) -> bool {
    exists|k: Seq<char>| #[trigger]
        tools.dom().contains(k) && tools[k].name == "run_process"@ && stops(
            change,
            tools[k],
            status,
        )
}

/// Whether one of some changes tells how the run stopped a tool.
pub open spec fn one_stops(
    changes: Seq<ProjectionView>,
    tool: StartedView,
    status: Seq<char>,
) -> bool {
    exists|n: int| 0 <= n < changes.len() && stops(#[trigger] changes[n], tool, status)
}

proof fn lemma_stopped(
    keys: Seq<Seq<char>>,
    tools: Map<Seq<char>, StartedView>,
    status: Seq<char>,
)
    requires
        forall|k: Seq<char>| #[trigger] keys.contains(k) ==> tools.dom().contains(k),
    ensures
        forall|k: Seq<char>| #[trigger]
            keys.contains(k) && tools[k].name == "run_process"@ ==> one_stops(
                stopped(keys, tools, status),
                tools[k],
                status,
            ),
        forall|n: int|
            0 <= n < stopped(keys, tools, status).len() ==> stops_one_of(
                #[trigger] stopped(keys, tools, status)[n],
                tools,
                status,
            ),
    decreases keys.len(),
{
    if keys.len() > 0 {
        let init = keys.drop_last();
        let last = keys.last();
        assert forall|k: Seq<char>| #[trigger] init.contains(k) implies tools.dom().contains(k) by {
            let j = choose|j: int| 0 <= j < init.len() && init[j] == k;
            assert(keys[j] == k);
            assert(keys.contains(k));
        }
        lemma_stopped(init, tools, status);
        let before = stopped(init, tools, status);
        let now = stopped(keys, tools, status);
        assert(keys[keys.len() - 1] == last);
        assert(keys.contains(last));
        let titled = tool_output::titled(tools[last].title, tools[last].detail);
        let title = titled + " -> "@ + status;
        assert((" -> "@ + status) =~= title.subrange(titled.len() as int, title.len() as int));
        assert forall|k: Seq<char>| #[trigger]
            keys.contains(k) && tools[k].name == "run_process"@ implies one_stops(
            now,
            tools[k],
            status,
        ) by {
            if init.contains(k) {
                let n = choose|n: int|
                    0 <= n < before.len() && stops(#[trigger] before[n], tools[k], status);
                assert(now[n] == before[n]);
                assert(stops(now[n], tools[k], status));
            } else {
                let j = choose|j: int| 0 <= j < keys.len() && keys[j] == k;
                if j < init.len() {
                    assert(init[j] == k);
                }
                assert(k == last);
                assert(stops(now[before.len() as int], tools[k], status));
            }
        }
        assert forall|n: int| 0 <= n < now.len() implies stops_one_of(
            #[trigger] now[n],
            tools,
            status,
        ) by {
            if n < before.len() {
                assert(now[n] == before[n]);
                assert(stops_one_of(before[n], tools, status));
            } else {
                assert(tools.dom().contains(last));
                assert(stops(now[n], tools[last], status));
            }
        }
    }
}

/// When a run ends, every command that is under way, and only these, is told of in its own
/// place, with the word for how the run ended; then the end itself is told of.
pub proof fn ended_runs_tell_of_every_command(
    p: TuiProjector,
    event: RuntimeEvent,
    c: ProjectionContext,
    plan: PlanUiState,
    status: Seq<char>,
)
    requires
        (event is RunFailed && status == "failed"@) || (event is RunCancelled && status
            == "cancelled"@) || (event is Closed && status == "interrupted"@),
    ensures
        ({
            let changes = projected(p, event, c, plan);
            let told = changes.take(
                if event is RunCancelled && p@.compaction is Some {
                    changes.len() - 2
                } else {
                    changes.len() - 1
                },
            );
            &&& forall|k: Seq<char>| #[trigger]
                p@.tools.dom().contains(k) && p@.tools[k].name == "run_process"@ ==> one_stops(
                    told,
                    p@.tools[k],
                    status,
                )
            &&& forall|n: int|
                0 <= n < told.len() ==> stops_one_of(#[trigger] told[n], p@.tools, status)
        }),
{
    let keys = p.started_tools.keys_view();
    let first = stopped(keys, p@.tools, status);
    assert forall|k: Seq<char>| #[trigger] keys.contains(k) implies p@.tools.dom().contains(k) by {
        p.started_tools.keys_are_the_domain(k);
    }
    lemma_stopped(keys, p@.tools, status);
    let changes = projected(p, event, c, plan);
    let told = changes.take(
        if event is RunCancelled && p@.compaction is Some {
            changes.len() - 2
        } else {
            changes.len() - 1
        },
    );
    assert(told =~= first);
    assert forall|k: Seq<char>| #[trigger]
        p@.tools.dom().contains(k) && p@.tools[k].name == "run_process"@ implies one_stops(
        told,
        p@.tools[k],
        status,
    ) by {
        p.started_tools.keys_are_the_domain(k);
    }
}

/// What a failed run says is told of last, in the place of the compaction where one was under
/// way, else behind the others.
pub proof fn failures_are_told_of(
    p: TuiProjector,
    e: ErrorInfo,
    c: ProjectionContext,
    plan: PlanUiState,
)
    ensures
        ({
            let last = projected(p, RuntimeEvent::RunFailed(e), c, plan).last();
            &&& p@.compaction matches Some(i) ==> (last matches ProjectionView::Replace(at, item)
                && at == i && (item matches timeline::ItemView::Diagnostic { title: _, body }
                && body == e.message@))
            &&& p@.compaction is None ==> last == ProjectionView::Push(
                timeline::ItemView::Diagnostic { title: e.code@, body: e.message@ },
            )
            &&& remembered(p@, RuntimeEvent::RunFailed(e), c).compaction is None
        }),
{
}

/// A run that was cancelled is told of as such: in the place of the compaction where one was
/// under way, else where no stop was asked for.
pub proof fn cancellations_are_told_of(
    p: TuiProjector,
    e: ErrorInfo,
    c: ProjectionContext,
    plan: PlanUiState,
)
    ensures
        ({
            let changes = projected(p, RuntimeEvent::RunCancelled(e), c, plan);
            &&& p@.compaction matches Some(i) ==> {
                &&& changes.last() == ProjectionView::CompleteStopFeedback { otherwise: None }
                &&& changes.len() >= 2
                &&& changes[changes.len() - 2] matches ProjectionView::Replace(at, item) && at == i
                    && (item matches timeline::ItemView::Muted { title: _, detail } && detail
                    == e.message@)
            }
            &&& p@.compaction is None ==> changes.last() == ProjectionView::CompleteStopFeedback {
                otherwise: Some(
                    timeline::ItemView::Diagnostic { title: e.code@, body: e.message@ },
                ),
            }
            &&& remembered(p@, RuntimeEvent::RunCancelled(e), c).compaction is None
        }),
{
}

/// A compaction is one item: its end stands in the place of its beginning, and the
/// conversation gets no longer by it.
pub proof fn a_compaction_is_one_item(
    p: TuiProjector,
    q: TuiProjector,
    checkpoint_id: String,
    covered_items: u64,
    c: ProjectionContext,
    d: ProjectionContext,
    plan: PlanUiState,
    items: Seq<timeline::ItemView>,
    ended: timeline::ItemView,
)
    requires
        c.timeline_len == items.len(),
        q@ == remembered(p@, RuntimeEvent::CompactionStarted, c),
    ensures
        ({
            let begun = with_changes(
                items,
                projected(p, RuntimeEvent::CompactionStarted, c, plan),
                ended,
            );
            let over = RuntimeEvent::CompactionCompleted { checkpoint_id, covered_items };
            let done = with_changes(begun, projected(q, over, d, plan), ended);
            &&& begun.len() == items.len() + 1
            &&& begun.drop_last() == items
            &&& done.len() == items.len() + 1
            &&& done.drop_last() == items
            &&& done.last() is Muted
            &&& q@.compaction == Some(items.len() as usize)
            &&& remembered(q@, over, d).compaction is None
            &&& remembered(q@, over, d).tools == p@.tools
        }),
{
    let begins = projected(p, RuntimeEvent::CompactionStarted, c, plan);
    assert(begins =~= seq![begins[0]]);
    lemma_one_change(items, begins[0], ended);
    let begun = with_changes(items, begins, ended);
    assert(begun.drop_last() =~= items);
    let over = RuntimeEvent::CompactionCompleted { checkpoint_id, covered_items };
    let ends = projected(q, over, d, plan);
    assert(ends =~= seq![ends[0]]);
    lemma_one_change(begun, ends[0], ended);
    assert(with_changes(begun, ends, ended).drop_last() =~= items);
}

/// Messages that are taken up are confirmed in their order, each once, after the start of the
/// run.
pub proof fn taken_messages_are_confirmed_in_order(
    p: TuiProjector,
    lane: QueuedInputLane,
    texts: Vec<String>,
    c: ProjectionContext,
    plan: PlanUiState,
)
    ensures
        ({
            let changes = projected(
                p,
                RuntimeEvent::QueuedInputAccepted { lane, texts },
                c,
                plan,
            );
            &&& changes.len() == texts@.len() + 1
            &&& changes[0] == ProjectionView::ConfirmLocalRunStart
            &&& forall|k: int|
                0 <= k < texts@.len() ==> #[trigger] changes[k + 1]
                    == (ProjectionView::ConfirmOrPushUserInput { text: texts@[k]@, lane })
        }),
{
}

/// Errors of subagents are told of with their code and message; the answer that was being
/// written ends there.
pub proof fn errors_of_subagents_are_told_of(
    p: TuiProjector,
    e: ErrorInfo,
    event: RuntimeEvent,
    c: ProjectionContext,
    plan: PlanUiState,
    items: Seq<timeline::ItemView>,
    ended: timeline::ItemView,
)
    requires
        event == RuntimeEvent::SubagentFailed(e) || event == RuntimeEvent::SubagentCancelled(e),
    ensures
        with_changes(items, projected(p, event, c, plan), ended) == items.push(
            timeline::ItemView::Diagnostic { title: e.code@, body: e.message@ },
        ),
        remembered(p@, event, c).streaming is None,
        remembered(p@, event, c).tools == p@.tools,
{
    let changes = projected(p, event, c, plan);
    assert(changes =~= seq![changes[0]]);
    lemma_one_change(items, changes[0], ended);
}

/// What stands around the conversation is shown anew when it changes, and only then; the
/// conversation itself stays.
pub proof fn surroundings_are_shown_when_they_change(
    p: TuiProjector,
    event: RuntimeEvent,
    c: ProjectionContext,
    plan: PlanUiState,
)
    requires
        !(event is RunFailed || event is RunCancelled || event is Closed),
    ensures
        projected(p, event, c, plan).contains(ProjectionView::ShowRunState) <==> event
            == RuntimeEvent::RunStateChanged,
        projected(p, event, c, plan).contains(ProjectionView::ShowQueue) <==> event
            == RuntimeEvent::QueuedInputsChanged,
        projected(p, event, c, plan).contains(ProjectionView::ShowUsage) <==> event
            == RuntimeEvent::UsageUpdated,
        event is RunStateChanged || event is QueuedInputsChanged || event is UsageUpdated
            ==> projected(p, event, c, plan).len() == 1 && remembered(p@, event, c) == p@,
        event is Other || event is PlanLeaseStarted || event is PlanProgressUpdated
            || event is PlanAttemptProgressReported ==> projected(p, event, c, plan).len() == 0
            && remembered(p@, event, c) == p@,
{
    let changes = projected(p, event, c, plan);
    if event is RunStateChanged || event is QueuedInputsChanged || event is UsageUpdated {
        assert(changes.contains(changes[0]));
    }
}

/// The approval of a plan is asked for at most once by a new plan, after what there is to tell
/// of it: when the plan comes to lie open for review or to await its approval, or when the
/// approval that is open is one of another revision.
pub proof fn approvals_are_asked_for_when_a_plan_needs_them(
    p: TuiProjector,
    snapshot: PlanSnapshot,
    summary: String,
    c: ProjectionContext,
    plan: PlanUiState,
)
    ensures
        ({
            let changes = projected(p, RuntimeEvent::PlanUpdated { snapshot, summary }, c, plan);
            let asked = changes.contains(ProjectionView::OpenPlanApproval);
            let open = snapshot.phase == PlanPhase::Planning && snapshot.root_node_id is Some;
            let waits = snapshot.phase == PlanPhase::AwaitingApproval;
            &&& changes.len() <= 2
            &&& asked ==> changes.last() == ProjectionView::OpenPlanApproval
            &&& plan.snapshot is None ==> (asked <==> open || waits)
            &&& plan.snapshot matches Some(s) ==> {
                let was_open = s.phase == PlanPhase::Planning && s.root_node_id is Some;
                let waited = s.phase == PlanPhase::AwaitingApproval;
                let another = s.plan_id@ != snapshot.plan_id@ || s.revision != snapshot.revision;
                asked <==> (open && !was_open) || (waits && !waited) || (c.approval_open
                    && another)
            }
            &&& forall|k: int|
                0 <= k < changes.len() && #[trigger] changes[k] != ProjectionView::OpenPlanApproval
                    ==> changes[k] is Push
        }),
{
    let changes = projected(p, RuntimeEvent::PlanUpdated { snapshot, summary }, c, plan);
    if asks_for_approval(plan.snapshot, snapshot, c.approval_open) {
        assert(changes[changes.len() - 1] == ProjectionView::OpenPlanApproval);
    }
}

/// An item of an earlier session makes of the conversation what its event would have made of
/// it: messages and answers stand behind the others with their texts, calls behind the others,
/// and their ends in the place of the calls. When a tool was called is not known.
pub proof fn earlier_sessions_are_shown_alike(
    p: TuiProjector,
    call: ToolCall,
    t: String,
    f: ToolFinish,
    c: ProjectionContext,
    plan: PlanUiState,
)
    ensures
        transcript_projected(p, TranscriptItem::UserMessage(t), c, plan) == seq![
            ProjectionView::ConfirmOrPushUserInput { text: t@, lane: QueuedInputLane::Next },
        ],
        transcript_projected(p, TranscriptItem::AssistantText(t), c, plan) == seq![
            ProjectionView::Push(timeline::ItemView::Assistant { text: t@ }),
        ],
        transcript_projected(p, TranscriptItem::ToolCall(call), c, plan) == projected(
            p,
            RuntimeEvent::ToolCallStarted(call),
            c,
            plan,
        ),
        transcript_projected(p, TranscriptItem::ToolResult(f), c, plan) == projected(
            p,
            RuntimeEvent::ToolCallFinished(f),
            c,
            plan,
        ),
        ({
            let live = remembered(p@, RuntimeEvent::ToolCallStarted(call), c);
            let past = transcript_remembered(p@, TranscriptItem::ToolCall(call), c);
            &&& past.tools.dom() == live.tools.dom()
            &&& past.tools[call.id@] == (StartedView {
                started_at_ms: None,
                ..live.tools[call.id@]
            })
            &&& past.streaming == live.streaming
            &&& past.compaction == live.compaction
        }),
        transcript_remembered(p@, TranscriptItem::UserMessage(t), c) == p@,
        transcript_remembered(p@, TranscriptItem::AssistantText(t), c).streaming is None,
        transcript_remembered(p@, TranscriptItem::AssistantText(t), c).tools == p@.tools,
        transcript_remembered(p@, TranscriptItem::ToolResult(f), c) == remembered(
            p@,
            RuntimeEvent::ToolCallFinished(f),
            c,
        ),
{
    assert(transcript_remembered(p@, TranscriptItem::ToolCall(call), c).tools.dom()
        =~= remembered(p@, RuntimeEvent::ToolCallStarted(call), c).tools.dom());
}

} // verus!
