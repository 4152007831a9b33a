//! The lines of the plan pane: the tree and the details of one node.
use crate::plan;
use crate::plan::{PlanCounts, PlanTreeRow, PlanUiState};
use crate::plan_model;
use crate::plan_model::{
    CoordinatorDirectiveSnapshot, PlanApprovalRequirementKind, PlanApprovalRequirementSnapshot,
    PlanApprovalRequirementStatus, PlanAttemptProgressSnapshot, PlanAttemptSnapshot,
    PlanExecutionSummary, PlanExecutorPolicy, PlanLeaseSnapshot, PlanLeaseStatus,
    PlanLinkSnapshot, PlanLinkStatus, PlanNodeSnapshot, PlanNodeStatus, PlanPhase,
    PlanRevisionSummary, PlanSnapshot, SubagentActivityPhase, SubagentActivitySnapshot,
};
use crate::text;
use crate::ui;
use crate::ui::{Line, SemanticColor, Span, SpanView, Style, Tint};
use vstd::prelude::*;

verus! {

/// The longest summary of an activity that is shown.
pub const MAX_ACTIVITY_SUMMARY_CHARS: usize = 120;

/// How many revisions the details of a node list.
pub const LISTED_REVISIONS: usize = 8;

pub open spec fn phase_text(phase: PlanPhase) -> Seq<char> {
    match phase {
        PlanPhase::Planning => "planning"@,
        PlanPhase::AwaitingApproval => "awaiting approval"@,
        PlanPhase::Executing => "executing"@,
        PlanPhase::Completed => "completed"@,
        PlanPhase::Blocked => "blocked"@,
        PlanPhase::Cancelled => "cancelled"@,
    }
}

pub fn phase_label(phase: PlanPhase) -> (r: &'static str)
    ensures
        r@ == phase_text(phase),
{
    match phase {
        PlanPhase::Planning => "planning",
        PlanPhase::AwaitingApproval => "awaiting approval",
        PlanPhase::Executing => "executing",
        PlanPhase::Completed => "completed",
        PlanPhase::Blocked => "blocked",
        PlanPhase::Cancelled => "cancelled",
    }
}

pub open spec fn phase_tone(phase: PlanPhase) -> SemanticColor {
    match phase {
        PlanPhase::Planning | PlanPhase::AwaitingApproval => SemanticColor::Warning,
        PlanPhase::Executing => SemanticColor::Focus,
        PlanPhase::Completed => SemanticColor::Success,
        PlanPhase::Blocked => SemanticColor::Error,
        PlanPhase::Cancelled => SemanticColor::Muted,
    }
}

pub fn phase_color(phase: PlanPhase) -> (r: SemanticColor)
    ensures
        r == phase_tone(phase),
{
    match phase {
        PlanPhase::Planning | PlanPhase::AwaitingApproval => SemanticColor::Warning,
        PlanPhase::Executing => SemanticColor::Focus,
        PlanPhase::Completed => SemanticColor::Success,
        PlanPhase::Blocked => SemanticColor::Error,
        PlanPhase::Cancelled => SemanticColor::Muted,
    }
}

pub open spec fn status_text(status: PlanNodeStatus) -> Seq<char> {
    match status {
        PlanNodeStatus::Pending => "pending"@,
        PlanNodeStatus::InProgress => "in progress"@,
        PlanNodeStatus::Expanded => "expanded"@,
        PlanNodeStatus::Verifying => "verifying"@,
        PlanNodeStatus::Completed => "completed"@,
        PlanNodeStatus::Blocked => "blocked"@,
        PlanNodeStatus::Failed => "failed"@,
        PlanNodeStatus::Superseded => "superseded"@,
    }
}

pub fn node_status_label(status: PlanNodeStatus) -> (r: &'static str)
    ensures
        r@ == status_text(status),
{
    match status {
        PlanNodeStatus::Pending => "pending",
        PlanNodeStatus::InProgress => "in progress",
        PlanNodeStatus::Expanded => "expanded",
        PlanNodeStatus::Verifying => "verifying",
        PlanNodeStatus::Completed => "completed",
        PlanNodeStatus::Blocked => "blocked",
        PlanNodeStatus::Failed => "failed",
        PlanNodeStatus::Superseded => "superseded",
    }
}

pub open spec fn symbol(status: PlanNodeStatus, ready: bool) -> Seq<char> {
    if ready {
        "◇"@
    } else {
        match status {
            PlanNodeStatus::Pending => "o"@,
            PlanNodeStatus::InProgress | PlanNodeStatus::Verifying => "◆"@,
            PlanNodeStatus::Expanded => "◇"@,
            PlanNodeStatus::Completed => "✓"@,
            PlanNodeStatus::Blocked => "!"@,
            PlanNodeStatus::Failed => "x"@,
            PlanNodeStatus::Superseded => "~"@,
        }
    }
}

pub fn status_symbol(status: PlanNodeStatus, ready: bool) -> (r: &'static str)
    ensures
        r@ == symbol(status, ready),
{
    if ready {
        return "◇";
    }
    match status {
        PlanNodeStatus::Pending => "o",
        PlanNodeStatus::InProgress | PlanNodeStatus::Verifying => "◆",
        PlanNodeStatus::Expanded => "◇",
        PlanNodeStatus::Completed => "✓",
        PlanNodeStatus::Blocked => "!",
        PlanNodeStatus::Failed => "x",
        PlanNodeStatus::Superseded => "~",
    }
}

pub open spec fn status_tone(status: PlanNodeStatus, ready: bool) -> SemanticColor {
    if ready {
        SemanticColor::ToolKeyword
    } else {
        match status {
            PlanNodeStatus::Pending | PlanNodeStatus::Superseded => SemanticColor::Muted,
            PlanNodeStatus::InProgress
            | PlanNodeStatus::Verifying
            | PlanNodeStatus::Expanded => SemanticColor::Focus,
            PlanNodeStatus::Completed => SemanticColor::Success,
            PlanNodeStatus::Blocked => SemanticColor::Warning,
            PlanNodeStatus::Failed => SemanticColor::Error,
        }
    }
}

pub fn status_color(status: PlanNodeStatus, ready: bool) -> (r: SemanticColor)
    ensures
        r == status_tone(status, ready),
{
    if ready {
        return SemanticColor::ToolKeyword;
    }
    match status {
        PlanNodeStatus::Pending | PlanNodeStatus::Superseded => SemanticColor::Muted,
        PlanNodeStatus::InProgress | PlanNodeStatus::Verifying | PlanNodeStatus::Expanded =>
            SemanticColor::Focus,
        PlanNodeStatus::Completed => SemanticColor::Success,
        PlanNodeStatus::Blocked => SemanticColor::Warning,
        PlanNodeStatus::Failed => SemanticColor::Error,
    }
}

pub open spec fn executor_text(executor: PlanExecutorPolicy) -> Seq<char> {
    match executor {
        PlanExecutorPolicy::Local => "local"@,
        PlanExecutorPolicy::Delegate => "subagent"@,
        PlanExecutorPolicy::Auto => "auto"@,
    }
}

pub fn executor_label(executor: PlanExecutorPolicy) -> (r: &'static str)
    ensures
        r@ == executor_text(executor),
{
    match executor {
        PlanExecutorPolicy::Local => "local",
        PlanExecutorPolicy::Delegate => "subagent",
        PlanExecutorPolicy::Auto => "auto",
    }
}

pub open spec fn activity_text(phase: SubagentActivityPhase) -> Seq<char> {
    match phase {
        SubagentActivityPhase::Starting => "starting"@,
        SubagentActivityPhase::Running => "running"@,
        SubagentActivityPhase::Waiting => "waiting"@,
        SubagentActivityPhase::Completed => "completed"@,
        SubagentActivityPhase::Failed => "failed"@,
        SubagentActivityPhase::Cancelled => "cancelled"@,
    }
}

pub fn activity_phase_label(phase: SubagentActivityPhase) -> (r: &'static str)
    ensures
        r@ == activity_text(phase),
{
    match phase {
        SubagentActivityPhase::Starting => "starting",
        SubagentActivityPhase::Running => "running",
        SubagentActivityPhase::Waiting => "waiting",
        SubagentActivityPhase::Completed => "completed",
        SubagentActivityPhase::Failed => "failed",
        SubagentActivityPhase::Cancelled => "cancelled",
    }
}

pub open spec fn activity_tone(phase: SubagentActivityPhase) -> SemanticColor {
    match phase {
        SubagentActivityPhase::Starting | SubagentActivityPhase::Waiting => SemanticColor::Warning,
        SubagentActivityPhase::Running => SemanticColor::Focus,
        SubagentActivityPhase::Completed => SemanticColor::Success,
        SubagentActivityPhase::Failed => SemanticColor::Error,
        SubagentActivityPhase::Cancelled => SemanticColor::Muted,
    }
}

pub fn activity_phase_color(phase: SubagentActivityPhase) -> (r: SemanticColor)
    ensures
        r == activity_tone(phase),
{
    match phase {
        SubagentActivityPhase::Starting | SubagentActivityPhase::Waiting => SemanticColor::Warning,
        SubagentActivityPhase::Running => SemanticColor::Focus,
        SubagentActivityPhase::Completed => SemanticColor::Success,
        SubagentActivityPhase::Failed => SemanticColor::Error,
        SubagentActivityPhase::Cancelled => SemanticColor::Muted,
    }
}

pub open spec fn approval_text(kind: PlanApprovalRequirementKind) -> Seq<char> {
    match kind {
        PlanApprovalRequirementKind::UserReviewRequested => "user review"@,
        PlanApprovalRequirementKind::SkillReviewRequested { .. } => "skill review"@,
        PlanApprovalRequirementKind::RootObjectiveChange => "root objective change"@,
        PlanApprovalRequirementKind::RootAcceptanceChange => "root acceptance change"@,
        PlanApprovalRequirementKind::CapabilityOrPermissionExpansion => "permission expansion"@,
        PlanApprovalRequirementKind::DestructiveExternalAuthority => "destructive authority"@,
        PlanApprovalRequirementKind::RequiredExternalInput { .. } => "external input"@,
    }
}

pub fn approval_kind(kind: &PlanApprovalRequirementKind) -> (r: &'static str)
    ensures
        r@ == approval_text(*kind),
{
    match kind {
        PlanApprovalRequirementKind::UserReviewRequested => "user review",
        PlanApprovalRequirementKind::SkillReviewRequested { .. } => "skill review",
        PlanApprovalRequirementKind::RootObjectiveChange => "root objective change",
        PlanApprovalRequirementKind::RootAcceptanceChange => "root acceptance change",
        PlanApprovalRequirementKind::CapabilityOrPermissionExpansion => "permission expansion",
        PlanApprovalRequirementKind::DestructiveExternalAuthority => "destructive authority",
        PlanApprovalRequirementKind::RequiredExternalInput { .. } => "external input",
    }
}

pub open spec fn approval_status_text(status: PlanApprovalRequirementStatus) -> Seq<char> {
    match status {
        PlanApprovalRequirementStatus::Pending => "Pending"@,
        PlanApprovalRequirementStatus::Other(name) => name@,
    }
}

fn approval_status_name(status: &PlanApprovalRequirementStatus) -> (r: &str)
    ensures
        r@ == approval_status_text(*status),
{
    match status {
        PlanApprovalRequirementStatus::Pending => "Pending",
        PlanApprovalRequirementStatus::Other(name) => name.as_str(),
    }
}

pub open spec fn lease_status_text(status: PlanLeaseStatus) -> Seq<char> {
    match status {
        PlanLeaseStatus::Live => "Live"@,
        PlanLeaseStatus::Other(name) => name@,
    }
}

fn lease_status_name(status: &PlanLeaseStatus) -> (r: &str)
    ensures
        r@ == lease_status_text(*status),
{
    match status {
        PlanLeaseStatus::Live => "Live",
        PlanLeaseStatus::Other(name) => name.as_str(),
    }
}

pub open spec fn link_status_text(status: PlanLinkStatus) -> Seq<char> {
    match status {
        PlanLinkStatus::Active => "active"@,
        PlanLinkStatus::Completed => "completed"@,
        PlanLinkStatus::Failed => "failed"@,
        PlanLinkStatus::Cancelled => "cancelled"@,
        PlanLinkStatus::Superseded => "superseded"@,
    }
}

fn link_status_label(status: PlanLinkStatus) -> (r: &'static str)
    ensures
        r@ == link_status_text(status),
{
    match status {
        PlanLinkStatus::Active => "active",
        PlanLinkStatus::Completed => "completed",
        PlanLinkStatus::Failed => "failed",
        PlanLinkStatus::Cancelled => "cancelled",
        PlanLinkStatus::Superseded => "superseded",
    }
}

/// A text cut to `limit` characters, dots in place of the last three.
pub open spec fn compacted(value: Seq<char>, limit: int) -> Seq<char> {
    if value.len() <= limit {
        value
    } else {
        value.take(limit - 3) + "..."@
    }
}

/// An id that fits into the title of a pane.
pub fn compact_id(value: &str, width: u16) -> (r: String)
    ensures
        r@ == compacted(
            value@,
            if width >= 26 {
                width - 18
            } else {
                8
            },
        ),
{
    let limit: usize = if width.saturating_sub(18) as usize > 8 {
        width.saturating_sub(18) as usize
    } else {
        8
    };
    let chars = text::chars_of(value);
    if chars.len() <= limit {
        value.to_owned()
    } else {
        proof {
            assert(chars@.subrange(0, limit - 3) =~= value@.take(limit - 3));
        }
        text::cat2(text::text_of(&chars, 0, limit - 3).as_str(), "...")
    }
}

/// A summary cut to the longest that is shown, with dots behind what is cut.
pub open spec fn bounded(summary: Seq<char>) -> Seq<char> {
    if summary.len() <= MAX_ACTIVITY_SUMMARY_CHARS {
        summary
    } else {
        summary.take(MAX_ACTIVITY_SUMMARY_CHARS as int) + "..."@
    }
}

pub fn bounded_activity_summary(summary: &str) -> (r: String)
    ensures
        r@ == bounded(summary@),
{
    let chars = text::chars_of(summary);
    if chars.len() <= MAX_ACTIVITY_SUMMARY_CHARS {
        summary.to_owned()
    } else {
        proof {
            assert(chars@.subrange(0, MAX_ACTIVITY_SUMMARY_CHARS as int) =~= summary@.take(
                MAX_ACTIVITY_SUMMARY_CHARS as int,
            ));
        }
        text::cat2(text::text_of(&chars, 0, MAX_ACTIVITY_SUMMARY_CHARS).as_str(), "...")
    }
}

/// A number with at least two digits.
pub open spec fn two_digits(n: nat) -> Seq<char> {
    if n < 10 {
        "0"@ + text::decimal(n)
    } else {
        text::decimal(n)
    }
}

fn two_digit_text(n: u64) -> (r: String)
    ensures
        r@ == two_digits(n as nat),
{
    if n < 10 {
        text::cat2("0", text::decimal_text(n).as_str())
    } else {
        text::decimal_text(n)
    }
}

/// A span of time in its two largest units.
pub open spec fn duration_text(milliseconds: nat) -> Seq<char> {
    let seconds = milliseconds / 1000;
    let hours = seconds / 3600;
    let minutes = (seconds % 3600) / 60;
    if hours > 0 {
        text::decimal(hours) + "h "@ + two_digits(minutes) + "m"@
    } else if minutes > 0 {
        text::decimal(minutes) + "m "@ + two_digits(seconds % 60) + "s"@
    } else {
        text::decimal(seconds % 60) + "s"@
    }
}

pub fn duration(milliseconds: u64) -> (r: String)
    ensures
        r@ == duration_text(milliseconds as nat),
{
    let seconds: u64 = milliseconds / 1000;
    let hours: u64 = seconds / 3600;
    let minutes: u64 = (seconds % 3600) / 60;
    let rest: u64 = seconds % 60;
    if hours > 0 {
        text::cat4(
            text::decimal_text(hours).as_str(),
            "h ",
            two_digit_text(minutes).as_str(),
            "m",
        )
    } else if minutes > 0 {
        text::cat4(
            text::decimal_text(minutes).as_str(),
            "m ",
            two_digit_text(rest).as_str(),
            "s",
        )
    } else {
        text::cat2(text::decimal_text(rest).as_str(), "s")
    }
}

pub type Lines = Seq<Seq<SpanView>>;

/// The lines with a heading, and an empty line before it where there are lines already.
pub open spec fn add_section(lines: Lines, label: Seq<char>) -> Lines {
    let heading = seq![ui::span(label, ui::colored(SemanticColor::ToolKeyword).bolded())];
    if lines.len() == 0 {
        lines.push(heading)
    } else {
        lines.push(Seq::empty()).push(heading)
    }
}

pub open spec fn add_text(lines: Lines, value: Seq<char>) -> Lines {
    lines.push(seq![ui::span(value, ui::colored(SemanticColor::Assistant))])
}

pub open spec fn add_muted(lines: Lines, value: Seq<char>) -> Lines {
    lines.push(seq![ui::span(value, ui::colored(SemanticColor::Muted))])
}

pub open spec fn add_key_value(lines: Lines, key: Seq<char>, value: Seq<char>) -> Lines {
    lines.push(
        seq![
            ui::span(key + ": "@, ui::colored(SemanticColor::Muted)),
            ui::span(value, ui::colored(SemanticColor::Assistant)),
        ],
    )
}

pub open spec fn add_values(lines: Lines, key: Seq<char>, values: Seq<Seq<char>>) -> Lines {
    let joined = text::join(values, ", "@);
    add_key_value(
        lines,
        key,
        if joined.len() == 0 {
            "none"@
        } else {
            joined
        },
    )
}

/// One line for each value.
pub open spec fn add_items(lines: Lines, values: Seq<Seq<char>>) -> Lines
    decreases values.len(),
{
    if values.len() == 0 {
        lines
    } else {
        add_text(add_items(lines, values.drop_last()), "- "@ + values.last())
    }
}

pub open spec fn add_list(lines: Lines, values: Seq<Seq<char>>, empty: Seq<char>) -> Lines {
    if values.len() == 0 {
        add_muted(lines, empty)
    } else {
        add_items(lines, values)
    }
}

fn section(lines: &mut Vec<Line>, label: &str)
    ensures
        ui::line_views(final(lines)@) == add_section(ui::line_views(old(lines)@), label@),
{
    proof {
        assert(ui::line_views(lines@).len() == lines@.len());
    }
    if lines.len() > 0 {
        ui::push_line(lines, Line::empty());
    }
    ui::push_line(
        lines,
        Line::one(Span::of(label, Style::color(SemanticColor::ToolKeyword).bold())),
    );
}

fn text_line(lines: &mut Vec<Line>, value: &str)
    ensures
        ui::line_views(final(lines)@) == add_text(ui::line_views(old(lines)@), value@),
{
    ui::push_line(lines, Line::one(Span::of(value, Style::color(SemanticColor::Assistant))));
}

fn muted(lines: &mut Vec<Line>, value: &str)
    ensures
        ui::line_views(final(lines)@) == add_muted(ui::line_views(old(lines)@), value@),
{
    ui::push_line(lines, Line::one(Span::of(value, Style::color(SemanticColor::Muted))));
}

fn key_value(lines: &mut Vec<Line>, key: &str, value: &str)
    ensures
        ui::line_views(final(lines)@) == add_key_value(ui::line_views(old(lines)@), key@, value@),
{
    ui::push_line(
        lines,
        Line::two(
            Span::styled(text::cat2(key, ": "), Style::color(SemanticColor::Muted)),
            Span::of(value, Style::color(SemanticColor::Assistant)),
        ),
    );
}

fn named_values(lines: &mut Vec<Line>, key: &str, values: &Vec<String>)
    ensures
        ui::line_views(final(lines)@) == add_values(
            ui::line_views(old(lines)@),
            key@,
            text::views(values@),
        ),
{
    let joined = text::join_texts(values, ", ");
    if joined.as_str().is_empty() {
        key_value(lines, key, "none");
    } else {
        key_value(lines, key, joined.as_str());
    }
}

fn list(lines: &mut Vec<Line>, values: &Vec<String>, empty: &str)
    ensures
        ui::line_views(final(lines)@) == add_list(
            ui::line_views(old(lines)@),
            text::views(values@),
            empty@,
        ),
{
    proof {
        assert(text::views(values@).len() == values@.len());
    }
    if values.len() == 0 {
        muted(lines, empty);
        return ;
    }
    let ghost start = ui::line_views(lines@);
    let ghost all = text::views(values@);
    let mut i: usize = 0;
    while i < values.len()
        invariant
            i <= values@.len(),
            all == text::views(values@),
            ui::line_views(lines@) == add_items(start, all.take(i as int)),
        decreases values@.len() - i,
    {
        proof {
            assert(all.take(i + 1).drop_last() =~= all.take(i as int));
            assert(all.take(i + 1).last() == values@[i as int]@);
        }
        text_line(lines, text::cat2("- ", values[i].as_str()).as_str());
        i += 1;
    }
    proof {
        assert(all.take(i as int) =~= all);
    }
}

/// An optional text, or what stands in its place.
pub open spec fn or_else(o: Option<String>, other: Seq<char>) -> Seq<char> {
    match o {
        Some(s) => s@,
        None => other,
    }
}

fn text_or<'a>(o: &'a Option<String>, other: &'a str) -> (r: &'a str)
    ensures
        r@ == or_else(*o, other@),
{
    match o {
        Some(s) => s.as_str(),
        None => other,
    }
}

pub open spec fn dependency_status(nodes: Seq<PlanNodeSnapshot>, id: Seq<char>) -> Seq<char> {
    match plan_model::first_with_key(nodes, id) {
        Some(i) => status_text(nodes[i].status),
        None => "missing"@,
    }
}

pub open spec fn add_dependencies(
    lines: Lines,
    nodes: Seq<PlanNodeSnapshot>,
    ids: Seq<Seq<char>>,
) -> Lines
    decreases ids.len(),
{
    if ids.len() == 0 {
        lines
    } else {
        add_text(
            add_dependencies(lines, nodes, ids.drop_last()),
            "- "@ + ids.last() + "  "@ + dependency_status(nodes, ids.last()),
        )
    }
}

fn dependencies(lines: &mut Vec<Line>, nodes: &Vec<PlanNodeSnapshot>, ids: &Vec<String>)
    ensures
        ui::line_views(final(lines)@) == add_dependencies(
            ui::line_views(old(lines)@),
            nodes@,
            text::views(ids@),
        ),
{
    let ghost start = ui::line_views(lines@);
    let ghost all = text::views(ids@);
    let mut i: usize = 0;
    proof {
        assert(all.take(0) =~= Seq::<Seq<char>>::empty());
    }
    while i < ids.len()
        invariant
            i <= ids@.len(),
            all == text::views(ids@),
            ui::line_views(lines@) == add_dependencies(start, nodes@, all.take(i as int)),
        decreases ids@.len() - i,
    {
        proof {
            assert(all.take(i + 1).drop_last() =~= all.take(i as int));
            assert(all.take(i + 1).last() == ids@[i as int]@);
        }
        let status = match plan_model::find_by_key(nodes, ids[i].as_str()) {
            Some(k) => node_status_label(nodes[k].status),
            None => "missing",
        };
        text_line(lines, text::cat4("- ", ids[i].as_str(), "  ", status).as_str());
        i += 1;
    }
    proof {
        assert(all.take(i as int) =~= all);
    }
}

pub open spec fn terminal_text(at: Option<u64>) -> Seq<char> {
    match at {
        Some(ms) => "  terminal @ "@ + text::decimal(ms as nat) + " ms"@,
        None => Seq::empty(),
    }
}

pub open spec fn add_link(lines: Lines, link: PlanLinkSnapshot) -> Lines {
    add_muted(
        add_text(
            lines,
            "- "@ + link_status_text(link.status) + "  agent "@ + link.subagent_id@ + "  task "@
                + link.task_id@,
        ),
        "  binding "@ + link.binding_id@ + "  linked @ "@ + text::decimal(link.linked_at_ms as nat)
            + " ms"@ + terminal_text(link.terminal_at_ms),
    )
}

pub open spec fn add_links(lines: Lines, links: Seq<PlanLinkSnapshot>) -> Lines
    decreases links.len(),
{
    if links.len() == 0 {
        lines
    } else {
        add_link(add_links(lines, links.drop_last()), links.last())
    }
}

fn linked_subagent_lines(lines: &mut Vec<Line>, link: &PlanLinkSnapshot)
    ensures
        ui::line_views(final(lines)@) == add_link(ui::line_views(old(lines)@), *link),
{
    text_line(
        lines,
        text::cat6(
            "- ",
            link_status_label(link.status),
            "  agent ",
            link.subagent_id.as_str(),
            "  task ",
            link.task_id.as_str(),
        ).as_str(),
    );
    let terminal = match link.terminal_at_ms {
        Some(ms) => text::cat3("  terminal @ ", text::decimal_text(ms).as_str(), " ms"),
        None => String::new(),
    };
    muted(
        lines,
        text::cat6(
            "  binding ",
            link.binding_id.as_str(),
            "  linked @ ",
            text::decimal_text(link.linked_at_ms).as_str(),
            " ms",
            terminal.as_str(),
        ).as_str(),
    );
}

pub open spec fn add_activity(lines: Lines, activity: SubagentActivitySnapshot) -> Lines {
    lines.push(
        seq![
            ui::span("  latest: "@, ui::colored(SemanticColor::Muted)),
            ui::span(
                activity_text(activity.phase) + "  "@,
                ui::colored(activity_tone(activity.phase)),
            ),
            ui::span(bounded(activity.summary@), ui::colored(SemanticColor::Assistant)),
        ],
    )
}

fn linked_activity_line(lines: &mut Vec<Line>, activity: &SubagentActivitySnapshot)
    ensures
        ui::line_views(final(lines)@) == add_activity(ui::line_views(old(lines)@), *activity),
{
    ui::push_line(
        lines,
        Line::three(
            Span::of("  latest: ", Style::color(SemanticColor::Muted)),
            Span::styled(
                text::cat2(activity_phase_label(activity.phase), "  "),
                Style::color(activity_phase_color(activity.phase)),
            ),
            Span::styled(
                bounded_activity_summary(activity.summary.as_str()),
                Style::color(SemanticColor::Assistant),
            ),
        ),
    );
}

pub open spec fn execution_text(summary: PlanExecutionSummary) -> Seq<char> {
    "active "@ + text::decimal(summary.active as nat) + "  completed "@ + text::decimal(
        summary.completed as nat,
    ) + "  failed "@ + text::decimal(summary.failed as nat) + ("  cancelled "@ + text::decimal(
        summary.cancelled as nat,
    ))
}

pub fn format_execution_summary(summary: &PlanExecutionSummary) -> (r: String)
    ensures
        r@ == execution_text(*summary),
{
    text::cat7(
        "active ",
        text::decimal_text(summary.active as u64).as_str(),
        "  completed ",
        text::decimal_text(summary.completed as u64).as_str(),
        "  failed ",
        text::decimal_text(summary.failed as u64).as_str(),
        text::cat2("  cancelled ", text::decimal_text(summary.cancelled as u64).as_str()).as_str(),
    )
}

pub open spec fn add_lease(lines: Lines, lease: PlanLeaseSnapshot) -> Lines {
    add_muted(
        add_text(
            lines,
            text::lower(
                "- "@ + lease_status_text(lease.status) + "  "@ + lease.lease_id@ + "  subagent "@
                    + lease.executor_session_id@,
            ),
        ),
        "  heartbeat @ "@ + text::decimal(lease.last_heartbeat_at_ms as nat) + " ms"@,
    )
}

fn lease_lines(lines: &mut Vec<Line>, lease: &PlanLeaseSnapshot)
    ensures
        ui::line_views(final(lines)@) == add_lease(ui::line_views(old(lines)@), *lease),
{
    let line = text::cat6(
        "- ",
        lease_status_name(&lease.status),
        "  ",
        lease.lease_id.as_str(),
        "  subagent ",
        lease.executor_session_id.as_str(),
    );
    text_line(lines, text::to_lower(line.as_str()).as_str());
    muted(
        lines,
        text::cat3(
            "  heartbeat @ ",
            text::decimal_text(lease.last_heartbeat_at_ms).as_str(),
            " ms",
        ).as_str(),
    );
}

/// The leases of a node, one after the other.
pub open spec fn add_leases(lines: Lines, leases: Seq<PlanLeaseSnapshot>, id: Seq<char>) -> Lines
    decreases leases.len(),
{
    if leases.len() == 0 {
        lines
    } else {
        let init = add_leases(lines, leases.drop_last(), id);
        if leases.last().node_id@ == id {
            add_lease(init, leases.last())
        } else {
            init
        }
    }
}

pub open spec fn add_attempt(lines: Lines, attempt: PlanAttemptSnapshot) -> Lines {
    let l1 = add_text(
        lines,
        "- "@ + attempt.attempt_id@ + "  "@ + match attempt.outcome {
            Some(name) => text::lower(name@),
            None => "running"@,
        },
    );
    let l2 = match attempt.latest_checkpoint_ref {
        Some(c) => add_muted(l1, "  checkpoint "@ + c@),
        None => l1,
    };
    match attempt.diagnostic {
        Some(d) => add_text(l2, "  "@ + d.code@ + ": "@ + d.message@),
        None => l2,
    }
}

fn attempt_lines(lines: &mut Vec<Line>, attempt: &PlanAttemptSnapshot)
    ensures
        ui::line_views(final(lines)@) == add_attempt(ui::line_views(old(lines)@), *attempt),
{
    let outcome = match &attempt.outcome {
        Some(name) => text::to_lower(name.as_str()),
        None => "running".to_owned(),
    };
    text_line(
        lines,
        text::cat4("- ", attempt.attempt_id.as_str(), "  ", outcome.as_str()).as_str(),
    );
    match &attempt.latest_checkpoint_ref {
        Some(c) => muted(lines, text::cat2("  checkpoint ", c.as_str()).as_str()),
        None => {},
    }
    match &attempt.diagnostic {
        Some(d) => text_line(
            lines,
            text::cat4("  ", d.code.as_str(), ": ", d.message.as_str()).as_str(),
        ),
        None => {},
    }
}

pub open spec fn add_attempts(
    lines: Lines,
    attempts: Seq<PlanAttemptSnapshot>,
    id: Seq<char>,
) -> Lines
    decreases attempts.len(),
{
    if attempts.len() == 0 {
        lines
    } else {
        let init = add_attempts(lines, attempts.drop_last(), id);
        if attempts.last().node_id@ == id {
            add_attempt(init, attempts.last())
        } else {
            init
        }
    }
}

pub open spec fn flight_text(provider: bool, tool: bool) -> Seq<char> {
    if provider && tool {
        "provider and tool in flight"@
    } else if provider {
        "provider request in flight"@
    } else if tool {
        "tool call in flight"@
    } else {
        "idle at a safe boundary"@
    }
}

pub open spec fn add_progress(lines: Lines, p: PlanAttemptProgressSnapshot) -> Lines {
    let l1 = add_text(
        lines,
        "- elapsed "@ + duration_text(p.elapsed_ms as nat) + "  turns "@ + text::decimal(
            p.model_turns as nat,
        ) + "  artifacts "@ + text::decimal(p.artifacts_created as nat),
    );
    let l2 = match p.summary {
        Some(s) => add_text(l1, "  "@ + s@),
        None => l1,
    };
    let l3 = match p.next_action {
        Some(s) => add_muted(l2, "  next: "@ + s@),
        None => l2,
    };
    let l4 = add_muted(
        l3,
        "  "@ + flight_text(p.provider_request_in_flight, p.tool_call_in_flight),
    );
    match p.last_durable_progress_at_ms {
        Some(ms) => add_muted(l4, "  durable progress @ "@ + text::decimal(ms as nat) + " ms"@),
        None => l4,
    }
}

fn progress_lines(lines: &mut Vec<Line>, p: &PlanAttemptProgressSnapshot)
    ensures
        ui::line_views(final(lines)@) == add_progress(ui::line_views(old(lines)@), *p),
{
    text_line(
        lines,
        text::cat6(
            "- elapsed ",
            duration(p.elapsed_ms).as_str(),
            "  turns ",
            text::decimal_text(p.model_turns).as_str(),
            "  artifacts ",
            text::decimal_text(p.artifacts_created).as_str(),
        ).as_str(),
    );
    match &p.summary {
        Some(s) => text_line(lines, text::cat2("  ", s.as_str()).as_str()),
        None => {},
    }
    match &p.next_action {
        Some(s) => muted(lines, text::cat2("  next: ", s.as_str()).as_str()),
        None => {},
    }
    let activity = if p.provider_request_in_flight && p.tool_call_in_flight {
        "provider and tool in flight"
    } else if p.provider_request_in_flight {
        "provider request in flight"
    } else if p.tool_call_in_flight {
        "tool call in flight"
    } else {
        "idle at a safe boundary"
    };
    muted(lines, text::cat2("  ", activity).as_str());
    match p.last_durable_progress_at_ms {
        Some(ms) => muted(
            lines,
            text::cat3("  durable progress @ ", text::decimal_text(ms).as_str(), " ms").as_str(),
        ),
        None => {},
    }
}

pub open spec fn add_reports(
    lines: Lines,
    reports: Seq<PlanAttemptProgressSnapshot>,
    id: Seq<char>,
) -> Lines
    decreases reports.len(),
{
    if reports.len() == 0 {
        lines
    } else {
        let init = add_reports(lines, reports.drop_last(), id);
        if reports.last().node_id@ == id {
            add_progress(init, reports.last())
        } else {
            init
        }
    }
}

pub open spec fn add_directive(lines: Lines, d: CoordinatorDirectiveSnapshot) -> Lines {
    let l1 = add_text(
        lines,
        text::lower(
            "- #"@ + text::decimal(d.sequence as nat) + " "@ + d.kind@ + "  "@ + d.status@,
        ),
    );
    let l2 = add_text(l1, "  "@ + d.reason@);
    match d.instruction {
        Some(i) => add_muted(l2, "  "@ + i@),
        None => l2,
    }
}

fn directive_lines(lines: &mut Vec<Line>, d: &CoordinatorDirectiveSnapshot)
    ensures
        ui::line_views(final(lines)@) == add_directive(ui::line_views(old(lines)@), *d),
{
    let line = text::cat6(
        "- #",
        text::decimal_text(d.sequence).as_str(),
        " ",
        d.kind.as_str(),
        "  ",
        d.status.as_str(),
    );
    text_line(lines, text::to_lower(line.as_str()).as_str());
    text_line(lines, text::cat2("  ", d.reason.as_str()).as_str());
    match &d.instruction {
        Some(i) => muted(lines, text::cat2("  ", i.as_str()).as_str()),
        None => {},
    }
}

pub open spec fn add_directives(
    lines: Lines,
    directives: Seq<CoordinatorDirectiveSnapshot>,
    id: Seq<char>,
) -> Lines
    decreases directives.len(),
{
    if directives.len() == 0 {
        lines
    } else {
        let init = add_directives(lines, directives.drop_last(), id);
        if directives.last().node_id@ == id {
            add_directive(init, directives.last())
        } else {
            init
        }
    }
}

pub open spec fn add_approvals(
    lines: Lines,
    approvals: Seq<PlanApprovalRequirementSnapshot>,
) -> Lines
    decreases approvals.len(),
{
    if approvals.len() == 0 {
        lines
    } else {
        add_text(
            add_approvals(lines, approvals.drop_last()),
            text::lower(
                "- "@ + approval_text(approvals.last().kind) + "  "@ + approval_status_text(
                    approvals.last().status,
                ),
            ),
        )
    }
}

/// The last revisions, the latest first, up to `n` of them.
pub open spec fn add_revisions(lines: Lines, revisions: Seq<PlanRevisionSummary>, n: nat) -> Lines
    decreases n,
{
    if n == 0 || revisions.len() == 0 {
        lines
    } else {
        add_revisions(
            add_text(
                lines,
                "- r"@ + text::decimal(revisions.last().revision as nat) + " "@
                    + revisions.last().summary@,
            ),
            revisions.drop_last(),
            (n - 1) as nat,
        )
    }
}

/// `a` where nothing of the kind concerns the node, else what `b` lists.
pub open spec fn or_none(before: Lines, listed: Lines, none: Seq<char>) -> Lines {
    if listed == before {
        add_muted(before, none)
    } else {
        listed
    }
}

/// The details of a node, section by section.
pub open spec fn inspector(
    plan: PlanUiState,
    snapshot: PlanSnapshot,
    node: PlanNodeSnapshot,
) -> Lines {
    let l = add_section(Seq::empty(), "OBJECTIVE"@);
    let l = add_text(l, node.objective@);
    let l = add_key_value(
        l,
        "state"@,
        status_text(node.status) + "  executor "@ + executor_text(node.executor_policy)
            + "  node r"@ + text::decimal(node.updated_revision as nat),
    );
    let l = add_section(l, "ACCEPTANCE"@);
    let l = add_list(l, text::views(node.acceptance@), "No acceptance checks recorded"@);
    let l = add_section(l, "DEPENDENCIES"@);
    let l = if node.depends_on@.len() == 0 {
        add_muted(l, "None"@)
    } else {
        add_dependencies(l, snapshot.nodes@, text::views(node.depends_on@))
    };
    let l = add_section(l, "HARNESS"@);
    let l = add_key_value(l, "model"@, or_else(node.harness.model_role, "inherited"@));
    let l = add_key_value(l, "reasoning"@, or_else(node.harness.reasoning_effort, "inherited"@));
    let l = add_key_value(
        l,
        "checkpoint turns"@,
        match node.harness.checkpoint_turn_interval {
            Some(n) => text::decimal(n as nat),
            None => "inherited"@,
        },
    );
    let l = add_values(l, "tools"@, text::views(node.harness.allowed_tools@));
    let l = add_values(l, "read"@, text::views(node.harness.read_scope@));
    let l = add_values(l, "write"@, text::views(node.harness.write_scope@));
    let l = add_values(l, "forbidden"@, text::views(node.harness.forbidden_paths@));
    let l = add_section(l, "LINKED SUBAGENTS"@);
    let l = if node.links@.len() == 0 {
        add_muted(l, "No subagent is linked to this Plan task"@)
    } else {
        let l = add_links(l, node.links@);
        let l = match plan::node_report(plan.subagent_activity@, node.links@) {
            Some(r) => add_activity(l, plan.subagent_activity@[r]),
            None => l,
        };
        add_key_value(l, "runtime summary"@, execution_text(node.execution_summary))
    };
    let l = add_section(l, "LEGACY LEASE EVIDENCE"@);
    let l = or_none(l, add_leases(l, snapshot.leases@, node.id@), "No leases"@);
    let l = add_section(l, "LEGACY ATTEMPTS"@);
    let l = or_none(l, add_attempts(l, snapshot.attempts@, node.id@), "No attempts"@);
    let l = add_section(l, "LEGACY PROGRESS"@);
    let l = or_none(
        l,
        add_reports(l, snapshot.attempt_progress@, node.id@),
        "No progress report"@,
    );
    let l = add_section(l, "LEGACY DIRECTIVES"@);
    let l = or_none(l, add_directives(l, snapshot.directives@, node.id@), "None"@);
    let l = add_section(l, "APPROVALS"@);
    let l = if snapshot.approval_requirements@.len() == 0 {
        add_muted(l, "No approval requirements"@)
    } else {
        add_approvals(l, snapshot.approval_requirements@)
    };
    let l = add_section(l, "RESULT"@);
    let l = match node.result {
        Some(result) => {
            let l = add_text(l, result.conclusion@);
            let l = add_list(l, text::views(result.verification@), "No verification recorded"@);
            let l = add_values(l, "changed"@, text::views(result.changed_paths@));
            add_list(l, text::views(result.open_questions@), "No open questions"@)
        },
        None => add_muted(l, "No terminal result"@),
    };
    let l = add_section(l, "REVISIONS"@);
    let l = add_key_value(
        l,
        "node"@,
        "created r"@ + text::decimal(node.created_revision as nat) + "  updated r"@
            + text::decimal(node.updated_revision as nat),
    );
    add_revisions(l, snapshot.revision_summaries@, LISTED_REVISIONS as nat)
}

fn all_links(lines: &mut Vec<Line>, links: &Vec<PlanLinkSnapshot>)
    ensures
        ui::line_views(final(lines)@) == add_links(ui::line_views(old(lines)@), links@),
{
    let ghost start = ui::line_views(lines@);
    let mut i: usize = 0;
    proof {
        assert(links@.take(0) =~= Seq::<PlanLinkSnapshot>::empty());
    }
    while i < links.len()
        invariant
            i <= links@.len(),
            ui::line_views(lines@) == add_links(start, links@.take(i as int)),
        decreases links@.len() - i,
    {
        proof {
            assert(links@.take(i + 1).drop_last() =~= links@.take(i as int));
        }
        linked_subagent_lines(lines, &links[i]);
        i += 1;
    }
    proof {
        assert(links@.take(i as int) =~= links@);
    }
}

proof fn lemma_leases_grow(lines: Lines, leases: Seq<PlanLeaseSnapshot>, id: Seq<char>)
    ensures
        add_leases(lines, leases, id).len() >= lines.len(),
        add_leases(lines, leases, id).len() == lines.len() ==> add_leases(lines, leases, id)
            == lines,
    decreases leases.len(),
{
    if leases.len() > 0 {
        lemma_leases_grow(lines, leases.drop_last(), id);
    }
}

proof fn lemma_attempts_grow(lines: Lines, attempts: Seq<PlanAttemptSnapshot>, id: Seq<char>)
    ensures
        add_attempts(lines, attempts, id).len() >= lines.len(),
        add_attempts(lines, attempts, id).len() == lines.len() ==> add_attempts(lines, attempts, id)
            == lines,
    decreases attempts.len(),
{
    if attempts.len() > 0 {
        lemma_attempts_grow(lines, attempts.drop_last(), id);
    }
}

proof fn lemma_reports_grow(lines: Lines, reports: Seq<PlanAttemptProgressSnapshot>, id: Seq<char>)
    ensures
        add_reports(lines, reports, id).len() >= lines.len(),
        add_reports(lines, reports, id).len() == lines.len() ==> add_reports(lines, reports, id)
            == lines,
    decreases reports.len(),
{
    if reports.len() > 0 {
        lemma_reports_grow(lines, reports.drop_last(), id);
    }
}

proof fn lemma_directives_grow(
    lines: Lines,
    directives: Seq<CoordinatorDirectiveSnapshot>,
    id: Seq<char>,
)
    ensures
        add_directives(lines, directives, id).len() >= lines.len(),
        add_directives(lines, directives, id).len() == lines.len() ==> add_directives(
            lines,
            directives,
            id,
        ) == lines,
    decreases directives.len(),
{
    if directives.len() > 0 {
        lemma_directives_grow(lines, directives.drop_last(), id);
    }
}

fn node_leases(lines: &mut Vec<Line>, leases: &Vec<PlanLeaseSnapshot>, id: &str)
    ensures
        ui::line_views(final(lines)@) == ({
            let l = ui::line_views(old(lines)@);
            or_none(l, add_leases(l, leases@, id@), "No leases"@)
        }),
{
    let ghost start = ui::line_views(lines@);
    let mut found = false;
    let mut i: usize = 0;
    proof {
        assert(leases@.take(0) =~= Seq::<PlanLeaseSnapshot>::empty());
    }
    while i < leases.len()
        invariant
            i <= leases@.len(),
            ui::line_views(lines@) == add_leases(start, leases@.take(i as int), id@),
            found == (ui::line_views(lines@) != start),
        decreases leases@.len() - i,
    {
        proof {
            assert(leases@.take(i + 1).drop_last() =~= leases@.take(i as int));
            lemma_leases_grow(start, leases@.take(i as int), id@);
            lemma_leases_grow(start, leases@.take(i + 1), id@);
        }
        if text::same(leases[i].node_id.as_str(), id) {
            lease_lines(lines, &leases[i]);
            found = true;
        }
        i += 1;
    }
    proof {
        assert(leases@.take(i as int) =~= leases@);
    }
    if !found {
        muted(lines, "No leases");
    }
}

fn node_attempts(lines: &mut Vec<Line>, attempts: &Vec<PlanAttemptSnapshot>, id: &str)
    ensures
        ui::line_views(final(lines)@) == ({
            let l = ui::line_views(old(lines)@);
            or_none(l, add_attempts(l, attempts@, id@), "No attempts"@)
        }),
{
    let ghost start = ui::line_views(lines@);
    let mut found = false;
    let mut i: usize = 0;
    proof {
        assert(attempts@.take(0) =~= Seq::<PlanAttemptSnapshot>::empty());
    }
    while i < attempts.len()
        invariant
            i <= attempts@.len(),
            ui::line_views(lines@) == add_attempts(start, attempts@.take(i as int), id@),
            found == (ui::line_views(lines@) != start),
        decreases attempts@.len() - i,
    {
        proof {
            assert(attempts@.take(i + 1).drop_last() =~= attempts@.take(i as int));
            lemma_attempts_grow(start, attempts@.take(i as int), id@);
            lemma_attempts_grow(start, attempts@.take(i + 1), id@);
        }
        if text::same(attempts[i].node_id.as_str(), id) {
            attempt_lines(lines, &attempts[i]);
            found = true;
        }
        i += 1;
    }
    proof {
        assert(attempts@.take(i as int) =~= attempts@);
    }
    if !found {
        muted(lines, "No attempts");
    }
}

fn node_reports(lines: &mut Vec<Line>, reports: &Vec<PlanAttemptProgressSnapshot>, id: &str)
    ensures
        ui::line_views(final(lines)@) == ({
            let l = ui::line_views(old(lines)@);
            or_none(l, add_reports(l, reports@, id@), "No progress report"@)
        }),
{
    let ghost start = ui::line_views(lines@);
    let mut found = false;
    let mut i: usize = 0;
    proof {
        assert(reports@.take(0) =~= Seq::<PlanAttemptProgressSnapshot>::empty());
    }
    while i < reports.len()
        invariant
            i <= reports@.len(),
            ui::line_views(lines@) == add_reports(start, reports@.take(i as int), id@),
            found == (ui::line_views(lines@) != start),
        decreases reports@.len() - i,
    {
        proof {
            assert(reports@.take(i + 1).drop_last() =~= reports@.take(i as int));
            lemma_reports_grow(start, reports@.take(i as int), id@);
            lemma_reports_grow(start, reports@.take(i + 1), id@);
        }
        if text::same(reports[i].node_id.as_str(), id) {
            progress_lines(lines, &reports[i]);
            found = true;
        }
        i += 1;
    }
    proof {
        assert(reports@.take(i as int) =~= reports@);
    }
    if !found {
        muted(lines, "No progress report");
    }
}

fn node_directives(lines: &mut Vec<Line>, directives: &Vec<CoordinatorDirectiveSnapshot>, id: &str)
    ensures
        ui::line_views(final(lines)@) == ({
            let l = ui::line_views(old(lines)@);
            or_none(l, add_directives(l, directives@, id@), "None"@)
        }),
{
    let ghost start = ui::line_views(lines@);
    let mut found = false;
    let mut i: usize = 0;
    proof {
        assert(directives@.take(0) =~= Seq::<CoordinatorDirectiveSnapshot>::empty());
    }
    while i < directives.len()
        invariant
            i <= directives@.len(),
            ui::line_views(lines@) == add_directives(start, directives@.take(i as int), id@),
            found == (ui::line_views(lines@) != start),
        decreases directives@.len() - i,
    {
        proof {
            assert(directives@.take(i + 1).drop_last() =~= directives@.take(i as int));
            lemma_directives_grow(start, directives@.take(i as int), id@);
            lemma_directives_grow(start, directives@.take(i + 1), id@);
        }
        if text::same(directives[i].node_id.as_str(), id) {
            directive_lines(lines, &directives[i]);
            found = true;
        }
        i += 1;
    }
    proof {
        assert(directives@.take(i as int) =~= directives@);
    }
    if !found {
        muted(lines, "None");
    }
}

fn all_approvals(lines: &mut Vec<Line>, approvals: &Vec<PlanApprovalRequirementSnapshot>)
    ensures
        ui::line_views(final(lines)@) == add_approvals(ui::line_views(old(lines)@), approvals@),
{
    let ghost start = ui::line_views(lines@);
    let mut i: usize = 0;
    proof {
        assert(approvals@.take(0) =~= Seq::<PlanApprovalRequirementSnapshot>::empty());
    }
    while i < approvals.len()
        invariant
            i <= approvals@.len(),
            ui::line_views(lines@) == add_approvals(start, approvals@.take(i as int)),
        decreases approvals@.len() - i,
    {
        proof {
            assert(approvals@.take(i + 1).drop_last() =~= approvals@.take(i as int));
        }
        let line = text::cat4(
            "- ",
            approval_kind(&approvals[i].kind),
            "  ",
            approval_status_name(&approvals[i].status),
        );
        text_line(lines, text::to_lower(line.as_str()).as_str());
        i += 1;
    }
    proof {
        assert(approvals@.take(i as int) =~= approvals@);
    }
}

fn latest_revisions(lines: &mut Vec<Line>, revisions: &Vec<PlanRevisionSummary>)
    ensures
        ui::line_views(final(lines)@) == add_revisions(
            ui::line_views(old(lines)@),
            revisions@,
            LISTED_REVISIONS as nat,
        ),
{
    let ghost start = ui::line_views(lines@);
    let mut k: usize = revisions.len();
    let mut left: usize = LISTED_REVISIONS;
    proof {
        assert(revisions@.take(k as int) =~= revisions@);
    }
    while k > 0 && left > 0
        invariant
            k <= revisions@.len(),
            add_revisions(start, revisions@, LISTED_REVISIONS as nat) == add_revisions(
                ui::line_views(lines@),
                revisions@.take(k as int),
                left as nat,
            ),
        decreases k,
    {
        proof {
            assert(revisions@.take(k as int).drop_last() =~= revisions@.take(k - 1));
            assert(revisions@.take(k as int).last() == revisions@[k - 1]);
        }
        text_line(
            lines,
            text::cat4(
                "- r",
                text::decimal_text(revisions[k - 1].revision).as_str(),
                " ",
                revisions[k - 1].summary.as_str(),
            ).as_str(),
        );
        k -= 1;
        left -= 1;
    }
}

/// The details of a node, section by section.
pub fn inspector_lines(plan: &PlanUiState, snapshot: &PlanSnapshot, node: &PlanNodeSnapshot) -> (r:
    Vec<Line>)
    ensures
        ui::line_views(r@) == inspector(*plan, *snapshot, *node),
{
    let mut lines: Vec<Line> = Vec::new();
    proof {
        assert(ui::line_views(lines@) =~= Seq::<Seq<SpanView>>::empty());
    }
    section(&mut lines, "OBJECTIVE");
    text_line(&mut lines, node.objective.as_str());
    key_value(
        &mut lines,
        "state",
        text::cat5(
            node_status_label(node.status),
            "  executor ",
            executor_label(node.executor_policy),
            "  node r",
            text::decimal_text(node.updated_revision).as_str(),
        ).as_str(),
    );
    section(&mut lines, "ACCEPTANCE");
    list(&mut lines, &node.acceptance, "No acceptance checks recorded");
    section(&mut lines, "DEPENDENCIES");
    if node.depends_on.len() == 0 {
        muted(&mut lines, "None");
    } else {
        dependencies(&mut lines, &snapshot.nodes, &node.depends_on);
    }
    section(&mut lines, "HARNESS");
    key_value(&mut lines, "model", text_or(&node.harness.model_role, "inherited"));
    key_value(&mut lines, "reasoning", text_or(&node.harness.reasoning_effort, "inherited"));
    let checkpoint = match node.harness.checkpoint_turn_interval {
        Some(n) => text::decimal_text(n as u64),
        None => "inherited".to_owned(),
    };
    key_value(&mut lines, "checkpoint turns", checkpoint.as_str());
    named_values(&mut lines, "tools", &node.harness.allowed_tools);
    named_values(&mut lines, "read", &node.harness.read_scope);
    named_values(&mut lines, "write", &node.harness.write_scope);
    named_values(&mut lines, "forbidden", &node.harness.forbidden_paths);
    section(&mut lines, "LINKED SUBAGENTS");
    if node.links.len() == 0 {
        muted(&mut lines, "No subagent is linked to this Plan task");
    } else {
        all_links(&mut lines, &node.links);
        match plan.activity_for_node(node) {
            Some(activity) => linked_activity_line(&mut lines, activity),
            None => {},
        }
        key_value(
            &mut lines,
            "runtime summary",
            format_execution_summary(&node.execution_summary).as_str(),
        );
    }
    section(&mut lines, "LEGACY LEASE EVIDENCE");
    node_leases(&mut lines, &snapshot.leases, node.id.as_str());
    section(&mut lines, "LEGACY ATTEMPTS");
    node_attempts(&mut lines, &snapshot.attempts, node.id.as_str());
    section(&mut lines, "LEGACY PROGRESS");
    node_reports(&mut lines, &snapshot.attempt_progress, node.id.as_str());
    section(&mut lines, "LEGACY DIRECTIVES");
    node_directives(&mut lines, &snapshot.directives, node.id.as_str());
    section(&mut lines, "APPROVALS");
    if snapshot.approval_requirements.len() == 0 {
        muted(&mut lines, "No approval requirements");
    } else {
        all_approvals(&mut lines, &snapshot.approval_requirements);
    }
    section(&mut lines, "RESULT");
    match &node.result {
        Some(result) => {
            text_line(&mut lines, result.conclusion.as_str());
            list(&mut lines, &result.verification, "No verification recorded");
            named_values(&mut lines, "changed", &result.changed_paths);
            list(&mut lines, &result.open_questions, "No open questions");
        },
        None => muted(&mut lines, "No terminal result"),
    }
    section(&mut lines, "REVISIONS");
    key_value(
        &mut lines,
        "node",
        text::cat4(
            "created r",
            text::decimal_text(node.created_revision).as_str(),
            "  updated r",
            text::decimal_text(node.updated_revision).as_str(),
        ).as_str(),
    );
    latest_revisions(&mut lines, &snapshot.revision_summaries);
    lines
}

/// The style of the selected row.
pub open spec fn selected_style() -> Style {
    Style {
        bg: Some(Tint::Semantic(SemanticColor::Selection)),
        ..ui::colored(SemanticColor::Assistant).bolded()
    }
}

fn selection_style() -> (r: Style)
    ensures
        r == selected_style(),
{
    let mut r = Style::color(SemanticColor::Assistant).bold();
    r.bg = Some(Tint::Semantic(SemanticColor::Selection));
    r
}

/// The line above the tree.
pub open spec fn summary_of(counts: PlanCounts) -> Seq<SpanView> {
    seq![
        ui::span("live "@ + text::decimal(counts.live as nat), ui::colored(SemanticColor::Focus)),
        ui::span("  "@, ui::plain_style()),
        ui::span(
            "ready "@ + text::decimal(counts.ready as nat),
            ui::colored(SemanticColor::ToolKeyword),
        ),
        ui::span("  "@, ui::plain_style()),
        ui::span(
            "blocked "@ + text::decimal(counts.blocked as nat),
            ui::colored(
                if counts.blocked > 0 {
                    SemanticColor::Warning
                } else {
                    SemanticColor::Muted
                },
            ),
        ),
    ]
}

pub fn summary_line(counts: PlanCounts) -> (r: Line)
    ensures
        r@ == summary_of(counts),
{
    let mut line = Line::empty();
    line.push(
        Span::styled(
            text::cat2("live ", text::decimal_text(counts.live as u64).as_str()),
            Style::color(SemanticColor::Focus),
        ),
    );
    line.push(Span::raw("  "));
    line.push(
        Span::styled(
            text::cat2("ready ", text::decimal_text(counts.ready as u64).as_str()),
            Style::color(SemanticColor::ToolKeyword),
        ),
    );
    line.push(Span::raw("  "));
    line.push(
        Span::styled(
            text::cat2("blocked ", text::decimal_text(counts.blocked as u64).as_str()),
            Style::color(
                if counts.blocked > 0 {
                    SemanticColor::Warning
                } else {
                    SemanticColor::Muted
                },
            ),
        ),
    );
    proof {
        assert(line@ =~= summary_of(counts));
    }
    line
}

/// Two blanks for each level.
pub open spec fn indent(depth: nat) -> Seq<char> {
    text::repeated(' ', 2 * depth)
}

fn indent_text(depth: usize) -> (r: String)
    ensures
        r@ == indent(depth as nat),
{
    let mut r = String::new();
    let mut i: usize = 0;
    proof {
        assert(r@ =~= indent(0));
    }
    while i < depth
        invariant
            i <= depth,
            r@ == indent(i as nat),
        decreases depth - i,
    {
        r.push(' ');
        r.push(' ');
        proof {
            assert(r@ =~= indent((i + 1) as nat));
        }
        i += 1;
    }
    r
}

pub open spec fn fold_mark(row: PlanTreeRow) -> Seq<char> {
    if !row.has_children {
        " "@
    } else if row.collapsed {
        "▸"@
    } else {
        "▾"@
    }
}

/// The line of a node.
pub open spec fn tree_row(row: PlanTreeRow, selected: bool) -> Seq<SpanView> {
    let base = if selected {
        selected_style()
    } else {
        ui::plain_style()
    };
    let spans = seq![
        ui::span(indent(row.depth as nat), base),
        ui::span(fold_mark(row) + " "@, base),
        ui::span(
            symbol(row.status, row.ready) + " "@,
            if selected {
                base
            } else {
                ui::colored(status_tone(row.status, row.ready))
            },
        ),
        ui::span(
            row.objective@,
            if selected {
                base
            } else {
                ui::colored(SemanticColor::Assistant)
            },
        ),
    ];
    if selected {
        spans.push(ui::span("  "@ + executor_text(row.executor_policy), base.dimmed()))
    } else {
        spans
    }
}

pub fn tree_line(row: &PlanTreeRow, selected: bool) -> (r: Line)
    ensures
        r@ == tree_row(*row, selected),
{
    let base = if selected {
        selection_style()
    } else {
        Style::plain()
    };
    let fold = if !row.has_children {
        " "
    } else if row.collapsed {
        "▸"
    } else {
        "▾"
    };
    let mut line = Line::empty();
    line.push(Span::styled(indent_text(row.depth), base));
    line.push(Span::styled(text::cat2(fold, " "), base));
    line.push(
        Span::styled(
            text::cat2(status_symbol(row.status, row.ready), " "),
            if selected {
                base
            } else {
                Style::color(status_color(row.status, row.ready))
            },
        ),
    );
    line.push(
        Span::of(
            row.objective.as_str(),
            if selected {
                base
            } else {
                Style::color(SemanticColor::Assistant)
            },
        ),
    );
    if selected {
        line.push(
            Span::styled(text::cat2("  ", executor_label(row.executor_policy)), base.dim()),
        );
    }
    proof {
        assert(line@ =~= tree_row(*row, selected));
    }
    line
}

/// The line below a node that shows what its subagent does.
pub open spec fn activity_row(depth: nat, activity: SubagentActivitySnapshot) -> Seq<SpanView> {
    seq![
        ui::span(indent(depth + 1) + "↳ "@, ui::colored(SemanticColor::Muted)),
        ui::span(
            activity_text(activity.phase) + "  "@,
            ui::colored(activity_tone(activity.phase)),
        ),
        ui::span(bounded(activity.summary@), ui::colored(SemanticColor::Muted)),
    ]
}

pub fn activity_line(depth: usize, activity: &SubagentActivitySnapshot) -> (r: Line)
    ensures
        r@ == activity_row(depth as nat, *activity),
{
    let mut lead = indent_text(depth);
    lead.push(' ');
    lead.push(' ');
    proof {
        assert(lead@ =~= indent((depth + 1) as nat));
    }
    lead.append("↳ ");
    Line::three(
        Span::styled(lead, Style::color(SemanticColor::Muted)),
        Span::styled(
            text::cat2(activity_phase_label(activity.phase), "  "),
            Style::color(activity_phase_color(activity.phase)),
        ),
        Span::styled(
            bounded_activity_summary(activity.summary.as_str()),
            Style::color(SemanticColor::Muted),
        ),
    )
}

/// The lines that a row takes: one, and one more where an activity shows.
pub open spec fn row_height(row: PlanTreeRow) -> nat {
    if row.activity is Some {
        2
    } else {
        1
    }
}

/// The lines above row `k`.
pub open spec fn offset_of(rows: Seq<PlanTreeRow>, k: int) -> nat
    decreases k,
{
    if k <= 0 {
        0
    } else {
        offset_of(rows, k - 1) + row_height(rows[k - 1])
    }
}

/// The last row among the first `n` from which the lines below fill the window.
pub open spec fn last_filling_start(rows: Seq<PlanTreeRow>, n: int, capacity: int) -> int
    decreases n,
{
    if n <= 0 {
        0
    } else if offset_of(rows, rows.len() as int) - offset_of(rows, n - 1) >= capacity {
        n - 1
    } else {
        last_filling_start(rows, n - 1, capacity)
    }
}

/// The first row from `start` on with row `index` in the window.
pub open spec fn advanced_start(
    rows: Seq<PlanTreeRow>,
    start: int,
    index: int,
    capacity: int,
) -> int
    decreases index - start,
{
    if start >= index || offset_of(rows, index) < offset_of(rows, start) + capacity {
        start
    } else {
        advanced_start(rows, start + 1, index, capacity)
    }
}

/// The first row that is shown: as requested, but with no blank below the last row and
/// with the selected row in the window.
pub open spec fn first_row(
    rows: Seq<PlanTreeRow>,
    selected: Option<int>,
    requested: int,
    capacity: int,
) -> int {
    if capacity == 0 || rows.len() == 0 {
        0
    } else {
        let max_start = last_filling_start(rows, rows.len() as int, capacity);
        let start = if requested < max_start {
            requested
        } else {
            max_start
        };
        match selected {
            None => start,
            Some(index) => if offset_of(rows, index) < offset_of(rows, start) {
                index
            } else {
                advanced_start(rows, start, index, capacity)
            },
        }
    }
}

/// The row of a node.
pub open spec fn row_index(rows: Seq<PlanTreeRow>, id: Seq<char>) -> Option<int>
    decreases rows.len(),
{
    if rows.len() == 0 {
        None
    } else {
        match row_index(rows.drop_last(), id) {
            Some(k) => Some(k),
            None => if rows.last().node_id@ == id {
                Some(rows.len() - 1)
            } else {
                None
            },
        }
    }
}

proof fn lemma_row_index_prefix(rows: Seq<PlanTreeRow>, n: int, id: Seq<char>)
    requires
        0 <= n <= rows.len(),
        row_index(rows.take(n), id) is Some,
    ensures
        row_index(rows, id) == row_index(rows.take(n), id),
    decreases rows.len(),
{
    if n == rows.len() {
        assert(rows.take(n) =~= rows);
    } else {
        assert(rows.drop_last().take(n) =~= rows.take(n));
        lemma_row_index_prefix(rows.drop_last(), n, id);
    }
}

fn find_row(rows: &Vec<PlanTreeRow>, id: &str) -> (r: Option<usize>)
    ensures
        match r {
            Some(k) => row_index(rows@, id@) == Some(k as int) && k < rows@.len(),
            None => row_index(rows@, id@) is None,
        },
{
    let mut k: usize = 0;
    proof {
        assert(rows@.take(0) =~= Seq::<PlanTreeRow>::empty());
    }
    while k < rows.len()
        invariant
            k <= rows@.len(),
            row_index(rows@.take(k as int), id@) is None,
        decreases rows@.len() - k,
    {
        proof {
            assert(rows@.take(k + 1).drop_last() =~= rows@.take(k as int));
        }
        if text::same(rows[k].node_id.as_str(), id) {
            proof {
                lemma_row_index_prefix(rows@, k + 1, id@);
            }
            return Some(k);
        }
        k += 1;
    }
    proof {
        assert(rows@.take(k as int) =~= rows@);
    }
    None
}

proof fn lemma_offset_bounds(rows: Seq<PlanTreeRow>, i: int, j: int)
    requires
        0 <= i <= j <= rows.len(),
    ensures
        offset_of(rows, i) + (j - i) <= offset_of(rows, j) <= offset_of(rows, i) + 2 * (j - i),
    decreases j,
{
    if i < j {
        lemma_offset_bounds(rows, i, j - 1);
    }
}

/// The lines above row `k`.
fn physical_offset(rows: &Vec<PlanTreeRow>, k: usize) -> (r: u128)
    requires
        k <= rows@.len(),
    ensures
        r == offset_of(rows@, k as int),
{
    let mut r: u128 = 0;
    let mut i: usize = 0;
    while i < k
        invariant
            i <= k <= rows@.len(),
            r == offset_of(rows@, i as int),
            r <= 2 * i,
        decreases k - i,
    {
        r = r + if rows[i].activity.is_some() {
            2
        } else {
            1
        };
        i += 1;
    }
    r
}

/// The first row that is shown.
pub fn visible_start(
    rows: &Vec<PlanTreeRow>,
    selected: Option<&str>,
    requested: usize,
    capacity: usize,
) -> (r: usize)
    ensures
        r == first_row(
            rows@,
            match selected {
                Some(id) => row_index(rows@, id@),
                None => None,
            },
            requested as int,
            capacity as int,
        ),
        r <= rows@.len(),
{
    if capacity == 0 || rows.len() == 0 {
        return 0;
    }
    let total: u128 = physical_offset(rows, rows.len());
    let mut n: usize = rows.len();
    while n > 0
        invariant_except_break
            n <= rows@.len(),
            total == offset_of(rows@, rows@.len() as int),
            last_filling_start(rows@, rows@.len() as int, capacity as int) == last_filling_start(
                rows@,
                n as int,
                capacity as int,
            ),
        ensures
            n <= rows@.len(),
            last_filling_start(rows@, rows@.len() as int, capacity as int) == (if n > 0 {
                n - 1
            } else {
                0
            }),
        decreases n,
    {
        let above: u128 = physical_offset(rows, n - 1);
        proof {
            lemma_offset_bounds(rows@, n - 1, rows@.len() as int);
        }
        if total - above >= capacity as u128 {
            break;
        }
        n -= 1;
    }
    let max_start: usize = if n > 0 {
        n - 1
    } else {
        0
    };
    let mut start: usize = if requested < max_start {
        requested
    } else {
        max_start
    };
    match selected {
        None => {},
        Some(id) => match find_row(rows, id) {
            None => {},
            Some(index) => {
                let selected_offset: u128 = physical_offset(rows, index);
                let start_offset: u128 = physical_offset(rows, start);
                if selected_offset < start_offset {
                    return index;
                }
                let ghost from = start as int;
                proof {
                    if start > index {
                        lemma_offset_bounds(rows@, index as int, start as int);
                    }
                }
                while start < index
                    invariant_except_break
                        start <= index < rows@.len(),
                        selected_offset == offset_of(rows@, index as int),
                        advanced_start(rows@, from, index as int, capacity as int)
                            == advanced_start(
                            rows@,
                            start as int,
                            index as int,
                            capacity as int,
                        ),
                    ensures
                        start <= index,
                        start == advanced_start(rows@, from, index as int, capacity as int),
                    decreases index - start,
                {
                    let offset: u128 = physical_offset(rows, start);
                    proof {
                        lemma_offset_bounds(rows@, 0, start as int);
                    }
                    if selected_offset < offset + capacity as u128 {
                        break;
                    }
                    start += 1;
                }
            },
        },
    }
    start
}

proof fn lemma_advanced_start(rows: Seq<PlanTreeRow>, start: int, index: int, capacity: int)
    requires
        0 <= start <= index < rows.len(),
        capacity > 0,
    ensures
        start <= advanced_start(rows, start, index, capacity) <= index,
        offset_of(rows, index) < offset_of(
            rows,
            advanced_start(rows, start, index, capacity),
        ) + capacity,
    decreases index - start,
{
    if !(start >= index || offset_of(rows, index) < offset_of(rows, start) + capacity) {
        lemma_advanced_start(rows, start + 1, index, capacity);
    }
}

proof fn lemma_last_filling_start(rows: Seq<PlanTreeRow>, n: int, capacity: int)
    requires
        0 <= n <= rows.len(),
    ensures
        0 <= last_filling_start(rows, n, capacity) <= n,
        n > 0 ==> last_filling_start(rows, n, capacity) < n,
    decreases n,
{
    if n > 0 {
        lemma_last_filling_start(rows, n - 1, capacity);
    }
}

/// Whatever scroll position is requested, the selected row's line is in the window.
pub proof fn the_selected_row_is_in_the_window(
    rows: Seq<PlanTreeRow>,
    index: int,
    requested: int,
    capacity: int,
)
    requires
        0 <= index < rows.len(),
        requested >= 0,
        capacity > 0,
    ensures
        ({
            let start = first_row(rows, Some(index), requested, capacity);
            &&& 0 <= start <= index
            &&& offset_of(rows, start) <= offset_of(rows, index)
            &&& offset_of(rows, index) < offset_of(rows, start) + capacity
        }),
{
    let max_start = last_filling_start(rows, rows.len() as int, capacity);
    lemma_last_filling_start(rows, rows.len() as int, capacity);
    let start = if requested < max_start {
        requested
    } else {
        max_start
    };
    if offset_of(rows, index) >= offset_of(rows, start) {
        if start > index {
            lemma_offset_bounds(rows, index, start);
        }
        lemma_advanced_start(rows, start, index, capacity);
        lemma_offset_bounds(
            rows,
            advanced_start(rows, start, index, capacity),
            index,
        );
    }
}

/// The lines of the rows from `k` on, as long as there is room.
pub open spec fn add_tree_rows(
    lines: Lines,
    rows: Seq<PlanTreeRow>,
    k: int,
    selected: Option<Seq<char>>,
    limit: int,
) -> Lines
    decreases rows.len() - k,
{
    if k < 0 || k >= rows.len() || lines.len() >= limit {
        lines
    } else {
        let row = rows[k];
        let with_node = lines.push(tree_row(row, selected == Some(row.node_id@)));
        let with_activity = match row.activity {
            Some(activity) => if with_node.len() < limit {
                with_node.push(activity_row(row.depth as nat, activity))
            } else {
                with_node
            },
            None => with_node,
        };
        add_tree_rows(with_activity, rows, k + 1, selected, limit)
    }
}

/// What a tree pane of some inner height shows of some rows.
pub open spec fn tree_pane(
    rows: Seq<PlanTreeRow>,
    counts: PlanCounts,
    selected: Option<Seq<char>>,
    requested: int,
    height: int,
) -> Lines {
    if height <= 0 {
        Seq::empty()
    } else {
        let start = first_row(
            rows,
            match selected {
                Some(id) => row_index(rows, id),
                None => None,
            },
            requested,
            height - 1,
        );
        add_tree_rows(seq![summary_of(counts)], rows, start, selected, height)
    }
}

/// What the tree pane shows, its border left out.
pub fn tree_lines(plan: &PlanUiState, region_height: u16) -> (r: Vec<Line>)
    ensures
        exists|rows: Seq<PlanTreeRow>, counts: PlanCounts|
            {
                &&& plan::are_rows(
                    rows,
                    plan.nodes(),
                    plan.collapsed_node_ids@,
                    plan.subagent_activity@,
                    plan.rows(),
                )
                &&& counts.ready == plan::ready_among(plan.nodes(), plan.nodes().len() as int)
                &&& counts.blocked == plan::blocked_among(plan.nodes(), plan.nodes().len() as int)
                &&& plan::live_sum(plan.nodes()) <= usize::MAX ==> counts.live == plan::live_sum(
                    plan.nodes(),
                )
                &&& ui::line_views(r@) == #[trigger] tree_pane(
                    rows,
                    counts,
                    plan.selected(),
                    plan.scroll_offset as int,
                    region_height - 2,
                )
            },
{
    let rows = plan.visible_rows();
    let counts = plan.counts();
    let height: usize = region_height.saturating_sub(2) as usize;
    let mut lines: Vec<Line> = Vec::new();
    let ghost selected = plan.selected();
    if height == 0 {
        proof {
            assert(ui::line_views(lines@) =~= tree_pane(
                rows@,
                counts,
                selected,
                plan.scroll_offset as int,
                region_height - 2,
            ));
        }
        return lines;
    }
    let start: usize = visible_start(
        &rows,
        plan.selected_node_id(),
        plan.scroll_offset,
        height - 1,
    );
    ui::push_line(&mut lines, summary_line(counts));
    let ghost first = seq![summary_of(counts)];
    proof {
        assert(ui::line_views(lines@) =~= first);
    }
    let mut k: usize = start;
    while k < rows.len() && lines.len() < height
        invariant
            start <= k,
            k <= rows@.len(),
            selected == plan.selected(),
            add_tree_rows(first, rows@, start as int, selected, height as int) == add_tree_rows(
                ui::line_views(lines@),
                rows@,
                k as int,
                selected,
                height as int,
            ),
        decreases rows@.len() - k,
    {
        proof {
            assert(ui::line_views(lines@).len() == lines@.len());
        }
        let is_selected = match plan.selected_node_id() {
            Some(id) => text::same(id, rows[k].node_id.as_str()),
            None => false,
        };
        ui::push_line(&mut lines, tree_line(&rows[k], is_selected));
        proof {
            assert(ui::line_views(lines@).len() == lines@.len());
        }
        match &rows[k].activity {
            Some(activity) => {
                if lines.len() < height {
                    ui::push_line(&mut lines, activity_line(rows[k].depth, activity));
                }
            },
            None => {},
        }
        k += 1;
    }
    proof {
        assert(ui::line_views(lines@).len() == lines@.len());
        assert(ui::line_views(lines@) == tree_pane(
            rows@,
            counts,
            selected,
            plan.scroll_offset as int,
            region_height - 2,
        ));
    }
    lines
}

/// The tree pane never has more lines than fit.
pub proof fn the_tree_fits_its_pane(
    rows: Seq<PlanTreeRow>,
    counts: PlanCounts,
    selected: Option<Seq<char>>,
    requested: int,
    height: int,
)
    requires
        height >= 0,
    ensures
        tree_pane(rows, counts, selected, requested, height).len() <= height,
{
    if height > 0 {
        let start = first_row(
            rows,
            match selected {
                Some(id) => row_index(rows, id),
                None => None,
            },
            requested,
            height - 1,
        );
        lemma_rows_fit(seq![summary_of(counts)], rows, start, selected, height);
    }
}

proof fn lemma_rows_fit(
    lines: Lines,
    rows: Seq<PlanTreeRow>,
    k: int,
    selected: Option<Seq<char>>,
    limit: int,
)
    requires
        lines.len() <= limit,
    ensures
        add_tree_rows(lines, rows, k, selected, limit).len() <= limit,
    decreases rows.len() - k,
{
    if !(k < 0 || k >= rows.len() || lines.len() >= limit) {
        let row = rows[k];
        let with_node = lines.push(tree_row(row, selected == Some(row.node_id@)));
        let with_activity = match row.activity {
            Some(activity) => if with_node.len() < limit {
                with_node.push(activity_row(row.depth as nat, activity))
            } else {
                with_node
            },
            None => with_node,
        };
        lemma_rows_fit(with_activity, rows, k + 1, selected, limit);
    }
}

/// The title of the pane.
pub open spec fn pane_title(
    title: Seq<char>,
    phase: PlanPhase,
    revision: nat,
    shortcut: Seq<char>,
) -> Seq<SpanView> {
    seq![
        ui::span(" "@ + title + " "@, ui::colored(SemanticColor::Assistant)),
        ui::span(
            phase_text(phase) + " r"@ + text::decimal(revision) + " "@,
            ui::colored(phase_tone(phase)).bolded(),
        ),
        ui::span("["@ + shortcut + " toggle] "@, ui::colored(SemanticColor::Muted)),
    ]
}

/// The title of the pane; without a binding the toggle shows as its default key.
pub fn plan_title(title: &str, snapshot: &PlanSnapshot, shortcut: Option<&str>) -> (r: Line)
    ensures
        r@ == pane_title(
            title@,
            snapshot.phase,
            snapshot.revision as nat,
            match shortcut {
                Some(s) => s@,
                None => "Ctrl+O"@,
            },
        ),
{
    let key = match shortcut {
        Some(s) => s,
        None => "Ctrl+O",
    };
    Line::three(
        Span::styled(text::cat3(" ", title, " "), Style::color(SemanticColor::Assistant)),
        Span::styled(
            text::cat4(
                phase_label(snapshot.phase),
                " r",
                text::decimal_text(snapshot.revision).as_str(),
                " ",
            ),
            Style::color(phase_color(snapshot.phase)).bold(),
        ),
        Span::styled(text::cat3("[", key, " toggle] "), Style::color(SemanticColor::Muted)),
    )
}

/// The colour of the pane's border.
pub fn plan_border(plan: &PlanUiState) -> (r: SemanticColor)
    ensures
        r == (if plan.focus() {
            SemanticColor::Focus
        } else {
            SemanticColor::Muted
        }),
{
    if plan.is_focused() {
        SemanticColor::Focus
    } else {
        SemanticColor::Muted
    }
}

/// What the pane shows: the title, the lines, and how far they are scrolled.
#[derive(Debug, PartialEq, Eq)]
pub struct PlanPane {
    pub title: Line,
    pub lines: Vec<Line>,
    pub wrap: bool,
    pub scroll: u16,
}

/// The title of the details of a node.
pub open spec fn inspector_title(id: Seq<char>, width: u16) -> Seq<char> {
    "Node "@ + compacted(
        id,
        if width >= 26 {
            width - 18
        } else {
            8
        },
    )
}

/// The pane as a whole: the details of the selected node, or the tree.
pub fn render_plan(
    plan: &PlanUiState,
    width: u16,
    height: u16,
    shortcut: Option<&str>,
) -> (r: Option<PlanPane>)
    requires
        plan.well_formed(),
    ensures
        r is Some <==> plan.snapshot is Some && (plan.inspecting() ==> plan.selected() is Some),
        r matches Some(pane) ==> {
            let snapshot = plan.snapshot->0;
            let key = match shortcut {
                Some(s) => s@,
                None => "Ctrl+O"@,
            };
            if plan.inspecting() {
                let node = plan.nodes()[plan::first_current(plan.nodes(), plan.selected()->0)->0];
                &&& pane.title@ == pane_title(
                    inspector_title(node.id@, width),
                    snapshot.phase,
                    snapshot.revision as nat,
                    key,
                )
                &&& ui::line_views(pane.lines@) == inspector(*plan, snapshot, node)
                &&& pane.wrap
                &&& pane.scroll == (if plan.inspector_scroll_offset < u16::MAX {
                    plan.inspector_scroll_offset as int
                } else {
                    u16::MAX as int
                })
            } else {
                &&& pane.title@ == pane_title(
                    "Plan"@,
                    snapshot.phase,
                    snapshot.revision as nat,
                    key,
                )
                &&& exists|rows: Seq<PlanTreeRow>, counts: PlanCounts|
                    {
                        &&& plan::are_rows(
                            rows,
                            plan.nodes(),
                            plan.collapsed_node_ids@,
                            plan.subagent_activity@,
                            plan.rows(),
                        )
                        &&& counts.ready == plan::ready_among(
                            plan.nodes(),
                            plan.nodes().len() as int,
                        )
                        &&& counts.blocked == plan::blocked_among(
                            plan.nodes(),
                            plan.nodes().len() as int,
                        )
                        &&& plan::live_sum(plan.nodes()) <= usize::MAX ==> counts.live
                            == plan::live_sum(plan.nodes())
                        &&& ui::line_views(pane.lines@) == #[trigger] tree_pane(
                            rows,
                            counts,
                            plan.selected(),
                            plan.scroll_offset as int,
                            height - 2,
                        )
                    }
                &&& !pane.wrap
                &&& pane.scroll == 0
            }
        },
{
    let snapshot: &PlanSnapshot = match plan.snapshot() {
        Some(s) => s,
        None => {
            return None;
        },
    };
    if plan.is_inspector_open() {
        let node: &PlanNodeSnapshot = match plan.selected_node() {
            Some(n) => n,
            None => {
                return None;
            },
        };
        let title = text::cat2("Node ", compact_id(node.id.as_str(), width).as_str());
        let lines = inspector_lines(plan, snapshot, node);
        let scroll: u16 = if plan.inspector_scroll_offset < u16::MAX as usize {
            plan.inspector_scroll_offset as u16
        } else {
            u16::MAX
        };
        return Some(
            PlanPane {
                title: plan_title(title.as_str(), snapshot, shortcut),
                lines,
                wrap: true,
                scroll,
            },
        );
    }
    Some(
        PlanPane {
            title: plan_title("Plan", snapshot, shortcut),
            lines: tree_lines(plan, height),
            wrap: false,
            scroll: 0,
        },
    )
}

/// A shortened id is no longer than allowed and begins as the id does; one that fits is not
/// changed.
pub proof fn ids_are_shortened_at_their_end(value: Seq<char>, limit: int)
    requires
        limit >= 3,
    ensures
        compacted(value, limit).len() <= limit,
        value.len() <= limit ==> compacted(value, limit) == value,
        value.len() > limit ==> compacted(value, limit).len() == limit && "..."@.is_suffix_of(
            compacted(value, limit),
        ) && value.take(limit - 3).is_prefix_of(compacted(value, limit)),
{
    reveal_strlit("...");
    if value.len() > limit {
        let r = compacted(value, limit);
        assert("..."@ =~= r.subrange(r.len() - 3, r.len() as int));
        assert(value.take(limit - 3) =~= r.subrange(0, limit - 3));
    }
}

/// A summary that is too long is cut where it gets so, and says that there is more.
pub proof fn summaries_are_cut_at_the_limit(summary: Seq<char>)
    ensures
        summary.len() <= MAX_ACTIVITY_SUMMARY_CHARS ==> bounded(summary) == summary,
        summary.len() > MAX_ACTIVITY_SUMMARY_CHARS ==> bounded(summary).len()
            == MAX_ACTIVITY_SUMMARY_CHARS + 3 && summary.take(
            MAX_ACTIVITY_SUMMARY_CHARS as int,
        ).is_prefix_of(bounded(summary)) && "..."@.is_suffix_of(bounded(summary)),
{
    reveal_strlit("...");
    if summary.len() > MAX_ACTIVITY_SUMMARY_CHARS {
        let r = bounded(summary);
        let n = MAX_ACTIVITY_SUMMARY_CHARS as int;
        assert("..."@ =~= r.subrange(r.len() - 3, r.len() as int));
        assert(summary.take(n) =~= r.subrange(0, n));
    }
}

/// A duration is shown in hours and minutes, in minutes and seconds, or in seconds, which make
/// it up but for what is less than the last of them.
pub proof fn durations_are_made_up_of_their_parts(
    hours: nat,
    minutes: nat,
    seconds: nat,
    rest: nat,
)
    requires
        minutes < 60,
        seconds < 60,
        rest < 1000,
    ensures
        ({
            let shown = duration_text(((hours * 60 + minutes) * 60 + seconds) * 1000 + rest);
            &&& hours > 0 ==> shown == text::decimal(hours) + "h "@ + two_digits(minutes) + "m"@
            &&& hours == 0 && minutes > 0 ==> shown == text::decimal(minutes) + "m "@ + two_digits(
                seconds,
            ) + "s"@
            &&& hours == 0 && minutes == 0 ==> shown == text::decimal(seconds) + "s"@
        }),
        minutes < 10 ==> two_digits(minutes) == "0"@ + text::decimal(minutes),
        minutes >= 10 ==> two_digits(minutes) == text::decimal(minutes),
{
    let all = (hours * 60 + minutes) * 60 + seconds;
    assert((all * 1000 + rest) / 1000 == all);
    assert(all == hours * 3600 + (minutes * 60 + seconds));
    assert(minutes * 60 + seconds < 3600);
    assert(all / 3600 == hours);
    assert(all % 3600 == minutes * 60 + seconds);
    assert((minutes * 60 + seconds) / 60 == minutes);
    assert(all % 60 == seconds);
}

/// Trouble stands out: what failed is shown in the colour of errors and nothing else is, what
/// is done in the colour of success.
pub proof fn colours_tell_how_a_node_stands(status: PlanNodeStatus)
    ensures
        status_tone(status, false) == SemanticColor::Error <==> status == PlanNodeStatus::Failed,
        status_tone(status, false) == SemanticColor::Success <==> status
            == PlanNodeStatus::Completed,
        status_tone(status, false) == SemanticColor::Warning <==> status == PlanNodeStatus::Blocked,
        status_tone(status, true) == SemanticColor::ToolKeyword,
{
}

} // verus!
