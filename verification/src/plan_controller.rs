//! What the keys and commands do to the plan pane, and what is asked of the runtime.
use crate::command::PaletteCommand;
use crate::effects;
use crate::effects::{ControllerEffect, Outcome, StateRequest};
use crate::key::{KeyCode, KeyEvent};
use crate::plan;
use crate::plan::PlanUiState;
use crate::plan_approval::PlanApprovalInput;
use vstd::prelude::*;

verus! {

pub const PLAN_SCROLL_STEP: usize = 5;

/// Whether a key moves through the plan pane.
pub open spec fn navigation_key(key: KeyEvent) -> bool {
    key.code == KeyCode::Up || key.code == KeyCode::Down || key.code == KeyCode::PageUp || key.code
        == KeyCode::PageDown || key.code == KeyCode::Left || key.code == KeyCode::Right || key.code
        == KeyCode::Enter || key.code == KeyCode::Esc
}

/// The pane after its details have been scrolled up.
pub open spec fn inspector_up(before: PlanUiState, after: PlanUiState, n: int) -> bool {
    after == (PlanUiState {
        inspector_scroll_offset: after.inspector_scroll_offset,
        ..before
    }) && after.inspector_scroll_offset == (if before.inspector_scroll_offset > n {
        before.inspector_scroll_offset - n
    } else {
        0
    })
}

/// The pane after its details have been scrolled down.
pub open spec fn inspector_down(before: PlanUiState, after: PlanUiState, n: int) -> bool {
    after == (PlanUiState {
        inspector_scroll_offset: after.inspector_scroll_offset,
        ..before
    }) && after.inspector_scroll_offset == (if before.inspector_scroll_offset + n <= usize::MAX {
        before.inspector_scroll_offset + n
    } else {
        usize::MAX as int
    })
}

/// The pane after its tree has been scrolled up.
pub open spec fn tree_up(before: PlanUiState, after: PlanUiState, n: int) -> bool {
    after == (PlanUiState { scroll_offset: after.scroll_offset, ..before }) && after.scroll_offset
        == (if before.scroll_offset > n {
        before.scroll_offset - n
    } else {
        0
    })
}

/// The pane after its tree has been scrolled down.
pub open spec fn tree_down(before: PlanUiState, after: PlanUiState, n: int) -> bool {
    after == (PlanUiState { scroll_offset: after.scroll_offset, ..before }) && after.scroll_offset
        == plan::clamped(before.scroll_offset + n, before.rows().len() as int)
}

/// The pane after a key that moves through it.
pub open spec fn navigated(key: KeyEvent, before: PlanUiState, after: PlanUiState) -> bool {
    match key.code {
        KeyCode::Up => if before.inspecting() {
            inspector_up(before, after, 1)
        } else {
            exists|moved: bool| #[trigger] plan::after_move(before, after, false, moved)
        },
        KeyCode::Down => if before.inspecting() {
            inspector_down(before, after, 1)
        } else {
            exists|moved: bool| #[trigger] plan::after_move(before, after, true, moved)
        },
        KeyCode::PageUp => if before.inspecting() {
            inspector_up(before, after, PLAN_SCROLL_STEP as int)
        } else {
            tree_up(before, after, PLAN_SCROLL_STEP as int)
        },
        KeyCode::PageDown => if before.inspecting() {
            inspector_down(before, after, PLAN_SCROLL_STEP as int)
        } else {
            tree_down(before, after, PLAN_SCROLL_STEP as int)
        },
        KeyCode::Left => if before.inspector_open {
            after == (PlanUiState { inspector_open: false, inspector_scroll_offset: 0, ..before })
        } else {
            exists|done: bool| #[trigger] plan::parent_or_collapse(before, after, done)
        },
        KeyCode::Right => if before.inspecting() {
            after == before
        } else {
            exists|done: bool| #[trigger] plan::child_or_expand(before, after, done)
        },
        KeyCode::Enter => after == (if before.selected() is Some {
            PlanUiState { inspector_open: true, inspector_scroll_offset: 0, ..before }
        } else {
            before
        }),
        KeyCode::Esc => after == (if before.inspector_open {
            PlanUiState { inspector_open: false, inspector_scroll_offset: 0, ..before }
        } else {
            plan::unfocused_pane(before)
        }),
        _ => after == before,
    }
}

/// Moves through the plan pane, and says whether the key does that.
pub fn handle_navigation_key(key: KeyEvent, pane: &mut PlanUiState) -> (r: bool)
    requires
        old(pane).well_formed(),
    ensures
        r == navigation_key(key),
        navigated(key, *old(pane), *final(pane)),
        final(pane).well_formed(),
{
    match key.code {
        KeyCode::Up => {
            if pane.is_inspector_open() {
                pane.scroll_inspector_up_by(1);
            } else {
                let _ = pane.select_previous();
            }
        },
        KeyCode::Down => {
            if pane.is_inspector_open() {
                pane.scroll_inspector_down_by(1);
            } else {
                let _ = pane.select_next();
            }
        },
        KeyCode::PageUp => {
            if pane.is_inspector_open() {
                pane.scroll_inspector_up_by(PLAN_SCROLL_STEP);
            } else {
                pane.scroll_up_by(PLAN_SCROLL_STEP);
            }
        },
        KeyCode::PageDown => {
            if pane.is_inspector_open() {
                pane.scroll_inspector_down_by(PLAN_SCROLL_STEP);
            } else {
                pane.scroll_down_by(PLAN_SCROLL_STEP);
            }
        },
        KeyCode::Left => {
            if !pane.close_inspector() {
                let _ = pane.select_parent_or_collapse();
            }
        },
        KeyCode::Right => {
            if !pane.is_inspector_open() {
                let _ = pane.select_child_or_expand();
            }
        },
        KeyCode::Enter => {
            let _ = pane.open_inspector();
        },
        KeyCode::Esc => {
            if !pane.close_inspector() {
                pane.leave_focus();
            }
        },
        _ => {
            return false;
        },
    }
    true
}

/// The pane after the wheel has been turned over it.
pub open spec fn wheeled(up: bool, before: PlanUiState, after: PlanUiState) -> bool {
    if before.inspecting() {
        if up {
            inspector_up(before, after, PLAN_SCROLL_STEP as int)
        } else {
            inspector_down(before, after, PLAN_SCROLL_STEP as int)
        }
    } else if up {
        tree_up(before, after, PLAN_SCROLL_STEP as int)
    } else {
        tree_down(before, after, PLAN_SCROLL_STEP as int)
    }
}

/// Turns the wheel over the plan pane.
pub fn scroll_pane(up: bool, pane: &mut PlanUiState)
    requires
        old(pane).well_formed(),
    ensures
        wheeled(up, *old(pane), *final(pane)),
        final(pane).well_formed(),
{
    if pane.is_inspector_open() {
        if up {
            pane.scroll_inspector_up_by(PLAN_SCROLL_STEP);
        } else {
            pane.scroll_inspector_down_by(PLAN_SCROLL_STEP);
        }
    } else if up {
        pane.scroll_up_by(PLAN_SCROLL_STEP);
    } else {
        pane.scroll_down_by(PLAN_SCROLL_STEP);
    }
}

pub open spec fn closing(effect: effects::EffectView) -> effects::OutcomeView {
    effects::outcome(seq![effects::RequestView::CloseOverlay], effect)
}

/// What a command about the plan leads to; nothing where it is about something else.
pub open spec fn plan_command_outcome(c: PaletteCommand, pane: PlanUiState) -> Option<
    effects::OutcomeView,
> {
    match c {
        PaletteCommand::EnterPlanMode => Some(closing(effects::EffectView::EnterPlanMode)),
        PaletteCommand::ApprovePlan => Some(
            effects::outcome(
                seq![effects::RequestView::OpenPlanApproval],
                effects::EffectView::Nothing,
            ),
        ),
        PaletteCommand::RevisePlan => Some(closing(effects::EffectView::RevisePlan)),
        PaletteCommand::OpenPlan => Some(closing(effects::EffectView::Nothing)),
        PaletteCommand::FocusPlan => Some(closing(effects::EffectView::Nothing)),
        PaletteCommand::ClosePlan => Some(closing(effects::EffectView::Nothing)),
        PaletteCommand::PausePlan => Some(closing(effects::EffectView::PausePlan)),
        PaletteCommand::ResumePlan => Some(closing(effects::EffectView::ResumePlan)),
        PaletteCommand::RetryPlanNode => Some(
            match pane.selected() {
                Some(id) => closing(effects::EffectView::RetryPlanNode(id)),
                None => effects::outcome(
                    seq![
                        effects::RequestView::CloseOverlay,
                        effects::RequestView::ShowErrorDialog {
                            title: "Plan retry unavailable"@,
                            message: "No plan node is selected."@,
                        },
                    ],
                    effects::EffectView::Nothing,
                ),
            },
        ),
        PaletteCommand::CancelPlan => Some(closing(effects::EffectView::CancelPlan)),
        _ => None,
    }
}

/// The plan pane after a command.
pub open spec fn plan_command_pane(c: PaletteCommand, pane: PlanUiState) -> PlanUiState {
    match c {
        PaletteCommand::OpenPlan => plan::opened_pane(pane),
        PaletteCommand::FocusPlan => plan::opened_pane(pane),
        PaletteCommand::ClosePlan => plan::closed_pane(pane),
        _ => pane,
    }
}

fn close_and(effect: ControllerEffect) -> (r: Option<Outcome>)
    ensures
        r matches Some(o) && o@ == closing(effect@),
{
    Some(Outcome::request(StateRequest::CloseOverlay, effect))
}

/// Runs a command about the plan.
pub fn palette_effect(c: PaletteCommand, pane: &mut PlanUiState) -> (r: Option<Outcome>)
    requires
        old(pane).well_formed(),
    ensures
        match r {
            Some(o) => plan_command_outcome(c, *old(pane)) == Some(o@),
            None => plan_command_outcome(c, *old(pane)) is None,
        },
        *final(pane) == plan_command_pane(c, *old(pane)),
        final(pane).well_formed(),
{
    match c {
        PaletteCommand::EnterPlanMode => close_and(ControllerEffect::EnterPlanMode),
        PaletteCommand::ApprovePlan => Some(
            Outcome::request(StateRequest::OpenPlanApproval, ControllerEffect::Nothing),
        ),
        PaletteCommand::RevisePlan => close_and(ControllerEffect::RevisePlan),
        PaletteCommand::OpenPlan | PaletteCommand::FocusPlan => {
            let _ = pane.open_and_focus();
            close_and(ControllerEffect::Nothing)
        },
        PaletteCommand::ClosePlan => {
            pane.close();
            close_and(ControllerEffect::Nothing)
        },
        PaletteCommand::PausePlan => close_and(ControllerEffect::PausePlan),
        PaletteCommand::ResumePlan => close_and(ControllerEffect::ResumePlan),
        PaletteCommand::RetryPlanNode => match pane.selected_node_id() {
            Some(id) => close_and(ControllerEffect::RetryPlanNode(id.to_owned())),
            None => Some(
                Outcome::requests(
                    StateRequest::CloseOverlay,
                    StateRequest::ShowErrorDialog {
                        title: "Plan retry unavailable".to_owned(),
                        message: "No plan node is selected.".to_owned(),
                    },
                    ControllerEffect::Nothing,
                ),
            ),
        },
        PaletteCommand::CancelPlan => close_and(ControllerEffect::CancelPlan),
        _ => None,
    }
}

/// What is asked of the runtime about a plan.
#[derive(Debug, PartialEq, Eq)]
pub enum PlanRequest {
    Enter { reason: String },
    Approve(PlanApprovalInput),
    Revise { reason: String },
    PauseScheduling { reason: String },
    ResumeScheduling { reason: String },
    RetryNode { node_id: String, reason: String },
    Cancel { reason: String },
}

pub enum PlanRequestView {
    Enter { reason: Seq<char> },
    Approve(PlanApprovalInput),
    Revise { reason: Seq<char> },
    PauseScheduling { reason: Seq<char> },
    ResumeScheduling { reason: Seq<char> },
    RetryNode { node_id: Seq<char>, reason: Seq<char> },
    Cancel { reason: Seq<char> },
}

impl View for PlanRequest {
    type V = PlanRequestView;

    open spec fn view(&self) -> PlanRequestView {
        match self {
            PlanRequest::Enter { reason } => PlanRequestView::Enter { reason: reason@ },
            PlanRequest::Approve(i) => PlanRequestView::Approve(*i),
            PlanRequest::Revise { reason } => PlanRequestView::Revise { reason: reason@ },
            PlanRequest::PauseScheduling { reason } => PlanRequestView::PauseScheduling {
                reason: reason@,
            },
            PlanRequest::ResumeScheduling { reason } => PlanRequestView::ResumeScheduling {
                reason: reason@,
            },
            PlanRequest::RetryNode { node_id, reason } => PlanRequestView::RetryNode {
                node_id: node_id@,
                reason: reason@,
            },
            PlanRequest::Cancel { reason } => PlanRequestView::Cancel { reason: reason@ },
        }
    }
}

/// What work on a plan asks of the runtime, and what a failure is called; nothing for
/// other work.
pub open spec fn plan_request(effect: effects::EffectView) -> Option<(PlanRequestView, Seq<char>)> {
    match effect {
        effects::EffectView::EnterPlanMode => Some(
            (
                PlanRequestView::Enter { reason: "user entered Plan Mode from the TUI"@ },
                "Plan control failed"@,
            ),
        ),
        effects::EffectView::ApprovePlan(input) => Some(
            (PlanRequestView::Approve(input), "Plan approval failed"@),
        ),
        effects::EffectView::RevisePlan => Some(
            (
                PlanRequestView::Revise { reason: "user requested plan revision from the TUI"@ },
                "Plan revision failed"@,
            ),
        ),
        effects::EffectView::PausePlan => Some(
            (
                PlanRequestView::PauseScheduling {
                    reason: "user paused plan scheduling from the TUI"@,
                },
                "Plan pause failed"@,
            ),
        ),
        effects::EffectView::ResumePlan => Some(
            (
                PlanRequestView::ResumeScheduling {
                    reason: "user resumed plan scheduling from the TUI"@,
                },
                "Plan resume failed"@,
            ),
        ),
        effects::EffectView::RetryPlanNode(node_id) => Some(
            (
                PlanRequestView::RetryNode {
                    node_id,
                    reason: "user explicitly retried interrupted plan work from the TUI"@,
                },
                "Plan retry failed"@,
            ),
        ),
        effects::EffectView::CancelPlan => Some(
            (
                PlanRequestView::Cancel { reason: "user cancelled the plan from the TUI"@ },
                "Plan cancellation failed"@,
            ),
        ),
        _ => None,
    }
}

/// What work on a plan asks of the runtime, with the title under which a failure is shown.
/// Other work is handed back.
pub fn dispatch_effect(effect: ControllerEffect) -> (r: Result<
    (PlanRequest, &'static str),
    ControllerEffect,
>)
    ensures
        match r {
            Ok(pair) => plan_request(effect@) == Some((pair.0@, pair.1@)),
            Err(other) => plan_request(effect@) is None && other == effect,
        },
{
    match effect {
        ControllerEffect::EnterPlanMode => Ok(
            (
                PlanRequest::Enter { reason: "user entered Plan Mode from the TUI".to_owned() },
                "Plan control failed",
            ),
        ),
        ControllerEffect::ApprovePlan(input) => Ok(
            (PlanRequest::Approve(input), "Plan approval failed"),
        ),
        ControllerEffect::RevisePlan => Ok(
            (
                PlanRequest::Revise {
                    reason: "user requested plan revision from the TUI".to_owned(),
                },
                "Plan revision failed",
            ),
        ),
        ControllerEffect::PausePlan => Ok(
            (
                PlanRequest::PauseScheduling {
                    reason: "user paused plan scheduling from the TUI".to_owned(),
                },
                "Plan pause failed",
            ),
        ),
        ControllerEffect::ResumePlan => Ok(
            (
                PlanRequest::ResumeScheduling {
                    reason: "user resumed plan scheduling from the TUI".to_owned(),
                },
                "Plan resume failed",
            ),
        ),
        ControllerEffect::RetryPlanNode(node_id) => Ok(
            (
                PlanRequest::RetryNode {
                    node_id,
                    reason: "user explicitly retried interrupted plan work from the TUI".to_owned(),
                },
                "Plan retry failed",
            ),
        ),
        ControllerEffect::CancelPlan => Ok(
            (
                PlanRequest::Cancel {
                    reason: "user cancelled the plan from the TUI".to_owned(),
                },
                "Plan cancellation failed",
            ),
        ),
        other => Err(other),
    }
}

/// The keys that scroll the plan pane go up and down: a page key moves the tree, or the
/// details where these are open, by as much as a page or to the border, and nothing else.
pub proof fn page_keys_scroll_what_is_open(
    key: KeyEvent,
    before: PlanUiState,
    after: PlanUiState,
)
    requires
        navigated(key, before, after),
        key.code == KeyCode::PageUp || key.code == KeyCode::PageDown,
    ensures
        before.inspecting() ==> after.scroll_offset == before.scroll_offset,
        !before.inspecting() ==> after.inspector_scroll_offset == before.inspector_scroll_offset,
        key.code == KeyCode::PageUp ==> after.scroll_offset <= before.scroll_offset
            && after.inspector_scroll_offset <= before.inspector_scroll_offset,
        key.code == KeyCode::PageUp && !before.inspecting() && before.scroll_offset
            >= PLAN_SCROLL_STEP ==> after.scroll_offset == before.scroll_offset - PLAN_SCROLL_STEP,
        key.code == KeyCode::PageUp && !before.inspecting() && before.scroll_offset
            < PLAN_SCROLL_STEP ==> after.scroll_offset == 0,
        key.code == KeyCode::PageUp && before.inspecting() && before.inspector_scroll_offset
            >= PLAN_SCROLL_STEP ==> after.inspector_scroll_offset == before.inspector_scroll_offset
            - PLAN_SCROLL_STEP,
        key.code == KeyCode::PageDown && before.inspecting() && before.inspector_scroll_offset
            + PLAN_SCROLL_STEP <= usize::MAX ==> after.inspector_scroll_offset
            == before.inspector_scroll_offset + PLAN_SCROLL_STEP,
        key.code == KeyCode::PageDown && !before.inspecting() && before.scroll_offset
            + PLAN_SCROLL_STEP < before.rows().len() ==> after.scroll_offset == before.scroll_offset
            + PLAN_SCROLL_STEP,
        key.code == KeyCode::PageDown && !before.inspecting() && before.scroll_offset
            + PLAN_SCROLL_STEP >= before.rows().len() && before.rows().len() > 0
            ==> after.scroll_offset == before.rows().len() - 1,
        after.snapshot == before.snapshot,
        after.selected_node_id == before.selected_node_id,
        after.collapsed_node_ids == before.collapsed_node_ids,
{
}

/// The wheel scrolls the plan pane as the page keys do.
pub proof fn the_wheel_scrolls_like_the_page_keys(
    up: bool,
    key: KeyEvent,
    before: PlanUiState,
    after: PlanUiState,
)
    requires
        key.code == (if up {
            KeyCode::PageUp
        } else {
            KeyCode::PageDown
        }),
    ensures
        wheeled(up, before, after) <==> navigated(key, before, after),
{
}

/// Enter opens the details of the selected node, and Left and Escape close them; Escape without
/// details gives the keys back.
pub proof fn details_open_and_close(key: KeyEvent, before: PlanUiState, after: PlanUiState)
    requires
        navigated(key, before, after),
    ensures
        key.code == KeyCode::Enter && before.selected() is Some ==> after.inspector_open
            && after.inspector_scroll_offset == 0,
        key.code == KeyCode::Enter && before.selected() is None ==> after == before,
        (key.code == KeyCode::Left || key.code == KeyCode::Esc) && before.inspector_open
            ==> !after.inspector_open && after.focused == before.focused
            && after.selected_node_id == before.selected_node_id,
        key.code == KeyCode::Esc && !before.inspector_open ==> !after.focused && after.open
            == before.open && after.snapshot == before.snapshot,
        key.code == KeyCode::Enter ==> after.selected_node_id == before.selected_node_id
            && after.focused == before.focused,
{
}

/// Left folds the selected node where it is unfolded above others, and else selects the node
/// that it belongs to; Right unfolds it where it is folded, and else selects its first child.
pub proof fn left_and_right_walk_the_tree(
    key: KeyEvent,
    before: PlanUiState,
    after: PlanUiState,
    id: Seq<char>,
)
    requires
        navigated(key, before, after),
        !before.inspector_open,
        before.selected() == Some(id),
    ensures
        key.code == KeyCode::Left && plan::has_current_child(before.nodes(), id)
            && !before.collapsed_node_ids@.contains(id) ==> after.collapsed_node_ids@.contains(id)
            && after.selected() == Some(id),
        key.code == KeyCode::Left && !(plan::has_current_child(before.nodes(), id)
            && !before.collapsed_node_ids@.contains(id)) ==> after.collapsed_node_ids
            == before.collapsed_node_ids,
        key.code == KeyCode::Right && !before.inspecting() && before.collapsed_node_ids@.contains(
            id,
        ) && plan::has_current_child(before.nodes(), id) ==> !after.collapsed_node_ids@.contains(id)
            && after.selected() == Some(id),
        key.code == KeyCode::Right && !before.inspecting() && !before.collapsed_node_ids@.contains(
            id,
        ) ==> after.collapsed_node_ids == before.collapsed_node_ids && (plan::children(
            before.nodes(),
            Some(id),
        ).len() > 0 && plan::known(
            before.nodes(),
            before.nodes()[plan::children(before.nodes(), Some(id))[0]].id@,
        ) ==> after.selected() == Some(
            before.nodes()[plan::children(before.nodes(), Some(id))[0]].id@,
        )),
{
}

/// The runtime is asked for what the work on the plan is named for, and for other work it is
/// asked for nothing: a plan is approved as it was put before the user, and the node that is
/// tried again is the one that was chosen.
pub proof fn plan_work_asks_for_what_it_is_named_for(
    effect: effects::EffectView,
    input: PlanApprovalInput,
    node: Seq<char>,
)
    ensures
        plan_request(effect) matches Some((PlanRequestView::Enter { reason: _ }, _)) <==> effect
            == effects::EffectView::EnterPlanMode,
        (plan_request(effect) matches Some((PlanRequestView::Approve(i), _)) && i == input)
            <==> effect == effects::EffectView::ApprovePlan(input),
        plan_request(effect) matches Some((PlanRequestView::Revise { reason: _ }, _)) <==> effect
            == effects::EffectView::RevisePlan,
        plan_request(effect) matches Some((PlanRequestView::PauseScheduling { reason: _ }, _))
            <==> effect == effects::EffectView::PausePlan,
        plan_request(effect) matches Some((PlanRequestView::ResumeScheduling { reason: _ }, _))
            <==> effect == effects::EffectView::ResumePlan,
        (plan_request(effect) matches Some((PlanRequestView::RetryNode { node_id, reason: _ }, _))
            && node_id == node) <==> effect == effects::EffectView::RetryPlanNode(node),
        plan_request(effect) matches Some((PlanRequestView::Cancel { reason: _ }, _)) <==> effect
            == effects::EffectView::CancelPlan,
{
}

} // verus!
