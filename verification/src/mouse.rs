//! What the mouse does.
use crate::command_details;
use crate::controller;
use crate::controller::Cockpit;
use crate::copy_controls::CopyTextError;
use crate::effects;
use crate::effects::{ControllerEffect, StateRequest};
use crate::key::{KeyCode, KeyEvent, KeyModifiers};
use crate::layout;
use crate::layout::{BottomPaneHeights, PaneHeights, Position, Rect, TimelineRects};
use crate::overlay::Overlay;
use crate::plan::PlanUiState;
use crate::plan_controller;
use vstd::prelude::*;

verus! {

/// What a finger does on the first button.
#[derive(Debug, Clone, Copy, PartialEq, Eq, Structural)]
pub enum MouseInput {
    Down(Position),
    Drag(Position),
    Up(Position),
}

/// What is done about it.
#[derive(Debug, Clone, Copy, PartialEq, Eq, Structural)]
pub enum MouseStep {
    /// The selection goes.
    ClearSelection,
    /// The selection goes, and what lies under the position decides.
    Press(Position),
    DragSelection(Position),
    /// The selection ends here, and what it holds is copied.
    FinishSelection(Position),
}

/// What is done about the mouse: nothing is selected below an overlay.
pub open spec fn mouse_step(mouse: MouseInput, overlay_open: bool) -> MouseStep {
    if overlay_open {
        MouseStep::ClearSelection
    } else {
        match mouse {
            MouseInput::Down(p) => MouseStep::Press(p),
            MouseInput::Drag(p) => MouseStep::DragSelection(p),
            MouseInput::Up(p) => MouseStep::FinishSelection(p),
        }
    }
}

pub fn handle_mouse_input(mouse: MouseInput, s: &Cockpit) -> (r: MouseStep)
    ensures
        r == mouse_step(mouse, s.overlay is Some),
{
    if s.overlay.is_some() {
        return MouseStep::ClearSelection;
    }
    match mouse {
        MouseInput::Down(p) => MouseStep::Press(p),
        MouseInput::Drag(p) => MouseStep::DragSelection(p),
        MouseInput::Up(p) => MouseStep::FinishSelection(p),
    }
}

/// What lies under the mouse when it is pressed.
#[derive(Debug, PartialEq, Eq)]
pub enum TimelineMouseDown {
    /// A control that copies this.
    Copy(String),
    /// A control that would copy too much.
    CopyTooLarge,
    /// Text, from which a selection begins.
    Select,
    /// Neither.
    Nothing,
}

/// The work that pressing the mouse leads to, and whether a selection begins.
pub fn mouse_down_effect(under: TimelineMouseDown) -> (r: (ControllerEffect, bool))
    ensures
        r.0@ == (match under {
            TimelineMouseDown::Copy(text) => effects::EffectView::CopyText(text@),
            TimelineMouseDown::CopyTooLarge => effects::EffectView::CopyTextTooLarge,
            _ => effects::EffectView::Nothing,
        }),
        r.1 == (under is Select),
{
    match under {
        TimelineMouseDown::Copy(text) => (ControllerEffect::CopyText(text), false),
        TimelineMouseDown::CopyTooLarge => (ControllerEffect::CopyTextTooLarge, false),
        TimelineMouseDown::Select => (ControllerEffect::Nothing, true),
        TimelineMouseDown::Nothing => (ControllerEffect::Nothing, false),
    }
}

/// The work that the end of a selection leads to.
pub fn selection_effect(selected: Result<Option<String>, CopyTextError>) -> (r: ControllerEffect)
    ensures
        r@ == (match selected {
            Ok(Some(text)) => effects::EffectView::CopyText(text@),
            Ok(None) => effects::EffectView::Nothing,
            Err(_) => effects::EffectView::CopyTextTooLarge,
        }),
{
    match selected {
        Ok(Some(text)) => ControllerEffect::CopyText(text),
        Ok(None) => ControllerEffect::Nothing,
        Err(_) => ControllerEffect::CopyTextTooLarge,
    }
}

/// The screen's size in cells.
#[derive(Debug, Clone, Copy, PartialEq, Eq, Structural)]
pub struct Size {
    pub width: u16,
    pub height: u16,
}

/// The whole screen.
pub open spec fn whole(size: Size) -> Rect {
    Rect { x: 0, y: 0, width: size.width, height: size.height }
}

/// The heights of the panes below the conversation.
pub open spec fn below(heights: PaneHeights) -> BottomPaneHeights {
    BottomPaneHeights {
        queue: heights.queue,
        completion: heights.completion,
        input: heights.input,
        status: layout::STATUS_HEIGHT,
    }
}

/// Whether these are the panes of a screen of this size, however it is shared.
pub open spec fn panes(
    size: Size,
    heights: PaneHeights,
    plan: PlanUiState,
    rects: TimelineRects,
) -> bool {
    layout::cockpit(whole(size), below(heights), plan.open, plan.focus(), rects)
}

/// Whether a screen has room for its panes.
pub open spec fn has_room(size: Size, heights: PaneHeights) -> bool {
    layout::has_room(whole(size), below(heights))
}

/// The panes of a screen that has room for them.
pub open spec fn roomy_panes(size: Size, heights: PaneHeights, plan: PlanUiState) -> TimelineRects {
    layout::roomy_panes(whole(size), below(heights), plan.open, plan.focus())
}

pub fn cockpit_rects(size: Size, heights: PaneHeights, plan: &PlanUiState) -> (r: TimelineRects)
    ensures
        panes(size, heights, *plan, r),
        layout::on_screen(r, whole(size)),
        has_room(size, heights) ==> r == roomy_panes(size, heights, *plan),
{
    layout::cockpit_layout(
        Rect { x: 0, y: 0, width: size.width, height: size.height },
        BottomPaneHeights {
            queue: heights.queue,
            completion: heights.completion,
            input: heights.input,
            status: layout::STATUS_HEIGHT,
        },
        plan.is_open(),
        plan.is_focused(),
    )
}

/// Whether a cell lies in the plan pane.
pub open spec fn over_plan(p: Position, rects: TimelineRects) -> bool {
    match rects.plan {
        Some(pane) => pane.holds(p),
        None => false,
    }
}

pub fn lies_over_plan(p: Position, rects: &TimelineRects) -> (r: bool)
    ensures
        r == over_plan(p, *rects),
{
    match rects.plan {
        Some(pane) => pane.contains(p),
        None => false,
    }
}

/// Whether a cell lies in the plan pane: never where the plan is closed, nor off the screen.
pub fn position_in_plan_pane(
    p: Position,
    size: Size,
    heights: PaneHeights,
    plan: &PlanUiState,
) -> (r: bool)
    ensures
        exists|rects: TimelineRects| #[trigger]
            panes(size, heights, *plan, rects) && r == over_plan(p, rects),
        has_room(size, heights) ==> r == over_plan(p, roomy_panes(size, heights, *plan)),
        r ==> plan.open && whole(size).holds(p),
{
    let rects = cockpit_rects(size, heights, plan);
    proof {
        layout::panes_stay_on_the_screen(
            whole(size),
            below(heights),
            plan.open,
            plan.focus(),
            rects,
        );
    }
    lies_over_plan(p, &rects)
}

/// The screen after the wheel has been turned, over the plan pane or elsewhere, and what the
/// rest of it is asked for. The details of a command turn a page; another overlay takes the
/// wheel for nothing.
pub open spec fn scrolled(
    up: bool,
    over: bool,
    before: Cockpit,
    after: Cockpit,
    asked: Seq<effects::RequestView>,
) -> bool {
    let cleared = seq![effects::RequestView::ClearTextSelection];
    match before.overlay {
        Some(Overlay::CommandDetails(d)) => {
            &&& asked == cleared
            &&& after.overlay matches Some(Overlay::CommandDetails(e)) && e@
                == command_details::details_key(d@, wheel_key(up)).0
            &&& after == (Cockpit { overlay: after.overlay, ..before })
        },
        Some(_) => asked == cleared && after == before,
        None => if over {
            &&& asked == cleared
            &&& plan_controller::wheeled(up, before.plan, after.plan)
            &&& after == (Cockpit { plan: after.plan, ..before })
        } else {
            &&& asked == cleared.push(
                if up {
                    effects::RequestView::ScrollTimelineUp(controller::TIMELINE_SCROLL_STEP)
                } else {
                    effects::RequestView::ScrollTimelineDown(controller::TIMELINE_SCROLL_STEP)
                },
            )
            &&& after == before
        },
    }
}

/// The screen after the wheel has been turned over a cell, wherever the panes lie.
pub open spec fn scrolled_at(
    up: bool,
    p: Position,
    size: Size,
    heights: PaneHeights,
    before: Cockpit,
    after: Cockpit,
    asked: Seq<effects::RequestView>,
) -> bool {
    exists|rects: TimelineRects| #[trigger]
        panes(size, heights, before.plan, rects) && scrolled(
            up,
            over_plan(p, rects),
            before,
            after,
            asked,
        )
}

/// The key that turns a page as the wheel does.
pub open spec fn wheel_key(up: bool) -> KeyEvent {
    KeyEvent {
        code: if up {
            KeyCode::PageUp
        } else {
            KeyCode::PageDown
        },
        modifiers: KeyModifiers {
            shift: false,
            control: false,
            alt: false,
            command: false,
            hyper: false,
            meta: false,
        },
    }
}

/// Turns the wheel over the plan pane or elsewhere.
pub fn turn_wheel(up: bool, over: bool, s: &mut Cockpit) -> (r: Vec<StateRequest>)
    requires
        old(s).well_formed(),
    ensures
        scrolled(up, over, *old(s), *final(s), effects::request_views(r@)),
        final(s).well_formed(),
{
    let mut r: Vec<StateRequest> = vec![StateRequest::ClearTextSelection];
    proof {
        assert(effects::request_views(r@) =~= seq![effects::RequestView::ClearTextSelection]);
    }
    match s.overlay.take() {
        Some(Overlay::CommandDetails(mut details)) => {
            let code = if up {
                KeyCode::PageUp
            } else {
                KeyCode::PageDown
            };
            let _ = details.handle_key(KeyEvent::new(code, KeyModifiers::none()));
            s.overlay = Some(Overlay::CommandDetails(details));
            return r;
        },
        Some(other) => {
            s.overlay = Some(other);
            return r;
        },
        None => {},
    }
    if over {
        plan_controller::scroll_pane(up, &mut s.plan);
    } else {
        let ghost before = r@;
        let request = if up {
            StateRequest::ScrollTimelineUp(controller::TIMELINE_SCROLL_STEP)
        } else {
            StateRequest::ScrollTimelineDown(controller::TIMELINE_SCROLL_STEP)
        };
        r.push(request);
        proof {
            assert(effects::request_views(r@) =~= effects::request_views(before).push(request@));
        }
    }
    r
}

/// Turns the wheel up.
pub fn handle_mouse_scroll_up(
    p: Position,
    size: Size,
    heights: PaneHeights,
    s: &mut Cockpit,
) -> (r: Vec<StateRequest>)
    requires
        old(s).well_formed(),
    ensures
        scrolled_at(true, p, size, heights, *old(s), *final(s), effects::request_views(r@)),
        has_room(size, heights) ==> scrolled(
            true,
            over_plan(p, roomy_panes(size, heights, old(s).plan)),
            *old(s),
            *final(s),
            effects::request_views(r@),
        ),
        final(s).well_formed(),
{
    let rects = cockpit_rects(size, heights, &s.plan);
    turn_wheel(true, lies_over_plan(p, &rects), s)
}

/// Turns the wheel down.
pub fn handle_mouse_scroll_down(
    p: Position,
    size: Size,
    heights: PaneHeights,
    s: &mut Cockpit,
) -> (r: Vec<StateRequest>)
    requires
        old(s).well_formed(),
    ensures
        scrolled_at(false, p, size, heights, *old(s), *final(s), effects::request_views(r@)),
        has_room(size, heights) ==> scrolled(
            false,
            over_plan(p, roomy_panes(size, heights, old(s).plan)),
            *old(s),
            *final(s),
            effects::request_views(r@),
        ),
        final(s).well_formed(),
{
    let rects = cockpit_rects(size, heights, &s.plan);
    turn_wheel(false, lies_over_plan(p, &rects), s)
}

/// Whatever the wheel does, the selection goes first, and the conversation moves only where
/// nothing lies over it.
pub proof fn wheels_leave_covered_text_alone(
    up: bool,
    over: bool,
    before: Cockpit,
    after: Cockpit,
    asked: Seq<effects::RequestView>,
)
    requires
        scrolled(up, over, before, after, asked),
    ensures
        asked.len() > 0 && asked[0] is ClearTextSelection,
        asked.len() > 1 <==> before.overlay is None && !over,
{
}

/// A plan that is closed catches no wheel: where no overlay is open, the conversation moves
/// and the screen stays as it is, wherever the panes lie.
pub proof fn closed_plans_catch_no_wheel(
    up: bool,
    p: Position,
    size: Size,
    heights: PaneHeights,
    before: Cockpit,
    after: Cockpit,
    asked: Seq<effects::RequestView>,
)
    requires
        scrolled_at(up, p, size, heights, before, after, asked),
        before.overlay is None,
        !before.plan.open,
    ensures
        after == before,
        asked.len() == 2,
        up ==> asked[1] == effects::RequestView::ScrollTimelineUp(
            controller::TIMELINE_SCROLL_STEP,
        ),
        !up ==> asked[1] == effects::RequestView::ScrollTimelineDown(
            controller::TIMELINE_SCROLL_STEP,
        ),
{
}

/// Without an overlay, a press selects from where it is, a drag follows, and a release ends the
/// selection there; below an overlay nothing is selected.
pub proof fn the_mouse_selects_where_it_is(mouse: MouseInput, p: Position)
    ensures
        mouse_step(mouse, true) == MouseStep::ClearSelection,
        mouse == MouseInput::Down(p) <==> mouse_step(mouse, false) == MouseStep::Press(p),
        mouse == MouseInput::Drag(p) <==> mouse_step(mouse, false) == MouseStep::DragSelection(p),
        mouse == MouseInput::Up(p) <==> mouse_step(mouse, false) == MouseStep::FinishSelection(p),
{
}

/// The wheel scrolls what it is turned over, the way that it is turned: the conversation by its
/// step, or the plan pane, and not both.
pub proof fn the_wheel_scrolls_what_it_is_over(
    up: bool,
    over: bool,
    before: Cockpit,
    after: Cockpit,
    asked: Seq<effects::RequestView>,
)
    requires
        scrolled(up, over, before, after, asked),
        before.overlay is None,
    ensures
        asked.len() > 0,
        asked[0] == effects::RequestView::ClearTextSelection,
        !over && up ==> asked.last() == effects::RequestView::ScrollTimelineUp(
            controller::TIMELINE_SCROLL_STEP,
        ) && after == before,
        !over && !up ==> asked.last() == effects::RequestView::ScrollTimelineDown(
            controller::TIMELINE_SCROLL_STEP,
        ) && after == before,
        over ==> asked.len() == 1,
        over && up ==> after.plan.scroll_offset <= before.plan.scroll_offset
            && after.plan.inspector_scroll_offset <= before.plan.inspector_scroll_offset,
        over && !up && before.plan.well_formed() ==> after.plan.scroll_offset
            >= before.plan.scroll_offset && after.plan.inspector_scroll_offset
            >= before.plan.inspector_scroll_offset,
        after.input == before.input,
        after.plan.snapshot == before.plan.snapshot,
{
}

} // verus!
