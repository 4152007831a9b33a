//! The screen as a whole: which panes are drawn where, the header and the status.
use crate::layout::{Rect, TimelineRects};
use crate::ui;
use crate::ui::{Line, SemanticColor, Span, SpanView, Style, Tint};
use vstd::prelude::*;

verus! {

/// A pane of the screen.
#[derive(Debug, Clone, Copy, PartialEq, Eq, Structural)]
pub enum ScreenPane {
    Header,
    Timeline,
    Plan,
    Queue,
    Completion,
    Input,
    Status,
}

/// The panes that are drawn, one after the other, and where. The conversation is drawn where it
/// has a cell, and the completions where they have a row.
pub open spec fn drawn(rects: TimelineRects, completion_height: u16) -> Seq<(ScreenPane, Rect)> {
    let head = seq![(ScreenPane::Header, rects.header)];
    let timeline = if rects.timeline.width > 0 && rects.timeline.height > 0 {
        head.push((ScreenPane::Timeline, rects.timeline))
    } else {
        head
    };
    let plan = match rects.plan {
        Some(region) => timeline.push((ScreenPane::Plan, region)),
        None => timeline,
    };
    let queue = match rects.queue {
        Some(region) => plan.push((ScreenPane::Queue, region)),
        None => plan,
    };
    let completion = if completion_height > 0 {
        queue.push((ScreenPane::Completion, rects.completion))
    } else {
        queue
    };
    completion.push((ScreenPane::Input, rects.input)).push((ScreenPane::Status, rects.status))
}

pub fn drawn_panes(rects: &TimelineRects, completion_height: u16) -> (r: Vec<(ScreenPane, Rect)>)
    ensures
        r@ == drawn(*rects, completion_height),
{
    let mut panes: Vec<(ScreenPane, Rect)> = Vec::new();
    panes.push((ScreenPane::Header, rects.header));
    if rects.timeline.width > 0 && rects.timeline.height > 0 {
        panes.push((ScreenPane::Timeline, rects.timeline));
    }
    if let Some(region) = rects.plan {
        panes.push((ScreenPane::Plan, region));
    }
    if let Some(region) = rects.queue {
        panes.push((ScreenPane::Queue, region));
    }
    if completion_height > 0 {
        panes.push((ScreenPane::Completion, rects.completion));
    }
    panes.push((ScreenPane::Input, rects.input));
    panes.push((ScreenPane::Status, rects.status));
    proof {
        assert(panes@ =~= drawn(*rects, completion_height));
    }
    panes
}

/// The header.
pub open spec fn header_text(workspace: Seq<char>, model: Seq<char>, usage: Seq<char>) -> Seq<
    SpanView,
> {
    seq![
        ui::span("merry"@, ui::colored(SemanticColor::Status).bolded()),
        ui::span("  "@, ui::plain_style()),
        ui::span(workspace, ui::colored(SemanticColor::Command)),
        ui::span("  "@, ui::plain_style()),
        ui::span(model, ui::colored(SemanticColor::ToolKeyword).bolded()),
        ui::span("  "@, ui::plain_style()),
        ui::span(usage, ui::colored(SemanticColor::Assistant).dimmed()),
    ]
}

pub fn header_line(workspace: &str, model: &str, usage: &str) -> (r: Line)
    ensures
        r@ == header_text(workspace@, model@, usage@),
{
    let mut line = Line::empty();
    line.push(Span::of("merry", Style::color(SemanticColor::Status).bold()));
    line.push(Span::of("  ", Style::plain()));
    line.push(Span::of(workspace, Style::color(SemanticColor::Command)));
    line.push(Span::of("  ", Style::plain()));
    line.push(Span::of(model, Style::color(SemanticColor::ToolKeyword).bold()));
    line.push(Span::of("  ", Style::plain()));
    line.push(Span::of(usage, Style::color(SemanticColor::Assistant).dim()));
    proof {
        assert(line@ =~= header_text(workspace@, model@, usage@));
    }
    line
}

/// What the header stands on.
pub fn header_background_style() -> (r: Style)
    ensures
        r == (Style { bg: Some(Tint::HeaderGround), ..ui::plain_style() }),
{
    let mut r = Style::plain();
    r.bg = Some(Tint::HeaderGround);
    r
}

/// The style of the status: it stands out while something runs.
pub fn status_style(active_run: bool) -> (r: Style)
    ensures
        r == (if active_run {
            ui::colored(SemanticColor::Focus).bolded()
        } else {
            ui::colored(SemanticColor::Muted)
        }),
{
    if active_run {
        Style::color(SemanticColor::Focus).bold()
    } else {
        Style::color(SemanticColor::Muted)
    }
}

} // verus!
