//! Where the panes of the screen stand.
use crate::text;
use ratatui::layout as screen;
use ratatui::widgets::{Paragraph, Wrap};
use vstd::prelude::*;

verus! {

/// A rectangle of cells.
#[derive(Debug, Clone, Copy, PartialEq, Eq, Structural)]
pub struct Rect {
    pub x: u16,
    pub y: u16,
    pub width: u16,
    pub height: u16,
}

/// A cell.
#[derive(Debug, Clone, Copy, PartialEq, Eq, Structural)]
pub struct Position {
    pub x: u16,
    pub y: u16,
}

/// The sum of two coordinates, or the last one there is.
pub open spec fn capped_sum(a: int, b: int) -> int {
    if a + b > u16::MAX {
        u16::MAX as int
    } else {
        a + b
    }
}

/// What is left of `a` without `b`.
pub open spec fn rest_of(a: int, b: int) -> int {
    if a > b {
        a - b
    } else {
        0
    }
}

pub open spec fn no_rect() -> Rect {
    Rect { x: 0, y: 0, width: 0, height: 0 }
}

impl Rect {
    /// A rectangle, cut off where the coordinates end.
    pub fn new(x: u16, y: u16, width: u16, height: u16) -> (r: Rect)
        ensures
            r.x == x,
            r.y == y,
            r.width == (if x + width > u16::MAX {
                u16::MAX - x
            } else {
                width as int
            }),
            r.height == (if y + height > u16::MAX {
                u16::MAX - y
            } else {
                height as int
            }),
    {
        let max_width: u16 = u16::MAX - x;
        let max_height: u16 = u16::MAX - y;
        Rect {
            x,
            y,
            width: if width > max_width {
                max_width
            } else {
                width
            },
            height: if height > max_height {
                max_height
            } else {
                height
            },
        }
    }

    pub fn right(self) -> (r: u16)
        ensures
            r == capped_sum(self.x as int, self.width as int),
    {
        self.x.saturating_add(self.width)
    }

    pub fn bottom(self) -> (r: u16)
        ensures
            r == capped_sum(self.y as int, self.height as int),
    {
        self.y.saturating_add(self.height)
    }

    /// Whether a cell lies in the rectangle.
    pub open spec fn holds(self, p: Position) -> bool {
        self.x <= p.x && p.x < capped_sum(self.x as int, self.width as int) && self.y <= p.y && p.y
            < capped_sum(self.y as int, self.height as int)
    }

    pub fn contains(self, p: Position) -> (r: bool)
        ensures
            r == self.holds(p),
    {
        p.x >= self.x && p.x < self.right() && p.y >= self.y && p.y < self.bottom()
    }

    /// The rectangle without a margin of one cell; a rectangle too small for one is gone.
    pub open spec fn within_margin(self) -> Rect {
        if self.width < 2 || self.height < 2 {
            no_rect()
        } else {
            Rect {
                x: capped_sum(self.x as int, 1) as u16,
                y: capped_sum(self.y as int, 1) as u16,
                width: (self.width - 2) as u16,
                height: (self.height - 2) as u16,
            }
        }
    }

    pub fn inner(self) -> (r: Rect)
        ensures
            r == self.within_margin(),
    {
        if self.width < 2 || self.height < 2 {
            Rect { x: 0, y: 0, width: 0, height: 0 }
        } else {
            Rect {
                x: self.x.saturating_add(1),
                y: self.y.saturating_add(1),
                width: self.width - 2,
                height: self.height - 2,
            }
        }
    }
}

/// What is inside a border.
pub fn bordered_inner(region: Rect) -> (r: Rect)
    ensures
        r.x == capped_sum(region.x as int, 1),
        r.y == capped_sum(region.y as int, 1),
        r.width == rest_of(region.width as int, 2),
        r.height == rest_of(region.height as int, 2),
{
    Rect {
        x: region.x.saturating_add(1),
        y: region.y.saturating_add(1),
        width: region.width.saturating_sub(2),
        height: region.height.saturating_sub(2),
    }
}

/// A rectangle of the given size in the middle of another one.
pub open spec fn centered_in(area: Rect, width: u16, height: u16) -> Rect {
    Rect {
        x: (area.x + rest_of(area.width as int, width as int) / 2) as u16,
        y: (area.y + rest_of(area.height as int, height as int) / 2) as u16,
        width,
        height,
    }
}

/// A rectangle of the given size in the middle of another one, which holds it.
pub fn centered(area: Rect, width: u16, height: u16) -> (r: Rect)
    requires
        area.x + area.width <= u16::MAX,
        area.y + area.height <= u16::MAX,
        width <= area.width,
        height <= area.height,
    ensures
        r == centered_in(area, width, height),
        r.x + r.width <= area.x + area.width,
        r.y + r.height <= area.y + area.height,
{
    Rect {
        x: area.x + (area.width - width) / 2,
        y: area.y + (area.height - height) / 2,
        width,
        height,
    }
}

/// How the screen is used, by its width.
#[derive(Debug, Clone, Copy, PartialEq, Eq, Structural)]
pub enum TimelineLayoutMode {
    Narrow,
    Standard,
    Wide,
}

/// How high the panes below the conversation are.
#[derive(Debug, Clone, Copy, PartialEq, Eq, Structural)]
pub struct BottomPaneHeights {
    pub queue: u16,
    pub completion: u16,
    pub input: u16,
    pub status: u16,
}

/// Where the panes stand.
#[derive(Debug, Clone, Copy, PartialEq, Eq, Structural)]
pub struct TimelineRects {
    pub mode: TimelineLayoutMode,
    pub header: Rect,
    pub timeline: Rect,
    pub plan: Option<Rect>,
    pub queue: Option<Rect>,
    pub completion: Rect,
    pub input: Rect,
    pub status: Rect,
}

pub open spec fn mode_of(width: u16) -> TimelineLayoutMode {
    if width >= 120 {
        TimelineLayoutMode::Wide
    } else if width >= 80 {
        TimelineLayoutMode::Standard
    } else {
        TimelineLayoutMode::Narrow
    }
}

pub fn layout_mode(width: u16) -> (r: TimelineLayoutMode)
    ensures
        r == mode_of(width),
{
    if width >= 120 {
        TimelineLayoutMode::Wide
    } else if width >= 80 {
        TimelineLayoutMode::Standard
    } else {
        TimelineLayoutMode::Narrow
    }
}

/// How much of a length a pane takes.
#[derive(Debug, Clone, Copy, PartialEq, Eq, Structural)]
pub enum Constraint {
    Length(u16),
    Min(u16),
    Percentage(u16),
}

/// Whether a rectangle lies in another one.
pub open spec fn lies_in(inner: Rect, outer: Rect) -> bool {
    &&& outer.x <= inner.x
    &&& outer.y <= inner.y
    &&& inner.x + inner.width <= outer.x + outer.width
    &&& inner.y + inner.height <= outer.y + outer.height
}

/// Whether these are so many parts of an area, each of them as wide as the area if it is
/// divided from the top down, and as high as it if it is divided from left to right.
pub open spec fn parts_of(parts: Seq<Rect>, area: Rect, downwards: bool, count: nat) -> bool {
    &&& parts.len() == count
    &&& forall|i: int|
        0 <= i < parts.len() ==> {
            &&& lies_in(#[trigger] parts[i], area)
            &&& if downwards {
                parts[i].x == area.x && parts[i].width == area.width
            } else {
                parts[i].y == area.y && parts[i].height == area.height
            }
        }
}

/// Where a rectangle begins along a direction.
pub open spec fn begin_of(r: Rect, downwards: bool) -> int {
    if downwards {
        r.y as int
    } else {
        r.x as int
    }
}

/// How long a rectangle is along a direction.
pub open spec fn extent_of(r: Rect, downwards: bool) -> int {
    if downwards {
        r.height as int
    } else {
        r.width as int
    }
}

/// What the first `n` constraints ask for, be it exactly or at least.
pub open spec fn asked_in(constraints: Seq<Constraint>, n: int) -> int
    decreases n,
{
    if n <= 0 {
        0
    } else {
        asked_in(constraints, n - 1) + match constraints[n - 1] {
            Constraint::Length(size) => size as int,
            Constraint::Min(size) => size as int,
            Constraint::Percentage(_) => 0int,
        }
    }
}

/// Whether an area has room for lengths and minima. The solver keeps a minimum in fifteen
/// bits.
pub open spec fn fits(area: Rect, downwards: bool, constraints: Seq<Constraint>) -> bool {
    &&& begin_of(area, downwards) + extent_of(area, downwards) <= u16::MAX
    &&& asked_in(constraints, constraints.len() as int) <= extent_of(area, downwards)
    &&& forall|i: int|
        0 <= i < constraints.len() ==> match #[trigger] constraints[i] {
            Constraint::Length(_) => true,
            Constraint::Min(size) => size <= i16::MAX,
            Constraint::Percentage(_) => false,
        }
}

/// Whether parts follow each other from where the area begins, without gap or overlap.
pub open spec fn in_order(parts: Seq<Rect>, area: Rect, downwards: bool) -> bool {
    &&& parts.len() > 0 ==> begin_of(parts[0], downwards) == begin_of(area, downwards)
    &&& forall|i: int, j: int|
        #![trigger parts[i], parts[j]]
        0 <= i < parts.len() && 0 <= j < parts.len() && j == i + 1 ==> begin_of(parts[j], downwards)
            == begin_of(parts[i], downwards) + extent_of(parts[i], downwards)
}

/// Whether the last part ends where the area does.
pub open spec fn to_the_end(parts: Seq<Rect>, area: Rect, downwards: bool) -> bool {
    begin_of(parts.last(), downwards) + extent_of(parts.last(), downwards) == begin_of(
        area,
        downwards,
    ) + extent_of(area, downwards)
}

/// Whether the constraint at this place is the only one that can grow.
pub open spec fn only_min(constraints: Seq<Constraint>, m: int) -> bool {
    &&& 0 <= m < constraints.len()
    &&& constraints[m] is Min
    &&& forall|i: int| 0 <= i < constraints.len() && i != m ==> #[trigger] constraints[i] is Length
}

/// Whether parts keep to constraints that they have room for: each length is kept, each
/// minimum is reached, and one that alone can grow takes what is left.
pub open spec fn kept_to(
    parts: Seq<Rect>,
    area: Rect,
    downwards: bool,
    constraints: Seq<Constraint>,
) -> bool {
    &&& in_order(parts, area, downwards)
    &&& forall|i: int|
        0 <= i < parts.len() ==> match constraints[i] {
            Constraint::Length(size) => extent_of(#[trigger] parts[i], downwards) == size,
            Constraint::Min(size) => extent_of(parts[i], downwards) >= size,
            Constraint::Percentage(_) => true,
        }
    &&& (exists|m: int| #[trigger] only_min(constraints, m)) ==> to_the_end(parts, area, downwards)
}

/// A percentage of a length, to the nearest cell.
pub open spec fn percent_of(extent: int, percent: int) -> int {
    (extent * percent + 50) / 100
}

/// Whether two parts share the whole of an area, the first with this percentage of it.
pub open spec fn shared_by_two(parts: Seq<Rect>, area: Rect, downwards: bool, percent: int) -> bool {
    &&& in_order(parts, area, downwards)
    &&& extent_of(parts[0], downwards) == percent_of(extent_of(area, downwards), percent)
    &&& to_the_end(parts, area, downwards)
}

/// Whether an area is shared out by these constraints. Where lengths and minima do not fit,
/// only the number of the parts and their places in the area are said.
pub open spec fn shared_out(
    parts: Seq<Rect>,
    area: Rect,
    downwards: bool,
    constraints: Seq<Constraint>,
) -> bool {
    &&& parts_of(parts, area, downwards, constraints.len())
    &&& fits(area, downwards, constraints) ==> kept_to(parts, area, downwards, constraints)
    &&& constraints.len() == 2 && begin_of(area, downwards) + extent_of(area, downwards)
        <= u16::MAX ==> match (constraints[0], constraints[1]) {
        (Constraint::Percentage(p), Constraint::Percentage(q)) => p + q == 100 ==> shared_by_two(
            parts,
            area,
            downwards,
            p as int,
        ),
        _ => true,
    }
}

/// `ratatui::layout::Layout::split` of the default layout in the given direction: one
/// rectangle for each constraint, in the area, and across the direction as large as the
/// area. Where lengths and minima have room, each is kept, the parts follow each other, and a
/// single minimum takes what is left, for the solver holds each of these far above what lets
/// parts grow; few constraints cannot outweigh that. Two percentages of the whole share it to
/// the nearest cell. Where lengths do not fit, the solver settles ties by the order of its
/// hash maps, so nothing is claimed of the sizes.
#[verifier::external_body]
pub(crate) fn divide(area: Rect, downwards: bool, constraints: &Vec<Constraint>) -> (r: Vec<Rect>)
    requires
        constraints@.len() <= 8,
    ensures
        shared_out(r@, area, downwards, constraints@),
{
    let given = constraints.iter().map(|c| match *c {
        Constraint::Length(n) => screen::Constraint::Length(n),
        Constraint::Min(n) => screen::Constraint::Min(n),
        Constraint::Percentage(n) => screen::Constraint::Percentage(n),
    });
    let direction = if downwards { screen::Direction::Vertical } else { screen::Direction::Horizontal };
    let layout = screen::Layout::default().direction(direction).constraints(given);
    let parts = layout.split(screen::Rect { x: area.x, y: area.y, width: area.width, height: area.height });
    parts.iter().map(|p| Rect { x: p.x, y: p.y, width: p.width, height: p.height }).collect()
}

/// The sum of the first `n` heights.
pub open spec fn height_in(heights: Seq<int>, n: int) -> int
    decreases n,
{
    if n <= 0 {
        0
    } else {
        height_in(heights, n - 1) + heights[n - 1]
    }
}

/// Rows of these heights from the top of an area down, each as wide as the area.
pub open spec fn stacked(area: Rect, heights: Seq<int>) -> Seq<Rect> {
    Seq::new(
        heights.len(),
        |i: int|
            Rect {
                x: area.x,
                y: (area.y + height_in(heights, i)) as u16,
                width: area.width,
                height: heights[i] as u16,
            },
    )
}

proof fn lemma_one_height_differs(a: Seq<int>, b: Seq<int>, m: int, n: int)
    requires
        a.len() == b.len(),
        0 <= n <= a.len(),
        0 <= m < a.len(),
        forall|i: int| 0 <= i < a.len() && i != m ==> #[trigger] a[i] == b[i],
    ensures
        height_in(a, n) - height_in(b, n) == (if m < n {
            a[m] - b[m]
        } else {
            0
        }),
    decreases n,
{
    if n > 0 {
        lemma_one_height_differs(a, b, m, n - 1);
        if n - 1 != m {
            assert(a[n - 1] == b[n - 1]);
        }
    }
}

proof fn lemma_parts_are_summed(parts: Seq<Rect>, area: Rect, heights: Seq<int>, n: int)
    requires
        in_order(parts, area, true),
        heights.len() == parts.len(),
        forall|i: int| 0 <= i < parts.len() ==> (#[trigger] heights[i]) == parts[i].height,
        0 <= n < parts.len(),
    ensures
        parts[n].y == area.y + height_in(heights, n),
    decreases n,
{
    if n > 0 {
        lemma_parts_are_summed(parts, area, heights, n - 1);
        assert(heights[n - 1] == parts[n - 1].height);
        assert(begin_of(parts[n], true) == begin_of(parts[n - 1], true) + extent_of(
            parts[n - 1],
            true,
        ));
    }
}

/// Rows that have room stand where their heights put them: each has what it asks for, and the
/// one that can grow has the rest.
pub proof fn rows_with_room_are_stacked(
    parts: Seq<Rect>,
    area: Rect,
    constraints: Seq<Constraint>,
    m: int,
    heights: Seq<int>,
)
    requires
        shared_out(parts, area, true, constraints),
        fits(area, true, constraints),
        only_min(constraints, m),
        heights.len() == constraints.len(),
        forall|i: int|
            0 <= i < heights.len() && i != m ==> #[trigger] heights[i] == (
            constraints[i]->Length_0) as int,
        height_in(heights, heights.len() as int) == area.height,
    ensures
        parts == stacked(area, heights),
{
    let given = Seq::new(parts.len(), |i: int| parts[i].height as int);
    let n = parts.len() as int;
    assert forall|i: int| 0 <= i < n && i != m implies #[trigger] heights[i] == given[i] by {
        assert(constraints[i] is Length);
        assert(extent_of(parts[i], true) == constraints[i]->Length_0);
    }
    lemma_parts_are_summed(parts, area, given, n - 1);
    lemma_one_height_differs(heights, given, m, n);
    assert(to_the_end(parts, area, true));
    assert(parts.last() == parts[n - 1]);
    assert(height_in(given, n) == height_in(given, n - 1) + given[n - 1]);
    assert(heights =~= given);
    assert forall|i: int| 0 <= i < n implies #[trigger] parts[i] == stacked(area, heights)[i] by {
        lemma_parts_are_summed(parts, area, given, i);
    }
    assert(parts =~= stacked(area, heights));
}

/// The rows of the screen, from the header down to the status.
pub open spec fn row_constraints(bottom: BottomPaneHeights) -> Seq<Constraint> {
    seq![
        Constraint::Length(1),
        Constraint::Min(1),
        Constraint::Length(bottom.queue),
        Constraint::Length(bottom.completion),
        Constraint::Length(bottom.input),
        Constraint::Length(bottom.status),
    ]
}

/// How the conversation and the plan share their row, if they do.
pub open spec fn column_constraints(mode: TimelineLayoutMode) -> Seq<Constraint> {
    match mode {
        TimelineLayoutMode::Wide => seq![Constraint::Percentage(64), Constraint::Percentage(36)],
        _ => seq![Constraint::Percentage(58), Constraint::Percentage(42)],
    }
}

/// How high the rows of the screen are asked to be.
pub fn row_heights(bottom: BottomPaneHeights) -> (r: Vec<Constraint>)
    ensures
        r@ == row_constraints(bottom),
{
    let heights = vec![
        Constraint::Length(1),
        Constraint::Min(1),
        Constraint::Length(bottom.queue),
        Constraint::Length(bottom.completion),
        Constraint::Length(bottom.input),
        Constraint::Length(bottom.status),
    ];
    proof {
        assert(heights@ =~= row_constraints(bottom));
    }
    heights
}

/// How wide the conversation and the plan beside it are asked to be.
pub fn column_widths(mode: TimelineLayoutMode) -> (r: Vec<Constraint>)
    ensures
        r@ == column_constraints(mode),
{
    let widths = if mode == TimelineLayoutMode::Wide {
        vec![Constraint::Percentage(64), Constraint::Percentage(36)]
    } else {
        vec![Constraint::Percentage(58), Constraint::Percentage(42)]
    };
    proof {
        assert(widths@ =~= column_constraints(mode));
    }
    widths
}

/// Whether the plan stands beside the conversation.
pub open spec fn side_by_side(mode: TimelineLayoutMode, plan_open: bool) -> bool {
    plan_open && mode != TimelineLayoutMode::Narrow
}

/// The panes of a screen that is divided into these rows, and the second of them into
/// these columns.
pub open spec fn arranged(
    mode: TimelineLayoutMode,
    bottom: BottomPaneHeights,
    plan_open: bool,
    plan_focused: bool,
    rows: Seq<Rect>,
    columns: Seq<Rect>,
) -> TimelineRects {
    TimelineRects {
        mode,
        header: rows[0],
        timeline: if side_by_side(mode, plan_open) {
            columns[0]
        } else if plan_open && plan_focused {
            no_rect()
        } else {
            rows[1]
        },
        plan: if side_by_side(mode, plan_open) {
            Some(columns[1])
        } else if plan_open && plan_focused {
            Some(rows[1])
        } else {
            None
        },
        queue: if bottom.queue > 0 {
            Some(rows[2])
        } else {
            None
        },
        completion: rows[3],
        input: rows[4],
        status: rows[5],
    }
}

/// Gives the panes their places. On a narrow screen the plan covers the conversation, and
/// only while it is focused.
pub fn arrange(
    mode: TimelineLayoutMode,
    bottom: BottomPaneHeights,
    plan_open: bool,
    plan_focused: bool,
    rows: &Vec<Rect>,
    columns: &Vec<Rect>,
) -> (r: TimelineRects)
    requires
        rows@.len() == 6,
        side_by_side(mode, plan_open) ==> columns@.len() == 2,
    ensures
        r == arranged(mode, bottom, plan_open, plan_focused, rows@, columns@),
{
    let beside = plan_open && mode != TimelineLayoutMode::Narrow;
    let (timeline, plan) = if beside {
        (columns[0], Some(columns[1]))
    } else if plan_open && plan_focused {
        (Rect { x: 0, y: 0, width: 0, height: 0 }, Some(rows[1]))
    } else {
        (rows[1], None)
    };
    TimelineRects {
        mode,
        header: rows[0],
        timeline,
        plan,
        queue: if bottom.queue > 0 {
            Some(rows[2])
        } else {
            None
        },
        completion: rows[3],
        input: rows[4],
        status: rows[5],
    }
}

/// Whether these are the panes of a screen that was divided into these rows and columns.
pub open spec fn laid_out(
    area: Rect,
    bottom: BottomPaneHeights,
    plan_open: bool,
    plan_focused: bool,
    rows: Seq<Rect>,
    columns: Seq<Rect>,
    panes: TimelineRects,
) -> bool {
    let mode = mode_of(area.width);
    &&& shared_out(rows, area, true, row_constraints(bottom))
    &&& side_by_side(mode, plan_open) ==> shared_out(
        columns,
        rows[1],
        false,
        column_constraints(mode),
    )
    &&& panes == arranged(mode, bottom, plan_open, plan_focused, rows, columns)
}

/// Whether these are the panes of a screen, however its rows and columns share it.
pub open spec fn cockpit(
    area: Rect,
    bottom: BottomPaneHeights,
    plan_open: bool,
    plan_focused: bool,
    panes: TimelineRects,
) -> bool {
    exists|rows: Seq<Rect>, columns: Seq<Rect>| #[trigger]
        laid_out(area, bottom, plan_open, plan_focused, rows, columns, panes)
}

/// Whether the panes lie on the screen, but for a conversation that the plan covers.
pub open spec fn on_screen(panes: TimelineRects, area: Rect) -> bool {
    &&& lies_in(panes.header, area)
    &&& lies_in(panes.timeline, area) || (panes.timeline == no_rect() && panes.plan is Some)
    &&& panes.plan matches Some(p) ==> lies_in(p, area)
    &&& panes.queue matches Some(q) ==> lies_in(q, area)
    &&& lies_in(panes.completion, area)
    &&& lies_in(panes.input, area)
    &&& lies_in(panes.status, area)
}

/// Whether a pane goes from the left edge of the screen to the right one.
pub open spec fn spans(pane: Rect, area: Rect) -> bool {
    pane.x == area.x && pane.width == area.width
}

/// Whether a screen has room for the panes below the conversation, a header and a row of the
/// conversation.
pub open spec fn has_room(area: Rect, bottom: BottomPaneHeights) -> bool {
    &&& area.x + area.width <= u16::MAX
    &&& area.y + area.height <= u16::MAX
    &&& 2 + bottom.queue + bottom.completion + bottom.input + bottom.status <= area.height
}

/// The rows of a screen that has room: the conversation takes what the others leave.
pub open spec fn roomy_rows(area: Rect, bottom: BottomPaneHeights) -> Seq<Rect> {
    stacked(
        area,
        seq![
            1,
            area.height - 1 - bottom.queue - bottom.completion - bottom.input - bottom.status,
            bottom.queue as int,
            bottom.completion as int,
            bottom.input as int,
            bottom.status as int,
        ],
    )
}

/// A row shared by the conversation and the plan.
pub open spec fn roomy_columns(row: Rect, mode: TimelineLayoutMode) -> Seq<Rect> {
    let left = percent_of(
        row.width as int,
        if mode == TimelineLayoutMode::Wide {
            64
        } else {
            58
        },
    );
    seq![
        Rect { width: left as u16, ..row },
        Rect { x: (row.x + left) as u16, width: (row.width - left) as u16, ..row },
    ]
}

/// The panes of a screen that has room.
pub open spec fn roomy_panes(
    area: Rect,
    bottom: BottomPaneHeights,
    plan_open: bool,
    plan_focused: bool,
) -> TimelineRects {
    let mode = mode_of(area.width);
    let rows = roomy_rows(area, bottom);
    arranged(mode, bottom, plan_open, plan_focused, rows, roomy_columns(rows[1], mode))
}

/// A screen that has room is shared in one way: each pane has the height that it asks for, one
/// below the other, and the plan stands beside the conversation without gap or overlap.
pub proof fn screens_with_room_are_settled(
    area: Rect,
    bottom: BottomPaneHeights,
    plan_open: bool,
    plan_focused: bool,
    panes: TimelineRects,
)
    requires
        cockpit(area, bottom, plan_open, plan_focused, panes),
        has_room(area, bottom),
    ensures
        panes == roomy_panes(area, bottom, plan_open, plan_focused),
{
    let (rows, columns) = choose|rows: Seq<Rect>, columns: Seq<Rect>| #[trigger]
        laid_out(area, bottom, plan_open, plan_focused, rows, columns, panes);
    let heights: Seq<int> = seq![
        1,
        area.height - 1 - bottom.queue - bottom.completion - bottom.input - bottom.status,
        bottom.queue as int,
        bottom.completion as int,
        bottom.input as int,
        bottom.status as int,
    ];
    let asked = row_constraints(bottom);
    let mode = mode_of(area.width);
    reveal_with_fuel(asked_in, 7);
    reveal_with_fuel(height_in, 7);
    assert(only_min(asked, 1));
    rows_with_room_are_stacked(rows, area, asked, 1, heights);
    if side_by_side(mode, plan_open) {
        let row = rows[1];
        assert(columns =~= roomy_columns(row, mode)) by {
            assert(lies_in(columns[0], row));
            assert(lies_in(columns[1], row));
            assert(begin_of(columns[1], false) == begin_of(columns[0], false) + extent_of(
                columns[0],
                false,
            ));
            assert(columns.last() == columns[1]);
        }
    }
}

/// Where the panes stand, in rows of `row_heights` and, where the plan stands beside the
/// conversation, in columns of `column_widths`, as far as there is room.
pub fn cockpit_layout(
    area: Rect,
    bottom: BottomPaneHeights,
    plan_open: bool,
    plan_focused: bool,
) -> (r: TimelineRects)
    ensures
        cockpit(area, bottom, plan_open, plan_focused, r),
        on_screen(r, area),
        has_room(area, bottom) ==> r == roomy_panes(area, bottom, plan_open, plan_focused),
{
    let mode = layout_mode(area.width);
    let rows = divide(area, true, &row_heights(bottom));
    let columns = if plan_open && mode != TimelineLayoutMode::Narrow {
        divide(rows[1], false, &column_widths(mode))
    } else {
        Vec::new()
    };
    let panes = arrange(mode, bottom, plan_open, plan_focused, &rows, &columns);
    proof {
        assert(laid_out(area, bottom, plan_open, plan_focused, rows@, columns@, panes));
        if has_room(area, bottom) {
            screens_with_room_are_settled(area, bottom, plan_open, plan_focused, panes);
        }
    }
    panes
}

/// The panes of a screen without a plan.
pub fn timeline_layout(area: Rect, bottom: BottomPaneHeights) -> (r: TimelineRects)
    ensures
        cockpit(area, bottom, false, false, r),
        on_screen(r, area),
        spans(r.timeline, area),
        has_room(area, bottom) ==> r == roomy_panes(area, bottom, false, false),
        r.plan is None,
{
    let panes = cockpit_layout(area, bottom, false, false);
    proof {
        panes_stay_on_the_screen(area, bottom, false, false, panes);
    }
    panes
}

/// A plan that is not open takes no place from the conversation, whatever the width, and
/// one that is not focused never covers it.
pub proof fn the_plan_covers_only_when_focused(
    mode: TimelineLayoutMode,
    bottom: BottomPaneHeights,
    plan_focused: bool,
    rows: Seq<Rect>,
    columns: Seq<Rect>,
)
    ensures
        arranged(mode, bottom, false, plan_focused, rows, columns).plan is None,
        arranged(mode, bottom, false, plan_focused, rows, columns).timeline == rows[1],
        mode == TimelineLayoutMode::Narrow ==> arranged(mode, bottom, true, false, rows, columns)
            == arranged(mode, bottom, false, false, rows, columns),
{
}

/// However the screen is shared, no pane leaves it; the rows go from one edge to the other, and
/// so does the conversation while no plan is open; only a plan that is open has a place, and
/// beside the conversation it is as high as that.
pub proof fn panes_stay_on_the_screen(
    area: Rect,
    bottom: BottomPaneHeights,
    plan_open: bool,
    plan_focused: bool,
    panes: TimelineRects,
)
    requires
        cockpit(area, bottom, plan_open, plan_focused, panes),
    ensures
        on_screen(panes, area),
        spans(panes.header, area),
        spans(panes.completion, area),
        spans(panes.input, area),
        spans(panes.status, area),
        !plan_open ==> spans(panes.timeline, area),
        panes.plan is Some ==> plan_open,
        side_by_side(mode_of(area.width), plan_open) ==> panes.plan is Some && panes.plan->0.y
            == panes.timeline.y && panes.plan->0.height == panes.timeline.height,
        panes.queue is Some <==> bottom.queue > 0,
{
    let (rows, columns) = choose|rows: Seq<Rect>, columns: Seq<Rect>| #[trigger]
        laid_out(area, bottom, plan_open, plan_focused, rows, columns, panes);
    assert(lies_in(rows[1], area));
}

/// The texts of the stretches of some lines.
pub open spec fn stretches(lines: Seq<Vec<String>>) -> Seq<Seq<Seq<char>>> {
    lines.map_values(|l: Vec<String>| text::views(l@))
}

/// The widest line that text is wrapped to. The wrapping adds columns up in sixteen bits, up
/// to four lines' worth of them where a single grapheme fills a line.
pub const MAX_WRAP_WIDTH: u16 = 16_384;

/// How many rows some lines, each of some stretches, take when they are wrapped to a width.
pub uninterp spec fn wrapped_rows(lines: Seq<Seq<Seq<char>>>, width: u16) -> usize;

/// `ratatui`'s `Paragraph::line_count` of lines of these stretches, wrapped without trimming.
/// It goes by the texts of the stretches and the width alone. Beyond the widest line its sums
/// of columns may overflow.
#[verifier::external_body]
pub(crate) fn count_wrapped_rows(lines: &Vec<Vec<String>>, width: u16) -> (r: usize)
    requires
        width <= MAX_WRAP_WIDTH,
    ensures
        r == wrapped_rows(stretches(lines@), width),
{
    let spans = |l: &Vec<String>| l.iter().map(|s| ratatui::text::Span::raw(s.clone())).collect::<Vec<_>>();
    let given: Vec<ratatui::text::Line> = lines.iter().map(|l| ratatui::text::Line::from(spans(l))).collect();
    Paragraph::new(given).wrap(Wrap { trim: false }).line_count(width)
}

/// Lines of one stretch each.
pub open spec fn unbroken(lines: Seq<Seq<char>>) -> Seq<Seq<Seq<char>>> {
    lines.map_values(|l: Seq<char>| seq![l])
}

/// How many rows some texts take, one below the other, when they are wrapped to a width.
pub(crate) fn count_text_rows(lines: &Vec<String>, width: u16) -> (r: usize)
    requires
        width <= MAX_WRAP_WIDTH,
    ensures
        r == wrapped_rows(unbroken(text::views(lines@)), width),
{
    let ghost all = unbroken(text::views(lines@));
    let mut given: Vec<Vec<String>> = Vec::new();
    let mut i: usize = 0;
    while i < lines.len()
        invariant
            i <= lines@.len(),
            all == unbroken(text::views(lines@)),
            stretches(given@) == all.take(i as int),
        decreases lines@.len() - i,
    {
        let ghost before = given@;
        let line = vec![lines[i].clone()];
        given.push(line);
        proof {
            assert(text::views(line@) =~= seq![lines@[i as int]@]);
            assert(stretches(given@) =~= stretches(before).push(text::views(line@)));
            assert(all.take(i + 1) =~= all.take(i as int).push(all[i as int]));
        }
        i = i + 1;
    }
    proof {
        assert(all.take(i as int) =~= all);
    }
    count_wrapped_rows(&given, width)
}

/// The heights of the panes that vary.
#[derive(Debug, Clone, Copy, PartialEq, Eq, Structural)]
pub struct PaneHeights {
    pub queue: u16,
    pub completion: u16,
    pub input: u16,
}

pub const STATUS_HEIGHT: u16 = 1;

pub const HEADER_HEIGHT: u16 = 1;

pub const QUEUE_PREVIEW_HEIGHT: u16 = 5;

pub const MAX_COMPLETION_PREVIEW_HEIGHT: u16 = 6;

pub const MAX_INPUT_VISIBLE_ROWS: usize = 5;

pub const MIN_TIMELINE_HEIGHT: u16 = 3;

pub const MIN_INPUT_HEIGHT: u16 = 3;

pub open spec fn smaller(a: int, b: int) -> int {
    if a < b {
        a
    } else {
        b
    }
}

pub open spec fn larger(a: int, b: int) -> int {
    if a > b {
        a
    } else {
        b
    }
}

/// The height that a preview of the queue would take.
pub fn desired_queue_preview_height(has_queued_items: bool) -> (r: u16)
    ensures
        r == (if has_queued_items {
            QUEUE_PREVIEW_HEIGHT
        } else {
            0
        }),
{
    if has_queued_items {
        QUEUE_PREVIEW_HEIGHT
    } else {
        0
    }
}

/// The height that a menu with this many items would take.
pub fn desired_completion_preview_height(items: Option<usize>) -> (r: u16)
    ensures
        r == (match items {
            Some(n) => smaller(n as int, MAX_COMPLETION_PREVIEW_HEIGHT as int),
            None => 0,
        }),
{
    match items {
        Some(n) => if n < 6 {
            n as u16
        } else {
            MAX_COMPLETION_PREVIEW_HEIGHT
        },
        None => 0,
    }
}

/// The height that an input with this many visible rows would take, its border included.
pub fn desired_input_region_height(visible_rows: usize) -> (r: u16)
    ensures
        r == capped_sum(smaller(visible_rows as int, u16::MAX as int), 2),
{
    let rows: u16 = if visible_rows > 65535 {
        u16::MAX
    } else {
        visible_rows as u16
    };
    rows.saturating_add(2)
}

/// The heights of the panes on a screen. Where there is room for all, each is as high as
/// it would be; else the input goes before the menu, and that before the queue.
pub open spec fn heights(total: int, queue: int, completion: int, input: int) -> (int, int, int) {
    if total >= capped_sum(
        capped_sum(
            capped_sum(capped_sum(capped_sum(queue, completion), input), STATUS_HEIGHT as int),
            HEADER_HEIGHT as int,
        ),
        MIN_TIMELINE_HEIGHT as int,
    ) {
        (queue, completion, input)
    } else {
        let room = rest_of(total, HEADER_HEIGHT + STATUS_HEIGHT + MIN_TIMELINE_HEIGHT);
        let i = larger(smaller(input, room), smaller(MIN_INPUT_HEIGHT as int, room));
        let c = smaller(completion, room - i);
        (smaller(queue, room - i - c), c, i)
    }
}

pub fn pane_heights(
    total_height: u16,
    desired_queue: u16,
    desired_completion: u16,
    desired_input: u16,
) -> (r: PaneHeights)
    ensures
        (r.queue as int, r.completion as int, r.input as int) == heights(
            total_height as int,
            desired_queue as int,
            desired_completion as int,
            desired_input as int,
        ),
{
    let desired_bottom = desired_queue.saturating_add(desired_completion).saturating_add(
        desired_input,
    ).saturating_add(STATUS_HEIGHT).saturating_add(HEADER_HEIGHT);
    if total_height >= desired_bottom.saturating_add(MIN_TIMELINE_HEIGHT) {
        return PaneHeights {
            queue: desired_queue,
            completion: desired_completion,
            input: desired_input,
        };
    }
    let mut remaining: u16 = total_height.saturating_sub(
        HEADER_HEIGHT + STATUS_HEIGHT + MIN_TIMELINE_HEIGHT,
    );
    let wanted: u16 = if desired_input < remaining {
        desired_input
    } else {
        remaining
    };
    let least: u16 = if MIN_INPUT_HEIGHT < remaining {
        MIN_INPUT_HEIGHT
    } else {
        remaining
    };
    let input: u16 = if wanted > least {
        wanted
    } else {
        least
    };
    remaining = remaining - input;
    let completion: u16 = if desired_completion < remaining {
        desired_completion
    } else {
        remaining
    };
    remaining = remaining - completion;
    let queue: u16 = if desired_queue < remaining {
        desired_queue
    } else {
        remaining
    };
    PaneHeights { queue, completion, input }
}

/// The panes never take more than the screen has, and leave the conversation its least
/// height where the screen has that much to spare.
pub proof fn panes_fit_the_screen(total: u16, queue: u16, completion: u16, input: u16)
    requires
        queue + completion + input + 5 <= u16::MAX,
    ensures
        ({
            let (q, c, i) = heights(total as int, queue as int, completion as int, input as int);
            &&& q + c + i + HEADER_HEIGHT + STATUS_HEIGHT + MIN_TIMELINE_HEIGHT <= total || (q == 0
                && c == 0 && i == 0)
            &&& q <= queue
            &&& c <= completion
        }),
{
}

/// Where the cursor of an input stands: within the input's own rows and columns.
pub fn input_cursor(region: Rect, cursor_column: usize, cursor_row: usize) -> (r: Option<Position>)
    ensures
        r is None <==> region.width == 0 || region.height == 0,
        r matches Some(p) ==> {
            &&& p.x == smaller(
                capped_sum(region.x as int, smaller(cursor_column as int, u16::MAX as int)),
                capped_sum(region.x as int, region.width - 1),
            )
            &&& p.y == smaller(
                capped_sum(region.y as int, smaller(cursor_row as int, u16::MAX as int)),
                capped_sum(region.y as int, region.height - 1),
            )
        },
{
    if region.width == 0 || region.height == 0 {
        return None;
    }
    let column: u16 = if cursor_column > 65535 {
        u16::MAX
    } else {
        cursor_column as u16
    };
    let row: u16 = if cursor_row > 65535 {
        u16::MAX
    } else {
        cursor_row as u16
    };
    let max_x: u16 = region.x.saturating_add(region.width - 1);
    let max_y: u16 = region.y.saturating_add(region.height - 1);
    let x: u16 = region.x.saturating_add(column);
    let y: u16 = region.y.saturating_add(row);
    Some(
        Position {
            x: if x < max_x {
                x
            } else {
                max_x
            },
            y: if y < max_y {
                y
            } else {
                max_y
            },
        },
    )
}

} // verus!
