//! How the overlays are drawn: where they stand, what their lines are and where the cursor is.
use crate::command;
use crate::command::CommandSpec;
use crate::input;
use crate::keymap::KeyAction;
use crate::layout;
use crate::layout::{Constraint, Position, Rect};
use crate::overlay;
use crate::overlay::{
    CommandPalette, MessageDialogKind, MessageDialogOverlay, Overlay, PlanApprovalOverlay,
    SettingItem, SettingsOverlay,
};
use crate::provider_render;
use crate::text;
use crate::ui;
use crate::ui::{Line, SemanticColor, Span, SpanView, Style, Tint};
use crate::width;
use crate::words;
use vstd::prelude::*;

verus! {

/// The most columns that an overlay takes.
pub const MAX_OVERLAY_WIDTH: u16 = 76;

/// A frame with a title, on the ground of code; what lies under it is gone.
#[derive(Debug, PartialEq, Eq)]
pub struct Surface {
    pub region: Rect,
    pub title: String,
    pub border: SemanticColor,
}

/// What stands in a pane.
#[derive(Debug, PartialEq, Eq)]
pub enum PaneContent {
    /// Lines, from the given one on.
    Lines { lines: Vec<Line>, scroll: u16 },
    /// A text that is wrapped at blanks.
    Wrapped { text: String, style: Style },
}

#[derive(Debug, PartialEq, Eq)]
pub struct Pane {
    pub region: Rect,
    pub content: PaneContent,
}

/// An overlay as it is drawn.
#[derive(Debug, PartialEq, Eq)]
pub struct OverlayDrawing {
    pub surface: Surface,
    pub panes: Vec<Pane>,
    pub cursor: Option<Position>,
}

/// What stands in a pane.
pub enum ContentView {
    Lines { lines: Seq<Seq<SpanView>>, scroll: u16 },
    Wrapped { text: Seq<char>, style: Style },
}

/// A pane.
pub struct PaneView {
    pub region: Rect,
    pub content: ContentView,
}

/// An overlay as it is drawn.
pub struct DrawingView {
    pub region: Rect,
    pub title: Seq<char>,
    pub border: SemanticColor,
    pub panes: Seq<PaneView>,
    pub cursor: Option<Position>,
}

impl View for Pane {
    type V = PaneView;

    open spec fn view(&self) -> PaneView {
        PaneView {
            region: self.region,
            content: match self.content {
                PaneContent::Lines { lines, scroll } => ContentView::Lines {
                    lines: ui::line_views(lines@),
                    scroll,
                },
                PaneContent::Wrapped { text, style } => ContentView::Wrapped { text: text@, style },
            },
        }
    }
}

pub open spec fn pane_views(v: Seq<Pane>) -> Seq<PaneView> {
    v.map_values(|p: Pane| p@)
}

impl View for OverlayDrawing {
    type V = DrawingView;

    open spec fn view(&self) -> DrawingView {
        DrawingView {
            region: self.surface.region,
            title: self.surface.title@,
            border: self.surface.border,
            panes: pane_views(self.panes@),
            cursor: self.cursor,
        }
    }
}

/// A pane of lines, from the first on.
pub open spec fn pane(region: Rect, lines: Seq<Seq<SpanView>>) -> PaneView {
    PaneView { region, content: ContentView::Lines { lines, scroll: 0 } }
}

/// A drawing without panes.
pub open spec fn framed(region: Rect, title: Seq<char>, border: SemanticColor) -> DrawingView {
    DrawingView { region, title, border, panes: Seq::empty(), cursor: None }
}

impl DrawingView {
    pub open spec fn with(self, p: PaneView) -> DrawingView {
        DrawingView { panes: self.panes.push(p), ..self }
    }

    pub open spec fn with_cursor(self, cursor: Option<Position>) -> DrawingView {
        DrawingView { cursor, ..self }
    }
}

impl OverlayDrawing {
    pub fn framed(region: Rect, title: &str, border: SemanticColor) -> (r: OverlayDrawing)
        ensures
            r@ == framed(region, title@, border),
    {
        let r = OverlayDrawing {
            surface: Surface { region, title: title.to_owned(), border },
            panes: Vec::new(),
            cursor: None,
        };
        proof {
            assert(r@.panes =~= Seq::empty());
        }
        r
    }

    /// Adds a pane.
    pub fn add_pane(&mut self, pane: Pane)
        ensures
            final(self)@ == old(self)@.with(pane@),
    {
        let ghost before = self.panes@;
        self.panes.push(pane);
        proof {
            assert(pane_views(self.panes@) =~= pane_views(before).push(pane@));
        }
    }

    /// Adds a pane of lines.
    pub fn add_lines(&mut self, region: Rect, lines: Vec<Line>)
        ensures
            final(self)@ == old(self)@.with(pane(region, ui::line_views(lines@))),
    {
        self.add_pane(Pane { region, content: PaneContent::Lines { lines, scroll: 0 } });
    }
}

/// A rectangle in the middle of an area: with a margin beside it and above it, no wider and no
/// higher than wished, and with one cell at least.
pub open spec fn centered_region(area: Rect, max_width: u16, desired_height: u16) -> Rect {
    let width = layout::larger(
        layout::smaller(layout::rest_of(area.width as int, 4), max_width as int),
        1,
    );
    let height = layout::larger(
        layout::smaller(layout::rest_of(area.height as int, 2), desired_height as int),
        1,
    );
    let x = area.x + layout::rest_of(area.width as int, width) / 2;
    let y = area.y + layout::rest_of(area.height as int, height) / 2;
    Rect {
        x: x as u16,
        y: y as u16,
        width: layout::smaller(width, u16::MAX - x) as u16,
        height: layout::smaller(height, u16::MAX - y) as u16,
    }
}

/// Whether an area ends where the coordinates do, at the latest.
pub open spec fn on_screen(area: Rect) -> bool {
    area.x + area.width <= u16::MAX && area.y + area.height <= u16::MAX
}

pub fn centered_rect(area: Rect, max_width: u16, desired_height: u16) -> (r: Rect)
    requires
        on_screen(area),
    ensures
        r == centered_region(area, max_width, desired_height),
        on_screen(r),
{
    let beside: u16 = area.width.saturating_sub(4);
    let wide: u16 = if beside < max_width {
        beside
    } else {
        max_width
    };
    let width: u16 = if wide > 1 {
        wide
    } else {
        1
    };
    let above: u16 = area.height.saturating_sub(2);
    let high: u16 = if above < desired_height {
        above
    } else {
        desired_height
    };
    let height: u16 = if high > 1 {
        high
    } else {
        1
    };
    Rect::new(
        area.x + area.width.saturating_sub(width) / 2,
        area.y + area.height.saturating_sub(height) / 2,
        width,
        height,
    )
}

/// A rectangle without a margin.
pub open spec fn inset_of(region: Rect, horizontal: u16, vertical: u16) -> Rect {
    let x = layout::capped_sum(region.x as int, horizontal as int);
    let y = layout::capped_sum(region.y as int, vertical as int);
    Rect {
        x: x as u16,
        y: y as u16,
        width: layout::smaller(
            layout::rest_of(region.width as int, 2 * horizontal),
            u16::MAX - x,
        ) as u16,
        height: layout::smaller(
            layout::rest_of(region.height as int, 2 * vertical),
            u16::MAX - y,
        ) as u16,
    }
}

pub fn inset(region: Rect, horizontal: u16, vertical: u16) -> (r: Rect)
    ensures
        r == inset_of(region, horizontal, vertical),
        on_screen(r),
{
    Rect::new(
        region.x.saturating_add(horizontal),
        region.y.saturating_add(vertical),
        region.width.saturating_sub(horizontal.saturating_add(horizontal)),
        region.height.saturating_sub(vertical.saturating_add(vertical)),
    )
}

/// What stands in an overlay lies in it.
pub proof fn insets_lie_within(region: Rect, horizontal: u16, vertical: u16, p: Position)
    requires
        on_screen(region),
        inset_of(region, horizontal, vertical).holds(p),
    ensures
        region.holds(p),
{
}

/// An overlay lies within the area that it is drawn over, where that has a cell.
pub proof fn overlays_lie_within(area: Rect, max_width: u16, desired_height: u16, p: Position)
    requires
        on_screen(area),
        area.width > 0,
        area.height > 0,
        centered_region(area, max_width, desired_height).holds(p),
    ensures
        area.holds(p),
{
}

pub open spec fn surface_style() -> Style {
    Style { bg: Some(Tint::Semantic(SemanticColor::CodeBackground)), ..ui::plain_style() }
}

pub fn code_surface_style() -> (r: Style)
    ensures
        r == surface_style(),
{
    let mut r = Style::plain();
    r.bg = Some(Tint::Semantic(SemanticColor::CodeBackground));
    r
}

/// The style of a row, chosen or not.
pub open spec fn row_style(selected: bool) -> Style {
    if selected {
        Style { fg: Some(Tint::ChosenText), bg: Some(Tint::ChosenGround), ..ui::plain_style() }
    } else {
        surface_style()
    }
}

pub fn selection_style(selected: bool) -> (r: Style)
    ensures
        r == row_style(selected),
{
    if !selected {
        return code_surface_style();
    }
    let mut r = Style::plain();
    r.fg = Some(Tint::ChosenText);
    r.bg = Some(Tint::ChosenGround);
    r
}

/// A row's style in the colour of a purpose.
pub open spec fn tinted(color: SemanticColor, selected: bool) -> Style {
    Style {
        fg: Some(
            if selected {
                Tint::OnChosen(color)
            } else {
                Tint::Semantic(color)
            },
        ),
        ..row_style(selected)
    }
}

pub fn foreground_on_base(color: SemanticColor, selected: bool) -> (r: Style)
    ensures
        r == tinted(color, selected),
{
    let mut r = selection_style(selected);
    r.fg = Some(
        if selected {
            Tint::OnChosen(color)
        } else {
            Tint::Semantic(color)
        },
    );
    r
}

/// A value beside what a row is about.
pub open spec fn value_style(color: SemanticColor, selected: bool) -> Style {
    ui::colored(color).patched(row_style(selected))
}

/// Where a window over rows begins, so that the chosen one is in it and it holds as many as it
/// can.
pub open spec fn window_start(chosen: int, rows: int, height: int) -> int {
    layout::smaller(
        layout::rest_of(chosen, layout::rest_of(height, 1)),
        layout::rest_of(rows, height),
    )
}

pub fn scroll_offset(chosen: usize, rows: usize, height: usize) -> (r: usize)
    ensures
        r == window_start(chosen as int, rows as int, height as int),
{
    let wished: usize = chosen.saturating_sub(height.saturating_sub(1));
    let most: usize = rows.saturating_sub(height);
    if wished < most {
        wished
    } else {
        most
    }
}

/// The chosen row is in the window.
pub proof fn windows_show_the_chosen_row(chosen: int, rows: int, height: int)
    requires
        0 <= chosen < rows,
        height > 0,
    ensures
        0 <= window_start(chosen, rows, height) <= chosen < window_start(chosen, rows, height)
            + height,
{
}

/// The height of a pane, which is taken for one row where it has none.
pub open spec fn row_count(region: Rect) -> int {
    layout::larger(region.height as int, 1)
}

pub(crate) fn rows_in(region: Rect) -> (r: usize)
    ensures
        r == row_count(region),
{
    if region.height > 1 {
        region.height as usize
    } else {
        1
    }
}

/// A column as a coordinate, or the last one there is.
pub(crate) fn as_coordinate(column: usize) -> (r: u16)
    ensures
        r == layout::smaller(column as int, u16::MAX as int),
{
    if column < 65535 {
        column as u16
    } else {
        65535
    }
}

/// The cursor at a column of a pane, pulled into the pane.
pub open spec fn cursor_at(region: Rect, indent: int, column: int, row: int) -> Position {
    Position {
        x: layout::smaller(
            layout::capped_sum(layout::capped_sum(region.x as int, indent), column),
            layout::rest_of(layout::capped_sum(region.x as int, region.width as int), 1),
        ) as u16,
        y: layout::capped_sum(region.y as int, row) as u16,
    }
}

pub fn pane_cursor(region: Rect, indent: u16, column: usize, row: usize) -> (r: Position)
    ensures
        r == cursor_at(region, indent as int, column as int, row as int),
{
    let x: u16 = region.x.saturating_add(indent).saturating_add(as_coordinate(column));
    let last: u16 = region.right().saturating_sub(1);
    Position {
        x: if x < last {
            x
        } else {
            last
        },
        y: region.y.saturating_add(as_coordinate(row)),
    }
}

/// What a key action is bound to, as it is written.
#[derive(Debug, PartialEq, Eq)]
pub struct KeyLabel {
    pub action: KeyAction,
    pub label: String,
}

/// The key of an action, from `i` on.
pub open spec fn key_from(labels: Seq<KeyLabel>, action: KeyAction, i: int) -> Option<Seq<char>>
    decreases labels.len() - i,
{
    if i < 0 || i >= labels.len() {
        None
    } else if labels[i].action == action {
        Some(labels[i].label@)
    } else {
        key_from(labels, action, i + 1)
    }
}

/// The key of an action.
pub open spec fn key_of(labels: Seq<KeyLabel>, action: KeyAction) -> Option<Seq<char>> {
    key_from(labels, action, 0)
}

pub fn find_key(labels: &Vec<KeyLabel>, action: KeyAction) -> (r: Option<String>)
    ensures
        crate::plan_model::opt(r) == key_of(labels@, action),
{
    let mut i: usize = 0;
    while i < labels.len()
        invariant
            i <= labels@.len(),
            key_of(labels@, action) == key_from(labels@, action, i as int),
        decreases labels@.len() - i,
    {
        if labels[i].action == action {
            return Some(labels[i].label.clone());
        }
        i = i + 1;
    }
    None
}

/// A row of the palette.
#[derive(Debug, PartialEq, Eq)]
pub enum CommandPaletteRow {
    Category(&'static str),
    Command { index: usize, spec: CommandSpec },
}

/// A row of the palette.
pub enum PaletteRowView {
    Category(Seq<char>),
    Command(int, command::CommandView),
}

impl View for CommandPaletteRow {
    type V = PaletteRowView;

    open spec fn view(&self) -> PaletteRowView {
        match self {
            CommandPaletteRow::Category(c) => PaletteRowView::Category(c@),
            CommandPaletteRow::Command { index, spec } => PaletteRowView::Command(
                *index as int,
                spec@,
            ),
        }
    }
}

pub open spec fn row_views(v: Seq<CommandPaletteRow>) -> Seq<PaletteRowView> {
    v.map_values(|r: CommandPaletteRow| r@)
}

/// The rows of the palette: the commands in their order, and a category before the first
/// command of each stretch of commands in one category.
pub open spec fn palette_rows(commands: Seq<command::CommandView>) -> Seq<PaletteRowView>
    decreases commands.len(),
{
    if commands.len() == 0 {
        Seq::empty()
    } else {
        let n = commands.len() - 1;
        let before = palette_rows(commands.drop_last());
        let head = if n > 0 && commands[n - 1].category == commands[n].category {
            before
        } else {
            before.push(PaletteRowView::Category(commands[n].category))
        };
        head.push(PaletteRowView::Command(n, commands[n]))
    }
}

fn push_row(rows: &mut Vec<CommandPaletteRow>, row: CommandPaletteRow)
    ensures
        row_views(final(rows)@) == row_views(old(rows)@).push(row@),
{
    let ghost before = rows@;
    rows.push(row);
    proof {
        assert(row_views(rows@) =~= row_views(before).push(row@));
    }
}

pub fn command_palette_rows(commands: &Vec<CommandSpec>) -> (r: Vec<CommandPaletteRow>)
    ensures
        row_views(r@) == palette_rows(command::command_views(commands@)),
{
    let mut rows: Vec<CommandPaletteRow> = Vec::new();
    let ghost all = command::command_views(commands@);
    proof {
        assert(row_views(rows@) =~= palette_rows(all.take(0)));
    }
    let mut i: usize = 0;
    while i < commands.len()
        invariant
            i <= commands@.len(),
            all == command::command_views(commands@),
            row_views(rows@) == palette_rows(all.take(i as int)),
        decreases commands@.len() - i,
    {
        let ghost more = all.take(i + 1);
        proof {
            assert(more.drop_last() =~= all.take(i as int));
            assert(all[i as int] == commands@[i as int]@);
            if i > 0 {
                assert(more[i - 1] == commands@[i - 1]@);
            }
        }
        let same_category = i > 0 && text::same(commands[i - 1].category, commands[i].category);
        if !same_category {
            push_row(&mut rows, CommandPaletteRow::Category(commands[i].category));
        }
        push_row(&mut rows, CommandPaletteRow::Command { index: i, spec: commands[i] });
        i = i + 1;
    }
    proof {
        assert(all.take(i as int) =~= all);
    }
    rows
}

/// The row of a command, from `i` on.
pub open spec fn row_from(rows: Seq<PaletteRowView>, selected: int, i: int) -> Option<int>
    decreases rows.len() - i,
{
    if i < 0 || i >= rows.len() {
        None
    } else if rows[i] matches PaletteRowView::Command(k, _) && k == selected {
        Some(i)
    } else {
        row_from(rows, selected, i + 1)
    }
}

/// The row of the chosen command, or the first one.
pub open spec fn chosen_row(rows: Seq<PaletteRowView>, selected: int) -> int {
    match row_from(rows, selected, 0) {
        Some(i) => i,
        None => 0,
    }
}

fn find_row(rows: &Vec<CommandPaletteRow>, selected: usize) -> (r: usize)
    ensures
        r == chosen_row(row_views(rows@), selected as int),
{
    let ghost all = row_views(rows@);
    let mut i: usize = 0;
    while i < rows.len()
        invariant
            i <= rows@.len(),
            all == row_views(rows@),
            row_from(all, selected as int, 0) == row_from(all, selected as int, i as int),
        decreases rows@.len() - i,
    {
        proof {
            assert(all[i as int] == rows@[i as int]@);
        }
        match &rows[i] {
            CommandPaletteRow::Command { index, spec: _ } => {
                if *index == selected {
                    return i;
                }
            },
            CommandPaletteRow::Category(_) => {},
        }
        i = i + 1;
    }
    0
}

/// Every command that is listed has a row, which is found.
pub proof fn listed_commands_have_a_row(commands: Seq<command::CommandView>, selected: int)
    requires
        0 <= selected < commands.len(),
    ensures
        ({
            let rows = palette_rows(commands);
            let row = chosen_row(rows, selected);
            &&& 0 <= row < rows.len()
            &&& rows[row] == PaletteRowView::Command(selected, commands[selected])
        }),
    decreases commands.len(),
{
    let rows = palette_rows(commands);
    lemma_rows_are_listed(commands);
    let n = lemma_a_row(commands, selected);
    lemma_row_from(rows, selected, n, 0);
}

/// A row of a command is that of the command at its place.
proof fn lemma_rows_are_listed(commands: Seq<command::CommandView>)
    ensures
        forall|i: int|
            0 <= i < palette_rows(commands).len() ==> ((#[trigger] palette_rows(
                commands,
            )[i]) matches PaletteRowView::Command(k, c) ==> 0 <= k < commands.len() && c
                == commands[k]),
    decreases commands.len(),
{
    if commands.len() > 0 {
        lemma_rows_are_listed(commands.drop_last());
        let before = palette_rows(commands.drop_last());
        let rows = palette_rows(commands);
        assert forall|i: int| 0 <= i < rows.len() implies ((#[trigger] rows[i]) matches PaletteRowView::Command(
            k,
            c,
        ) ==> 0 <= k < commands.len() && c == commands[k]) by {
            if i < before.len() {
                assert(rows[i] == before[i]);
            }
        }
    }
}

proof fn lemma_a_row(commands: Seq<command::CommandView>, selected: int) -> (row: int)
    requires
        0 <= selected < commands.len(),
    ensures
        0 <= row < palette_rows(commands).len(),
        palette_rows(commands)[row] == PaletteRowView::Command(selected, commands[selected]),
    decreases commands.len(),
{
    let rows = palette_rows(commands);
    if selected == commands.len() - 1 {
        rows.len() - 1
    } else {
        let row = lemma_a_row(commands.drop_last(), selected);
        assert(rows[row] == palette_rows(commands.drop_last())[row]);
        row
    }
}

proof fn lemma_row_from(rows: Seq<PaletteRowView>, selected: int, row: int, i: int)
    requires
        0 <= i <= row < rows.len(),
        rows[row] matches PaletteRowView::Command(k, _) && k == selected,
    ensures
        row_from(rows, selected, i) matches Some(found) && 0 <= found < rows.len() && (
        rows[found] matches PaletteRowView::Command(k, _) && k == selected),
    decreases row - i,
{
    if !(rows[i] matches PaletteRowView::Command(k, _) && k == selected) {
        lemma_row_from(rows, selected, row, i + 1);
    }
}

/// The blanks before a command.
pub open spec fn command_indent() -> Seq<char> {
    "    "@
}

/// The line of a command, with its key at the right.
pub open spec fn command_text(
    label: Seq<char>,
    shortcut: Seq<char>,
    width: int,
    selected: bool,
) -> Seq<SpanView> {
    let taken = width::unicode_text_width(command_indent()) + width::unicode_text_width(label)
        + width::unicode_text_width(shortcut);
    let gap = layout::larger(layout::rest_of(width, taken), 1);
    let base = row_style(selected);
    seq![
        if selected {
            ui::span("  ▌ "@, tinted(SemanticColor::Focus, true).bolded())
        } else {
            ui::span(command_indent(), base)
        },
        ui::span(label, base.bolded()),
        ui::span(text::repeated(' ', gap as nat), base),
        ui::span(shortcut, tinted(SemanticColor::ToolKeyword, selected)),
    ]
}

pub fn command_line(label: &str, shortcut: &str, width: usize, selected: bool) -> (r: Line)
    ensures
        r@ == command_text(label@, shortcut@, width as int, selected),
{
    let left: usize = width.saturating_sub(width::text_width("    ")).saturating_sub(
        width::text_width(label),
    ).saturating_sub(width::text_width(shortcut));
    let gap: usize = if left > 1 {
        left
    } else {
        1
    };
    let base = selection_style(selected);
    let front = if selected {
        Span::of("  ▌ ", foreground_on_base(SemanticColor::Focus, true).bold())
    } else {
        Span::of("    ", base)
    };
    Line::four(
        front,
        Span::of(label, base.bold()),
        Span::styled(text::repeat_char(' ', gap), base),
        Span::of(shortcut, foreground_on_base(SemanticColor::ToolKeyword, selected)),
    )
}

pub open spec fn category_text(category: Seq<char>) -> Seq<SpanView> {
    seq![
        ui::span("  "@, ui::plain_style()),
        ui::span(category, ui::colored(SemanticColor::Focus).bolded()),
    ]
}

pub fn command_category_line(category: &str) -> (r: Line)
    ensures
        r@ == category_text(category@),
{
    Line::two(
        Span::raw("  "),
        Span::of(category, Style::color(SemanticColor::Focus).bold()),
    )
}

/// The key of a command, if it has one.
pub open spec fn shortcut_of(labels: Seq<KeyLabel>, action: Option<KeyAction>) -> Seq<char> {
    match action {
        Some(action) => match key_of(labels, action) {
            Some(label) => label,
            None => Seq::empty(),
        },
        None => Seq::empty(),
    }
}

/// The line of a row of the palette.
pub open spec fn palette_line(
    row: PaletteRowView,
    labels: Seq<KeyLabel>,
    width: int,
    selected: int,
) -> Seq<SpanView> {
    match row {
        PaletteRowView::Category(category) => category_text(category),
        PaletteRowView::Command(index, spec) => command_text(
            spec.label,
            shortcut_of(labels, spec.key_action),
            width,
            index == selected,
        ),
    }
}

fn palette_row_line(
    row: &CommandPaletteRow,
    labels: &Vec<KeyLabel>,
    width: usize,
    selected: usize,
) -> (r: Line)
    ensures
        r@ == palette_line(row@, labels@, width as int, selected as int),
{
    match row {
        CommandPaletteRow::Category(category) => command_category_line(category),
        CommandPaletteRow::Command { index, spec } => {
            let found = match spec.key_action {
                Some(action) => find_key(labels, action),
                None => None,
            };
            let shortcut = match found {
                Some(label) => label,
                None => {
                    let none = String::new();
                    proof {
                        assert(none@ =~= Seq::empty());
                    }
                    none
                },
            };
            command_line(spec.label, shortcut.as_str(), width, *index == selected)
        },
    }
}

/// The rows from `from` on, as many as fit.
pub open spec fn shown_rows(
    rows: Seq<PaletteRowView>,
    from: int,
    height: int,
) -> Seq<PaletteRowView> {
    rows.subrange(from, layout::smaller(from + height, rows.len() as int))
}

/// The lines of the palette's list.
pub open spec fn palette_list(
    rows: Seq<PaletteRowView>,
    labels: Seq<KeyLabel>,
    selected: int,
    region: Rect,
) -> Seq<Seq<SpanView>> {
    let from = window_start(chosen_row(rows, selected), rows.len() as int, row_count(region));
    shown_rows(rows, from, row_count(region)).map_values(
        |row: PaletteRowView| palette_line(row, labels, region.width as int, selected),
    )
}

fn palette_lines(
    rows: &Vec<CommandPaletteRow>,
    labels: &Vec<KeyLabel>,
    selected: usize,
    region: Rect,
) -> (r: Vec<Line>)
    ensures
        ui::line_views(r@) == palette_list(
            row_views(rows@),
            labels@,
            selected as int,
            region,
        ),
{
    let ghost all = row_views(rows@);
    let height = rows_in(region);
    let chosen = find_row(rows, selected);
    let from = scroll_offset(chosen, rows.len(), height);
    let to: usize = if rows.len() - from < height {
        rows.len()
    } else {
        from + height
    };
    let mut lines: Vec<Line> = Vec::new();
    let mut i: usize = from;
    while i < to
        invariant
            from <= i <= to <= rows@.len(),
            all == row_views(rows@),
            lines@.len() == i - from,
            forall|k: int|
                0 <= k < i - from ==> (#[trigger] lines@[k])@ == palette_line(
                    all[from + k],
                    labels@,
                    region.width as int,
                    selected as int,
                ),
        decreases to - i,
    {
        proof {
            assert(all[i as int] == rows@[i as int]@);
        }
        lines.push(palette_row_line(&rows[i], labels, region.width as usize, selected));
        i = i + 1;
    }
    proof {
        assert(all.len() == rows@.len());
        assert(ui::line_views(lines@) =~= palette_list(all, labels@, selected as int, region));
    }
    lines
}

/// How high the palette wants to be.
pub open spec fn palette_height(rows: int) -> int {
    layout::larger(8, layout::smaller(rows + 5, 22))
}

/// The query, or what asks for one.
pub open spec fn query_text(query: input::InputView, width: int) -> SpanView {
    if query.text.len() == 0 {
        ui::span("Search commands"@, ui::colored(SemanticColor::Muted).dimmed())
    } else {
        ui::span(input::shown_text(query, width), ui::colored(SemanticColor::Assistant))
    }
}

/// The palette, in the panes for the query and for the list; nothing but its frame where it
/// has no room.
pub open spec fn palette_drawing(
    p: overlay::PaletteView,
    labels: Seq<KeyLabel>,
    region: Rect,
    query_pane: Rect,
    list_pane: Rect,
) -> DrawingView {
    let surface = framed(region, " M  Commands "@, SemanticColor::Focus);
    let inner = inset_of(region, 2, 1);
    if inner.width == 0 || inner.height == 0 {
        surface
    } else {
        surface.with(
            pane(query_pane, seq![seq![query_text(p.query, query_pane.width as int)]]),
        ).with(
            pane(list_pane, palette_list(palette_rows(p.visible()), labels, p.selected, list_pane)),
        ).with_cursor(
            Some(
                cursor_at(
                    query_pane,
                    0,
                    input::shown_column(p.query, query_pane.width as int),
                    0,
                ),
            ),
        )
    }
}

/// Where the palette stands.
pub open spec fn palette_region(p: overlay::PaletteView, area: Rect) -> Rect {
    centered_region(
        area,
        MAX_OVERLAY_WIDTH,
        palette_height(palette_rows(p.visible()).len() as int) as u16,
    )
}

/// The panes of the palette.
pub open spec fn palette_constraints() -> Seq<Constraint> {
    seq![Constraint::Length(2), Constraint::Min(1)]
}

/// How high the panes of the palette are asked to be.
pub fn palette_panes() -> (r: Vec<Constraint>)
    ensures
        r@ == palette_constraints(),
{
    let constraints = vec![Constraint::Length(2), Constraint::Min(1)];
    proof {
        assert(constraints@ =~= palette_constraints());
    }
    constraints
}

/// Whether this is the palette on a screen, however its inside is shared.
pub open spec fn palette_drawn(
    p: overlay::PaletteView,
    labels: Seq<KeyLabel>,
    area: Rect,
    drawing: DrawingView,
) -> bool {
    let region = palette_region(p, area);
    exists|panes: Seq<Rect>|
        {
            &&& #[trigger] layout::shared_out(panes, inset_of(region, 2, 1), true, palette_constraints())
            &&& drawing == palette_drawing(p, labels, region, panes[0], panes[1])
        }
}

/// A palette that has room is drawn in one way: two rows for the query, the rest for the list.
pub proof fn palettes_with_room_are_settled(
    p: overlay::PaletteView,
    labels: Seq<KeyLabel>,
    area: Rect,
    drawing: DrawingView,
)
    requires
        palette_drawn(p, labels, area, drawing),
        on_screen(area),
        inset_of(palette_region(p, area), 2, 1).height >= 3,
    ensures
        ({
            let region = palette_region(p, area);
            let inner = inset_of(region, 2, 1);
            let panes = layout::stacked(inner, seq![2, inner.height - 2]);
            drawing == palette_drawing(p, labels, region, panes[0], panes[1])
        }),
{
    let region = palette_region(p, area);
    let inner = inset_of(region, 2, 1);
    let panes = choose|panes: Seq<Rect>|
        {
            &&& #[trigger] layout::shared_out(panes, inner, true, palette_constraints())
            &&& drawing == palette_drawing(p, labels, region, panes[0], panes[1])
        };
    reveal_with_fuel(layout::asked_in, 3);
    reveal_with_fuel(layout::height_in, 3);
    assert(layout::only_min(palette_constraints(), 1));
    layout::rows_with_room_are_stacked(
        panes,
        inner,
        palette_constraints(),
        1,
        seq![2, inner.height - 2],
    );
}

/// The palette, when its inside was divided.
pub fn palette_in_panes(
    palette: &CommandPalette,
    labels: &Vec<KeyLabel>,
    region: Rect,
    query_pane: Rect,
    list_pane: Rect,
) -> (r: OverlayDrawing)
    requires
        palette@.well_formed(),
    ensures
        r@ == palette_drawing(palette@, labels@, region, query_pane, list_pane),
{
    let mut drawing = OverlayDrawing::framed(region, " M  Commands ", SemanticColor::Focus);
    let inner = inset(region, 2, 1);
    if inner.width == 0 || inner.height == 0 {
        return drawing;
    }
    let visible = palette.visible_commands();
    let rows = command_palette_rows(&visible);
    let viewport = palette.query_viewport(query_pane.width as usize);
    let span = if palette.query().is_empty() {
        Span::of("Search commands", Style::color(SemanticColor::Muted).dim())
    } else {
        Span::of(viewport.text.as_str(), Style::color(SemanticColor::Assistant))
    };
    let mut query_lines: Vec<Line> = Vec::new();
    let line = Line::one(span);
    let ghost asked = line@;
    query_lines.push(line);
    proof {
        assert(ui::line_views(query_lines@) =~= seq![asked]);
    }
    drawing.add_lines(query_pane, query_lines);
    drawing.add_lines(list_pane, palette_lines(&rows, labels, palette.selected(), list_pane));
    drawing.cursor = Some(pane_cursor(query_pane, 0, viewport.cursor_column, 0));
    drawing
}

pub fn render_command_palette(
    palette: &CommandPalette,
    labels: &Vec<KeyLabel>,
    area: Rect,
) -> (r: OverlayDrawing)
    requires
        palette@.well_formed(),
        on_screen(area),
    ensures
        palette_drawn(palette@, labels@, area, r@),
{
    let visible = palette.visible_commands();
    let rows = command_palette_rows(&visible);
    let count = rows.len();
    proof {
        assert(row_views(rows@).len() == count);
    }
    let height: u16 = if count < 3 {
        8
    } else if count > 17 {
        22
    } else {
        count as u16 + 5
    };
    let region = centered_rect(area, MAX_OVERLAY_WIDTH, height);
    let panes = layout::divide(inset(region, 2, 1), true, &palette_panes());
    palette_in_panes(palette, labels, region, panes[0], panes[1])
}

/// The values of the settings, as they are written.
#[derive(Debug, PartialEq, Eq)]
pub struct SettingTexts {
    pub code_theme: String,
    pub default_provider: String,
    pub default_model: String,
    pub reasoning_effort: String,
    pub context_window: String,
    pub auto_compaction: String,
    pub context_strategy: String,
    pub subagents: String,
    pub max_threads: String,
    pub keyboard_shortcuts: String,
}

impl SettingTexts {
    pub open spec fn of(self, item: SettingItem) -> Seq<char> {
        match item {
            SettingItem::CodeTheme => self.code_theme@,
            SettingItem::DefaultProvider => self.default_provider@,
            SettingItem::DefaultModel => self.default_model@,
            SettingItem::ReasoningEffort => self.reasoning_effort@,
            SettingItem::ContextWindow => self.context_window@,
            SettingItem::AutoCompaction => self.auto_compaction@,
            SettingItem::ContextStrategy => self.context_strategy@,
            SettingItem::Subagents => self.subagents@,
            SettingItem::MaxThreads => self.max_threads@,
            SettingItem::KeyboardShortcuts => self.keyboard_shortcuts@,
        }
    }

    pub fn value(&self, item: SettingItem) -> (r: &str)
        ensures
            r@ == self.of(item),
    {
        match item {
            SettingItem::CodeTheme => self.code_theme.as_str(),
            SettingItem::DefaultProvider => self.default_provider.as_str(),
            SettingItem::DefaultModel => self.default_model.as_str(),
            SettingItem::ReasoningEffort => self.reasoning_effort.as_str(),
            SettingItem::ContextWindow => self.context_window.as_str(),
            SettingItem::AutoCompaction => self.auto_compaction.as_str(),
            SettingItem::ContextStrategy => self.context_strategy.as_str(),
            SettingItem::Subagents => self.subagents.as_str(),
            SettingItem::MaxThreads => self.max_threads.as_str(),
            SettingItem::KeyboardShortcuts => self.keyboard_shortcuts.as_str(),
        }
    }
}

/// What a setting is called.
pub open spec fn setting_name(item: SettingItem) -> Seq<char> {
    match item {
        SettingItem::CodeTheme => "Code theme"@,
        SettingItem::DefaultProvider => "Default provider"@,
        SettingItem::DefaultModel => "Default model"@,
        SettingItem::ReasoningEffort => "Reasoning effort"@,
        SettingItem::ContextWindow => "Context window"@,
        SettingItem::AutoCompaction => "Auto compaction"@,
        SettingItem::ContextStrategy => "Context strategy"@,
        SettingItem::Subagents => "Subagents"@,
        SettingItem::MaxThreads => "Max threads"@,
        SettingItem::KeyboardShortcuts => "Keyboard shortcuts"@,
    }
}

pub fn setting_label(item: SettingItem) -> (r: &'static str)
    ensures
        r@ == setting_name(item),
{
    match item {
        SettingItem::CodeTheme => "Code theme",
        SettingItem::DefaultProvider => "Default provider",
        SettingItem::DefaultModel => "Default model",
        SettingItem::ReasoningEffort => "Reasoning effort",
        SettingItem::ContextWindow => "Context window",
        SettingItem::AutoCompaction => "Auto compaction",
        SettingItem::ContextStrategy => "Context strategy",
        SettingItem::Subagents => "Subagents",
        SettingItem::MaxThreads => "Max threads",
        SettingItem::KeyboardShortcuts => "Keyboard shortcuts",
    }
}

/// The line that a setting stands in.
pub open spec fn setting_row(item: SettingItem) -> int {
    match item {
        SettingItem::CodeTheme => 1,
        SettingItem::DefaultProvider => 4,
        SettingItem::DefaultModel => 5,
        SettingItem::ReasoningEffort => 6,
        SettingItem::ContextWindow => 9,
        SettingItem::AutoCompaction => 10,
        SettingItem::ContextStrategy => 11,
        SettingItem::Subagents => 14,
        SettingItem::MaxThreads => 15,
        SettingItem::KeyboardShortcuts => 17,
    }
}

pub fn setting_line_index(item: SettingItem) -> (r: usize)
    ensures
        r == setting_row(item),
{
    match item {
        SettingItem::CodeTheme => 1,
        SettingItem::DefaultProvider => 4,
        SettingItem::DefaultModel => 5,
        SettingItem::ReasoningEffort => 6,
        SettingItem::ContextWindow => 9,
        SettingItem::AutoCompaction => 10,
        SettingItem::ContextStrategy => 11,
        SettingItem::Subagents => 14,
        SettingItem::MaxThreads => 15,
        SettingItem::KeyboardShortcuts => 17,
    }
}

pub open spec fn section_text(label: Seq<char>) -> Seq<SpanView> {
    seq![ui::span(label, ui::colored(SemanticColor::Focus).bolded())]
}

pub fn section_line(label: &str) -> (r: Line)
    ensures
        r@ == section_text(label@),
{
    Line::one(Span::of(label, Style::color(SemanticColor::Focus).bold()))
}

/// The mark before a row, chosen or not.
pub open spec fn row_mark(selected: bool) -> Seq<char> {
    if selected {
        "▌ "@
    } else {
        "  "@
    }
}

pub(crate) fn mark(selected: bool) -> (r: &'static str)
    ensures
        r@ == row_mark(selected),
{
    if selected {
        "▌ "
    } else {
        "  "
    }
}

pub open spec fn setting_text(label: Seq<char>, value: Seq<char>, selected: bool) -> Seq<SpanView> {
    seq![
        ui::span(row_mark(selected), row_style(selected)),
        ui::span(text::padded(label, 24), row_style(selected)),
        ui::span(value, value_style(SemanticColor::ToolKeyword, selected)),
    ]
}

pub fn setting_line(label: &str, value: &str, selected: bool) -> (r: Line)
    ensures
        r@ == setting_text(label@, value@, selected),
{
    let base = selection_style(selected);
    Line::three(
        Span::of(mark(selected), base),
        Span::styled(text::pad_right(label, 24), base),
        Span::of(value, Style::color(SemanticColor::ToolKeyword).patch(base)),
    )
}

/// How wide a value that is edited can be.
pub open spec fn editor_width(inner: Rect) -> int {
    layout::larger(layout::rest_of(inner.width as int, 36), 1)
}

/// A value, or its editor.
pub open spec fn edited_value(
    editor: Option<input::InputView>,
    width: int,
    value: Seq<char>,
) -> Seq<char> {
    match editor {
        Some(v) => input::shown_text(v, width) + "  editing"@,
        None => value,
    }
}

/// The value of a setting as it is shown.
pub open spec fn shown_value(
    s: overlay::SettingsView,
    values: SettingTexts,
    inner: Rect,
    item: SettingItem,
) -> Seq<char> {
    match item {
        SettingItem::DefaultModel => edited_value(
            s.model_editor,
            editor_width(inner),
            values.of(item),
        ),
        SettingItem::ContextWindow => edited_value(
            s.context_window_editor,
            editor_width(inner),
            values.of(item),
        ),
        _ => values.of(item),
    }
}

/// The line of a setting.
pub open spec fn setting_of(
    s: overlay::SettingsView,
    values: SettingTexts,
    inner: Rect,
    item: SettingItem,
) -> Seq<SpanView> {
    setting_text(setting_name(item), shown_value(s, values, inner, item), s.item() == item)
}

/// How many lines the settings have.
pub const SETTINGS_LINES: usize = 19;

/// The lines of the settings.
pub open spec fn settings_lines(
    s: overlay::SettingsView,
    values: SettingTexts,
    inner: Rect,
) -> Seq<Seq<SpanView>> {
    let row = |item: SettingItem| setting_of(s, values, inner, item);
    seq![
        section_text("Appearance"@),
        row(SettingItem::CodeTheme),
        Seq::empty(),
        section_text("Model defaults"@),
        row(SettingItem::DefaultProvider),
        row(SettingItem::DefaultModel),
        row(SettingItem::ReasoningEffort),
        Seq::empty(),
        section_text("Context"@),
        row(SettingItem::ContextWindow),
        row(SettingItem::AutoCompaction),
        row(SettingItem::ContextStrategy),
        Seq::empty(),
        section_text("Runtime"@),
        row(SettingItem::Subagents),
        row(SettingItem::MaxThreads),
        Seq::empty(),
        row(SettingItem::KeyboardShortcuts),
        seq![
            ui::span(
                match s.notice {
                    Some(notice) => notice,
                    None => ""@,
                },
                ui::colored(SemanticColor::Muted),
            ),
        ],
    ]
}

/// Every setting stands in its own line.
pub proof fn settings_stand_in_their_lines(
    s: overlay::SettingsView,
    values: SettingTexts,
    inner: Rect,
    item: SettingItem,
)
    ensures
        settings_lines(s, values, inner).len() == SETTINGS_LINES,
        settings_lines(s, values, inner)[setting_row(item)] == setting_of(s, values, inner, item),
{
}

/// The cursor in an editor, where its line is in view.
pub open spec fn editor_cursor(
    editor: Option<input::InputView>,
    inner: Rect,
    row: int,
    from: int,
) -> Option<Position> {
    match editor {
        Some(v) => if from <= row < from + row_count(inner) {
            Some(cursor_at(inner, 26, input::shown_column(v, editor_width(inner)), row - from))
        } else {
            None
        },
        None => None,
    }
}

/// The settings as they are drawn.
pub open spec fn settings_drawing(
    s: overlay::SettingsView,
    values: SettingTexts,
    area: Rect,
) -> DrawingView {
    let region = centered_region(area, MAX_OVERLAY_WIDTH, 22);
    let inner = inset_of(region, 2, 1);
    let from = window_start(setting_row(s.item()), SETTINGS_LINES as int, row_count(inner));
    let window = editor_cursor(
        s.context_window_editor,
        inner,
        setting_row(SettingItem::ContextWindow),
        from,
    );
    framed(region, " M  Settings "@, SemanticColor::Focus).with(
        PaneView {
            region: inner,
            content: ContentView::Lines {
                lines: settings_lines(s, values, inner),
                scroll: from as u16,
            },
        },
    ).with_cursor(
        if window is Some {
            window
        } else {
            editor_cursor(s.model_editor, inner, setting_row(SettingItem::DefaultModel), from)
        },
    )
}

fn value_in_editor(
    editor: Option<&input::TextInput>,
    width: usize,
    value: &str,
) -> (r: (String, Option<usize>))
    requires
        editor matches Some(e) ==> e@.well_formed(),
    ensures
        r.0@ == edited_value(
            match editor {
                Some(e) => Some(e@),
                None => None,
            },
            width as int,
            value@,
        ),
        match (editor, r.1) {
            (Some(e), Some(column)) => column == input::shown_column(e@, width as int),
            (None, None) => true,
            _ => false,
        },
{
    match editor {
        Some(e) => {
            let viewport = e.viewport(width);
            (text::cat2(viewport.text.as_str(), "  editing"), Some(viewport.cursor_column))
        },
        None => (value.to_owned(), None),
    }
}

fn cursor_in_view(column: Option<usize>, inner: Rect, row: usize, from: usize) -> (r: Option<
    Position,
>)
    ensures
        r == (match column {
            Some(c) => if from <= row < from + row_count(inner) {
                Some(cursor_at(inner, 26, c as int, row - from))
            } else {
                None
            },
            None => None,
        }),
{
    match column {
        Some(c) => if row >= from && row - from < rows_in(inner) {
            Some(pane_cursor(inner, 26, c, row - from))
        } else {
            None
        },
        None => None,
    }
}

pub fn render_settings(settings: &SettingsOverlay, values: &SettingTexts, area: Rect) -> (r:
    OverlayDrawing)
    requires
        settings@.well_formed(),
        on_screen(area),
    ensures
        r@ == settings_drawing(settings@, *values, area),
{
    let region = centered_rect(area, MAX_OVERLAY_WIDTH, 22);
    let mut drawing = OverlayDrawing::framed(region, " M  Settings ", SemanticColor::Focus);
    let inner = inset(region, 2, 1);
    let selected = settings.selected_item();
    let spare: u16 = inner.width.saturating_sub(36);
    let width: usize = if spare > 1 {
        spare as usize
    } else {
        1
    };
    let (model, model_column) = value_in_editor(
        settings.model_editor(),
        width,
        values.value(SettingItem::DefaultModel),
    );
    let (window, window_column) = value_in_editor(
        settings.context_window_editor(),
        width,
        values.value(SettingItem::ContextWindow),
    );
    let notice = match settings.notice() {
        Some(notice) => notice,
        None => "",
    };
    let mut lines: Vec<Line> = Vec::new();
    lines.push(section_line("Appearance"));
    lines.push(plain_setting(values, SettingItem::CodeTheme, selected));
    lines.push(Line::empty());
    lines.push(section_line("Model defaults"));
    lines.push(plain_setting(values, SettingItem::DefaultProvider, selected));
    lines.push(
        setting_line("Default model", model.as_str(), selected == SettingItem::DefaultModel),
    );
    lines.push(plain_setting(values, SettingItem::ReasoningEffort, selected));
    lines.push(Line::empty());
    lines.push(section_line("Context"));
    lines.push(
        setting_line("Context window", window.as_str(), selected == SettingItem::ContextWindow),
    );
    lines.push(plain_setting(values, SettingItem::AutoCompaction, selected));
    lines.push(plain_setting(values, SettingItem::ContextStrategy, selected));
    lines.push(Line::empty());
    lines.push(section_line("Runtime"));
    lines.push(plain_setting(values, SettingItem::Subagents, selected));
    lines.push(plain_setting(values, SettingItem::MaxThreads, selected));
    lines.push(Line::empty());
    lines.push(plain_setting(values, SettingItem::KeyboardShortcuts, selected));
    lines.push(Line::one(Span::of(notice, Style::color(SemanticColor::Muted))));
    proof {
        assert(ui::line_views(lines@) =~= settings_lines(settings@, *values, inner));
    }
    let from = scroll_offset(setting_line_index(selected), SETTINGS_LINES, rows_in(inner));
    drawing.add_pane(
        Pane { region: inner, content: PaneContent::Lines { lines, scroll: from as u16 } },
    );
    let window_cursor = cursor_in_view(
        window_column,
        inner,
        setting_line_index(SettingItem::ContextWindow),
        from,
    );
    drawing.cursor =
    if window_cursor.is_some() {
        window_cursor
    } else {
        cursor_in_view(
            model_column,
            inner,
            setting_line_index(SettingItem::DefaultModel),
            from,
        )
    };
    drawing
}

fn plain_setting(values: &SettingTexts, item: SettingItem, selected: SettingItem) -> (r: Line)
    ensures
        r@ == setting_text(setting_name(item), values.of(item), selected == item),
{
    setting_line(setting_label(item), values.value(item), selected == item)
}

/// The line of a key.
pub open spec fn shortcut_text(label: Seq<char>, shortcut: Seq<char>) -> Seq<SpanView> {
    seq![
        ui::span("  "@ + text::padded(label, 34), surface_style()),
        ui::span(shortcut, ui::colored(SemanticColor::ToolKeyword)),
    ]
}

pub fn shortcut_line(label: &str, shortcut: &str) -> (r: Line)
    ensures
        r@ == shortcut_text(label@, shortcut@),
{
    Line::two(
        Span::styled(text::cat2("  ", text::pad_right(label, 34).as_str()), code_surface_style()),
        Span::of(shortcut, Style::color(SemanticColor::ToolKeyword)),
    )
}

/// The line of an action's key.
pub open spec fn action_text(labels: Seq<KeyLabel>, label: Seq<char>, action: KeyAction) -> Seq<
    SpanView,
> {
    shortcut_text(
        label,
        match key_of(labels, action) {
            Some(key) => key,
            None => "Unbound"@,
        },
    )
}

pub fn shortcut_line_for_action(labels: &Vec<KeyLabel>, label: &str, action: KeyAction) -> (r: Line)
    ensures
        r@ == action_text(labels@, label@, action),
{
    match find_key(labels, action) {
        Some(key) => shortcut_line(label, key.as_str()),
        None => shortcut_line(label, "Unbound"),
    }
}

/// The keys that are listed.
pub open spec fn shortcut_lines(labels: Seq<KeyLabel>) -> Seq<Seq<SpanView>> {
    seq![
        action_text(labels, "Submit next"@, KeyAction::SubmitNext),
        action_text(labels, "Submit backlog"@, KeyAction::SubmitBacklog),
        action_text(labels, "Command palette"@, KeyAction::OpenCommandPanel),
        action_text(labels, "Follow latest"@, KeyAction::FollowLatestArtifact),
        action_text(labels, "Previous artifact"@, KeyAction::ReviewPreviousArtifact),
        action_text(labels, "Next artifact"@, KeyAction::ReviewNextArtifact),
        action_text(labels, "Previous user input"@, KeyAction::ReviewPreviousUserInput),
        action_text(labels, "Interrupt"@, KeyAction::Interrupt),
        action_text(labels, "Quit"@, KeyAction::Quit),
    ]
}

/// The keys as they are drawn.
pub open spec fn shortcuts_drawing(labels: Seq<KeyLabel>, area: Rect) -> DrawingView {
    let region = centered_region(area, MAX_OVERLAY_WIDTH, 16);
    framed(region, " M  Keyboard shortcuts "@, SemanticColor::Focus).with(
        pane(inset_of(region, 2, 1), shortcut_lines(labels)),
    )
}

pub fn render_shortcuts(labels: &Vec<KeyLabel>, area: Rect) -> (r: OverlayDrawing)
    requires
        on_screen(area),
    ensures
        r@ == shortcuts_drawing(labels@, area),
{
    let region = centered_rect(area, MAX_OVERLAY_WIDTH, 16);
    let mut drawing = OverlayDrawing::framed(
        region,
        " M  Keyboard shortcuts ",
        SemanticColor::Focus,
    );
    let mut lines: Vec<Line> = Vec::new();
    lines.push(shortcut_line_for_action(labels, "Submit next", KeyAction::SubmitNext));
    lines.push(shortcut_line_for_action(labels, "Submit backlog", KeyAction::SubmitBacklog));
    lines.push(shortcut_line_for_action(labels, "Command palette", KeyAction::OpenCommandPanel));
    lines.push(shortcut_line_for_action(labels, "Follow latest", KeyAction::FollowLatestArtifact));
    lines.push(
        shortcut_line_for_action(labels, "Previous artifact", KeyAction::ReviewPreviousArtifact),
    );
    lines.push(shortcut_line_for_action(labels, "Next artifact", KeyAction::ReviewNextArtifact));
    lines.push(
        shortcut_line_for_action(
            labels,
            "Previous user input",
            KeyAction::ReviewPreviousUserInput,
        ),
    );
    lines.push(shortcut_line_for_action(labels, "Interrupt", KeyAction::Interrupt));
    lines.push(shortcut_line_for_action(labels, "Quit", KeyAction::Quit));
    proof {
        assert(ui::line_views(lines@) =~= shortcut_lines(labels@));
    }
    drawing.add_lines(inset(region, 2, 1), lines);
    drawing
}

/// The rows that a line takes, by its columns.
pub open spec fn rows_of_line(line: Seq<char>, width: int) -> int {
    let columns = layout::larger(width::unicode_text_width(line) as int, 1);
    (columns + layout::larger(width, 1) - 1) / layout::larger(width, 1)
}

/// The rows that the lines take.
pub open spec fn rows_of_lines(lines: Seq<Seq<char>>, width: int) -> int
    decreases lines.len(),
{
    if lines.len() == 0 {
        0
    } else {
        rows_of_lines(lines.drop_last(), width) + rows_of_line(lines.last(), width)
    }
}

/// How many rows a message is taken to need, up to the highest number there is.
pub open spec fn estimated_rows(message: Seq<char>, width: int) -> int {
    layout::smaller(
        layout::larger(rows_of_lines(words::lines(message), width), 1),
        usize::MAX as int,
    )
}

fn line_rows(line: &str, width: usize) -> (r: usize)
    requires
        width > 0,
    ensures
        r == rows_of_line(line@, width as int),
{
    let taken: usize = width::text_width(line);
    let columns: usize = if taken > 1 {
        taken
    } else {
        1
    };
    let whole: usize = columns / width;
    let rest: usize = columns % width;
    proof {
        let c = columns as int;
        let w = width as int;
        vstd::arithmetic::div_mod::lemma_fundamental_div_mod(c, w);
        if rest == 0 {
            assert((c + w - 1) / w == whole) by (nonlinear_arith)
                requires
                    c == w * whole + 0,
                    w > 0,
            ;
        } else {
            assert((c + w - 1) / w == whole + 1) by (nonlinear_arith)
                requires
                    c == w * whole + rest,
                    0 < rest < w,
            ;
        }
        assert(whole <= c) by (nonlinear_arith)
            requires
                c == w * whole + rest,
                w > 0,
                rest >= 0,
                whole >= 0,
        ;
        if rest > 0 {
            assert(whole < c) by (nonlinear_arith)
                requires
                    c == w * whole + rest,
                    w > 0,
                    rest > 0,
                    whole >= 0,
            ;
        }
    }
    if rest == 0 {
        whole
    } else {
        whole + 1
    }
}

pub fn estimated_wrapped_lines(message: &str, width: usize) -> (r: usize)
    ensures
        r == estimated_rows(message@, width as int),
{
    let width: usize = if width > 1 {
        width
    } else {
        1
    };
    let lines = words::lines_of(message);
    let ghost all = words::lines(message@);
    let mut rows: usize = 0;
    let mut i: usize = 0;
    proof {
        assert(all.take(0) =~= Seq::empty());
    }
    while i < lines.len()
        invariant
            i <= lines@.len(),
            width > 0,
            text::views(lines@) == all,
            rows == layout::smaller(
                rows_of_lines(all.take(i as int), width as int),
                usize::MAX as int,
            ),
        decreases lines@.len() - i,
    {
        proof {
            assert(all.take(i + 1).drop_last() =~= all.take(i as int));
            assert(all[i as int] == lines@[i as int]@);
        }
        rows = rows.saturating_add(line_rows(lines[i].as_str(), width));
        i = i + 1;
    }
    proof {
        assert(all.len() == lines@.len());
        assert(all.take(i as int) =~= all);
        lemma_narrow_rows(all, width as int);
    }
    if rows > 1 {
        rows
    } else {
        1
    }
}

proof fn lemma_narrow_rows(lines: Seq<Seq<char>>, width: int)
    ensures
        width == 1 ==> rows_of_lines(lines, 0) == rows_of_lines(lines, 1),
    decreases lines.len(),
{
    if lines.len() > 0 {
        lemma_narrow_rows(lines.drop_last(), width);
    }
}

/// How wide a dialog wants to be.
pub open spec fn dialog_width(area: Rect) -> int {
    layout::larger(8, layout::smaller(area.width as int, 72))
}

/// How high a dialog wants to be.
pub open spec fn dialog_height(d: overlay::DialogView, area: Rect) -> int {
    let width = layout::larger(dialog_width(area) - 6, 1);
    layout::larger(8, layout::smaller(estimated_rows(d.message, width) + 6, 20))
}

/// Where a dialog stands.
pub open spec fn dialog_region(d: overlay::DialogView, area: Rect) -> Rect {
    centered_region(area, dialog_width(area) as u16, dialog_height(d, area) as u16)
}

/// The colour of a dialog's frame.
pub open spec fn dialog_border(kind: MessageDialogKind) -> SemanticColor {
    match kind {
        MessageDialogKind::Info => SemanticColor::Focus,
        MessageDialogKind::Error => SemanticColor::Error,
    }
}

/// The keys of a dialog.
pub open spec fn dialog_keys() -> Seq<ui::SpanView> {
    seq![
        ui::span("Enter / Esc"@, ui::colored(SemanticColor::Focus).bolded()),
        ui::span("  Close"@, ui::colored(SemanticColor::Muted)),
    ]
}

/// The keys of the question whether a plan is approved.
pub open spec fn approval_keys() -> Seq<ui::SpanView> {
    seq![
        ui::span("Enter"@, ui::colored(SemanticColor::Focus).bolded()),
        ui::span("  Approve"@, ui::colored(SemanticColor::Muted)),
        ui::span("  Esc"@, ui::colored(SemanticColor::Focus).bolded()),
        ui::span("  Back"@, ui::colored(SemanticColor::Muted)),
    ]
}

/// The question whether a plan is approved, as a dialog.
pub open spec fn approval_dialog(message: Seq<char>) -> overlay::DialogView {
    overlay::DialogView {
        kind: MessageDialogKind::Info,
        title: "Approve plan and execute?"@,
        message,
    }
}

/// A dialog, in the panes for its message and for the keys.
pub open spec fn dialog_drawing(
    d: overlay::DialogView,
    keys: Seq<ui::SpanView>,
    region: Rect,
    message_pane: Rect,
    keys_pane: Rect,
) -> DrawingView {
    framed(region, " M  "@ + d.title + " "@, dialog_border(d.kind)).with(
        PaneView {
            region: message_pane,
            content: ContentView::Wrapped {
                text: d.message,
                style: ui::colored(SemanticColor::Assistant),
            },
        },
    ).with(
        pane(keys_pane, seq![keys]),
    )
}

/// A dialog with these keys, when its inside was divided.
pub fn dialog_in_panes(
    dialog: &MessageDialogOverlay,
    keys: Line,
    region: Rect,
    message_pane: Rect,
    keys_pane: Rect,
) -> (r: OverlayDrawing)
    ensures
        r@ == dialog_drawing(dialog@, keys@, region, message_pane, keys_pane),
{
    let border = match dialog.kind() {
        MessageDialogKind::Info => SemanticColor::Focus,
        MessageDialogKind::Error => SemanticColor::Error,
    };
    let title = text::cat3(" M  ", dialog.title(), " ");
    let mut drawing = OverlayDrawing::framed(region, title.as_str(), border);
    drawing.add_pane(
        Pane {
            region: message_pane,
            content: PaneContent::Wrapped {
                text: dialog.message().to_owned(),
                style: Style::color(SemanticColor::Assistant),
            },
        },
    );
    let mut lines: Vec<Line> = Vec::new();
    let ghost shown = keys@;
    lines.push(keys);
    proof {
        assert(ui::line_views(lines@) =~= seq![shown]);
    }
    drawing.add_lines(keys_pane, lines);
    drawing
}

/// The panes of a dialog.
pub open spec fn dialog_constraints() -> Seq<Constraint> {
    seq![Constraint::Min(1), Constraint::Length(1)]
}

/// How high the panes of a dialog are asked to be.
pub fn dialog_panes() -> (r: Vec<Constraint>)
    ensures
        r@ == dialog_constraints(),
{
    let constraints = vec![Constraint::Min(1), Constraint::Length(1)];
    proof {
        assert(constraints@ =~= dialog_constraints());
    }
    constraints
}

/// Whether this is a dialog with these keys on a screen, however its inside is shared.
pub open spec fn dialog_drawn(
    d: overlay::DialogView,
    keys: Seq<ui::SpanView>,
    area: Rect,
    drawing: DrawingView,
) -> bool {
    let region = dialog_region(d, area);
    exists|panes: Seq<Rect>|
        {
            &&& #[trigger] layout::shared_out(panes, inset_of(region, 2, 1), true, dialog_constraints())
            &&& drawing == dialog_drawing(d, keys, region, panes[0], panes[1])
        }
}

/// A dialog that has room is drawn in one way: the last row for the keys, the rest for the
/// message.
pub proof fn dialogs_with_room_are_settled(
    d: overlay::DialogView,
    keys: Seq<ui::SpanView>,
    area: Rect,
    drawing: DrawingView,
)
    requires
        dialog_drawn(d, keys, area, drawing),
        on_screen(area),
        inset_of(dialog_region(d, area), 2, 1).height >= 2,
    ensures
        ({
            let region = dialog_region(d, area);
            let inner = inset_of(region, 2, 1);
            let panes = layout::stacked(inner, seq![inner.height - 1, 1]);
            drawing == dialog_drawing(d, keys, region, panes[0], panes[1])
        }),
{
    let region = dialog_region(d, area);
    let inner = inset_of(region, 2, 1);
    let panes = choose|panes: Seq<Rect>|
        {
            &&& #[trigger] layout::shared_out(panes, inner, true, dialog_constraints())
            &&& drawing == dialog_drawing(d, keys, region, panes[0], panes[1])
        };
    reveal_with_fuel(layout::asked_in, 3);
    reveal_with_fuel(layout::height_in, 3);
    assert(layout::only_min(dialog_constraints(), 0));
    layout::rows_with_room_are_stacked(
        panes,
        inner,
        dialog_constraints(),
        0,
        seq![inner.height - 1, 1],
    );
}

pub fn render_message_dialog(dialog: &MessageDialogOverlay, area: Rect) -> (r: OverlayDrawing)
    requires
        on_screen(area),
    ensures
        dialog_drawn(dialog@, dialog_keys(), area, r@),
{
    let keys = Line::two(
        Span::of("Enter / Esc", Style::color(SemanticColor::Focus).bold()),
        Span::of("  Close", Style::color(SemanticColor::Muted)),
    );
    proof {
        assert(keys@ =~= dialog_keys());
    }
    place_dialog(dialog, keys, area)
}

/// Draws the question whether a plan is approved.
pub fn render_plan_approval(approval: &PlanApprovalOverlay, area: Rect) -> (r: OverlayDrawing)
    requires
        on_screen(area),
    ensures
        dialog_drawn(approval_dialog(approval.message_view()), approval_keys(), area, r@),
{
    let dialog = MessageDialogOverlay::new(
        MessageDialogKind::Info,
        "Approve plan and execute?",
        approval.message().to_owned(),
    );
    let keys = Line::four(
        Span::of("Enter", Style::color(SemanticColor::Focus).bold()),
        Span::of("  Approve", Style::color(SemanticColor::Muted)),
        Span::of("  Esc", Style::color(SemanticColor::Focus).bold()),
        Span::of("  Back", Style::color(SemanticColor::Muted)),
    );
    proof {
        assert(keys@ =~= approval_keys());
    }
    place_dialog(&dialog, keys, area)
}

fn place_dialog(dialog: &MessageDialogOverlay, keys: Line, area: Rect) -> (r: OverlayDrawing)
    requires
        on_screen(area),
    ensures
        dialog_drawn(dialog@, keys@, area, r@),
{
    let width: u16 = if area.width < 8 {
        8
    } else if area.width > 72 {
        72
    } else {
        area.width
    };
    let inside: u16 = width - 6;
    let content: usize = if inside > 1 {
        inside as usize
    } else {
        1
    };
    let rows = estimated_wrapped_lines(dialog.message(), content);
    let height: u16 = if rows < 2 {
        8
    } else if rows > 14 {
        20
    } else {
        rows as u16 + 6
    };
    let region = centered_rect(area, width, height);
    let panes = layout::divide(inset(region, 2, 1), true, &dialog_panes());
    dialog_in_panes(dialog, keys, region, panes[0], panes[1])
}

/// What the overlays show of the rest of the program.
#[derive(Debug, PartialEq, Eq)]
pub struct OverlayContext {
    pub keys: Vec<KeyLabel>,
    pub settings: SettingTexts,
    /// Whether the model layer accepts the trimmed query of the model picker as a name.
    pub model_name_is_valid: bool,
}

/// Whether an overlay is drawn so, however its inside is shared; those that have a page of
/// their own are not drawn.
pub open spec fn overlay_drawn(
    o: overlay::OverlayView,
    context: OverlayContext,
    area: Rect,
    drawing: Option<DrawingView>,
) -> bool {
    match o {
        overlay::OverlayView::CommandPalette(p) => {
            drawing matches Some(d) && palette_drawn(p, context.keys@, area, d)
        },
        overlay::OverlayView::Settings(s) => drawing == Some(
            settings_drawing(s, context.settings, area),
        ),
        overlay::OverlayView::ProviderManager(m) => drawing == Some(
            provider_render::manager_drawing(m, area),
        ),
        overlay::OverlayView::ProviderForm(f) => drawing == Some(
            provider_render::form_drawing(f, area),
        ),
        overlay::OverlayView::ModelPicker(p) => {
            drawing matches Some(d) && provider_render::picker_drawn(
                p,
                context.model_name_is_valid,
                area,
                d,
            )
        },
        overlay::OverlayView::ReasoningPicker(p) => {
            drawing matches Some(d) && provider_render::effort_drawn(p, area, d)
        },
        overlay::OverlayView::PlanApproval(message, _) => {
            drawing matches Some(d) && dialog_drawn(
                approval_dialog(message),
                approval_keys(),
                area,
                d,
            )
        },
        overlay::OverlayView::Dialog(dialog) => {
            drawing matches Some(d) && dialog_drawn(dialog, dialog_keys(), area, d)
        },
        overlay::OverlayView::ShortcutsFromPalette => drawing == Some(
            shortcuts_drawing(context.keys@, area),
        ),
        overlay::OverlayView::ShortcutsFromSettings(_) => drawing == Some(
            shortcuts_drawing(context.keys@, area),
        ),
        _ => drawing is None,
    }
}

pub fn render_overlay(overlay: &Overlay, context: &OverlayContext, area: Rect) -> (r: Option<
    OverlayDrawing,
>)
    requires
        overlay@.well_formed(),
        on_screen(area),
    ensures
        overlay_drawn(
            overlay@,
            *context,
            area,
            match r {
                Some(drawing) => Some(drawing@),
                None => None,
            },
        ),
{
    match overlay {
        Overlay::CommandPalette(palette) => Some(
            render_command_palette(palette, &context.keys, area),
        ),
        Overlay::Settings(settings) => Some(render_settings(settings, &context.settings, area)),
        Overlay::ProviderManager(manager) => Some(
            provider_render::render_provider_manager(manager, area),
        ),
        Overlay::ProviderForm(form) => Some(provider_render::render_provider_form(form, area)),
        Overlay::ModelPicker(picker) => Some(
            provider_render::render_model_picker(picker, context.model_name_is_valid, area),
        ),
        Overlay::ReasoningPicker(picker) => Some(
            provider_render::render_reasoning_picker(picker, area),
        ),
        Overlay::PlanApproval(approval) => Some(render_plan_approval(approval, area)),
        Overlay::Dialog(dialog) => Some(render_message_dialog(dialog, area)),
        Overlay::Shortcuts(_) => Some(render_shortcuts(&context.keys, area)),
        _ => None,
    }
}

} // verus!
