//! The conversation laid out in rows, for drawing, for the mouse and for selections.
use crate::copy_controls;
use crate::copy_controls::{CopyContent, CopyTarget, CopyTextError};
use crate::layout;
use crate::layout::{Position, Rect};
use crate::text;
use crate::timeline::TimelineItem;
use crate::timeline_lines;
use crate::ui;
use crate::ui::{Line, Span, SpanView};
use vstd::prelude::*;

verus! {

/// The most graphemes in one row before it is wrapped.
pub const MAX_TIMELINE_LOGICAL_LINE_GRAPHEMES: usize = 32_768;

/// What of a row a selection takes.
#[derive(Debug, Clone, Copy, PartialEq, Eq, Structural)]
pub enum SelectionPolicy {
    Keep,
    Skip,
    /// All but so many columns at its front.
    StripPrefix(usize),
}

impl SelectionPolicy {
    pub open spec fn behind(self, columns: usize) -> SelectionPolicy {
        match self {
            SelectionPolicy::Keep => SelectionPolicy::StripPrefix(columns),
            SelectionPolicy::Skip => SelectionPolicy::Skip,
            SelectionPolicy::StripPrefix(n) => SelectionPolicy::StripPrefix(
                if n + columns > usize::MAX {
                    usize::MAX
                } else {
                    (n + columns) as usize
                },
            ),
        }
    }

    /// The policy of a row that has got more columns at its front.
    pub fn with_prefix(self, columns: usize) -> (r: SelectionPolicy)
        ensures
            r == self.behind(columns),
    {
        match self {
            SelectionPolicy::Keep => SelectionPolicy::StripPrefix(columns),
            SelectionPolicy::Skip => SelectionPolicy::Skip,
            SelectionPolicy::StripPrefix(n) => SelectionPolicy::StripPrefix(
                n.saturating_add(columns),
            ),
        }
    }
}

/// A row of the conversation, before it is wrapped.
#[derive(Debug, PartialEq, Eq)]
pub struct TranscriptRow {
    pub display: Line,
    pub selection: SelectionPolicy,
}

/// A row of the conversation.
pub struct RowView {
    pub display: Seq<SpanView>,
    pub selection: SelectionPolicy,
}

impl View for TranscriptRow {
    type V = RowView;

    open spec fn view(&self) -> RowView {
        RowView { display: self.display@, selection: self.selection }
    }
}

pub open spec fn row_views(v: Seq<TranscriptRow>) -> Seq<RowView> {
    v.map_values(|r: TranscriptRow| r@)
}

impl TranscriptRow {
    pub fn new(display: Line, selection: SelectionPolicy) -> (r: TranscriptRow)
        ensures
            r@ == (RowView { display: display@, selection }),
    {
        TranscriptRow { display, selection }
    }
}

fn push_row(rows: &mut Vec<TranscriptRow>, row: TranscriptRow)
    ensures
        row_views(final(rows)@) == row_views(old(rows)@).push(row@),
        final(rows)@.len() == old(rows)@.len() + 1,
{
    let ghost before = rows@;
    rows.push(row);
    proof {
        assert(row_views(rows@) =~= row_views(before).push(row@));
    }
}

/// Rows, and the controls among them.
#[derive(Debug, PartialEq, Eq)]
pub struct RenderedMarkdown {
    pub rows: Vec<TranscriptRow>,
    pub copy_targets: Vec<CopyTarget>,
}

/// A control further down, and further to the right.
pub open spec fn moved(t: CopyTarget, rows: int, columns: int) -> CopyTarget {
    CopyTarget {
        line_index: if t.line_index + rows > usize::MAX {
            usize::MAX
        } else {
            (t.line_index + rows) as usize
        },
        column: layout::capped_sum(t.column as int, columns) as u16,
        ..t
    }
}

pub open spec fn all_moved(targets: Seq<CopyTarget>, rows: int, columns: int) -> Seq<CopyTarget> {
    targets.map_values(|t: CopyTarget| moved(t, rows, columns))
}

fn move_targets(targets: Vec<CopyTarget>, columns: u16) -> (r: Vec<CopyTarget>)
    ensures
        r@ == all_moved(targets@, 1, columns as int),
{
    let ghost all = all_moved(targets@, 1, columns as int);
    let ghost given = targets@;
    let mut r = targets;
    let mut i: usize = 0;
    while i < r.len()
        invariant
            i <= r@.len(),
            r@.len() == given.len(),
            all == all_moved(given, 1, columns as int),
            forall|k: int| 0 <= k < i ==> #[trigger] r@[k] == all[k],
            forall|k: int| i <= k < r@.len() ==> #[trigger] r@[k] == given[k],
        decreases r@.len() - i,
    {
        let line_index = r[i].line_index.saturating_add(1);
        let column = r[i].column.saturating_add(columns);
        let mut t = CopyTarget::new(0, 0, CopyContent::AssistantMessage(0));
        std::mem::swap(&mut t, &mut r[i]);
        t.line_index = line_index;
        t.column = column;
        proof {
            assert(t == all[i as int]);
        }
        r.set(i, t);
        i = i + 1;
    }
    proof {
        assert(r@ =~= all);
    }
    r
}

/// The rows of an answer: the control that copies it where there is room for one, the answer,
/// and a line below it.
pub open spec fn answer_rows(rows: Seq<RowView>, width: u16) -> Seq<RowView> {
    let line = RowView {
        display: seq![
            ui::span(
                text::repeated(
                    '-',
                    if width == 0 {
                        1
                    } else {
                        width as nat
                    },
                ),
                timeline_lines::muted(),
            ),
        ],
        selection: SelectionPolicy::Skip,
    };
    match copy_controls::fitting_label("[Copy reply]"@, width) {
        Some(label) => seq![
            RowView {
                display: seq![ui::span(label, copy_controls::header_style())],
                selection: SelectionPolicy::Skip,
            },
        ] + rows.push(line),
        None => rows.push(line),
    }
}

/// The controls of an answer.
pub open spec fn answer_targets(targets: Seq<CopyTarget>, index: usize, width: u16) -> Seq<CopyTarget> {
    match copy_controls::fitting_label("[Copy reply]"@, width) {
        Some(label) => seq![
            CopyTarget {
                line_index: 0,
                column: 0,
                width: text::byte_len(label) as u16,
                content: CopyContent::AssistantMessage(index),
            },
        ] + all_moved(targets, 1, 0),
        None => targets,
    }
}

/// Puts the control and the line to an answer. `rendered` are its rows, `item_index` is its
/// place in the conversation.
pub fn assistant_lines(rendered: RenderedMarkdown, item_index: usize, width: u16) -> (r:
    RenderedMarkdown)
    ensures
        row_views(r.rows@) == answer_rows(row_views(rendered.rows@), width),
        r.copy_targets@ == answer_targets(rendered.copy_targets@, item_index, width),
{
    let ghost given = row_views(rendered.rows@);
    let mut rows = rendered.rows;
    let mut copy_targets = rendered.copy_targets;
    match copy_controls::copy_header("[Copy reply]", width) {
        Some((header, columns)) => {
            let ghost before = rows@;
            let row = TranscriptRow::new(header, SelectionPolicy::Skip);
            rows.insert(0, row);
            copy_targets = move_targets(copy_targets, 0);
            let ghost shifted = copy_targets@;
            let target = CopyTarget::new(
                0,
                columns,
                CopyContent::AssistantMessage(item_index),
            );
            copy_targets.insert(0, target);
            proof {
                assert(row_views(rows@) =~= seq![row@] + row_views(before));
                assert(copy_targets@ =~= seq![target] + shifted);
            }
        },
        None => {},
    }
    let ghost before = row_views(rows@);
    push_row(
        &mut rows,
        TranscriptRow::new(
            timeline_lines::assistant_separator_line(width),
            SelectionPolicy::Skip,
        ),
    );
    proof {
        assert(row_views(rows@) =~= answer_rows(given, width));
    }
    RenderedMarkdown { rows, copy_targets }
}

/// A row behind a blank.
pub open spec fn indented(row: RowView) -> RowView {
    RowView {
        display: seq![ui::span(" "@, ui::plain_style())] + row.display,
        selection: row.selection.behind(1),
    }
}

/// The rows of what a command of this program tells: its title, and the rest behind a blank.
pub open spec fn told_rows(title: Seq<char>, rows: Seq<RowView>) -> Seq<RowView> {
    seq![
        RowView {
            display: seq![
                ui::span(title, ui::colored(ui::SemanticColor::Focus).bolded()),
            ],
            selection: SelectionPolicy::Skip,
        },
    ] + rows.map_values(|r: RowView| indented(r))
}

fn indent_row(row: &TranscriptRow) -> (r: TranscriptRow)
    ensures
        r@ == indented(row@),
{
    let mut spans: Vec<Span> = vec![Span::raw(" ")];
    let ghost head = seq![ui::span(" "@, ui::plain_style())];
    let ghost all = row.display@;
    let mut i: usize = 0;
    proof {
        assert(ui::span_views(spans@) =~= head + all.take(0));
    }
    while i < row.display.spans.len()
        invariant
            i <= row.display.spans@.len(),
            all == row.display@,
            ui::span_views(spans@) == head + all.take(i as int),
        decreases row.display.spans@.len() - i,
    {
        let ghost before = spans@;
        let s = row.display.spans[i].clone();
        spans.push(s);
        proof {
            assert(all[i as int] == s@);
            assert(ui::span_views(spans@) =~= ui::span_views(before).push(s@));
            assert(head + all.take(i + 1) =~= (head + all.take(i as int)).push(all[i as int]));
        }
        i = i + 1;
    }
    proof {
        assert(all.take(i as int) =~= all);
    }
    TranscriptRow { display: Line { spans }, selection: row.selection.with_prefix(1) }
}

/// Puts the title to what a command of this program tells. `rendered` are the rows of its
/// body.
pub fn local_command_lines(title: &str, rendered: RenderedMarkdown) -> (r: RenderedMarkdown)
    ensures
        row_views(r.rows@) == told_rows(title@, row_views(rendered.rows@)),
        r.copy_targets@ == all_moved(rendered.copy_targets@, 1, 1),
{
    let given = rendered.rows;
    let ghost all = row_views(given@).map_values(|r: RowView| indented(r));
    let ghost head = told_rows(title@, Seq::empty());
    let mut rows: Vec<TranscriptRow> = vec![
        TranscriptRow::new(
            Line::one(
                Span::of(title, ui::Style::color(ui::SemanticColor::Focus).bold()),
            ),
            SelectionPolicy::Skip,
        ),
    ];
    let mut i: usize = 0;
    proof {
        assert(row_views(rows@) =~= head + all.take(0));
    }
    while i < given.len()
        invariant
            i <= given@.len(),
            all == row_views(given@).map_values(|r: RowView| indented(r)),
            row_views(rows@) == head + all.take(i as int),
        decreases given@.len() - i,
    {
        push_row(&mut rows, indent_row(&given[i]));
        proof {
            assert(row_views(given@)[i as int] == given@[i as int]@);
            assert(all[i as int] == indented(given@[i as int]@));
            assert(head + all.take(i + 1) =~= (head + all.take(i as int)).push(all[i as int]));
        }
        i = i + 1;
    }
    proof {
        assert(all.take(i as int) =~= all);
        assert(head + all =~= told_rows(title@, row_views(given@)));
    }
    RenderedMarkdown { rows, copy_targets: move_targets(rendered.copy_targets, 1) }
}

/// The graphemes of a text, without those that are line breaks.
pub uninterp spec fn grapheme_list(s: Seq<char>) -> Seq<Seq<char>>;

/// The symbols of `ratatui`'s `Span::styled_graphemes`. They go by the text alone.
#[verifier::external_body]
fn graphemes(s: &str) -> (r: Vec<String>)
    ensures
        text::views(r@) == grapheme_list(s@),
{
    let span = ratatui::text::Span::raw(s);
    span.styled_graphemes(ratatui::style::Style::default()).map(|g| g.symbol.to_owned()).collect()
}

/// How far the cutting of a row has come: the rows that are done, the stretches of the next
/// one, its graphemes so far, and the text of the stretch under way.
pub struct Cut {
    pub rows: Seq<Seq<SpanView>>,
    pub spans: Seq<SpanView>,
    pub count: nat,
    pub chunk: Seq<char>,
}

/// The stretches with the one under way, if it holds anything.
pub open spec fn with_chunk(spans: Seq<SpanView>, chunk: Seq<char>, style: ui::Style) -> Seq<SpanView> {
    if chunk.len() == 0 {
        spans
    } else {
        spans.push(ui::span(chunk, style))
    }
}

/// One more grapheme; a row that is full ends before it.
pub open spec fn cut_grapheme(c: Cut, g: Seq<char>, style: ui::Style) -> Cut {
    if c.count == MAX_TIMELINE_LOGICAL_LINE_GRAPHEMES {
        Cut {
            rows: c.rows.push(with_chunk(c.spans, c.chunk, style)),
            spans: Seq::empty(),
            count: 1,
            chunk: g,
        }
    } else {
        Cut { count: c.count + 1, chunk: c.chunk + g, ..c }
    }
}

pub open spec fn cut_graphemes(c: Cut, list: Seq<Seq<char>>, style: ui::Style) -> Cut
    decreases list.len(),
{
    if list.len() == 0 {
        c
    } else {
        cut_grapheme(cut_graphemes(c, list.drop_last(), style), list.last(), style)
    }
}

/// One more stretch.
pub open spec fn cut_span(c: Cut, s: SpanView) -> Cut {
    let run = cut_graphemes(Cut { chunk: Seq::empty(), ..c }, grapheme_list(s.content), s.style);
    Cut { spans: with_chunk(run.spans, run.chunk, s.style), chunk: Seq::empty(), ..run }
}

pub open spec fn cut_spans(spans: Seq<SpanView>) -> Cut
    decreases spans.len(),
{
    if spans.len() == 0 {
        Cut { rows: Seq::empty(), spans: Seq::empty(), count: 0, chunk: Seq::empty() }
    } else {
        cut_span(cut_spans(spans.drop_last()), spans.last())
    }
}

/// The bytes of a row.
pub open spec fn row_bytes(spans: Seq<SpanView>) -> nat
    decreases spans.len(),
{
    if spans.len() == 0 {
        0
    } else {
        row_bytes(spans.drop_last()) + text::byte_len(spans.last().content)
    }
}

/// A row, cut into rows where it is too long.
pub open spec fn cut_row(spans: Seq<SpanView>) -> Seq<Seq<SpanView>> {
    if row_bytes(spans) <= MAX_TIMELINE_LOGICAL_LINE_GRAPHEMES {
        seq![spans]
    } else {
        let c = cut_spans(spans);
        if c.spans.len() > 0 || c.rows.len() == 0 {
            c.rows.push(c.spans)
        } else {
            c.rows
        }
    }
}

/// More stretches take no fewer bytes.
proof fn lemma_row_bytes_grow(spans: Seq<SpanView>, i: int)
    requires
        0 <= i <= spans.len(),
    ensures
        row_bytes(spans.take(i)) <= row_bytes(spans),
    decreases spans.len(),
{
    if i == spans.len() {
        assert(spans.take(i) =~= spans);
    } else {
        assert(spans.drop_last().take(i) =~= spans.take(i));
        lemma_row_bytes_grow(spans.drop_last(), i);
    }
}

fn is_oversized(line: &Line) -> (r: bool)
    ensures
        r == (row_bytes(line@) > MAX_TIMELINE_LOGICAL_LINE_GRAPHEMES),
{
    let ghost all = line@;
    let mut total: usize = 0;
    let mut i: usize = 0;
    proof {
        assert(all.take(0) =~= Seq::empty());
    }
    while i < line.spans.len()
        invariant
            i <= line.spans@.len(),
            all == line@,
            total == row_bytes(all.take(i as int)),
        decreases line.spans@.len() - i,
    {
        proof {
            assert(all.take(i + 1).drop_last() =~= all.take(i as int));
            assert(all.take(i + 1).last() == line.spans@[i as int]@);
            lemma_row_bytes_grow(all, i + 1);
        }
        let n = text::len_in_bytes(line.spans[i].content.as_str());
        match total.checked_add(n) {
            Some(t) => {
                total = t;
            },
            None => {
                return true;
            },
        }
        i = i + 1;
    }
    proof {
        assert(all.take(i as int) =~= all);
    }
    total > MAX_TIMELINE_LOGICAL_LINE_GRAPHEMES
}

/// How far the cutting of a row has come.
struct Cutting {
    rows: Vec<Line>,
    spans: Vec<Span>,
    count: usize,
    chunk: String,
}

impl View for Cutting {
    type V = Cut;

    closed spec fn view(&self) -> Cut {
        Cut {
            rows: ui::line_views(self.rows@),
            spans: ui::span_views(self.spans@),
            count: self.count as nat,
            chunk: self.chunk@,
        }
    }
}

impl Cutting {
    /// Ends the stretch under way, if it holds anything.
    fn end_chunk(&mut self, style: ui::Style)
        ensures
            final(self)@ == (Cut {
                spans: with_chunk(old(self)@.spans, old(self)@.chunk, style),
                chunk: Seq::empty(),
                ..old(self)@
            }),
            final(self).count == old(self).count,
    {
        if !self.chunk.as_str().is_empty() {
            let ghost before = self.spans@;
            let mut chunk = String::new();
            std::mem::swap(&mut chunk, &mut self.chunk);
            let s = Span::styled(chunk, style);
            self.spans.push(s);
            proof {
                assert(ui::span_views(self.spans@) =~= ui::span_views(before).push(s@));
            }
        }
        proof {
            assert(self.chunk@ =~= Seq::empty());
        }
    }

    fn add(&mut self, g: &str, style: ui::Style)
        requires
            old(self).count <= MAX_TIMELINE_LOGICAL_LINE_GRAPHEMES,
        ensures
            final(self)@ == cut_grapheme(old(self)@, g@, style),
            final(self).count <= MAX_TIMELINE_LOGICAL_LINE_GRAPHEMES,
    {
        if self.count == MAX_TIMELINE_LOGICAL_LINE_GRAPHEMES {
            self.end_chunk(style);
            let ghost before = self.rows@;
            let mut spans: Vec<Span> = Vec::new();
            std::mem::swap(&mut spans, &mut self.spans);
            let line = Line { spans };
            self.rows.push(line);
            self.count = 0;
            proof {
                assert(ui::line_views(self.rows@) =~= ui::line_views(before).push(line@));
                assert(ui::span_views(self.spans@) =~= Seq::empty());
            }
            self.chunk.append(g);
            proof {
                assert(self.chunk@ =~= g@);
            }
        } else {
            self.chunk.append(g);
        }
        self.count = self.count + 1;
    }
}

pub fn split_oversized_timeline_line(line: Line) -> (r: Vec<Line>)
    ensures
        ui::line_views(r@) == cut_row(line@),
{
    if !is_oversized(&line) {
        let r = vec![line];
        proof {
            assert(ui::line_views(r@) =~= seq![line@]);
        }
        return r;
    }
    let ghost all = line@;
    let mut c = Cutting { rows: Vec::new(), spans: Vec::new(), count: 0, chunk: String::new() };
    let mut i: usize = 0;
    proof {
        assert(all.take(0) =~= Seq::empty());
        assert(c@.rows =~= Seq::empty());
        assert(c@.spans =~= Seq::empty());
        assert(c@.chunk =~= Seq::empty());
    }
    while i < line.spans.len()
        invariant
            i <= line.spans@.len(),
            all == line@,
            c@ == cut_spans(all.take(i as int)),
            c@.chunk == Seq::<char>::empty(),
            c.count <= MAX_TIMELINE_LOGICAL_LINE_GRAPHEMES,
        decreases line.spans@.len() - i,
    {
        proof {
            assert(all.take(i + 1).drop_last() =~= all.take(i as int));
            assert(all.take(i + 1).last() == line.spans@[i as int]@);
        }
        let span = &line.spans[i];
        let list = graphemes(span.content.as_str());
        let ghost symbols = text::views(list@);
        let ghost start = c@;
        let mut j: usize = 0;
        proof {
            assert(symbols.take(0) =~= Seq::empty());
        }
        while j < list.len()
            invariant
                j <= list@.len(),
                symbols == text::views(list@),
                c@ == cut_graphemes(start, symbols.take(j as int), span.style),
                c.count <= MAX_TIMELINE_LOGICAL_LINE_GRAPHEMES,
            decreases list@.len() - j,
        {
            proof {
                assert(symbols.take(j + 1).drop_last() =~= symbols.take(j as int));
                assert(symbols.take(j + 1).last() == list@[j as int]@);
            }
            c.add(list[j].as_str(), span.style);
            j = j + 1;
        }
        proof {
            assert(symbols.take(j as int) =~= symbols);
        }
        c.end_chunk(span.style);
        i = i + 1;
    }
    proof {
        assert(all.take(i as int) =~= all);
        assert(c@.spans.len() == c.spans@.len());
        assert(c@.rows.len() == c.rows@.len());
    }
    let mut rows = c.rows;
    if c.spans.len() > 0 || rows.len() == 0 {
        ui::push_line(&mut rows, Line { spans: c.spans });
    }
    rows
}

/// An item of the conversation in rows: its rows, its controls, and whether it is a command.
#[derive(Debug, PartialEq, Eq)]
pub struct ItemRows {
    pub rows: Vec<TranscriptRow>,
    pub targets: Vec<CopyTarget>,
    pub is_command: bool,
}

/// How many columns the mark before a message of the user takes.
pub const USER_MARK_COLUMNS: usize = 2;

/// What of an item's rows a selection takes: of the user's messages all but their mark.
pub open spec fn policy_of(item: TimelineItem) -> SelectionPolicy {
    match item {
        TimelineItem::User { .. } => SelectionPolicy::StripPrefix(USER_MARK_COLUMNS),
        _ => SelectionPolicy::Keep,
    }
}

/// Lines as rows of which a selection takes the same.
pub open spec fn rows_under(lines: Seq<Seq<SpanView>>, selection: SelectionPolicy) -> Seq<RowView> {
    lines.map_values(|l: Seq<SpanView>| RowView { display: l, selection })
}

/// The rows of an item that is shown in these lines. It has no controls.
pub fn item_rows_of(item: &TimelineItem, lines: Vec<Line>) -> (r: ItemRows)
    ensures
        row_views(r.rows@) == rows_under(ui::line_views(lines@), policy_of(*item)),
        r.targets@ == Seq::<CopyTarget>::empty(),
        r.is_command == (*item is Command),
{
    let selection = match item {
        TimelineItem::User { .. } => SelectionPolicy::StripPrefix(USER_MARK_COLUMNS),
        _ => SelectionPolicy::Keep,
    };
    let is_command = match item {
        TimelineItem::Command { .. } => true,
        _ => false,
    };
    let ghost all = rows_under(ui::line_views(lines@), selection);
    let mut rows: Vec<TranscriptRow> = Vec::new();
    let ghost shown = lines@;
    proof {
        assert(row_views(rows@) =~= all.take(0));
    }
    for line in iter: lines
        invariant
            iter.seq() == shown,
            all == rows_under(ui::line_views(shown), selection),
            row_views(rows@) == all.take(iter.index() as int),
    {
        let ghost i = iter.index() as int;
        proof {
            assert(ui::line_views(shown)[i] == shown[i]@);
            assert(all.take(i + 1) =~= all.take(i).push(all[i]));
        }
        push_row(&mut rows, TranscriptRow::new(line, selection));
    }
    proof {
        assert(all.take(shown.len() as int) =~= all);
    }
    ItemRows { rows, targets: Vec::new(), is_command }
}

/// The rows of an item whose document is shown in these rows: an answer gets its control and
/// the line below it, what a command of this program tells gets its title.
pub open spec fn document_rows(item: TimelineItem, rows: Seq<RowView>, width: u16) -> Seq<RowView> {
    match item {
        TimelineItem::Assistant { .. } => answer_rows(rows, width),
        TimelineItem::LocalCommand { title, .. } => told_rows(title@, rows),
        _ => rows,
    }
}

/// The controls of an item whose document has these.
pub open spec fn document_targets(
    item: TimelineItem,
    targets: Seq<CopyTarget>,
    index: usize,
    width: u16,
) -> Seq<CopyTarget> {
    match item {
        TimelineItem::Assistant { .. } => answer_targets(targets, index, width),
        TimelineItem::LocalCommand { .. } => all_moved(targets, 1, 1),
        _ => targets,
    }
}

/// The rows of an item whose document is shown in these rows. `index` is its place in the
/// conversation.
pub fn document_rows_of(
    item: &TimelineItem,
    rendered: RenderedMarkdown,
    index: usize,
    width: u16,
) -> (r: ItemRows)
    ensures
        row_views(r.rows@) == document_rows(*item, row_views(rendered.rows@), width),
        r.targets@ == document_targets(*item, rendered.copy_targets@, index, width),
        r.is_command == (*item is Command),
{
    let is_command = match item {
        TimelineItem::Command { .. } => true,
        _ => false,
    };
    let shown = match item {
        TimelineItem::Assistant { .. } => assistant_lines(rendered, index, width),
        TimelineItem::LocalCommand { title, .. } => local_command_lines(title.as_str(), rendered),
        _ => rendered,
    };
    ItemRows { rows: shown.rows, targets: shown.copy_targets, is_command }
}

/// Whether an item stands close to the next one: two commands do, where the first takes but
/// one row.
pub open spec fn stands_close(items: Seq<ItemRows>, i: int) -> bool {
    items[i].rows@.len() == 1 && items[i].is_command && i + 1 < items.len()
        && items[i + 1].is_command
}

pub open spec fn empty_row() -> RowView {
    RowView { display: Seq::empty(), selection: SelectionPolicy::Keep }
}

/// The rows of an item with the empty one behind it, where there is one.
pub open spec fn spaced(rows: Seq<RowView>, has_next_item: bool) -> Seq<RowView> {
    if has_next_item && rows.len() > 0 {
        rows.push(empty_row())
    } else {
        rows
    }
}

/// The rows of an item, spaced.
pub open spec fn item_rows(items: Seq<ItemRows>, i: int) -> Seq<RowView> {
    spaced(row_views(items[i].rows@), i + 1 < items.len() && !stands_close(items, i))
}

/// Rows as they have been laid out so far, the controls among them, and those of the item
/// that are still to come.
pub struct Laid {
    pub rows: Seq<RowView>,
    pub targets: Seq<CopyTarget>,
    pub waiting: Seq<CopyTarget>,
}

pub open spec fn cut_rows(row: RowView) -> Seq<RowView> {
    cut_row(row.display).map_values(
        |d: Seq<SpanView>| RowView { display: d, selection: row.selection },
    )
}

/// One more row of an item, its `line_index`th. The next control of the item comes with the
/// row that it names.
pub open spec fn lay_row(l: Laid, line_index: int, row: RowView) -> Laid {
    let rows = l.rows + cut_rows(row);
    if l.waiting.len() > 0 && l.waiting[0].line_index == line_index {
        Laid {
            rows,
            targets: l.targets.push(
                CopyTarget { line_index: l.rows.len() as usize, ..l.waiting[0] },
            ),
            waiting: l.waiting.drop_first(),
        }
    } else {
        Laid { rows, ..l }
    }
}

pub open spec fn lay_rows(l: Laid, rows: Seq<RowView>) -> Laid
    decreases rows.len(),
{
    if rows.len() == 0 {
        l
    } else {
        lay_row(lay_rows(l, rows.drop_last()), rows.len() - 1, rows.last())
    }
}

/// The conversation as it has been laid out so far.
pub struct Laying {
    pub rows: Seq<RowView>,
    pub targets: Seq<CopyTarget>,
    pub item_starts: Seq<usize>,
    pub review: Option<usize>,
}

/// The first `n` items laid out. `review` is the item that is being looked at.
pub open spec fn lay_items(items: Seq<ItemRows>, n: int, review: Option<usize>) -> Laying
    decreases n,
{
    if n <= 0 {
        Laying {
            rows: Seq::empty(),
            targets: Seq::empty(),
            item_starts: Seq::empty(),
            review: None,
        }
    } else {
        let before = lay_items(items, n - 1, review);
        let laid = lay_rows(
            Laid { rows: before.rows, targets: before.targets, waiting: items[n - 1].targets@ },
            item_rows(items, n - 1),
        );
        Laying {
            rows: laid.rows,
            targets: laid.targets,
            item_starts: before.item_starts.push(before.rows.len() as usize),
            review: if review == Some((n - 1) as usize) {
                Some(before.rows.len() as usize)
            } else {
                before.review
            },
        }
    }
}

impl Clone for CopyTarget {
    fn clone(&self) -> (r: Self)
        ensures
            r == *self,
    {
        CopyTarget {
            line_index: self.line_index,
            column: self.column,
            width: self.width,
            content: match &self.content {
                CopyContent::Text(t) => CopyContent::Text(t.clone()),
                CopyContent::AssistantMessage(i) => CopyContent::AssistantMessage(*i),
            },
        }
    }
}

fn push_cut(rows: &mut Vec<TranscriptRow>, row: &TranscriptRow)
    ensures
        row_views(final(rows)@) == row_views(old(rows)@) + cut_rows(row@),
{
    let ghost before = row_views(rows@);
    let ghost all = cut_rows(row@);
    let pieces = split_oversized_timeline_line(row.display.clone());
    let mut i: usize = 0;
    proof {
        assert(ui::line_views(pieces@).len() == pieces@.len());
        assert(before + all.take(0) =~= before);
    }
    while i < pieces.len()
        invariant
            i <= pieces@.len(),
            ui::line_views(pieces@) == cut_row(row@.display),
            all == cut_rows(row@),
            row_views(rows@) == before + all.take(i as int),
        decreases pieces@.len() - i,
    {
        push_row(rows, TranscriptRow::new(pieces[i].clone(), row.selection));
        proof {
            assert(ui::line_views(pieces@)[i as int] == pieces@[i as int]@);
            assert(all[i as int] == (RowView {
                display: pieces@[i as int]@,
                selection: row.selection,
            }));
            assert(before + all.take(i + 1) =~= (before + all.take(i as int)).push(
                all[i as int],
            ));
        }
        i = i + 1;
    }
    proof {
        assert(all.take(i as int) =~= all);
    }
}

/// Lays out one more item.
fn push_item(
    rows: &mut Vec<TranscriptRow>,
    targets: &mut Vec<CopyTarget>,
    items: &Vec<ItemRows>,
    index: usize,
)
    requires
        index < items@.len(),
    ensures
        ({
            let laid = lay_rows(
                Laid {
                    rows: row_views(old(rows)@),
                    targets: old(targets)@,
                    waiting: items@[index as int].targets@,
                },
                item_rows(items@, index as int),
            );
            row_views(final(rows)@) == laid.rows && final(targets)@ == laid.targets
        }),
{
    let item = &items[index];
    let more = index < items.len() - 1;
    let close = item.rows.len() == 1 && item.is_command && more && items[index + 1].is_command;
    let ghost start = Laid {
        rows: row_views(rows@),
        targets: targets@,
        waiting: item.targets@,
    };
    let ghost own = row_views(item.rows@);
    let mut next: usize = 0;
    let mut i: usize = 0;
    proof {
        assert(own.take(0) =~= Seq::empty());
        assert(item.targets@.skip(0) =~= item.targets@);
    }
    while i < item.rows.len()
        invariant
            i <= item.rows@.len(),
            next <= item.targets@.len(),
            own == row_views(item.rows@),
            lay_rows(start, own.take(i as int)) == (Laid {
                rows: row_views(rows@),
                targets: targets@,
                waiting: item.targets@.skip(next as int),
            }),
        decreases item.rows@.len() - i,
    {
        proof {
            assert(own.take(i + 1).drop_last() =~= own.take(i as int));
            assert(own.take(i + 1).last() == item.rows@[i as int]@);
            assert(row_views(rows@).len() == rows@.len());
        }
        if next < item.targets.len() && item.targets[next].line_index == i {
            let mut target = item.targets[next].clone();
            target.line_index = rows.len();
            targets.push(target);
            proof {
                assert(item.targets@.skip(next as int).drop_first() =~= item.targets@.skip(
                    next + 1,
                ));
            }
            next = next + 1;
        }
        push_cut(rows, &item.rows[i]);
        i = i + 1;
    }
    proof {
        assert(own.take(i as int) =~= own);
        assert(own.len() == item.rows@.len());
    }
    if more && !close && item.rows.len() > 0 {
        let row = TranscriptRow::new(Line::empty(), SelectionPolicy::Keep);
        proof {
            assert(own.push(empty_row()).drop_last() =~= own);
            assert(row@.display =~= empty_row().display);
            assert(row_views(rows@).len() == rows@.len());
        }
        if next < item.targets.len() && item.targets[next].line_index == i {
            let mut target = item.targets[next].clone();
            target.line_index = rows.len();
            targets.push(target);
        }
        push_cut(rows, &row);
    }
}

/// Where the rows start once they are wrapped: the first at zero, each of the others behind as
/// many as the one before takes. There is one more start than there are rows.
pub open spec fn starts(counts: Seq<usize>) -> Seq<usize>
    decreases counts.len(),
{
    if counts.len() == 0 {
        seq![0]
    } else {
        let before = starts(counts.drop_last());
        before.push(
            if before.last() + counts.last() > usize::MAX {
                usize::MAX
            } else {
                (before.last() + counts.last()) as usize
            },
        )
    }
}

/// Adds up how many rows each row takes once it is wrapped.
pub fn row_starts_of(counts: &Vec<usize>) -> (r: Vec<usize>)
    ensures
        r@ == starts(counts@),
        r@.len() == counts@.len() + 1,
{
    let mut r: Vec<usize> = vec![0];
    let mut i: usize = 0;
    proof {
        assert(counts@.take(0) =~= Seq::empty());
        assert(r@ =~= starts(counts@.take(0)));
    }
    while i < counts.len()
        invariant
            i <= counts@.len(),
            r@ == starts(counts@.take(i as int)),
            r@.len() == i + 1,
        decreases counts@.len() - i,
    {
        proof {
            assert(counts@.take(i + 1).drop_last() =~= counts@.take(i as int));
        }
        let next = r[i].saturating_add(counts[i]);
        r.push(next);
        i = i + 1;
    }
    proof {
        assert(counts@.take(i as int) =~= counts@);
    }
    r
}

/// The texts of the stretches of a row.
pub open spec fn row_texts(row: RowView) -> Seq<Seq<char>> {
    row.display.map_values(|s: SpanView| s.content)
}

/// How many rows a row takes once it is wrapped: one at least.
pub open spec fn wrapped_count(row: RowView, width: u16) -> usize {
    let n = layout::wrapped_rows(seq![row_texts(row)], width);
    if n == 0 {
        1
    } else {
        n
    }
}

pub open spec fn wrapped_counts(rows: Seq<RowView>, width: u16) -> Seq<usize> {
    rows.map_values(|r: RowView| wrapped_count(r, width))
}

fn texts_of(line: &Line) -> (r: Vec<String>)
    ensures
        text::views(r@) == line@.map_values(|s: SpanView| s.content),
{
    let ghost all = line@.map_values(|s: SpanView| s.content);
    let mut r: Vec<String> = Vec::new();
    let mut i: usize = 0;
    proof {
        assert(text::views(r@) =~= all.take(0));
    }
    while i < line.spans.len()
        invariant
            i <= line.spans@.len(),
            all == line@.map_values(|s: SpanView| s.content),
            text::views(r@) == all.take(i as int),
        decreases line.spans@.len() - i,
    {
        let ghost before = r@;
        let t = line.spans[i].content.clone();
        r.push(t);
        proof {
            assert(line@[i as int] == line.spans@[i as int]@);
            assert(text::views(r@) =~= text::views(before).push(t@));
            assert(all.take(i + 1) =~= all.take(i as int).push(all[i as int]));
        }
        i = i + 1;
    }
    proof {
        assert(all.take(i as int) =~= all);
    }
    r
}

fn count_rows(rows: &Vec<TranscriptRow>, width: u16) -> (r: Vec<usize>)
    requires
        width <= layout::MAX_WRAP_WIDTH,
    ensures
        r@ == wrapped_counts(row_views(rows@), width),
{
    let ghost all = wrapped_counts(row_views(rows@), width);
    let mut r: Vec<usize> = Vec::new();
    let mut i: usize = 0;
    proof {
        assert(r@ =~= all.take(0));
    }
    while i < rows.len()
        invariant
            i <= rows@.len(),
            width <= layout::MAX_WRAP_WIDTH,
            all == wrapped_counts(row_views(rows@), width),
            r@ == all.take(i as int),
        decreases rows@.len() - i,
    {
        let lines = vec![texts_of(&rows[i].display)];
        proof {
            assert(row_views(rows@)[i as int] == rows@[i as int]@);
            assert(layout::stretches(lines@) =~= seq![row_texts(rows@[i as int]@)]);
        }
        let n = layout::count_wrapped_rows(&lines, width);
        r.push(
            if n == 0 {
                1
            } else {
                n
            },
        );
        proof {
            assert(all.take(i + 1) =~= all.take(i as int).push(all[i as int]));
        }
        i = i + 1;
    }
    proof {
        assert(all.take(i as int) =~= all);
    }
    r
}

/// The conversation in rows: the rows, where those of the item that is being looked at start,
/// where each item's start, where each row starts once it is wrapped, and the controls.
#[derive(Debug, PartialEq, Eq)]
pub struct TimelineLayout {
    pub rows: Vec<TranscriptRow>,
    pub review_logical_start: Option<usize>,
    pub item_starts: Vec<usize>,
    pub row_starts: Vec<usize>,
    pub copy_targets: Vec<CopyTarget>,
}

impl TimelineLayout {
    /// Every item starts at a row or behind the last one, and each row has its start; no start
    /// goes back, and the first ones are at the top.
    pub open spec fn well_formed(self) -> bool {
        &&& self.row_starts@.len() == self.rows@.len() + 1
        &&& sums_fit(self.row_starts@)
        &&& forall|i: int|
            0 <= i < self.item_starts@.len() ==> #[trigger] self.item_starts@[i]
                <= self.rows@.len()
        &&& sums_fit(self.item_starts@)
        &&& self.item_starts@.len() > 0 ==> self.item_starts@[0] == 0
        &&& self.row_starts@[0] == 0
        &&& self.review_logical_start matches Some(n) ==> n <= self.rows@.len()
    }

    pub open spec fn total(self) -> usize {
        self.row_starts@.last()
    }

    /// How many rows there are once they are wrapped.
    pub fn total_rows(&self) -> (r: usize)
        requires
            self.well_formed(),
        ensures
            r == self.total(),
    {
        self.row_starts[self.row_starts.len() - 1]
    }
}

/// Cutting makes at least one row of a row.
proof fn lemma_cut_keeps_rows(l: Laid, rows: Seq<RowView>)
    ensures
        l.rows.len() <= lay_rows(l, rows).rows.len(),
    decreases rows.len(),
{
    if rows.len() > 0 {
        lemma_cut_keeps_rows(l, rows.drop_last());
    }
}

/// The starts of the items, and of the item that is being looked at, lie among the rows.
proof fn lemma_starts_lie_among_rows(items: Seq<ItemRows>, n: int, review: Option<usize>)
    requires
        0 <= n <= items.len(),
        lay_items(items, n, review).rows.len() <= usize::MAX,
    ensures
        ({
            let l = lay_items(items, n, review);
            &&& l.item_starts.len() == n
            &&& forall|i: int|
                0 <= i < n ==> #[trigger] l.item_starts[i] <= l.rows.len()
            &&& sums_fit(l.item_starts)
            &&& n > 0 ==> l.item_starts[0] == 0
            &&& l.review matches Some(r) ==> r <= l.rows.len()
        }),
    decreases n,
{
    if n > 0 {
        let before = lay_items(items, n - 1, review);
        lemma_cut_keeps_rows(
            Laid { rows: before.rows, targets: before.targets, waiting: items[n - 1].targets@ },
            item_rows(items, n - 1),
        );
        lemma_starts_lie_among_rows(items, n - 1, review);
    }
}

/// Lays out the conversation. `review_index` is the item that is being looked at.
pub fn timeline_layout(items: &Vec<ItemRows>, review_index: Option<usize>, width: u16) -> (r:
    TimelineLayout)
    requires
        width <= layout::MAX_WRAP_WIDTH,
    ensures
        r.well_formed(),
        ({
            let l = lay_items(items@, items@.len() as int, review_index);
            &&& row_views(r.rows@) == l.rows
            &&& r.copy_targets@ == l.targets
            &&& r.item_starts@ == l.item_starts
            &&& r.review_logical_start == l.review
            &&& r.row_starts@ == starts(wrapped_counts(l.rows, width))
        }),
{
    let mut rows: Vec<TranscriptRow> = Vec::new();
    let mut copy_targets: Vec<CopyTarget> = Vec::new();
    let mut item_starts: Vec<usize> = Vec::new();
    let mut review_logical_start: Option<usize> = None;
    let mut i: usize = 0;
    proof {
        assert(row_views(rows@) =~= Seq::empty());
    }
    while i < items.len()
        invariant
            i <= items@.len(),
            lay_items(items@, i as int, review_index) == (Laying {
                rows: row_views(rows@),
                targets: copy_targets@,
                item_starts: item_starts@,
                review: review_logical_start,
            }),
        decreases items@.len() - i,
    {
        proof {
            assert(row_views(rows@).len() == rows@.len());
        }
        item_starts.push(rows.len());
        let looked_at = match review_index {
            Some(n) => n == i,
            None => false,
        };
        if looked_at {
            review_logical_start = Some(rows.len());
        }
        push_item(&mut rows, &mut copy_targets, items, i);
        i = i + 1;
    }
    let counts = count_rows(&rows, width);
    let total: usize = rows.len();
    proof {
        assert(total == rows@.len());
        rows_start_in_order(counts@);
        assert(row_views(rows@).len() == rows@.len());
        lemma_starts_lie_among_rows(items@, items@.len() as int, review_index);
        assert(counts@.len() == rows@.len());
    }
    let row_starts = row_starts_of(&counts);
    TimelineLayout { rows, review_logical_start, item_starts, row_starts, copy_targets }
}

/// Where a conversation is looked at: an item, and a row of it.
#[derive(Debug, Clone, Copy, PartialEq, Eq, Structural)]
pub struct TimelineAnchor {
    pub item_index: usize,
    pub row: usize,
}

/// How a conversation is looked at: where it is held, and how far it is scrolled up.
#[derive(Debug, Clone, Copy, PartialEq, Eq, Structural)]
pub struct TimelineScroll {
    pub anchor: Option<TimelineAnchor>,
    pub offset: usize,
}

/// The row behind the last one of an item.
pub open spec fn item_end(t: TimelineLayout, i: int) -> int {
    if i + 1 < t.item_starts@.len() {
        t.item_starts@[i + 1] as int
    } else {
        t.rows@.len() as int
    }
}

/// The first row that is seen.
pub open spec fn first_row(t: TimelineLayout, s: TimelineScroll, height: u16) -> int {
    if s.anchor is Some && s.anchor->0.item_index < t.item_starts@.len() {
        let a = s.anchor->0;
        let start = t.row_starts@[t.item_starts@[a.item_index as int] as int] as int;
        let rows = layout::rest_of(t.row_starts@[item_end(t, a.item_index as int)] as int, start);
        let sum = start + layout::smaller(a.row as int, layout::rest_of(rows, 1));
        if sum > usize::MAX {
            usize::MAX as int
        } else {
            sum
        }
    } else if t.review_logical_start is Some {
        t.row_starts@[t.review_logical_start->0 as int] as int
    } else {
        layout::rest_of(layout::rest_of(t.total() as int, height as int), s.offset as int)
    }
}

pub fn timeline_scroll_start(t: &TimelineLayout, s: TimelineScroll, height: u16) -> (r: usize)
    requires
        t.well_formed(),
    ensures
        r == first_row(*t, s, height),
{
    match s.anchor {
        Some(a) => {
            if a.item_index < t.item_starts.len() {
                let first = t.item_starts[a.item_index];
                let end: usize = if a.item_index < t.item_starts.len() - 1 {
                    t.item_starts[a.item_index + 1]
                } else {
                    t.rows.len()
                };
                let start = t.row_starts[first];
                let rows = t.row_starts[end].saturating_sub(start);
                let last = rows.saturating_sub(1);
                let row: usize = if a.row < last {
                    a.row
                } else {
                    last
                };
                return start.saturating_add(row);
            }
        },
        None => {},
    }
    match t.review_logical_start {
        Some(n) => t.row_starts[n],
        None => t.total_rows().saturating_sub(height as usize).saturating_sub(s.offset),
    }
}

/// The rows that are drawn, and how far they are scrolled. As no more than a 16-bit number of
/// rows can be scrolled over, whole rows are left out at the front where there are more.
#[derive(Debug, PartialEq, Eq)]
pub struct TimelineViewport {
    pub lines: Vec<Line>,
    pub scroll: u16,
}

/// How many rows are left out, from the `i`th on, until `needed` wrapped rows are; and how
/// many wrapped rows they are, with `done` of them left out before.
pub open spec fn left_out(starts: Seq<usize>, rows: int, needed: int, i: int, done: int) -> (int, int)
    decreases rows - i,
{
    if i < 0 || i >= rows || done >= needed {
        (i, done)
    } else {
        left_out(
            starts,
            rows,
            needed,
            i + 1,
            done + layout::rest_of(starts[i + 1] as int, starts[i] as int),
        )
    }
}

pub open spec fn viewport_of(t: TimelineLayout, first: int) -> (int, int) {
    if first > u16::MAX {
        let (dropped, rows) = left_out(
            t.row_starts@,
            t.rows@.len() as int,
            first - u16::MAX,
            0,
            0,
        );
        (dropped, layout::rest_of(first, rows))
    } else {
        (0, first)
    }
}

pub fn timeline_viewport(t: TimelineLayout, s: TimelineScroll, height: u16) -> (r: TimelineViewport)
    requires
        t.well_formed(),
    ensures
        ({
            let (dropped, scroll) = viewport_of(t, first_row(t, s, height));
            &&& ui::line_views(r.lines@) == row_views(t.rows@).skip(dropped).map_values(
                |row: RowView| row.display,
            )
            &&& r.scroll == layout::smaller(scroll, u16::MAX as int)
        }),
{
    let first = timeline_scroll_start(&t, s, height);
    let mut scroll = first;
    let mut dropped: usize = 0;
    let max: usize = u16::MAX as usize;
    if first > max {
        let needed: usize = first - max;
        let mut rows: usize = 0;
        while dropped < t.rows.len() && rows < needed
            invariant
                dropped <= t.rows@.len(),
                t.well_formed(),
                rows <= t.row_starts@[dropped as int],
                left_out(
                    t.row_starts@,
                    t.rows@.len() as int,
                    needed as int,
                    0,
                    0,
                ) == left_out(
                    t.row_starts@,
                    t.rows@.len() as int,
                    needed as int,
                    dropped as int,
                    rows as int,
                ),
            decreases t.rows@.len() - dropped,
        {
            let step = t.row_starts[dropped + 1].saturating_sub(t.row_starts[dropped]);
            proof {
                assert(t.row_starts@[dropped as int] <= t.row_starts@[dropped + 1]);
            }
            rows = rows + step;
            dropped = dropped + 1;
        }
        scroll = first.saturating_sub(rows);
    }
    let mut lines: Vec<Line> = Vec::new();
    let mut i: usize = dropped;
    let ghost all = row_views(t.rows@).skip(dropped as int).map_values(
        |row: RowView| row.display,
    );
    proof {
        assert(ui::line_views(lines@) =~= all.take(0));
    }
    while i < t.rows.len()
        invariant
            dropped <= i <= t.rows@.len(),
            all == row_views(t.rows@).skip(dropped as int).map_values(
                |row: RowView| row.display,
            ),
            ui::line_views(lines@) == all.take(i - dropped),
        decreases t.rows@.len() - i,
    {
        ui::push_line(&mut lines, t.rows[i].display.clone());
        proof {
            assert(row_views(t.rows@)[i as int] == t.rows@[i as int]@);
            assert(all[i - dropped] == t.rows@[i as int]@.display);
            assert(all.take(i - dropped + 1) =~= all.take(i - dropped).push(all[i - dropped]));
        }
        i = i + 1;
    }
    proof {
        assert(all.take(i - dropped) =~= all);
    }
    let capped: u16 = if scroll > max {
        u16::MAX
    } else {
        scroll as u16
    };
    TimelineViewport { lines, scroll: capped }
}

/// The starts of rows never go back.
pub open spec fn sums_fit(starts: Seq<usize>) -> bool {
    forall|i: int, j: int|
        0 <= i <= j < starts.len() ==> #[trigger] starts[i] <= #[trigger] starts[j]
}

/// Whatever the rows are, their starts never go back.
pub proof fn rows_start_in_order(counts: Seq<usize>)
    ensures
        starts(counts).len() == counts.len() + 1,
        starts(counts)[0] == 0,
        sums_fit(starts(counts)),
    decreases counts.len(),
{
    if counts.len() > 0 {
        rows_start_in_order(counts.drop_last());
    }
}

/// What is inside the pane of the conversation: without the line below it and the column to
/// its left.
pub open spec fn content_of(region: Rect) -> Rect {
    Rect {
        x: layout::capped_sum(region.x as int, 1) as u16,
        y: region.y,
        width: layout::rest_of(region.width as int, 1) as u16,
        height: layout::rest_of(region.height as int, 1) as u16,
    }
}

pub fn timeline_content_region(region: Rect) -> (r: Rect)
    ensures
        r == content_of(region),
{
    Rect {
        x: region.x.saturating_add(1),
        y: region.y,
        width: region.width.saturating_sub(1),
        height: region.height.saturating_sub(1),
    }
}

/// The first item from `i` on whose rows go on below a row.
pub open spec fn item_at(t: TimelineLayout, row: int, i: int) -> Option<int>
    decreases t.item_starts@.len() - i,
{
    if i < 0 || i >= t.item_starts@.len() {
        None
    } else {
        let start = t.row_starts@[t.item_starts@[i] as int] as int;
        let rows = layout::rest_of(t.row_starts@[item_end(t, i)] as int, start);
        let end = if start + rows > usize::MAX {
            usize::MAX as int
        } else {
            start + rows
        };
        if row < end {
            Some(i)
        } else {
            item_at(t, row, i + 1)
        }
    }
}

/// Where a conversation is to be held that has been scrolled: the item and the row at its top,
/// and how far that is from its end. None where nothing is seen.
pub open spec fn held_at(t: TimelineLayout, s: TimelineScroll, content: Rect) -> Option<
    (TimelineAnchor, usize),
> {
    let first = first_row(t, s, content.height);
    match item_at(t, first, 0) {
        Some(i) => Some(
            (
                TimelineAnchor {
                    item_index: i as usize,
                    row: layout::rest_of(
                        first,
                        t.row_starts@[t.item_starts@[i] as int] as int,
                    ) as usize,
                },
                layout::rest_of(
                    layout::rest_of(t.total() as int, content.height as int),
                    first,
                ) as usize,
            ),
        ),
        None => None,
    }
}

/// Decides where a conversation is to be held that has been scrolled.
pub fn prepare_timeline_viewport(t: &TimelineLayout, s: TimelineScroll, content: Rect) -> (r: Option<
    (TimelineAnchor, usize),
>)
    requires
        t.well_formed(),
    ensures
        r == held_at(*t, s, content),
{
    let first = timeline_scroll_start(t, s, content.height);
    let mut i: usize = 0;
    while i < t.item_starts.len()
        invariant
            i <= t.item_starts@.len(),
            t.well_formed(),
            first == first_row(*t, s, content.height),
            item_at(*t, first as int, 0) == item_at(*t, first as int, i as int),
        decreases t.item_starts@.len() - i,
    {
        let end: usize = if i < t.item_starts.len() - 1 {
            t.item_starts[i + 1]
        } else {
            t.rows.len()
        };
        let start_row = t.row_starts[t.item_starts[i]];
        let rows = t.row_starts[end].saturating_sub(start_row);
        if first < start_row.saturating_add(rows) {
            return Some(
                (
                    TimelineAnchor { item_index: i, row: first.saturating_sub(start_row) },
                    t.total_rows().saturating_sub(content.height as usize).saturating_sub(first),
                ),
            );
        }
        i = i + 1;
    }
    None
}

/// What a control gives to copy.
pub open spec fn copied(content: CopyContent, items: Seq<TimelineItem>) -> Result<
    Option<Seq<char>>,
    CopyTextError,
> {
    let text = match content {
        CopyContent::Text(t) => Some(t@),
        CopyContent::AssistantMessage(i) => if i < items.len() {
            match items[i as int] {
                TimelineItem::Assistant { text } => Some(text@),
                _ => None,
            }
        } else {
            None
        },
    };
    match text {
        Some(t) => if copy_controls::copyable(t) {
            Ok(Some(t))
        } else {
            Err(CopyTextError::TooLarge)
        },
        None => Ok(None),
    }
}

/// Whether a control lies under a cell: its row and its column, counted from the first ones.
pub open spec fn lies_under(t: CopyTarget, start: usize, row: int, column: int) -> bool {
    start == row && t.column <= column && column < layout::capped_sum(
        t.column as int,
        t.width as int,
    )
}

/// The control from the `i`th on that lies under a cell. The controls are in the order of
/// their rows: one below the cell ends the search.
pub open spec fn target_under(t: TimelineLayout, row: int, column: int, i: int) -> Option<CopyTarget>
    decreases t.copy_targets@.len() - i,
{
    if i < 0 || i >= t.copy_targets@.len() {
        None
    } else {
        let target = t.copy_targets@[i];
        if target.line_index >= t.row_starts@.len() {
            target_under(t, row, column, i + 1)
        } else {
            let start = t.row_starts@[target.line_index as int];
            if start > row {
                None
            } else if lies_under(target, start, row, column) {
                Some(target)
            } else {
                target_under(t, row, column, i + 1)
            }
        }
    }
}

pub open spec fn opt_copied(r: Result<Option<String>, CopyTextError>) -> Result<
    Option<Seq<char>>,
    CopyTextError,
> {
    match r {
        Ok(Some(t)) => Ok(Some(t@)),
        Ok(None) => Ok(None),
        Err(e) => Err(e),
    }
}

fn copy_content(content: &CopyContent, items: &Vec<TimelineItem>) -> (r: Result<
    Option<String>,
    CopyTextError,
>)
    ensures
        opt_copied(r) == copied(*content, items@),
{
    let text = match content {
        CopyContent::Text(t) => t.clone(),
        CopyContent::AssistantMessage(i) => {
            if *i >= items.len() {
                return Ok(None);
            }
            match &items[*i] {
                TimelineItem::Assistant { text } => text.clone(),
                _ => {
                    return Ok(None);
                },
            }
        },
    };
    match copy_controls::validate_copy_text(text) {
        Ok(t) => Ok(Some(t)),
        Err(e) => Err(e),
    }
}

/// What a press on a cell copies, if a control lies there.
pub open spec fn copied_at(
    t: TimelineLayout,
    first: int,
    content: Rect,
    position: Position,
    items: Seq<TimelineItem>,
) -> Result<Option<Seq<char>>, CopyTextError> {
    let row = if first + (position.y - content.y) > usize::MAX {
        usize::MAX as int
    } else {
        first + (position.y - content.y)
    };
    match target_under(t, row, position.x - content.x, 0) {
        Some(target) => copied(target.content, items),
        None => Ok(None),
    }
}

fn copy_target_text(
    t: &TimelineLayout,
    first: usize,
    content: Rect,
    position: Position,
    items: &Vec<TimelineItem>,
) -> (r: Result<Option<String>, CopyTextError>)
    requires
        content.x <= position.x,
        content.y <= position.y,
    ensures
        opt_copied(r) == copied_at(*t, first as int, content, position, items@),
{
    let row = first.saturating_add((position.y - content.y) as usize);
    let column: u16 = position.x - content.x;
    let mut i: usize = 0;
    while i < t.copy_targets.len()
        invariant
            i <= t.copy_targets@.len(),
            target_under(*t, row as int, column as int, 0) == target_under(
                *t,
                row as int,
                column as int,
                i as int,
            ),
            copied_at(*t, first as int, content, position, items@) == (match target_under(
                *t,
                row as int,
                column as int,
                0,
            ) {
                Some(target) => copied(target.content, items@),
                None => Ok(None),
            }),
        decreases t.copy_targets@.len() - i,
    {
        let target = &t.copy_targets[i];
        if target.line_index < t.row_starts.len() {
            let start = t.row_starts[target.line_index];
            if start > row {
                return Ok(None);
            }
            if start == row && column >= target.column && column < target.column.saturating_add(
                target.width,
            ) {
                return copy_content(&target.content, items);
            }
        }
        i = i + 1;
    }
    Ok(None)
}

/// What a press in the pane of the conversation leads to.
#[derive(Debug, PartialEq, Eq)]
pub enum TimelinePress {
    Nothing,
    Copy(String),
    CopyTooLarge,
    /// A selection begins at this cell, with this row at the top.
    Select { position: Position, first_row: usize },
}

/// What a press in the pane of the conversation leads to.
pub enum PressView {
    Nothing,
    Copy(Seq<char>),
    CopyTooLarge,
    Select { position: Position, first_row: int },
}

impl View for TimelinePress {
    type V = PressView;

    open spec fn view(&self) -> PressView {
        match self {
            TimelinePress::Nothing => PressView::Nothing,
            TimelinePress::Copy(t) => PressView::Copy(t@),
            TimelinePress::CopyTooLarge => PressView::CopyTooLarge,
            TimelinePress::Select { position, first_row } => PressView::Select {
                position: *position,
                first_row: *first_row as int,
            },
        }
    }
}

/// A coordinate, moved into a stretch.
pub open spec fn pulled(x: int, from: int, end: int) -> int {
    if x < from {
        from
    } else if x > layout::rest_of(end, 1) {
        layout::rest_of(end, 1)
    } else {
        x
    }
}

fn pull(x: u16, from: u16, end: u16) -> (r: u16)
    ensures
        r == pulled(x as int, from as int, end as int),
{
    if x < from {
        from
    } else if x > end.saturating_sub(1) {
        end.saturating_sub(1)
    } else {
        x
    }
}

/// What a press leads to: a control copies; elsewhere a selection begins, at the nearest cell
/// of what is inside the pane.
pub open spec fn press_at(
    t: TimelineLayout,
    s: TimelineScroll,
    region: Rect,
    position: Position,
    items: Seq<TimelineItem>,
) -> PressView {
    let content = content_of(region);
    let first = first_row(t, s, content.height);
    if !region.holds(position) || content.width == 0 || content.height == 0 {
        PressView::Nothing
    } else {
        let hit = if content.holds(position) {
            copied_at(t, first, content, position, items)
        } else {
            Ok(None)
        };
        match hit {
            Ok(Some(text)) => PressView::Copy(text),
            Err(_) => PressView::CopyTooLarge,
            Ok(None) => PressView::Select {
                position: Position {
                    x: pulled(
                        position.x as int,
                        content.x as int,
                        layout::capped_sum(content.x as int, content.width as int),
                    ) as u16,
                    y: pulled(
                        position.y as int,
                        content.y as int,
                        layout::capped_sum(content.y as int, content.height as int),
                    ) as u16,
                },
                first_row: first,
            },
        }
    }
}

/// Decides what a press in the pane of the conversation leads to.
pub fn timeline_mouse_down(
    t: &TimelineLayout,
    s: TimelineScroll,
    region: Rect,
    position: Position,
    items: &Vec<TimelineItem>,
) -> (r: TimelinePress)
    requires
        t.well_formed(),
    ensures
        r@ == press_at(*t, s, region, position, items@),
{
    let content = timeline_content_region(region);
    if !region.contains(position) || content.width == 0 || content.height == 0 {
        return TimelinePress::Nothing;
    }
    let first_row = timeline_scroll_start(t, s, content.height);
    if content.contains(position) {
        match copy_target_text(t, first_row, content, position, items) {
            Ok(Some(text)) => {
                return TimelinePress::Copy(text);
            },
            Ok(None) => {},
            Err(_) => {
                return TimelinePress::CopyTooLarge;
            },
        }
    }
    TimelinePress::Select {
        position: Position {
            x: pull(position.x, content.x, content.right()),
            y: pull(position.y, content.y, content.bottom()),
        },
        first_row,
    }
}

/// The words at the bottom of a conversation that is not followed.
pub open spec fn review_hint(has_updates: bool, follow_key: Option<Seq<char>>) -> Seq<char> {
    " "@ + (if has_updates {
        "New content"@
    } else {
        "Reviewing"@
    }) + (match follow_key {
        Some(k) => " · "@ + k + " latest"@,
        None => Seq::empty(),
    }) + " "@
}

pub fn review_title(has_updates: bool, follow_key: Option<&str>) -> (r: String)
    ensures
        r@ == review_hint(has_updates, crate::provider_overlay::opt_str(follow_key)),
{
    let label = if has_updates {
        "New content"
    } else {
        "Reviewing"
    };
    let hint = match follow_key {
        Some(k) => text::cat3(" · ", k, " latest"),
        None => {
            let none = String::new();
            proof {
                assert(none@ =~= Seq::empty());
            }
            none
        },
    };
    text::cat4(" ", label, hint.as_str(), " ")
}

/// Whether the words that lead to a command's output are shown: no overlay is open, a command
/// has come to its end, a key leads there, and there is room beside the others.
pub open spec fn output_hint(
    overlay_open: bool,
    details_key: Option<Seq<char>>,
    items: Seq<TimelineItem>,
) -> Option<Seq<char>> {
    if !overlay_open && details_key is Some && exists|i: int|
        0 <= i < items.len() && (#[trigger] items[i])@ is Finished {
        Some(" "@ + details_key->0 + " output "@)
    } else {
        None
    }
}

/// The words that lead to a command's output, if they are shown at all.
pub fn output_title(
    overlay_open: bool,
    details_key: Option<&str>,
    items: &Vec<TimelineItem>,
) -> (r: Option<String>)
    ensures
        crate::plan_model::opt(r) == output_hint(
            overlay_open,
            crate::provider_overlay::opt_str(details_key),
            items@,
        ),
{
    if overlay_open {
        return None;
    }
    let key = match details_key {
        Some(k) => k,
        None => {
            return None;
        },
    };
    let mut i: usize = items.len();
    while i > 0
        invariant
            i <= items@.len(),
            !overlay_open,
            details_key == Some(key),
            forall|j: int| i <= j < items@.len() ==> !((#[trigger] items@[j])@ is Finished),
        decreases i,
    {
        i = i - 1;
        if items[i].is_finished_command() {
            return Some(text::cat3(" ", key, " output "));
        }
    }
    None
}

/// Whether two hints of these widths fit beside each other.
pub fn hints_fit(review_width: usize, hint_width: usize, width: u16) -> (r: bool)
    ensures
        r == (review_width + hint_width <= width),
{
    review_width.saturating_add(hint_width) <= width as usize
}

/// The item that is found goes on below the row, and does not start below it.
proof fn lemma_item_at(t: TimelineLayout, row: int, i: int)
    requires
        t.well_formed(),
        0 <= i,
        0 <= row,
        i < t.item_starts@.len() ==> t.row_starts@[t.item_starts@[i] as int] <= row,
    ensures
        item_at(t, row, i) matches Some(k) ==> {
            &&& i <= k < t.item_starts@.len()
            &&& t.row_starts@[t.item_starts@[k] as int] <= row
            &&& row < t.row_starts@[item_end(t, k)]
        },
    decreases t.item_starts@.len() - i,
{
    if i < t.item_starts@.len() {
        let start = t.row_starts@[t.item_starts@[i] as int];
        assert(t.item_starts@[i] <= item_end(t, i));
        assert(start <= t.row_starts@[item_end(t, i)]);
        if row >= t.row_starts@[item_end(t, i)] {
            lemma_item_at(t, row, i + 1);
        }
    }
}

/// A conversation that is held where it was is seen where it was.
pub proof fn held_conversations_stay(t: TimelineLayout, s: TimelineScroll, content: Rect)
    requires
        t.well_formed(),
        held_at(t, s, content) is Some,
    ensures
        ({
            let (anchor, offset) = held_at(t, s, content)->0;
            first_row(t, TimelineScroll { anchor: Some(anchor), offset }, content.height)
                == first_row(t, s, content.height)
        }),
{
    let first = first_row(t, s, content.height);
    if t.item_starts@.len() > 0 {
        assert(t.row_starts@[t.item_starts@[0] as int] == 0);
    }
    lemma_item_at(t, first, 0);
    let k = item_at(t, first, 0)->0;
    assert(t.item_starts@.len() == t.item_starts.len());
    assert(k as usize == k);
    let start = t.row_starts@[t.item_starts@[k] as int];
    assert((first - start) as usize == first - start);
}

/// Each row starts where the one before it ends, as far as rows can be counted.
pub proof fn rows_start_where_the_last_one_ends(counts: Seq<usize>, i: int)
    requires
        0 <= i < counts.len(),
    ensures
        starts(counts)[i + 1] == (if starts(counts)[i] + counts[i] <= usize::MAX {
            starts(counts)[i] + counts[i]
        } else {
            usize::MAX as int
        }),
    decreases counts.len(),
{
    rows_start_in_order(counts.drop_last());
    if i < counts.len() - 1 {
        rows_start_where_the_last_one_ends(counts.drop_last(), i);
        assert(counts.drop_last()[i] == counts[i]);
    }
}

/// A conversation that is not held anywhere shows its end; each step of scrolling shows one row
/// more at the top, until the first row is seen.
pub proof fn conversations_are_scrolled_from_their_end(
    t: TimelineLayout,
    s: TimelineScroll,
    height: u16,
)
    requires
        t.well_formed(),
        s.anchor is None,
        t.review_logical_start is None,
    ensures
        s.offset == 0 && t.total() >= height ==> first_row(t, s, height) + height == t.total(),
        t.total() <= height ==> first_row(t, s, height) == 0,
        s.offset < usize::MAX ==> ({
            let next = TimelineScroll { offset: (s.offset + 1) as usize, ..s };
            if first_row(t, s, height) > 0 {
                first_row(t, next, height) == first_row(t, s, height) - 1
            } else {
                first_row(t, next, height) == 0
            }
        }),
{
}

/// A conversation that is held at a row of an item shows that row first, the last one of the
/// item where it has fewer.
pub proof fn held_rows_are_seen_first(
    t: TimelineLayout,
    anchor: TimelineAnchor,
    offset: usize,
    height: u16,
)
    requires
        t.well_formed(),
        anchor.item_index < t.item_starts@.len(),
    ensures
        ({
            let top = first_row(t, TimelineScroll { anchor: Some(anchor), offset }, height);
            let start = t.row_starts@[t.item_starts@[anchor.item_index as int] as int];
            let end = t.row_starts@[item_end(t, anchor.item_index as int)];
            &&& start <= top
            &&& start < end ==> top < end
            &&& start + anchor.row < end ==> top == start + anchor.row
            &&& start < end && start + anchor.row >= end ==> top == end - 1
            &&& start == end ==> top == start
        }),
{
    let i = anchor.item_index as int;
    assert(t.item_starts@[i] <= item_end(t, i) <= t.rows@.len());
    assert(t.row_starts@[t.item_starts@[i] as int] <= t.row_starts@[item_end(t, i)]);
}

/// The item at a row is the one that the row belongs to; where there is none, the row lies
/// below the last one of every item.
pub proof fn rows_belong_to_the_item_around_them(t: TimelineLayout, row: int)
    requires
        t.well_formed(),
        0 <= row,
    ensures
        item_at(t, row, 0) matches Some(k) ==> 0 <= k < t.item_starts@.len()
            && t.row_starts@[t.item_starts@[k] as int] <= row < t.row_starts@[item_end(t, k)],
        item_at(t, row, 0) is None ==> (forall|k: int|
            0 <= k < t.item_starts@.len() ==> #[trigger] t.row_starts@[item_end(t, k)] <= row),
{
    if t.item_starts@.len() > 0 {
        assert(t.row_starts@[t.item_starts@[0] as int] == 0);
    }
    lemma_item_at(t, row, 0);
    lemma_no_item_at(t, row, 0);
}

proof fn lemma_no_item_at(t: TimelineLayout, row: int, i: int)
    requires
        t.well_formed(),
        0 <= i,
        0 <= row,
    ensures
        item_at(t, row, i) is None ==> (forall|k: int|
            i <= k < t.item_starts@.len() ==> #[trigger] t.row_starts@[item_end(t, k)] <= row),
    decreases t.item_starts@.len() - i,
{
    if i < t.item_starts@.len() {
        lemma_no_item_at(t, row, i + 1);
        assert(t.item_starts@[i] <= item_end(t, i) <= t.rows@.len());
        assert(t.row_starts@[t.item_starts@[i] as int] <= t.row_starts@[item_end(t, i)]);
    }
}

proof fn lemma_left_out(starts: Seq<usize>, rows: int, needed: int, i: int, done: int)
    requires
        starts.len() == rows + 1,
        sums_fit(starts),
        0 <= i <= rows,
        done == starts[i],
    ensures
        ({
            let (dropped, gone) = left_out(starts, rows, needed, i, done);
            &&& i <= dropped <= rows
            &&& gone == starts[dropped]
            &&& dropped < rows ==> gone >= needed
            &&& i < dropped ==> starts[dropped - 1] < needed
        }),
    decreases rows - i,
{
    if i < rows && done < needed {
        assert(starts[i] <= starts[i + 1]);
        lemma_left_out(starts, rows, needed, i + 1, starts[i + 1] as int);
        let dropped = left_out(starts, rows, needed, i + 1, starts[i + 1] as int).0;
        if dropped == i + 1 {
            assert(starts[dropped - 1] < needed);
        }
    }
}

/// Rows that are left out above a viewport are taken off how far it is scrolled: it shows the
/// same row first. No more are left out than needed for what is left to be counted.
pub proof fn viewports_begin_at_the_first_row(t: TimelineLayout, first: int)
    requires
        t.well_formed(),
        0 <= first <= t.total(),
    ensures
        ({
            let (dropped, scroll) = viewport_of(t, first);
            &&& 0 <= dropped <= t.rows@.len()
            &&& t.row_starts@[dropped] <= first ==> t.row_starts@[dropped] + scroll == first
            &&& 0 <= scroll <= u16::MAX
            &&& first <= u16::MAX ==> dropped == 0
            &&& dropped > 0 ==> t.row_starts@[dropped - 1] + u16::MAX < first
        }),
{
    if first > u16::MAX {
        lemma_left_out(t.row_starts@, t.rows@.len() as int, first - u16::MAX, 0, 0);
    }
}

proof fn lemma_target_under(t: TimelineLayout, row: int, column: int, i: int)
    requires
        0 <= i,
    ensures
        target_under(t, row, column, i) matches Some(target) ==> t.copy_targets@.contains(target)
            && target.line_index < t.row_starts@.len()
            && t.row_starts@[target.line_index as int] == row && target.column <= column
            < target.column + target.width,
        target_under(t, row, column, i) is None && (forall|a: int, b: int|
            i <= a <= b < t.copy_targets@.len() ==> (#[trigger] t.copy_targets@[a]).line_index <= (
            #[trigger] t.copy_targets@[b]).line_index) && sums_fit(t.row_starts@) ==> (forall|k: int|
            i <= k < t.copy_targets@.len() && (#[trigger] t.copy_targets@[k]).line_index
                < t.row_starts@.len() ==> !lies_under(
                t.copy_targets@[k],
                t.row_starts@[t.copy_targets@[k].line_index as int],
                row,
                column,
            )),
    decreases t.copy_targets@.len() - i,
{
    if i < t.copy_targets@.len() {
        lemma_target_under(t, row, column, i + 1);
        let target = t.copy_targets@[i];
        if target.line_index < t.row_starts@.len() && t.row_starts@[target.line_index as int]
            <= row && lies_under(target, t.row_starts@[target.line_index as int], row, column) {
            assert(t.copy_targets@.contains(target));
        }
    }
}

/// A press copies by the control under it: one of the layout's, in the row and among the
/// columns that were pressed. Where no control is found none lies there.
pub proof fn controls_are_found_where_they_lie(t: TimelineLayout, row: int, column: int)
    requires
        t.well_formed(),
        forall|a: int, b: int|
            0 <= a <= b < t.copy_targets@.len() ==> (#[trigger] t.copy_targets@[a]).line_index <= (
            #[trigger] t.copy_targets@[b]).line_index,
    ensures
        target_under(t, row, column, 0) matches Some(target) ==> t.copy_targets@.contains(target)
            && target.line_index < t.row_starts@.len()
            && t.row_starts@[target.line_index as int] == row && target.column <= column
            < target.column + target.width,
        target_under(t, row, column, 0) is None ==> (forall|k: int|
            0 <= k < t.copy_targets@.len() && (#[trigger] t.copy_targets@[k]).line_index
                < t.row_starts@.len() && t.row_starts@[t.copy_targets@[k].line_index as int] == row
                && t.copy_targets@[k].column <= column ==> column >= layout::capped_sum(
                t.copy_targets@[k].column as int,
                t.copy_targets@[k].width as int,
            )),
{
    lemma_target_under(t, row, column, 0);
}

/// A press outside the pane does nothing; one inside begins a selection in a cell of it, the one
/// that was pressed where it is inside, or copies.
pub proof fn presses_select_the_nearest_cell(
    t: TimelineLayout,
    s: TimelineScroll,
    region: Rect,
    position: Position,
    items: Seq<TimelineItem>,
)
    ensures
        !region.holds(position) ==> press_at(t, s, region, position, items) is Nothing,
        press_at(t, s, region, position, items) matches PressView::Select {
            position: at,
            first_row: top,
        } ==> {
            &&& region.holds(position)
            &&& content_of(region).x + content_of(region).width <= u16::MAX && content_of(region).y
                + content_of(region).height <= u16::MAX ==> content_of(region).holds(at)
            &&& content_of(region).holds(position) ==> at == position
            &&& top == first_row(t, s, content_of(region).height)
        },
{
}

/// The rows that are laid out stay as they are when more items follow, each item begins behind
/// the rows before it, and the item that is looked at is where it begins.
pub proof fn items_stand_below_each_other(items: Seq<ItemRows>, n: int, review: Option<usize>)
    requires
        0 <= n < items.len(),
        n <= usize::MAX,
        lay_items(items, n, review).rows.len() <= usize::MAX,
    ensures
        lay_items(items, n, review).rows.is_prefix_of(lay_items(items, n + 1, review).rows),
        lay_items(items, n + 1, review).item_starts.len() == n + 1,
        lay_items(items, n + 1, review).item_starts[n] == lay_items(items, n, review).rows.len(),
        review == Some(n as usize) ==> lay_items(items, n + 1, review).review
            == Some(lay_items(items, n, review).rows.len() as usize),
        items[n].rows@.len() == 0 ==> lay_items(items, n + 1, review).rows == lay_items(
            items,
            n,
            review,
        ).rows,
        items[n].rows@.len() > 0 ==> lay_items(items, n + 1, review).rows.len() >= lay_items(
            items,
            n,
            review,
        ).rows.len() + items[n].rows@.len(),
    decreases n,
{
    let before = lay_items(items, n, review);
    let l = Laid { rows: before.rows, targets: before.targets, waiting: items[n].targets@ };
    lemma_laid_behind(l, item_rows(items, n));
    lemma_starts_len(items, n, review);
}

proof fn lemma_starts_len(items: Seq<ItemRows>, n: int, review: Option<usize>)
    requires
        0 <= n,
    ensures
        lay_items(items, n, review).item_starts.len() == n,
    decreases n,
{
    if n > 0 {
        lemma_starts_len(items, n - 1, review);
    }
}

proof fn lemma_laid_behind(l: Laid, rows: Seq<RowView>)
    ensures
        l.rows.is_prefix_of(lay_rows(l, rows).rows),
        lay_rows(l, rows).rows.len() >= l.rows.len() + rows.len(),
        rows.len() == 0 ==> lay_rows(l, rows).rows == l.rows,
    decreases rows.len(),
{
    if rows.len() > 0 {
        lemma_laid_behind(l, rows.drop_last());
        let before = lay_rows(l, rows.drop_last()).rows;
        let all = lay_rows(l, rows).rows;
        assert(all == before + cut_rows(rows.last()));
        assert(cut_rows(rows.last()).len() > 0);
        assert(l.rows =~= all.subrange(0, l.rows.len() as int));
    } else {
        assert(l.rows =~= l.rows.subrange(0, l.rows.len() as int));
    }
}

/// Items are one empty row apart, but for commands that take one row each: nothing stands
/// between those. Nothing follows the last item.
pub proof fn items_are_one_row_apart(items: Seq<ItemRows>, i: int)
    requires
        0 <= i < items.len(),
        items[i].rows@.len() > 0,
    ensures
        ({
            let own = row_views(items[i].rows@);
            let all = item_rows(items, i);
            let apart = i + 1 < items.len() && !(items[i].is_command && items[i + 1].is_command
                && own.len() == 1);
            &&& own.is_prefix_of(all)
            &&& all.len() == own.len() + (if apart {
                1int
            } else {
                0
            })
            &&& apart ==> all.last().display.len() == 0
        }),
{
    let own = row_views(items[i].rows@);
    assert(own =~= item_rows(items, i).subrange(0, own.len() as int));
}

/// A selection leaves out of the user's messages the mark before them, and nothing else.
pub proof fn selections_leave_the_mark_out(item: TimelineItem, lines: Seq<Seq<SpanView>>, k: int)
    requires
        0 <= k < lines.len(),
    ensures
        rows_under(lines, policy_of(item)).len() == lines.len(),
        rows_under(lines, policy_of(item))[k].display == lines[k],
        item is User ==> rows_under(lines, policy_of(item))[k].selection
            == SelectionPolicy::StripPrefix(2),
        !(item is User) ==> rows_under(lines, policy_of(item))[k].selection
            == SelectionPolicy::Keep,
{
}

} // verus!
