//! Markdown as lines of styled text.
use crate::highlight;
use crate::highlight::CodeHighlighter;
use crate::layout;
use crate::preferences::CodeTheme;
use crate::text;
use crate::ui;
use crate::ui::{Line, PartView, SemanticColor, Span, SpanView, Style, StyledTextPart, Tint};
use crate::width;
use crate::words;
use pulldown_cmark::{CodeBlockKind, Event, Options, Parser, Tag, TagEnd};
use syntect::parsing::SyntaxSet;
use vstd::prelude::*;

verus! {

/// What an element of a document is.
#[derive(Debug, Clone, Copy, PartialEq, Eq, Structural)]
pub enum MarkdownTag {
    Paragraph,
    Heading,
    BlockQuote,
    CodeBlock,
    List,
    Item,
    Emphasis,
    Strong,
    Strikethrough,
    Superscript,
    Subscript,
    Link,
    Image,
    Table,
    TableHead,
    TableRow,
    TableCell,
    HtmlBlock,
    FootnoteDefinition,
    DefinitionList,
    DefinitionListTitle,
    DefinitionListDefinition,
    MetadataBlock,
}

/// What more there is to an element.
#[derive(Debug, PartialEq, Eq)]
pub enum TagDetail {
    Bare,
    /// What stands behind the fence of a code block.
    Language(String),
    /// The first number of a list that has numbers.
    FirstNumber(Option<u64>),
    /// Where a link or an image leads.
    Address(String),
}

/// A piece of a document.
#[derive(Debug, PartialEq, Eq)]
pub enum MarkdownEvent {
    Start(MarkdownTag, TagDetail),
    End(MarkdownTag),
    Text(String),
    Code(String),
    Html(String),
    InlineHtml(String),
    InlineMath(String),
    DisplayMath(String),
    FootnoteReference(String),
    SoftBreak,
    HardBreak,
    Rule,
    TaskListMarker(bool),
}

/// What more there is to an element.
pub enum DetailView {
    Bare,
    Language(Seq<char>),
    FirstNumber(Option<u64>),
    Address(Seq<char>),
}

/// A piece of a document.
pub enum EventView {
    Start(MarkdownTag, DetailView),
    End(MarkdownTag),
    Text(Seq<char>),
    Code(Seq<char>),
    Html(Seq<char>),
    InlineHtml(Seq<char>),
    InlineMath(Seq<char>),
    DisplayMath(Seq<char>),
    FootnoteReference(Seq<char>),
    SoftBreak,
    HardBreak,
    Rule,
    TaskListMarker(bool),
}

impl View for TagDetail {
    type V = DetailView;

    open spec fn view(&self) -> DetailView {
        match self {
            TagDetail::Bare => DetailView::Bare,
            TagDetail::Language(s) => DetailView::Language(s@),
            TagDetail::FirstNumber(n) => DetailView::FirstNumber(*n),
            TagDetail::Address(s) => DetailView::Address(s@),
        }
    }
}

impl View for MarkdownEvent {
    type V = EventView;

    open spec fn view(&self) -> EventView {
        match self {
            MarkdownEvent::Start(tag, detail) => EventView::Start(*tag, detail@),
            MarkdownEvent::End(tag) => EventView::End(*tag),
            MarkdownEvent::Text(s) => EventView::Text(s@),
            MarkdownEvent::Code(s) => EventView::Code(s@),
            MarkdownEvent::Html(s) => EventView::Html(s@),
            MarkdownEvent::InlineHtml(s) => EventView::InlineHtml(s@),
            MarkdownEvent::InlineMath(s) => EventView::InlineMath(s@),
            MarkdownEvent::DisplayMath(s) => EventView::DisplayMath(s@),
            MarkdownEvent::FootnoteReference(s) => EventView::FootnoteReference(s@),
            MarkdownEvent::SoftBreak => EventView::SoftBreak,
            MarkdownEvent::HardBreak => EventView::HardBreak,
            MarkdownEvent::Rule => EventView::Rule,
            MarkdownEvent::TaskListMarker(checked) => EventView::TaskListMarker(*checked),
        }
    }
}

pub open spec fn event_views(v: Seq<MarkdownEvent>) -> Seq<EventView> {
    v.map_values(|e: MarkdownEvent| e@)
}

/// An event of the parser.
#[verifier::external_type_specification]
#[verifier::external_body]
pub struct ExEvent<'a>(Event<'a>);

/// The start of an element, as the parser has it.
#[verifier::external_type_specification]
#[verifier::external_body]
pub struct ExTag<'a>(Tag<'a>);

/// The end of an element, as the parser has it.
#[verifier::external_type_specification]
#[verifier::external_body]
pub struct ExTagEnd(TagEnd);

/// The pieces of a document, with strikethrough, tables and task lists.
pub uninterp spec fn document_events(markdown: Seq<char>) -> Seq<EventView>;

/// The kind of element that a `TagEnd` ends.
#[verifier::external_body]
fn plain_end(end: TagEnd) -> MarkdownTag {
    match end {
        TagEnd::Paragraph => MarkdownTag::Paragraph, TagEnd::Heading(_) => MarkdownTag::Heading,
        TagEnd::BlockQuote(_) => MarkdownTag::BlockQuote, TagEnd::List(_) => MarkdownTag::List,
        TagEnd::CodeBlock => MarkdownTag::CodeBlock, TagEnd::Item => MarkdownTag::Item,
        TagEnd::Emphasis => MarkdownTag::Emphasis, TagEnd::Strong => MarkdownTag::Strong,
        TagEnd::Strikethrough => MarkdownTag::Strikethrough, TagEnd::Link => MarkdownTag::Link,
        TagEnd::Superscript => MarkdownTag::Superscript, TagEnd::Image => MarkdownTag::Image,
        TagEnd::Subscript => MarkdownTag::Subscript, TagEnd::Table => MarkdownTag::Table,
        TagEnd::TableHead => MarkdownTag::TableHead, TagEnd::TableRow => MarkdownTag::TableRow,
        TagEnd::TableCell => MarkdownTag::TableCell, TagEnd::HtmlBlock => MarkdownTag::HtmlBlock,
        TagEnd::FootnoteDefinition => MarkdownTag::FootnoteDefinition, TagEnd::DefinitionList => MarkdownTag::DefinitionList,
        TagEnd::DefinitionListTitle => MarkdownTag::DefinitionListTitle, TagEnd::MetadataBlock(_) => MarkdownTag::MetadataBlock,
        TagEnd::DefinitionListDefinition => MarkdownTag::DefinitionListDefinition,
    }
}

/// What a `Tag` holds beside its kind, as far as the renderer asks for it.
#[verifier::external_body]
fn plain_detail(tag: Tag<'_>) -> TagDetail {
    match tag {
        Tag::CodeBlock(CodeBlockKind::Fenced(lang)) => TagDetail::Language(lang.to_string()),
        Tag::List(first) => TagDetail::FirstNumber(first),
        Tag::Link { dest_url, .. } => TagDetail::Address(dest_url.to_string()),
        Tag::Image { dest_url, .. } => TagDetail::Address(dest_url.to_string()),
        _ => TagDetail::Bare,
    }
}

/// The start of an element, of the kind of the end that `Tag::to_end` gives.
#[verifier::external_body]
fn plain_start(tag: Tag<'_>) -> MarkdownEvent {
    MarkdownEvent::Start(plain_end(tag.to_end()), plain_detail(tag))
}

/// An `Event` as a plain value.
#[verifier::external_body]
fn plain_event(event: Event<'_>) -> MarkdownEvent {
    match event {
        Event::Start(tag) => plain_start(tag), Event::End(end) => MarkdownEvent::End(plain_end(end)),
        Event::Text(s) => MarkdownEvent::Text(s.to_string()),
        Event::Code(s) => MarkdownEvent::Code(s.to_string()),
        Event::Html(s) => MarkdownEvent::Html(s.to_string()),
        Event::InlineHtml(s) => MarkdownEvent::InlineHtml(s.to_string()),
        Event::InlineMath(s) => MarkdownEvent::InlineMath(s.to_string()),
        Event::DisplayMath(s) => MarkdownEvent::DisplayMath(s.to_string()),
        Event::FootnoteReference(s) => MarkdownEvent::FootnoteReference(s.to_string()),
        Event::SoftBreak => MarkdownEvent::SoftBreak, Event::HardBreak => MarkdownEvent::HardBreak,
        Event::Rule => MarkdownEvent::Rule,
        Event::TaskListMarker(checked) => MarkdownEvent::TaskListMarker(checked),
    }
}

/// `pulldown_cmark::Parser`, with strikethrough, tables and task lists: the events of a
/// document one after the other, which go by the document alone.
#[verifier::external_body]
fn parse_markdown(markdown: &str) -> (r: Vec<MarkdownEvent>)
    ensures
        event_views(r@) == document_events(markdown@),
{
    let lines_and_tables = Options::ENABLE_STRIKETHROUGH | Options::ENABLE_TABLES;
    let parser = Parser::new_ext(markdown, lines_and_tables | Options::ENABLE_TASKLISTS);
    parser.map(plain_event).collect()
}

pub fn markdown_events(markdown: &str) -> (r: Vec<MarkdownEvent>)
    ensures
        event_views(r@) == document_events(markdown@),
{
    parse_markdown(markdown)
}

pub open spec fn muted_style() -> Style {
    ui::colored(SemanticColor::Muted)
}

/// Strong text, headings, code within a line and the fronts of quotations.
pub open spec fn focus_style() -> Style {
    ui::colored(SemanticColor::Focus).bolded()
}

pub open spec fn crossed_style() -> Style {
    Style { crossed_out: true, ..muted_style() }
}

pub open spec fn link_style() -> Style {
    Style { underlined: true, ..ui::colored(SemanticColor::Command) }
}

fn strong_style() -> (r: Style)
    ensures
        r == focus_style(),
{
    Style::color(SemanticColor::Focus).bold()
}

fn strikethrough_style() -> (r: Style)
    ensures
        r == crossed_style(),
{
    let mut r = Style::color(SemanticColor::Muted);
    r.crossed_out = true;
    r
}

fn style_of_link() -> (r: Style)
    ensures
        r == link_style(),
{
    let mut r = Style::color(SemanticColor::Command);
    r.underlined = true;
    r
}

pub open spec fn part(content: Seq<char>, style: Style, atomic: bool) -> PartView {
    PartView { text: content, style, atomic }
}

fn new_part(content: &str, style: Style, atomic: bool) -> (r: StyledTextPart)
    ensures
        r@ == part(content@, style, atomic),
{
    StyledTextPart { text: content.to_owned(), style, atomic }
}

fn push_text_part(parts: &mut Vec<StyledTextPart>, p: StyledTextPart)
    ensures
        ui::part_views(final(parts)@) == ui::part_views(old(parts)@).push(p@),
{
    let ghost before = parts@;
    parts.push(p);
    proof {
        assert(ui::part_views(parts@) =~= ui::part_views(before).push(p@));
    }
}

/// The front of a line of a quotation.
pub open spec fn quote_mark(depth: nat) -> Seq<char> {
    text::repeated(
        '>',
        if depth > 1 {
            depth
        } else {
            1
        },
    ) + " "@
}

pub fn quote_prefix(depth: usize) -> (r: String)
    ensures
        r@ == quote_mark(depth as nat),
{
    let marks = text::repeat_char(
        '>',
        if depth > 1 {
            depth
        } else {
            1
        },
    );
    text::cat2(marks.as_str(), " ")
}

/// A link that is being read: where it leads and what it is called.
#[derive(Debug, PartialEq, Eq)]
pub struct LinkState {
    pub dest_url: String,
    pub label: String,
}

/// A link.
pub struct LinkView {
    pub dest_url: Seq<char>,
    pub label: Seq<char>,
}

impl View for LinkState {
    type V = LinkView;

    open spec fn view(&self) -> LinkView {
        LinkView { dest_url: self.dest_url@, label: self.label@ }
    }
}

pub open spec fn link_views(v: Seq<LinkState>) -> Seq<LinkView> {
    v.map_values(|l: LinkState| l@)
}

/// Whether a link is called by where it leads.
pub open spec fn tells_its_address(l: LinkView) -> bool {
    text::trimmed(l.label) == text::trimmed(l.dest_url)
}

pub fn link_url_is_visible_in_label(link: &LinkState) -> (r: bool)
    ensures
        r == tells_its_address(link@),
{
    let label = text::trim(link.label.as_str());
    let url = text::trim(link.dest_url.as_str());
    text::same(label.as_str(), url.as_str())
}

/// As much of a text as fits into so many columns.
pub fn truncate_to_width(s: &str, max_width: usize) -> (r: String)
    ensures
        r@ == s@.take(width::fitting_end(s@, 0, max_width as int)),
{
    let v = text::chars_of(s);
    let end = width::visible_text_end(&v, 0, max_width);
    let r = text::text_of(&v, 0, end);
    proof {
        assert(r@ =~= s@.take(end as int));
    }
    r
}

/// A row of a table.
#[derive(Debug, PartialEq, Eq)]
pub struct TableRow {
    pub cells: Vec<Vec<StyledTextPart>>,
    pub header: bool,
}

/// A row of a table.
pub struct TableRowView {
    pub cells: Seq<Seq<PartView>>,
    pub header: bool,
}

pub open spec fn cell_views(v: Seq<Vec<StyledTextPart>>) -> Seq<Seq<PartView>> {
    v.map_values(|c: Vec<StyledTextPart>| ui::part_views(c@))
}

impl View for TableRow {
    type V = TableRowView;

    open spec fn view(&self) -> TableRowView {
        TableRowView { cells: cell_views(self.cells@), header: self.header }
    }
}

pub open spec fn table_rows(v: Seq<TableRow>) -> Seq<TableRowView> {
    v.map_values(|r: TableRow| r@)
}

pub open spec fn opt_row(o: Option<TableRow>) -> Option<TableRowView> {
    match o {
        Some(r) => Some(r@),
        None => None,
    }
}

pub open spec fn opt_cell(o: Option<Vec<StyledTextPart>>) -> Option<Seq<PartView>> {
    match o {
        Some(c) => Some(ui::part_views(c@)),
        None => None,
    }
}

/// A table that is being read.
#[derive(Debug, PartialEq, Eq)]
pub struct TableState {
    pub rows: Vec<TableRow>,
    pub current_row: Option<TableRow>,
    pub current_cell: Option<Vec<StyledTextPart>>,
    pub in_head: bool,
}

/// A table that is being read.
pub struct TableView {
    pub rows: Seq<TableRowView>,
    pub current_row: Option<TableRowView>,
    pub current_cell: Option<Seq<PartView>>,
    pub in_head: bool,
}

impl View for TableState {
    type V = TableView;

    open spec fn view(&self) -> TableView {
        TableView {
            rows: table_rows(self.rows@),
            current_row: opt_row(self.current_row),
            current_cell: opt_cell(self.current_cell),
            in_head: self.in_head,
        }
    }
}

/// A table of which nothing was read.
pub open spec fn no_table() -> TableView {
    TableView { rows: Seq::empty(), current_row: None, current_cell: None, in_head: false }
}

impl TableView {
    /// A row begins; one that had begun is gone.
    pub open spec fn row_started(self) -> TableView {
        TableView {
            current_row: Some(TableRowView { cells: Seq::empty(), header: self.in_head }),
            ..self
        }
    }

    pub open spec fn cell_started(self) -> TableView {
        TableView { current_cell: Some(Seq::empty()), ..self }
    }

    /// The cell goes into its row; where there is no row it is gone.
    pub open spec fn cell_finished(self) -> TableView {
        match self.current_cell {
            Some(cell) => TableView {
                current_cell: None,
                current_row: match self.current_row {
                    Some(row) => Some(TableRowView { cells: row.cells.push(cell), ..row }),
                    None => None,
                },
                ..self
            },
            None => self,
        }
    }

    /// The row, with its last cell, goes into the table, unless it is empty.
    pub open spec fn row_finished(self) -> TableView {
        let t = self.cell_finished();
        match t.current_row {
            Some(row) => TableView {
                current_row: None,
                rows: if row.cells.len() > 0 {
                    t.rows.push(row)
                } else {
                    t.rows
                },
                ..t
            },
            None => t,
        }
    }

    /// A text goes into the cell, which begins with it where none had begun.
    pub open spec fn with_part(self, p: PartView) -> TableView {
        TableView {
            current_cell: Some(
                match self.current_cell {
                    Some(cell) => cell.push(p),
                    None => seq![p],
                },
            ),
            ..self
        }
    }

    /// No row of the table is empty.
    pub open spec fn well_formed(self) -> bool {
        forall|i: int| 0 <= i < self.rows.len() ==> (#[trigger] self.rows[i]).cells.len() > 0
    }
}

/// A table never gets an empty row.
pub proof fn tables_have_no_empty_rows(t: TableView, p: PartView)
    requires
        t.well_formed(),
    ensures
        no_table().well_formed(),
        t.row_started().well_formed(),
        t.cell_started().well_formed(),
        t.cell_finished().well_formed(),
        t.row_finished().well_formed(),
        t.with_part(p).well_formed(),
{
}

/// A cell that is read between its start and its end stands in the row with all its texts.
pub proof fn cells_keep_their_texts(t: TableView, p: PartView, row: TableRowView)
    requires
        t.current_row == Some(row),
    ensures
        t.cell_started().with_part(p).cell_finished().current_row == Some(
            (TableRowView { cells: row.cells.push(seq![p]), ..row }),
        ),
        t.cell_started().with_part(p).cell_finished().current_cell is None,
{
    assert(Seq::<PartView>::empty().push(p) =~= seq![p]);
}

impl TableState {
    pub fn new() -> (r: TableState)
        ensures
            r@ == no_table(),
    {
        let r = TableState {
            rows: Vec::new(),
            current_row: None,
            current_cell: None,
            in_head: false,
        };
        proof {
            assert(r@.rows =~= Seq::empty());
        }
        r
    }

    pub fn start_row(&mut self)
        ensures
            final(self)@ == old(self)@.row_started(),
    {
        let row = TableRow { cells: Vec::new(), header: self.in_head };
        proof {
            assert(row@.cells =~= Seq::empty());
        }
        self.current_row = Some(row);
    }

    pub fn finish_row(&mut self)
        ensures
            final(self)@ == old(self)@.row_finished(),
    {
        self.finish_cell();
        match self.current_row.take() {
            Some(row) => {
                proof {
                    assert(row@.cells.len() == row.cells@.len());
                }
                if row.cells.len() > 0 {
                    let ghost before = self.rows@;
                    let ghost told = row@;
                    self.rows.push(row);
                    proof {
                        assert(table_rows(self.rows@) =~= table_rows(before).push(told));
                    }
                }
            },
            None => {},
        }
    }

    pub fn start_cell(&mut self)
        ensures
            final(self)@ == old(self)@.cell_started(),
    {
        let cell: Vec<StyledTextPart> = Vec::new();
        proof {
            assert(ui::part_views(cell@) =~= Seq::empty());
        }
        self.current_cell = Some(cell);
    }

    pub fn finish_cell(&mut self)
        ensures
            final(self)@ == old(self)@.cell_finished(),
    {
        match self.current_cell.take() {
            Some(cell) => match self.current_row.take() {
                Some(row) => {
                    let mut row = row;
                    let ghost before = row.cells@;
                    let ghost told = ui::part_views(cell@);
                    row.cells.push(cell);
                    proof {
                        assert(cell_views(row.cells@) =~= cell_views(before).push(told));
                    }
                    self.current_row = Some(row);
                },
                None => {},
            },
            None => {},
        }
    }

    pub fn push_part(&mut self, p: StyledTextPart)
        ensures
            final(self)@ == old(self)@.with_part(p@),
    {
        let ghost told = p@;
        let cell = match self.current_cell.take() {
            Some(cell) => {
                let mut cell = cell;
                push_text_part(&mut cell, p);
                cell
            },
            None => {
                let mut cell: Vec<StyledTextPart> = Vec::new();
                cell.push(p);
                proof {
                    assert(ui::part_views(cell@) =~= seq![told]);
                }
                cell
            },
        };
        self.current_cell = Some(cell);
    }
}

/// The sum of column widths.
pub open spec fn total(widths: Seq<usize>) -> int
    decreases widths.len(),
{
    if widths.len() == 0 {
        0
    } else {
        total(widths.drop_last()) + widths.last()
    }
}

/// Among the first `n` columns of more than three cells the widest, the last of several.
pub open spec fn widest(widths: Seq<usize>, n: int) -> Option<int>
    decreases n,
{
    if n <= 0 {
        None
    } else {
        match widest(widths, n - 1) {
            Some(i) => if widths[n - 1] > 3 && widths[n - 1] >= widths[i] {
                Some(n - 1)
            } else {
                Some(i)
            },
            None => if widths[n - 1] > 3 {
                Some(n - 1)
            } else {
                None
            },
        }
    }
}

/// The column found is one of the widest of more than three cells.
pub proof fn lemma_widest(widths: Seq<usize>, n: int)
    requires
        0 <= n <= widths.len(),
    ensures
        widest(widths, n) matches Some(i) ==> 0 <= i < n && widths[i] > 3 && (forall|k: int|
            0 <= k < n ==> #[trigger] widths[k] <= widths[i] || widths[k] <= 3),
        widest(widths, n) is None ==> forall|k: int| 0 <= k < n ==> #[trigger] widths[k] <= 3,
    decreases n,
{
    if n > 0 {
        lemma_widest(widths, n - 1);
    }
}

/// The sum after one column has changed.
pub proof fn lemma_total_update(widths: Seq<usize>, i: int, to: usize)
    requires
        0 <= i < widths.len(),
    ensures
        total(widths.update(i, to)) == total(widths) - widths[i] + to,
    decreases widths.len(),
{
    if i == widths.len() - 1 {
        assert(widths.update(i, to).drop_last() =~= widths.drop_last());
    } else {
        assert(widths.update(i, to).drop_last() =~= widths.drop_last().update(i, to));
        lemma_total_update(widths.drop_last(), i, to);
    }
}

/// How large the sum can be.
pub proof fn lemma_total_bounds(widths: Seq<usize>)
    ensures
        0 <= total(widths) <= widths.len() * usize::MAX,
    decreases widths.len(),
{
    if widths.len() > 0 {
        lemma_total_bounds(widths.drop_last());
        assert(widths.len() * usize::MAX == (widths.len() - 1) * usize::MAX + usize::MAX)
            by (nonlinear_arith);
    }
}

/// The widths, with the widest column made narrower as long as they need more room than there
/// is and a column of more than three cells is left.
pub open spec fn fitted(widths: Seq<usize>, available: int) -> Seq<usize>
    decreases total(widths),
{
    if total(widths) > available && widest(widths, widths.len() as int) is Some {
        proof {
            let i = widest(widths, widths.len() as int)->0;
            lemma_widest(widths, widths.len() as int);
            lemma_total_update(widths, i, (widths[i] - 1) as usize);
            lemma_total_bounds(widths.update(i, (widths[i] - 1) as usize));
        }
        let i = widest(widths, widths.len() as int)->0;
        fitted(widths.update(i, (widths[i] - 1) as usize), available)
    } else {
        widths
    }
}

/// The room for the columns of a table: what is left beside the gaps between them, and a cell
/// for each at least.
pub open spec fn room(columns: int, max_width: int) -> int {
    layout::larger(layout::rest_of(max_width, 2 * layout::rest_of(columns, 1) + 1), columns)
}

/// A table is made to fit, or else all its columns are narrow. No column grows, none loses
/// more than what is beyond three cells, and a table that fits stays as it is.
pub proof fn tables_fit_or_are_narrow(widths: Seq<usize>, available: int)
    ensures
        fitted(widths, available).len() == widths.len(),
        total(fitted(widths, available)) <= available || (forall|i: int|
            0 <= i < widths.len() ==> #[trigger] fitted(widths, available)[i] <= 3),
        forall|i: int|
            0 <= i < widths.len() ==> layout::smaller(widths[i] as int, 3) <= (
            #[trigger] fitted(widths, available)[i]) <= widths[i],
        total(widths) <= available ==> fitted(widths, available) == widths,
    decreases total(widths),
{
    let n = widths.len() as int;
    lemma_widest(widths, n);
    if total(widths) > available && widest(widths, n) is Some {
        let i = widest(widths, n)->0;
        let less = widths.update(i, (widths[i] - 1) as usize);
        lemma_total_update(widths, i, (widths[i] - 1) as usize);
        lemma_total_bounds(less);
        tables_fit_or_are_narrow(less, available);
        assert(fitted(widths, available) == fitted(less, available));
        assert forall|k: int| 0 <= k < n implies layout::smaller(widths[k] as int, 3) <= (
        #[trigger] fitted(widths, available)[k]) <= widths[k] by {
            assert(fitted(less, available)[k] <= less[k]);
        }
    }
}

/// A table is never made narrower than it has to be.
pub proof fn tables_use_their_room(widths: Seq<usize>, available: int)
    requires
        total(widths) >= available,
    ensures
        total(fitted(widths, available)) >= available,
    decreases total(widths),
{
    let n = widths.len() as int;
    lemma_widest(widths, n);
    if total(widths) > available && widest(widths, n) is Some {
        let i = widest(widths, n)->0;
        lemma_total_update(widths, i, (widths[i] - 1) as usize);
        lemma_total_bounds(widths.update(i, (widths[i] - 1) as usize));
        tables_use_their_room(widths.update(i, (widths[i] - 1) as usize), available);
    }
}

fn find_widest(widths: &Vec<usize>) -> (r: Option<usize>)
    ensures
        (match r {
            Some(i) => Some(i as int),
            None => None,
        }) == widest(widths@, widths@.len() as int),
        r matches Some(i) ==> i < widths@.len() && widths@[i as int] > 3,
{
    let mut found: Option<usize> = None;
    let mut n: usize = 0;
    while n < widths.len()
        invariant
            n <= widths@.len(),
            (match found {
                Some(i) => Some(i as int),
                None => None,
            }) == widest(widths@, n as int),
            found matches Some(i) ==> i < n && widths@[i as int] > 3,
        decreases widths@.len() - n,
    {
        if widths[n] > 3 {
            match found {
                Some(i) => {
                    if widths[n] >= widths[i] {
                        found = Some(n);
                    }
                },
                None => {
                    found = Some(n);
                },
            }
        }
        n = n + 1;
    }
    found
}

fn add_up(widths: &Vec<usize>) -> (r: u128)
    ensures
        r == total(widths@),
{
    let mut sum: u128 = 0;
    let mut i: usize = 0;
    let count: usize = widths.len();
    proof {
        assert(widths@.take(0) =~= Seq::empty());
    }
    while i < count
        invariant
            i <= count == widths@.len(),
            sum == total(widths@.take(i as int)),
        decreases count - i,
    {
        proof {
            assert(widths@.take(i + 1).drop_last() =~= widths@.take(i as int));
            lemma_total_bounds(widths@.take(i + 1));
            assert((i + 1) * usize::MAX <= u128::MAX) by (nonlinear_arith)
                requires
                    i + 1 <= usize::MAX,
                    usize::MAX <= 0xffff_ffff_ffff_ffff,
            ;
        }
        sum = sum + widths[i] as u128;
        i = i + 1;
    }
    proof {
        assert(widths@.take(i as int) =~= widths@);
    }
    sum
}

pub fn fit_table_widths(widths: &mut Vec<usize>, max_width: usize)
    ensures
        final(widths)@ == fitted(
            old(widths)@,
            room(old(widths)@.len() as int, max_width as int),
        ),
{
    let count: usize = widths.len();
    let between: usize = count.saturating_sub(1);
    let gaps: usize = between.saturating_add(between).saturating_add(1);
    let beside: usize = max_width.saturating_sub(gaps);
    let available: usize = if beside > count {
        beside
    } else {
        count
    };
    let ghost start = widths@;
    proof {
        assert(available == room(start.len() as int, max_width as int)) by {
            if 2 * layout::rest_of(count as int, 1) + 1 > usize::MAX {
                assert(beside == 0);
            }
        }
    }
    let mut total_width: u128 = add_up(widths);
    loop
        invariant
            total_width == total(widths@),
            fitted(start, available as int) == fitted(widths@, available as int),
        ensures
            fitted(start, available as int) == widths@,
        decreases total_width,
    {
        if total_width <= available as u128 {
            break;
        }
        match find_widest(widths) {
            Some(i) => {
                proof {
                    lemma_total_update(widths@, i as int, (widths@[i as int] - 1) as usize);
                    lemma_total_bounds(widths@.update(i as int, (widths@[i as int] - 1) as usize));
                }
                let less: usize = widths[i] - 1;
                widths.set(i, less);
                total_width = total_width - 1;
            },
            None => {
                break;
            },
        }
    }
}

/// The columns of texts, one beside the other, up to the highest number there is.
pub open spec fn parts_width(parts: Seq<PartView>) -> int
    decreases parts.len(),
{
    if parts.len() == 0 {
        0
    } else {
        layout::smaller(
            parts_width(parts.drop_last()) + width::unicode_text_width(parts.last().text),
            usize::MAX as int,
        )
    }
}

pub fn styled_parts_width(parts: &Vec<StyledTextPart>) -> (r: usize)
    ensures
        r == parts_width(ui::part_views(parts@)),
{
    let ghost all = ui::part_views(parts@);
    let mut sum: usize = 0;
    let mut i: usize = 0;
    proof {
        assert(all.take(0) =~= Seq::empty());
    }
    while i < parts.len()
        invariant
            i <= parts@.len(),
            all == ui::part_views(parts@),
            sum == parts_width(all.take(i as int)),
        decreases parts@.len() - i,
    {
        proof {
            assert(all.take(i + 1).drop_last() =~= all.take(i as int));
            assert(all.take(i + 1).last() == parts@[i as int]@);
        }
        sum = sum.saturating_add(width::text_width(parts[i].text.as_str()));
        i = i + 1;
    }
    proof {
        assert(all.take(i as int) =~= all);
    }
    sum
}

/// The columns of spans, one beside the other, up to the highest number there is.
pub open spec fn spans_columns(spans: Seq<SpanView>) -> int
    decreases spans.len(),
{
    if spans.len() == 0 {
        0
    } else {
        layout::smaller(
            spans_columns(spans.drop_last()) + width::unicode_text_width(spans.last().content),
            usize::MAX as int,
        )
    }
}

pub fn spans_width(line: &Line) -> (r: usize)
    ensures
        r == spans_columns(line@),
{
    let mut sum: usize = 0;
    let mut i: usize = 0;
    proof {
        assert(line@.take(0) =~= Seq::empty());
    }
    while i < line.spans.len()
        invariant
            i <= line.spans@.len(),
            sum == spans_columns(line@.take(i as int)),
        decreases line.spans@.len() - i,
    {
        proof {
            assert(line@.take(i + 1).drop_last() =~= line@.take(i as int));
            assert(line@.take(i + 1).last() == line.spans@[i as int]@);
        }
        sum = sum.saturating_add(width::text_width(line.spans[i].content.as_str()));
        i = i + 1;
    }
    proof {
        assert(line@.take(i as int) =~= line@);
    }
    sum
}

/// Texts from the `i`th on, cut where so many columns are used up; in one style, where one is
/// given. Nothing is left of a text that does not begin to fit.
pub open spec fn cut_parts(
    parts: Seq<PartView>,
    i: int,
    used: int,
    max_width: int,
    over: Option<Style>,
) -> Seq<SpanView>
    decreases parts.len() - i,
{
    if i < 0 || i >= parts.len() || used >= max_width {
        Seq::empty()
    } else {
        let shown = parts[i].text.take(width::fitting_end(parts[i].text, 0, max_width - used));
        if shown.len() == 0 {
            cut_parts(parts, i + 1, used, max_width, over)
        } else {
            seq![
                ui::span(
                    shown,
                    match over {
                        Some(style) => style,
                        None => parts[i].style,
                    },
                ),
            ] + cut_parts(
                parts,
                i + 1,
                used + width::unicode_text_width(shown),
                max_width,
                over,
            )
        }
    }
}

/// A cell, cut to its width.
pub open spec fn cut_cell(
    parts: Seq<PartView>,
    max_width: int,
    fallback: Style,
    over: Option<Style>,
) -> Seq<SpanView> {
    let cut = cut_parts(parts, 0, 0, max_width, over);
    if cut.len() == 0 {
        seq![ui::span(Seq::empty(), fallback)]
    } else {
        cut
    }
}

/// A cell, cut to its width. Its texts keep their styles unless one is laid over all of them;
/// an empty cell has the fallback.
pub fn truncate_styled_parts(
    parts: &Vec<StyledTextPart>,
    max_width: usize,
    fallback: Style,
    over: Option<Style>,
) -> (r: Line)
    ensures
        r@ == cut_cell(ui::part_views(parts@), max_width as int, fallback, over),
{
    let ghost all = ui::part_views(parts@);
    let ghost whole = cut_parts(all, 0, 0, max_width as int, over);
    let mut line = Line::empty();
    let mut used: usize = 0;
    let mut i: usize = 0;
    proof {
        assert(line@ + whole =~= whole);
    }
    while i < parts.len() && used < max_width
        invariant
            i <= parts@.len(),
            all == ui::part_views(parts@),
            line@ + cut_parts(all, i as int, used as int, max_width as int, over) == whole,
        decreases parts@.len() - i,
    {
        proof {
            assert(all[i as int] == parts@[i as int]@);
        }
        let shown = truncate_to_width(parts[i].text.as_str(), max_width - used);
        if !shown.as_str().is_empty() {
            let taken: usize = width::text_width(shown.as_str());
            let style = match over {
                Some(style) => style,
                None => parts[i].style,
            };
            let ghost before = line@;
            let ghost told = ui::span(shown@, style);
            line.push(Span::styled(shown, style));
            proof {
                let rest = cut_parts(all, i + 1, used + taken, max_width as int, over);
                assert(before + (seq![told] + rest) =~= before.push(told) + rest);
                if used + taken > usize::MAX {
                    assert(rest =~= cut_parts(all, i + 1, usize::MAX as int, max_width as int, over));
                }
            }
            used = used.saturating_add(taken);
        }
        i = i + 1;
    }
    proof {
        assert(cut_parts(all, i as int, used as int, max_width as int, over) =~= Seq::empty());
        assert(line@ =~= whole);
        assert(line@.len() == line.spans@.len());
    }
    if line.spans.len() == 0 {
        let none = String::new();
        proof {
            assert(none@ =~= Seq::empty());
        }
        line = Line::one(Span::styled(none, fallback));
    }
    line
}

/// The cell of a row in a column; an empty one where the row is short.
pub open spec fn cell_of(row: TableRowView, i: int) -> Seq<PartView> {
    if 0 <= i < row.cells.len() {
        row.cells[i]
    } else {
        Seq::empty()
    }
}

/// The style of a row's cells.
pub open spec fn cell_style(header: bool) -> Style {
    if header {
        focus_style()
    } else {
        ui::colored(SemanticColor::Assistant)
    }
}

/// A cell in its column, with blanks up to the column's end.
pub open spec fn padded_cell(row: TableRowView, i: int, width: int) -> Seq<SpanView> {
    let style = cell_style(row.header);
    let cut = cut_cell(
        cell_of(row, i),
        width,
        style,
        if row.header {
            Some(style)
        } else {
            None
        },
    );
    if spans_columns(cut) < width {
        cut.push(
            ui::span(
                text::repeated(' ', (width - spans_columns(cut)) as nat),
                muted_style(),
            ),
        )
    } else {
        cut
    }
}

/// The first `n` columns of a row.
pub open spec fn row_spans(row: TableRowView, widths: Seq<usize>, n: int) -> Seq<SpanView>
    decreases n,
{
    if n <= 0 {
        seq![ui::span(" "@, muted_style())]
    } else {
        let before = row_spans(row, widths, n - 1);
        let apart = if n > 1 {
            before.push(ui::span("  "@, muted_style()))
        } else {
            before
        };
        apart + padded_cell(row, n - 1, widths[n - 1] as int)
    }
}

/// Appends the spans of a line.
fn append_line(line: &mut Line, more: Line)
    ensures
        final(line)@ == old(line)@ + more@,
{
    let ghost start = line@;
    let ghost all = more@;
    let mut i: usize = 0;
    proof {
        assert(start + all.take(0) =~= start);
    }
    while i < more.spans.len()
        invariant
            i <= more.spans@.len(),
            all == more@,
            line@ == start + all.take(i as int),
        decreases more.spans@.len() - i,
    {
        line.push(more.spans[i].clone());
        proof {
            assert(all[i as int] == more.spans@[i as int]@);
            assert(start + all.take(i + 1) =~= (start + all.take(i as int)).push(all[i as int]));
        }
        i = i + 1;
    }
    proof {
        assert(all.take(i as int) =~= all);
    }
}

pub fn table_row_line(row: &TableRow, widths: &Vec<usize>) -> (r: Line)
    ensures
        r@ == row_spans(row@, widths@, widths@.len() as int),
{
    let mut line = Line::one(Span::of(" ", Style::color(SemanticColor::Muted)));
    let style = if row.header {
        strong_style()
    } else {
        Style::color(SemanticColor::Assistant)
    };
    let over = if row.header {
        Some(style)
    } else {
        None
    };
    let none: Vec<StyledTextPart> = Vec::new();
    let mut i: usize = 0;
    while i < widths.len()
        invariant
            i <= widths@.len(),
            none@.len() == 0,
            style == cell_style(row.header),
            over == (if row.header {
                Some(style)
            } else {
                None
            }),
            line@ == row_spans(row@, widths@, i as int),
        decreases widths@.len() - i,
    {
        if i > 0 {
            line.push(Span::of("  ", Style::color(SemanticColor::Muted)));
        }
        let ghost apart = line@;
        let w: usize = widths[i];
        proof {
            assert(row@.cells.len() == row.cells@.len());
            if i < row.cells@.len() {
                assert(row@.cells[i as int] == ui::part_views(row.cells@[i as int]@));
            } else {
                assert(ui::part_views(none@) =~= Seq::empty());
            }
        }
        let mut cell = if i < row.cells.len() {
            truncate_styled_parts(&row.cells[i], w, style, over)
        } else {
            truncate_styled_parts(&none, w, style, over)
        };
        let taken: usize = spans_width(&cell);
        if taken < w {
            cell.push(
                Span::styled(
                    text::repeat_char(' ', w - taken),
                    Style::color(SemanticColor::Muted),
                ),
            );
        }
        append_line(&mut line, cell);
        i = i + 1;
    }
    line
}

/// The line below the head, up to the `n`th column.
pub open spec fn rule_text(widths: Seq<usize>, n: int) -> Seq<char>
    decreases n,
{
    if n <= 0 {
        " "@
    } else {
        let before = rule_text(widths, n - 1);
        let apart = if n > 1 {
            before + "  "@
        } else {
            before
        };
        apart + text::repeated('-', layout::larger(widths[n - 1] as int, 3) as nat)
    }
}

pub fn table_separator_line(widths: &Vec<usize>) -> (r: Line)
    ensures
        r@ == seq![ui::span(rule_text(widths@, widths@.len() as int), muted_style())],
{
    let mut rule = " ".to_owned();
    let mut i: usize = 0;
    while i < widths.len()
        invariant
            i <= widths@.len(),
            rule@ == rule_text(widths@, i as int),
        decreases widths@.len() - i,
    {
        if i > 0 {
            rule.append("  ");
        }
        let w: usize = if widths[i] > 3 {
            widths[i]
        } else {
            3
        };
        rule.append(text::repeat_char('-', w).as_str());
        i = i + 1;
    }
    Line::one(Span::styled(rule, Style::color(SemanticColor::Muted)))
}

/// The number of columns of the first `n` rows.
pub open spec fn column_count(rows: Seq<TableRowView>, n: int) -> int
    decreases n,
{
    if n <= 0 {
        0
    } else {
        layout::larger(column_count(rows, n - 1), rows[n - 1].cells.len() as int)
    }
}

/// The width that a column wants, by its first `n` rows.
pub open spec fn wanted_width(rows: Seq<TableRowView>, column: int, n: int) -> int
    decreases n,
{
    if n <= 0 {
        1
    } else {
        let before = wanted_width(rows, column, n - 1);
        if column < rows[n - 1].cells.len() {
            layout::larger(before, parts_width(rows[n - 1].cells[column]))
        } else {
            before
        }
    }
}

/// The widths that the columns want.
pub open spec fn wanted_widths(rows: Seq<TableRowView>) -> Seq<usize> {
    Seq::new(
        column_count(rows, rows.len() as int) as nat,
        |c: int| wanted_width(rows, c, rows.len() as int) as usize,
    )
}

/// The lines of the first `n` rows.
pub open spec fn row_lines(rows: Seq<TableRowView>, widths: Seq<usize>, n: int) -> Seq<
    Seq<SpanView>,
>
    decreases n,
{
    if n <= 0 {
        Seq::empty()
    } else {
        let before = row_lines(rows, widths, n - 1).push(
            row_spans(rows[n - 1], widths, widths.len() as int),
        );
        if rows[n - 1].header {
            before.push(seq![ui::span(rule_text(widths, widths.len() as int), muted_style())])
        } else {
            before
        }
    }
}

/// The widths of a table's columns in a region.
pub open spec fn table_widths(rows: Seq<TableRowView>, region_width: u16) -> Seq<usize> {
    fitted(
        wanted_widths(rows),
        room(
            column_count(rows, rows.len() as int),
            layout::larger(region_width as int, 1),
        ),
    )
}

/// The lines of a table.
pub open spec fn table_text(rows: Seq<TableRowView>, region_width: u16) -> Seq<Seq<SpanView>> {
    if column_count(rows, rows.len() as int) == 0 {
        Seq::empty()
    } else {
        row_lines(rows, table_widths(rows, region_width), rows.len() as int)
    }
}

proof fn lemma_wanted_width(rows: Seq<TableRowView>, column: int, n: int)
    ensures
        1 <= wanted_width(rows, column, n) <= usize::MAX,
    decreases n,
{
    if n > 0 {
        lemma_wanted_width(rows, column, n - 1);
        if column < rows[n - 1].cells.len() {
            lemma_parts_width(rows[n - 1].cells[column]);
        }
    }
}

proof fn lemma_parts_width(parts: Seq<PartView>)
    ensures
        0 <= parts_width(parts) <= usize::MAX,
    decreases parts.len(),
{
    if parts.len() > 0 {
        lemma_parts_width(parts.drop_last());
    }
}

fn count_columns(rows: &Vec<TableRow>) -> (r: usize)
    ensures
        r == column_count(table_rows(rows@), rows@.len() as int),
{
    let ghost all = table_rows(rows@);
    let mut most: usize = 0;
    let mut i: usize = 0;
    while i < rows.len()
        invariant
            i <= rows@.len(),
            all == table_rows(rows@),
            most == column_count(all, i as int),
        decreases rows@.len() - i,
    {
        let count: usize = rows[i].cells.len();
        proof {
            assert(all[i as int] == rows@[i as int]@);
            assert(all[i as int].cells.len() == count);
        }
        if count > most {
            most = count;
        }
        i = i + 1;
    }
    most
}

fn column_width(rows: &Vec<TableRow>, column: usize) -> (r: usize)
    ensures
        r == wanted_width(table_rows(rows@), column as int, rows@.len() as int),
{
    let ghost all = table_rows(rows@);
    let mut widest: usize = 1;
    let mut i: usize = 0;
    while i < rows.len()
        invariant
            i <= rows@.len(),
            all == table_rows(rows@),
            widest == wanted_width(all, column as int, i as int),
        decreases rows@.len() - i,
    {
        proof {
            assert(all[i as int] == rows@[i as int]@);
            assert(all[i as int].cells.len() == rows@[i as int].cells@.len());
        }
        if column < rows[i].cells.len() {
            proof {
                assert(all[i as int].cells[column as int] == ui::part_views(
                    rows@[i as int].cells@[column as int]@,
                ));
            }
            let w: usize = styled_parts_width(&rows[i].cells[column]);
            if w > widest {
                widest = w;
            }
        }
        i = i + 1;
    }
    widest
}

pub fn table_lines(rows: &Vec<TableRow>, region_width: u16) -> (r: Vec<Line>)
    ensures
        ui::line_views(r@) == table_text(table_rows(rows@), region_width),
{
    let ghost all = table_rows(rows@);
    let mut lines: Vec<Line> = Vec::new();
    proof {
        assert(ui::line_views(lines@) =~= Seq::empty());
        assert(all.len() == rows@.len());
    }
    let count = count_columns(rows);
    if count == 0 {
        return lines;
    }
    let mut widths: Vec<usize> = Vec::new();
    let mut c: usize = 0;
    while c < count
        invariant
            c <= count == column_count(all, all.len() as int),
            all == table_rows(rows@),
            all.len() == rows@.len(),
            widths@ == wanted_widths(all).take(c as int),
        decreases count - c,
    {
        proof {
            lemma_wanted_width(all, c as int, all.len() as int);
        }
        widths.push(column_width(rows, c));
        proof {
            assert(wanted_widths(all).take(c + 1) =~= wanted_widths(all).take(c as int).push(
                wanted_widths(all)[c as int],
            ));
        }
        c = c + 1;
    }
    proof {
        assert(wanted_widths(all).take(c as int) =~= wanted_widths(all));
    }
    fit_table_widths(
        &mut widths,
        if region_width > 1 {
            region_width as usize
        } else {
            1
        },
    );
    proof {
        assert(widths@ == table_widths(all, region_width));
    }
    let mut i: usize = 0;
    while i < rows.len()
        invariant
            i <= rows@.len(),
            all == table_rows(rows@),
            ui::line_views(lines@) == row_lines(all, widths@, i as int),
        decreases rows@.len() - i,
    {
        proof {
            assert(all[i as int] == rows@[i as int]@);
        }
        ui::push_line(&mut lines, table_row_line(&rows[i], &widths));
        if rows[i].header {
            ui::push_line(&mut lines, table_separator_line(&widths));
        }
        i = i + 1;
    }
    lines
}

/// A piece of the rendered document: a line, a text that is wrapped, with something before each
/// of its lines in a quotation, or a line of code, which is wrapped with its leading blanks.
#[derive(Debug, PartialEq, Eq)]
pub enum MarkdownBlock {
    Line(Line),
    Wrapped { front: Option<Span>, parts: Vec<StyledTextPart>, width: u16 },
    Code { parts: Vec<StyledTextPart>, width: u16 },
}

/// A piece of the rendered document.
pub enum MarkdownBlockView {
    Line(Seq<SpanView>),
    Wrapped { front: Option<SpanView>, parts: Seq<PartView>, width: u16 },
    Code { parts: Seq<PartView>, width: u16 },
}

impl View for MarkdownBlock {
    type V = MarkdownBlockView;

    open spec fn view(&self) -> MarkdownBlockView {
        match self {
            MarkdownBlock::Line(l) => MarkdownBlockView::Line(l@),
            MarkdownBlock::Wrapped { front, parts, width } => MarkdownBlockView::Wrapped {
                front: match front {
                    Some(s) => Some(s@),
                    None => None,
                },
                parts: ui::part_views(parts@),
                width: *width,
            },
            MarkdownBlock::Code { parts, width } => MarkdownBlockView::Code {
                parts: ui::part_views(parts@),
                width: *width,
            },
        }
    }
}

pub open spec fn markdown_blocks(v: Seq<MarkdownBlock>) -> Seq<MarkdownBlockView> {
    v.map_values(|b: MarkdownBlock| b@)
}

fn push_markdown_block(blocks: &mut Vec<MarkdownBlock>, block: MarkdownBlock)
    ensures
        markdown_blocks(final(blocks)@) == markdown_blocks(old(blocks)@).push(block@),
{
    let ghost before = blocks@;
    blocks.push(block);
    proof {
        assert(markdown_blocks(blocks@) =~= markdown_blocks(before).push(block@));
    }
}

/// What stands before a line of code.
pub open spec fn rail() -> Seq<char> {
    "▎ "@
}

/// What is left of a width beside a text, one column at least.
pub open spec fn width_beside(width: u16, front: Seq<char>) -> u16 {
    layout::larger(
        layout::rest_of(width as int, width::unicode_text_width(front) as int),
        1,
    ) as u16
}

fn beside(width: u16, front: &str) -> (r: u16)
    ensures
        r == width_beside(width, front@),
{
    let taken: usize = width::text_width(front);
    if taken < width as usize && width - taken as u16 > 1 {
        width - taken as u16
    } else {
        1
    }
}

/// A line of code, before it is wrapped.
pub open spec fn code_block(line: Seq<SpanView>, width: u16) -> MarkdownBlockView {
    MarkdownBlockView::Code {
        parts: line.map_values(|s: SpanView| part(s.content, s.style, false)),
        width: width_beside(width, rail()),
    }
}

fn block_of_code(line: &Line, width: u16) -> (r: MarkdownBlock)
    ensures
        r@ == code_block(line@, width),
{
    let mut parts: Vec<StyledTextPart> = Vec::new();
    let mut i: usize = 0;
    while i < line.spans.len()
        invariant
            i <= line.spans@.len(),
            parts@.len() == i,
            forall|k: int|
                0 <= k < i ==> (#[trigger] parts@[k])@ == part(
                    line@[k].content,
                    line@[k].style,
                    false,
                ),
        decreases line.spans@.len() - i,
    {
        proof {
            assert(line@[i as int] == line.spans@[i as int]@);
        }
        parts.push(new_part(line.spans[i].content.as_str(), line.spans[i].style, false));
        i = i + 1;
    }
    let r = MarkdownBlock::Code { parts, width: beside(width, "▎ ") };
    proof {
        assert(ui::part_views(parts@) =~= line@.map_values(
            |s: SpanView| part(s.content, s.style, false),
        ));
    }
    r
}

/// A line of code, behind its rail; on a ground of its own up to the end of the region, where
/// the theme has one.
pub open spec fn railed(line: Seq<SpanView>, width: u16, has_ground: bool) -> Seq<SpanView> {
    let behind = seq![
        ui::span(rail(), ui::colored(SemanticColor::Status).bolded()),
    ] + line;
    if has_ground {
        let ground = Some(Tint::Semantic(SemanticColor::CodeBackground));
        let grounded = behind.map_values(
            |s: SpanView| ui::span(s.content, Style { bg: ground, ..s.style }),
        );
        let padding = layout::rest_of(width as int, spans_columns(grounded));
        if padding > 0 {
            grounded.push(
                ui::span(
                    text::repeated(' ', padding as nat),
                    Style { bg: ground, ..ui::plain_style() },
                ),
            )
        } else {
            grounded
        }
    } else {
        behind
    }
}

/// A wrapped line of code as it is shown.
pub fn code_block_row(line: &Line, region_width: u16, has_ground: bool) -> (r: Line)
    ensures
        r@ == railed(line@, region_width, has_ground),
{
    let mut row = Line::one(Span::of("▎ ", Style::color(SemanticColor::Status).bold()));
    append_line(&mut row, line.clone());
    if !has_ground {
        return row;
    }
    let ghost behind = row@;
    let ghost ground = Some(Tint::Semantic(SemanticColor::CodeBackground));
    let mut grounded = Line::empty();
    let mut i: usize = 0;
    while i < row.spans.len()
        invariant
            i <= row.spans@.len(),
            behind == row@,
            ground == Some(Tint::Semantic(SemanticColor::CodeBackground)),
            grounded@.len() == i,
            forall|k: int|
                0 <= k < i ==> #[trigger] grounded@[k] == ui::span(
                    behind[k].content,
                    Style { bg: ground, ..behind[k].style },
                ),
        decreases row.spans@.len() - i,
    {
        proof {
            assert(behind[i as int] == row.spans@[i as int]@);
        }
        let mut style = row.spans[i].style;
        style.bg = Some(Tint::Semantic(SemanticColor::CodeBackground));
        grounded.push(Span::of(row.spans[i].content.as_str(), style));
        i = i + 1;
    }
    proof {
        assert(grounded@ =~= behind.map_values(
            |s: SpanView| ui::span(s.content, Style { bg: ground, ..s.style }),
        ));
    }
    let taken: usize = spans_width(&grounded);
    let padding: usize = (region_width as usize).saturating_sub(taken);
    if padding > 0 {
        let mut style = Style::plain();
        style.bg = Some(Tint::Semantic(SemanticColor::CodeBackground));
        grounded.push(Span::styled(text::repeat_char(' ', padding), style));
    }
    grounded
}

/// A wrapped line of a quotation as it is shown.
pub fn quoted_row(line: &Line, front: &Span) -> (r: Line)
    ensures
        r@ == seq![front@] + line@,
{
    let mut row = Line::one(front.clone());
    append_line(&mut row, line.clone());
    row
}

/// The number that the next item of a list has, where its items are numbered.
#[derive(Debug, Clone, Copy, PartialEq, Eq, Structural)]
pub struct ListState {
    pub next_number: Option<u64>,
}

/// A code block that is being read.
#[derive(Debug, PartialEq, Eq)]
pub struct CodeBlockState {
    pub lang: Option<String>,
    pub text: String,
}

/// A code block that is being read.
pub struct CodeView {
    pub lang: Option<Seq<char>>,
    pub text: Seq<char>,
}

pub open spec fn opt_code(o: Option<CodeBlockState>) -> Option<CodeView> {
    match o {
        Some(c) => Some(CodeView { lang: crate::plan_model::opt(c.lang), text: c.text@ }),
        None => None,
    }
}

pub open spec fn opt_table(o: Option<TableState>) -> Option<TableView> {
    match o {
        Some(t) => Some(t@),
        None => None,
    }
}

/// Renders a document, piece by piece.
#[derive(Debug, PartialEq, Eq)]
pub struct MarkdownRenderer {
    width: u16,
    theme: CodeTheme,
    blocks: Vec<MarkdownBlock>,
    parts: Vec<StyledTextPart>,
    style_stack: Vec<Style>,
    link_stack: Vec<LinkState>,
    quote_depth: usize,
    list_stack: Vec<ListState>,
    pending_list_marker: Option<String>,
    code_block: Option<CodeBlockState>,
    table: Option<TableState>,
}

/// What was rendered of a document, and what is open.
pub struct RendererView {
    pub width: u16,
    pub theme: CodeTheme,
    pub blocks: Seq<MarkdownBlockView>,
    pub parts: Seq<PartView>,
    pub styles: Seq<Style>,
    pub links: Seq<LinkView>,
    pub quote_depth: usize,
    pub lists: Seq<ListState>,
    pub marker: Option<Seq<char>>,
    pub code: Option<CodeView>,
    pub table: Option<TableView>,
}

impl View for MarkdownRenderer {
    type V = RendererView;

    closed spec fn view(&self) -> RendererView {
        RendererView {
            width: self.width,
            theme: self.theme,
            blocks: markdown_blocks(self.blocks@),
            parts: ui::part_views(self.parts@),
            styles: self.style_stack@,
            links: link_views(self.link_stack@),
            quote_depth: self.quote_depth,
            lists: self.list_stack@,
            marker: crate::plan_model::opt(self.pending_list_marker),
            code: opt_code(self.code_block),
            table: opt_table(self.table),
        }
    }
}

/// Before the first piece.
pub open spec fn fresh_renderer(width: u16, theme: CodeTheme) -> RendererView {
    RendererView {
        width,
        theme,
        blocks: Seq::empty(),
        parts: Seq::empty(),
        styles: seq![ui::colored(SemanticColor::Assistant)],
        links: Seq::empty(),
        quote_depth: 0,
        lists: Seq::empty(),
        marker: None,
        code: None,
        table: None,
    }
}

/// The parts of a text as a block, in a quotation of some depth.
pub open spec fn text_block(parts: Seq<PartView>, depth: usize, width: u16) -> MarkdownBlockView {
    if depth == 0 {
        MarkdownBlockView::Wrapped { front: None, parts, width }
    } else {
        let front = quote_mark(depth as nat);
        MarkdownBlockView::Wrapped {
            front: Some(ui::span(front, focus_style())),
            parts,
            width: width_beside(width, front),
        }
    }
}

/// A text without one line break at its end.
pub open spec fn without_last_break(s: Seq<char>) -> Seq<char> {
    if s.len() > 0 && s.last() == '\n' {
        s.drop_last()
    } else {
        s
    }
}

/// The lines of a code block, coloured where its language is given.
pub open spec fn block_lines(set: SyntaxSet, theme: CodeTheme, code: CodeView) -> Seq<
    Seq<SpanView>,
> {
    let content = without_last_break(code.text);
    match code.lang {
        Some(lang) => highlight::shown_code(
            content,
            highlight::colors_of(set, content, lang, theme),
        ),
        None => text::split(content, '\n').map_values(
            |l: Seq<char>| seq![ui::span(l, ui::colored(SemanticColor::Assistant))],
        ),
    }
}

impl RendererView {
    pub open spec fn well_formed(self) -> bool {
        self.styles.len() > 0
    }

    pub open spec fn style(self) -> Style {
        self.styles.last()
    }

    /// The mark of an item goes before its text.
    pub open spec fn marked(self) -> RendererView {
        match self.marker {
            Some(m) => RendererView {
                parts: self.parts.push(part(m, muted_style(), true)),
                marker: None,
                ..self
            },
            None => self,
        }
    }

    /// A text belongs to the link that is being read.
    pub open spec fn told(self, s: Seq<char>) -> RendererView {
        if self.links.len() > 0 {
            let link = self.links.last();
            RendererView {
                links: self.links.update(
                    self.links.len() - 1,
                    LinkView { label: link.label + s, ..link },
                ),
                ..self
            }
        } else {
            self
        }
    }

    pub open spec fn with_text(self, s: Seq<char>, style: Style, atomic: bool) -> RendererView {
        if s.len() == 0 {
            self
        } else {
            let r = self.marked().told(s);
            RendererView { parts: r.parts.push(part(s, style, atomic)), ..r }
        }
    }

    pub open spec fn with_block(self, b: MarkdownBlockView) -> RendererView {
        RendererView { blocks: self.blocks.push(b), ..self }
    }

    /// What was read of a text becomes a block.
    pub open spec fn flushed(self) -> RendererView {
        let r = self.marked();
        if r.parts.len() == 0 {
            r
        } else {
            RendererView {
                blocks: r.blocks.push(text_block(r.parts, r.quote_depth, r.width)),
                parts: Seq::empty(),
                ..r
            }
        }
    }

    pub open spec fn with_style(self, style: Style) -> RendererView {
        RendererView { styles: self.styles.push(style), ..self }
    }

    /// The style before the last one; the first one stays.
    pub open spec fn without_style(self) -> RendererView {
        if self.styles.len() > 1 {
            RendererView { styles: self.styles.drop_last(), ..self }
        } else {
            self
        }
    }

    pub open spec fn link_started(self, url: Seq<char>) -> RendererView {
        RendererView {
            links: self.links.push(LinkView { dest_url: url, label: Seq::empty() }),
            ..self
        }.with_style(link_style())
    }

    pub open spec fn with_table_part(self, p: PartView) -> RendererView {
        let r = self.told(p.text);
        RendererView {
            table: match r.table {
                Some(t) => Some(t.with_part(p)),
                None => None,
            },
            ..r
        }
    }

    /// Behind a link stands where it leads, unless it is called so.
    pub open spec fn link_finished(self) -> RendererView {
        let r = self.without_style();
        if r.links.len() == 0 {
            r
        } else {
            let link = r.links.last();
            let rest = RendererView { links: r.links.drop_last(), ..r };
            let p = part(" "@ + link.dest_url, link_style(), true);
            if tells_its_address(link) {
                rest
            } else if rest.table is Some {
                rest.with_table_part(p)
            } else {
                let m = rest.marked();
                RendererView { parts: m.parts.push(p), ..m }
            }
        }
    }

    /// An item begins with its mark: its number, which the next one is one above, or a dash.
    pub open spec fn item_started(self) -> RendererView {
        let r = self.flushed();
        let indent = text::repeated(' ', (2 * layout::rest_of(r.lists.len() as int, 1)) as nat);
        match (if r.lists.len() > 0 {
            r.lists.last().next_number
        } else {
            None
        }) {
            Some(n) => RendererView {
                lists: r.lists.update(
                    r.lists.len() - 1,
                    ListState {
                        next_number: Some(
                            if n < u64::MAX {
                                (n + 1) as u64
                            } else {
                                n
                            },
                        ),
                    },
                ),
                marker: Some(indent + text::decimal(n as nat) + ". "@),
                ..r
            },
            None => RendererView { marker: Some(indent + "- "@), ..r },
        }
    }

    /// The lines of a code block become blocks.
    pub open spec fn code_finished(self, set: SyntaxSet) -> RendererView {
        match self.code {
            Some(code) => RendererView {
                code: None,
                blocks: self.blocks + block_lines(set, self.theme, code).map_values(
                    |l: Seq<SpanView>| code_block(l, self.width),
                ),
                ..self
            },
            None => self,
        }
    }

    /// The lines of a table become blocks.
    pub open spec fn table_finished(self) -> RendererView {
        match self.table {
            Some(t) => RendererView {
                table: None,
                blocks: self.blocks + table_text(t.rows, self.width).map_values(
                    |l: Seq<SpanView>| MarkdownBlockView::Line(l),
                ),
                ..self
            },
            None => self,
        }
    }
}

impl MarkdownRenderer {
    pub fn new(width: u16, theme: CodeTheme) -> (r: MarkdownRenderer)
        ensures
            r@ == fresh_renderer(width, theme),
            r@.well_formed(),
    {
        let mut style_stack: Vec<Style> = Vec::new();
        style_stack.push(Style::color(SemanticColor::Assistant));
        let r = MarkdownRenderer {
            width,
            theme,
            blocks: Vec::new(),
            parts: Vec::new(),
            style_stack,
            link_stack: Vec::new(),
            quote_depth: 0,
            list_stack: Vec::new(),
            pending_list_marker: None,
            code_block: None,
            table: None,
        };
        proof {
            assert(r@.blocks =~= Seq::empty());
            assert(r@.parts =~= Seq::empty());
            assert(r@.links =~= Seq::empty());
            assert(r@.lists =~= Seq::empty());
            assert(r@.styles =~= seq![ui::colored(SemanticColor::Assistant)]);
        }
        r
    }

    fn current_style(&self) -> (r: Style)
        requires
            self@.well_formed(),
        ensures
            r == self@.style(),
    {
        self.style_stack[self.style_stack.len() - 1]
    }

    fn push_style(&mut self, style: Style)
        ensures
            final(self)@ == old(self)@.with_style(style),
    {
        self.style_stack.push(style);
    }

    fn pop_style(&mut self)
        requires
            old(self)@.well_formed(),
        ensures
            final(self)@ == old(self)@.without_style(),
            final(self)@.well_formed(),
    {
        if self.style_stack.len() > 1 {
            self.style_stack.pop();
        }
    }

    fn push_pending_list_marker(&mut self)
        ensures
            final(self)@ == old(self)@.marked(),
    {
        match self.pending_list_marker.take() {
            Some(marker) => {
                push_text_part(
                    &mut self.parts,
                    StyledTextPart {
                        text: marker,
                        style: Style::color(SemanticColor::Muted),
                        atomic: true,
                    },
                );
            },
            None => {},
        }
    }

    fn record_link_label(&mut self, s: &str)
        ensures
            final(self)@ == old(self)@.told(s@),
    {
        let ghost before = self@;
        match self.link_stack.pop() {
            Some(link) => {
                let mut link = link;
                let ghost first = self.link_stack@;
                let ghost known = link@;
                link.label.append(s);
                self.link_stack.push(link);
                proof {
                    let after = LinkView { label: known.label + s@, ..known };
                    assert(before.links.last() == known);
                    assert(link_views(self.link_stack@) =~= before.links.update(
                        before.links.len() - 1,
                        after,
                    ));
                }
            },
            None => {},
        }
    }

    fn push_styled(&mut self, s: &str, style: Style, atomic: bool)
        ensures
            final(self)@ == old(self)@.with_text(s@, style, atomic),
    {
        if s.is_empty() {
            return;
        }
        self.push_pending_list_marker();
        self.record_link_label(s);
        push_text_part(&mut self.parts, new_part(s, style, atomic));
    }

    fn push_text(&mut self, s: &str)
        requires
            old(self)@.well_formed(),
        ensures
            final(self)@ == old(self)@.with_text(s@, old(self)@.style(), false),
    {
        let style = self.current_style();
        self.push_styled(s, style, false);
    }

    fn flush_parts(&mut self)
        ensures
            final(self)@ == old(self)@.flushed(),
    {
        self.push_pending_list_marker();
        proof {
            assert(self@.parts.len() == self.parts@.len());
        }
        if self.parts.len() == 0 {
            return;
        }
        let mut parts: Vec<StyledTextPart> = Vec::new();
        std::mem::swap(&mut parts, &mut self.parts);
        proof {
            assert(ui::part_views(self.parts@) =~= Seq::empty());
        }
        let block = if self.quote_depth == 0 {
            MarkdownBlock::Wrapped { front: None, parts, width: self.width }
        } else {
            let front = quote_prefix(self.quote_depth);
            let width = beside(self.width, front.as_str());
            MarkdownBlock::Wrapped {
                front: Some(Span::styled(front, strong_style())),
                parts,
                width,
            }
        };
        push_markdown_block(&mut self.blocks, block);
    }

    fn start_link(&mut self, url: &str)
        ensures
            final(self)@ == old(self)@.link_started(url@),
    {
        let ghost before = self.link_stack@;
        let link = LinkState { dest_url: url.to_owned(), label: String::new() };
        let ghost told = link@;
        self.link_stack.push(link);
        proof {
            assert(told.label =~= Seq::empty());
            assert(link_views(self.link_stack@) =~= link_views(before).push(told));
        }
        self.push_style(style_of_link());
    }

    fn push_table_part(&mut self, p: StyledTextPart)
        ensures
            final(self)@ == old(self)@.with_table_part(p@),
    {
        self.record_link_label(p.text.as_str());
        match self.table.take() {
            Some(table) => {
                let mut table = table;
                table.push_part(p);
                self.table = Some(table);
            },
            None => {},
        }
    }

    fn finish_link(&mut self)
        requires
            old(self)@.well_formed(),
        ensures
            final(self)@ == old(self)@.link_finished(),
    {
        self.pop_style();
        let ghost before = self@;
        let link = match self.link_stack.pop() {
            Some(link) => link,
            None => {
                return;
            },
        };
        proof {
            assert(before.links.last() == link@);
            assert(link_views(self.link_stack@) =~= before.links.drop_last());
        }
        if link_url_is_visible_in_label(&link) {
            return;
        }
        let p = StyledTextPart {
            text: text::cat2(" ", link.dest_url.as_str()),
            style: style_of_link(),
            atomic: true,
        };
        if self.table.is_some() {
            self.push_table_part(p);
        } else {
            self.push_pending_list_marker();
            push_text_part(&mut self.parts, p);
        }
    }

    fn start_list_item(&mut self)
        ensures
            final(self)@ == old(self)@.item_started(),
    {
        self.flush_parts();
        let depth: usize = self.list_stack.len().saturating_sub(1);
        let half = text::repeat_char(' ', depth);
        let indent = text::cat2(half.as_str(), half.as_str());
        proof {
            assert(indent@ =~= text::repeated(' ', (2 * depth) as nat));
        }
        let ghost before = self.list_stack@;
        match self.list_stack.pop() {
            Some(list) => match list.next_number {
                Some(n) => {
                    self.list_stack.push(
                        ListState {
                            next_number: Some(
                                if n < u64::MAX {
                                    n + 1
                                } else {
                                    n
                                },
                            ),
                        },
                    );
                    proof {
                        assert(before.last() == list);
                        assert(self.list_stack@ =~= before.update(
                            before.len() - 1,
                            self.list_stack@.last(),
                        ));
                    }
                    self.pending_list_marker = Some(
                        text::cat3(indent.as_str(), text::decimal_text(n).as_str(), ". "),
                    );
                },
                None => {
                    self.list_stack.push(list);
                    proof {
                        assert(before.last() == list);
                        assert(self.list_stack@ =~= before);
                    }
                    self.pending_list_marker = Some(text::cat2(indent.as_str(), "- "));
                },
            },
            None => {
                self.pending_list_marker = Some(text::cat2(indent.as_str(), "- "));
            },
        }
    }
}

/// The language of a code block: the first word behind its fence.
pub open spec fn language(detail: DetailView) -> Option<Seq<char>> {
    match detail {
        DetailView::Language(s) => if words::words(s).len() > 0 {
            Some(words::words(s)[0])
        } else {
            None
        },
        _ => None,
    }
}

pub fn code_block_lang(detail: &TagDetail) -> (r: Option<String>)
    ensures
        crate::plan_model::opt(r) == language(detail@),
{
    match detail {
        TagDetail::Language(s) => {
            let found = words::words_of(s.as_str());
            proof {
                assert(text::views(found@).len() == found@.len());
            }
            if found.len() > 0 {
                proof {
                    assert(text::views(found@)[0] == found@[0]@);
                }
                Some(found[0].clone())
            } else {
                None
            }
        },
        _ => None,
    }
}

/// Where a link or an image leads.
pub open spec fn address(detail: DetailView) -> Seq<char> {
    match detail {
        DetailView::Address(s) => s,
        _ => ""@,
    }
}

fn address_of(detail: &TagDetail) -> (r: &str)
    ensures
        r@ == address(detail@),
{
    match detail {
        TagDetail::Address(s) => s.as_str(),
        _ => "",
    }
}

/// The first number of a list.
pub open spec fn first_number(detail: DetailView) -> Option<u64> {
    match detail {
        DetailView::FirstNumber(n) => n,
        _ => None,
    }
}

pub open spec fn italic(style: Style) -> Style {
    Style { italic: true, ..style }
}

/// The box of a task.
pub open spec fn task_box(checked: bool) -> Seq<char> {
    if checked {
        "[x] "@
    } else {
        "[ ] "@
    }
}

fn box_of_task(checked: bool) -> (r: &'static str)
    ensures
        r@ == task_box(checked),
{
    if checked {
        "[x] "
    } else {
        "[ ] "
    }
}

/// After the start of an element.
pub open spec fn started(r: RendererView, tag: MarkdownTag, detail: DetailView) -> RendererView {
    match tag {
        MarkdownTag::Heading => r.flushed().with_style(focus_style()),
        MarkdownTag::BlockQuote => {
            let f = r.flushed();
            RendererView {
                quote_depth: layout::smaller(f.quote_depth + 1, usize::MAX as int) as usize,
                ..f
            }
        },
        MarkdownTag::CodeBlock => RendererView {
            code: Some(CodeView { lang: language(detail), text: Seq::empty() }),
            ..r.flushed()
        },
        MarkdownTag::List => RendererView {
            lists: r.lists.push(ListState { next_number: first_number(detail) }),
            ..r
        },
        MarkdownTag::Item => r.item_started(),
        MarkdownTag::Emphasis => r.with_style(italic(r.style())),
        MarkdownTag::Strong => r.with_style(focus_style()),
        MarkdownTag::Strikethrough => r.with_style(crossed_style()),
        MarkdownTag::Superscript => r.with_style(r.style()),
        MarkdownTag::Subscript => r.with_style(r.style()),
        MarkdownTag::Link => r.link_started(address(detail)),
        MarkdownTag::Image => r.with_text("[image: "@, r.style(), false).with_text(
            address(detail),
            r.style(),
            false,
        ).with_text("]"@, r.style(), false),
        MarkdownTag::Table => RendererView { table: Some(no_table()), ..r.flushed() },
        _ => r,
    }
}

/// After the end of an element.
pub open spec fn ended(r: RendererView, tag: MarkdownTag) -> RendererView {
    match tag {
        MarkdownTag::Paragraph => r.flushed(),
        MarkdownTag::BlockQuote => {
            let f = r.flushed();
            RendererView { quote_depth: layout::rest_of(f.quote_depth as int, 1) as usize, ..f }
        },
        MarkdownTag::Heading => r.flushed().without_style(),
        MarkdownTag::List => {
            let f = r.flushed();
            RendererView {
                lists: if f.lists.len() > 0 {
                    f.lists.drop_last()
                } else {
                    f.lists
                },
                ..f
            }
        },
        MarkdownTag::Item => r.flushed(),
        MarkdownTag::Emphasis => r.without_style(),
        MarkdownTag::Strong => r.without_style(),
        MarkdownTag::Strikethrough => r.without_style(),
        MarkdownTag::Superscript => r.without_style(),
        MarkdownTag::Subscript => r.without_style(),
        MarkdownTag::Link => r.link_finished(),
        _ => r,
    }
}

/// After a piece within a code block: its texts are code as they stand.
pub open spec fn in_code(r: RendererView, e: EventView, set: SyntaxSet) -> RendererView {
    match e {
        EventView::End(MarkdownTag::CodeBlock) => r.code_finished(set),
        EventView::Text(s) => r.with_code(s),
        EventView::Code(s) => r.with_code(s),
        EventView::Html(s) => r.with_code(s),
        EventView::InlineHtml(s) => r.with_code(s),
        EventView::InlineMath(s) => r.with_code(s),
        EventView::DisplayMath(s) => r.with_code(s),
        EventView::SoftBreak => r.with_code(seq!['\n']),
        EventView::HardBreak => r.with_code(seq!['\n']),
        _ => r,
    }
}

impl RendererView {
    pub open spec fn with_code(self, s: Seq<char>) -> RendererView {
        match self.code {
            Some(code) => RendererView {
                code: Some(CodeView { text: code.text + s, ..code }),
                ..self
            },
            None => self,
        }
    }

    /// With the table as it is after one of its pieces.
    pub open spec fn with_table(self, t: TableView) -> RendererView {
        RendererView { table: Some(t), ..self }
    }
}

/// After a piece within a table.
pub open spec fn in_table(r: RendererView, t: TableView, e: EventView) -> RendererView {
    match e {
        EventView::End(MarkdownTag::Table) => r.table_finished(),
        EventView::Start(MarkdownTag::TableHead, _) => r.with_table(
            TableView { in_head: true, ..t }.row_started(),
        ),
        EventView::End(MarkdownTag::TableHead) => r.with_table(
            TableView { in_head: false, ..t.row_finished() },
        ),
        EventView::Start(MarkdownTag::TableRow, _) => r.with_table(t.row_started()),
        EventView::End(MarkdownTag::TableRow) => r.with_table(t.row_finished()),
        EventView::Start(MarkdownTag::TableCell, _) => r.with_table(t.cell_started()),
        EventView::End(MarkdownTag::TableCell) => r.with_table(t.cell_finished()),
        EventView::Start(MarkdownTag::Strong, _) => r.with_style(focus_style()),
        EventView::End(MarkdownTag::Strong) => r.without_style(),
        EventView::Start(MarkdownTag::Emphasis, _) => r.with_style(italic(r.style())),
        EventView::End(MarkdownTag::Emphasis) => r.without_style(),
        EventView::Start(MarkdownTag::Strikethrough, _) => r.with_style(crossed_style()),
        EventView::End(MarkdownTag::Strikethrough) => r.without_style(),
        EventView::Start(MarkdownTag::Link, detail) => r.link_started(address(detail)),
        EventView::End(MarkdownTag::Link) => r.link_finished(),
        EventView::Text(s) => r.with_table_part(part(s, r.style(), false)),
        EventView::Html(s) => r.with_table_part(part(s, r.style(), false)),
        EventView::InlineHtml(s) => r.with_table_part(part(s, r.style(), false)),
        EventView::InlineMath(s) => r.with_table_part(part(s, r.style(), false)),
        EventView::DisplayMath(s) => r.with_table_part(part(s, r.style(), false)),
        EventView::Code(s) => r.with_table_part(part(" "@ + s + " "@, focus_style(), true)),
        EventView::SoftBreak => r.with_table_part(part(" "@, r.style(), false)),
        EventView::HardBreak => r.with_table_part(part(" "@, r.style(), false)),
        EventView::TaskListMarker(checked) => r.with_table_part(
            part(task_box(checked), r.style(), false),
        ),
        EventView::FootnoteReference(s) => r.with_table_part(part(s, r.style(), false)),
        _ => r,
    }
}

/// The line that parts a document.
pub open spec fn rule_line(width: u16) -> Seq<SpanView> {
    seq![
        ui::span(
            text::repeated('-', layout::larger(width as int, 1) as nat),
            muted_style(),
        ),
    ]
}

/// After a piece of the document.
pub open spec fn step(r: RendererView, e: EventView, set: SyntaxSet) -> RendererView {
    if r.code is Some {
        in_code(r, e, set)
    } else if r.table is Some && !(e matches EventView::Start(MarkdownTag::Table, _)) {
        in_table(r, r.table->0, e)
    } else {
        match e {
            EventView::Start(tag, detail) => started(r, tag, detail),
            EventView::End(tag) => ended(r, tag),
            EventView::Text(s) => r.with_text(s, r.style(), false),
            EventView::Html(s) => r.with_text(s, r.style(), false),
            EventView::InlineHtml(s) => r.with_text(s, r.style(), false),
            EventView::InlineMath(s) => r.with_text(s, r.style(), false),
            EventView::DisplayMath(s) => r.with_text(s, r.style(), false),
            EventView::FootnoteReference(s) => r.with_text(s, r.style(), false),
            EventView::Code(s) => r.with_text(" "@ + s + " "@, focus_style(), true),
            EventView::SoftBreak => r.flushed(),
            EventView::HardBreak => r.flushed(),
            EventView::Rule => r.flushed().with_block(
                MarkdownBlockView::Line(rule_line(r.width)),
            ),
            EventView::TaskListMarker(checked) => r.with_text(
                task_box(checked),
                r.style(),
                false,
            ),
        }
    }
}

/// After the first `n` pieces of a document.
pub open spec fn rendered(
    events: Seq<EventView>,
    n: int,
    width: u16,
    theme: CodeTheme,
    set: SyntaxSet,
) -> RendererView
    decreases n,
{
    if n <= 0 {
        fresh_renderer(width, theme)
    } else {
        step(rendered(events, n - 1, width, theme, set), events[n - 1], set)
    }
}

/// The rendered document; an empty line where nothing came of it.
pub open spec fn finished(r: RendererView) -> Seq<MarkdownBlockView> {
    let f = r.flushed();
    if f.blocks.len() == 0 {
        seq![MarkdownBlockView::Line(Seq::empty())]
    } else {
        f.blocks
    }
}

/// Whether a renderer still has a style and all of its blocks.
pub open spec fn goes_on(r: RendererView, after: RendererView) -> bool {
    &&& r.styles.len() > 0 ==> after.styles.len() > 0
    &&& r.blocks.is_prefix_of(after.blocks)
}

proof fn lemma_flushed_goes_on(r: RendererView)
    ensures
        r.flushed().styles == r.styles,
        r.blocks.is_prefix_of(r.flushed().blocks),
        r.marked().styles == r.styles,
        r.marked().blocks == r.blocks,
{
    assert(r.blocks =~= r.flushed().blocks.take(r.blocks.len() as int));
}

proof fn lemma_texts_go_on(r: RendererView, s: Seq<char>, style: Style, atomic: bool)
    ensures
        r.with_text(s, style, atomic).styles == r.styles,
        r.with_text(s, style, atomic).blocks == r.blocks,
{
}

proof fn lemma_link_goes_on(r: RendererView)
    ensures
        goes_on(r, r.link_finished()),
{
    assert(r.blocks =~= r.link_finished().blocks);
}

proof fn lemma_code_goes_on(r: RendererView, e: EventView, set: SyntaxSet)
    ensures
        goes_on(r, in_code(r, e, set)),
{
    assert(r.blocks =~= in_code(r, e, set).blocks.take(r.blocks.len() as int));
}

#[verifier::rlimit(50)]
proof fn lemma_table_goes_on(r: RendererView, t: TableView, e: EventView)
    requires
        r.table == Some(t),
    ensures
        goes_on(r, in_table(r, t, e)),
{
    lemma_link_goes_on(r);
    match e {
        EventView::End(MarkdownTag::Table) => {
            assert(r.blocks =~= r.table_finished().blocks.take(r.blocks.len() as int));
        },
        EventView::End(MarkdownTag::Link) => {},
        _ => {
            assert(in_table(r, t, e).blocks =~= r.blocks);
        },
    }
}

#[verifier::rlimit(50)]
proof fn lemma_start_goes_on(r: RendererView, tag: MarkdownTag, detail: DetailView)
    ensures
        goes_on(r, started(r, tag, detail)),
{
    lemma_flushed_goes_on(r);
    let open = r.with_text("[image: "@, r.style(), false);
    lemma_texts_go_on(r, "[image: "@, r.style(), false);
    lemma_texts_go_on(open, address(detail), r.style(), false);
    lemma_texts_go_on(open.with_text(address(detail), r.style(), false), "]"@, r.style(), false);
    match tag {
        MarkdownTag::Heading => {},
        MarkdownTag::BlockQuote => {},
        MarkdownTag::CodeBlock => {},
        MarkdownTag::Item => {
            assert(r.item_started().blocks == r.flushed().blocks);
        },
        MarkdownTag::Table => {},
        _ => {
            assert(started(r, tag, detail).blocks =~= r.blocks);
        },
    }
}

#[verifier::rlimit(50)]
proof fn lemma_end_goes_on(r: RendererView, tag: MarkdownTag)
    ensures
        goes_on(r, ended(r, tag)),
{
    lemma_flushed_goes_on(r);
    lemma_link_goes_on(r);
    match tag {
        MarkdownTag::Emphasis => {
            assert(r.without_style().blocks =~= r.blocks);
        },
        _ => {},
    }
    assert(r.blocks =~= r.blocks.take(r.blocks.len() as int));
}

/// A style is there for every text after whatever pieces, and what was rendered stays as it
/// is.
pub proof fn rendering_goes_on(r: RendererView, e: EventView, set: SyntaxSet)
    requires
        r.well_formed(),
    ensures
        step(r, e, set).well_formed(),
        r.blocks.is_prefix_of(step(r, e, set).blocks),
{
    if r.code is Some {
        lemma_code_goes_on(r, e, set);
    } else if r.table is Some && !(e matches EventView::Start(MarkdownTag::Table, _)) {
        lemma_table_goes_on(r, r.table->0, e);
    } else {
        lemma_flushed_goes_on(r);
        match e {
            EventView::Start(tag, detail) => lemma_start_goes_on(r, tag, detail),
            EventView::End(tag) => lemma_end_goes_on(r, tag),
            EventView::Rule => {
                assert(r.blocks =~= step(r, e, set).blocks.take(r.blocks.len() as int));
            },
            EventView::SoftBreak => {},
            EventView::HardBreak => {},
            _ => {
                assert(r.blocks =~= step(r, e, set).blocks.take(r.blocks.len() as int));
            },
        }
    }
}

/// A code block is taken as it stands: its texts, one after the other.
pub proof fn code_is_taken_as_it_stands(
    r: RendererView,
    a: Seq<char>,
    b: Seq<char>,
    code: CodeView,
    set: SyntaxSet,
)
    requires
        r.code == Some(code),
    ensures
        step(step(r, EventView::Text(a), set), EventView::Text(b), set).code == Some(
            (CodeView { text: code.text + a + b, ..code }),
        ),
        step(step(r, EventView::Text(a), set), EventView::Text(b), set).blocks == r.blocks,
{
}

/// The items of a list are numbered one after the other.
pub proof fn items_are_numbered_in_turn(r: RendererView, n: u64)
    requires
        r.lists.len() > 0,
        r.lists.last().next_number == Some(n),
        n < u64::MAX,
    ensures
        r.item_started().lists.last().next_number == Some((n + 1) as u64),
        r.item_started().lists.len() == r.lists.len(),
{
}

/// A quotation that ends leaves the depth as it was before it.
pub proof fn quotations_end_where_they_began(r: RendererView, detail: DetailView)
    requires
        r.quote_depth < usize::MAX,
    ensures
        ended(started(r, MarkdownTag::BlockQuote, detail), MarkdownTag::BlockQuote).quote_depth
            == r.quote_depth,
{
}

/// Emphasis, strong text and struck text end with the style that was before them.
pub proof fn styles_end_where_they_began(r: RendererView, tag: MarkdownTag, detail: DetailView)
    requires
        r.well_formed(),
        tag == MarkdownTag::Emphasis || tag == MarkdownTag::Strong || tag
            == MarkdownTag::Strikethrough,
    ensures
        ended(started(r, tag, detail), tag) == r,
{
    assert(ended(started(r, tag, detail), tag).styles =~= r.styles);
}

impl MarkdownRenderer {
    fn start_tag(&mut self, tag: MarkdownTag, detail: &TagDetail)
        requires
            old(self)@.well_formed(),
        ensures
            final(self)@ == started(old(self)@, tag, detail@),
    {
        match tag {
            MarkdownTag::Heading => {
                self.flush_parts();
                self.push_style(strong_style());
            },
            MarkdownTag::BlockQuote => {
                self.flush_parts();
                self.quote_depth = self.quote_depth.saturating_add(1);
            },
            MarkdownTag::CodeBlock => {
                self.flush_parts();
                let block = CodeBlockState { lang: code_block_lang(detail), text: String::new() };
                proof {
                    assert(block.text@ =~= Seq::empty());
                }
                self.code_block = Some(block);
            },
            MarkdownTag::List => {
                let next_number = match detail {
                    TagDetail::FirstNumber(n) => *n,
                    _ => None,
                };
                self.list_stack.push(ListState { next_number });
            },
            MarkdownTag::Item => self.start_list_item(),
            MarkdownTag::Emphasis => {
                let mut style = self.current_style();
                style.italic = true;
                self.push_style(style);
            },
            MarkdownTag::Strong => self.push_style(strong_style()),
            MarkdownTag::Strikethrough => self.push_style(strikethrough_style()),
            MarkdownTag::Superscript | MarkdownTag::Subscript => {
                let style = self.current_style();
                self.push_style(style);
            },
            MarkdownTag::Link => self.start_link(address_of(detail)),
            MarkdownTag::Image => {
                self.push_text("[image: ");
                self.push_text(address_of(detail));
                self.push_text("]");
            },
            MarkdownTag::Table => {
                self.flush_parts();
                self.table = Some(TableState::new());
            },
            _ => {},
        }
    }

    fn end_tag(&mut self, tag: MarkdownTag)
        requires
            old(self)@.well_formed(),
        ensures
            final(self)@ == ended(old(self)@, tag),
    {
        match tag {
            MarkdownTag::Paragraph | MarkdownTag::Item => self.flush_parts(),
            MarkdownTag::BlockQuote => {
                self.flush_parts();
                self.quote_depth = self.quote_depth.saturating_sub(1);
            },
            MarkdownTag::Heading => {
                self.flush_parts();
                self.pop_style();
            },
            MarkdownTag::List => {
                self.flush_parts();
                self.list_stack.pop();
            },
            MarkdownTag::Emphasis
            | MarkdownTag::Strong
            | MarkdownTag::Strikethrough
            | MarkdownTag::Superscript
            | MarkdownTag::Subscript => self.pop_style(),
            MarkdownTag::Link => self.finish_link(),
            _ => {},
        }
    }

    fn append_code(&mut self, s: &str)
        ensures
            final(self)@ == old(self)@.with_code(s@),
    {
        match self.code_block.take() {
            Some(block) => {
                let mut block = block;
                block.text.append(s);
                self.code_block = Some(block);
            },
            None => {},
        }
    }

    fn flush_code_block(&mut self, highlighter: &CodeHighlighter)
        ensures
            final(self)@ == old(self)@.code_finished(highlighter.set()),
    {
        let ghost before = self@;
        let ghost set = highlighter.set();
        let block = match self.code_block.take() {
            Some(block) => block,
            None => {
                return;
            },
        };
        let chars = text::chars_of(block.text.as_str());
        let content = if chars.len() > 0 && chars[chars.len() - 1] == '\n' {
            text::text_of(&chars, 0, chars.len() - 1)
        } else {
            block.text.clone()
        };
        proof {
            assert(content@ =~= without_last_break(block.text@));
        }
        let lines = match &block.lang {
            Some(lang) => highlighter.lines(content.as_str(), lang.as_str(), self.theme),
            None => plain_block_lines(content.as_str()),
        };
        let ghost all = block_lines(
            set,
            before.theme,
            CodeView { lang: crate::plan_model::opt(block.lang), text: block.text@ },
        );
        let ghost told = all.map_values(|l: Seq<SpanView>| code_block(l, before.width));
        proof {
            assert(ui::line_views(lines@) == all);
            assert(before.blocks + told.take(0) =~= before.blocks);
        }
        let mut i: usize = 0;
        while i < lines.len()
            invariant
                i <= lines@.len(),
                ui::line_views(lines@) == all,
                told == all.map_values(|l: Seq<SpanView>| code_block(l, before.width)),
                self@ == (RendererView {
                    code: None,
                    blocks: before.blocks + told.take(i as int),
                    ..before
                }),
            decreases lines@.len() - i,
        {
            proof {
                assert(all[i as int] == lines@[i as int]@);
            }
            let b = block_of_code(&lines[i], self.width);
            push_markdown_block(&mut self.blocks, b);
            proof {
                assert(before.blocks + told.take(i + 1) =~= (before.blocks + told.take(
                    i as int,
                )).push(told[i as int]));
            }
            i = i + 1;
        }
        proof {
            assert(all.len() == lines@.len());
            assert(told.take(i as int) =~= told);
        }
    }

    fn flush_table(&mut self)
        ensures
            final(self)@ == old(self)@.table_finished(),
    {
        let ghost before = self@;
        let table = match self.table.take() {
            Some(table) => table,
            None => {
                return;
            },
        };
        let mut lines = table_lines(&table.rows, self.width);
        let ghost all = ui::line_views(lines@);
        let ghost told = all.map_values(|l: Seq<SpanView>| MarkdownBlockView::Line(l));
        proof {
            assert(before.blocks + told.take(0) =~= before.blocks);
        }
        let mut i: usize = 0;
        while i < lines.len()
            invariant
                i <= lines@.len(),
                ui::line_views(lines@) == all,
                told == all.map_values(|l: Seq<SpanView>| MarkdownBlockView::Line(l)),
                self@ == (RendererView {
                    table: None,
                    blocks: before.blocks + told.take(i as int),
                    ..before
                }),
            decreases lines@.len() - i,
        {
            proof {
                assert(all[i as int] == lines@[i as int]@);
            }
            push_markdown_block(&mut self.blocks, MarkdownBlock::Line(lines[i].clone()));
            proof {
                assert(before.blocks + told.take(i + 1) =~= (before.blocks + told.take(
                    i as int,
                )).push(told[i as int]));
            }
            i = i + 1;
        }
        proof {
            assert(all.len() == lines@.len());
            assert(told.take(i as int) =~= told);
        }
    }

    fn push_code_block_event(&mut self, event: &MarkdownEvent, highlighter: &CodeHighlighter)
        ensures
            final(self)@ == in_code(old(self)@, event@, highlighter.set()),
    {
        match event {
            MarkdownEvent::End(MarkdownTag::CodeBlock) => self.flush_code_block(highlighter),
            MarkdownEvent::Text(s)
            | MarkdownEvent::Code(s)
            | MarkdownEvent::Html(s)
            | MarkdownEvent::InlineHtml(s)
            | MarkdownEvent::InlineMath(s)
            | MarkdownEvent::DisplayMath(s) => self.append_code(s.as_str()),
            MarkdownEvent::SoftBreak | MarkdownEvent::HardBreak => {
                proof {
                    reveal_strlit("\n");
                    assert("\n"@ =~= seq!['\n']);
                }
                self.append_code("\n");
            },
            _ => {},
        }
    }

    /// Changes the table that is being read.
    fn replace_table(&mut self, table: TableState)
        ensures
            final(self)@ == old(self)@.with_table(table@),
    {
        self.table = Some(table);
    }

    fn push_plain_table_part(&mut self, s: &str)
        requires
            old(self)@.well_formed(),
        ensures
            final(self)@ == old(self)@.with_table_part(part(s@, old(self)@.style(), false)),
    {
        let style = self.current_style();
        self.push_table_part(new_part(s, style, false));
    }

    fn push_table_event(&mut self, event: &MarkdownEvent)
        requires
            old(self)@.well_formed(),
            old(self)@.table is Some,
        ensures
            final(self)@ == in_table(old(self)@, old(self)@.table->0, event@),
    {
        match event {
            MarkdownEvent::End(MarkdownTag::Table) => {
                self.flush_table();
                return;
            },
            MarkdownEvent::Start(MarkdownTag::Strong, _) => self.push_style(strong_style()),
            MarkdownEvent::End(MarkdownTag::Strong)
            | MarkdownEvent::End(MarkdownTag::Emphasis)
            | MarkdownEvent::End(MarkdownTag::Strikethrough) => self.pop_style(),
            MarkdownEvent::Start(MarkdownTag::Emphasis, _) => {
                let mut style = self.current_style();
                style.italic = true;
                self.push_style(style);
            },
            MarkdownEvent::Start(MarkdownTag::Strikethrough, _) => self.push_style(
                strikethrough_style(),
            ),
            MarkdownEvent::Start(MarkdownTag::Link, detail) => self.start_link(address_of(detail)),
            MarkdownEvent::End(MarkdownTag::Link) => self.finish_link(),
            MarkdownEvent::Text(s)
            | MarkdownEvent::Html(s)
            | MarkdownEvent::InlineHtml(s)
            | MarkdownEvent::InlineMath(s)
            | MarkdownEvent::DisplayMath(s)
            | MarkdownEvent::FootnoteReference(s) => self.push_plain_table_part(s.as_str()),
            MarkdownEvent::Code(s) => {
                let code = text::cat3(" ", s.as_str(), " ");
                self.push_table_part(new_part(code.as_str(), strong_style(), true));
            },
            MarkdownEvent::SoftBreak | MarkdownEvent::HardBreak => self.push_plain_table_part(" "),
            MarkdownEvent::TaskListMarker(checked) => self.push_plain_table_part(
                box_of_task(*checked),
            ),
            _ => {
                let mut table = match self.table.take() {
                    Some(table) => table,
                    None => TableState::new(),
                };
                table_event(&mut table, event);
                self.replace_table(table);
            },
        }
    }

    /// Takes in a piece of the document.
    pub fn push_event(&mut self, event: &MarkdownEvent, highlighter: &CodeHighlighter)
        requires
            old(self)@.well_formed(),
        ensures
            final(self)@ == step(old(self)@, event@, highlighter.set()),
            final(self)@.well_formed(),
    {
        proof {
            rendering_goes_on(self@, event@, highlighter.set());
        }
        if self.code_block.is_some() {
            self.push_code_block_event(event, highlighter);
            return;
        }
        let new_table = match event {
            MarkdownEvent::Start(MarkdownTag::Table, _) => true,
            _ => false,
        };
        if self.table.is_some() && !new_table {
            self.push_table_event(event);
            return;
        }
        match event {
            MarkdownEvent::Start(tag, detail) => self.start_tag(*tag, detail),
            MarkdownEvent::End(tag) => self.end_tag(*tag),
            MarkdownEvent::Text(s)
            | MarkdownEvent::Html(s)
            | MarkdownEvent::InlineHtml(s)
            | MarkdownEvent::InlineMath(s)
            | MarkdownEvent::DisplayMath(s)
            | MarkdownEvent::FootnoteReference(s) => self.push_text(s.as_str()),
            MarkdownEvent::Code(s) => {
                let code = text::cat3(" ", s.as_str(), " ");
                self.push_styled(code.as_str(), strong_style(), true);
            },
            MarkdownEvent::SoftBreak | MarkdownEvent::HardBreak => self.flush_parts(),
            MarkdownEvent::Rule => {
                self.flush_parts();
                let width: usize = if self.width > 1 {
                    self.width as usize
                } else {
                    1
                };
                let line = Line::one(
                    Span::styled(text::repeat_char('-', width), Style::color(SemanticColor::Muted)),
                );
                push_markdown_block(&mut self.blocks, MarkdownBlock::Line(line));
            },
            MarkdownEvent::TaskListMarker(checked) => self.push_text(box_of_task(*checked)),
        }
    }

    /// The rendered document.
    pub fn finish(self) -> (r: Vec<MarkdownBlock>)
        ensures
            markdown_blocks(r@) == finished(self@),
    {
        let mut renderer = self;
        renderer.flush_parts();
        proof {
            assert(markdown_blocks(renderer.blocks@).len() == renderer.blocks@.len());
        }
        if renderer.blocks.len() == 0 {
            let line = Line::empty();
            renderer.blocks.push(MarkdownBlock::Line(line));
            proof {
                assert(markdown_blocks(renderer.blocks@) =~= seq![
                    MarkdownBlockView::Line(Seq::empty()),
                ]);
            }
        }
        renderer.blocks
    }
}

/// The pieces of a table that change it alone.
fn table_event(table: &mut TableState, event: &MarkdownEvent)
    ensures
        final(table)@ == (match event@ {
            EventView::Start(MarkdownTag::TableHead, _) => (TableView {
                in_head: true,
                ..old(table)@
            }).row_started(),
            EventView::End(MarkdownTag::TableHead) => (TableView {
                in_head: false,
                ..old(table)@.row_finished()
            }),
            EventView::Start(MarkdownTag::TableRow, _) => old(table)@.row_started(),
            EventView::End(MarkdownTag::TableRow) => old(table)@.row_finished(),
            EventView::Start(MarkdownTag::TableCell, _) => old(table)@.cell_started(),
            EventView::End(MarkdownTag::TableCell) => old(table)@.cell_finished(),
            _ => old(table)@,
        }),
{
    match event {
        MarkdownEvent::Start(MarkdownTag::TableHead, _) => {
            table.in_head = true;
            table.start_row();
        },
        MarkdownEvent::End(MarkdownTag::TableHead) => {
            table.finish_row();
            table.in_head = false;
        },
        MarkdownEvent::Start(MarkdownTag::TableRow, _) => table.start_row(),
        MarkdownEvent::End(MarkdownTag::TableRow) => table.finish_row(),
        MarkdownEvent::Start(MarkdownTag::TableCell, _) => table.start_cell(),
        MarkdownEvent::End(MarkdownTag::TableCell) => table.finish_cell(),
        _ => {},
    }
}

/// The lines of code in no language.
fn plain_block_lines(code: &str) -> (r: Vec<Line>)
    ensures
        ui::line_views(r@) == text::split(code@, '\n').map_values(
            |l: Seq<char>| seq![ui::span(l, ui::colored(SemanticColor::Assistant))],
        ),
{
    let parts = text::split_text(code, '\n');
    let ghost all = text::split(code@, '\n');
    let mut r: Vec<Line> = Vec::new();
    let mut i: usize = 0;
    while i < parts.len()
        invariant
            i <= parts@.len(),
            text::views(parts@) == all,
            r@.len() == i,
            forall|k: int|
                0 <= k < i ==> (#[trigger] r@[k])@ == seq![
                    ui::span(all[k], ui::colored(SemanticColor::Assistant)),
                ],
        decreases parts@.len() - i,
    {
        proof {
            assert(all[i as int] == parts@[i as int]@);
        }
        r.push(
            Line::one(Span::of(parts[i].as_str(), Style::color(SemanticColor::Assistant))),
        );
        i = i + 1;
    }
    proof {
        assert(all.len() == parts@.len());
        assert(ui::line_views(r@) =~= all.map_values(
            |l: Seq<char>| seq![ui::span(l, ui::colored(SemanticColor::Assistant))],
        ));
    }
    r
}

/// Renders the pieces of a document.
pub fn render_events(
    events: &Vec<MarkdownEvent>,
    width: u16,
    theme: CodeTheme,
    highlighter: &CodeHighlighter,
) -> (r: Vec<MarkdownBlock>)
    ensures
        markdown_blocks(r@) == finished(
            rendered(
                event_views(events@),
                events@.len() as int,
                width,
                theme,
                highlighter.set(),
            ),
        ),
{
    let ghost all = event_views(events@);
    let mut renderer = MarkdownRenderer::new(width, theme);
    let mut i: usize = 0;
    while i < events.len()
        invariant
            i <= events@.len(),
            all == event_views(events@),
            renderer@ == rendered(all, i as int, width, theme, highlighter.set()),
            renderer@.well_formed(),
        decreases events@.len() - i,
    {
        proof {
            assert(all[i as int] == events@[i as int]@);
        }
        renderer.push_event(&events[i], highlighter);
        i = i + 1;
    }
    renderer.finish()
}

pub fn markdown_lines(
    markdown: &str,
    width: u16,
    theme: CodeTheme,
    highlighter: &CodeHighlighter,
) -> (r: Vec<MarkdownBlock>)
    ensures
        ({
            let events = document_events(markdown@);
            markdown_blocks(r@) == finished(
                rendered(events, events.len() as int, width, theme, highlighter.set()),
            )
        }),
{
    let events = markdown_events(markdown);
    proof {
        assert(event_views(events@).len() == events@.len());
    }
    render_events(&events, width, theme, highlighter)
}

/// The text of some parts, one behind the other.
pub open spec fn parts_text(parts: Seq<PartView>) -> Seq<char>
    decreases parts.len(),
{
    if parts.len() == 0 {
        Seq::empty()
    } else {
        parts_text(parts.drop_last()) + parts.last().text
    }
}

/// The text of a line.
pub open spec fn spans_text(line: Seq<SpanView>) -> Seq<char>
    decreases line.len(),
{
    if line.len() == 0 {
        Seq::empty()
    } else {
        spans_text(line.drop_last()) + line.last().content
    }
}

/// The text of a block; what stands before its lines does not belong to it.
pub open spec fn block_text(b: MarkdownBlockView) -> Seq<char> {
    match b {
        MarkdownBlockView::Line(line) => spans_text(line),
        MarkdownBlockView::Wrapped { front: _, parts, width: _ } => parts_text(parts),
        MarkdownBlockView::Code { parts, width: _ } => parts_text(parts),
    }
}

/// The text of some blocks, one behind the other.
pub open spec fn blocks_text(blocks: Seq<MarkdownBlockView>) -> Seq<char>
    decreases blocks.len(),
{
    if blocks.len() == 0 {
        Seq::empty()
    } else {
        blocks_text(blocks.drop_last()) + block_text(blocks.last())
    }
}

/// All text that a renderer holds: that of its blocks, and that of the parts that make none
/// yet.
pub open spec fn text_so_far(r: RendererView) -> Seq<char> {
    blocks_text(r.blocks) + parts_text(r.parts)
}

/// While code or a table is read, no text waits for its block.
pub open spec fn nothing_waits_inside(r: RendererView) -> bool {
    r.code is Some || r.table is Some ==> r.parts.len() == 0
}

proof fn lemma_part_behind(parts: Seq<PartView>, p: PartView)
    ensures
        parts_text(parts.push(p)) == parts_text(parts) + p.text,
{
    assert(parts.push(p).drop_last() =~= parts);
}

proof fn lemma_block_behind(blocks: Seq<MarkdownBlockView>, b: MarkdownBlockView)
    ensures
        blocks_text(blocks.push(b)) == blocks_text(blocks) + block_text(b),
{
    assert(blocks.push(b).drop_last() =~= blocks);
}

proof fn lemma_blocks_behind(blocks: Seq<MarkdownBlockView>, more: Seq<MarkdownBlockView>)
    ensures
        blocks_text(blocks + more) == blocks_text(blocks) + blocks_text(more),
    decreases more.len(),
{
    if more.len() == 0 {
        assert(blocks + more =~= blocks);
        assert(blocks_text(blocks) + blocks_text(more) =~= blocks_text(blocks));
    } else {
        lemma_blocks_behind(blocks, more.drop_last());
        assert((blocks + more).drop_last() =~= blocks + more.drop_last());
        assert(blocks_text(blocks + more) =~= blocks_text(blocks) + blocks_text(more));
    }
}

/// The mark that stands before the next text, if any.
pub open spec fn waiting_mark(r: RendererView) -> Seq<char> {
    match r.marker {
        Some(m) => m,
        None => Seq::empty(),
    }
}

proof fn lemma_marked_text(r: RendererView)
    ensures
        text_so_far(r.marked()) == text_so_far(r) + waiting_mark(r),
        r.marked().code == r.code,
        r.marked().table == r.table,
{
    if r.marker is Some {
        lemma_part_behind(r.parts, part(r.marker->0, muted_style(), true));
    }
    assert(text_so_far(r.marked()) =~= text_so_far(r) + waiting_mark(r));
}

proof fn lemma_with_text(r: RendererView, s: Seq<char>, style: Style, atomic: bool)
    ensures
        s.len() > 0 ==> text_so_far(r.with_text(s, style, atomic)) == text_so_far(r)
            + waiting_mark(r) + s,
        s.len() == 0 ==> r.with_text(s, style, atomic) == r,
        r.with_text(s, style, atomic).code == r.code,
        r.with_text(s, style, atomic).table == r.table,
{
    if s.len() > 0 {
        lemma_marked_text(r);
        let m = r.marked().told(s);
        assert(m.parts == r.marked().parts);
        assert(m.blocks == r.marked().blocks);
        lemma_part_behind(m.parts, part(s, style, atomic));
        assert(text_so_far(r.with_text(s, style, atomic)) =~= text_so_far(r) + waiting_mark(r) + s);
    }
}

proof fn lemma_flushed_text(r: RendererView)
    ensures
        text_so_far(r.flushed()) == text_so_far(r) + waiting_mark(r),
        r.flushed().parts.len() == 0,
        r.flushed().code == r.code,
        r.flushed().table == r.table,
        r.flushed().marker is None,
{
    lemma_marked_text(r);
    let m = r.marked();
    if m.parts.len() > 0 {
        lemma_block_behind(m.blocks, text_block(m.parts, m.quote_depth, m.width));
        assert(block_text(text_block(m.parts, m.quote_depth, m.width)) == parts_text(m.parts));
        assert(text_so_far(r.flushed()) =~= text_so_far(m));
    }
}

proof fn lemma_link_finished_text(r: RendererView)
    requires
        nothing_waits_inside(r),
        r.code is None,
    ensures
        text_so_far(r).is_prefix_of(text_so_far(r.link_finished())),
        nothing_waits_inside(r.link_finished()),
{
    let w = r.without_style();
    assert(text_so_far(w) == text_so_far(r));
    if w.links.len() > 0 {
        let link = w.links.last();
        let rest = RendererView { links: w.links.drop_last(), ..w };
        let p = part(" "@ + link.dest_url, link_style(), true);
        assert(text_so_far(rest) == text_so_far(r));
        if !tells_its_address(link) && rest.table is None {
            lemma_marked_text(rest);
            let m = rest.marked();
            lemma_part_behind(m.parts, p);
            assert(r.link_finished() == (RendererView { parts: m.parts.push(p), ..m }));
            assert(text_so_far(r.link_finished()) =~= text_so_far(m) + p.text);
            assert(text_so_far(r.link_finished()) =~= text_so_far(r) + (waiting_mark(rest)
                + p.text));
            lemma_prefix(text_so_far(r), waiting_mark(rest) + p.text);
        } else {
            assert(text_so_far(r.link_finished()) == text_so_far(r));
            lemma_prefix(text_so_far(r), Seq::empty());
            assert(text_so_far(r) + Seq::<char>::empty() =~= text_so_far(r));
        }
    } else {
        lemma_prefix(text_so_far(r), Seq::empty());
        assert(text_so_far(r) + Seq::<char>::empty() =~= text_so_far(r));
    }
}

proof fn lemma_prefix(a: Seq<char>, b: Seq<char>)
    ensures
        a.is_prefix_of(a + b),
{
    assert(a =~= (a + b).subrange(0, a.len() as int));
}

proof fn lemma_prefix_of_same(a: Seq<char>)
    ensures
        a.is_prefix_of(a),
{
    assert(a =~= a.subrange(0, a.len() as int));
}

proof fn lemma_prefix_chain(a: Seq<char>, b: Seq<char>, c: Seq<char>)
    requires
        a.is_prefix_of(b),
        b.is_prefix_of(c),
    ensures
        a.is_prefix_of(c),
{
    assert(a =~= c.subrange(0, a.len() as int)) by {
        assert(b == c.subrange(0, b.len() as int));
        assert(a == b.subrange(0, a.len() as int));
    }
}

proof fn lemma_started_text(r: RendererView, tag: MarkdownTag, detail: DetailView)
    requires
        nothing_waits_inside(r),
        r.code is None,
        r.table is None || tag == MarkdownTag::Table,
    ensures
        text_so_far(r).is_prefix_of(text_so_far(started(r, tag, detail))),
        nothing_waits_inside(started(r, tag, detail)),
{
    lemma_flushed_text(r);
    lemma_prefix(text_so_far(r), waiting_mark(r));
    lemma_prefix_of_same(text_so_far(r));
    let after = started(r, tag, detail);
    match tag {
        MarkdownTag::Heading => {
            assert(text_so_far(after) == text_so_far(r.flushed()));
        },
        MarkdownTag::BlockQuote => {
            assert(text_so_far(after) == text_so_far(r.flushed()));
        },
        MarkdownTag::CodeBlock => {
            assert(text_so_far(after) == text_so_far(r.flushed()));
        },
        MarkdownTag::Item => {
            assert(text_so_far(after) == text_so_far(r.flushed()));
        },
        MarkdownTag::Table => {
            assert(text_so_far(after) == text_so_far(r.flushed()));
        },
        MarkdownTag::Image => {
            reveal_strlit("[image: ");
            reveal_strlit("]");
            let a = r.with_text("[image: "@, r.style(), false);
            let b = a.with_text(address(detail), r.style(), false);
            lemma_with_text(r, "[image: "@, r.style(), false);
            lemma_with_text(a, address(detail), r.style(), false);
            lemma_with_text(b, "]"@, r.style(), false);
            lemma_prefix(text_so_far(r), waiting_mark(r) + "[image: "@);
            assert(text_so_far(a) =~= text_so_far(r) + (waiting_mark(r) + "[image: "@));
            lemma_prefix(text_so_far(a), waiting_mark(a) + address(detail));
            lemma_prefix_of_same(text_so_far(a));
            assert(address(detail).len() > 0 ==> text_so_far(b) =~= text_so_far(a) + (waiting_mark(
                a,
            ) + address(detail)));
            assert(text_so_far(a).is_prefix_of(text_so_far(b)));
            lemma_prefix(text_so_far(b), waiting_mark(b) + "]"@);
            assert(text_so_far(after) =~= text_so_far(b) + (waiting_mark(b) + "]"@));
            lemma_prefix_chain(text_so_far(r), text_so_far(a), text_so_far(b));
            lemma_prefix_chain(text_so_far(r), text_so_far(b), text_so_far(after));
        },
        _ => {
            assert(text_so_far(after) == text_so_far(r));
        },
    }
}

proof fn lemma_ended_text(r: RendererView, tag: MarkdownTag)
    requires
        nothing_waits_inside(r),
        r.code is None,
        r.table is None,
    ensures
        text_so_far(r).is_prefix_of(text_so_far(ended(r, tag))),
        nothing_waits_inside(ended(r, tag)),
{
    lemma_flushed_text(r);
    lemma_prefix(text_so_far(r), waiting_mark(r));
    lemma_prefix_of_same(text_so_far(r));
    lemma_link_finished_text(r);
    let after = ended(r, tag);
    match tag {
        MarkdownTag::Paragraph => {},
        MarkdownTag::Item => {},
        MarkdownTag::BlockQuote => {
            assert(text_so_far(after) == text_so_far(r.flushed()));
        },
        MarkdownTag::Heading => {
            assert(text_so_far(after) == text_so_far(r.flushed()));
        },
        MarkdownTag::List => {
            assert(text_so_far(after) == text_so_far(r.flushed()));
        },
        MarkdownTag::Link => {},
        _ => {
            assert(text_so_far(after) == text_so_far(r));
        },
    }
}

proof fn lemma_in_code_text(r: RendererView, e: EventView, set: SyntaxSet)
    requires
        nothing_waits_inside(r),
        r.code is Some,
    ensures
        text_so_far(r).is_prefix_of(text_so_far(in_code(r, e, set))),
        nothing_waits_inside(in_code(r, e, set)),
{
    lemma_prefix_of_same(text_so_far(r));
    if e == EventView::End(MarkdownTag::CodeBlock) {
        let more = block_lines(set, r.theme, r.code->0).map_values(
            |l: Seq<SpanView>| code_block(l, r.width),
        );
        lemma_blocks_behind(r.blocks, more);
        lemma_prefix(text_so_far(r), blocks_text(more));
        assert(text_so_far(in_code(r, e, set)) =~= text_so_far(r) + blocks_text(more));
    } else {
        assert(text_so_far(in_code(r, e, set)) == text_so_far(r));
    }
}

#[verifier::rlimit(50)]
proof fn lemma_in_table_text(r: RendererView, e: EventView)
    requires
        nothing_waits_inside(r),
        r.code is None,
        r.table is Some,
    ensures
        text_so_far(r).is_prefix_of(text_so_far(in_table(r, r.table->0, e))),
        nothing_waits_inside(in_table(r, r.table->0, e)),
{
    lemma_prefix_of_same(text_so_far(r));
    let after = in_table(r, r.table->0, e);
    if e == EventView::End(MarkdownTag::Table) {
        let more = table_text(r.table->0.rows, r.width).map_values(
            |l: Seq<SpanView>| MarkdownBlockView::Line(l),
        );
        lemma_blocks_behind(r.blocks, more);
        lemma_prefix(text_so_far(r), blocks_text(more));
        assert(text_so_far(after) =~= text_so_far(r) + blocks_text(more));
    } else if e == EventView::End(MarkdownTag::Link) {
        lemma_link_finished_text(r);
    } else {
        assert(after.blocks == r.blocks);
        assert(after.parts == r.parts);
    }
}

/// No piece of a document takes away text that was read before it: the text so far only grows
/// at its end.
pub proof fn rendering_loses_no_text(r: RendererView, e: EventView, set: SyntaxSet)
    requires
        nothing_waits_inside(r),
    ensures
        text_so_far(r).is_prefix_of(text_so_far(step(r, e, set))),
        nothing_waits_inside(step(r, e, set)),
{
    if r.code is Some {
        lemma_in_code_text(r, e, set);
    } else if r.table is Some && !(e matches EventView::Start(MarkdownTag::Table, _)) {
        lemma_in_table_text(r, e);
    } else {
        lemma_flushed_text(r);
        lemma_prefix(text_so_far(r), waiting_mark(r));
        lemma_prefix_of_same(text_so_far(r));
        match e {
            EventView::Start(tag, detail) => lemma_started_text(r, tag, detail),
            EventView::End(tag) => lemma_ended_text(r, tag),
            EventView::SoftBreak => {},
            EventView::HardBreak => {},
            EventView::Rule => {
                let f = r.flushed();
                lemma_block_behind(f.blocks, MarkdownBlockView::Line(rule_line(r.width)));
                lemma_prefix(text_so_far(f), spans_text(rule_line(r.width)));
                assert(text_so_far(step(r, e, set)) =~= text_so_far(f) + spans_text(
                    rule_line(r.width),
                ));
                lemma_prefix_chain(
                    text_so_far(r),
                    text_so_far(f),
                    text_so_far(step(r, e, set)),
                );
            },
            EventView::Code(s) => {
                lemma_grows(r, " "@ + s + " "@, focus_style(), true);
            },
            EventView::TaskListMarker(checked) => {
                lemma_grows(r, task_box(checked), r.style(), false);
            },
            EventView::Text(s) => lemma_grows(r, s, r.style(), false),
            EventView::Html(s) => lemma_grows(r, s, r.style(), false),
            EventView::InlineHtml(s) => lemma_grows(r, s, r.style(), false),
            EventView::InlineMath(s) => lemma_grows(r, s, r.style(), false),
            EventView::DisplayMath(s) => lemma_grows(r, s, r.style(), false),
            EventView::FootnoteReference(s) => lemma_grows(r, s, r.style(), false),
        }
    }
}

proof fn lemma_grows(r: RendererView, s: Seq<char>, style: Style, atomic: bool)
    requires
        r.code is None,
        r.table is None,
    ensures
        text_so_far(r).is_prefix_of(text_so_far(r.with_text(s, style, atomic))),
        nothing_waits_inside(r.with_text(s, style, atomic)),
{
    lemma_with_text(r, s, style, atomic);
    lemma_prefix_of_same(text_so_far(r));
    lemma_prefix(text_so_far(r), waiting_mark(r) + s);
    assert(s.len() > 0 ==> text_so_far(r.with_text(s, style, atomic)) =~= text_so_far(r) + (
    waiting_mark(r) + s));
}

/// What a piece of a document says in words of its own, if it is such a piece.
pub open spec fn said(e: EventView) -> Option<Seq<char>> {
    match e {
        EventView::Text(s) => Some(s),
        EventView::Code(s) => Some(s),
        EventView::Html(s) => Some(s),
        EventView::InlineHtml(s) => Some(s),
        EventView::InlineMath(s) => Some(s),
        EventView::DisplayMath(s) => Some(s),
        EventView::FootnoteReference(s) => Some(s),
        _ => None,
    }
}

/// Outside of code and tables, the text of a piece stands behind all that was read before, with
/// nothing in between but the mark of a list's item; code within a line has a blank on either
/// side of it.
pub proof fn texts_stand_behind_what_was_read(
    r: RendererView,
    e: EventView,
    s: Seq<char>,
    set: SyntaxSet,
)
    requires
        r.code is None,
        r.table is None,
        said(e) == Some(s),
        s.len() > 0,
    ensures
        ({
            let mark = match r.marker {
                Some(m) => m,
                None => Seq::empty(),
            };
            text_so_far(step(r, e, set)) == text_so_far(r) + mark + (if e is Code {
                " "@ + s + " "@
            } else {
                s
            })
        }),
        step(r, e, set).blocks == r.blocks,
        step(r, e, set).parts.len() > 0,
        !(e is Code) ==> step(r, e, set).parts.last() == (PartView {
            text: s,
            style: r.styles.last(),
            atomic: false,
        }),
        e is Code ==> step(r, e, set).parts.last().atomic,
{
    lemma_with_text(r, s, r.style(), false);
    lemma_with_text(r, " "@ + s + " "@, focus_style(), true);
}

/// Whether some texts stand in another one, one behind the other.
pub open spec fn stand_in_order(texts: Seq<Seq<char>>, whole: Seq<char>) -> bool
    decreases texts.len(),
{
    texts.len() > 0 ==> exists|front: Seq<char>, back: Seq<char>|
        whole == #[trigger] (front + texts.last() + back) && stand_in_order(texts.drop_last(), front)
}

/// What the first `n` pieces of a document say outside of code blocks and tables, in order.
pub open spec fn said_in_text(
    events: Seq<EventView>,
    n: int,
    width: u16,
    theme: CodeTheme,
    set: SyntaxSet,
) -> Seq<Seq<char>>
    decreases n,
{
    if n <= 0 {
        Seq::empty()
    } else {
        let before = said_in_text(events, n - 1, width, theme, set);
        let r = rendered(events, n - 1, width, theme, set);
        match said(events[n - 1]) {
            Some(s) => if r.code is None && r.table is None {
                before.push(s)
            } else {
                before
            },
            None => before,
        }
    }
}

proof fn lemma_stand_in_longer(texts: Seq<Seq<char>>, whole: Seq<char>, longer: Seq<char>)
    requires
        stand_in_order(texts, whole),
        whole.is_prefix_of(longer),
    ensures
        stand_in_order(texts, longer),
{
    if texts.len() > 0 {
        let (front, back) = choose|front: Seq<char>, back: Seq<char>|
            whole == #[trigger] (front + texts.last() + back) && stand_in_order(
                texts.drop_last(),
                front,
            );
        let rest = longer.subrange(whole.len() as int, longer.len() as int);
        assert(whole == longer.subrange(0, whole.len() as int));
        assert(longer =~= whole + rest);
        assert((front + texts.last() + back) + rest =~= front + texts.last() + (back + rest));
        assert(longer == front + texts.last() + (back + rest));
    }
}

proof fn lemma_stand_with_next(
    texts: Seq<Seq<char>>,
    whole: Seq<char>,
    s: Seq<char>,
    back: Seq<char>,
)
    requires
        stand_in_order(texts, whole),
    ensures
        stand_in_order(texts.push(s), whole + s + back),
{
    assert(texts.push(s).drop_last() =~= texts);
    assert(texts.push(s).last() == s);
    assert(whole + s + back == whole + texts.push(s).last() + back);
}

proof fn lemma_said_next(
    texts: Seq<Seq<char>>,
    r: RendererView,
    e: EventView,
    s: Seq<char>,
    set: SyntaxSet,
)
    requires
        nothing_waits_inside(r),
        r.code is None,
        r.table is None,
        said(e) == Some(s),
        stand_in_order(texts, text_so_far(r)),
    ensures
        stand_in_order(texts.push(s), text_so_far(step(r, e, set))),
{
    let before = text_so_far(r);
    let after = text_so_far(step(r, e, set));
    rendering_loses_no_text(r, e, set);
    if s.len() > 0 {
        texts_stand_behind_what_was_read(r, e, s, set);
        let mark = waiting_mark(r);
        let gap = if e is Code {
            mark + " "@
        } else {
            mark
        };
        let back = if e is Code {
            " "@
        } else {
            Seq::empty()
        };
        assert(after =~= before + gap + s + back);
        lemma_prefix(before, gap);
        lemma_stand_in_longer(texts, before, before + gap);
        lemma_stand_with_next(texts, before + gap, s, back);
    } else {
        lemma_stand_in_longer(texts, before, after);
        lemma_stand_with_next(texts, after, s, Seq::empty());
        assert(after + s + Seq::<char>::empty() =~= after);
    }
}

proof fn lemma_said_so_far(
    events: Seq<EventView>,
    n: int,
    width: u16,
    theme: CodeTheme,
    set: SyntaxSet,
)
    requires
        0 <= n <= events.len(),
    ensures
        nothing_waits_inside(rendered(events, n, width, theme, set)),
        stand_in_order(
            said_in_text(events, n, width, theme, set),
            text_so_far(rendered(events, n, width, theme, set)),
        ),
    decreases n,
{
    if n > 0 {
        lemma_said_so_far(events, n - 1, width, theme, set);
        let r = rendered(events, n - 1, width, theme, set);
        let e = events[n - 1];
        let texts = said_in_text(events, n - 1, width, theme, set);
        rendering_loses_no_text(r, e, set);
        if said(e) is Some && r.code is None && r.table is None {
            lemma_said_next(texts, r, e, said(e)->0, set);
        } else {
            lemma_stand_in_longer(texts, text_so_far(r), text_so_far(step(r, e, set)));
        }
    }
}

/// A rendered document holds all that its pieces say outside of code blocks and tables, in the
/// order of the pieces.
pub proof fn documents_keep_what_they_say(
    events: Seq<EventView>,
    width: u16,
    theme: CodeTheme,
    set: SyntaxSet,
)
    ensures
        stand_in_order(
            said_in_text(events, events.len() as int, width, theme, set),
            blocks_text(finished(rendered(events, events.len() as int, width, theme, set))),
        ),
{
    let n = events.len() as int;
    let r = rendered(events, n, width, theme, set);
    let texts = said_in_text(events, n, width, theme, set);
    lemma_said_so_far(events, n, width, theme, set);
    lemma_flushed_text(r);
    lemma_prefix(text_so_far(r), waiting_mark(r));
    lemma_stand_in_longer(texts, text_so_far(r), text_so_far(r.flushed()));
    assert(text_so_far(r.flushed()) =~= blocks_text(r.flushed().blocks));
    let f = finished(r);
    if r.flushed().blocks.len() == 0 {
        reveal_with_fuel(blocks_text, 2);
        reveal_with_fuel(spans_text, 2);
        assert(f.drop_last() =~= Seq::<MarkdownBlockView>::empty());
        assert(blocks_text(f) =~= blocks_text(r.flushed().blocks));
    }
}

/// A line break outside of code and tables ends the text that was being read: all of it becomes
/// one block, and the next text begins another one. In a quotation the block says how deep it
/// is quoted, with one sign for each level.
pub proof fn breaks_end_a_block(r: RendererView, e: EventView, set: SyntaxSet)
    requires
        r.code is None,
        r.table is None,
        r.marker is None,
        r.parts.len() > 0,
        e is SoftBreak || e is HardBreak || e == EventView::End(MarkdownTag::Paragraph) || e
            == EventView::End(MarkdownTag::Item),
    ensures
        ({
            let after = step(r, e, set);
            &&& after.parts.len() == 0
            &&& after.blocks.len() == r.blocks.len() + 1
            &&& after.blocks.drop_last() == r.blocks
            &&& after.blocks.last() matches MarkdownBlockView::Wrapped { front, parts, width }
            &&& parts == r.parts
            &&& r.quote_depth == 0 ==> front is None && width == r.width
            &&& r.quote_depth > 0 ==> front is Some && (front->0).content == text::repeated(
                '>',
                r.quote_depth as nat,
            ) + " "@
            &&& after.styles == r.styles
            &&& after.lists == r.lists
            &&& after.quote_depth == r.quote_depth
        }),
{
    let after = step(r, e, set);
    assert(after.blocks.drop_last() =~= r.blocks);
}

/// The text of an item of a list stands behind the mark of the item: its number, a dot and a
/// blank, or a dash and a blank, two blanks further in for each list around its own. The next
/// item has the next number.
pub proof fn items_begin_with_their_mark(
    r: RendererView,
    detail: DetailView,
    s: Seq<char>,
    set: SyntaxSet,
)
    requires
        r.code is None,
        r.table is None,
        r.lists.len() > 0,
        r.parts.len() == 0,
        r.marker is None,
        s.len() > 0,
    ensures
        ({
            let begun = step(r, EventView::Start(MarkdownTag::Item, detail), set);
            let after = step(begun, EventView::Text(s), set);
            let indent = text::repeated(' ', (2 * (r.lists.len() - 1)) as nat);
            &&& after.parts.len() == 2
            &&& after.parts[1].text == s
            &&& r.lists.last().next_number matches Some(n) ==> after.parts[0].text == indent
                + text::decimal(n as nat) + ". "@ && (n < u64::MAX
                ==> after.lists.last().next_number == Some((n + 1) as u64))
            &&& r.lists.last().next_number is None ==> after.parts[0].text == indent + "- "@
                && after.lists == r.lists
            &&& after.lists.len() == r.lists.len()
            &&& after.blocks == r.blocks
        }),
{
}

/// A list numbers its items from the number that it begins with, or not at all; the lists
/// around it go on counting where they were when it ends.
pub proof fn lists_count_on_their_own(
    r: RendererView,
    n: Option<u64>,
    set: SyntaxSet,
)
    requires
        r.code is None,
        r.table is None,
    ensures
        ({
            let begun = step(
                r,
                EventView::Start(MarkdownTag::List, DetailView::FirstNumber(n)),
                set,
            );
            let over = step(begun, EventView::End(MarkdownTag::List), set);
            &&& begun.lists.len() == r.lists.len() + 1
            &&& begun.lists.last().next_number == n
            &&& begun.lists.drop_last() == r.lists
            &&& over.lists == r.lists
        }),
{
    let begun = step(r, EventView::Start(MarkdownTag::List, DetailView::FirstNumber(n)), set);
    assert(begun.lists.drop_last() =~= r.lists);
}

/// Behind the text of a link stands its address, unless the text is the address; the style of
/// a link ends with it.
pub proof fn links_tell_where_they_lead(
    r: RendererView,
    url: Seq<char>,
    s: Seq<char>,
    set: SyntaxSet,
)
    requires
        r.well_formed(),
        r.code is None,
        r.table is None,
        r.marker is None,
        s.len() > 0,
    ensures
        ({
            let begun = step(
                r,
                EventView::Start(MarkdownTag::Link, DetailView::Address(url)),
                set,
            );
            let read = step(begun, EventView::Text(s), set);
            let over = step(read, EventView::End(MarkdownTag::Link), set);
            &&& text::trimmed(s) != text::trimmed(url) ==> text_so_far(over) == text_so_far(r) + s
                + (" "@ + url)
            &&& text::trimmed(s) == text::trimmed(url) ==> text_so_far(over) == text_so_far(r) + s
            &&& read.parts.last().style.underlined
            &&& over.styles == r.styles
            &&& over.links == r.links
        }),
{
    let begun = step(r, EventView::Start(MarkdownTag::Link, DetailView::Address(url)), set);
    let read = step(begun, EventView::Text(s), set);
    let over = step(read, EventView::End(MarkdownTag::Link), set);
    lemma_with_text(begun, s, begun.style(), false);
    assert(text_so_far(begun) == text_so_far(r));
    assert(text_so_far(read) =~= text_so_far(r) + s);
    assert(Seq::<char>::empty() + s =~= s);
    assert(read.links.last().label == s);
    assert(read.links.last().dest_url == url);
    assert(read.links.drop_last() =~= r.links);
    assert(read.styles.drop_last() =~= r.styles);
    if text::trimmed(s) != text::trimmed(url) {
        let p = part(" "@ + url, link_style(), true);
        lemma_part_behind(read.parts, p);
        assert(over.parts == read.parts.push(p));
        assert(text_so_far(over) =~= text_so_far(r) + s + (" "@ + url));
    }
}

/// Emphasis is italic, struck text is crossed out, and strong text and headings stand out bold;
/// all of it holds for the text in between alone.
pub proof fn styles_hold_for_what_they_enclose(
    r: RendererView,
    tag: MarkdownTag,
    detail: DetailView,
    s: Seq<char>,
    set: SyntaxSet,
)
    requires
        r.well_formed(),
        r.code is None,
        r.table is None,
        s.len() > 0,
        tag == MarkdownTag::Emphasis || tag == MarkdownTag::Strong || tag
            == MarkdownTag::Strikethrough || tag == MarkdownTag::Heading,
    ensures
        ({
            let begun = step(r, EventView::Start(tag, detail), set);
            let read = step(begun, EventView::Text(s), set);
            let over = step(read, EventView::End(tag), set);
            let style = read.parts.last().style;
            &&& read.parts.last().text == s
            &&& tag == MarkdownTag::Emphasis ==> style == (Style {
                italic: true,
                ..r.styles.last()
            })
            &&& tag == MarkdownTag::Strikethrough ==> style.crossed_out
            &&& tag == MarkdownTag::Strong || tag == MarkdownTag::Heading ==> style.bold
            &&& over.styles == r.styles
        }),
{
    let begun = step(r, EventView::Start(tag, detail), set);
    assert(begun.styles.drop_last() =~= r.styles);
}

/// A heading stands on lines of its own: nothing is open when its text begins, and nothing of
/// it stays open when it ends.
pub proof fn headings_stand_alone(r: RendererView, detail: DetailView, set: SyntaxSet)
    requires
        r.code is None,
        r.table is None,
    ensures
        step(r, EventView::Start(MarkdownTag::Heading, detail), set).parts.len() == 0,
        step(r, EventView::End(MarkdownTag::Heading), set).parts.len() == 0,
{
}

proof fn lemma_code_line_text(line: Seq<SpanView>, width: u16)
    ensures
        block_text(code_block(line, width)) == spans_text(line),
    decreases line.len(),
{
    let parts = line.map_values(|s: SpanView| part(s.content, s.style, false));
    if line.len() > 0 {
        let init = line.drop_last();
        lemma_code_line_text(init, width);
        assert(parts.drop_last() =~= init.map_values(
            |s: SpanView| part(s.content, s.style, false),
        ));
    }
}

/// A code block in no language becomes one block for each of its lines, in their order and as
/// they stand; one line break at its end does not count.
pub proof fn plain_code_is_shown_line_by_line(
    r: RendererView,
    detail: DetailView,
    s: Seq<char>,
    set: SyntaxSet,
)
    requires
        r.code is None,
        r.table is None,
        r.parts.len() == 0,
        r.marker is None,
        detail == DetailView::Bare,
    ensures
        ({
            let begun = step(r, EventView::Start(MarkdownTag::CodeBlock, detail), set);
            let read = step(begun, EventView::Text(s), set);
            let over = step(read, EventView::End(MarkdownTag::CodeBlock), set);
            let lines = text::split(
                if s.len() > 0 && s.last() == '\n' {
                    s.drop_last()
                } else {
                    s
                },
                '\n',
            );
            &&& over.code is None
            &&& over.blocks.len() == r.blocks.len() + lines.len()
            &&& over.blocks.take(r.blocks.len() as int) == r.blocks
            &&& forall|i: int|
                0 <= i < lines.len() ==> block_text(#[trigger] over.blocks[r.blocks.len() + i])
                    == lines[i] && over.blocks[r.blocks.len() + i] is Code
        }),
{
    let begun = step(r, EventView::Start(MarkdownTag::CodeBlock, detail), set);
    let read = step(begun, EventView::Text(s), set);
    let over = step(read, EventView::End(MarkdownTag::CodeBlock), set);
    assert(Seq::<char>::empty() + s =~= s);
    let content = without_last_break(s);
    let lines = text::split(content, '\n');
    assert(read.code == Some((CodeView { lang: None, text: s })));
    assert(over.blocks.take(r.blocks.len() as int) =~= r.blocks);
    assert forall|i: int| 0 <= i < lines.len() implies block_text(
        #[trigger] over.blocks[r.blocks.len() + i],
    ) == lines[i] && over.blocks[r.blocks.len() + i] is Code by {
        let line = seq![ui::span(lines[i], ui::colored(SemanticColor::Assistant))];
        assert(over.blocks[r.blocks.len() + i] == code_block(line, r.width));
        lemma_code_line_text(line, r.width);
        reveal_with_fuel(spans_text, 2);
        assert(line.drop_last() =~= Seq::<SpanView>::empty());
        assert(spans_text(line) =~= lines[i]);
    }
}

/// Within a code block nothing but its end is more than text: all pieces with words are code as
/// they stand, and line breaks are line breaks.
pub proof fn code_blocks_take_every_text(r: RendererView, e: EventView, set: SyntaxSet)
    requires
        r.code is Some,
        e != EventView::End(MarkdownTag::CodeBlock),
    ensures
        ({
            let after = step(r, e, set);
            let code = (r.code->0).text;
            &&& after.blocks == r.blocks
            &&& after.parts == r.parts
            &&& after.styles == r.styles
            &&& after.code is Some
            &&& (after.code->0).lang == (r.code->0).lang
            &&& (e is Text || e is Code || e is Html || e is InlineHtml || e is InlineMath
                || e is DisplayMath) ==> (after.code->0).text == code + said(e)->0
            &&& (e is SoftBreak || e is HardBreak) ==> (after.code->0).text == code.push('\n')
        }),
{
    let code = (r.code->0).text;
    assert(code + seq!['\n'] =~= code.push('\n'));
}

/// Within a table, the text of a piece goes to the end of the cell that is being read, code
/// with a blank on either side; nothing is shown before the table ends.
pub proof fn cells_take_every_text(r: RendererView, e: EventView, s: Seq<char>, set: SyntaxSet)
    requires
        r.code is None,
        r.table is Some,
        said(e) == Some(s),
    ensures
        ({
            let after = step(r, e, set);
            let before = match (r.table->0).current_cell {
                Some(cell) => parts_text(cell),
                None => Seq::empty(),
            };
            &&& after.table is Some
            &&& (after.table->0).current_cell is Some
            &&& parts_text((after.table->0).current_cell->0) == before + (if e is Code {
                " "@ + s + " "@
            } else {
                s
            })
            &&& (after.table->0).rows == (r.table->0).rows
            &&& (after.table->0).current_row == (r.table->0).current_row
            &&& after.blocks == r.blocks
            &&& after.parts == r.parts
        }),
{
    let after = step(r, e, set);
    let p = if e is Code {
        part(" "@ + s + " "@, focus_style(), true)
    } else {
        part(s, r.style(), false)
    };
    reveal_with_fuel(parts_text, 2);
    match (r.table->0).current_cell {
        Some(cell) => {
            lemma_part_behind(cell, p);
        },
        None => {
            assert(seq![p].drop_last() =~= Seq::<PartView>::empty());
            assert(Seq::<char>::empty() + p.text =~= p.text);
        },
    }
}

/// A cell that ends goes to the end of its row, and a row that ends to the end of the table,
/// unless it is empty; a row of the head is marked as such.
pub proof fn tables_grow_cell_by_cell_and_row_by_row(
    r: RendererView,
    cell: Seq<PartView>,
    row: TableRowView,
    set: SyntaxSet,
    detail: DetailView,
)
    requires
        r.code is None,
        r.table is Some,
        (r.table->0).current_cell == Some(cell),
        (r.table->0).current_row == Some(row),
    ensures
        ({
            let t = r.table->0;
            let after = step(r, EventView::End(MarkdownTag::TableCell), set).table;
            let over = step(r, EventView::End(MarkdownTag::TableRow), set).table;
            let head = step(r, EventView::Start(MarkdownTag::TableHead, detail), set).table;
            let headed = step(r, EventView::End(MarkdownTag::TableHead), set).table;
            &&& after is Some && (after->0).current_cell is None && (after->0).current_row == Some(
                (TableRowView { cells: row.cells.push(cell), header: row.header }),
            ) && (after->0).rows == t.rows
            &&& over is Some && (over->0).current_row is None && (over->0).rows == t.rows.push(
                TableRowView { cells: row.cells.push(cell), header: row.header },
            )
            &&& head is Some && (head->0).in_head && (head->0).current_row == Some(
                (TableRowView { cells: Seq::empty(), header: true }),
            )
            &&& headed is Some && !(headed->0).in_head && (headed->0).rows.len() == t.rows.len() + 1
        }),
{
}

/// A rule is a line of dashes as wide as the region, on its own.
pub proof fn rules_span_the_region(r: RendererView, set: SyntaxSet)
    requires
        r.code is None,
        r.table is None,
        r.width > 0,
    ensures
        ({
            let after = step(r, EventView::Rule, set);
            &&& after.parts.len() == 0
            &&& after.blocks.last() matches MarkdownBlockView::Line(line)
            &&& spans_text(line) == text::repeated('-', r.width as nat)
        }),
{
    let line = rule_line(r.width);
    reveal_with_fuel(spans_text, 2);
    assert(line.drop_last() =~= Seq::<SpanView>::empty());
    assert(spans_text(line) =~= text::repeated('-', r.width as nat));
}

/// A task shows whether it is done, and an image where it is to be found.
pub proof fn tasks_and_images_are_told_of(
    r: RendererView,
    checked: bool,
    url: Seq<char>,
    set: SyntaxSet,
)
    requires
        r.code is None,
        r.table is None,
        r.marker is None,
        url.len() > 0,
    ensures
        text_so_far(step(r, EventView::TaskListMarker(checked), set)) == text_so_far(r) + (if checked {
            "[x] "@
        } else {
            "[ ] "@
        }),
        text_so_far(step(r, EventView::Start(MarkdownTag::Image, DetailView::Address(url)), set))
            == text_so_far(r) + ("[image: "@ + url + "]"@),
{
    reveal_strlit("[x] ");
    reveal_strlit("[ ] ");
    reveal_strlit("[image: ");
    reveal_strlit("]");
    lemma_with_text(r, task_box(checked), r.style(), false);
    assert(text_so_far(r) + Seq::<char>::empty() =~= text_so_far(r));
    let a = r.with_text("[image: "@, r.style(), false);
    let b = a.with_text(url, r.style(), false);
    lemma_with_text(r, "[image: "@, r.style(), false);
    lemma_with_text(a, url, r.style(), false);
    lemma_with_text(b, "]"@, r.style(), false);
    assert(text_so_far(b.with_text("]"@, r.style(), false)) =~= text_so_far(r) + ("[image: "@ + url
        + "]"@));
}

} // verus!
