//! Styled text, before any theme gives it colours.
use crate::text;
use vstd::prelude::*;

verus! {

/// What a colour is for; a theme says which colour that is, if any.
#[derive(Debug, Clone, Copy, PartialEq, Eq, Structural)]
pub enum SemanticColor {
    User,
    Assistant,
    Muted,
    Status,
    Focus,
    Selection,
    Surface,
    Success,
    Warning,
    Error,
    ToolKeyword,
    ToolArgument,
    CodeBackground,
    DiffAdded,
    DiffRemoved,
    Shortcut,
    Command,
}

/// The colour of some text.
#[derive(Debug, Clone, Copy, PartialEq, Eq, Structural)]
pub enum Tint {
    Semantic(SemanticColor),
    /// The text of a chosen row: as answers are, white where the theme has no colour for them.
    ChosenText,
    /// What a chosen row stands on: the focus colour, dimmed, magenta where the theme has none.
    ChosenGround,
    /// The colour of a purpose, that of a chosen row's text where the theme has none.
    OnChosen(SemanticColor),
    /// What the header stands on: the status colour, dimmed.
    HeaderGround,
    Black,
    Red,
    Green,
    Yellow,
    Blue,
    Magenta,
    Cyan,
    Gray,
    Indexed(u8),
    Rgb(u8, u8, u8),
}

/// How some text is shown.
#[derive(Debug, Clone, Copy, PartialEq, Eq, Structural)]
pub struct Style {
    pub fg: Option<Tint>,
    pub bg: Option<Tint>,
    pub bold: bool,
    pub dim: bool,
    pub italic: bool,
    pub underlined: bool,
    pub crossed_out: bool,
}

/// The style of plain text.
pub open spec fn plain_style() -> Style {
    Style {
        fg: None,
        bg: None,
        bold: false,
        dim: false,
        italic: false,
        underlined: false,
        crossed_out: false,
    }
}

/// Text in the colour of a purpose.
pub open spec fn colored(color: SemanticColor) -> Style {
    Style { fg: Some(Tint::Semantic(color)), ..plain_style() }
}

impl Style {
    pub open spec fn bolded(self) -> Style {
        Style { bold: true, ..self }
    }

    pub open spec fn dimmed(self) -> Style {
        Style { dim: true, ..self }
    }

    pub fn plain() -> (s: Style)
        ensures
            s == plain_style(),
    {
        Style {
            fg: None,
            bg: None,
            bold: false,
            dim: false,
            italic: false,
            underlined: false,
            crossed_out: false,
        }
    }

    pub fn color(color: SemanticColor) -> (s: Style)
        ensures
            s == colored(color),
    {
        Style {
            fg: Some(Tint::Semantic(color)),
            bg: None,
            bold: false,
            dim: false,
            italic: false,
            underlined: false,
            crossed_out: false,
        }
    }

    pub fn bold(self) -> (s: Style)
        ensures
            s == self.bolded(),
    {
        let mut s = self;
        s.bold = true;
        s
    }

    pub fn dim(self) -> (s: Style)
        ensures
            s == self.dimmed(),
    {
        let mut s = self;
        s.dim = true;
        s
    }

    /// This style with whatever `over` sets laid over it.
    pub open spec fn patched(self, over: Style) -> Style {
        Style {
            fg: if over.fg is Some {
                over.fg
            } else {
                self.fg
            },
            bg: if over.bg is Some {
                over.bg
            } else {
                self.bg
            },
            bold: self.bold || over.bold,
            dim: self.dim || over.dim,
            italic: self.italic || over.italic,
            underlined: self.underlined || over.underlined,
            crossed_out: self.crossed_out || over.crossed_out,
        }
    }

    pub fn patch(self, over: Style) -> (s: Style)
        ensures
            s == self.patched(over),
    {
        Style {
            fg: if over.fg.is_some() {
                over.fg
            } else {
                self.fg
            },
            bg: if over.bg.is_some() {
                over.bg
            } else {
                self.bg
            },
            bold: self.bold || over.bold,
            dim: self.dim || over.dim,
            italic: self.italic || over.italic,
            underlined: self.underlined || over.underlined,
            crossed_out: self.crossed_out || over.crossed_out,
        }
    }
}

/// A stretch of text in one style.
#[derive(Debug, PartialEq, Eq)]
pub struct Span {
    pub content: String,
    pub style: Style,
}

/// A line of styled text.
#[derive(Debug, PartialEq, Eq)]
pub struct Line {
    pub spans: Vec<Span>,
}

/// A stretch of text in one style.
pub struct SpanView {
    pub content: Seq<char>,
    pub style: Style,
}

impl View for Span {
    type V = SpanView;

    open spec fn view(&self) -> SpanView {
        SpanView { content: self.content@, style: self.style }
    }
}

pub open spec fn span_views(v: Seq<Span>) -> Seq<SpanView> {
    v.map_values(|s: Span| s@)
}

impl View for Line {
    type V = Seq<SpanView>;

    open spec fn view(&self) -> Seq<SpanView> {
        span_views(self.spans@)
    }
}

pub open spec fn line_views(v: Seq<Line>) -> Seq<Seq<SpanView>> {
    v.map_values(|l: Line| l@)
}

/// The text of a line.
pub open spec fn line_text(line: Seq<SpanView>) -> Seq<char>
    decreases line.len(),
{
    if line.len() == 0 {
        Seq::empty()
    } else {
        line_text(line.drop_last()) + line.last().content
    }
}

pub open spec fn span(content: Seq<char>, style: Style) -> SpanView {
    SpanView { content, style }
}

impl Span {
    pub fn styled(content: String, style: Style) -> (s: Span)
        ensures
            s@ == span(content@, style),
    {
        Span { content, style }
    }

    pub fn of(content: &str, style: Style) -> (s: Span)
        ensures
            s@ == span(content@, style),
    {
        Span { content: content.to_owned(), style }
    }

    pub fn raw(content: &str) -> (s: Span)
        ensures
            s@ == span(content@, plain_style()),
    {
        Span { content: content.to_owned(), style: Style::plain() }
    }
}

impl Clone for Span {
    fn clone(&self) -> (s: Self)
        ensures
            s@ == self@,
    {
        Span { content: self.content.clone(), style: self.style }
    }
}

impl Clone for Line {
    fn clone(&self) -> (l: Self)
        ensures
            l@ == self@,
    {
        let mut spans: Vec<Span> = Vec::new();
        let mut i: usize = 0;
        while i < self.spans.len()
            invariant
                i <= self.spans@.len(),
                spans@.len() == i,
                forall|k: int| 0 <= k < i ==> (#[trigger] spans@[k])@ == self.spans@[k]@,
            decreases self.spans@.len() - i,
        {
            spans.push(self.spans[i].clone());
            i += 1;
        }
        let l = Line { spans };
        proof {
            assert(l@ =~= self@);
        }
        l
    }
}

impl Line {
    pub fn empty() -> (l: Line)
        ensures
            l@ == Seq::<SpanView>::empty(),
    {
        let l = Line { spans: Vec::new() };
        proof {
            assert(l@ =~= Seq::<SpanView>::empty());
        }
        l
    }

    pub fn one(span: Span) -> (l: Line)
        ensures
            l@ == seq![span@],
    {
        let mut spans: Vec<Span> = Vec::new();
        spans.push(span);
        let l = Line { spans };
        proof {
            assert(l@ =~= seq![span@]);
        }
        l
    }

    pub fn two(a: Span, b: Span) -> (l: Line)
        ensures
            l@ == seq![a@, b@],
    {
        let mut spans: Vec<Span> = Vec::new();
        spans.push(a);
        spans.push(b);
        let l = Line { spans };
        proof {
            assert(l@ =~= seq![a@, b@]);
        }
        l
    }

    pub fn three(a: Span, b: Span, c: Span) -> (l: Line)
        ensures
            l@ == seq![a@, b@, c@],
    {
        let mut spans: Vec<Span> = Vec::new();
        spans.push(a);
        spans.push(b);
        spans.push(c);
        let l = Line { spans };
        proof {
            assert(l@ =~= seq![a@, b@, c@]);
        }
        l
    }

    pub fn four(a: Span, b: Span, c: Span, d: Span) -> (l: Line)
        ensures
            l@ == seq![a@, b@, c@, d@],
    {
        let mut spans: Vec<Span> = Vec::new();
        spans.push(a);
        spans.push(b);
        spans.push(c);
        spans.push(d);
        let l = Line { spans };
        proof {
            assert(l@ =~= seq![a@, b@, c@, d@]);
        }
        l
    }

    /// Appends a stretch of text.
    pub fn push(&mut self, span: Span)
        ensures
            final(self)@ == old(self)@.push(span@),
    {
        let ghost before = self@;
        self.spans.push(span);
        proof {
            assert(self@ =~= before.push(span@));
        }
    }

    /// The text of the line.
    pub fn text(&self) -> (r: String)
        ensures
            r@ == line_text(self@),
    {
        let mut r = String::new();
        let mut i: usize = 0;
        proof {
            assert(self@.take(0) =~= Seq::<SpanView>::empty());
        }
        while i < self.spans.len()
            invariant
                i <= self.spans@.len(),
                r@ == line_text(self@.take(i as int)),
            decreases self.spans@.len() - i,
        {
            proof {
                assert(self@.take(i + 1).drop_last() =~= self@.take(i as int));
                assert(self@.take(i + 1).last() == self.spans@[i as int]@);
            }
            r.append(self.spans[i].content.as_str());
            i += 1;
        }
        proof {
            assert(self@.take(i as int) =~= self@);
        }
        r
    }
}

/// Appends a line.
pub fn push_line(lines: &mut Vec<Line>, line: Line)
    ensures
        line_views(final(lines)@) == line_views(old(lines)@).push(line@),
        final(lines)@ == old(lines)@.push(line),
{
    let ghost before = lines@;
    lines.push(line);
    proof {
        assert(line_views(lines@) =~= line_views(before).push(line@));
    }
}

/// A stretch of text that is to be wrapped; an atomic one is not broken.
#[derive(Debug, PartialEq, Eq)]
pub struct StyledTextPart {
    pub text: String,
    pub style: Style,
    pub atomic: bool,
}

/// A stretch of text that is to be wrapped.
pub struct PartView {
    pub text: Seq<char>,
    pub style: Style,
    pub atomic: bool,
}

impl View for StyledTextPart {
    type V = PartView;

    open spec fn view(&self) -> PartView {
        PartView { text: self.text@, style: self.style, atomic: self.atomic }
    }
}

pub open spec fn part_views(v: Seq<StyledTextPart>) -> Seq<PartView> {
    v.map_values(|p: StyledTextPart| p@)
}

/// A part of a line.
#[derive(Debug, PartialEq, Eq)]
pub enum LinePart {
    Span(Span),
    /// A text in which code between backticks stands out.
    InlineCode { text: String, style: Style },
    /// A text that is cut to so many characters, behind some that stay, in one stretch.
    Shortened { front: &'static str, text: String, width: usize, style: Style },
}

/// A part of a line.
pub enum LinePartView {
    Span(SpanView),
    InlineCode { text: Seq<char>, style: Style },
    Shortened { front: Seq<char>, text: Seq<char>, width: usize, style: Style },
}

impl View for LinePart {
    type V = LinePartView;

    open spec fn view(&self) -> LinePartView {
        match self {
            LinePart::Span(s) => LinePartView::Span(s@),
            LinePart::InlineCode { text, style } => LinePartView::InlineCode {
                text: text@,
                style: *style,
            },
            LinePart::Shortened { front, text, width, style } => LinePartView::Shortened {
                front: front@,
                text: text@,
                width: *width,
                style: *style,
            },
        }
    }
}

pub open spec fn line_parts(v: Seq<LinePart>) -> Seq<LinePartView> {
    v.map_values(|p: LinePart| p@)
}

/// Spans as parts of a line.
pub open spec fn spans_as_parts(spans: Seq<SpanView>) -> Seq<LinePartView> {
    spans.map_values(|s: SpanView| LinePartView::Span(s))
}

/// Appends a part to a line.
pub fn push_part(parts: &mut Vec<LinePart>, part: LinePart)
    ensures
        line_parts(final(parts)@) == line_parts(old(parts)@).push(part@),
{
    let ghost before = parts@;
    parts.push(part);
    proof {
        assert(line_parts(parts@) =~= line_parts(before).push(part@));
    }
}

/// Appends spans to a line.
pub fn push_spans(parts: &mut Vec<LinePart>, spans: &Vec<Span>)
    ensures
        line_parts(final(parts)@) == line_parts(old(parts)@) + spans_as_parts(
            span_views(spans@),
        ),
{
    let ghost before = line_parts(parts@);
    let ghost all = spans_as_parts(span_views(spans@));
    let mut i: usize = 0;
    proof {
        assert(before + all.take(0) =~= before);
    }
    while i < spans.len()
        invariant
            i <= spans@.len(),
            all == spans_as_parts(span_views(spans@)),
            line_parts(parts@) == before + all.take(i as int),
        decreases spans@.len() - i,
    {
        push_part(parts, LinePart::Span(spans[i].clone()));
        proof {
            assert(all[i as int] == LinePartView::Span(spans@[i as int]@));
            assert(before + all.take(i + 1) =~= (before + all.take(i as int)).push(
                all[i as int],
            ));
        }
        i = i + 1;
    }
    proof {
        assert(all.take(i as int) =~= all);
    }
}

/// Some lines: one as it is, one that is put together, or a text that is wrapped into as many
/// as it takes.
#[derive(Debug, PartialEq, Eq)]
pub enum Block {
    Line(Line),
    Composed(Vec<LinePart>),
    Wrapped { parts: Vec<StyledTextPart>, width: u16, keep_leading_blanks: bool },
    /// A text that is wrapped, with its leading blanks; the first line stands behind the
    /// front, the others behind as many blanks as `indent` says.
    Hanging { front: Vec<Span>, indent: usize, parts: Vec<StyledTextPart>, width: u16 },
}

/// Some lines.
pub enum BlockView {
    Line(Seq<SpanView>),
    Composed(Seq<LinePartView>),
    Wrapped { parts: Seq<PartView>, width: u16, keep_leading_blanks: bool },
    Hanging { front: Seq<SpanView>, indent: usize, parts: Seq<PartView>, width: u16 },
}

impl View for Block {
    type V = BlockView;

    open spec fn view(&self) -> BlockView {
        match self {
            Block::Line(l) => BlockView::Line(l@),
            Block::Composed(parts) => BlockView::Composed(line_parts(parts@)),
            Block::Wrapped { parts, width, keep_leading_blanks } => BlockView::Wrapped {
                parts: part_views(parts@),
                width: *width,
                keep_leading_blanks: *keep_leading_blanks,
            },
            Block::Hanging { front, indent, parts, width } => BlockView::Hanging {
                front: span_views(front@),
                indent: *indent,
                parts: part_views(parts@),
                width: *width,
            },
        }
    }
}

pub open spec fn block_views(v: Seq<Block>) -> Seq<BlockView> {
    v.map_values(|b: Block| b@)
}

pub fn push_block(blocks: &mut Vec<Block>, block: Block)
    ensures
        block_views(final(blocks)@) == block_views(old(blocks)@).push(block@),
{
    let ghost before = blocks@;
    blocks.push(block);
    proof {
        assert(block_views(blocks@) =~= block_views(before).push(block@));
    }
}

} // verus!
