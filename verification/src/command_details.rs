//! One completed command in full.
use crate::key::{KeyCode, KeyEvent};
use crate::layout;
use crate::layout::Rect;
use crate::plan_model;
use crate::process_output::{CapturedOutput, CapturedStream};
use crate::provider_overlay;
use crate::text;
use crate::timeline;
use crate::timeline::{CommandFailure, CommandView, FinishedCommand, TimelineItem};
use crate::ui;
use crate::ui::{Block, Line, SemanticColor, Span, Style, StyledTextPart};
use vstd::prelude::*;

verus! {

/// Which command to look at.
#[derive(Debug, Clone, Copy, PartialEq, Eq, Structural)]
pub enum CommandNavigation {
    Latest,
    Previous,
    Next,
}

/// What is known of a command's output.
#[derive(Debug, PartialEq, Eq)]
pub enum DetailsOutput {
    Loading,
    Ready(CapturedOutput),
    Failed(String),
}

/// How the details were laid out last: to which width, and into how many lines.
#[derive(Debug, Clone, Copy, PartialEq, Eq, Structural)]
pub struct DetailsLayout {
    pub width: u16,
    pub lines: usize,
}

/// One completed command.
#[derive(Debug, PartialEq, Eq)]
pub struct CommandDetails {
    pub timeline_index: usize,
    pub ordinal: usize,
    pub total: usize,
    pub view: FinishedCommand,
    pub output: DetailsOutput,
    pub scroll: usize,
    pub feedback: Option<String>,
    pub layout: Option<DetailsLayout>,
}

/// What the details ask for after a key press.
#[derive(Debug, PartialEq, Eq)]
pub enum DetailsKeyResult {
    Consumed,
    Close,
    PreviousCommand,
    NextCommand,
    CopyText(String),
}

pub enum DetailsKeyView {
    Consumed,
    Close,
    PreviousCommand,
    NextCommand,
    CopyText(Seq<char>),
}

impl View for DetailsKeyResult {
    type V = DetailsKeyView;

    open spec fn view(&self) -> DetailsKeyView {
        match self {
            DetailsKeyResult::Consumed => DetailsKeyView::Consumed,
            DetailsKeyResult::Close => DetailsKeyView::Close,
            DetailsKeyResult::PreviousCommand => DetailsKeyView::PreviousCommand,
            DetailsKeyResult::NextCommand => DetailsKeyView::NextCommand,
            DetailsKeyResult::CopyText(t) => DetailsKeyView::CopyText(t@),
        }
    }
}

/// One completed command, as mathematical values.
pub struct DetailsView {
    pub timeline_index: int,
    pub ordinal: int,
    pub total: int,
    pub view: FinishedCommand,
    pub output: DetailsOutput,
    pub scroll: int,
    pub feedback: Option<Seq<char>>,
    pub layout: Option<DetailsLayout>,
}

impl View for CommandDetails {
    type V = DetailsView;

    open spec fn view(&self) -> DetailsView {
        DetailsView {
            timeline_index: self.timeline_index as int,
            ordinal: self.ordinal as int,
            total: self.total as int,
            view: self.view,
            output: self.output,
            scroll: self.scroll as int,
            feedback: plan_model::opt(self.feedback),
            layout: self.layout,
        }
    }
}

/// A number of lines further up.
pub open spec fn up_by(scroll: int, n: int) -> int {
    if scroll > n {
        scroll - n
    } else {
        0
    }
}

/// A number of lines further down, as far as lines can be counted.
pub open spec fn down_by(scroll: int, n: int) -> int {
    if scroll + n > usize::MAX {
        usize::MAX as int
    } else {
        scroll + n
    }
}

/// The details after a key press. Keys with control or alt mean nothing here.
pub open spec fn details_key(d: DetailsView, key: KeyEvent) -> (DetailsView, DetailsKeyView) {
    if key.modifiers.control || key.modifiers.alt {
        (d, DetailsKeyView::Consumed)
    } else {
        match key.code {
            KeyCode::Esc => (d, DetailsKeyView::Close),
            KeyCode::Left => (d, DetailsKeyView::PreviousCommand),
            KeyCode::Char('[') => (d, DetailsKeyView::PreviousCommand),
            KeyCode::Right => (d, DetailsKeyView::NextCommand),
            KeyCode::Char(']') => (d, DetailsKeyView::NextCommand),
            KeyCode::Char('c') => (d, DetailsKeyView::CopyText(d.view.command@)),
            KeyCode::Char('C') => (d, DetailsKeyView::CopyText(d.view.command@)),
            KeyCode::Char('y') => copying_output(d),
            KeyCode::Char('Y') => copying_output(d),
            KeyCode::Up => (
                DetailsView { scroll: up_by(d.scroll, 1), ..d },
                DetailsKeyView::Consumed,
            ),
            KeyCode::Down => (
                DetailsView { scroll: down_by(d.scroll, 1), ..d },
                DetailsKeyView::Consumed,
            ),
            KeyCode::PageUp => (
                DetailsView { scroll: up_by(d.scroll, 10), ..d },
                DetailsKeyView::Consumed,
            ),
            KeyCode::PageDown => (
                DetailsView { scroll: down_by(d.scroll, 10), ..d },
                DetailsKeyView::Consumed,
            ),
            KeyCode::Home => (DetailsView { scroll: 0, ..d }, DetailsKeyView::Consumed),
            KeyCode::End => (
                DetailsView { scroll: usize::MAX as int, ..d },
                DetailsKeyView::Consumed,
            ),
            _ => (d, DetailsKeyView::Consumed),
        }
    }
}

/// Copying the output, or saying that it is not there yet.
pub open spec fn copying_output(d: DetailsView) -> (DetailsView, DetailsKeyView) {
    match d.output {
        DetailsOutput::Ready(output) => (d, DetailsKeyView::CopyText(output.copied())),
        _ => (
            DetailsView { feedback: Some("Output is not available yet"@), ..d },
            DetailsKeyView::Consumed,
        ),
    }
}

/// Details whose output has arrived, or will not.
pub open spec fn with_output(d: DetailsView, after: DetailsView, result: Result<CapturedOutput, String>) -> bool {
    after == (DetailsView {
        layout: None,
        feedback: None,
        output: match result {
            Ok(output) => DetailsOutput::Ready(output),
            Err(error) => DetailsOutput::Failed(error),
        },
        ..d
    })
}

impl CommandDetails {
    pub fn new(timeline_index: usize, ordinal: usize, total: usize, view: FinishedCommand) -> (r:
        CommandDetails)
        ensures
            r@ == (DetailsView {
                timeline_index: timeline_index as int,
                ordinal: ordinal as int,
                total: total as int,
                view,
                output: DetailsOutput::Loading,
                scroll: 0,
                feedback: None,
                layout: None,
            }),
    {
        CommandDetails {
            timeline_index,
            ordinal,
            total,
            view,
            output: DetailsOutput::Loading,
            scroll: 0,
            feedback: None,
            layout: None,
        }
    }

    pub fn artifact_id(&self) -> (r: &str)
        ensures
            r@ == self@.view.artifact_id@,
    {
        self.view.artifact_id.as_str()
    }

    pub fn set_feedback(&mut self, feedback: String)
        ensures
            final(self)@ == (DetailsView { feedback: Some(feedback@), ..old(self)@ }),
    {
        self.feedback = Some(feedback);
    }

    pub fn handle_key(&mut self, key: KeyEvent) -> (r: DetailsKeyResult)
        ensures
            final(self)@ == details_key(old(self)@, key).0,
            r@ == details_key(old(self)@, key).1,
    {
        if key.modifiers.control || key.modifiers.alt {
            return DetailsKeyResult::Consumed;
        }
        match key.code {
            KeyCode::Esc => DetailsKeyResult::Close,
            KeyCode::Left | KeyCode::Char('[') => DetailsKeyResult::PreviousCommand,
            KeyCode::Right | KeyCode::Char(']') => DetailsKeyResult::NextCommand,
            KeyCode::Char('c') | KeyCode::Char('C') => DetailsKeyResult::CopyText(
                self.view.command.clone(),
            ),
            KeyCode::Char('y') | KeyCode::Char('Y') => match &self.output {
                DetailsOutput::Ready(output) => DetailsKeyResult::CopyText(output.copy_text()),
                _ => {
                    self.feedback = Some("Output is not available yet".to_owned());
                    DetailsKeyResult::Consumed
                },
            },
            KeyCode::Up => {
                self.scroll = self.scroll.saturating_sub(1);
                DetailsKeyResult::Consumed
            },
            KeyCode::Down => {
                self.scroll = self.scroll.saturating_add(1);
                DetailsKeyResult::Consumed
            },
            KeyCode::PageUp => {
                self.scroll = self.scroll.saturating_sub(10);
                DetailsKeyResult::Consumed
            },
            KeyCode::PageDown => {
                self.scroll = self.scroll.saturating_add(10);
                DetailsKeyResult::Consumed
            },
            KeyCode::Home => {
                self.scroll = 0;
                DetailsKeyResult::Consumed
            },
            KeyCode::End => {
                self.scroll = usize::MAX;
                DetailsKeyResult::Consumed
            },
            _ => DetailsKeyResult::Consumed,
        }
    }

    /// Takes over an output that was loaded. One of another command, which has been left
    /// since, is ignored.
    pub fn apply_output(&mut self, artifact_id: &str, result: Result<CapturedOutput, String>)
        ensures
            if old(self)@.view.artifact_id@ == artifact_id@ {
                with_output(old(self)@, final(self)@, result)
            } else {
                final(self)@ == old(self)@
            },
    {
        if text::same(self.artifact_id(), artifact_id) {
            self.layout = None;
            self.feedback = None;
            self.output = match result {
                Ok(output) => DetailsOutput::Ready(output),
                Err(error) => DetailsOutput::Failed(error),
            };
        }
    }

    /// Whether the details have to be laid out again.
    pub fn needs_layout(&self, width: u16) -> (r: bool)
        ensures
            r == !(self@.layout matches Some(l) && l.width == width),
    {
        match self.layout {
            Some(l) => l.width != width,
            None => true,
        }
    }

    /// Takes over a new layout, if there is one, and keeps the view within the lines.
    pub fn settle(&mut self, layout: Option<DetailsLayout>, height: u16)
        ensures
            ({
                let known = if layout is Some {
                    layout
                } else {
                    old(self)@.layout
                };
                final(self)@ == (DetailsView {
                    layout: known,
                    scroll: match known {
                        Some(l) => layout::smaller(
                            old(self)@.scroll,
                            layout::rest_of(l.lines as int, height as int),
                        ),
                        None => old(self)@.scroll,
                    },
                    ..old(self)@
                })
            }),
    {
        match layout {
            Some(l) => self.layout = Some(l),
            None => {},
        }
        match self.layout {
            Some(l) => {
                let last: usize = l.lines.saturating_sub(height as usize);
                if self.scroll >= last {
                    self.scroll = last;
                }
            },
            None => {},
        }
    }
}

/// The places of the completed commands among the first `n` items.
pub open spec fn finished_among(items: Seq<timeline::ItemView>, n: int) -> Seq<int>
    decreases n,
{
    if n <= 0 {
        Seq::empty()
    } else if items[n - 1] is Finished {
        finished_among(items, n - 1).push(n - 1)
    } else {
        finished_among(items, n - 1)
    }
}

/// The places of the completed commands.
pub open spec fn finished_commands(items: Seq<timeline::ItemView>) -> Seq<int> {
    finished_among(items, items.len() as int)
}

/// The first place in a list where `x` stands, from `i` on.
pub open spec fn index_in(s: Seq<int>, x: int, i: int) -> Option<int>
    decreases s.len() - i,
{
    if i < 0 || i >= s.len() {
        None
    } else if s[i] == x {
        Some(i)
    } else {
        index_in(s, x, i + 1)
    }
}

/// Which of some commands is looked at next.
pub open spec fn next_position(count: int, current: Option<int>, direction: CommandNavigation) -> int {
    match (current, direction) {
        (Some(p), CommandNavigation::Next) => layout::smaller(p + 1, count - 1),
        (Some(p), CommandNavigation::Previous) => up_by(p, 1),
        _ => count - 1,
    }
}

/// What comes of looking for a command.
#[derive(Debug, PartialEq, Eq)]
pub enum Inspection {
    /// There is none; the message says so.
    NoCommands,
    /// It is the one that is looked at already.
    Unchanged,
    /// It is this one; its output has to be loaded.
    Open(CommandDetails),
}

pub open spec fn no_commands_message() -> Seq<char> {
    "No completed commands yet. Running commands will be available after completion."@
}

impl Inspection {
    /// What is said where there is no command.
    pub fn no_commands_text() -> (r: &'static str)
        ensures
            r@ == no_commands_message(),
    {
        "No completed commands yet. Running commands will be available after completion."
    }
}

/// Finds the command to look at: the latest one, or the one before or after the one that
/// is looked at, which stands at `current` in the timeline.
pub fn inspect_command(
    items: &Vec<TimelineItem>,
    current: Option<usize>,
    direction: CommandNavigation,
) -> (r: Inspection)
    ensures
        ({
            let all = timeline::item_views(items@);
            let places = finished_commands(all);
            let at = match current {
                Some(c) => index_in(places, c as int, 0),
                None => None,
            };
            let to = next_position(places.len() as int, at, direction);
            if places.len() == 0 {
                r is NoCommands
            } else if at == Some(to) {
                r is Unchanged
            } else {
                r matches Inspection::Open(d) && 0 <= to < places.len() && d@.timeline_index
                    == places[to] && d@.ordinal == to + 1 && d@.total == places.len()
                    && timeline::ItemView::Finished(d@.view@) == all[places[to]] && d@.output
                    is Loading && d@.scroll == 0 && d@.feedback is None && d@.layout is None
            }
        }),
{
    let ghost all = timeline::item_views(items@);
    let mut places: Vec<usize> = Vec::new();
    let mut i: usize = 0;
    proof {
        assert(places@.map_values(|p: usize| p as int) =~= finished_among(all, 0));
    }
    while i < items.len()
        invariant
            i <= items@.len(),
            all == timeline::item_views(items@),
            places@.len() <= i,
            places@.map_values(|p: usize| p as int) == finished_among(all, i as int),
            forall|k: int|
                0 <= k < places@.len() ==> (#[trigger] places@[k]) < i && all[places@[k] as int] is Finished,
        decreases items@.len() - i,
    {
        let ghost before = places@;
        if items[i].is_finished_command() {
            places.push(i);
            proof {
                assert(places@.map_values(|p: usize| p as int) =~= before.map_values(
                    |p: usize| p as int,
                ).push(i as int));
            }
        }
        i += 1;
    }
    let ghost seen = places@.map_values(|p: usize| p as int);
    proof {
        assert(seen == finished_commands(all));
        assert(seen.len() == places@.len());
    }
    if places.len() == 0 {
        return Inspection::NoCommands;
    }
    let mut at: Option<usize> = None;
    match current {
        Some(c) => {
            let mut k: usize = 0;
            while k < places.len()
                invariant_except_break
                    k <= places@.len(),
                    at is None,
                    seen == places@.map_values(|p: usize| p as int),
                    index_in(seen, c as int, 0) == index_in(seen, c as int, k as int),
                ensures
                    match at {
                        Some(p) => p < places@.len() && index_in(seen, c as int, 0) == Some(
                            p as int,
                        ),
                        None => index_in(seen, c as int, 0) is None,
                    },
                decreases places@.len() - k,
            {
                proof {
                    assert(seen[k as int] == places@[k as int] as int);
                }
                if places[k] == c {
                    at = Some(k);
                    break;
                }
                k += 1;
            }
        },
        None => {},
    }
    let last: usize = places.len() - 1;
    let to: usize = match (at, direction) {
        (Some(p), CommandNavigation::Next) => if p < last {
            p + 1
        } else {
            last
        },
        (Some(p), CommandNavigation::Previous) => p.saturating_sub(1),
        _ => last,
    };
    if at == Some(to) {
        return Inspection::Unchanged;
    }
    let index = places[to];
    proof {
        assert(seen[to as int] == index as int);
        assert(all[index as int] is Finished);
    }
    match &items[index] {
        TimelineItem::Command { view: CommandView::Finished(view) } => {
            let copy = copy_finished(view);
            Inspection::Open(CommandDetails::new(index, to + 1, places.len(), copy))
        },
        _ => Inspection::Unchanged,
    }
}

fn copy_finished(f: &FinishedCommand) -> (r: FinishedCommand)
    ensures
        r@ == f@,
{
    let lines = crate::ordered::clone_texts(&f.preview.lines);
    FinishedCommand {
        detail: f.detail.clone(),
        exit_code: f.exit_code,
        failure: f.failure,
        preview: timeline::ProcessOutputPreview { lines, truncated: f.preview.truncated },
        command: f.command.clone(),
        cwd: f.cwd.clone(),
        artifact_id: f.artifact_id.clone(),
        elapsed: match &f.elapsed {
            Some(e) => Some(
                timeline::Elapsed { millis: e.millis, seconds_text: e.seconds_text.clone() },
            ),
            None => None,
        },
    }
}

/// Looking at the next command and then at the previous one leads back, and so does the
/// other way round, where there are such commands.
pub proof fn neighbours_lead_back(count: int, p: int)
    requires
        0 <= p < count,
    ensures
        p + 1 < count ==> next_position(
            count,
            Some(next_position(count, Some(p), CommandNavigation::Next)),
            CommandNavigation::Previous,
        ) == p,
        p > 0 ==> next_position(
            count,
            Some(next_position(count, Some(p), CommandNavigation::Previous)),
            CommandNavigation::Next,
        ) == p,
{
}

/// A line as it is shown: without control characters, tabs as blanks.
pub open spec fn shown_line(line: Seq<char>) -> Seq<char>
    decreases line.len(),
{
    if line.len() == 0 {
        line
    } else if line.last() == '\t' {
        shown_line(line.drop_last()) + "    "@
    } else if text::is_control_char(line.last()) {
        shown_line(line.drop_last())
    } else {
        shown_line(line.drop_last()).push(line.last())
    }
}

fn show_line(line: &str) -> (r: String)
    ensures
        r@ == shown_line(line@),
{
    let v = text::chars_of(line);
    let mut r = String::new();
    let mut i: usize = 0;
    proof {
        assert(v@.take(0) =~= Seq::<char>::empty());
    }
    while i < v.len()
        invariant
            i <= v@.len(),
            v@ == line@,
            r@ == shown_line(v@.take(i as int)),
        decreases v@.len() - i,
    {
        proof {
            assert(v@.take(i + 1).drop_last() =~= v@.take(i as int));
        }
        if v[i] == '\t' {
            r.append("    ");
        } else if !text::is_control(v[i]) {
            r.push(v[i]);
        }
        i += 1;
    }
    proof {
        assert(v@.take(i as int) =~= v@);
    }
    r
}

/// The block of one line of text.
pub open spec fn text_block(line: Seq<char>, width: u16, color: SemanticColor) -> ui::BlockView {
    if shown_line(line).len() == 0 {
        ui::BlockView::Line(Seq::empty())
    } else {
        ui::BlockView::Wrapped {
            parts: seq![
                ui::PartView { text: shown_line(line), style: ui::colored(color), atomic: false },
            ],
            width,
            keep_leading_blanks: true,
        }
    }
}

/// The blocks of a text, line by line.
pub open spec fn text_blocks(lines: Seq<Seq<char>>, width: u16, color: SemanticColor) -> Seq<
    ui::BlockView,
> {
    lines.map_values(|l: Seq<char>| text_block(l, width, color))
}

pub open spec fn with_text(
    blocks: Seq<ui::BlockView>,
    s: Seq<char>,
    width: u16,
    color: SemanticColor,
) -> Seq<ui::BlockView> {
    blocks + text_blocks(text::split(s, '\n'), width, color)
}

fn append_text(blocks: &mut Vec<Block>, s: &str, width: u16, color: SemanticColor)
    ensures
        ui::block_views(final(blocks)@) == with_text(
            ui::block_views(old(blocks)@),
            s@,
            width,
            color,
        ),
{
    let lines = text::split_text(s, '\n');
    let ghost all = text::views(lines@);
    let ghost before = ui::block_views(blocks@);
    let mut i: usize = 0;
    proof {
        assert(before =~= before + text_blocks(all.take(0), width, color));
    }
    while i < lines.len()
        invariant
            i <= lines@.len(),
            all == text::views(lines@),
            ui::block_views(blocks@) == before + text_blocks(all.take(i as int), width, color),
        decreases lines@.len() - i,
    {
        let clean = show_line(lines[i].as_str());
        let block = if clean.as_str().is_empty() {
            Block::Line(Line::empty())
        } else {
            let parts = vec![
                StyledTextPart { text: clean, style: Style::color(color), atomic: false },
            ];
            proof {
                assert(ui::part_views(parts@) =~= seq![
                    ui::PartView { text: clean@, style: ui::colored(color), atomic: false },
                ]);
            }
            Block::Wrapped { parts, width, keep_leading_blanks: true }
        };
        ui::push_block(blocks, block);
        proof {
            assert(all[i as int] == lines@[i as int]@);
            assert(text_blocks(all.take(i + 1), width, color) =~= text_blocks(
                all.take(i as int),
                width,
                color,
            ).push(text_block(all[i as int], width, color)));
            assert(ui::block_views(blocks@) =~= before + text_blocks(
                all.take(i + 1),
                width,
                color,
            ));
        }
        i += 1;
    }
    proof {
        assert(all.take(i as int) =~= all);
    }
}

pub open spec fn blank_line() -> ui::BlockView {
    ui::BlockView::Line(Seq::empty())
}

/// What is shown of one of the two streams.
pub open spec fn with_stream(
    blocks: Seq<ui::BlockView>,
    label: Seq<char>,
    stream: CapturedStream,
    width: u16,
) -> Seq<ui::BlockView> {
    let a = blocks.push(
        ui::BlockView::Line(
            seq![ui::span(label, ui::colored(SemanticColor::Muted).bolded())],
        ),
    );
    let b = if stream.text@.len() == 0 {
        with_text(a, "(empty)"@, width, SemanticColor::Muted)
    } else {
        with_text(a, stream.text@, width, SemanticColor::Assistant)
    };
    let c = if stream.truncated {
        with_text(
            b,
            "… capture truncated; only captured output is available"@,
            width,
            SemanticColor::Warning,
        )
    } else {
        b
    };
    if stream.utf8 == Some(false) {
        with_text(
            c,
            "Non-UTF-8 output is displayed as text; the artifact retains the original bytes."@,
            width,
            SemanticColor::Warning,
        )
    } else {
        c
    }
}

fn append_stream(blocks: &mut Vec<Block>, label: &str, stream: &CapturedStream, width: u16)
    ensures
        ui::block_views(final(blocks)@) == with_stream(
            ui::block_views(old(blocks)@),
            label@,
            *stream,
            width,
        ),
{
    ui::push_block(
        blocks,
        Block::Line(Line::one(Span::of(label, Style::color(SemanticColor::Muted).bold()))),
    );
    if stream.text.as_str().is_empty() {
        append_text(blocks, "(empty)", width, SemanticColor::Muted);
    } else {
        append_text(blocks, stream.text.as_str(), width, SemanticColor::Assistant);
    }
    if stream.truncated {
        append_text(
            blocks,
            "… capture truncated; only captured output is available",
            width,
            SemanticColor::Warning,
        );
    }
    if stream.utf8 == Some(false) {
        append_text(
            blocks,
            "Non-UTF-8 output is displayed as text; the artifact retains the original bytes.",
            width,
            SemanticColor::Warning,
        );
    }
}

/// A signed number in decimal.
pub open spec fn signed_decimal(n: int) -> Seq<char> {
    if n < 0 {
        seq!['-'] + text::decimal((-n) as nat)
    } else {
        text::decimal(n as nat)
    }
}

pub fn signed_decimal_text(n: i64) -> (r: String)
    ensures
        r@ == signed_decimal(n as int),
{
    if n < 0 {
        let magnitude: u64 = (-(n as i128)) as u64;
        let mut r = String::new();
        r.push('-');
        r.append(text::decimal_text(magnitude).as_str());
        proof {
            assert(r@ =~= seq!['-'] + text::decimal((-n) as nat));
        }
        r
    } else {
        text::decimal_text(n as u64)
    }
}

/// How a command ended, and how long it took.
pub open spec fn status_text(view: FinishedCommand) -> Seq<char> {
    let status = match view.failure {
        Some(CommandFailure::Cancelled) => "Cancelled"@,
        Some(CommandFailure::Failed) => "Failed"@,
        None => match view.exit_code {
            Some(code) => "Exit: "@ + signed_decimal(code as int),
            None => "Exit: unknown"@,
        },
    };
    match view.elapsed {
        Some(e) => status + " · Elapsed: "@ + e.seconds_text@ + "s (including waiting)"@,
        None => status,
    }
}

/// Whether a command went wrong by itself.
pub open spec fn went_wrong(view: FinishedCommand) -> bool {
    (view.exit_code matches Some(code) && code != 0) || view.failure == Some(
        CommandFailure::Failed,
    )
}

/// What is shown of a command: the command line, where it ran, how it ended, and what it
/// printed.
pub open spec fn details_content(d: DetailsView, width: u16) -> Seq<ui::BlockView> {
    let a = with_text(
        Seq::empty(),
        if d.view.command@.len() == 0 {
            d.view.detail@
        } else {
            d.view.command@
        },
        width,
        SemanticColor::Assistant,
    );
    let b = with_text(a, "Directory: "@ + d.view.cwd@, width, SemanticColor::Muted);
    let c = with_text(
        b,
        status_text(d.view),
        width,
        if went_wrong(d.view) {
            SemanticColor::Error
        } else {
            SemanticColor::Muted
        },
    ).push(blank_line());
    match d.output {
        DetailsOutput::Loading => with_text(
            c,
            "Loading captured output…"@,
            width,
            SemanticColor::Muted,
        ),
        DetailsOutput::Failed(error) => with_text(
            c,
            "Could not load output: "@ + error@,
            width,
            SemanticColor::Error,
        ),
        DetailsOutput::Ready(CapturedOutput::Text(t)) => with_text(
            c,
            t@,
            width,
            SemanticColor::Assistant,
        ),
        DetailsOutput::Ready(CapturedOutput::Process { stdout, stderr }) => with_stream(
            with_stream(c, "stdout"@, stdout, width).push(blank_line()),
            "stderr"@,
            stderr,
            width,
        ),
    }
}

pub fn content_lines(details: &CommandDetails, width: u16) -> (r: Vec<Block>)
    ensures
        ui::block_views(r@) == details_content(details@, width),
{
    let mut blocks: Vec<Block> = Vec::new();
    proof {
        assert(ui::block_views(blocks@) =~= Seq::empty());
    }
    let view = &details.view;
    let line = if view.command.as_str().is_empty() {
        view.detail.as_str()
    } else {
        view.command.as_str()
    };
    append_text(&mut blocks, line, width, SemanticColor::Assistant);
    append_text(
        &mut blocks,
        text::cat2("Directory: ", view.cwd.as_str()).as_str(),
        width,
        SemanticColor::Muted,
    );
    let ended = match view.failure {
        Some(CommandFailure::Cancelled) => "Cancelled".to_owned(),
        Some(CommandFailure::Failed) => "Failed".to_owned(),
        None => match view.exit_code {
            Some(code) => text::cat2("Exit: ", signed_decimal_text(code).as_str()),
            None => "Exit: unknown".to_owned(),
        },
    };
    let status = match &view.elapsed {
        Some(e) => text::cat4(
            ended.as_str(),
            " · Elapsed: ",
            e.seconds_text.as_str(),
            "s (including waiting)",
        ),
        None => ended,
    };
    let wrong = match view.exit_code {
        Some(code) => code != 0,
        None => false,
    } || view.failure == Some(CommandFailure::Failed);
    append_text(
        &mut blocks,
        status.as_str(),
        width,
        if wrong {
            SemanticColor::Error
        } else {
            SemanticColor::Muted
        },
    );
    ui::push_block(&mut blocks, Block::Line(Line::empty()));
    match &details.output {
        DetailsOutput::Loading => append_text(
            &mut blocks,
            "Loading captured output…",
            width,
            SemanticColor::Muted,
        ),
        DetailsOutput::Failed(error) => append_text(
            &mut blocks,
            text::cat2("Could not load output: ", error.as_str()).as_str(),
            width,
            SemanticColor::Error,
        ),
        DetailsOutput::Ready(CapturedOutput::Text(t)) => append_text(
            &mut blocks,
            t.as_str(),
            width,
            SemanticColor::Assistant,
        ),
        DetailsOutput::Ready(CapturedOutput::Process { stdout, stderr }) => {
            append_stream(&mut blocks, "stdout", stdout, width);
            ui::push_block(&mut blocks, Block::Line(Line::empty()));
            append_stream(&mut blocks, "stderr", stderr, width);
        },
    }
    blocks
}

/// The hints below the details: how to move, what the keys do, and what has just happened.
pub open spec fn hint_texts(details: DetailsView, close_key: Option<Seq<char>>, width: u16) -> Seq<
    Seq<char>,
> {
    let close = match close_key {
        Some(key) => key + " / Esc close"@,
        None => "Esc close"@,
    };
    seq![
        if width < 50 {
            "←/→ cmd ↑/↓ scroll"@
        } else {
            "←/→ command · ↑/↓/PgUp/PgDn scroll"@
        },
        close + " · "@ + (if width < 50 {
            "C/Y copy"@
        } else {
            "C copy command · Y copy output"@
        }),
        match details.feedback {
            Some(f) => f,
            None => Seq::empty(),
        },
    ]
}

/// The hints below the details, the last one as a warning.
pub fn footer_hints(details: &CommandDetails, close_key: Option<&str>, width: u16) -> (r: Vec<
    String,
>)
    ensures
        text::views(r@) == hint_texts(details@, provider_overlay::opt_str(close_key), width),
{
    let close = match close_key {
        Some(key) => text::cat2(key, " / Esc close"),
        None => "Esc close".to_owned(),
    };
    let (navigation, copy) = if width < 50 {
        ("←/→ cmd ↑/↓ scroll", "C/Y copy")
    } else {
        ("←/→ command · ↑/↓/PgUp/PgDn scroll", "C copy command · Y copy output")
    };
    let feedback = match &details.feedback {
        Some(f) => f.clone(),
        None => String::new(),
    };
    let r = vec![navigation.to_owned(), text::cat3(close.as_str(), " · ", copy), feedback];
    proof {
        assert(text::views(r@) =~= hint_texts(
            details@,
            provider_overlay::opt_str(close_key),
            width,
        ));
    }
    r
}

/// The details on the screen: the whole, the body, and the hints below it.
#[derive(Debug, Clone, Copy, PartialEq, Eq, Structural)]
pub struct DetailsRegions {
    pub region: Rect,
    pub body: Rect,
    pub footer: Rect,
}

/// Where the details stand on a screen when their hints take this many rows.
pub open spec fn regions_of(area: Rect, hint_rows: int) -> DetailsRegions {
    let width = layout::smaller(layout::rest_of(area.width as int, 2), 120) as u16;
    let height = layout::rest_of(area.height as int, 2) as u16;
    let region = layout::centered_in(area, width, height);
    let inner = region.within_margin();
    let footer_height = layout::smaller(
        layout::smaller(hint_rows, u16::MAX as int),
        layout::rest_of(inner.height as int, 1),
    );
    DetailsRegions {
        region,
        body: Rect { height: (inner.height - footer_height) as u16, ..inner },
        footer: Rect {
            x: inner.x,
            y: layout::capped_sum(inner.y as int, inner.height - footer_height) as u16,
            width: inner.width,
            height: footer_height as u16,
        },
    }
}

/// The width of the details' inside, to which the hints are wrapped.
pub open spec fn inner_width(area: Rect) -> u16 {
    layout::centered_in(
        area,
        layout::smaller(layout::rest_of(area.width as int, 2), 120) as u16,
        layout::rest_of(area.height as int, 2) as u16,
    ).within_margin().width
}

fn details_region(area: Rect) -> (r: Rect)
    requires
        area.x + area.width <= u16::MAX,
        area.y + area.height <= u16::MAX,
    ensures
        r == layout::centered_in(
            area,
            layout::smaller(layout::rest_of(area.width as int, 2), 120) as u16,
            layout::rest_of(area.height as int, 2) as u16,
        ),
        r.x + r.width <= u16::MAX,
        r.y + r.height <= u16::MAX,
{
    let inner_room: u16 = area.width.saturating_sub(2);
    let width: u16 = if inner_room < 120 {
        inner_room
    } else {
        120
    };
    let height: u16 = area.height.saturating_sub(2);
    layout::centered(area, width, height)
}

/// Places the details on a screen, given how many rows their hints take.
pub fn place_details(area: Rect, hint_rows: usize) -> (r: DetailsRegions)
    requires
        area.x + area.width <= u16::MAX,
        area.y + area.height <= u16::MAX,
    ensures
        r == regions_of(area, hint_rows as int),
{
    let region = details_region(area);
    let inner = region.inner();
    let rows: u16 = if hint_rows > 65535 {
        u16::MAX
    } else {
        hint_rows as u16
    };
    let room: u16 = inner.height.saturating_sub(1);
    let footer_height: u16 = if rows < room {
        rows
    } else {
        room
    };
    let body = Rect {
        x: inner.x,
        y: inner.y,
        width: inner.width,
        height: inner.height - footer_height,
    };
    DetailsRegions {
        region,
        body,
        footer: Rect {
            x: inner.x,
            y: body.bottom(),
            width: inner.width,
            height: footer_height,
        },
    }
}

/// Places the details on a screen.
pub fn regions(area: Rect, details: &CommandDetails, close_key: Option<&str>) -> (r: DetailsRegions)
    requires
        area.x + area.width <= u16::MAX,
        area.y + area.height <= u16::MAX,
    ensures
        r == regions_of(
            area,
            layout::wrapped_rows(
                layout::unbroken(
                    hint_texts(details@, provider_overlay::opt_str(close_key), inner_width(area)),
                ),
                inner_width(area),
            ) as int,
        ),
{
    let width: u16 = details_region(area).inner().width;
    let hints = footer_hints(details, close_key, width);
    let rows: usize = layout::count_text_rows(&hints, width);
    place_details(area, rows)
}

/// The body and the hints fill the inside between them, one below the other, and the body
/// keeps at least one row where there is one.
pub proof fn details_fill_their_region(area: Rect, hint_rows: int)
    requires
        area.x + area.width <= u16::MAX,
        area.y + area.height <= u16::MAX,
        0 <= hint_rows,
    ensures
        ({
            let d = regions_of(area, hint_rows);
            let inner = d.region.within_margin();
            &&& d.body.height + d.footer.height == inner.height
            &&& d.footer.y == d.body.y + d.body.height
            &&& inner.height > 0 ==> d.body.height > 0
        }),
{
}

/// The title of the details.
pub fn details_title(details: &CommandDetails) -> (r: String)
    ensures
        r@ == " Command "@ + text::decimal(details@.ordinal as nat) + "/"@ + text::decimal(
            details@.total as nat,
        ) + " "@,
{
    text::cat5(
        " Command ",
        text::decimal_text(details.ordinal as u64).as_str(),
        "/",
        text::decimal_text(details.total as u64).as_str(),
        " ",
    )
}

/// The first of `lines` lines that is shown in a body of this height.
pub fn first_visible_line(details: &CommandDetails, lines: usize, height: u16) -> (r: usize)
    ensures
        r == layout::smaller(
            details@.scroll,
            layout::rest_of(lines as int, height as int),
        ),
        r <= lines,
{
    let last: usize = lines.saturating_sub(height as usize);
    if details.scroll < last {
        details.scroll
    } else {
        last
    }
}

/// The details of a command scroll with the keys, line by line and page by page, not past the
/// top; nothing else of them changes by it, and keys with control or alt do nothing.
pub proof fn details_scroll_with_the_keys(d: DetailsView, key: KeyEvent)
    requires
        0 <= d.scroll <= usize::MAX,
    ensures
        ({
            let (after, result) = details_key(d, key);
            let plain = !key.modifiers.control && !key.modifiers.alt;
            &&& after.timeline_index == d.timeline_index
            &&& after.view == d.view
            &&& after.output == d.output
            &&& !plain ==> after == d && result == DetailsKeyView::Consumed
            &&& plain && key.code == KeyCode::Up ==> after.scroll == (if d.scroll >= 1 {
                d.scroll - 1
            } else {
                0
            })
            &&& plain && key.code == KeyCode::Down && d.scroll < usize::MAX ==> after.scroll
                == d.scroll + 1
            &&& plain && key.code == KeyCode::PageUp && d.scroll >= 10 ==> after.scroll == d.scroll
                - 10
            &&& plain && key.code == KeyCode::PageUp && d.scroll < 10 ==> after.scroll == 0
            &&& plain && key.code == KeyCode::PageDown && d.scroll + 10 <= usize::MAX
                ==> after.scroll == d.scroll + 10
            &&& plain && key.code == KeyCode::Home ==> after.scroll == 0
            &&& plain && key.code == KeyCode::End ==> after.scroll == usize::MAX
            &&& result == DetailsKeyView::Close <==> plain && key.code == KeyCode::Esc
            &&& result == DetailsKeyView::PreviousCommand <==> plain && (key.code == KeyCode::Left
                || key.code == KeyCode::Char('['))
            &&& result == DetailsKeyView::NextCommand <==> plain && (key.code == KeyCode::Right
                || key.code == KeyCode::Char(']'))
            &&& plain && (key.code == KeyCode::Char('c') || key.code == KeyCode::Char('C'))
                ==> result == DetailsKeyView::CopyText(d.view.command@)
            &&& plain && (key.code == KeyCode::Char('y') || key.code == KeyCode::Char('Y'))
                && d.output is Ready ==> result == DetailsKeyView::CopyText(
                d.output->Ready_0.copied(),
            )
            &&& plain && (key.code == KeyCode::Char('y') || key.code == KeyCode::Char('Y'))
                && !(d.output is Ready) ==> result == DetailsKeyView::Consumed
                && after.feedback is Some
        }),
{
}

/// The commands to look at are the finished ones of the conversation, all of them and in their
/// order.
pub proof fn finished_commands_are_found_in_order(items: Seq<timeline::ItemView>, n: int)
    requires
        0 <= n <= items.len(),
    ensures
        forall|i: int|
            finished_among(items, n).contains(i) <==> 0 <= i < n && (#[trigger] items[i]) is Finished,
        forall|a: int, b: int|
            0 <= a < b < finished_among(items, n).len() ==> #[trigger] finished_among(items, n)[a]
                < #[trigger] finished_among(items, n)[b],
        finished_commands(items) == finished_among(items, items.len() as int),
    decreases n,
{
    if n > 0 {
        finished_commands_are_found_in_order(items, n - 1);
        let before = finished_among(items, n - 1);
        let now = finished_among(items, n);
        assert forall|i: int|
            now.contains(i) <==> 0 <= i < n && (#[trigger] items[i]) is Finished by {
            if now.contains(i) {
                let k = choose|k: int| 0 <= k < now.len() && now[k] == i;
                if k < before.len() {
                    assert(before[k] == i);
                    assert(before.contains(i));
                }
            }
            if 0 <= i < n && items[i] is Finished {
                if i < n - 1 {
                    assert(before.contains(i));
                    let k = choose|k: int| 0 <= k < before.len() && before[k] == i;
                    assert(now[k] == i);
                } else {
                    assert(now[before.len() as int] == i);
                }
            }
        }
        assert forall|a: int, b: int| 0 <= a < b < now.len() implies #[trigger] now[a]
            < #[trigger] now[b] by {
            assert(now[a] == before[a]);
            assert(before.contains(before[a]));
            assert(items[before[a]] is Finished && before[a] < n - 1);
            if b < before.len() {
                assert(now[b] == before[b]);
                assert(before[a] < before[b]);
            }
        }
    }
}

/// Without one that is looked at, the last command comes first; else the one behind or before
/// it, and the first and the last stay.
pub proof fn commands_are_looked_at_in_turn(count: int, p: int)
    requires
        0 <= p < count,
    ensures
        next_position(count, None, CommandNavigation::Latest) == count - 1,
        next_position(count, Some(p), CommandNavigation::Latest) == count - 1,
        p + 1 < count ==> next_position(count, Some(p), CommandNavigation::Next) == p + 1,
        p + 1 == count ==> next_position(count, Some(p), CommandNavigation::Next) == p,
        p > 0 ==> next_position(count, Some(p), CommandNavigation::Previous) == p - 1,
        p == 0 ==> next_position(count, Some(p), CommandNavigation::Previous) == 0,
{
}

/// A line without control characters is shown as it stands, and no line is shown with one.
pub proof fn lines_are_shown_without_control_characters(line: Seq<char>)
    ensures
        forall|i: int|
            0 <= i < shown_line(line).len() ==> !text::is_control_char(#[trigger] shown_line(line)[i]),
        (forall|i: int| 0 <= i < line.len() ==> !text::is_control_char(#[trigger] line[i]))
            ==> shown_line(line) == line,
    decreases line.len(),
{
    reveal_strlit("    ");
    if line.len() > 0 {
        let init = line.drop_last();
        lines_are_shown_without_control_characters(init);
        assert(text::is_control_char('\t'));
        assert(!text::is_control_char(' '));
        assert forall|i: int| 0 <= i < shown_line(line).len() implies !text::is_control_char(
            #[trigger] shown_line(line)[i],
        ) by {
            if i < shown_line(init).len() {
                assert(shown_line(line)[i] == shown_line(init)[i]);
            }
        }
        if forall|i: int| 0 <= i < line.len() ==> !text::is_control_char(#[trigger] line[i]) {
            assert(!text::is_control_char(line[line.len() - 1]));
            assert forall|i: int| 0 <= i < init.len() implies !text::is_control_char(
                #[trigger] init[i],
            ) by {
                assert(init[i] == line[i]);
            }
            assert(shown_line(line) =~= line);
        }
    }
}

} // verus!
