//! The lines of the conversation's items.
use crate::command_details;
use crate::command_style;
use crate::plan_model;
use crate::text;
use crate::timeline;
use crate::timeline::{
    CommandFailure, CommandView, Elapsed, FinishedCommand, PatchChangeView, QueuedInputLane,
};
use crate::tool_output;
use crate::ui;
use crate::ui::{Block, Line, LinePart, SemanticColor, Span, Style, StyledTextPart};
use crate::width;
use crate::words;
use vstd::prelude::*;

verus! {

/// How many lines of a tool's result are shown.
pub const TOOL_RESULT_PREVIEW_MAX_LINES: usize = 5;

pub open spec fn muted() -> Style {
    ui::colored(SemanticColor::Muted)
}

pub open spec fn keyword_style() -> Style {
    ui::colored(SemanticColor::ToolKeyword).bolded()
}

/// What follows a word and a blank in a title, if the title is that word or begins so.
pub open spec fn after_word(title: Seq<char>, keyword: Seq<char>) -> Option<Seq<char>> {
    if title == keyword {
        Some(Seq::empty())
    } else if text::stands_at(title, keyword, 0) && title.len() > keyword.len()
        && title[keyword.len() as int] == ' ' {
        Some(title.skip(keyword.len() as int + 1))
    } else {
        None
    }
}

pub fn strip_tool_title_detail(title: &str, keyword: &str) -> (r: Option<String>)
    ensures
        plan_model::opt(r) == after_word(title@, keyword@),
{
    if text::same(title, keyword) {
        let none = String::new();
        proof {
            assert(none@ =~= Seq::empty());
        }
        return Some(none);
    }
    let v = text::chars_of(title);
    let k = text::chars_of(keyword);
    if text::begins_with(title, keyword) && v.len() > k.len() && v[k.len()] == ' ' {
        let rest = text::text_of(&v, k.len() + 1, v.len());
        proof {
            assert(rest@ =~= title@.skip(keyword@.len() as int + 1));
        }
        Some(rest)
    } else {
        None
    }
}

/// The words that titles of tools begin with, in the order in which they are tried.
pub open spec fn title_keyword(i: int) -> Seq<char> {
    if i == 0 {
        "Read"@
    } else if i == 1 {
        "Searched"@
    } else if i == 2 {
        "MCP"@
    } else if i == 3 {
        "Permission"@
    } else if i == 4 {
        "Patch"@
    } else {
        "Tool"@
    }
}

/// How many words there are.
pub const TITLE_KEYWORD_COUNT: usize = 6;

fn keyword_at(i: usize) -> (r: &'static str)
    requires
        i < TITLE_KEYWORD_COUNT,
    ensures
        r@ == title_keyword(i as int),
{
    match i {
        0 => "Read",
        1 => "Searched",
        2 => "MCP",
        3 => "Permission",
        4 => "Patch",
        _ => "Tool",
    }
}

/// The word that is a title, from `i` on.
pub open spec fn whole_keyword(title: Seq<char>, i: int) -> Option<int>
    decreases TITLE_KEYWORD_COUNT - i,
{
    if i < 0 || i >= TITLE_KEYWORD_COUNT {
        None
    } else if title == title_keyword(i) {
        Some(i)
    } else {
        whole_keyword(title, i + 1)
    }
}

/// The word that is a title.
pub fn tool_title_keyword(title: &str) -> (r: Option<&'static str>)
    ensures
        match r {
            Some(k) => whole_keyword(title@, 0) is Some && k@ == title_keyword(
                whole_keyword(title@, 0)->0,
            ),
            None => whole_keyword(title@, 0) is None,
        },
{
    let mut i: usize = 0;
    while i < TITLE_KEYWORD_COUNT
        invariant
            i <= TITLE_KEYWORD_COUNT,
            whole_keyword(title@, 0) == whole_keyword(title@, i as int),
        decreases TITLE_KEYWORD_COUNT - i,
    {
        let k = keyword_at(i);
        if text::same(title, k) {
            return Some(k);
        }
        i = i + 1;
    }
    None
}

/// The last place at or before `i` where a text stands in another.
pub open spec fn last_place(s: Seq<char>, needle: Seq<char>, i: int) -> Option<int>
    decreases i + 1,
{
    if i < 0 {
        None
    } else if text::stands_at(s, needle, i) {
        Some(i)
    } else {
        last_place(s, needle, i - 1)
    }
}

fn find_last(v: &Vec<char>, needle: &Vec<char>) -> (r: Option<usize>)
    ensures
        (match r {
            Some(i) => Some(i as int),
            None => None,
        }) == last_place(v@, needle@, v@.len() as int),
        r matches Some(i) ==> i + needle@.len() <= v@.len(),
{
    let mut i: usize = v.len();
    loop
        invariant
            i <= v@.len(),
            last_place(v@, needle@, v@.len() as int) == last_place(v@, needle@, i as int),
        decreases i,
    {
        if text::stands_at_chars(v, needle, i) {
            return Some(i);
        }
        if i == 0 {
            return None;
        }
        i = i - 1;
    }
}

/// A command's line, and what stands behind it: the last bracket, where the line ends with it
/// or goes on with an arrow.
pub open spec fn command_parts(detail: Seq<char>) -> (Seq<char>, Seq<char>) {
    match last_place(detail, " ("@, detail.len() as int) {
        None => (detail, Seq::empty()),
        Some(i) => {
            let suffix = detail.skip(i);
            let close = tool_output::place_of_char(suffix, ')', 0);
            if close >= suffix.len() {
                (detail, Seq::empty())
            } else {
                let behind = suffix.skip(close + 1);
                if behind.len() > 0 && !text::stands_at(behind, " -> "@, 0) {
                    (detail, Seq::empty())
                } else {
                    (detail.take(i), suffix)
                }
            }
        },
    }
}

pub fn split_command_suffix(detail: &str) -> (r: (String, String))
    ensures
        (r.0@, r.1@) == command_parts(detail@),
{
    let v = text::chars_of(detail);
    let none = String::new();
    proof {
        assert(none@ =~= Seq::empty());
    }
    let i = match find_last(&v, &text::chars_of(" (")) {
        Some(i) => i,
        None => {
            return (detail.to_owned(), none);
        },
    };
    let suffix = text::text_of(&v, i, v.len());
    let s = text::chars_of(suffix.as_str());
    proof {
        assert(s@ =~= detail@.skip(i as int));
    }
    let close = tool_output::find_char(&s, ')', 0);
    if close == s.len() {
        return (detail.to_owned(), none);
    }
    let behind = text::text_of(&s, close + 1, s.len());
    proof {
        assert(behind@ =~= s@.skip(close + 1));
    }
    if !behind.as_str().is_empty() && !text::begins_with(behind.as_str(), " -> ") {
        return (detail.to_owned(), none);
    }
    let command = text::text_of(&v, 0, i);
    proof {
        assert(command@ =~= detail@.take(i as int));
    }
    (command, suffix)
}

/// The command and what stands behind it are the whole.
pub proof fn splitting_keeps_the_detail(detail: Seq<char>)
    ensures
        command_parts(detail).0 + command_parts(detail).1 == detail,
{
    let parts = command_parts(detail);
    match last_place(detail, " ("@, detail.len() as int) {
        None => {
            assert(parts.0 + parts.1 =~= detail);
        },
        Some(i) => {
            lemma_last_place(detail, " ("@, detail.len() as int);
            assert(parts.0 + parts.1 =~= detail);
        },
    }
}

proof fn lemma_last_place(s: Seq<char>, needle: Seq<char>, i: int)
    ensures
        last_place(s, needle, i) matches Some(p) ==> 0 <= p <= i && text::stands_at(s, needle, p),
    decreases i + 1,
{
    if i >= 0 && !text::stands_at(s, needle, i) {
        lemma_last_place(s, needle, i - 1);
    }
}

/// The stretches of a command's title.
pub open spec fn command_title(keyword: Seq<char>, detail: Seq<char>) -> Seq<ui::SpanView> {
    let (command, suffix) = command_parts(detail);
    let head = seq![ui::span(keyword, keyword_style()), ui::span(" "@, muted())]
        + command_style::spans_from(command, 0, true);
    if suffix.len() == 0 {
        head
    } else {
        head.push(ui::span(suffix, muted()))
    }
}

fn command_title_line(keyword: &str, detail: &str) -> (r: Line)
    ensures
        r@ == command_title(keyword@, detail@),
        r@.len() >= 2,
{
    let (command, suffix) = split_command_suffix(detail);
    let mut line = Line::two(
        Span::of(keyword, Style::color(SemanticColor::ToolKeyword).bold()),
        Span::of(" ", Style::color(SemanticColor::Muted)),
    );
    let spans = command_style::command_spans(command.as_str());
    append_spans(&mut line, &spans);
    if !suffix.as_str().is_empty() {
        line.push(Span::styled(suffix, Style::color(SemanticColor::Muted)));
    }
    line
}

fn append_spans(line: &mut Line, spans: &Vec<Span>)
    ensures
        final(line)@ == old(line)@ + ui::span_views(spans@),
{
    let ghost before = line@;
    let ghost all = ui::span_views(spans@);
    let mut i: usize = 0;
    proof {
        assert(before + all.take(0) =~= before);
    }
    while i < spans.len()
        invariant
            i <= spans@.len(),
            all == ui::span_views(spans@),
            line@ == before + all.take(i as int),
        decreases spans@.len() - i,
    {
        line.push(spans[i].clone());
        proof {
            assert(before + all.take(i + 1) =~= (before + all.take(i as int)).push(
                all[i as int],
            ));
        }
        i = i + 1;
    }
    proof {
        assert(all.take(i as int) =~= all);
    }
}

fn line_as_parts(line: &Line) -> (r: Vec<LinePart>)
    ensures
        ui::line_parts(r@) == ui::spans_as_parts(line@),
{
    let mut parts: Vec<LinePart> = Vec::new();
    ui::push_spans(&mut parts, &line.spans);
    proof {
        assert(ui::line_parts(parts@) =~= ui::spans_as_parts(line@));
    }
    parts
}

/// The parts of a title that begins with one of the words.
pub open spec fn keyword_title(keyword: Seq<char>, detail: Seq<char>) -> Seq<ui::LinePartView> {
    let head = seq![ui::LinePartView::Span(ui::span(keyword, keyword_style()))];
    if detail.len() == 0 {
        head
    } else {
        head.push(ui::LinePartView::Span(ui::span(" "@, muted()))).push(
            ui::LinePartView::InlineCode {
                text: detail,
                style: ui::colored(SemanticColor::Assistant),
            },
        )
    }
}

pub fn tool_keyword_title_line(keyword: &str, detail: &str) -> (r: Vec<LinePart>)
    ensures
        ui::line_parts(r@) == keyword_title(keyword@, detail@),
{
    let mut parts: Vec<LinePart> = Vec::new();
    proof {
        assert(ui::line_parts(parts@) =~= Seq::empty());
    }
    ui::push_part(
        &mut parts,
        LinePart::Span(Span::of(keyword, Style::color(SemanticColor::ToolKeyword).bold())),
    );
    proof {
        assert(ui::line_parts(parts@) =~= seq![
            ui::LinePartView::Span(ui::span(keyword@, keyword_style())),
        ]);
    }
    if !detail.is_empty() {
        ui::push_part(
            &mut parts,
            LinePart::Span(Span::of(" ", Style::color(SemanticColor::Muted))),
        );
        ui::push_part(
            &mut parts,
            LinePart::InlineCode {
                text: detail.to_owned(),
                style: Style::color(SemanticColor::Assistant),
            },
        );
    }
    parts
}

/// The parts of a title that begins with one of the words from the `i`th on, if it does.
pub open spec fn keyword_title_from(title: Seq<char>, i: int) -> Option<Seq<ui::LinePartView>>
    decreases TITLE_KEYWORD_COUNT - i,
{
    if i < 0 || i >= TITLE_KEYWORD_COUNT {
        None
    } else {
        match after_word(title, title_keyword(i)) {
            Some(detail) => Some(keyword_title(title_keyword(i), detail)),
            None => keyword_title_from(title, i + 1),
        }
    }
}

/// The line of a command in a title, if the title is one of a command.
pub open spec fn ran_command(title: Seq<char>) -> Option<Seq<char>> {
    if text::stands_at(title, "Ran "@, 0) {
        Some(title.skip(4))
    } else if text::stands_at(title, "Ran: "@, 0) {
        Some(title.skip(5))
    } else {
        None
    }
}

/// The parts of a tool's title, if a title is one of a tool.
pub open spec fn tool_title(title: Seq<char>) -> Option<Seq<ui::LinePartView>> {
    match ran_command(title) {
        Some(command) => Some(ui::spans_as_parts(command_title("Ran"@, command))),
        None => keyword_title_from(title, 0),
    }
}

pub open spec fn opt_parts(p: Option<Vec<LinePart>>) -> Option<Seq<ui::LinePartView>> {
    match p {
        Some(v) => Some(ui::line_parts(v@)),
        None => None,
    }
}

pub fn tool_title_line(title: &str) -> (r: Option<Vec<LinePart>>)
    ensures
        opt_parts(r) == tool_title(title@),
{
    proof {
        reveal_strlit("Ran ");
        reveal_strlit("Ran: ");
    }
    let v = text::chars_of(title);
    if text::begins_with(title, "Ran ") {
        let command = text::text_of(&v, 4, v.len());
        proof {
            assert(command@ =~= title@.skip(4));
        }
        return Some(line_as_parts(&command_title_line("Ran", command.as_str())));
    }
    if text::begins_with(title, "Ran: ") {
        let command = text::text_of(&v, 5, v.len());
        proof {
            assert(command@ =~= title@.skip(5));
        }
        return Some(line_as_parts(&command_title_line("Ran", command.as_str())));
    }
    let mut i: usize = 0;
    while i < TITLE_KEYWORD_COUNT
        invariant
            i <= TITLE_KEYWORD_COUNT,
            ran_command(title@) is None,
            keyword_title_from(title@, 0) == keyword_title_from(title@, i as int),
        decreases TITLE_KEYWORD_COUNT - i,
    {
        let k = keyword_at(i);
        match strip_tool_title_detail(title, k) {
            Some(detail) => {
                return Some(tool_keyword_title_line(k, detail.as_str()));
            },
            None => {},
        }
        i = i + 1;
    }
    None
}

/// The parts of a tool's title that comes in two pieces, if it is one of a tool.
pub open spec fn tool_title_of(title: Seq<char>, detail: Seq<char>) -> Option<
    Seq<ui::LinePartView>,
> {
    if detail.len() == 0 {
        tool_title(title)
    } else if title == "Ran"@ {
        Some(ui::spans_as_parts(command_title("Ran"@, detail)))
    } else {
        match whole_keyword(title, 0) {
            Some(i) => Some(keyword_title(title_keyword(i), detail)),
            None => None,
        }
    }
}

pub fn tool_title_line_from_parts(title: &str, detail: &str) -> (r: Option<Vec<LinePart>>)
    ensures
        opt_parts(r) == tool_title_of(title@, detail@),
{
    if detail.is_empty() {
        return tool_title_line(title);
    }
    if text::same(title, "Ran") {
        return Some(line_as_parts(&command_title_line("Ran", detail)));
    }
    match tool_title_keyword(title) {
        Some(k) => Some(tool_keyword_title_line(k, detail)),
        None => None,
    }
}

/// The line of something that is told in passing.
pub open spec fn muted_line(title: Seq<char>, detail: Seq<char>) -> Seq<ui::LinePartView> {
    match tool_title_of(title, detail) {
        Some(parts) => parts,
        None => {
            let head = seq![ui::LinePartView::Span(ui::span(title, muted()))];
            if detail.len() == 0 {
                head
            } else {
                head.push(ui::LinePartView::Span(ui::span(" "@, muted()))).push(
                    ui::LinePartView::InlineCode { text: detail, style: muted() },
                )
            }
        },
    }
}

pub fn muted_lines(title: &str, detail: &str) -> (r: Vec<Block>)
    ensures
        ui::block_views(r@) == seq![ui::BlockView::Composed(muted_line(title@, detail@))],
{
    let parts = match tool_title_line_from_parts(title, detail) {
        Some(parts) => parts,
        None => {
            let mut parts: Vec<LinePart> = Vec::new();
            proof {
                assert(ui::line_parts(parts@) =~= Seq::empty());
            }
            ui::push_part(
                &mut parts,
                LinePart::Span(Span::of(title, Style::color(SemanticColor::Muted))),
            );
            proof {
                assert(ui::line_parts(parts@) =~= seq![
                    ui::LinePartView::Span(ui::span(title@, muted())),
                ]);
            }
            if !detail.is_empty() {
                ui::push_part(
                    &mut parts,
                    LinePart::Span(Span::of(" ", Style::color(SemanticColor::Muted))),
                );
                ui::push_part(
                    &mut parts,
                    LinePart::InlineCode {
                        text: detail.to_owned(),
                        style: Style::color(SemanticColor::Muted),
                    },
                );
            }
            parts
        },
    };
    let r = vec![Block::Composed(parts)];
    proof {
        assert(ui::block_views(r@) =~= seq![ui::BlockView::Composed(muted_line(title@, detail@))]);
    }
    r
}

/// The title of something that can be looked at more closely.
pub open spec fn expanded_title(title: Seq<char>) -> Seq<ui::LinePartView> {
    match tool_title(title) {
        Some(parts) => parts,
        None => seq![
            ui::LinePartView::Span(ui::span(title, ui::colored(SemanticColor::Focus))),
        ],
    }
}

pub fn expanded_title_line(title: &str) -> (r: Vec<LinePart>)
    ensures
        ui::line_parts(r@) == expanded_title(title@),
{
    match tool_title_line(title) {
        Some(parts) => parts,
        None => {
            let r = vec![LinePart::Span(Span::of(title, Style::color(SemanticColor::Focus)))];
            proof {
                assert(ui::line_parts(r@) =~= expanded_title(title@));
            }
            r
        },
    }
}

/// A number of bytes, or a dash.
pub open spec fn bytes_text(bytes: Option<u64>) -> Seq<char> {
    match bytes {
        Some(n) => text::decimal(n as nat),
        None => "-"@,
    }
}

fn bytes_label(bytes: Option<u64>) -> (r: String)
    ensures
        r@ == bytes_text(bytes),
{
    match bytes {
        Some(n) => text::decimal_text(n),
        None => "-".to_owned(),
    }
}

/// The two lines of a changed file.
pub open spec fn change_lines(c: timeline::ChangeView) -> Seq<ui::BlockView> {
    seq![
        ui::BlockView::Line(
            seq![
                ui::span(
                    "Edited "@ + c.path + " (+"@ + text::decimal(c.added as nat) + " -"@
                        + text::decimal(c.removed as nat) + ")"@,
                    ui::colored(SemanticColor::Focus).bolded(),
                ),
            ],
        ),
        ui::BlockView::Line(
            seq![
                ui::span(
                    "  "@ + text::decimal(c.hunks as nat) + " hunk(s), "@ + bytes_text(
                        c.bytes_before,
                    ) + " -> "@ + bytes_text(c.bytes_after) + " bytes"@,
                    muted(),
                ),
            ],
        ),
    ]
}

pub open spec fn patch_blocks(changes: Seq<timeline::ChangeView>) -> Seq<ui::BlockView>
    decreases changes.len(),
{
    if changes.len() == 0 {
        Seq::empty()
    } else {
        patch_blocks(changes.drop_last()) + change_lines(changes.last())
    }
}

pub fn compact_patch_lines(changes: &Vec<PatchChangeView>) -> (r: Vec<Block>)
    ensures
        ui::block_views(r@) == patch_blocks(timeline::change_views(changes@)),
{
    let ghost all = timeline::change_views(changes@);
    let mut r: Vec<Block> = Vec::new();
    let mut i: usize = 0;
    proof {
        assert(ui::block_views(r@) =~= Seq::empty());
        assert(all.take(0) =~= Seq::empty());
    }
    while i < changes.len()
        invariant
            i <= changes@.len(),
            all == timeline::change_views(changes@),
            ui::block_views(r@) == patch_blocks(all.take(i as int)),
        decreases changes@.len() - i,
    {
        let c = &changes[i];
        proof {
            assert(all.take(i + 1).drop_last() =~= all.take(i as int));
            assert(all.take(i + 1).last() == c@);
        }
        let ghost before = ui::block_views(r@);
        let head = text::cat7(
            "Edited ",
            c.path.as_str(),
            " (+",
            text::decimal_text(c.added as u64).as_str(),
            " -",
            text::decimal_text(c.removed as u64).as_str(),
            ")",
        );
        ui::push_block(
            &mut r,
            Block::Line(
                Line::one(Span::styled(head, Style::color(SemanticColor::Focus).bold())),
            ),
        );
        let detail = text::cat7(
            "  ",
            text::decimal_text(c.hunks as u64).as_str(),
            " hunk(s), ",
            bytes_label(c.bytes_before).as_str(),
            " -> ",
            bytes_label(c.bytes_after).as_str(),
            " bytes",
        );
        ui::push_block(
            &mut r,
            Block::Line(Line::one(Span::styled(detail, Style::color(SemanticColor::Muted)))),
        );
        proof {
            assert(ui::block_views(r@) =~= before + change_lines(c@));
        }
        i = i + 1;
    }
    proof {
        assert(all.take(i as int) =~= all);
    }
    r
}

/// A text without its control characters.
pub open spec fn printable(s: Seq<char>) -> Seq<char>
    decreases s.len(),
{
    if s.len() == 0 {
        Seq::empty()
    } else if text::is_control_char(s.last()) {
        printable(s.drop_last())
    } else {
        printable(s.drop_last()).push(s.last())
    }
}

fn without_controls(s: &str) -> (r: String)
    ensures
        r@ == printable(s@),
{
    let v = text::chars_of(s);
    let mut r = String::new();
    let mut i: usize = 0;
    proof {
        assert(s@.take(0) =~= Seq::empty());
        assert(r@ =~= Seq::empty());
    }
    while i < v.len()
        invariant
            i <= v@.len(),
            v@ == s@,
            r@ == printable(s@.take(i as int)),
        decreases v@.len() - i,
    {
        proof {
            assert(s@.take(i + 1).drop_last() =~= s@.take(i as int));
        }
        if !text::is_control(v[i]) {
            r.push(v[i]);
        }
        i = i + 1;
    }
    proof {
        assert(s@.take(i as int) =~= s@);
    }
    r
}

/// How many characters a line below a title may have.
pub open spec fn body_width(width: u16) -> usize {
    if width < 6 {
        4
    } else {
        (width - 2) as usize
    }
}

fn width_of_body(width: u16) -> (r: usize)
    ensures
        r == body_width(width),
{
    if width < 6 {
        4
    } else {
        width as usize - 2
    }
}

/// A line below a title.
pub open spec fn body_line(line: Seq<char>, width: u16) -> ui::BlockView {
    ui::BlockView::Composed(
        seq![
            ui::LinePartView::Shortened {
                front: "  "@,
                text: line,
                width: body_width(width),
                style: muted(),
            },
        ],
    )
}

fn body_block(line: String, width: u16) -> (r: Block)
    ensures
        r@ == body_line(line@, width),
{
    let r = Block::Composed(
        vec![
            LinePart::Shortened {
                front: "  ",
                text: line,
                width: width_of_body(width),
                style: Style::color(SemanticColor::Muted),
            },
        ],
    );
    proof {
        assert(r@->Composed_0 =~= body_line(line@, width)->Composed_0);
    }
    r
}

/// The first `n` lines that are not blank, without control characters and blanks around them.
/// One of which nothing is left is not shown.
pub open spec fn shown_body(lines: Seq<Seq<char>>, n: nat) -> Seq<Seq<char>>
    decreases lines.len(),
{
    if lines.len() == 0 || n == 0 {
        Seq::empty()
    } else if text::trimmed(lines[0]).len() == 0 {
        shown_body(lines.drop_first(), n)
    } else {
        let clean = text::trimmed(printable(lines[0]));
        let rest = shown_body(lines.drop_first(), (n - 1) as nat);
        if clean.len() == 0 {
            rest
        } else {
            seq![clean] + rest
        }
    }
}

pub open spec fn body_lines(lines: Seq<Seq<char>>, width: u16) -> Seq<ui::BlockView> {
    lines.map_values(|l: Seq<char>| body_line(l, width))
}

/// The lines of something that can be looked at more closely: its title, and for a tool the
/// first lines of what it gave.
pub open spec fn expanded_blocks(title: Seq<char>, body: Seq<char>, width: u16) -> Seq<
    ui::BlockView,
> {
    let head = seq![ui::BlockView::Composed(expanded_title(title))];
    if tool_title(title) is None {
        head
    } else {
        head + body_lines(
            shown_body(words::lines(body), TOOL_RESULT_PREVIEW_MAX_LINES as nat),
            width,
        )
    }
}

pub fn expanded_timeline_lines(title: &str, body: &str, width: u16) -> (r: Vec<Block>)
    ensures
        ui::block_views(r@) == expanded_blocks(title@, body@, width),
{
    let ghost head = seq![ui::BlockView::Composed(expanded_title(title@))];
    let mut r: Vec<Block> = vec![Block::Composed(expanded_title_line(title))];
    proof {
        assert(ui::block_views(r@) =~= head);
    }
    if tool_title_line(title).is_none() {
        return r;
    }
    let lines = words::lines_of(body);
    let ghost all = text::views(lines@);
    let ghost whole = shown_body(all, TOOL_RESULT_PREVIEW_MAX_LINES as nat);
    let ghost mut done: Seq<Seq<char>> = Seq::empty();
    let mut left: usize = TOOL_RESULT_PREVIEW_MAX_LINES;
    let mut i: usize = 0;
    proof {
        assert(all.skip(0) =~= all);
        assert(done + whole =~= whole);
        assert(head + body_lines(done, width) =~= head);
    }
    while i < lines.len() && left > 0
        invariant
            i <= lines@.len(),
            all == text::views(lines@),
            done + shown_body(all.skip(i as int), left as nat) == whole,
            ui::block_views(r@) == head + body_lines(done, width),
        decreases lines@.len() - i,
    {
        proof {
            assert(all.skip(i as int).drop_first() =~= all.skip(i + 1));
            assert(all.skip(i as int)[0] == lines@[i as int]@);
        }
        let line = lines[i].as_str();
        i = i + 1;
        if !text::trim(line).as_str().is_empty() {
            left = left - 1;
            let clean = text::trim(without_controls(line).as_str());
            if !clean.as_str().is_empty() {
                let ghost before = done;
                let ghost shown = clean@;
                ui::push_block(&mut r, body_block(clean, width));
                proof {
                    done = before.push(shown);
                    let rest = shown_body(all.skip(i as int), left as nat);
                    assert(done + rest =~= before + (seq![shown] + rest));
                    assert(head + body_lines(done, width) =~= (head + body_lines(
                        before,
                        width,
                    )).push(body_line(shown, width)));
                }
            }
        }
    }
    proof {
        assert(shown_body(all.skip(i as int), left as nat) =~= Seq::empty());
        assert(done =~= whole);
    }
    r
}

/// The signs of a spinner.
pub open spec fn spinner_sign(step: int) -> Seq<char> {
    if step == 0 {
        "⠋"@
    } else if step == 1 {
        "⠙"@
    } else if step == 2 {
        "⠹"@
    } else if step == 3 {
        "⠸"@
    } else if step == 4 {
        "⠼"@
    } else if step == 5 {
        "⠴"@
    } else if step == 6 {
        "⠦"@
    } else {
        "⠧"@
    }
}

fn spinner(millis: u64) -> (r: &'static str)
    ensures
        r@ == spinner_sign((millis / 100) as int % 8),
{
    match (millis / 100) % 8 {
        0 => "⠋",
        1 => "⠙",
        2 => "⠹",
        3 => "⠸",
        4 => "⠼",
        5 => "⠴",
        6 => "⠦",
        _ => "⠧",
    }
}

/// A title with how long something took, where that is a second or more.
pub open spec fn with_elapsed(title: Seq<ui::SpanView>, elapsed: Option<Elapsed>) -> Seq<
    ui::SpanView,
> {
    match elapsed {
        Some(e) => if e.millis >= 1000 {
            title.push(ui::span("  "@ + e.seconds_text@ + "s"@, muted()))
        } else {
            title
        },
        None => title,
    }
}

fn append_command_elapsed(line: &mut Line, elapsed: &Option<Elapsed>)
    ensures
        final(line)@ == with_elapsed(old(line)@, *elapsed),
{
    match elapsed {
        Some(e) => {
            if e.millis >= 1000 {
                line.push(
                    Span::styled(
                        text::cat3("  ", e.seconds_text.as_str(), "s"),
                        Style::color(SemanticColor::Muted),
                    ),
                );
            }
        },
        None => {},
    }
}

pub open spec fn loose_parts(spans: Seq<ui::SpanView>) -> Seq<ui::PartView> {
    spans.map_values(
        |s: ui::SpanView| ui::PartView { text: s.content, style: s.style, atomic: false },
    )
}

/// A command's title as it is wrapped: its later lines stand below what follows its first two
/// stretches, where those leave any room. `front_width` is the width of those two.
pub open spec fn hanging_title(title: Seq<ui::SpanView>, front_width: int, width: u16) -> ui::BlockView {
    if width > front_width && front_width > 0 {
        ui::BlockView::Hanging {
            front: title.take(2),
            indent: front_width as usize,
            parts: loose_parts(title.skip(2)),
            width: (width - front_width) as u16,
        }
    } else {
        ui::BlockView::Hanging {
            front: Seq::empty(),
            indent: 0,
            parts: loose_parts(title),
            width: if width == 0 {
                1
            } else {
                width
            },
        }
    }
}

/// Hangs a title.
pub fn hang_title(title: Line, front_width: usize, width: u16) -> (r: Block)
    requires
        title@.len() >= 2,
    ensures
        r@ == hanging_title(title@, front_width as int, width),
{
    let spans = title.spans;
    proof {
        assert(ui::span_views(spans@).len() == spans@.len());
    }
    let hangs = (width as usize) > front_width && front_width > 0;
    let from: usize = if hangs {
        2
    } else {
        0
    };
    let mut front: Vec<Span> = Vec::new();
    if hangs {
        front.push(spans[0].clone());
        front.push(spans[1].clone());
    }
    let mut parts: Vec<StyledTextPart> = Vec::new();
    let mut i: usize = from;
    let ghost all = loose_parts(title@.skip(from as int));
    proof {
        assert(ui::part_views(parts@) =~= all.take(0));
    }
    while i < spans.len()
        invariant
            from <= i <= spans@.len(),
            from <= 2,
            title@ == ui::span_views(spans@),
            all == loose_parts(title@.skip(from as int)),
            ui::part_views(parts@) == all.take(i - from),
        decreases spans@.len() - i,
    {
        let ghost before = parts@;
        let part = StyledTextPart {
            text: spans[i].content.clone(),
            style: spans[i].style,
            atomic: false,
        };
        parts.push(part);
        proof {
            assert(title@.skip(from as int)[i - from] == spans@[i as int]@);
            assert(all[i - from] == part@);
            assert(ui::part_views(parts@) =~= ui::part_views(before).push(part@));
            assert(all.take(i - from + 1) =~= all.take(i - from).push(all[i - from]));
        }
        i = i + 1;
    }
    proof {
        assert(all.take(i - from) =~= all);
        if hangs {
            assert(ui::span_views(front@) =~= title@.take(2));
        } else {
            assert(ui::span_views(front@) =~= Seq::empty());
            assert(title@.skip(0) =~= title@);
        }
    }
    let body: u16 = if hangs {
        width - front_width as u16
    } else if width == 0 {
        1
    } else {
        width
    };
    Block::Hanging {
        front,
        indent: if hangs {
            front_width
        } else {
            0
        },
        parts,
        width: body,
    }
}

/// The width of the first two stretches of a title.
pub open spec fn front_width(title: Seq<ui::SpanView>) -> int {
    width::unicode_text_width(title[0].content) + width::unicode_text_width(title[1].content)
}

fn wrap_command_title(title: Line, columns: u16) -> (r: Block)
    requires
        title@.len() >= 2,
    ensures
        r@ == hanging_title(title@, front_width(title@), columns),
{
    proof {
        assert(title@.len() == title.spans@.len());
        assert(title@[0] == title.spans@[0]@);
        assert(title@[1] == title.spans@[1]@);
    }
    let a = width::text_width(title.spans[0].content.as_str());
    let b = width::text_width(title.spans[1].content.as_str());
    let front = a.saturating_add(b);
    hang_title(title, front, columns)
}

/// The title of a command at its end, before how long it took.
pub open spec fn finished_title(c: FinishedCommand) -> Seq<ui::SpanView> {
    let title = command_title("Ran"@, c.detail@);
    match c.failure {
        Some(CommandFailure::Cancelled) => title.push(
            ui::span(" -> cancelled"@, ui::colored(SemanticColor::Warning).bolded()),
        ),
        Some(CommandFailure::Failed) => title.push(
            ui::span(" -> failed"@, ui::colored(SemanticColor::Error).bolded()),
        ),
        None => match c.exit_code {
            Some(code) => if code != 0 {
                title.push(
                    ui::span(
                        " -> "@ + command_details::signed_decimal(code as int),
                        ui::colored(SemanticColor::Error).bolded(),
                    ),
                )
            } else {
                title
            },
            None => title,
        },
    }
}

/// The lines of what a command printed, as they are shown below it.
pub open spec fn preview_blocks(c: FinishedCommand, width: u16) -> Seq<ui::BlockView> {
    let lines = text::views(c.preview.lines@).map_values(
        |l: Seq<char>| body_line(text::trimmed(printable(l)), width),
    );
    if c.preview.truncated {
        lines.push(ui::BlockView::Line(seq![ui::span("  ..."@, muted())]))
    } else {
        lines
    }
}

/// Whether what a command printed is shown: where it went wrong, and where it did not if that
/// is wanted.
pub open spec fn shows_output(c: FinishedCommand, show_successful: bool) -> bool {
    command_details::went_wrong(c) || (c.failure is None && show_successful)
}

/// The lines of a command. `elapsed` is how long it has been running, if it is.
pub open spec fn command_blocks(
    view: CommandView,
    elapsed: Elapsed,
    show_successful: bool,
    width: u16,
) -> Seq<ui::BlockView> {
    match view {
        CommandView::Running { detail, started_at_ms: _ } => {
            let title = command_title(
                "Running "@ + spinner_sign((elapsed.millis / 100) as int % 8),
                detail@,
            );
            seq![
                hanging_title(
                    with_elapsed(title, Some(elapsed)),
                    front_width(title),
                    width,
                ),
            ]
        },
        CommandView::Finished(c) => {
            let title = with_elapsed(finished_title(c), c.elapsed);
            let head = seq![hanging_title(title, front_width(title), width)];
            if shows_output(c, show_successful) {
                head + preview_blocks(c, width)
            } else {
                head
            }
        },
    }
}

fn finished_title_line(c: &FinishedCommand) -> (r: Line)
    ensures
        r@ == finished_title(*c),
        r@.len() >= 2,
{
    let mut title = command_title_line("Ran", c.detail.as_str());
    match c.failure {
        Some(CommandFailure::Cancelled) => {
            title.push(Span::of(" -> cancelled", Style::color(SemanticColor::Warning).bold()));
        },
        Some(CommandFailure::Failed) => {
            title.push(Span::of(" -> failed", Style::color(SemanticColor::Error).bold()));
        },
        None => match c.exit_code {
            Some(code) => {
                if code != 0 {
                    title.push(
                        Span::styled(
                            text::cat2(
                                " -> ",
                                command_details::signed_decimal_text(code).as_str(),
                            ),
                            Style::color(SemanticColor::Error).bold(),
                        ),
                    );
                }
            },
            None => {},
        },
    }
    title
}

fn push_preview(r: &mut Vec<Block>, c: &FinishedCommand, width: u16)
    ensures
        ui::block_views(final(r)@) == ui::block_views(old(r)@) + preview_blocks(*c, width),
{
    let ghost before = ui::block_views(r@);
    let ghost all = text::views(c.preview.lines@).map_values(
        |l: Seq<char>| body_line(text::trimmed(printable(l)), width),
    );
    let mut i: usize = 0;
    proof {
        assert(before + all.take(0) =~= before);
    }
    while i < c.preview.lines.len()
        invariant
            i <= c.preview.lines@.len(),
            all == text::views(c.preview.lines@).map_values(
                |l: Seq<char>| body_line(text::trimmed(printable(l)), width),
            ),
            ui::block_views(r@) == before + all.take(i as int),
        decreases c.preview.lines@.len() - i,
    {
        let line = text::trim(without_controls(c.preview.lines[i].as_str()).as_str());
        let ghost shown = line@;
        ui::push_block(r, body_block(line, width));
        proof {
            assert(text::views(c.preview.lines@)[i as int] == c.preview.lines@[i as int]@);
            assert(all[i as int] == body_line(shown, width));
            assert(before + all.take(i + 1) =~= (before + all.take(i as int)).push(
                all[i as int],
            ));
        }
        i = i + 1;
    }
    proof {
        assert(all.take(i as int) =~= all);
    }
    if c.preview.truncated {
        ui::push_block(
            r,
            Block::Line(Line::one(Span::of("  ...", Style::color(SemanticColor::Muted)))),
        );
        proof {
            assert(ui::block_views(r@) =~= before + preview_blocks(*c, width));
        }
    }
}

pub fn command_lines(
    view: &CommandView,
    elapsed: Elapsed,
    show_successful: bool,
    columns: u16,
) -> (r: Vec<Block>)
    ensures
        ui::block_views(r@) == command_blocks(*view, elapsed, show_successful, columns),
{
    match view {
        CommandView::Running { detail, started_at_ms: _ } => {
            let keyword = text::cat2("Running ", spinner(elapsed.millis));
            let mut title = command_title_line(keyword.as_str(), detail.as_str());
            let ghost bare = title@;
            let taken = Some(elapsed);
            append_command_elapsed(&mut title, &taken);
            proof {
                assert(title@[0] == bare[0]);
                assert(title@[1] == bare[1]);
            }
            let r = vec![wrap_command_title(title, columns)];
            proof {
                assert(ui::block_views(r@) =~= command_blocks(
                    *view,
                    elapsed,
                    show_successful,
                    columns,
                ));
            }
            r
        },
        CommandView::Finished(c) => {
            let mut title = finished_title_line(c);
            append_command_elapsed(&mut title, &c.elapsed);
            let ghost shown = title@;
            let mut r = vec![wrap_command_title(title, columns)];
            proof {
                assert(ui::block_views(r@) =~= seq![
                    hanging_title(shown, front_width(shown), columns),
                ]);
            }
            let failed = match c.failure {
                Some(CommandFailure::Failed) => true,
                _ => false,
            };
            let wrong = failed || match c.exit_code {
                Some(code) => code != 0,
                None => false,
            };
            if wrong || (c.failure.is_none() && show_successful) {
                push_preview(&mut r, c, columns);
            }
            r
        },
    }
}

/// The first line that is not blank, from `i` on.
pub open spec fn first_nonblank(lines: Seq<Seq<char>>, i: int) -> Option<Seq<char>>
    decreases lines.len() - i,
{
    if i < 0 || i >= lines.len() {
        None
    } else if text::trimmed(lines[i]).len() > 0 {
        Some(lines[i])
    } else {
        first_nonblank(lines, i + 1)
    }
}

/// What is given as the reason of an error.
pub open spec fn error_reason(body: Seq<char>) -> Seq<char> {
    match first_nonblank(words::lines(body), 0) {
        Some(line) => line,
        None => "run failed"@,
    }
}

fn reason_of(body: &str) -> (r: String)
    ensures
        r@ == error_reason(body@),
{
    let lines = words::lines_of(body);
    let ghost all = text::views(lines@);
    let mut i: usize = 0;
    while i < lines.len()
        invariant
            i <= lines@.len(),
            all == text::views(lines@),
            all == words::lines(body@),
            first_nonblank(all, 0) == first_nonblank(all, i as int),
        decreases lines@.len() - i,
    {
        proof {
            assert(all[i as int] == lines@[i as int]@);
        }
        if !text::trim(lines[i].as_str()).as_str().is_empty() {
            return lines[i].clone();
        }
        i = i + 1;
    }
    "run failed".to_owned()
}

pub open spec fn error_style() -> Style {
    ui::colored(SemanticColor::Error).bolded()
}

/// The lines of an error.
pub open spec fn diagnostic_block(title: Seq<char>, body: Seq<char>, width: u16) -> ui::BlockView {
    ui::BlockView::Wrapped {
        parts: seq![
            ui::PartView { text: "! Error  "@, style: error_style(), atomic: true },
            ui::PartView { text: title, style: error_style(), atomic: true },
            ui::PartView {
                text: ": "@ + error_reason(body),
                style: ui::colored(SemanticColor::Assistant),
                atomic: false,
            },
        ],
        width,
        keep_leading_blanks: false,
    }
}

pub fn diagnostic_lines(title: &str, body: &str, columns: u16) -> (r: Vec<Block>)
    ensures
        ui::block_views(r@) == seq![diagnostic_block(title@, body@, columns)],
{
    let parts = vec![
        StyledTextPart {
            text: "! Error  ".to_owned(),
            style: Style::color(SemanticColor::Error).bold(),
            atomic: true,
        },
        StyledTextPart {
            text: title.to_owned(),
            style: Style::color(SemanticColor::Error).bold(),
            atomic: true,
        },
        StyledTextPart {
            text: text::cat2(": ", reason_of(body).as_str()),
            style: Style::color(SemanticColor::Assistant),
            atomic: false,
        },
    ];
    proof {
        assert(ui::part_views(parts@) =~= diagnostic_block(title@, body@, columns)->Wrapped_parts);
    }
    let r = vec![Block::Wrapped { parts, width: columns, keep_leading_blanks: false }];
    proof {
        assert(ui::block_views(r@) =~= seq![diagnostic_block(title@, body@, columns)]);
    }
    r
}

/// What stands before a message that waits.
pub open spec fn lane_part(lane: QueuedInputLane) -> Option<ui::LinePartView> {
    match lane {
        QueuedInputLane::Next => None,
        QueuedInputLane::Suspended => Some(
            ui::LinePartView::Span(
                ui::span("suspended  "@, ui::colored(SemanticColor::Warning).bolded()),
            ),
        ),
        QueuedInputLane::Backlog => Some(
            ui::LinePartView::Span(
                ui::span("backlog  "@, ui::colored(SemanticColor::Muted).bolded()),
            ),
        ),
    }
}

/// A line of a message: behind a bar, the first with the queue it waits in.
pub open spec fn user_line(segment: Seq<char>, first: bool, lane: QueuedInputLane) -> ui::BlockView {
    let bar = seq![
        ui::LinePartView::Span(ui::span("▌ "@, ui::colored(SemanticColor::Focus).bolded())),
    ];
    let head = if first && lane_part(lane) is Some {
        bar.push(lane_part(lane)->0)
    } else {
        bar
    };
    ui::BlockView::Composed(
        head.push(
            ui::LinePartView::InlineCode {
                text: segment,
                style: ui::colored(SemanticColor::Assistant),
            },
        ),
    )
}

pub open spec fn user_blocks(message: Seq<char>, lane: QueuedInputLane) -> Seq<ui::BlockView> {
    let segments = text::split(message, '\n');
    Seq::new(segments.len(), |i: int| user_line(segments[i], i == 0, lane))
}

fn user_block(segment: &str, first: bool, lane: QueuedInputLane) -> (r: Block)
    ensures
        r@ == user_line(segment@, first, lane),
{
    let mut parts: Vec<LinePart> = vec![
        LinePart::Span(Span::of("▌ ", Style::color(SemanticColor::Focus).bold())),
    ];
    proof {
        assert(ui::line_parts(parts@) =~= seq![
            ui::LinePartView::Span(ui::span("▌ "@, ui::colored(SemanticColor::Focus).bolded())),
        ]);
    }
    if first {
        match lane {
            QueuedInputLane::Next => {},
            QueuedInputLane::Suspended => {
                ui::push_part(
                    &mut parts,
                    LinePart::Span(
                        Span::of("suspended  ", Style::color(SemanticColor::Warning).bold()),
                    ),
                );
            },
            QueuedInputLane::Backlog => {
                ui::push_part(
                    &mut parts,
                    LinePart::Span(
                        Span::of("backlog  ", Style::color(SemanticColor::Muted).bold()),
                    ),
                );
            },
        }
    }
    ui::push_part(
        &mut parts,
        LinePart::InlineCode {
            text: segment.to_owned(),
            style: Style::color(SemanticColor::Assistant),
        },
    );
    Block::Composed(parts)
}

pub fn user_lines(message: &str, lane: QueuedInputLane) -> (r: Vec<Block>)
    ensures
        ui::block_views(r@) == user_blocks(message@, lane),
{
    let segments = text::split_text(message, '\n');
    let ghost all = user_blocks(message@, lane);
    let mut r: Vec<Block> = Vec::new();
    let mut i: usize = 0;
    proof {
        assert(text::views(segments@).len() == segments@.len());
        assert(ui::block_views(r@) =~= all.take(0));
    }
    while i < segments.len()
        invariant
            i <= segments@.len(),
            all == user_blocks(message@, lane),
            text::views(segments@) == text::split(message@, '\n'),
            ui::block_views(r@) == all.take(i as int),
        decreases segments@.len() - i,
    {
        ui::push_block(&mut r, user_block(segments[i].as_str(), i == 0, lane));
        proof {
            assert(text::views(segments@)[i as int] == segments@[i as int]@);
            assert(all.take(i + 1) =~= all.take(i as int).push(all[i as int]));
        }
        i = i + 1;
    }
    proof {
        assert(all.take(i as int) =~= all);
    }
    r
}

/// The line between two answers.
pub fn assistant_separator_line(columns: u16) -> (r: Line)
    ensures
        r@ == seq![
            ui::span(
                text::repeated(
                    '-',
                    if columns == 0 {
                        1
                    } else {
                        columns as nat
                    },
                ),
                muted(),
            ),
        ],
{
    let n: usize = if columns == 0 {
        1
    } else {
        columns as usize
    };
    Line::one(Span::styled(text::repeat_char('-', n), Style::color(SemanticColor::Muted)))
}

/// What follows a word in a title is the rest of it behind the word and a blank.
pub proof fn titles_are_their_word_and_the_rest(
    title: Seq<char>,
    keyword: Seq<char>,
    rest: Seq<char>,
)
    ensures
        after_word(title, keyword) == Some(rest) <==> (title == keyword && rest.len() == 0) || title
            == keyword.push(' ') + rest,
{
    let n = keyword.len() as int;
    if after_word(title, keyword) == Some(rest) && title != keyword {
        assert(title.subrange(0, n) == keyword);
        assert(title =~= keyword.push(' ') + rest) by {
            assert forall|i: int| 0 <= i < title.len() implies title[i] == #[trigger] (keyword.push(
                ' ',
            ) + rest)[i] by {
                if i < n {
                    assert(title.subrange(0, n)[i] == title[i]);
                }
            }
        }
    }
    if title == keyword && rest.len() == 0 {
        assert(rest =~= Seq::<char>::empty());
    }
    if title == keyword.push(' ') + rest {
        assert(title.len() > n);
        assert(title.subrange(0, n) =~= keyword);
        assert(title.skip(n + 1) =~= rest);
    }
}

/// The title of a command is the word for it, and its line.
pub proof fn titles_of_commands_hold_their_line(title: Seq<char>, command: Seq<char>)
    ensures
        ran_command(title) == Some(command) <==> title == "Ran "@ + command || title == "Ran: "@
            + command,
{
    reveal_strlit("Ran ");
    reveal_strlit("Ran: ");
    if text::stands_at(title, "Ran "@, 0) {
        assert(title =~= "Ran "@ + title.skip(4)) by {
            assert(title =~= title.subrange(0, 4) + title.skip(4));
        }
        assert(title[3] == ' ') by {
            assert(title.subrange(0, 4)[3] == ' ');
        }
    } else if text::stands_at(title, "Ran: "@, 0) {
        assert(title =~= "Ran: "@ + title.skip(5)) by {
            assert(title =~= title.subrange(0, 5) + title.skip(5));
        }
    }
    if title == "Ran "@ + command {
        assert(title.subrange(0, 4) =~= "Ran "@);
        assert(title.skip(4) =~= command);
    }
    if title == "Ran: "@ + command {
        assert(title.subrange(0, 5) =~= "Ran: "@);
        assert(title.skip(5) =~= command);
        assert(title[3] == ':');
        if text::stands_at(title, "Ran "@, 0) {
            assert(title.subrange(0, 4)[3] == ' ');
        }
    }
}

/// The last place of a text in another is one where it stands, and it stands nowhere behind it.
pub proof fn last_places_come_last(s: Seq<char>, needle: Seq<char>, i: int)
    ensures
        last_place(s, needle, i) matches Some(p) ==> 0 <= p <= i && text::stands_at(s, needle, p)
            && (forall|k: int| p < k <= i ==> !#[trigger] text::stands_at(s, needle, k)),
        last_place(s, needle, i) is None ==> (forall|k: int|
            0 <= k <= i ==> !#[trigger] text::stands_at(s, needle, k)),
    decreases i + 1,
{
    if i >= 0 && !text::stands_at(s, needle, i) {
        last_places_come_last(s, needle, i - 1);
    }
}

/// What is put behind a command's line begins with its last bracket, which is closed; only an
/// arrow follows that. No other bracket is opened behind it.
pub proof fn brackets_stand_behind_their_command(detail: Seq<char>)
    ensures
        ({
            let (command, suffix) = command_parts(detail);
            suffix.len() > 0 ==> {
                &&& text::stands_at(detail, " ("@, command.len() as int)
                &&& suffix.contains(')')
                &&& forall|k: int|
                    command.len() < k <= detail.len() ==> !#[trigger] text::stands_at(
                        detail,
                        " ("@,
                        k,
                    )
            }
        }),
{
    let (command, suffix) = command_parts(detail);
    last_places_come_last(detail, " ("@, detail.len() as int);
    if suffix.len() > 0 {
        let i = last_place(detail, " ("@, detail.len() as int)->0;
        lemma_found_char(suffix, ')', 0);
        assert(command == detail.take(i));
        assert(suffix[tool_output::place_of_char(suffix, ')', 0)] == ')');
    }
}

proof fn lemma_found_char(s: Seq<char>, c: char, i: int)
    requires
        0 <= i <= s.len(),
    ensures
        i <= tool_output::place_of_char(s, c, i) <= s.len(),
        tool_output::place_of_char(s, c, i) < s.len() ==> s[tool_output::place_of_char(s, c, i)]
            == c,
    decreases s.len() - i,
{
    if i < s.len() && s[i] != c {
        lemma_found_char(s, c, i + 1);
    }
}

/// What is shown of a line is all of it but the control characters.
pub proof fn control_characters_are_not_shown(s: Seq<char>)
    ensures
        printable(s) == s.filter(|c: char| !text::is_control_char(c)),
    decreases s.len(),
{
    let shown = |c: char| !text::is_control_char(c);
    reveal(Seq::filter);
    if s.len() > 0 {
        control_characters_are_not_shown(s.drop_last());
        assert(s.drop_last().filter(|c: char| !text::is_control_char(c)) == s.drop_last().filter(
            shown,
        ));
        assert(s.filter(shown) == if shown(s.last()) {
            s.drop_last().filter(shown).push(s.last())
        } else {
            s.drop_last().filter(shown)
        });
    } else {
        assert(printable(s) =~= s.filter(shown));
    }
}

/// The first line that is not blank is one of the lines, is not blank, and only blank ones stand
/// before it; where there is none, all are blank.
pub proof fn first_lines_that_are_not_blank_are_found(lines: Seq<Seq<char>>, i: int) -> (k: int)
    requires
        0 <= i,
    ensures
        first_nonblank(lines, i) matches Some(line) ==> i <= k < lines.len() && lines[k] == line
            && text::trimmed(line).len() > 0,
        first_nonblank(lines, i) is None ==> k >= lines.len(),
        forall|j: int| i <= j < k && j < lines.len() ==> text::trimmed(#[trigger] lines[j]).len()
            == 0,
    decreases lines.len() - i,
{
    if i < lines.len() && text::trimmed(lines[i]).len() == 0 {
        first_lines_that_are_not_blank_are_found(lines, i + 1)
    } else {
        i
    }
}

/// No more lines are shown than allowed; those that are shown are not empty and have no white
/// space around them.
pub proof fn shown_lines_are_few_and_trimmed(lines: Seq<Seq<char>>, n: nat)
    ensures
        shown_body(lines, n).len() <= n,
        shown_body(lines, n).len() <= lines.len(),
        forall|k: int|
            0 <= k < shown_body(lines, n).len() ==> {
                let line = #[trigger] shown_body(lines, n)[k];
                line.len() > 0 && !text::is_space(line[0]) && !text::is_space(line.last())
            },
    decreases lines.len(),
{
    if lines.len() > 0 && n > 0 {
        let clean = text::trimmed(printable(lines[0]));
        let rest = lines.drop_first();
        shown_lines_are_few_and_trimmed(rest, n);
        shown_lines_are_few_and_trimmed(rest, (n - 1) as nat);
        text::trimming_takes_the_white_space_at_the_ends(printable(lines[0]));
        let all = shown_body(lines, n);
        assert forall|k: int| 0 <= k < all.len() implies ({
            let line = #[trigger] all[k];
            line.len() > 0 && !text::is_space(line[0]) && !text::is_space(line.last())
        }) by {
            if text::trimmed(lines[0]).len() > 0 && clean.len() > 0 {
                if k == 0 {
                    assert(all[k] == clean);
                } else {
                    assert(all[k] == shown_body(rest, (n - 1) as nat)[k - 1]);
                }
            }
        }
    }
}

/// A message of the user is shown line by line: as many as it has line breaks, and one.
pub proof fn messages_are_shown_line_by_line(message: Seq<char>, lane: QueuedInputLane)
    ensures
        user_blocks(message, lane).len() == message.filter(|c: char| c == '\n').len() + 1,
        text::join(text::split(message, '\n'), seq!['\n']) == message,
        forall|k: int|
            0 <= k < user_blocks(message, lane).len() ==> (#[trigger] user_blocks(message, lane)[k]
                matches ui::BlockView::Composed(parts) && parts.len() >= 2 && (parts.last() matches
                ui::LinePartView::InlineCode { text: shown, .. } && shown == text::split(
                message,
                '\n',
            )[k])),
        user_blocks(message, lane)[0] matches ui::BlockView::Composed(parts) && (parts.len() == 3
            <==> lane != QueuedInputLane::Next),
{
    text::joining_undoes_splitting(message, '\n');
    let segments = text::split(message, '\n');
    let all = user_blocks(message, lane);
    assert forall|k: int| 0 <= k < all.len() implies (#[trigger] all[k] matches
        ui::BlockView::Composed(parts) && parts.len() >= 2 && (parts.last() matches
        ui::LinePartView::InlineCode { text: shown, .. } && shown == segments[k])) by {
        assert(all[k] == user_line(segments[k], k == 0, lane));
    }
    assert(all[0] == user_line(segments[0], true, lane));
}

} // verus!
