//! What patches did to files.
use crate::plan_model;
use crate::text;
use crate::textmap::TextMap;
use crate::timeline;
use crate::timeline::{
    PatchChangeView, PatchLineKind, PatchLineView, PatchOperationView, TimelineItem,
};
use crate::tool_output;
use crate::words;
use vstd::prelude::*;

verus! {

/// The numbers that the next lines of a patch get, before and after it.
#[derive(Debug, Clone, Copy, PartialEq, Eq, Structural)]
pub struct PatchLineNumbers {
    pub old_next: Option<usize>,
    pub new_next: Option<usize>,
}

/// The number after another. Behind the last one there is, counting begins anew.
pub open spec fn next_number(n: Option<usize>) -> Option<usize> {
    match n {
        Some(n) => Some(
            if n == usize::MAX {
                0
            } else {
                (n + 1) as usize
            },
        ),
        None => None,
    }
}

pub open spec fn no_numbers() -> PatchLineNumbers {
    PatchLineNumbers { old_next: None, new_next: None }
}

impl PatchLineNumbers {
    pub fn unknown() -> (r: PatchLineNumbers)
        ensures
            r == no_numbers(),
    {
        PatchLineNumbers { old_next: None, new_next: None }
    }

    pub fn advance_old(&mut self)
        ensures
            *final(self) == (PatchLineNumbers {
                old_next: next_number(old(self).old_next),
                ..*old(self)
            }),
    {
        match self.old_next {
            Some(n) => {
                self.old_next = Some(n.wrapping_add(1));
            },
            None => {},
        }
    }

    pub fn advance_new(&mut self)
        ensures
            *final(self) == (PatchLineNumbers {
                new_next: next_number(old(self).new_next),
                ..*old(self)
            }),
    {
        match self.new_next {
            Some(n) => {
                self.new_next = Some(n.wrapping_add(1));
            },
            None => {},
        }
    }

    /// A line that stays.
    pub fn context(&mut self, text: String) -> (r: PatchLineView)
        ensures
            r@ == (timeline::LineView {
                kind: PatchLineKind::Context,
                old_line: old(self).old_next,
                new_line: old(self).new_next,
                text: text@,
            }),
            *final(self) == (PatchLineNumbers {
                old_next: next_number(old(self).old_next),
                new_next: next_number(old(self).new_next),
            }),
    {
        let old_line = self.old_next;
        let new_line = self.new_next;
        self.advance_old();
        self.advance_new();
        PatchLineView { kind: PatchLineKind::Context, old_line, new_line, text }
    }

    /// A line that comes.
    pub fn add(&mut self, text: String) -> (r: PatchLineView)
        ensures
            r@ == (timeline::LineView {
                kind: PatchLineKind::Add,
                old_line: None,
                new_line: old(self).new_next,
                text: text@,
            }),
            *final(self) == (PatchLineNumbers {
                new_next: next_number(old(self).new_next),
                ..*old(self)
            }),
    {
        let new_line = self.new_next;
        self.advance_new();
        PatchLineView::add(text, new_line)
    }

    /// A line that goes.
    pub fn remove(&mut self, text: String) -> (r: PatchLineView)
        ensures
            r@ == (timeline::LineView {
                kind: PatchLineKind::Remove,
                old_line: old(self).old_next,
                new_line: None,
                text: text@,
            }),
            *final(self) == (PatchLineNumbers {
                old_next: next_number(old(self).old_next),
                ..*old(self)
            }),
    {
        let old_line = self.old_next;
        self.advance_old();
        PatchLineView::remove(text, old_line)
    }
}

/// Where a hunk starts: a sign, a number, and what is behind a comma, which does not count.
pub open spec fn hunk_start(value: Seq<char>, prefix: char) -> Option<nat> {
    if value.len() == 0 || value[0] != prefix {
        None
    } else {
        let rest = value.drop_first();
        words::size_value(rest.take(tool_output::place_of_char(rest, ',', 0)))
    }
}

pub open spec fn opt_nat(n: Option<usize>) -> Option<nat> {
    match n {
        Some(n) => Some(n as nat),
        None => None,
    }
}

pub fn parse_hunk_start(value: &str, prefix: char) -> (r: Option<usize>)
    ensures
        opt_nat(r) == hunk_start(value@, prefix),
{
    let v = text::chars_of(value);
    if v.len() == 0 || v[0] != prefix {
        return None;
    }
    let rest = text::chars_of(text::text_of(&v, 1, v.len()).as_str());
    proof {
        assert(rest@ =~= value@.drop_first());
    }
    let end = tool_output::find_char(&rest, ',', 0);
    let start = text::text_of(&rest, 0, end);
    proof {
        assert(start@ =~= rest@.take(end as int));
    }
    words::parse_size(start.as_str())
}

/// The numbers that a hunk's header gives: `@@`, the start before, and the start after.
pub open spec fn hunk_numbers(line: Seq<char>) -> Option<PatchLineNumbers> {
    let parts = words::words(line);
    if parts.len() < 3 || parts[0] != "@@"@ || hunk_start(parts[1], '-') is None || hunk_start(
        parts[2],
        '+',
    ) is None {
        None
    } else {
        Some(
            PatchLineNumbers {
                old_next: Some(hunk_start(parts[1], '-')->0 as usize),
                new_next: Some(hunk_start(parts[2], '+')->0 as usize),
            },
        )
    }
}

pub fn parse_unified_hunk_header(line: &str) -> (r: Option<PatchLineNumbers>)
    ensures
        r == hunk_numbers(line@),
{
    let parts = words::words_of(line);
    proof {
        assert(text::views(parts@).len() == parts@.len());
    }
    if parts.len() < 3 || !text::same(parts[0].as_str(), "@@") {
        return None;
    }
    let before = parse_hunk_start(parts[1].as_str(), '-');
    let after = parse_hunk_start(parts[2].as_str(), '+');
    match (before, after) {
        (Some(old_next), Some(new_next)) => Some(
            PatchLineNumbers { old_next: Some(old_next), new_next: Some(new_next) },
        ),
        _ => None,
    }
}

/// What a section of a patch does to its file.
#[derive(Debug, Clone, Copy, PartialEq, Eq, Structural)]
pub enum PatchSectionKind {
    Add,
    Update,
    Delete,
}

/// A line of a patch as it was asked for. `header` is set where the line begins the section
/// of a file: what happens to the file, and its path.
#[derive(Debug, PartialEq, Eq)]
pub struct ArgumentLine {
    pub text: String,
    pub header: Option<(PatchSectionKind, String)>,
}

pub struct ArgumentLineView {
    pub text: Seq<char>,
    pub header: Option<(PatchSectionKind, Seq<char>)>,
}

impl View for ArgumentLine {
    type V = ArgumentLineView;

    open spec fn view(&self) -> ArgumentLineView {
        ArgumentLineView {
            text: self.text@,
            header: match self.header {
                Some((kind, path)) => Some((kind, path@)),
                None => None,
            },
        }
    }
}

pub open spec fn argument_views(v: Seq<ArgumentLine>) -> Seq<ArgumentLineView> {
    v.map_values(|l: ArgumentLine| l@)
}

/// The lines of a file in a patch.
#[derive(Debug, PartialEq, Eq)]
pub struct PatchLines {
    pub lines: Vec<PatchLineView>,
}

impl View for PatchLines {
    type V = Seq<timeline::LineView>;

    open spec fn view(&self) -> Seq<timeline::LineView> {
        timeline::patch_lines(self.lines@)
    }
}

/// The lines of each file in a patch, as they were asked for.
#[derive(Debug, PartialEq, Eq)]
pub struct ParsedPatchArgument {
    pub changes: TextMap<PatchLines>,
}

impl View for ParsedPatchArgument {
    type V = Map<Seq<char>, Seq<timeline::LineView>>;

    open spec fn view(&self) -> Map<Seq<char>, Seq<timeline::LineView>> {
        self.changes.map()
    }
}

impl ParsedPatchArgument {
    pub fn empty() -> (r: ParsedPatchArgument)
        ensures
            r.changes.well_formed(),
            r@ == Map::<Seq<char>, Seq<timeline::LineView>>::empty(),
    {
        ParsedPatchArgument { changes: TextMap::new() }
    }

    pub fn change_lines(&self, path: &str) -> (r: Option<&Vec<PatchLineView>>)
        requires
            self.changes.well_formed(),
        ensures
            match r {
                Some(lines) => self@.dom().contains(path@) && timeline::patch_lines(lines@)
                    == self@[path@],
                None => !self@.dom().contains(path@),
            },
    {
        match self.changes.get(path) {
            Some(l) => Some(&l.lines),
            None => None,
        }
    }
}

/// How far the reading of a patch has come: the files that are done, the file that is being
/// read, its lines so far, and the numbers of the next ones.
pub struct Reading {
    pub done: Map<Seq<char>, Seq<timeline::LineView>>,
    pub path: Option<Seq<char>>,
    pub lines: Seq<timeline::LineView>,
    pub numbers: PatchLineNumbers,
}

/// The files with the one that is being read. Lines that belong to no file are dropped.
pub open spec fn flushed(r: Reading) -> Map<Seq<char>, Seq<timeline::LineView>> {
    match r.path {
        Some(path) => r.done.insert(path, r.lines),
        None => r.done,
    }
}

/// The line that a patch asks for, if the text is one: its first character says what happens
/// to it.
pub open spec fn with_patch_line(r: Reading, line: Seq<char>) -> Reading {
    if line.len() == 0 {
        r
    } else if line[0] == ' ' {
        Reading {
            lines: r.lines.push(
                timeline::LineView {
                    kind: PatchLineKind::Context,
                    old_line: r.numbers.old_next,
                    new_line: r.numbers.new_next,
                    text: line.drop_first(),
                },
            ),
            numbers: PatchLineNumbers {
                old_next: next_number(r.numbers.old_next),
                new_next: next_number(r.numbers.new_next),
            },
            ..r
        }
    } else if line[0] == '+' {
        Reading {
            lines: r.lines.push(
                timeline::LineView {
                    kind: PatchLineKind::Add,
                    old_line: None,
                    new_line: r.numbers.new_next,
                    text: line.drop_first(),
                },
            ),
            numbers: PatchLineNumbers {
                new_next: next_number(r.numbers.new_next),
                ..r.numbers
            },
            ..r
        }
    } else if line[0] == '-' {
        Reading {
            lines: r.lines.push(
                timeline::LineView {
                    kind: PatchLineKind::Remove,
                    old_line: r.numbers.old_next,
                    new_line: None,
                    text: line.drop_first(),
                },
            ),
            numbers: PatchLineNumbers {
                old_next: next_number(r.numbers.old_next),
                ..r.numbers
            },
            ..r
        }
    } else {
        r
    }
}

/// The reading after one more line. A new file is numbered from its first line on; the
/// numbers of another one come with its hunks.
pub open spec fn with_argument(r: Reading, line: ArgumentLineView) -> Reading {
    match line.header {
        Some((kind, path)) => Reading {
            done: flushed(r),
            path: Some(path),
            lines: Seq::empty(),
            numbers: match kind {
                PatchSectionKind::Add => PatchLineNumbers { old_next: None, new_next: Some(1) },
                _ => no_numbers(),
            },
        },
        None => if text::stands_at(line.text, "*** "@, 0) {
            r
        } else if text::stands_at(line.text, "@@"@, 0) {
            match hunk_numbers(line.text) {
                Some(numbers) => Reading { numbers, ..r },
                None => r,
            }
        } else {
            with_patch_line(r, line.text)
        },
    }
}

pub open spec fn nothing_read() -> Reading {
    Reading { done: Map::empty(), path: None, lines: Seq::empty(), numbers: no_numbers() }
}

/// The reading after some lines.
pub open spec fn read_lines(lines: Seq<ArgumentLineView>) -> Reading
    decreases lines.len(),
{
    if lines.len() == 0 {
        nothing_read()
    } else {
        with_argument(read_lines(lines.drop_last()), lines.last())
    }
}

/// Puts the lines of a file that has been read to the others; without a file they are dropped.
pub fn flush_patch_change(
    parsed: &mut ParsedPatchArgument,
    current_path: &mut Option<String>,
    current_lines: &mut Vec<PatchLineView>,
)
    requires
        old(parsed).changes.well_formed(),
    ensures
        final(parsed).changes.well_formed(),
        final(parsed)@ == (match plan_model::opt(*old(current_path)) {
            Some(path) => old(parsed)@.insert(path, timeline::patch_lines(old(current_lines)@)),
            None => old(parsed)@,
        }),
        *final(current_path) is None,
        final(current_lines)@ == Seq::<PatchLineView>::empty(),
{
    let mut lines: Vec<PatchLineView> = Vec::new();
    std::mem::swap(&mut lines, current_lines);
    match current_path.take() {
        Some(path) => {
            parsed.changes.insert(path.as_str(), PatchLines { lines });
        },
        None => {},
    }
}

/// Adds the line that a patch asks for, if the text is one.
fn push_patch_line(line: &str, lines: &mut Vec<PatchLineView>, numbers: &mut PatchLineNumbers)
    ensures
        ({
            let before = Reading {
                done: Map::empty(),
                path: None,
                lines: timeline::patch_lines(old(lines)@),
                numbers: *old(numbers),
            };
            let after = with_patch_line(before, line@);
            timeline::patch_lines(final(lines)@) == after.lines && *final(numbers) == after.numbers
        }),
{
    let v = text::chars_of(line);
    if v.len() == 0 {
        return;
    }
    let rest = text::text_of(&v, 1, v.len());
    proof {
        assert(rest@ =~= line@.drop_first());
    }
    let ghost before = lines@;
    let next = if v[0] == ' ' {
        numbers.context(rest)
    } else if v[0] == '+' {
        numbers.add(rest)
    } else if v[0] == '-' {
        numbers.remove(rest)
    } else {
        return;
    };
    lines.push(next);
    proof {
        assert(timeline::patch_lines(lines@) =~= timeline::patch_lines(before).push(next@));
    }
}

/// Reads a patch as it was asked for: the lines of each file, with their numbers as far as
/// the hunks give them.
pub fn parse_apply_patch_argument(patch: &Vec<ArgumentLine>) -> (r: ParsedPatchArgument)
    ensures
        r.changes.well_formed(),
        r@ == flushed(read_lines(argument_views(patch@))),
{
    let mut parsed = ParsedPatchArgument::empty();
    let mut path: Option<String> = None;
    let mut lines: Vec<PatchLineView> = Vec::new();
    let mut numbers = PatchLineNumbers::unknown();
    let ghost all = argument_views(patch@);
    let mut i: usize = 0;
    proof {
        assert(timeline::patch_lines(lines@) =~= Seq::empty());
        assert(all.take(0) =~= Seq::empty());
    }
    while i < patch.len()
        invariant
            i <= patch@.len(),
            all == argument_views(patch@),
            parsed.changes.well_formed(),
            read_lines(all.take(i as int)) == (Reading {
                done: parsed@,
                path: plan_model::opt(path),
                lines: timeline::patch_lines(lines@),
                numbers,
            }),
        decreases patch@.len() - i,
    {
        proof {
            assert(all.take(i + 1).drop_last() =~= all.take(i as int));
            assert(all.take(i + 1).last() == patch@[i as int]@);
        }
        let line = &patch[i];
        let ghost before = read_lines(all.take(i as int));
        match &line.header {
            Some((kind, section)) => {
                flush_patch_change(&mut parsed, &mut path, &mut lines);
                path = Some(section.clone());
                numbers = match kind {
                    PatchSectionKind::Add => PatchLineNumbers { old_next: None, new_next: Some(1) },
                    _ => PatchLineNumbers::unknown(),
                };
                proof {
                    assert(timeline::patch_lines(lines@) =~= Seq::empty());
                }
            },
            None => {
                let t = line.text.as_str();
                if text::begins_with(t, "*** ") {
                } else if text::begins_with(t, "@@") {
                    match parse_unified_hunk_header(t) {
                        Some(n) => {
                            numbers = n;
                        },
                        None => {},
                    }
                } else {
                    push_patch_line(t, &mut lines, &mut numbers);
                    proof {
                        let bare = Reading { done: Map::empty(), path: None, ..before };
                        assert(with_patch_line(before, t@) == (Reading {
                            done: before.done,
                            path: before.path,
                            ..with_patch_line(bare, t@)
                        }));
                    }
                }
            },
        }
        i = i + 1;
    }
    proof {
        assert(all.take(i as int) =~= all);
    }
    flush_patch_change(&mut parsed, &mut path, &mut lines);
    parsed
}

/// What a patch reports that it did to a file. A newer tool may report what is not known here.
#[derive(Debug, Clone, Copy, PartialEq, Eq, Structural)]
pub enum ReportedOperation {
    Add,
    Update,
    Delete,
    Unknown,
}

/// What a patch reports that it did to a line.
#[derive(Debug, Clone, Copy, PartialEq, Eq, Structural)]
pub enum ReportedLineKind {
    Context,
    Remove,
    Add,
    Unknown,
}

#[derive(Debug, PartialEq, Eq)]
pub struct ReportedLine {
    pub kind: ReportedLineKind,
    pub old_line: Option<usize>,
    pub new_line: Option<usize>,
    pub text: String,
}

#[derive(Debug, PartialEq, Eq)]
pub struct ReportedChange {
    pub path: String,
    pub operation: ReportedOperation,
    pub hunks: usize,
    pub lines_before: Option<usize>,
    pub lines_after: Option<usize>,
    pub bytes_before: Option<u64>,
    pub bytes_after: Option<u64>,
    pub lines: Vec<ReportedLine>,
}

/// What a patch reports of itself.
#[derive(Debug, PartialEq, Eq)]
pub struct PatchReport {
    pub ok: bool,
    pub tool: String,
    pub changes: Vec<ReportedChange>,
}

/// A reported line as it is shown; none where it is not known what happened to it.
pub open spec fn shown_line(line: ReportedLine) -> Option<timeline::LineView> {
    match line.kind {
        ReportedLineKind::Unknown => None,
        _ => Some(
            timeline::LineView {
                kind: match line.kind {
                    ReportedLineKind::Context => PatchLineKind::Context,
                    ReportedLineKind::Remove => PatchLineKind::Remove,
                    _ => PatchLineKind::Add,
                },
                old_line: line.old_line,
                new_line: line.new_line,
                text: line.text@,
            },
        ),
    }
}

fn reported_line_view(line: &ReportedLine) -> (r: Option<PatchLineView>)
    ensures
        (match r {
            Some(l) => Some(l@),
            None => None,
        }) == shown_line(*line),
{
    let kind = match line.kind {
        ReportedLineKind::Context => PatchLineKind::Context,
        ReportedLineKind::Remove => PatchLineKind::Remove,
        ReportedLineKind::Add => PatchLineKind::Add,
        ReportedLineKind::Unknown => {
            return None;
        },
    };
    Some(
        PatchLineView {
            kind,
            old_line: line.old_line,
            new_line: line.new_line,
            text: line.text.clone(),
        },
    )
}

/// The reported lines that are shown.
pub open spec fn shown_lines(lines: Seq<ReportedLine>) -> Seq<timeline::LineView>
    decreases lines.len(),
{
    if lines.len() == 0 {
        Seq::empty()
    } else {
        let before = shown_lines(lines.drop_last());
        match shown_line(lines.last()) {
            Some(l) => before.push(l),
            None => before,
        }
    }
}

fn reported_lines(lines: &Vec<ReportedLine>) -> (r: Vec<PatchLineView>)
    ensures
        timeline::patch_lines(r@) == shown_lines(lines@),
{
    let mut r: Vec<PatchLineView> = Vec::new();
    let mut i: usize = 0;
    proof {
        assert(timeline::patch_lines(r@) =~= Seq::empty());
        assert(lines@.take(0) =~= Seq::empty());
    }
    while i < lines.len()
        invariant
            i <= lines@.len(),
            timeline::patch_lines(r@) == shown_lines(lines@.take(i as int)),
        decreases lines@.len() - i,
    {
        proof {
            assert(lines@.take(i + 1).drop_last() =~= lines@.take(i as int));
        }
        let ghost before = r@;
        match reported_line_view(&lines[i]) {
            Some(l) => {
                r.push(l);
                proof {
                    assert(timeline::patch_lines(r@) =~= timeline::patch_lines(before).push(l@));
                }
            },
            None => {},
        }
        i = i + 1;
    }
    proof {
        assert(lines@.take(i as int) =~= lines@);
    }
    r
}

/// How many lines are of a kind.
pub open spec fn count_kind(lines: Seq<timeline::LineView>, kind: PatchLineKind) -> nat
    decreases lines.len(),
{
    if lines.len() == 0 {
        0
    } else {
        count_kind(lines.drop_last(), kind) + if lines.last().kind == kind {
            1nat
        } else {
            0nat
        }
    }
}

fn count_lines(lines: &Vec<PatchLineView>, kind: PatchLineKind) -> (r: usize)
    ensures
        r == count_kind(timeline::patch_lines(lines@), kind),
{
    let ghost all = timeline::patch_lines(lines@);
    let mut r: usize = 0;
    let mut i: usize = 0;
    proof {
        assert(all.take(0) =~= Seq::empty());
    }
    while i < lines.len()
        invariant
            i <= lines@.len(),
            all == timeline::patch_lines(lines@),
            r == count_kind(all.take(i as int), kind),
            r <= i,
        decreases lines@.len() - i,
    {
        proof {
            assert(all.take(i + 1).drop_last() =~= all.take(i as int));
            assert(all.take(i + 1).last() == lines@[i as int]@);
        }
        if lines[i].kind == kind {
            r = r + 1;
        }
        i = i + 1;
    }
    proof {
        assert(all.take(i as int) =~= all);
    }
    r
}

/// The lines of a change: those that are reported, or those that were asked for where none
/// are.
pub open spec fn lines_of_change(
    c: ReportedChange,
    asked: Option<Map<Seq<char>, Seq<timeline::LineView>>>,
) -> Seq<timeline::LineView> {
    let reported = shown_lines(c.lines@);
    if reported.len() > 0 {
        reported
    } else {
        match asked {
            Some(m) => if m.dom().contains(c.path@) {
                m[c.path@]
            } else {
                Seq::empty()
            },
            None => Seq::empty(),
        }
    }
}

/// A change as it is shown. An operation that is not known did something to the file all the
/// same. A deleted file has lost all its lines, though no hunk says so.
pub open spec fn shown_change(
    c: ReportedChange,
    asked: Option<Map<Seq<char>, Seq<timeline::LineView>>>,
) -> timeline::ChangeView {
    let lines = lines_of_change(c, asked);
    timeline::ChangeView {
        path: c.path@,
        operation: match c.operation {
            ReportedOperation::Add => PatchOperationView::Add,
            ReportedOperation::Update => PatchOperationView::Update,
            ReportedOperation::Delete => PatchOperationView::Delete,
            ReportedOperation::Unknown => PatchOperationView::Update,
        },
        added: if c.operation == ReportedOperation::Delete {
            0
        } else {
            count_kind(lines, PatchLineKind::Add) as usize
        },
        removed: if c.operation == ReportedOperation::Delete {
            match c.lines_before {
                Some(n) => n,
                None => 0,
            }
        } else {
            count_kind(lines, PatchLineKind::Remove) as usize
        },
        hunks: c.hunks,
        lines_before: c.lines_before,
        lines_after: c.lines_after,
        bytes_before: c.bytes_before,
        bytes_after: c.bytes_after,
        lines,
    }
}

pub open spec fn asked_map(asked: Option<&ParsedPatchArgument>) -> Option<
    Map<Seq<char>, Seq<timeline::LineView>>,
> {
    match asked {
        Some(p) => Some(p@),
        None => None,
    }
}

fn change_view(c: &ReportedChange, asked: Option<&ParsedPatchArgument>) -> (r: PatchChangeView)
    requires
        asked matches Some(p) ==> p.changes.well_formed(),
    ensures
        r@ == shown_change(*c, asked_map(asked)),
{
    let reported = reported_lines(&c.lines);
    proof {
        assert(timeline::patch_lines(reported@).len() == reported@.len());
    }
    let lines = if reported.len() > 0 {
        reported
    } else {
        let none: Vec<PatchLineView> = Vec::new();
        proof {
            assert(timeline::patch_lines(none@) =~= Seq::empty());
        }
        match asked {
            Some(p) => match p.change_lines(c.path.as_str()) {
                Some(l) => timeline::clone_patch_lines(l),
                None => none,
            },
            None => none,
        }
    };
    let operation = match c.operation {
        ReportedOperation::Add => PatchOperationView::Add,
        ReportedOperation::Update => PatchOperationView::Update,
        ReportedOperation::Delete => PatchOperationView::Delete,
        ReportedOperation::Unknown => PatchOperationView::Update,
    };
    let (added, removed) = if c.operation == ReportedOperation::Delete {
        let lost: usize = match c.lines_before {
            Some(n) => n,
            None => 0,
        };
        (0, lost)
    } else {
        (count_lines(&lines, PatchLineKind::Add), count_lines(&lines, PatchLineKind::Remove))
    };
    PatchChangeView {
        path: c.path.clone(),
        operation,
        added,
        removed,
        hunks: c.hunks,
        lines_before: c.lines_before,
        lines_after: c.lines_after,
        bytes_before: c.bytes_before,
        bytes_after: c.bytes_after,
        lines,
    }
}

pub open spec fn shown_changes(
    changes: Seq<ReportedChange>,
    asked: Option<Map<Seq<char>, Seq<timeline::LineView>>>,
) -> Seq<timeline::ChangeView> {
    changes.map_values(|c: ReportedChange| shown_change(c, asked))
}

/// The item for a patch that reports that it worked. `report` is what its output says, if it
/// is in the form that says so; `asked` is the patch as it was asked for.
pub open spec fn patch_item(
    report: Option<PatchReport>,
    asked: Option<Map<Seq<char>, Seq<timeline::LineView>>>,
) -> Option<timeline::ItemView> {
    match report {
        Some(p) => if p.ok && p.tool@ == "apply_patch"@ {
            Some(timeline::ItemView::Patch { changes: shown_changes(p.changes@, asked) })
        } else {
            None
        },
        None => None,
    }
}

pub fn parse_apply_patch_view(report: Option<PatchReport>, asked: Option<&ParsedPatchArgument>) -> (r:
    Option<TimelineItem>)
    requires
        asked matches Some(p) ==> p.changes.well_formed(),
    ensures
        timeline::opt_item(r) == patch_item(report, asked_map(asked)),
{
    let report = match report {
        Some(p) => p,
        None => {
            return None;
        },
    };
    if !report.ok || !text::same(report.tool.as_str(), "apply_patch") {
        return None;
    }
    let given = report.changes;
    let mut changes: Vec<PatchChangeView> = Vec::new();
    let mut i: usize = 0;
    while i < given.len()
        invariant
            i <= given@.len(),
            asked matches Some(p) ==> p.changes.well_formed(),
            timeline::change_views(changes@) == shown_changes(
                given@.take(i as int),
                asked_map(asked),
            ),
        decreases given@.len() - i,
    {
        let c = change_view(&given[i], asked);
        let ghost before = changes@;
        changes.push(c);
        proof {
            assert(timeline::change_views(changes@) =~= timeline::change_views(before).push(c@));
            assert(shown_changes(given@.take(i + 1), asked_map(asked)) =~= shown_changes(
                given@.take(i as int),
                asked_map(asked),
            ).push(shown_change(given@[i as int], asked_map(asked))));
        }
        i = i + 1;
    }
    proof {
        assert(given@.take(i as int) =~= given@);
    }
    Some(TimelineItem::Patch { changes })
}

/// The lines that a change counts as added and removed are lines that it shows.
pub proof fn counted_lines_are_shown(
    c: ReportedChange,
    asked: Option<Map<Seq<char>, Seq<timeline::LineView>>>,
)
    requires
        c.operation != ReportedOperation::Delete,
        lines_of_change(c, asked).len() <= usize::MAX,
    ensures
        shown_change(c, asked).added + shown_change(c, asked).removed
            <= shown_change(c, asked).lines.len(),
{
    lemma_kinds_are_apart(lines_of_change(c, asked));
}

proof fn lemma_kinds_are_apart(lines: Seq<timeline::LineView>)
    ensures
        count_kind(lines, PatchLineKind::Add) + count_kind(lines, PatchLineKind::Remove)
            <= lines.len(),
    decreases lines.len(),
{
    if lines.len() > 0 {
        lemma_kinds_are_apart(lines.drop_last());
    }
}

proof fn lemma_count_is_filter(lines: Seq<timeline::LineView>, kind: PatchLineKind)
    ensures
        count_kind(lines, kind) == lines.filter(|l: timeline::LineView| l.kind == kind).len(),
    decreases lines.len(),
{
    let picks = |l: timeline::LineView| l.kind == kind;
    reveal(Seq::filter);
    if lines.len() > 0 {
        lemma_count_is_filter(lines.drop_last(), kind);
        assert(lines.filter(picks) == ({
            let before = lines.drop_last().filter(picks);
            if picks(lines.last()) {
                before.push(lines.last())
            } else {
                before
            }
        }));
    }
}

proof fn lemma_kinds_add_up(lines: Seq<timeline::LineView>)
    ensures
        count_kind(lines, PatchLineKind::Add) + count_kind(lines, PatchLineKind::Remove)
            + count_kind(lines, PatchLineKind::Context) == lines.len(),
    decreases lines.len(),
{
    if lines.len() > 0 {
        lemma_kinds_add_up(lines.drop_last());
    }
}

/// A change that is no deletion counts exactly the lines that it shows: those that come are
/// added, those that go are removed, and with the lines that stay they are all.
pub proof fn changes_count_the_lines_that_they_show(
    c: ReportedChange,
    asked: Option<Map<Seq<char>, Seq<timeline::LineView>>>,
)
    requires
        c.operation != ReportedOperation::Delete,
        shown_change(c, asked).lines.len() <= usize::MAX,
    ensures
        ({
            let s = shown_change(c, asked);
            &&& s.added == s.lines.filter(
                |l: timeline::LineView| l.kind == PatchLineKind::Add,
            ).len()
            &&& s.removed == s.lines.filter(
                |l: timeline::LineView| l.kind == PatchLineKind::Remove,
            ).len()
            &&& s.added + s.removed + s.lines.filter(
                |l: timeline::LineView| l.kind == PatchLineKind::Context,
            ).len() == s.lines.len()
        }),
{
    let lines = shown_change(c, asked).lines;
    lemma_count_is_filter(lines, PatchLineKind::Add);
    lemma_count_is_filter(lines, PatchLineKind::Remove);
    lemma_count_is_filter(lines, PatchLineKind::Context);
    lemma_kinds_add_up(lines);
    assert(lines.filter(|l: timeline::LineView| l.kind == PatchLineKind::Add).len() == count_kind(
        lines,
        PatchLineKind::Add,
    ));
    assert(lines.filter(|l: timeline::LineView| l.kind == PatchLineKind::Remove).len()
        == count_kind(lines, PatchLineKind::Remove));
    assert(lines.filter(|l: timeline::LineView| l.kind == PatchLineKind::Context).len()
        == count_kind(lines, PatchLineKind::Context));
}

/// A deleted file has lost the lines that it had, and got none.
pub proof fn deletions_remove_every_line(
    c: ReportedChange,
    asked: Option<Map<Seq<char>, Seq<timeline::LineView>>>,
)
    requires
        c.operation == ReportedOperation::Delete,
    ensures
        shown_change(c, asked).operation == PatchOperationView::Delete,
        shown_change(c, asked).added == 0,
        c.lines_before matches Some(n) ==> shown_change(c, asked).removed == n,
        c.lines_before is None ==> shown_change(c, asked).removed == 0,
{
}

/// Of a change, all is shown as it is reported: the path, the sizes before and after, and what
/// happened to the file, where that is known.
pub proof fn changes_are_shown_as_reported(
    c: ReportedChange,
    asked: Option<Map<Seq<char>, Seq<timeline::LineView>>>,
)
    ensures
        ({
            let s = shown_change(c, asked);
            &&& s.path == c.path@
            &&& s.hunks == c.hunks
            &&& s.lines_before == c.lines_before
            &&& s.lines_after == c.lines_after
            &&& s.bytes_before == c.bytes_before
            &&& s.bytes_after == c.bytes_after
            &&& s.operation == PatchOperationView::Add <==> c.operation == ReportedOperation::Add
            &&& s.operation == PatchOperationView::Delete <==> c.operation
                == ReportedOperation::Delete
        }),
{
}

/// Whether a shown line tells what a reported one does.
pub open spec fn tells(shown: timeline::LineView, line: ReportedLine) -> bool {
    &&& shown.text == line.text@
    &&& shown.old_line == line.old_line
    &&& shown.new_line == line.new_line
    &&& shown.kind == PatchLineKind::Add <==> line.kind == ReportedLineKind::Add
    &&& shown.kind == PatchLineKind::Remove <==> line.kind == ReportedLineKind::Remove
    &&& shown.kind == PatchLineKind::Context <==> line.kind == ReportedLineKind::Context
}

proof fn lemma_known_lines(lines: Seq<ReportedLine>)
    ensures
        ({
            let known = lines.filter(|l: ReportedLine| l.kind != ReportedLineKind::Unknown);
            &&& shown_lines(lines).len() == known.len()
            &&& forall|i: int|
                0 <= i < known.len() ==> tells(#[trigger] shown_lines(lines)[i], known[i])
        }),
    decreases lines.len(),
{
    let picks = |l: ReportedLine| l.kind != ReportedLineKind::Unknown;
    reveal(Seq::filter);
    if lines.len() > 0 {
        let init = lines.drop_last();
        lemma_known_lines(init);
        let before = init.filter(picks);
        let known = lines.filter(picks);
        assert(before == init.filter(|l: ReportedLine| l.kind != ReportedLineKind::Unknown));
        if picks(lines.last()) {
            assert(known == before.push(lines.last()));
        } else {
            assert(known == before);
        }
        assert forall|i: int| 0 <= i < known.len() implies tells(
            #[trigger] shown_lines(lines)[i],
            known[i],
        ) by {
            if i < before.len() {
                assert(tells(shown_lines(init)[i], before[i]));
            }
        }
    }
}

/// The lines of a change are the reported ones of which it is known what happened to them, all
/// of them and in their order; where there is none, the lines that were asked for that file.
pub proof fn changes_show_their_lines_in_order(
    c: ReportedChange,
    asked: Option<Map<Seq<char>, Seq<timeline::LineView>>>,
)
    ensures
        ({
            let known = c.lines@.filter(|l: ReportedLine| l.kind != ReportedLineKind::Unknown);
            let lines = shown_change(c, asked).lines;
            &&& known.len() > 0 ==> lines.len() == known.len() && (forall|i: int|
                0 <= i < known.len() ==> tells(#[trigger] lines[i], known[i]))
            &&& known.len() == 0 ==> (asked matches Some(m) ==> (m.dom().contains(c.path@) ==> lines
                == m[c.path@]))
            &&& known.len() == 0 && (asked matches Some(m) ==> !m.dom().contains(c.path@))
                ==> lines.len() == 0
        }),
{
    lemma_known_lines(c.lines@);
}

/// A patch that worked is shown with every one of its changes, in their order; another output
/// makes no such item.
pub proof fn patches_are_shown_change_by_change(
    report: Option<PatchReport>,
    asked: Option<Map<Seq<char>, Seq<timeline::LineView>>>,
)
    ensures
        patch_item(report, asked) is Some <==> (report matches Some(p) && p.ok && p.tool@
            == "apply_patch"@),
        patch_item(report, asked) matches Some(item) ==> (item matches timeline::ItemView::Patch {
            changes,
        } && changes.len() == (report->0).changes@.len() && (forall|i: int|
            0 <= i < changes.len() ==> (#[trigger] changes[i]).path == (
            report->0).changes@[i].path@)),
{
}

/// A line of a patch that begins with a sign is a line of the file: what follows the sign is
/// its text, and the sign says whether it comes, goes or stays. A line that comes has no number
/// before, one that goes has none after; the number that it has is not given to another.
pub proof fn signs_say_what_happens_to_a_line(r: Reading, line: ArgumentLineView)
    requires
        line.header is None,
        line.text.len() > 0,
        line.text[0] == '+' || line.text[0] == '-' || line.text[0] == ' ',
    ensures
        ({
            let s = with_argument(r, line);
            let added = s.lines.last();
            let comes = line.text[0] == '+';
            let goes = line.text[0] == '-';
            &&& s.done == r.done
            &&& s.path == r.path
            &&& s.lines.len() == r.lines.len() + 1
            &&& s.lines.drop_last() == r.lines
            &&& added.text == line.text.drop_first()
            &&& added.kind == PatchLineKind::Add <==> comes
            &&& added.kind == PatchLineKind::Remove <==> goes
            &&& added.old_line == if comes {
                None
            } else {
                r.numbers.old_next
            }
            &&& added.new_line == if goes {
                None
            } else {
                r.numbers.new_next
            }
            &&& comes ==> s.numbers.old_next == r.numbers.old_next
            &&& goes ==> s.numbers.new_next == r.numbers.new_next
            &&& !comes ==> (r.numbers.old_next matches Some(n) ==> n < usize::MAX
                ==> s.numbers.old_next == Some((n + 1) as usize))
            &&& !goes ==> (r.numbers.new_next matches Some(n) ==> n < usize::MAX
                ==> s.numbers.new_next == Some((n + 1) as usize))
            &&& r.numbers.old_next is None ==> s.numbers.old_next is None
            &&& r.numbers.new_next is None ==> s.numbers.new_next is None
        }),
{
    reveal_strlit("*** ");
    reveal_strlit("@@");
    assert(!text::stands_at(line.text, "*** "@, 0)) by {
        if text::stands_at(line.text, "*** "@, 0) {
            assert(line.text.subrange(0, 4)[0] == '*');
        }
    }
    assert(!text::stands_at(line.text, "@@"@, 0)) by {
        if text::stands_at(line.text, "@@"@, 0) {
            assert(line.text.subrange(0, 2)[0] == '@');
        }
    }
    assert(with_argument(r, line).lines.drop_last() =~= r.lines);
}

/// A line that begins a section ends the one before it, whose lines belong to its file from
/// then on; the new section has no lines yet. A new file is numbered from one on.
pub proof fn sections_belong_to_their_files(
    r: Reading,
    line: ArgumentLineView,
    kind: PatchSectionKind,
    path: Seq<char>,
)
    requires
        line.header == Some((kind, path)),
    ensures
        ({
            let s = with_argument(r, line);
            &&& s.path == Some(path)
            &&& s.lines.len() == 0
            &&& (r.path matches Some(p) ==> s.done.dom().contains(p) && s.done[p] == r.lines)
            &&& forall|q: Seq<char>|
                r.path != Some(q) ==> (#[trigger] s.done.dom().contains(q) <==>
                    r.done.dom().contains(q)) && (r.done.dom().contains(q) ==> s.done[q]
                    == r.done[q])
            &&& kind == PatchSectionKind::Add ==> s.numbers.new_next == Some(1usize)
            &&& kind != PatchSectionKind::Add ==> s.numbers.new_next is None
            &&& s.numbers.old_next is None
        }),
{
}

/// Lines of a patch that are neither a section's beginning nor a line of a file add no line.
pub proof fn other_lines_add_nothing(r: Reading, line: ArgumentLineView)
    requires
        line.header is None,
        line.text.len() == 0 || (line.text[0] != '+' && line.text[0] != '-' && line.text[0] != ' '),
    ensures
        with_argument(r, line).done == r.done,
        with_argument(r, line).path == r.path,
        with_argument(r, line).lines == r.lines,
        line.text.len() == 0 || line.text[0] != '@' ==> with_argument(r, line) == r,
{
    reveal_strlit("*** ");
    reveal_strlit("@@");
    if text::stands_at(line.text, "@@"@, 0) {
        assert(line.text.subrange(0, 2)[0] == '@');
    }
}

} // verus!
