//! The panel that shows one item of the conversation at length.
use crate::json;
use crate::text;
use crate::timeline;
use crate::timeline::{PatchChangeView, TimelineItem};
use crate::words;
use vstd::prelude::*;

verus! {

#[derive(Debug, Clone, Copy, PartialEq, Eq, Structural)]
pub enum FocusPanelTone {
    Default,
    Error,
}

#[derive(Debug, Clone, Copy, PartialEq, Eq, Structural)]
pub enum DirectoryEntryKind {
    File,
    Directory,
}

#[derive(Debug, PartialEq, Eq)]
pub struct DirectoryEntryView {
    pub path: String,
    pub kind: DirectoryEntryKind,
}

/// An entry of a directory.
pub struct EntryView {
    pub path: Seq<char>,
    pub kind: DirectoryEntryKind,
}

impl View for DirectoryEntryView {
    type V = EntryView;

    open spec fn view(&self) -> EntryView {
        EntryView { path: self.path@, kind: self.kind }
    }
}

pub open spec fn entry_views(v: Seq<DirectoryEntryView>) -> Seq<EntryView> {
    v.map_values(|e: DirectoryEntryView| e@)
}

#[derive(Debug, PartialEq, Eq)]
pub enum FocusPanelBody {
    Empty,
    Patch { changes: Vec<PatchChangeView> },
    Source { path: String, content: String },
    DirectoryListing { entries: Vec<DirectoryEntryView> },
    CommandOutput { lines: Vec<String> },
    Text { lines: Vec<String> },
}

/// What the panel shows.
pub enum BodyView {
    Empty,
    Patch { changes: Seq<timeline::ChangeView> },
    Source { path: Seq<char>, content: Seq<char> },
    DirectoryListing { entries: Seq<EntryView> },
    CommandOutput { lines: Seq<Seq<char>> },
    Text { lines: Seq<Seq<char>> },
}

impl View for FocusPanelBody {
    type V = BodyView;

    open spec fn view(&self) -> BodyView {
        match self {
            FocusPanelBody::Empty => BodyView::Empty,
            FocusPanelBody::Patch { changes } => BodyView::Patch {
                changes: timeline::change_views(changes@),
            },
            FocusPanelBody::Source { path, content } => BodyView::Source {
                path: path@,
                content: content@,
            },
            FocusPanelBody::DirectoryListing { entries } => BodyView::DirectoryListing {
                entries: entry_views(entries@),
            },
            FocusPanelBody::CommandOutput { lines } => BodyView::CommandOutput {
                lines: text::views(lines@),
            },
            FocusPanelBody::Text { lines } => BodyView::Text { lines: text::views(lines@) },
        }
    }
}

#[derive(Debug, PartialEq, Eq)]
pub struct FocusPanelView {
    pub title: String,
    pub body: FocusPanelBody,
    pub tone: FocusPanelTone,
}

/// The panel, as mathematical values.
pub struct PanelView {
    pub title: Seq<char>,
    pub body: BodyView,
    pub tone: FocusPanelTone,
}

impl View for FocusPanelView {
    type V = PanelView;

    open spec fn view(&self) -> PanelView {
        PanelView { title: self.title@, body: self.body@, tone: self.tone }
    }
}

/// The panel when nothing is in focus.
pub open spec fn empty_panel() -> PanelView {
    PanelView { title: "FOCUS"@, body: BodyView::Empty, tone: FocusPanelTone::Default }
}

fn no_focus() -> (r: FocusPanelView)
    ensures
        r@ == empty_panel(),
{
    FocusPanelView {
        title: "FOCUS".to_owned(),
        body: FocusPanelBody::Empty,
        tone: FocusPanelTone::Default,
    }
}

/// A text without its head, where it begins with it.
pub open spec fn behind(s: Seq<char>, head: Seq<char>) -> Option<Seq<char>> {
    if head.is_prefix_of(s) {
        Some(s.skip(head.len() as int))
    } else {
        None
    }
}

fn strip_head(s: &str, head: &str) -> (r: Option<String>)
    ensures
        crate::plan_model::opt(r) == behind(s@, head@),
{
    if !text::begins_with(s, head) {
        return None;
    }
    let v = text::chars_of(s);
    let h = text::chars_of(head);
    let rest = text::text_of(&v, h.len(), v.len());
    proof {
        assert(rest@ =~= s@.skip(head@.len() as int));
    }
    Some(rest)
}

/// What stands before the first place of a text, or everything where it does not occur.
pub open spec fn before(s: Seq<char>, needle: Seq<char>) -> Seq<char> {
    match text::first_place(s, needle, 0) {
        Some(i) => s.take(i),
        None => s,
    }
}

fn cut_before(s: &str, needle: &str) -> (r: String)
    requires
        needle@.len() > 0,
    ensures
        r@ == before(s@, needle@),
{
    let v = text::chars_of(s);
    let n = text::chars_of(needle);
    match text::find_first(&v, &n, 0) {
        Some(i) => {
            let r = text::text_of(&v, 0, i);
            proof {
                assert(r@ =~= s@.take(i as int));
            }
            r
        },
        None => s.to_owned(),
    }
}

/// The command in the account that a tool gives of the process it ran.
pub open spec fn process_command(detail: Seq<char>) -> Option<Seq<char>> {
    match behind(detail, "run_process argv="@) {
        Some(rest) => match json::json_texts(before(rest, " cwd="@)) {
            Some(argv) => if argv.len() > 0 {
                Some(text::join(argv, " "@))
            } else {
                None
            },
            None => None,
        },
        None => None,
    }
}

pub fn process_command_from_tool_detail(detail: &str) -> (r: Option<String>)
    ensures
        crate::plan_model::opt(r) == process_command(detail@),
{
    let rest = match strip_head(detail, "run_process argv=") {
        Some(rest) => rest,
        None => {
            return None;
        },
    };
    proof {
        reveal_strlit(" cwd=");
    }
    let argv = cut_before(rest.as_str(), " cwd=");
    match json::texts_of(argv.as_str()) {
        Some(argv) => {
            proof {
                assert(text::views(argv@).len() == argv@.len());
            }
            if argv.len() > 0 {
                Some(text::join_texts(&argv, " "))
            } else {
                None
            }
        },
        None => None,
    }
}

/// What stands behind "Ran " in a title, or behind "Ran: ".
pub open spec fn ran(title: Seq<char>) -> Option<Seq<char>> {
    match behind(title, "Ran "@) {
        Some(command) => Some(command),
        None => behind(title, "Ran: "@),
    }
}

fn strip_ran(title: &str) -> (r: Option<String>)
    ensures
        crate::plan_model::opt(r) == ran(title@),
{
    match strip_head(title, "Ran ") {
        Some(command) => Some(command),
        None => strip_head(title, "Ran: "),
    }
}

/// The command that a title names: as the tool's account has it, given as `process`, or else
/// without the directory behind it.
pub open spec fn command_in_focus(command: Seq<char>, process: Option<Seq<char>>) -> Seq<char> {
    match process {
        Some(process) => process,
        None => before(command, " (cwd: "@),
    }
}

/// The panel's title for an item with a title.
pub open spec fn text_title(title: Seq<char>, process: Option<Seq<char>>) -> Seq<char> {
    match ran(title) {
        Some(command) => "FOCUS command "@ + command_in_focus(command, process),
        None => match behind(title, "MCP "@) {
            Some(detail) => "FOCUS MCP "@ + detail,
            None => "FOCUS "@ + title,
        },
    }
}

/// The command that the tool's account in a title names.
pub open spec fn process_in(title: Seq<char>) -> Option<Seq<char>> {
    match ran(title) {
        Some(command) => process_command(command),
        None => None,
    }
}

/// The panel's title for an item with a title, where the account that it may hold was read.
pub fn focus_title(title: &str, process: Option<String>) -> (r: String)
    ensures
        r@ == text_title(title@, crate::plan_model::opt(process)),
{
    if let Some(command) = strip_ran(title) {
        let command = match process {
            Some(process) => process,
            None => {
                proof {
                    reveal_strlit(" (cwd: ");
                }
                cut_before(command.as_str(), " (cwd: ")
            },
        };
        return text::cat2("FOCUS command ", command.as_str());
    }
    if let Some(detail) = strip_head(title, "MCP ") {
        return text::cat2("FOCUS MCP ", detail.as_str());
    }
    text::cat2("FOCUS ", title)
}

pub fn focus_title_for_text_item(title: &str) -> (r: String)
    ensures
        r@ == text_title(title@, process_in(title@)),
{
    let process = match strip_ran(title) {
        Some(command) => process_command_from_tool_detail(command.as_str()),
        None => None,
    };
    focus_title(title, process)
}

/// An entry of a directory: a slash at its end tells a directory.
pub open spec fn entry_of(line: Seq<char>) -> EntryView {
    EntryView {
        path: line,
        kind: if line.len() > 0 && line.last() == '/' {
            DirectoryEntryKind::Directory
        } else {
            DirectoryEntryKind::File
        },
    }
}

pub fn directory_entry_view(line: &str) -> (r: DirectoryEntryView)
    ensures
        r@ == entry_of(line@),
{
    let v = text::chars_of(line);
    let kind = if v.len() > 0 && v[v.len() - 1] == '/' {
        DirectoryEntryKind::Directory
    } else {
        DirectoryEntryKind::File
    };
    DirectoryEntryView { path: line.to_owned(), kind }
}

/// What the panel shows of an item with a title.
pub open spec fn expanded_body(title: Seq<char>, body: Seq<char>) -> BodyView {
    match behind(title, "Read "@) {
        Some(path) => BodyView::Source { path, content: body },
        None => if behind(title, "Listed "@) is Some {
            BodyView::DirectoryListing {
                entries: words::lines(body).map_values(|l: Seq<char>| entry_of(l)),
            }
        } else if ran(title) is Some {
            BodyView::CommandOutput { lines: words::lines(body) }
        } else {
            BodyView::Text { lines: words::lines(body) }
        },
    }
}

pub fn focus_body_for_expanded_item(title: &str, body: &str) -> (r: FocusPanelBody)
    ensures
        r@ == expanded_body(title@, body@),
{
    if let Some(path) = strip_head(title, "Read ") {
        return FocusPanelBody::Source { path, content: body.to_owned() };
    }
    if strip_head(title, "Listed ").is_some() {
        let lines = words::lines_of(body);
        let ghost all = words::lines(body@);
        let mut entries: Vec<DirectoryEntryView> = Vec::new();
        let mut i: usize = 0;
        while i < lines.len()
            invariant
                i <= lines@.len(),
                entries@.len() == i,
                text::views(lines@) == all,
                forall|k: int| 0 <= k < i ==> (#[trigger] entries@[k])@ == entry_of(all[k]),
            decreases lines@.len() - i,
        {
            entries.push(directory_entry_view(lines[i].as_str()));
            proof {
                assert(all[i as int] == lines@[i as int]@);
            }
            i = i + 1;
        }
        proof {
            assert(all.len() == lines@.len());
            assert(entry_views(entries@) =~= all.map_values(|l: Seq<char>| entry_of(l)));
        }
        return FocusPanelBody::DirectoryListing { entries };
    }
    if strip_ran(title).is_some() {
        return FocusPanelBody::CommandOutput { lines: words::lines_of(body) };
    }
    FocusPanelBody::Text { lines: words::lines_of(body) }
}

/// The lowercase equivalent of a text.
pub uninterp spec fn lowercase_text(s: Seq<char>) -> Seq<char>;

/// `str::to_lowercase` gives the lowercase equivalent of a text, by Unicode's mappings.
#[verifier::external_body]
fn to_lowercase(s: &str) -> (r: String)
    ensures
        r@ == lowercase_text(s@),
{
    s.to_lowercase()
}

/// The panel of an item, given the lowercase equivalent of its title and the command in the
/// account that its title may hold.
pub open spec fn item_panel(
    item: timeline::ItemView,
    small: Seq<char>,
    process: Option<Seq<char>>,
) -> PanelView {
    match item {
        timeline::ItemView::Patch { changes } => PanelView {
            title: "FOCUS patch "@ + (if changes.len() > 0 {
                changes[0].path
            } else {
                "patch"@
            }),
            body: BodyView::Patch { changes },
            tone: FocusPanelTone::Default,
        },
        timeline::ItemView::Expanded { title, body } => PanelView {
            title: text_title(title, process),
            body: expanded_body(title, body),
            tone: FocusPanelTone::Default,
        },
        timeline::ItemView::ExpandedDetail { title, body: _, focus_body } => PanelView {
            title: text_title(title, process),
            body: expanded_body(title, focus_body),
            tone: FocusPanelTone::Default,
        },
        timeline::ItemView::Diagnostic { title, body } => PanelView {
            title: "ERROR "@ + title,
            body: BodyView::Text { lines: words::lines(body) },
            tone: FocusPanelTone::Error,
        },
        timeline::ItemView::Muted { title, detail } => PanelView {
            title: "FOCUS "@ + small,
            body: BodyView::Text {
                lines: seq![
                    if detail.len() > 0 {
                        title + " "@ + detail
                    } else {
                        title
                    },
                ],
            },
            tone: FocusPanelTone::Default,
        },
        _ => empty_panel(),
    }
}

/// The title of an item, where it has one.
pub open spec fn title_of(item: timeline::ItemView) -> Seq<char> {
    match item {
        timeline::ItemView::Expanded { title, .. } => title,
        timeline::ItemView::ExpandedDetail { title, .. } => title,
        timeline::ItemView::Muted { title, .. } => title,
        _ => Seq::empty(),
    }
}

/// The panel of an item.
pub open spec fn focus_on(item: timeline::ItemView) -> PanelView {
    item_panel(item, lowercase_text(title_of(item)), process_in(title_of(item)))
}

fn clone_changes(v: &Vec<PatchChangeView>) -> (r: Vec<PatchChangeView>)
    ensures
        timeline::change_views(r@) == timeline::change_views(v@),
{
    let mut r: Vec<PatchChangeView> = Vec::new();
    let mut i: usize = 0;
    while i < v.len()
        invariant
            i <= v@.len(),
            r@.len() == i,
            forall|k: int| 0 <= k < i ==> (#[trigger] r@[k])@ == v@[k]@,
        decreases v@.len() - i,
    {
        r.push(v[i].clone());
        i = i + 1;
    }
    proof {
        assert(timeline::change_views(r@) =~= timeline::change_views(v@));
    }
    r
}

/// The panel of something that was told in passing, given the lowercase equivalent of its
/// title.
pub fn muted_panel(title: &str, detail: &str, small: &str) -> (r: FocusPanelView)
    ensures
        r@ == item_panel(
            timeline::ItemView::Muted { title: title@, detail: detail@ },
            small@,
            None,
        ),
{
    let line = if detail.is_empty() {
        title.to_owned()
    } else {
        text::cat3(title, " ", detail)
    };
    let ghost told = line@;
    let mut lines: Vec<String> = Vec::new();
    lines.push(line);
    proof {
        assert(text::views(lines@) =~= seq![told]);
    }
    FocusPanelView {
        title: text::cat2("FOCUS ", small),
        body: FocusPanelBody::Text { lines },
        tone: FocusPanelTone::Default,
    }
}

pub fn focus_view_for_item(item: &TimelineItem) -> (r: FocusPanelView)
    ensures
        r@ == focus_on(item@),
{
    match item {
        TimelineItem::Patch { changes } => {
            let ghost listed = timeline::change_views(changes@);
            let title = if changes.len() > 0 {
                proof {
                    assert(listed[0] == changes@[0]@);
                }
                text::cat2("FOCUS patch ", changes[0].path.as_str())
            } else {
                text::cat2("FOCUS patch ", "patch")
            };
            FocusPanelView {
                title,
                body: FocusPanelBody::Patch { changes: clone_changes(changes) },
                tone: FocusPanelTone::Default,
            }
        },
        TimelineItem::Expanded { title, body } => FocusPanelView {
            title: focus_title_for_text_item(title.as_str()),
            body: focus_body_for_expanded_item(title.as_str(), body.as_str()),
            tone: FocusPanelTone::Default,
        },
        TimelineItem::Diagnostic { title, body } => FocusPanelView {
            title: text::cat2("ERROR ", title.as_str()),
            body: FocusPanelBody::Text { lines: words::lines_of(body.as_str()) },
            tone: FocusPanelTone::Error,
        },
        TimelineItem::ExpandedDetail { title, body: _, focus_body } => FocusPanelView {
            title: focus_title_for_text_item(title.as_str()),
            body: focus_body_for_expanded_item(title.as_str(), focus_body.as_str()),
            tone: FocusPanelTone::Default,
        },
        TimelineItem::Muted { title, detail } => {
            let small = to_lowercase(title.as_str());
            muted_panel(title.as_str(), detail.as_str(), small.as_str())
        },
        _ => no_focus(),
    }
}

/// The panel of the item that is in focus.
pub fn focus_panel_view(items: &Vec<TimelineItem>, selected: Option<usize>) -> (r: FocusPanelView)
    ensures
        r@ == (match selected {
            Some(i) if i < items@.len() => focus_on(items@[i as int]@),
            _ => empty_panel(),
        }),
{
    match selected {
        Some(i) if i < items.len() => focus_view_for_item(&items[i]),
        _ => no_focus(),
    }
}

/// Only a diagnostic is shown as an error.
pub proof fn only_diagnostics_alarm(item: timeline::ItemView)
    ensures
        focus_on(item).tone == FocusPanelTone::Error <==> item is Diagnostic,
{
}

/// What stands before a text ends where that begins for the first time: it is the front of the
/// whole, and does not hold the text itself.
pub proof fn texts_are_cut_at_the_first_place(s: Seq<char>, needle: Seq<char>)
    requires
        needle.len() > 0,
    ensures
        before(s, needle).is_prefix_of(s),
        before(s, needle).len() < s.len() ==> text::stands_at(
            s,
            needle,
            before(s, needle).len() as int,
        ),
        forall|k: int|
            0 <= k < before(s, needle).len() ==> !#[trigger] text::stands_at(s, needle, k),
        behind(needle + s, needle) == Some(s),
{
    text::first_places_come_first(s, needle, 0);
    assert(before(s, needle) =~= s.subrange(0, before(s, needle).len() as int));
    assert(needle =~= (needle + s).subrange(0, needle.len() as int));
    assert((needle + s).skip(needle.len() as int) =~= s);
}

/// An entry of a directory is shown by its own path, as a directory if and only if it ends in a
/// slash.
pub proof fn entries_show_their_path(line: Seq<char>)
    ensures
        entry_of(line).path == line,
        entry_of(line).kind == DirectoryEntryKind::Directory <==> line.len() > 0 && line.last()
            == '/',
{
}

} // verus!
