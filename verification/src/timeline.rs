//! What the conversation shows, item by item.
use crate::text;
use vstd::prelude::*;

verus! {

/// Which queue a message waits in.
#[derive(Debug, Clone, Copy, PartialEq, Eq, Structural)]
pub enum QueuedInputLane {
    Next,
    Suspended,
    Backlog,
}

/// How a command went wrong.
#[derive(Debug, Clone, Copy, PartialEq, Eq, Structural)]
pub enum CommandFailure {
    Cancelled,
    Failed,
}

/// How long something took: in milliseconds, and in seconds with one decimal.
#[derive(Debug, Clone, PartialEq, Eq)]
pub struct Elapsed {
    pub millis: u64,
    pub seconds_text: String,
}

/// The first lines of what a command printed.
#[derive(Debug, Clone, PartialEq, Eq)]
pub struct ProcessOutputPreview {
    pub lines: Vec<String>,
    pub truncated: bool,
}

/// A command that ran to its end.
#[derive(Debug, Clone, PartialEq, Eq)]
pub struct FinishedCommand {
    pub detail: String,
    pub exit_code: Option<i64>,
    pub failure: Option<CommandFailure>,
    pub preview: ProcessOutputPreview,
    pub command: String,
    pub cwd: String,
    pub artifact_id: String,
    pub elapsed: Option<Elapsed>,
}

/// A command, under way or at its end.
#[derive(Debug, Clone, PartialEq, Eq)]
pub enum CommandView {
    Running { detail: String, started_at_ms: u64 },
    Finished(FinishedCommand),
}

/// What a patch does to a file.
#[derive(Debug, Clone, Copy, PartialEq, Eq, Structural)]
pub enum PatchOperationView {
    Add,
    Update,
    Delete,
}

/// What a patch does to a line.
#[derive(Debug, Clone, Copy, PartialEq, Eq, Structural)]
pub enum PatchLineKind {
    Context,
    Add,
    Remove,
}

/// A line of a patch, with its numbers before and after.
#[derive(Debug, PartialEq, Eq)]
pub struct PatchLineView {
    pub kind: PatchLineKind,
    pub old_line: Option<usize>,
    pub new_line: Option<usize>,
    pub text: String,
}

impl Clone for PatchLineView {
    fn clone(&self) -> (r: Self)
        ensures
            r == *self,
    {
        PatchLineView {
            kind: self.kind,
            old_line: self.old_line,
            new_line: self.new_line,
            text: self.text.clone(),
        }
    }
}

/// A line of a patch.
pub struct LineView {
    pub kind: PatchLineKind,
    pub old_line: Option<usize>,
    pub new_line: Option<usize>,
    pub text: Seq<char>,
}

impl View for PatchLineView {
    type V = LineView;

    open spec fn view(&self) -> LineView {
        LineView {
            kind: self.kind,
            old_line: self.old_line,
            new_line: self.new_line,
            text: self.text@,
        }
    }
}

pub open spec fn patch_lines(v: Seq<PatchLineView>) -> Seq<LineView> {
    v.map_values(|l: PatchLineView| l@)
}

impl PatchLineView {
    pub fn add(text: String, new_line: Option<usize>) -> (r: PatchLineView)
        ensures
            r@ == (LineView { kind: PatchLineKind::Add, old_line: None, new_line, text: text@ }),
    {
        PatchLineView { kind: PatchLineKind::Add, old_line: None, new_line, text }
    }

    pub fn remove(text: String, old_line: Option<usize>) -> (r: PatchLineView)
        ensures
            r@ == (LineView { kind: PatchLineKind::Remove, old_line, new_line: None, text: text@ }),
    {
        PatchLineView { kind: PatchLineKind::Remove, old_line, new_line: None, text }
    }
}

/// What a patch did to a file.
#[derive(Debug, PartialEq, Eq)]
pub struct PatchChangeView {
    pub path: String,
    pub operation: PatchOperationView,
    pub added: usize,
    pub removed: usize,
    pub hunks: usize,
    pub lines_before: Option<usize>,
    pub lines_after: Option<usize>,
    pub bytes_before: Option<u64>,
    pub bytes_after: Option<u64>,
    pub lines: Vec<PatchLineView>,
}

pub(crate) fn clone_patch_lines(v: &Vec<PatchLineView>) -> (r: Vec<PatchLineView>)
    ensures
        r@ == v@,
{
    let mut r: Vec<PatchLineView> = Vec::new();
    let mut i: usize = 0;
    while i < v.len()
        invariant
            i <= v@.len(),
            r@ == v@.take(i as int),
        decreases v@.len() - i,
    {
        r.push(v[i].clone());
        proof {
            assert(v@.take(i + 1) =~= v@.take(i as int).push(v@[i as int]));
        }
        i += 1;
    }
    proof {
        assert(v@.take(i as int) =~= v@);
    }
    r
}

impl Clone for PatchChangeView {
    fn clone(&self) -> (r: Self)
        ensures
            r@ == self@,
    {
        PatchChangeView {
            path: self.path.clone(),
            operation: self.operation,
            added: self.added,
            removed: self.removed,
            hunks: self.hunks,
            lines_before: self.lines_before,
            lines_after: self.lines_after,
            bytes_before: self.bytes_before,
            bytes_after: self.bytes_after,
            lines: clone_patch_lines(&self.lines),
        }
    }
}

/// What a patch did to a file.
pub struct ChangeView {
    pub path: Seq<char>,
    pub operation: PatchOperationView,
    pub added: usize,
    pub removed: usize,
    pub hunks: usize,
    pub lines_before: Option<usize>,
    pub lines_after: Option<usize>,
    pub bytes_before: Option<u64>,
    pub bytes_after: Option<u64>,
    pub lines: Seq<LineView>,
}

impl View for PatchChangeView {
    type V = ChangeView;

    open spec fn view(&self) -> ChangeView {
        ChangeView {
            path: self.path@,
            operation: self.operation,
            added: self.added,
            removed: self.removed,
            hunks: self.hunks,
            lines_before: self.lines_before,
            lines_after: self.lines_after,
            bytes_before: self.bytes_before,
            bytes_after: self.bytes_after,
            lines: patch_lines(self.lines@),
        }
    }
}

pub open spec fn change_views(v: Seq<PatchChangeView>) -> Seq<ChangeView> {
    v.map_values(|c: PatchChangeView| c@)
}

/// An item of the conversation.
#[derive(Debug, PartialEq, Eq)]
pub enum TimelineItem {
    User { text: String, lane: QueuedInputLane },
    Assistant { text: String },
    Muted { title: String, detail: String },
    Expanded { title: String, body: String },
    ExpandedDetail { title: String, body: String, focus_body: String },
    Diagnostic { title: String, body: String },
    LocalCommand { title: String, body: String },
    Command { view: CommandView },
    Patch { changes: Vec<PatchChangeView> },
}

/// An item of the conversation, as mathematical values.
pub enum ItemView {
    User { text: Seq<char>, lane: QueuedInputLane },
    Assistant { text: Seq<char> },
    Muted { title: Seq<char>, detail: Seq<char> },
    Expanded { title: Seq<char>, body: Seq<char> },
    ExpandedDetail { title: Seq<char>, body: Seq<char>, focus_body: Seq<char> },
    Diagnostic { title: Seq<char>, body: Seq<char> },
    LocalCommand { title: Seq<char>, body: Seq<char> },
    Running { detail: Seq<char>, started_at_ms: u64 },
    Finished(FinishedView),
    Patch { changes: Seq<ChangeView> },
}

/// A command that ran to its end.
pub struct FinishedView {
    pub detail: Seq<char>,
    pub exit_code: Option<i64>,
    pub failure: Option<CommandFailure>,
    pub preview: (Seq<Seq<char>>, bool),
    pub command: Seq<char>,
    pub cwd: Seq<char>,
    pub artifact_id: Seq<char>,
    pub elapsed: Option<(u64, Seq<char>)>,
}

impl View for FinishedCommand {
    type V = FinishedView;

    open spec fn view(&self) -> FinishedView {
        FinishedView {
            detail: self.detail@,
            exit_code: self.exit_code,
            failure: self.failure,
            preview: (text::views(self.preview.lines@), self.preview.truncated),
            command: self.command@,
            cwd: self.cwd@,
            artifact_id: self.artifact_id@,
            elapsed: match self.elapsed {
                Some(e) => Some((e.millis, e.seconds_text@)),
                None => None,
            },
        }
    }
}

impl View for TimelineItem {
    type V = ItemView;

    open spec fn view(&self) -> ItemView {
        match self {
            TimelineItem::User { text, lane } => ItemView::User { text: text@, lane: *lane },
            TimelineItem::Assistant { text } => ItemView::Assistant { text: text@ },
            TimelineItem::Muted { title, detail } => ItemView::Muted {
                title: title@,
                detail: detail@,
            },
            TimelineItem::Expanded { title, body } => ItemView::Expanded {
                title: title@,
                body: body@,
            },
            TimelineItem::ExpandedDetail { title, body, focus_body } => ItemView::ExpandedDetail {
                title: title@,
                body: body@,
                focus_body: focus_body@,
            },
            TimelineItem::Diagnostic { title, body } => ItemView::Diagnostic {
                title: title@,
                body: body@,
            },
            TimelineItem::LocalCommand { title, body } => ItemView::LocalCommand {
                title: title@,
                body: body@,
            },
            TimelineItem::Command { view: CommandView::Running { detail, started_at_ms } } =>
                ItemView::Running { detail: detail@, started_at_ms: *started_at_ms },
            TimelineItem::Command { view: CommandView::Finished(f) } => ItemView::Finished(f@),
            TimelineItem::Patch { changes } => ItemView::Patch { changes: change_views(changes@) },
        }
    }
}

pub open spec fn item_views(v: Seq<TimelineItem>) -> Seq<ItemView> {
    v.map_values(|i: TimelineItem| i@)
}

/// An optional item.
pub open spec fn opt_item(o: Option<TimelineItem>) -> Option<ItemView> {
    match o {
        Some(i) => Some(i@),
        None => None,
    }
}

impl TimelineItem {
    pub fn muted(title: &str, detail: &str) -> (r: TimelineItem)
        ensures
            r@ == (ItemView::Muted { title: title@, detail: detail@ }),
    {
        TimelineItem::Muted { title: title.to_owned(), detail: detail.to_owned() }
    }

    pub fn diagnostic(title: &str, body: &str) -> (r: TimelineItem)
        ensures
            r@ == (ItemView::Diagnostic { title: title@, body: body@ }),
    {
        TimelineItem::Diagnostic { title: title.to_owned(), body: body.to_owned() }
    }

    pub fn expanded(title: &str, body: &str) -> (r: TimelineItem)
        ensures
            r@ == (ItemView::Expanded { title: title@, body: body@ }),
    {
        TimelineItem::Expanded { title: title.to_owned(), body: body.to_owned() }
    }

    pub fn local_command(title: &str, body: &str) -> (r: TimelineItem)
        ensures
            r@ == (ItemView::LocalCommand { title: title@, body: body@ }),
    {
        TimelineItem::LocalCommand { title: title.to_owned(), body: body.to_owned() }
    }

    /// Whether the item is a command that ran to its end.
    pub fn is_finished_command(&self) -> (r: bool)
        ensures
            r == (self@ is Finished),
    {
        match self {
            TimelineItem::Command { view: CommandView::Finished(_) } => true,
            _ => false,
        }
    }
}

} // verus!
