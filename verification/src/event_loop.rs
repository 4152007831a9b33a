//! What the program's events lead to, and how it ends.
use crate::key::KeyEvent;
use crate::layout::Position;
use crate::providers;
use crate::providers::Discovery;
use crate::text;
use vstd::prelude::*;

verus! {

/// How often a running screen is drawn anew, in milliseconds.
pub const TUI_REFRESH_INTERVAL_MS: u64 = 100;

/// A question whether something may be done: its name, and what it says.
#[derive(Debug, PartialEq, Eq)]
pub struct PermissionQuestion {
    pub approval_id: String,
    pub body: String,
}

/// Something that happens.
#[derive(Debug, PartialEq, Eq)]
pub enum LoopEvent {
    /// A task in the background has ended, with an error if there was one.
    TaskEnded(Option<String>),
    /// It is time to draw a running screen. `Some` says that the question on top is void;
    /// then comes the next one that waits, if there is one.
    Tick(Option<Option<PermissionQuestion>>),
    TerminalClosed,
    Key(KeyEvent),
    ScrolledUp(Position),
    ScrolledDown(Position),
    Pasted(String),
    Resized,
    /// The conversation is over.
    StreamClosed,
    /// Something happened in the run.
    RunEvent,
    /// The run asks for so many tools of this program.
    ToolInvocations(u64),
    /// The run says what this program does not know.
    OtherMessage,
    ActivityChanged,
    ActivityClosed,
    /// Somebody asks for a permission; `Some` where the question comes up at once.
    PermissionAsked(Option<PermissionQuestion>),
    PermissionsClosed,
    /// Models have been found by the search of this number.
    ModelsFound(u64),
    ImageRead,
    /// A source that is not needed any more has ended.
    SourceClosed,
    /// The terminal or the run failed.
    Failed(String),
}

/// What is done about it.
#[derive(Debug, PartialEq, Eq)]
pub enum LoopAction {
    /// The program ends.
    Leave,
    /// The program ends with an error.
    Fail(String),
    /// Nothing.
    Wait,
    Draw,
    HandleKey(KeyEvent),
    ScrollUp(Position),
    ScrollDown(Position),
    Paste(String),
    /// The event is shown in the conversation, and the screen is drawn.
    ShowRunEvent,
    /// The work of the helpers is shown, and the screen is drawn.
    ShowActivity,
    /// The question comes up, and the screen is drawn.
    AskPermission(PermissionQuestion),
    /// The overlay goes, and the screen is drawn.
    CloseOverlay,
    /// The models are listed, and the screen is drawn.
    ShowModels,
    /// The picture goes into the input, and the screen is drawn.
    ShowImage,
}

/// Which sources are still listened to, and the latest search for models.
#[derive(Debug, Clone, Copy, PartialEq, Eq, Structural)]
pub struct LoopState {
    pub subagent_activity_open: bool,
    pub permission_requests_open: bool,
    pub discovery: Discovery,
}

impl LoopState {
    pub fn new() -> (r: LoopState)
        ensures
            r == (LoopState {
                subagent_activity_open: true,
                permission_requests_open: true,
                discovery: Discovery { generation: 0, running: false },
            }),
    {
        LoopState {
            subagent_activity_open: true,
            permission_requests_open: true,
            discovery: Discovery::new(),
        }
    }
}

pub open spec fn tools_error(count: u64) -> Seq<char> {
    "Rust TUI received "@ + text::decimal(count as nat)
        + " host tool invocations, but its coding profile requires runtime-owned tools"@
}

/// What is done about an event.
pub open spec fn is_action(s: LoopState, event: LoopEvent, r: LoopAction) -> bool {
    match event {
        LoopEvent::TaskEnded(None) => r == LoopAction::Wait,
        LoopEvent::TaskEnded(Some(e)) => r == LoopAction::Fail(e),
        LoopEvent::Tick(None) => r == LoopAction::Draw,
        LoopEvent::Tick(Some(None)) => r == LoopAction::CloseOverlay,
        LoopEvent::Tick(Some(Some(q))) => r == LoopAction::AskPermission(q),
        LoopEvent::TerminalClosed => r == LoopAction::Leave,
        LoopEvent::Key(key) => r == LoopAction::HandleKey(key),
        LoopEvent::ScrolledUp(p) => r == LoopAction::ScrollUp(p),
        LoopEvent::ScrolledDown(p) => r == LoopAction::ScrollDown(p),
        LoopEvent::Pasted(t) => r == LoopAction::Paste(t),
        LoopEvent::Resized => r == LoopAction::Draw,
        LoopEvent::StreamClosed => r == LoopAction::Leave,
        LoopEvent::RunEvent => r == LoopAction::ShowRunEvent,
        LoopEvent::ToolInvocations(n) => r matches LoopAction::Fail(m) && m@ == tools_error(n),
        LoopEvent::OtherMessage => r matches LoopAction::Fail(m) && m@
            == "Rust TUI received an unsupported interactive run message"@,
        LoopEvent::ActivityChanged => r == LoopAction::ShowActivity,
        LoopEvent::ActivityClosed => r == LoopAction::Wait,
        LoopEvent::PermissionAsked(None) => r == LoopAction::Draw,
        LoopEvent::PermissionAsked(Some(q)) => r == LoopAction::AskPermission(q),
        LoopEvent::PermissionsClosed => r == LoopAction::Wait,
        LoopEvent::ModelsFound(generation) => r == (if providers::is_latest(
            s.discovery,
            generation,
        ) {
            LoopAction::ShowModels
        } else {
            LoopAction::Wait
        }),
        LoopEvent::ImageRead => r == LoopAction::ShowImage,
        LoopEvent::SourceClosed => r == LoopAction::Wait,
        LoopEvent::Failed(e) => r == LoopAction::Fail(e),
    }
}

/// What is listened to after an event.
pub open spec fn listening(s: LoopState, event: LoopEvent) -> LoopState {
    match event {
        LoopEvent::ActivityClosed => LoopState { subagent_activity_open: false, ..s },
        LoopEvent::PermissionsClosed => LoopState { permission_requests_open: false, ..s },
        _ => s,
    }
}

/// Decides what is done about an event.
pub fn loop_step(s: &mut LoopState, event: LoopEvent) -> (r: LoopAction)
    ensures
        is_action(*old(s), event, r),
        *final(s) == listening(*old(s), event),
{
    match event {
        LoopEvent::TaskEnded(None) => LoopAction::Wait,
        LoopEvent::TaskEnded(Some(e)) => LoopAction::Fail(e),
        LoopEvent::Tick(None) => LoopAction::Draw,
        LoopEvent::Tick(Some(None)) => LoopAction::CloseOverlay,
        LoopEvent::Tick(Some(Some(q))) => LoopAction::AskPermission(q),
        LoopEvent::TerminalClosed => LoopAction::Leave,
        LoopEvent::Key(key) => LoopAction::HandleKey(key),
        LoopEvent::ScrolledUp(p) => LoopAction::ScrollUp(p),
        LoopEvent::ScrolledDown(p) => LoopAction::ScrollDown(p),
        LoopEvent::Pasted(t) => LoopAction::Paste(t),
        LoopEvent::Resized => LoopAction::Draw,
        LoopEvent::StreamClosed => LoopAction::Leave,
        LoopEvent::RunEvent => LoopAction::ShowRunEvent,
        LoopEvent::ToolInvocations(n) => LoopAction::Fail(
            text::cat3(
                "Rust TUI received ",
                text::decimal_text(n).as_str(),
                " host tool invocations, but its coding profile requires runtime-owned tools",
            ),
        ),
        LoopEvent::OtherMessage => LoopAction::Fail(
            "Rust TUI received an unsupported interactive run message".to_owned(),
        ),
        LoopEvent::ActivityChanged => LoopAction::ShowActivity,
        LoopEvent::ActivityClosed => {
            s.subagent_activity_open = false;
            LoopAction::Wait
        },
        LoopEvent::PermissionAsked(None) => LoopAction::Draw,
        LoopEvent::PermissionAsked(Some(q)) => LoopAction::AskPermission(q),
        LoopEvent::PermissionsClosed => {
            s.permission_requests_open = false;
            LoopAction::Wait
        },
        LoopEvent::ModelsFound(generation) => if s.discovery.accepts(generation) {
            LoopAction::ShowModels
        } else {
            LoopAction::Wait
        },
        LoopEvent::ImageRead => LoopAction::ShowImage,
        LoopEvent::SourceClosed => LoopAction::Wait,
        LoopEvent::Failed(e) => LoopAction::Fail(e),
    }
}

/// The first of some errors from a place on.
pub open spec fn first_failure(errors: Seq<Option<String>>, from: int) -> Option<String>
    decreases errors.len() - from,
{
    if from < 0 || from >= errors.len() {
        None
    } else if errors[from] is Some {
        errors[from]
    } else {
        first_failure(errors, from + 1)
    }
}

/// The first error of the tasks in the background, each of which is waited for.
pub fn drain_background_tasks(errors: Vec<Option<String>>) -> (r: Result<(), String>)
    ensures
        match r {
            Ok(_) => first_failure(errors@, 0) is None,
            Err(e) => first_failure(errors@, 0) == Some(e),
        },
{
    let mut i: usize = 0;
    while i < errors.len()
        invariant
            i <= errors.len(),
            first_failure(errors@, 0) == first_failure(errors@, i as int),
        decreases errors.len() - i,
    {
        if let Some(e) = &errors[i] {
            return Err(e.clone());
        }
        i = i + 1;
    }
    Ok(())
}

/// How the program ends: with the error of its run; where there was none, with the first one
/// that came up while the conversation, the tasks and the web service were closed.
pub fn shutdown_result(
    run: Result<(), String>,
    session: Result<(), String>,
    tasks: Result<(), String>,
    web: Result<(), String>,
) -> (r: Result<(), String>)
    ensures
        r == (if run is Err {
            run
        } else if session is Err {
            session
        } else if tasks is Err {
            tasks
        } else {
            web
        }),
{
    if run.is_err() {
        return run;
    }
    if session.is_err() {
        return session;
    }
    if tasks.is_err() {
        return tasks;
    }
    web
}

/// A source that has ended is never listened to again, whatever happens.
pub proof fn ended_sources_stay_ended(s: LoopState, event: LoopEvent)
    ensures
        !s.subagent_activity_open ==> !listening(s, event).subagent_activity_open,
        !s.permission_requests_open ==> !listening(s, event).permission_requests_open,
{
}

/// Only the terminal, the end of the conversation, or an error ends the program.
pub proof fn the_program_ends_for_a_reason(s: LoopState, event: LoopEvent, r: LoopAction)
    requires
        is_action(s, event, r),
    ensures
        r is Leave ==> event is TerminalClosed || event is StreamClosed,
        r is Fail ==> event is TaskEnded || event is ToolInvocations || event is OtherMessage
            || event is Failed,
{
}

/// The first failure is one of those that there are, and none stands before it; where none is
/// found there is none.
pub proof fn the_first_failure_counts(errors: Seq<Option<String>>, from: int, k: int)
    requires
        0 <= from <= k < errors.len(),
        errors[k] is Some,
        forall|j: int| from <= j < k ==> (#[trigger] errors[j]) is None,
    ensures
        first_failure(errors, from) == errors[k],
    decreases k - from,
{
    if from < k {
        assert(errors[from] is None);
        the_first_failure_counts(errors, from + 1, k);
    }
}

/// Without a failure none is found.
pub proof fn no_failure_is_made_up(errors: Seq<Option<String>>, from: int)
    requires
        0 <= from,
        forall|j: int| from <= j < errors.len() ==> (#[trigger] errors[j]) is None,
    ensures
        first_failure(errors, from) is None,
    decreases errors.len() - from,
{
    if from < errors.len() {
        assert(errors[from] is None);
        no_failure_is_made_up(errors, from + 1);
    }
}

/// A source that has ended is no longer listened to; no other event changes what is.
pub proof fn ended_sources_are_not_listened_to(s: LoopState, event: LoopEvent)
    ensures
        event is ActivityClosed ==> !listening(s, event).subagent_activity_open && listening(
            s,
            event,
        ).permission_requests_open == s.permission_requests_open,
        event is PermissionsClosed ==> !listening(s, event).permission_requests_open && listening(
            s,
            event,
        ).subagent_activity_open == s.subagent_activity_open,
        !(event is ActivityClosed) && !(event is PermissionsClosed) ==> listening(s, event) == s,
        listening(s, event).discovery == s.discovery,
{
}

/// What is handed on is what came: keys are handled, texts pasted, the wheel turned where it
/// was, questions asked.
pub proof fn events_are_handed_on_as_they_came(s: LoopState, event: LoopEvent, r: LoopAction)
    requires
        is_action(s, event, r),
    ensures
        event matches LoopEvent::Key(key) ==> r == LoopAction::HandleKey(key),
        event matches LoopEvent::Pasted(t) ==> r == LoopAction::Paste(t),
        event matches LoopEvent::ScrolledUp(p) ==> r == LoopAction::ScrollUp(p),
        event matches LoopEvent::ScrolledDown(p) ==> r == LoopAction::ScrollDown(p),
        event matches LoopEvent::Failed(e) ==> r == LoopAction::Fail(e),
        event matches LoopEvent::PermissionAsked(Some(q)) ==> r == LoopAction::AskPermission(q),
        event is StreamClosed || event is TerminalClosed ==> r is Leave,
        event is Resized ==> r is Draw,
{
}

} // verus!
