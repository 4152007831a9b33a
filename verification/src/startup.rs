//! How the program gets from its launch to a session.
use vstd::prelude::*;

verus! {

/// How the program was launched.
#[derive(Debug, Clone, Copy, PartialEq, Eq, Structural)]
pub enum LaunchMode {
    New,
    ResumePicker,
}

/// What was picked from the list of sessions.
#[derive(Debug, PartialEq, Eq)]
pub enum SessionPickerSelection {
    New,
    Resume(String),
    Quit,
}

/// A pick.
pub enum PickView {
    New,
    Resume(Seq<char>),
    Quit,
}

impl View for SessionPickerSelection {
    type V = PickView;

    open spec fn view(&self) -> PickView {
        match self {
            SessionPickerSelection::New => PickView::New,
            SessionPickerSelection::Resume(id) => PickView::Resume(id@),
            SessionPickerSelection::Quit => PickView::Quit,
        }
    }
}

/// How far the program has come.
#[derive(Debug, Clone, Copy, PartialEq, Eq, Structural)]
pub enum StartupState {
    Launched(LaunchMode),
    SettingUp(LaunchMode),
    Picking,
    Starting,
    Running,
    Left,
}

/// Something that the program learns on its way.
#[derive(Debug, PartialEq, Eq)]
pub enum StartupEvent {
    /// The configuration was read; the flag says whether it names a provider and a model.
    Configured(bool),
    /// The setup has ended; the flag says whether something was configured.
    SetupEnded(bool),
    Picked(SessionPickerSelection),
    /// The session runs: whether it was resumed, and whether nothing was said in it.
    Started { resumed: bool, transcript_is_empty: bool },
}

/// An event.
pub enum StartupEventView {
    Configured(bool),
    SetupEnded(bool),
    Picked(PickView),
    Started { resumed: bool, transcript_is_empty: bool },
}

impl View for StartupEvent {
    type V = StartupEventView;

    open spec fn view(&self) -> StartupEventView {
        match self {
            StartupEvent::Configured(found) => StartupEventView::Configured(*found),
            StartupEvent::SetupEnded(done) => StartupEventView::SetupEnded(*done),
            StartupEvent::Picked(pick) => StartupEventView::Picked(pick@),
            StartupEvent::Started { resumed, transcript_is_empty } => StartupEventView::Started {
                resumed: *resumed,
                transcript_is_empty: *transcript_is_empty,
            },
        }
    }
}

/// What is done next.
#[derive(Debug, PartialEq, Eq)]
pub enum StartupAction {
    RunSetup,
    PickSession,
    StartSession(SessionPickerSelection),
    /// The conversation begins.
    Run,
    /// It is told that the session was resumed, and the conversation begins.
    TellResumed,
    /// What was said is shown, and the conversation goes on.
    ReplayTranscript,
    Leave,
    /// What does not belong here is passed over.
    Pass,
}

/// An action.
pub enum StartupActionView {
    RunSetup,
    PickSession,
    StartSession(PickView),
    Run,
    TellResumed,
    ReplayTranscript,
    Leave,
    Pass,
}

impl View for StartupAction {
    type V = StartupActionView;

    open spec fn view(&self) -> StartupActionView {
        match self {
            StartupAction::RunSetup => StartupActionView::RunSetup,
            StartupAction::PickSession => StartupActionView::PickSession,
            StartupAction::StartSession(pick) => StartupActionView::StartSession(pick@),
            StartupAction::Run => StartupActionView::Run,
            StartupAction::TellResumed => StartupActionView::TellResumed,
            StartupAction::ReplayTranscript => StartupActionView::ReplayTranscript,
            StartupAction::Leave => StartupActionView::Leave,
            StartupAction::Pass => StartupActionView::Pass,
        }
    }
}

/// Where a program with a provider goes.
pub open spec fn with_provider(mode: LaunchMode) -> (StartupState, StartupActionView) {
    match mode {
        LaunchMode::New => (
            StartupState::Starting,
            StartupActionView::StartSession(PickView::New),
        ),
        LaunchMode::ResumePicker => (StartupState::Picking, StartupActionView::PickSession),
    }
}

/// The next state and what is done.
pub open spec fn startup(state: StartupState, event: StartupEventView) -> (
    StartupState,
    StartupActionView,
) {
    match (state, event) {
        (StartupState::Launched(mode), StartupEventView::Configured(found)) => if found {
            with_provider(mode)
        } else {
            (StartupState::SettingUp(mode), StartupActionView::RunSetup)
        },
        (StartupState::SettingUp(mode), StartupEventView::SetupEnded(done)) => if done {
            with_provider(mode)
        } else {
            (StartupState::Left, StartupActionView::Leave)
        },
        (StartupState::Picking, StartupEventView::Picked(pick)) => if pick is Quit {
            (StartupState::Left, StartupActionView::Leave)
        } else {
            (StartupState::Starting, StartupActionView::StartSession(pick))
        },
        (
            StartupState::Starting,
            StartupEventView::Started { resumed, transcript_is_empty },
        ) => (
            StartupState::Running,
            if !resumed {
                StartupActionView::Run
            } else if transcript_is_empty {
                StartupActionView::TellResumed
            } else {
                StartupActionView::ReplayTranscript
            },
        ),
        _ => (state, StartupActionView::Pass),
    }
}

fn go_on(mode: LaunchMode) -> (r: (StartupState, StartupAction))
    ensures
        (r.0, r.1@) == with_provider(mode),
{
    match mode {
        LaunchMode::New => (
            StartupState::Starting,
            StartupAction::StartSession(SessionPickerSelection::New),
        ),
        LaunchMode::ResumePicker => (StartupState::Picking, StartupAction::PickSession),
    }
}

pub fn startup_step(state: StartupState, event: StartupEvent) -> (r: (StartupState, StartupAction))
    ensures
        (r.0, r.1@) == startup(state, event@),
{
    match (state, event) {
        (StartupState::Launched(mode), StartupEvent::Configured(found)) => if found {
            go_on(mode)
        } else {
            (StartupState::SettingUp(mode), StartupAction::RunSetup)
        },
        (StartupState::SettingUp(mode), StartupEvent::SetupEnded(done)) => if done {
            go_on(mode)
        } else {
            (StartupState::Left, StartupAction::Leave)
        },
        (StartupState::Picking, StartupEvent::Picked(pick)) => match pick {
            SessionPickerSelection::Quit => (StartupState::Left, StartupAction::Leave),
            pick => (StartupState::Starting, StartupAction::StartSession(pick)),
        },
        (StartupState::Starting, StartupEvent::Started { resumed, transcript_is_empty }) => (
            StartupState::Running,
            if !resumed {
                StartupAction::Run
            } else if transcript_is_empty {
                StartupAction::TellResumed
            } else {
                StartupAction::ReplayTranscript
            },
        ),
        (state, _) => (state, StartupAction::Pass),
    }
}

/// The state after the first `n` events.
pub open spec fn state_after(mode: LaunchMode, events: Seq<StartupEventView>, n: int) -> StartupState
    decreases n,
{
    if n <= 0 {
        StartupState::Launched(mode)
    } else {
        startup(state_after(mode, events, n - 1), events[n - 1]).0
    }
}

/// Whether a provider was found among the first `n` events, or set up.
pub open spec fn has_provider(events: Seq<StartupEventView>, n: int) -> bool {
    exists|k: int|
        0 <= k < n && ((#[trigger] events[k]) == StartupEventView::Configured(true) || events[k]
            == StartupEventView::SetupEnded(true))
}

/// No session is picked, started or run before there is a provider.
pub proof fn sessions_need_a_provider(mode: LaunchMode, events: Seq<StartupEventView>, n: int)
    requires
        0 <= n <= events.len(),
    ensures
        ({
            let state = state_after(mode, events, n);
            state is Picking || state is Starting || state is Running ==> has_provider(events, n)
        }),
    decreases n,
{
    if n > 0 {
        sessions_need_a_provider(mode, events, n - 1);
        let before = state_after(mode, events, n - 1);
        let state = state_after(mode, events, n);
        if state is Picking || state is Starting || state is Running {
            if before is Picking || before is Starting || before is Running {
                let k = choose|k: int|
                    0 <= k < n - 1 && ((#[trigger] events[k]) == StartupEventView::Configured(true)
                        || events[k] == StartupEventView::SetupEnded(true));
                assert(0 <= k < n);
            } else {
                assert(events[n - 1] == StartupEventView::Configured(true) || events[n - 1]
                    == StartupEventView::SetupEnded(true));
            }
        }
    }
}

/// A session is started as it was picked, anew where none is to be picked from; who quits the
/// picking or the setup leaves, and only then.
pub proof fn sessions_are_started_as_picked(state: StartupState, event: StartupEventView)
    ensures
        startup(state, event).1 matches StartupActionView::StartSession(pick) ==> !(pick is Quit)
            && startup(state, event).0 is Starting && (state is Picking ==> event
            == StartupEventView::Picked(pick)) && (!(state is Picking) ==> pick is New),
        startup(state, event).1 is Leave <==> (state is Picking && event
            == StartupEventView::Picked(PickView::Quit)) || (state is SettingUp && event
            == StartupEventView::SetupEnded(false)),
        startup(state, event).1 is RunSetup <==> state is Launched && event
            == StartupEventView::Configured(false),
        startup(state, event).1 is Pass ==> startup(state, event).0 == state,
{
}

/// A session that is resumed shows what it held, or tells that it was resumed where it held
/// nothing; a new one just runs. The choice between the two is the one of the launch.
pub proof fn resumed_sessions_show_what_they_held(resumed: bool, transcript_is_empty: bool)
    ensures
        ({
            let (state, action) = startup(
                StartupState::Starting,
                StartupEventView::Started { resumed, transcript_is_empty },
            );
            &&& state is Running
            &&& action is Run <==> !resumed
            &&& action is ReplayTranscript <==> resumed && !transcript_is_empty
            &&& action is TellResumed <==> resumed && transcript_is_empty
        }),
        startup(
            StartupState::Launched(LaunchMode::New),
            StartupEventView::Configured(true),
        ).1 == StartupActionView::StartSession(PickView::New),
        startup(
            StartupState::Launched(LaunchMode::ResumePicker),
            StartupEventView::Configured(true),
        ).1 is PickSession,
{
}

} // verus!
