//! What the keys do, wherever they are pressed.
use crate::command;
use crate::command::{HelpKeys, PaletteCommand, SlashCommandMatch};
use crate::command_details;
use crate::command_details::{CommandNavigation, Inspection};
use crate::completion;
use crate::completion::CompletionMenu;
use crate::controller_provider;
use crate::effects;
use crate::effects::{ControllerEffect, Outcome, StateQuestion, StateRequest};
use crate::input;
use crate::input::{DraftImage, InputError, TextInput, TuiSubmission};
use crate::key::{KeyCode, KeyEvent};
use crate::keymap;
use crate::keymap::{KeyAction, KeyBinding, Keymap};
use crate::overlay;
use crate::overlay::{InputVerdicts, Overlay, OverlayKeyResult, SettingItem};
use crate::plan;
use crate::plan::PlanUiState;
use crate::plan_controller;
use crate::plan_model;
use crate::provider_overlay;
use crate::text;
use crate::timeline;
use crate::timeline::{QueuedInputLane, TimelineItem};
use vstd::prelude::*;

verus! {

pub const TIMELINE_SCROLL_STEP: usize = 5;

/// How the run stands.
#[derive(Debug, Clone, Copy, PartialEq, Eq, Structural)]
pub struct RunStatus {
    pub active: bool,
    pub can_interrupt: bool,
    pub interrupting: bool,
    /// Whether an earlier part of the conversation is looked at.
    pub reviewing: bool,
    /// Whether some text of the conversation is selected.
    pub text_selected: bool,
}

/// The labels of the keys that the help names.
#[derive(Debug, PartialEq, Eq)]
pub struct KeyLabels {
    pub submit: Option<String>,
    pub backlog: Option<String>,
    pub commands: Option<String>,
    pub stop: Option<String>,
}

impl KeyLabels {
    pub open spec fn named(self) -> command::HelpKeysView {
        command::HelpKeysView {
            submit: plan_model::opt(self.submit),
            backlog: plan_model::opt(self.backlog),
            commands: plan_model::opt(self.commands),
            stop: plan_model::opt(self.stop),
        }
    }
}

/// The parts of the screen that the keys act on.
#[derive(PartialEq, Eq)]
pub struct Cockpit {
    pub overlay: Option<Overlay>,
    pub plan: PlanUiState,
    pub completion_menu: Option<CompletionMenu>,
    pub keymap: Keymap,
    pub input: TextInput,
    pub items: Vec<TimelineItem>,
    pub run: RunStatus,
    pub key_labels: KeyLabels,
}

impl Cockpit {
    pub open spec fn well_formed(self) -> bool {
        &&& self.overlay matches Some(o) ==> o@.well_formed()
        &&& self.plan.well_formed()
        &&& self.completion_menu matches Some(m) ==> m@.well_formed()
        &&& self.input@.well_formed()
    }

    /// The command whose details are on top, by its place in the conversation.
    pub open spec fn inspected(self) -> Option<int> {
        match self.overlay {
            Some(Overlay::CommandDetails(d)) => Some(d@.timeline_index),
            _ => None,
        }
    }

    pub open spec fn details_open(self) -> bool {
        self.overlay matches Some(Overlay::CommandDetails(_))
    }
}

/// An item for the conversation.
pub open spec fn telling(item: timeline::ItemView) -> effects::RequestView {
    effects::RequestView::PushTimelineItem(item)
}

pub open spec fn muted(title: Seq<char>, detail: Seq<char>) -> effects::RequestView {
    telling(timeline::ItemView::Muted { title, detail })
}

fn tell(title: &str, detail: &str) -> (r: StateRequest)
    ensures
        r@ == muted(title@, detail@),
{
    StateRequest::PushTimelineItem(TimelineItem::muted(title, detail))
}

/// The help, as the conversation shows it.
pub open spec fn help_item(labels: KeyLabels) -> timeline::ItemView {
    timeline::ItemView::Expanded {
        title: "Command help"@,
        body: text::join(command::help_lines(labels.named()), seq!['\n']),
    }
}

/// What a command that stops the run leads to.
pub open spec fn interrupting(run: RunStatus) -> effects::OutcomeView {
    if run.can_interrupt {
        effects::outcome(
            seq![
                effects::RequestView::CloseOverlay,
                effects::RequestView::SetInterrupting,
                muted("Stopping"@, "Interrupt requested for the active run."@),
            ],
            effects::EffectView::Interrupt,
        )
    } else if run.interrupting {
        effects::outcome(
            seq![
                effects::RequestView::CloseOverlay,
                muted(
                    "Stop already requested"@,
                    "Waiting for the active run to reach a cancellation boundary."@,
                ),
            ],
            effects::EffectView::Nothing,
        )
    } else {
        effects::outcome(
            seq![
                effects::RequestView::CloseOverlay,
                muted("Nothing to stop"@, "No model or tool run is active."@),
            ],
            effects::EffectView::Nothing,
        )
    }
}

/// An outcome behind the closing of the overlay.
pub open spec fn closing_first(o: effects::OutcomeView) -> effects::OutcomeView {
    effects::OutcomeView {
        requests: seq![effects::RequestView::CloseOverlay] + o.requests,
        ..o
    }
}

/// What a command of the palette leads to.
pub open spec fn palette_outcome(c: PaletteCommand, s: Cockpit) -> effects::OutcomeView {
    match plan_controller::plan_command_outcome(c, s.plan) {
        Some(o) => o,
        None => match c {
            PaletteCommand::OpenSettings => effects::outcome(
                seq![effects::RequestView::CloseOverlay, effects::RequestView::OpenSettings],
                effects::EffectView::Nothing,
            ),
            PaletteCommand::OpenProviders => effects::outcome(
                Seq::empty(),
                effects::EffectView::OpenProviderManager,
            ),
            PaletteCommand::ShowShortcuts => effects::outcome(
                seq![effects::RequestView::OpenShortcuts],
                effects::EffectView::Nothing,
            ),
            PaletteCommand::ShowHelp => effects::outcome(
                seq![effects::RequestView::CloseOverlay, telling(help_item(s.key_labels))],
                effects::EffectView::Nothing,
            ),
            PaletteCommand::ShowStatus => effects::outcome(
                seq![effects::RequestView::CloseOverlay, effects::RequestView::PushSessionStatus],
                effects::EffectView::Nothing,
            ),
            PaletteCommand::FollowLatest => closing_first(
                plain_action_outcome(KeyAction::FollowLatestArtifact, s),
            ),
            PaletteCommand::ReviewPreviousArtifact => closing_first(
                plain_action_outcome(KeyAction::ReviewPreviousArtifact, s),
            ),
            PaletteCommand::ReviewNextArtifact => closing_first(
                plain_action_outcome(KeyAction::ReviewNextArtifact, s),
            ),
            PaletteCommand::ReviewPreviousUserInput => closing_first(
                plain_action_outcome(KeyAction::ReviewPreviousUserInput, s),
            ),
            PaletteCommand::Interrupt => interrupting(s.run),
            PaletteCommand::ResumeSuspended => closing_first(
                plain_action_outcome(KeyAction::ResumeSuspended, s),
            ),
            PaletteCommand::DiscardSuspended => closing_first(
                plain_action_outcome(KeyAction::DiscardSuspended, s),
            ),
            PaletteCommand::SaveSession => if s.run.active {
                effects::outcome(
                    seq![
                        effects::RequestView::CloseOverlay,
                        muted(
                            "Save unavailable"@,
                            "Stop the active run before saving the session."@,
                        ),
                    ],
                    effects::EffectView::Nothing,
                )
            } else {
                effects::outcome(
                    seq![effects::RequestView::CloseOverlay],
                    effects::EffectView::SaveSession,
                )
            },
            _ => effects::outcome(
                seq![effects::RequestView::CloseOverlay],
                effects::EffectView::Quit,
            ),
        },
    }
}

/// What looking for a command's details leads to.
pub open spec fn inspecting_outcome(
    r: effects::OutcomeView,
    s: Cockpit,
    direction: CommandNavigation,
) -> bool {
    let all = timeline::item_views(s.items@);
    let places = command_details::finished_commands(all);
    let at = match s.inspected() {
        Some(c) => command_details::index_in(places, c, 0),
        None => None,
    };
    let to = command_details::next_position(places.len() as int, at, direction);
    if places.len() == 0 {
        r == effects::outcome(
            seq![
                effects::RequestView::ShowInfoDialog {
                    title: "Command output"@,
                    message: command_details::no_commands_message(),
                },
            ],
            effects::EffectView::Nothing,
        )
    } else if at == Some(to) {
        r == effects::outcome(Seq::empty(), effects::EffectView::Nothing)
    } else {
        &&& r.requests.len() == 1
        &&& r.requests[0] matches effects::RequestView::OpenCommandDetails(d)
        &&& d.timeline_index == places[to]
        &&& d.ordinal == to + 1
        &&& d.total == places.len()
        &&& timeline::ItemView::Finished(d.view@) == all[places[to]]
        &&& d.output is Loading
        &&& d.scroll == 0
        &&& r.next == effects::StepView::Effect(
            effects::EffectView::LoadCommandOutput(d.view.artifact_id@),
        )
    }
}

/// What the actions lead to that neither submit the input nor look for a command.
pub open spec fn plain_action_outcome(action: KeyAction, s: Cockpit) -> effects::OutcomeView {
    match action {
        KeyAction::CancelInputOrQuit => effects::asking(effects::QuestionView::CancelInputOrQuit),
        KeyAction::InsertNewline => effects::outcome(
            seq![effects::RequestView::InsertInputNewline],
            effects::EffectView::Nothing,
        ),
        KeyAction::PasteImage => effects::outcome(Seq::empty(), effects::EffectView::PasteImage),
        KeyAction::OpenSessionInBrowser => effects::outcome(
            Seq::empty(),
            effects::EffectView::OpenSessionInBrowser,
        ),
        KeyAction::OpenCommandPanel => effects::outcome(
            seq![effects::RequestView::OpenCommandPalette],
            effects::EffectView::Nothing,
        ),
        KeyAction::Interrupt => if s.run.can_interrupt {
            effects::outcome(Seq::empty(), effects::EffectView::Interrupt)
        } else if s.run.interrupting {
            effects::outcome(
                seq![
                    effects::RequestView::FollowLatest,
                    effects::RequestView::RepeatStopFeedback,
                ],
                effects::EffectView::Nothing,
            )
        } else if s.run.reviewing {
            effects::outcome(
                seq![effects::RequestView::ExitTimelineReview],
                effects::EffectView::Nothing,
            )
        } else {
            effects::outcome(Seq::empty(), effects::EffectView::Nothing)
        },
        KeyAction::Quit => effects::outcome(Seq::empty(), effects::EffectView::Quit),
        KeyAction::ScrollUp => effects::outcome(
            seq![effects::RequestView::ScrollTimelineUp(TIMELINE_SCROLL_STEP)],
            effects::EffectView::Nothing,
        ),
        KeyAction::ScrollDown => effects::outcome(
            seq![effects::RequestView::ScrollTimelineDown(TIMELINE_SCROLL_STEP)],
            effects::EffectView::Nothing,
        ),
        KeyAction::FollowLatest => effects::outcome(
            seq![effects::RequestView::FollowLatest],
            effects::EffectView::Nothing,
        ),
        KeyAction::ReviewPreviousUserInput => effects::outcome(
            seq![effects::RequestView::JumpToPreviousUserInput],
            effects::EffectView::Nothing,
        ),
        KeyAction::HistoryPrevious => effects::outcome(
            seq![effects::RequestView::PreviousInputHistory],
            effects::EffectView::Nothing,
        ),
        KeyAction::HistoryNext => effects::outcome(
            seq![effects::RequestView::NextInputHistory],
            effects::EffectView::Nothing,
        ),
        KeyAction::ResumeSuspended => effects::outcome(
            Seq::empty(),
            effects::EffectView::ResumeSuspended,
        ),
        KeyAction::DiscardSuspended => effects::outcome(
            Seq::empty(),
            effects::EffectView::DiscardSuspended,
        ),
        _ => effects::outcome(Seq::empty(), effects::EffectView::Nothing),
    }
}

/// The plan pane after an action that neither submits the input nor looks for a command.
pub open spec fn plain_action_plan(action: KeyAction, s: Cockpit) -> PlanUiState {
    match action {
        KeyAction::TogglePlan => plan::toggled(s.plan),
        KeyAction::Interrupt => if !s.run.can_interrupt && s.run.interrupting {
            plan::unfocused_pane(s.plan)
        } else {
            s.plan
        },
        _ => s.plan,
    }
}

fn plain_action(action: KeyAction, s: &mut Cockpit) -> (r: Outcome)
    requires
        old(s).well_formed(),
    ensures
        r@ == plain_action_outcome(action, *old(s)),
        *final(s) == (Cockpit { plan: plain_action_plan(action, *old(s)), ..*old(s) }),
        final(s).well_formed(),
{
    match action {
        KeyAction::CancelInputOrQuit => Outcome::ask(StateQuestion::CancelInputOrQuit),
        KeyAction::InsertNewline => Outcome::request(
            StateRequest::InsertInputNewline,
            ControllerEffect::Nothing,
        ),
        KeyAction::PasteImage => Outcome::effect(ControllerEffect::PasteImage),
        KeyAction::OpenSessionInBrowser => Outcome::effect(ControllerEffect::OpenSessionInBrowser),
        KeyAction::OpenCommandPanel => Outcome::request(
            StateRequest::OpenCommandPalette,
            ControllerEffect::Nothing,
        ),
        KeyAction::TogglePlan => {
            s.plan.toggle();
            Outcome::nothing()
        },
        KeyAction::Interrupt => {
            if s.run.can_interrupt {
                Outcome::effect(ControllerEffect::Interrupt)
            } else if s.run.interrupting {
                s.plan.leave_focus();
                Outcome::requests(
                    StateRequest::FollowLatest,
                    StateRequest::RepeatStopFeedback,
                    ControllerEffect::Nothing,
                )
            } else if s.run.reviewing {
                Outcome::request(StateRequest::ExitTimelineReview, ControllerEffect::Nothing)
            } else {
                Outcome::nothing()
            }
        },
        KeyAction::Quit => Outcome::effect(ControllerEffect::Quit),
        KeyAction::ScrollUp => Outcome::request(
            StateRequest::ScrollTimelineUp(TIMELINE_SCROLL_STEP),
            ControllerEffect::Nothing,
        ),
        KeyAction::ScrollDown => Outcome::request(
            StateRequest::ScrollTimelineDown(TIMELINE_SCROLL_STEP),
            ControllerEffect::Nothing,
        ),
        KeyAction::FollowLatest => Outcome::request(
            StateRequest::FollowLatest,
            ControllerEffect::Nothing,
        ),
        KeyAction::ReviewPreviousUserInput => Outcome::request(
            StateRequest::JumpToPreviousUserInput,
            ControllerEffect::Nothing,
        ),
        KeyAction::HistoryPrevious => Outcome::request(
            StateRequest::PreviousInputHistory,
            ControllerEffect::Nothing,
        ),
        KeyAction::HistoryNext => Outcome::request(
            StateRequest::NextInputHistory,
            ControllerEffect::Nothing,
        ),
        KeyAction::ResumeSuspended => Outcome::effect(ControllerEffect::ResumeSuspended),
        KeyAction::DiscardSuspended => Outcome::effect(ControllerEffect::DiscardSuspended),
        _ => Outcome::nothing(),
    }
}

fn close_first(o: Outcome) -> (r: Outcome)
    ensures
        r@ == closing_first(o@),
{
    let ghost before = o.requests@;
    let mut requests = o.requests;
    requests.insert(0, StateRequest::CloseOverlay);
    let r = Outcome { requests, next: o.next };
    proof {
        assert(r@.requests =~= seq![effects::RequestView::CloseOverlay]
            + effects::request_views(before));
    }
    r
}

/// The plan pane after a command of the palette.
pub open spec fn palette_plan(c: PaletteCommand, s: Cockpit) -> PlanUiState {
    plan_controller::plan_command_pane(c, s.plan)
}

/// Runs a command of the palette.
pub fn run_palette_command(c: PaletteCommand, s: &mut Cockpit) -> (r: Outcome)
    requires
        old(s).well_formed(),
    ensures
        r@ == palette_outcome(c, *old(s)),
        *final(s) == (Cockpit { plan: palette_plan(c, *old(s)), ..*old(s) }),
        final(s).well_formed(),
{
    match plan_controller::palette_effect(c, &mut s.plan) {
        Some(outcome) => {
            return outcome;
        },
        None => {},
    }
    match c {
        PaletteCommand::OpenSettings => Outcome::requests(
            StateRequest::CloseOverlay,
            StateRequest::OpenSettings,
            ControllerEffect::Nothing,
        ),
        PaletteCommand::OpenProviders => Outcome::effect(ControllerEffect::OpenProviderManager),
        PaletteCommand::ShowShortcuts => Outcome::request(
            StateRequest::OpenShortcuts,
            ControllerEffect::Nothing,
        ),
        PaletteCommand::ShowHelp => {
            let body = help_body(&s.key_labels);
            Outcome::requests(
                StateRequest::CloseOverlay,
                StateRequest::PushTimelineItem(
                    TimelineItem::expanded("Command help", body.as_str()),
                ),
                ControllerEffect::Nothing,
            )
        },
        PaletteCommand::ShowStatus => Outcome::requests(
            StateRequest::CloseOverlay,
            StateRequest::PushSessionStatus,
            ControllerEffect::Nothing,
        ),
        PaletteCommand::FollowLatest => close_first(
            plain_action(KeyAction::FollowLatestArtifact, s),
        ),
        PaletteCommand::ReviewPreviousArtifact => close_first(
            plain_action(KeyAction::ReviewPreviousArtifact, s),
        ),
        PaletteCommand::ReviewNextArtifact => close_first(
            plain_action(KeyAction::ReviewNextArtifact, s),
        ),
        PaletteCommand::ReviewPreviousUserInput => close_first(
            plain_action(KeyAction::ReviewPreviousUserInput, s),
        ),
        PaletteCommand::Interrupt => run_interrupt(s.run),
        PaletteCommand::ResumeSuspended => close_first(
            plain_action(KeyAction::ResumeSuspended, s),
        ),
        PaletteCommand::DiscardSuspended => close_first(
            plain_action(KeyAction::DiscardSuspended, s),
        ),
        PaletteCommand::SaveSession => if s.run.active {
            Outcome::requests(
                StateRequest::CloseOverlay,
                tell("Save unavailable", "Stop the active run before saving the session."),
                ControllerEffect::Nothing,
            )
        } else {
            Outcome::request(StateRequest::CloseOverlay, ControllerEffect::SaveSession)
        },
        _ => Outcome::request(StateRequest::CloseOverlay, ControllerEffect::Quit),
    }
}

fn help_body(labels: &KeyLabels) -> (r: String)
    ensures
        r@ == text::join(command::help_lines(labels.named()), seq!['\n']),
{
    command::slash_help_body(
        HelpKeys {
            submit: provider_overlay::lend_opt(&labels.submit),
            backlog: provider_overlay::lend_opt(&labels.backlog),
            commands: provider_overlay::lend_opt(&labels.commands),
            stop: provider_overlay::lend_opt(&labels.stop),
        },
    )
}

fn run_interrupt(run: RunStatus) -> (r: Outcome)
    ensures
        r@ == interrupting(run),
{
    if run.can_interrupt {
        let r = Outcome::requests(
            StateRequest::CloseOverlay,
            StateRequest::SetInterrupting,
            ControllerEffect::Interrupt,
        ).then_request(tell("Stopping", "Interrupt requested for the active run."));
        proof {
            assert(r@.requests =~= interrupting(run).requests);
        }
        r
    } else if run.interrupting {
        Outcome::requests(
            StateRequest::CloseOverlay,
            tell(
                "Stop already requested",
                "Waiting for the active run to reach a cancellation boundary.",
            ),
            ControllerEffect::Nothing,
        )
    } else {
        Outcome::requests(
            StateRequest::CloseOverlay,
            tell("Nothing to stop", "No model or tool run is active."),
            ControllerEffect::Nothing,
        )
    }
}

/// The input as a slash command, if it can be one: it holds no placeholders.
pub open spec fn input_as_slash(s: Cockpit) -> command::SlashView {
    if s.input@.elements.len() == 0 {
        command::slash_parse(s.input@.text)
    } else {
        command::SlashView::NotCommand
    }
}

/// What is said of a command that is not known.
pub open spec fn unknown_detail(name: Seq<char>) -> Seq<char> {
    if name.len() == 0 {
        "Type /help to list commands, or prefix the text with a space to send it."@
    } else {
        "/"@ + name
            + " is not available. Type /help, or prefix the text with a space to send it."@
    }
}

/// What the input leads to as a slash command; nothing where it is none.
pub open spec fn slash_outcome(s: Cockpit) -> Option<effects::OutcomeView> {
    match input_as_slash(s) {
        command::SlashView::NotCommand => None,
        command::SlashView::Known(c) => {
            let o = palette_outcome(c.command, s);
            Some(
                effects::OutcomeView {
                    requests: seq![effects::RequestView::ClearInput] + o.requests,
                    ..o
                },
            )
        },
        command::SlashView::Unknown(name) => Some(
            effects::outcome(
                seq![
                    effects::RequestView::CloseCompletionMenu,
                    muted("Unknown command"@, unknown_detail(name)),
                ],
                effects::EffectView::Nothing,
            ),
        ),
        command::SlashView::ArgumentsNotSupported(name) => Some(
            effects::outcome(
                seq![
                    effects::RequestView::CloseCompletionMenu,
                    muted("Command not run"@, "/"@ + name + " does not accept arguments."@),
                ],
                effects::EffectView::Nothing,
            ),
        ),
    }
}

/// The plan pane after the input has been taken as a slash command.
pub open spec fn slash_plan(s: Cockpit) -> PlanUiState {
    match input_as_slash(s) {
        command::SlashView::Known(c) => palette_plan(c.command, s),
        _ => s.plan,
    }
}

/// Runs the input as a slash command, if it is one.
pub fn slash_input_effect(s: &mut Cockpit) -> (r: Option<Outcome>)
    requires
        old(s).well_formed(),
    ensures
        match r {
            Some(o) => slash_outcome(*old(s)) == Some(o@),
            None => slash_outcome(*old(s)) is None,
        },
        *final(s) == (Cockpit { plan: slash_plan(*old(s)), ..*old(s) }),
        final(s).well_formed(),
{
    let matched = match s.input.plain_text() {
        Some(typed) => match command::match_slash_input(typed) {
            SlashCommandMatch::NotCommand => {
                return None;
            },
            SlashCommandMatch::Known(known) => known.command,
            SlashCommandMatch::Unknown(name) => {
                let detail = if name.is_empty() {
                    "Type /help to list commands, or prefix the text with a space to send it.".to_owned()
                } else {
                    text::cat3(
                        "/",
                        name,
                        " is not available. Type /help, or prefix the text with a space to send it.",
                    )
                };
                return Some(
                    Outcome::requests(
                        StateRequest::CloseCompletionMenu,
                        tell("Unknown command", detail.as_str()),
                        ControllerEffect::Nothing,
                    ),
                );
            },
            SlashCommandMatch::ArgumentsNotSupported(name) => {
                let detail = text::cat3("/", name, " does not accept arguments.");
                return Some(
                    Outcome::requests(
                        StateRequest::CloseCompletionMenu,
                        tell("Command not run", detail.as_str()),
                        ControllerEffect::Nothing,
                    ),
                );
            },
        },
        None => {
            return None;
        },
    };
    let o = run_palette_command(matched, s);
    let ghost ran = o@;
    let ghost before = o.requests@;
    let mut requests = o.requests;
    requests.insert(0, StateRequest::ClearInput);
    let r = Outcome { requests, next: o.next };
    proof {
        assert(r@.requests =~= seq![effects::RequestView::ClearInput] + effects::request_views(
            before,
        ));
    }
    Some(r)
}

/// What submitting the input leads to: a slash command runs and ends the review of the
/// conversation; else a review is ended and nothing is sent; else the input is taken.
pub open spec fn submit_outcome(lane: QueuedInputLane, s: Cockpit) -> effects::OutcomeView {
    match slash_outcome(s) {
        Some(o) => effects::and_request(o, effects::RequestView::ExitTimelineReview),
        None => if s.run.reviewing {
            effects::outcome(
                seq![effects::RequestView::ExitTimelineReview],
                effects::EffectView::Nothing,
            )
        } else {
            effects::asking(effects::QuestionView::TakeInput(lane))
        },
    }
}

/// Submits the input.
pub fn submit_input(lane: QueuedInputLane, s: &mut Cockpit) -> (r: Outcome)
    requires
        old(s).well_formed(),
    ensures
        r@ == submit_outcome(lane, *old(s)),
        *final(s) == (Cockpit { plan: slash_plan(*old(s)), ..*old(s) }),
        final(s).well_formed(),
{
    match slash_input_effect(s) {
        Some(outcome) => outcome.then_request(StateRequest::ExitTimelineReview),
        None => if exit_review_if_active(s.run) {
            Outcome::request(StateRequest::ExitTimelineReview, ControllerEffect::Nothing)
        } else {
            Outcome::ask(StateQuestion::TakeInput(lane))
        },
    }
}

/// Whether a review of the conversation has to be ended first.
pub fn exit_review_if_active(run: RunStatus) -> (r: bool)
    ensures
        r == run.reviewing,
{
    run.reviewing
}

fn inspect(s: &Cockpit, direction: CommandNavigation) -> (r: Outcome)
    ensures
        inspecting_outcome(r@, *s, direction),
{
    let current = match &s.overlay {
        Some(Overlay::CommandDetails(d)) => Some(d.timeline_index),
        _ => None,
    };
    match command_details::inspect_command(&s.items, current, direction) {
        Inspection::NoCommands => Outcome::request(
            StateRequest::ShowInfoDialog {
                title: "Command output".to_owned(),
                message: Inspection::no_commands_text().to_owned(),
            },
            ControllerEffect::Nothing,
        ),
        Inspection::Unchanged => Outcome::nothing(),
        Inspection::Open(details) => {
            let artifact = details.artifact_id().to_owned();
            Outcome::request(
                StateRequest::OpenCommandDetails(details),
                ControllerEffect::LoadCommandOutput(artifact),
            )
        },
    }
}

/// What an action leads to.
pub open spec fn action_outcome(r: effects::OutcomeView, action: KeyAction, s: Cockpit) -> bool {
    match action {
        KeyAction::SubmitNext => r == submit_outcome(QueuedInputLane::Next, s),
        KeyAction::SubmitBacklog => r == submit_outcome(QueuedInputLane::Backlog, s),
        KeyAction::OpenCommandDetails => if s.details_open() {
            r == effects::outcome(
                seq![effects::RequestView::CloseOverlay],
                effects::EffectView::Nothing,
            )
        } else {
            inspecting_outcome(r, s, CommandNavigation::Latest)
        },
        _ => r == plain_action_outcome(action, s),
    }
}

/// The plan pane after an action.
pub open spec fn action_plan(action: KeyAction, s: Cockpit) -> PlanUiState {
    match action {
        KeyAction::SubmitNext => slash_plan(s),
        KeyAction::SubmitBacklog => slash_plan(s),
        _ => plain_action_plan(action, s),
    }
}

/// Does what a key is bound to.
pub fn handle_key_action(action: KeyAction, s: &mut Cockpit) -> (r: Outcome)
    requires
        old(s).well_formed(),
    ensures
        action_outcome(r@, action, *old(s)),
        *final(s) == (Cockpit { plan: action_plan(action, *old(s)), ..*old(s) }),
        final(s).well_formed(),
{
    match action {
        KeyAction::SubmitNext => submit_input(QueuedInputLane::Next, s),
        KeyAction::SubmitBacklog => submit_input(QueuedInputLane::Backlog, s),
        KeyAction::OpenCommandDetails => {
            let open = match &s.overlay {
                Some(Overlay::CommandDetails(_)) => true,
                _ => false,
            };
            if open {
                Outcome::request(StateRequest::CloseOverlay, ControllerEffect::Nothing)
            } else {
                inspect(s, CommandNavigation::Latest)
            }
        },
        _ => plain_action(action, s),
    }
}

/// What follows from what an overlay asks for.
pub open spec fn overlay_outcome(
    r: effects::OutcomeView,
    result: overlay::KeyResultView,
    s: Cockpit,
) -> bool {
    match result {
        overlay::KeyResultView::Consumed => r == effects::outcome(
            Seq::empty(),
            effects::EffectView::Nothing,
        ),
        overlay::KeyResultView::PreviousCommand => inspecting_outcome(
            r,
            s,
            CommandNavigation::Previous,
        ),
        overlay::KeyResultView::NextCommand => inspecting_outcome(r, s, CommandNavigation::Next),
        overlay::KeyResultView::CopyText(t) => r == effects::outcome(
            Seq::empty(),
            effects::EffectView::CopyText(t),
        ),
        overlay::KeyResultView::Close => r == effects::outcome(
            seq![effects::RequestView::CloseOverlay],
            effects::EffectView::Nothing,
        ),
        overlay::KeyResultView::Back => r == effects::outcome(
            seq![effects::RequestView::BackOverlay],
            effects::EffectView::Nothing,
        ),
        overlay::KeyResultView::Run(c) => r == palette_outcome(c, s),
        overlay::KeyResultView::AdjustSetting(i, d) => r == effects::asking(
            effects::QuestionView::AdjustSetting(i, d),
        ),
        overlay::KeyResultView::ResetSetting(i) => r == effects::asking(
            effects::QuestionView::ResetSetting(i),
        ),
        overlay::KeyResultView::BeginModelEdit => r == effects::outcome(
            seq![effects::RequestView::BeginModelEdit],
            effects::EffectView::Nothing,
        ),
        overlay::KeyResultView::CommitModel(value) => r == effects::asking(
            effects::QuestionView::CommitModel(value),
        ),
        overlay::KeyResultView::BeginReasoningEdit => r == effects::outcome(
            seq![effects::RequestView::BeginReasoningEdit],
            effects::EffectView::Nothing,
        ),
        overlay::KeyResultView::CommitReasoning(value) => r == effects::asking(
            effects::QuestionView::CommitReasoning(value),
        ),
        overlay::KeyResultView::BeginContextWindowEdit => r == effects::outcome(
            seq![effects::RequestView::BeginContextWindowEdit],
            effects::EffectView::Nothing,
        ),
        overlay::KeyResultView::CommitContextWindow(value) => r == effects::asking(
            effects::QuestionView::CommitContextWindow(value),
        ),
        overlay::KeyResultView::OpenShortcuts => r == effects::outcome(
            seq![effects::RequestView::OpenShortcuts],
            effects::EffectView::Nothing,
        ),
        overlay::KeyResultView::ConfirmPlanApproval => r == effects::outcome(
            seq![effects::RequestView::CloseOverlay],
            match s.overlay {
                Some(Overlay::PlanApproval(o)) => effects::EffectView::ApprovePlan(
                    o.input_view(),
                ),
                _ => effects::EffectView::Nothing,
            },
        ),
        overlay::KeyResultView::ApprovePermission(id) => r == effects::outcome(
            seq![effects::RequestView::CloseOverlay],
            effects::EffectView::ApprovePermission(id),
        ),
        overlay::KeyResultView::DenyPermission(id) => r == effects::outcome(
            seq![effects::RequestView::CloseOverlay],
            effects::EffectView::DenyPermission(id),
        ),
        overlay::KeyResultView::Provider(action) => r == effects::outcome(
            Seq::empty(),
            controller_provider::action_effect(action),
        ),
    }
}

/// The plan pane after what an overlay asks for.
pub open spec fn overlay_plan(result: overlay::KeyResultView, s: Cockpit) -> PlanUiState {
    match result {
        overlay::KeyResultView::Run(c) => palette_plan(c, s),
        _ => s.plan,
    }
}

/// The overlay after what it asks for: a plan that is approved is asked about no more.
pub open spec fn overlay_left(result: overlay::KeyResultView, s: Cockpit) -> Option<Overlay> {
    if result is ConfirmPlanApproval {
        None
    } else {
        s.overlay
    }
}

fn follow_overlay(result: OverlayKeyResult, s: &mut Cockpit) -> (r: Outcome)
    requires
        old(s).well_formed(),
    ensures
        overlay_outcome(r@, result@, *old(s)),
        *final(s) == (Cockpit {
            plan: overlay_plan(result@, *old(s)),
            overlay: overlay_left(result@, *old(s)),
            ..*old(s)
        }),
        final(s).well_formed(),
{
    match result {
        OverlayKeyResult::Consumed => Outcome::nothing(),
        OverlayKeyResult::PreviousCommand => inspect(s, CommandNavigation::Previous),
        OverlayKeyResult::NextCommand => inspect(s, CommandNavigation::Next),
        OverlayKeyResult::CopyText(t) => Outcome::effect(ControllerEffect::CopyText(t)),
        OverlayKeyResult::Close => Outcome::request(
            StateRequest::CloseOverlay,
            ControllerEffect::Nothing,
        ),
        OverlayKeyResult::Back => Outcome::request(
            StateRequest::BackOverlay,
            ControllerEffect::Nothing,
        ),
        OverlayKeyResult::Run(c) => run_palette_command(c, s),
        OverlayKeyResult::AdjustSetting(i, d) => Outcome::ask(StateQuestion::AdjustSetting(i, d)),
        OverlayKeyResult::ResetSetting(i) => Outcome::ask(StateQuestion::ResetSetting(i)),
        OverlayKeyResult::BeginModelEdit => Outcome::request(
            StateRequest::BeginModelEdit,
            ControllerEffect::Nothing,
        ),
        OverlayKeyResult::CommitModel(value) => Outcome::ask(StateQuestion::CommitModel(value)),
        OverlayKeyResult::BeginReasoningEdit => Outcome::request(
            StateRequest::BeginReasoningEdit,
            ControllerEffect::Nothing,
        ),
        OverlayKeyResult::CommitReasoning(value) => Outcome::ask(
            StateQuestion::CommitReasoning(value),
        ),
        OverlayKeyResult::BeginContextWindowEdit => Outcome::request(
            StateRequest::BeginContextWindowEdit,
            ControllerEffect::Nothing,
        ),
        OverlayKeyResult::CommitContextWindow(value) => Outcome::ask(
            StateQuestion::CommitContextWindow(value),
        ),
        OverlayKeyResult::OpenShortcuts => Outcome::request(
            StateRequest::OpenShortcuts,
            ControllerEffect::Nothing,
        ),
        OverlayKeyResult::ConfirmPlanApproval => {
            let effect = match s.overlay.take() {
                Some(Overlay::PlanApproval(o)) => ControllerEffect::ApprovePlan(o.into_input()),
                _ => ControllerEffect::Nothing,
            };
            Outcome::request(StateRequest::CloseOverlay, effect)
        },
        OverlayKeyResult::ApprovePermission(id) => Outcome::request(
            StateRequest::CloseOverlay,
            ControllerEffect::ApprovePermission(id),
        ),
        OverlayKeyResult::DenyPermission(id) => Outcome::request(
            StateRequest::CloseOverlay,
            ControllerEffect::DenyPermission(id),
        ),
        OverlayKeyResult::Provider(action) => Outcome::effect(
            controller_provider::provider_overlay_effect(action),
        ),
    }
}

/// Whether an action is open to a focused plan pane.
pub open spec fn open_to_plan(action: KeyAction) -> bool {
    action == KeyAction::OpenCommandPanel || action == KeyAction::OpenCommandDetails || action
        == KeyAction::FollowLatest || action == KeyAction::TogglePlan || action
        == KeyAction::Interrupt || action == KeyAction::Quit
}

pub open spec fn key_action(s: Cockpit, key: KeyEvent) -> Option<KeyAction> {
    keymap::action_of(s.keymap@, KeyBinding { code: key.code, modifiers: key.modifiers })
}

/// Whether a key belongs to an open menu of completions.
pub open spec fn menu_key(key: KeyEvent) -> bool {
    key.code == KeyCode::Enter || key.code == KeyCode::Tab || key.code == KeyCode::Down || key.code
        == KeyCode::Up || key.code == KeyCode::Esc
}

/// What a key leads to while a menu of completions is open.
pub open spec fn menu_outcome(key: KeyEvent, slash: bool) -> effects::OutcomeView {
    match key.code {
        KeyCode::Enter => if slash {
            effects::asking(effects::QuestionView::AcceptSlashCompletion)
        } else {
            effects::outcome(
                seq![effects::RequestView::AcceptCompletion],
                effects::EffectView::Nothing,
            )
        },
        KeyCode::Tab => effects::outcome(
            seq![effects::RequestView::AcceptCompletion],
            effects::EffectView::Nothing,
        ),
        KeyCode::Esc => effects::outcome(
            seq![effects::RequestView::CloseCompletionMenu],
            effects::EffectView::Nothing,
        ),
        _ => effects::outcome(Seq::empty(), effects::EffectView::Nothing),
    }
}

/// A menu after a key.
pub open spec fn menu_after(
    m: completion::MenuView,
    key: KeyEvent,
) -> completion::MenuView {
    match key.code {
        KeyCode::Down => completion::next_selected(m),
        KeyCode::Up => completion::previous_selected(m),
        _ => m,
    }
}

/// Who gets a key: an overlay before all others, then a menu of completions, then a plan
/// pane that has the keys, then the keymap, and the input what is left.
pub enum KeyOwner {
    /// Nobody: the key only takes back a selection of text.
    Selection,
    /// The key that opened a command's details closes them.
    DetailsToggle,
    Overlay,
    Menu,
    PlanNavigation,
    PlanAction(KeyAction),
    /// A plan pane keeps the keys that it does not know.
    PlanIgnored,
    Action(KeyAction),
    Input,
}

pub open spec fn key_owner(s: Cockpit, key: KeyEvent) -> KeyOwner {
    if s.overlay is None && s.run.text_selected && key.code == KeyCode::Esc {
        KeyOwner::Selection
    } else if s.details_open() && key_action(s, key) == Some(KeyAction::OpenCommandDetails) {
        KeyOwner::DetailsToggle
    } else if s.overlay is Some {
        KeyOwner::Overlay
    } else if s.completion_menu is Some && menu_key(key) {
        KeyOwner::Menu
    } else if s.plan.focus() {
        if plan_controller::navigation_key(key) {
            KeyOwner::PlanNavigation
        } else {
            match key_action(s, key) {
                Some(action) => if open_to_plan(action) {
                    KeyOwner::PlanAction(action)
                } else {
                    KeyOwner::PlanIgnored
                },
                None => KeyOwner::PlanIgnored,
            }
        }
    } else {
        match key_action(s, key) {
            Some(action) => KeyOwner::Action(action),
            None => KeyOwner::Input,
        }
    }
}

/// An outcome without the request before it that ends a selection of text.
pub open spec fn selecting(s: Cockpit, o: effects::OutcomeView) -> effects::OutcomeView {
    if s.overlay is None {
        effects::OutcomeView { requests: o.requests.drop_first(), ..o }
    } else {
        o
    }
}

/// Whether an outcome starts as it has to: with the end of a selection of text, where no
/// overlay is open.
pub open spec fn starts_right(s: Cockpit, o: effects::OutcomeView) -> bool {
    s.overlay is None ==> o.requests.len() > 0 && o.requests[0]
        == effects::RequestView::ClearTextSelection
}

/// What a key press leads to, by who gets the key.
pub open spec fn key_outcome(
    r: effects::OutcomeView,
    before: Cockpit,
    after: Cockpit,
    key: KeyEvent,
    name_is_valid: bool,
    refusal: Option<Seq<char>>,
) -> bool {
    let o = selecting(before, r);
    &&& starts_right(before, r)
    &&& match key_owner(before, key) {
        KeyOwner::Selection => o == effects::outcome(
            Seq::empty(),
            effects::EffectView::Nothing,
        ) && after == before,
        KeyOwner::DetailsToggle => o == effects::outcome(
            seq![effects::RequestView::CloseOverlay],
            effects::EffectView::Nothing,
        ) && after == before,
        KeyOwner::Overlay => {
            let (overlay, result) = overlay::overlay_key(
                before.overlay->0@,
                key,
                name_is_valid,
                refusal,
            );
            exists|middle: Cockpit|
                {
                    &&& #[trigger] holds_overlay(middle, before, overlay)
                    &&& overlay_outcome(o, result, middle)
                    &&& after == (Cockpit {
                        plan: overlay_plan(result, middle),
                        overlay: overlay_left(result, middle),
                        ..middle
                    })
                }
        },
        KeyOwner::Menu => {
            &&& o == menu_outcome(key, before.completion_menu->0@.trigger == '/')
            &&& after.completion_menu is Some
            &&& after.completion_menu->0@ == menu_after(before.completion_menu->0@, key)
            &&& after == (Cockpit { completion_menu: after.completion_menu, ..before })
        },
        KeyOwner::PlanNavigation => {
            &&& o == effects::outcome(Seq::empty(), effects::EffectView::Nothing)
            &&& plan_controller::navigated(key, before.plan, after.plan)
            &&& after == (Cockpit { plan: after.plan, ..before })
        },
        KeyOwner::PlanAction(action) => action_outcome(o, action, before) && after == (Cockpit {
            plan: action_plan(action, before),
            ..before
        }),
        KeyOwner::PlanIgnored => o == effects::outcome(
            Seq::empty(),
            effects::EffectView::Nothing,
        ) && after == before,
        KeyOwner::Action(action) => action_outcome(o, action, before) && after == (Cockpit {
            plan: action_plan(action, before),
            ..before
        }),
        KeyOwner::Input => o == effects::outcome(
            seq![effects::RequestView::InputKey(key)],
            effects::EffectView::Nothing,
        ) && after == before,
    }
}

/// The screen as before, but for an overlay that has taken a key.
pub open spec fn holds_overlay(s: Cockpit, before: Cockpit, overlay: overlay::OverlayView) -> bool {
    s.overlay is Some && s.overlay->0@ == overlay && s == (Cockpit {
        overlay: s.overlay,
        ..before
    })
}

fn unselect_first(o: Outcome) -> (r: Outcome)
    ensures
        r@.requests.len() > 0,
        r@.requests[0] == effects::RequestView::ClearTextSelection,
        r@.requests.drop_first() == o@.requests,
        r@.next == o@.next,
{
    let ghost before = o.requests@;
    let mut requests = o.requests;
    requests.insert(0, StateRequest::ClearTextSelection);
    let r = Outcome { requests, next: o.next };
    proof {
        assert(r@.requests.drop_first() =~= effects::request_views(before));
    }
    r
}

/// Does what a key press asks for.
pub fn handle_key_event(key: KeyEvent, s: &mut Cockpit, verdicts: InputVerdicts) -> (r: Outcome)
    requires
        old(s).well_formed(),
    ensures
        key_outcome(
            r@,
            *old(s),
            *final(s),
            key,
            verdicts.model_name_is_valid,
            plan_model::opt(verdicts.effort_refusal),
        ),
        final(s).well_formed(),
{
    let ghost before = *s;
    if s.overlay.is_none() {
        if s.run.text_selected && key.code == KeyCode::Esc {
            return unselect_first(Outcome::nothing());
        }
        let o = handle_bare_key(key, s);
        return unselect_first(o);
    }
    let action = s.keymap.action_for(KeyBinding::of_event(key));
    let details = match &s.overlay {
        Some(Overlay::CommandDetails(_)) => true,
        _ => false,
    };
    if details && action == Some(KeyAction::OpenCommandDetails) {
        return Outcome::request(StateRequest::CloseOverlay, ControllerEffect::Nothing);
    }
    let result = match &mut s.overlay {
        Some(overlay) => overlay.handle_key(key, verdicts),
        None => OverlayKeyResult::Consumed,
    };
    proof {
        let overlay = overlay::overlay_key(
            before.overlay->0@,
            key,
            verdicts.model_name_is_valid,
            plan_model::opt(verdicts.effort_refusal),
        ).0;
        assert(holds_overlay(*s, before, overlay));
    }
    follow_overlay(result, s)
}

/// What a key press leads to where no overlay is open, but for the selection of text.
fn handle_bare_key(key: KeyEvent, s: &mut Cockpit) -> (r: Outcome)
    requires
        old(s).well_formed(),
        old(s).overlay is None,
        !(old(s).run.text_selected && key.code == KeyCode::Esc),
    ensures
        forall|o: effects::OutcomeView, valid: bool, refusal: Option<Seq<char>>|
            o.requests.len() > 0 && o.requests[0] == effects::RequestView::ClearTextSelection
                && o.requests.drop_first() == r@.requests && o.next == r@.next
                ==> #[trigger] key_outcome(o, *old(s), *final(s), key, valid, refusal),
        final(s).well_formed(),
{
    if s.completion_menu.is_some() {
        let slash = match &s.completion_menu {
            Some(menu) => menu.is_slash(),
            None => false,
        };
        match key.code {
            KeyCode::Enter => {
                if slash {
                    return Outcome::ask(StateQuestion::AcceptSlashCompletion);
                }
                return Outcome::request(StateRequest::AcceptCompletion, ControllerEffect::Nothing);
            },
            KeyCode::Tab => {
                return Outcome::request(StateRequest::AcceptCompletion, ControllerEffect::Nothing);
            },
            KeyCode::Down => {
                match &mut s.completion_menu {
                    Some(menu) => menu.select_next(),
                    None => {},
                }
                return Outcome::nothing();
            },
            KeyCode::Up => {
                match &mut s.completion_menu {
                    Some(menu) => menu.select_previous(),
                    None => {},
                }
                return Outcome::nothing();
            },
            KeyCode::Esc => {
                return Outcome::request(
                    StateRequest::CloseCompletionMenu,
                    ControllerEffect::Nothing,
                );
            },
            _ => {},
        }
    }
    let action = s.keymap.action_for(KeyBinding::of_event(key));
    if s.plan.is_focused() {
        if plan_controller::handle_navigation_key(key, &mut s.plan) {
            return Outcome::nothing();
        }
        return match action {
            Some(a) => if a == KeyAction::OpenCommandPanel || a == KeyAction::OpenCommandDetails
                || a == KeyAction::FollowLatest || a == KeyAction::TogglePlan || a
                == KeyAction::Interrupt || a == KeyAction::Quit {
                handle_key_action(a, s)
            } else {
                Outcome::nothing()
            },
            None => Outcome::nothing(),
        };
    }
    match action {
        Some(a) => handle_key_action(a, s),
        None => Outcome::request(StateRequest::InputKey(key), ControllerEffect::Nothing),
    }
}

/// An open overlay takes every key, but for the one that closes a command's details: no
/// key press reaches the plan pane, the menu of completions or the input behind it, unless
/// the overlay runs a command.
pub proof fn overlays_take_the_keys(
    r: effects::OutcomeView,
    before: Cockpit,
    after: Cockpit,
    key: KeyEvent,
    name_is_valid: bool,
    refusal: Option<Seq<char>>,
)
    requires
        before.overlay is Some,
        key_outcome(r, before, after, key, name_is_valid, refusal),
    ensures
        after.input == before.input,
        after.completion_menu == before.completion_menu,
        after.plan == before.plan || overlay::overlay_key(
            before.overlay->0@,
            key,
            name_is_valid,
            refusal,
        ).1 is Run,
        forall|i: int|
            0 <= i < r.requests.len() ==> !((#[trigger] r.requests[i]) is InputKey),
{
    match key_owner(before, key) {
        KeyOwner::Overlay => {
            let (overlay, result) = overlay::overlay_key(
                before.overlay->0@,
                key,
                name_is_valid,
                refusal,
            );
            let middle = choose|middle: Cockpit|
                {
                    &&& #[trigger] holds_overlay(middle, before, overlay)
                    &&& overlay_outcome(r, result, middle)
                    &&& after == (Cockpit {
                        plan: overlay_plan(result, middle),
                        overlay: overlay_left(result, middle),
                        ..middle
                    })
                };
            assert(holds_overlay(middle, before, overlay));
        },
        _ => {},
    }
}

/// A plan pane that has the keys keeps them from the input.
pub proof fn a_focused_plan_keeps_the_keys_from_the_input(
    r: effects::OutcomeView,
    before: Cockpit,
    after: Cockpit,
    key: KeyEvent,
    name_is_valid: bool,
    refusal: Option<Seq<char>>,
)
    requires
        before.overlay is None,
        before.completion_menu is None,
        before.plan.focus(),
        key_outcome(r, before, after, key, name_is_valid, refusal),
    ensures
        after.input == before.input,
        !r.requests.contains(effects::RequestView::InputKey(key)),
        !(r.next is Ask && r.next->Ask_0 is TakeInput),
{
    let o = selecting(before, r);
    assert(r.requests =~= seq![effects::RequestView::ClearTextSelection] + o.requests);
}

/// What follows when a setting has been turned or put back.
pub fn preferences_effect(item: SettingItem, changed: bool) -> (r: ControllerEffect)
    ensures
        r@ == (if !changed {
            effects::EffectView::Nothing
        } else {
            match item {
                SettingItem::CodeTheme => effects::EffectView::PersistPreferences,
                SettingItem::KeyboardShortcuts => effects::EffectView::Nothing,
                _ => effects::EffectView::ApplyRuntimePreferences,
            }
        }),
{
    if !changed {
        return ControllerEffect::Nothing;
    }
    match item {
        SettingItem::CodeTheme => ControllerEffect::PersistPreferences,
        SettingItem::KeyboardShortcuts => ControllerEffect::Nothing,
        _ => ControllerEffect::ApplyRuntimePreferences,
    }
}

/// What follows when a model has been entered: its reasoning effort is chosen next, or a
/// model that was cleared is used no more. `accepted` holds the provider and the model
/// where there is one to choose an effort for.
pub fn model_commit_effect(value: &str, accepted: Option<(String, String)>) -> (r: ControllerEffect)
    ensures
        r@ == (match accepted {
            Some(pair) => effects::EffectView::OpenReasoningPicker {
                alias: pair.0@,
                model: pair.1@,
                target: provider_overlay::ModelPickerTarget::ActiveProvider,
            },
            None => if text::is_blank(value@) {
                effects::EffectView::ApplyRuntimePreferences
            } else {
                effects::EffectView::Nothing
            },
        }),
{
    match accepted {
        Some((alias, model)) => ControllerEffect::OpenReasoningPicker {
            alias,
            model,
            target: provider_overlay::ModelPickerTarget::ActiveProvider,
        },
        None => if text::blank(value) {
            ControllerEffect::ApplyRuntimePreferences
        } else {
            ControllerEffect::Nothing
        },
    }
}

/// What follows when an effort or a context window has been entered.
pub fn commit_effect(changed: bool) -> (r: ControllerEffect)
    ensures
        r@ == (if changed {
            effects::EffectView::ApplyRuntimePreferences
        } else {
            effects::EffectView::Nothing
        }),
{
    if changed {
        ControllerEffect::ApplyRuntimePreferences
    } else {
        ControllerEffect::Nothing
    }
}

/// What follows when the input has been cleared, or was empty already.
pub fn cancel_effect(was_empty: bool) -> (r: ControllerEffect)
    ensures
        r@ == (if was_empty {
            effects::EffectView::Quit
        } else {
            effects::EffectView::Nothing
        }),
{
    if was_empty {
        ControllerEffect::Quit
    } else {
        ControllerEffect::Nothing
    }
}

/// What follows when the input has been taken for a message.
pub fn submission_effect(
    lane: QueuedInputLane,
    submission: Option<TuiSubmission>,
) -> (r: ControllerEffect)
    ensures
        r@ == (match submission {
            None => effects::EffectView::Nothing,
            Some(s) => if lane == QueuedInputLane::Backlog {
                effects::EffectView::SubmitBacklog(s)
            } else {
                effects::EffectView::SubmitNext(s)
            },
        }),
{
    match submission {
        None => ControllerEffect::Nothing,
        Some(s) => if lane == QueuedInputLane::Backlog {
            ControllerEffect::SubmitBacklog(s)
        } else {
            ControllerEffect::SubmitNext(s)
        },
    }
}

/// Whether the input is a command that can be run as it stands.
pub fn input_is_known_slash(s: &Cockpit) -> (r: bool)
    ensures
        r == (input_as_slash(*s) is Known),
{
    match s.input.plain_text() {
        Some(typed) => match command::match_slash_input(typed) {
            SlashCommandMatch::Known(_) => true,
            _ => false,
        },
        None => false,
    }
}

/// What follows when a completed slash command has been accepted: one that is complete
/// runs at once.
pub fn slash_completion_outcome(s: &mut Cockpit) -> (r: Outcome)
    requires
        old(s).well_formed(),
    ensures
        r@ == (if input_as_slash(*old(s)) is Known {
            submit_outcome(QueuedInputLane::Next, *old(s))
        } else {
            effects::outcome(Seq::empty(), effects::EffectView::Nothing)
        }),
        *final(s) == (if input_as_slash(*old(s)) is Known {
            Cockpit { plan: slash_plan(*old(s)), ..*old(s) }
        } else {
            *old(s)
        }),
        final(s).well_formed(),
{
    if input_is_known_slash(s) {
        submit_input(QueuedInputLane::Next, s)
    } else {
        Outcome::nothing()
    }
}

/// What a paste leads to: an overlay takes it where there is one, else the input does.
pub fn handle_paste_event(value: &str, s: &mut Cockpit) -> (r: Outcome)
    requires
        old(s).well_formed(),
    ensures
        *final(s) == (Cockpit { overlay: final(s).overlay, ..*old(s) }),
        match old(s).overlay {
            Some(o) => {
                &&& final(s).overlay is Some
                &&& overlay::overlay_paste(o@, final(s).overlay->0@, value@)
                &&& r@ == effects::outcome(
                    seq![effects::RequestView::ClearTextSelection],
                    effects::EffectView::Nothing,
                )
            },
            None => {
                &&& final(s).overlay is None
                &&& r@ == effects::outcome(
                    seq![
                        effects::RequestView::ClearTextSelection,
                        effects::RequestView::InputPaste(value@),
                    ],
                    effects::EffectView::Nothing,
                )
            },
        },
        final(s).well_formed(),
{
    match &mut s.overlay {
        Some(overlay) => {
            overlay.insert_paste(value);
            Outcome::request(StateRequest::ClearTextSelection, ControllerEffect::Nothing)
        },
        None => Outcome::requests(
            StateRequest::ClearTextSelection,
            StateRequest::InputPaste(value.to_owned()),
            ControllerEffect::Nothing,
        ),
    }
}

/// What work changes on the screen before it is done.
pub open spec fn local_requests(effect: effects::EffectView) -> Seq<effects::RequestView> {
    match effect {
        effects::EffectView::SubmitNext(s) => seq![
            effects::RequestView::EchoUserInput { text: s.text@, lane: QueuedInputLane::Next },
            effects::RequestView::ProjectRunStart,
        ],
        effects::EffectView::SubmitBacklog(s) => seq![
            effects::RequestView::EchoUserInput { text: s.text@, lane: QueuedInputLane::Backlog },
            effects::RequestView::ProjectRunStart,
        ],
        effects::EffectView::Interrupt => seq![
            effects::RequestView::FollowLatest,
            effects::RequestView::BeginStopFeedback,
        ],
        _ => Seq::empty(),
    }
}

/// Shows at once what work is about to do: a message is echoed, and a stop is told.
pub fn project_local_effect(effect: &ControllerEffect, plan: &mut PlanUiState) -> (r: Vec<
    StateRequest,
>)
    requires
        old(plan).well_formed(),
    ensures
        effects::request_views(r@) == local_requests(effect@),
        *final(plan) == (if effect@ is Interrupt {
            plan::unfocused_pane(*old(plan))
        } else {
            *old(plan)
        }),
        final(plan).well_formed(),
{
    let r = match effect {
        ControllerEffect::SubmitNext(s) => vec![
            StateRequest::EchoUserInput { text: s.text.clone(), lane: QueuedInputLane::Next },
            StateRequest::ProjectRunStart,
        ],
        ControllerEffect::SubmitBacklog(s) => vec![
            StateRequest::EchoUserInput { text: s.text.clone(), lane: QueuedInputLane::Backlog },
            StateRequest::ProjectRunStart,
        ],
        ControllerEffect::Interrupt => {
            plan.leave_focus();
            vec![StateRequest::FollowLatest, StateRequest::BeginStopFeedback]
        },
        _ => Vec::new(),
    };
    proof {
        assert(effects::request_views(r@) =~= local_requests(effect@));
    }
    r
}

/// What follows when an image has been read from the clipboard: it goes into the input, or
/// the conversation tells why not.
pub fn apply_clipboard_image_completion(
    result: Result<DraftImage, String>,
    input: &mut TextInput,
) -> (r: Option<TimelineItem>)
    requires
        old(input)@.well_formed(),
    ensures
        final(input)@.well_formed(),
        match result {
            Err(error) => final(input)@ == old(input)@ && timeline::opt_item(r) == Some(
                timeline::ItemView::Diagnostic { title: "clipboard_image"@, body: error@ },
            ),
            Ok(image) => {
                let count = input::image_count(old(input)@.elements);
                if count < input::MAX_USER_IMAGES {
                    r is None && final(input)@ == input::with_element(
                        old(input)@,
                        input::image_label(count + 1),
                        input::PayloadView::Image(image),
                    )
                } else {
                    final(input)@ == old(input)@ && timeline::opt_item(r) == Some(
                        timeline::ItemView::Diagnostic {
                            title: "clipboard_image"@,
                            body: "one user message may contain at most 20 images"@,
                        },
                    )
                }
            },
        },
{
    let error = match result {
        Ok(image) => match input.insert_image(image) {
            Ok(_) => {
                return None;
            },
            Err(InputError::InvalidUserImageInput { reason }) => reason,
        },
        Err(error) => error,
    };
    Some(TimelineItem::diagnostic("clipboard_image", error.as_str()))
}

/// Work follows from the actions that ask for it, and from no other: only the action to quit
/// quits, a run is interrupted only where it can be, and so on.
pub proof fn work_follows_from_its_action(action: KeyAction, s: Cockpit)
    ensures
        ({
            let o = plain_action_outcome(action, s);
            let interrupts = action == KeyAction::Interrupt && s.run.can_interrupt;
            &&& o.next == effects::StepView::Effect(effects::EffectView::Quit) <==> action
                == KeyAction::Quit
            &&& o.next == effects::StepView::Effect(effects::EffectView::Interrupt) <==> interrupts
            &&& o.next == effects::StepView::Effect(effects::EffectView::PasteImage) <==> action
                == KeyAction::PasteImage
            &&& o.next == effects::StepView::Effect(effects::EffectView::OpenSessionInBrowser)
                <==> action == KeyAction::OpenSessionInBrowser
            &&& o.next == effects::StepView::Effect(effects::EffectView::ResumeSuspended)
                <==> action == KeyAction::ResumeSuspended
            &&& o.next == effects::StepView::Effect(effects::EffectView::DiscardSuspended)
                <==> action == KeyAction::DiscardSuspended
            &&& o.next == effects::StepView::Ask(effects::QuestionView::CancelInputOrQuit)
                <==> action == KeyAction::CancelInputOrQuit
            &&& o.next == effects::StepView::Effect(effects::EffectView::Nothing) <==> !(action
                == KeyAction::Quit || interrupts || action == KeyAction::PasteImage || action
                == KeyAction::OpenSessionInBrowser || action == KeyAction::ResumeSuspended || action
                == KeyAction::DiscardSuspended || action == KeyAction::CancelInputOrQuit)
        }),
{
}

/// What an action asks of the rest of the screen is what it is named for, and no other action
/// asks for it. Scrolling up and down go the same way far.
pub proof fn requests_follow_from_their_action(action: KeyAction, s: Cockpit, n: usize)
    ensures
        ({
            let asked = plain_action_outcome(action, s).requests;
            let repeats = action == KeyAction::Interrupt && !s.run.can_interrupt
                && s.run.interrupting;
            let leaves = action == KeyAction::Interrupt && !s.run.can_interrupt
                && !s.run.interrupting && s.run.reviewing;
            &&& asked.contains(effects::RequestView::InsertInputNewline) <==> action
                == KeyAction::InsertNewline
            &&& asked.contains(effects::RequestView::OpenCommandPalette) <==> action
                == KeyAction::OpenCommandPanel
            &&& asked.contains(effects::RequestView::ScrollTimelineUp(n)) <==> action
                == KeyAction::ScrollUp && n == TIMELINE_SCROLL_STEP
            &&& asked.contains(effects::RequestView::ScrollTimelineDown(n)) <==> action
                == KeyAction::ScrollDown && n == TIMELINE_SCROLL_STEP
            &&& asked.contains(effects::RequestView::FollowLatest) <==> action
                == KeyAction::FollowLatest || repeats
            &&& asked.contains(effects::RequestView::RepeatStopFeedback) <==> repeats
            &&& asked.contains(effects::RequestView::ExitTimelineReview) <==> leaves
            &&& asked.contains(effects::RequestView::JumpToPreviousUserInput) <==> action
                == KeyAction::ReviewPreviousUserInput
            &&& asked.contains(effects::RequestView::PreviousInputHistory) <==> action
                == KeyAction::HistoryPrevious
            &&& asked.contains(effects::RequestView::NextInputHistory) <==> action
                == KeyAction::HistoryNext
        }),
{
    let asked = plain_action_outcome(action, s).requests;
    if asked.len() > 0 {
        assert(asked.contains(asked[0]));
    }
    if asked.len() > 1 {
        assert(asked.contains(asked[1]));
    }
}

/// A command of the palette leads to the work that it is named for, and no other does: the
/// session is saved only while no run is active, and a run is stopped only where it can be.
pub proof fn commands_lead_to_their_work(c: PaletteCommand, s: Cockpit)
    ensures
        ({
            let next = palette_outcome(c, s).next;
            &&& next == effects::StepView::Effect(effects::EffectView::Quit) <==> c
                == PaletteCommand::Quit
            &&& next == effects::StepView::Effect(effects::EffectView::SaveSession) <==> c
                == PaletteCommand::SaveSession && !s.run.active
            &&& next == effects::StepView::Effect(effects::EffectView::Interrupt) <==> c
                == PaletteCommand::Interrupt && s.run.can_interrupt
            &&& next == effects::StepView::Effect(effects::EffectView::OpenProviderManager) <==> c
                == PaletteCommand::OpenProviders
            &&& next == effects::StepView::Effect(effects::EffectView::ResumeSuspended) <==> c
                == PaletteCommand::ResumeSuspended
            &&& next == effects::StepView::Effect(effects::EffectView::DiscardSuspended) <==> c
                == PaletteCommand::DiscardSuspended
            &&& next == effects::StepView::Effect(effects::EffectView::EnterPlanMode) <==> c
                == PaletteCommand::EnterPlanMode
            &&& next == effects::StepView::Effect(effects::EffectView::RevisePlan) <==> c
                == PaletteCommand::RevisePlan
            &&& next == effects::StepView::Effect(effects::EffectView::PausePlan) <==> c
                == PaletteCommand::PausePlan
            &&& next == effects::StepView::Effect(effects::EffectView::ResumePlan) <==> c
                == PaletteCommand::ResumePlan
            &&& next == effects::StepView::Effect(effects::EffectView::CancelPlan) <==> c
                == PaletteCommand::CancelPlan
            &&& (next matches effects::StepView::Effect(effects::EffectView::RetryPlanNode(id))
                && s.plan.selected() == Some(id)) <==> c == PaletteCommand::RetryPlanNode
                && s.plan.selected() is Some
            &&& !(next is Ask)
        }),
{
}

/// Every command of the palette closes it before anything else, but for those that open
/// another overlay in its place.
pub proof fn commands_close_the_palette(c: PaletteCommand, s: Cockpit)
    ensures
        ({
            let asked = palette_outcome(c, s).requests;
            &&& c != PaletteCommand::OpenProviders && c != PaletteCommand::ShowShortcuts && c
                != PaletteCommand::ApprovePlan ==> asked.len() > 0 && asked[0]
                == effects::RequestView::CloseOverlay
            &&& asked.contains(effects::RequestView::OpenSettings) <==> c
                == PaletteCommand::OpenSettings
            &&& asked.contains(effects::RequestView::OpenShortcuts) <==> c
                == PaletteCommand::ShowShortcuts
            &&& asked.contains(effects::RequestView::OpenPlanApproval) <==> c
                == PaletteCommand::ApprovePlan
            &&& asked.contains(effects::RequestView::PushSessionStatus) <==> c
                == PaletteCommand::ShowStatus
            &&& asked.contains(effects::RequestView::SetInterrupting) <==> c
                == PaletteCommand::Interrupt && s.run.can_interrupt
            &&& asked.contains(effects::RequestView::JumpToPreviousUserInput) <==> c
                == PaletteCommand::ReviewPreviousUserInput
        }),
{
    let asked = palette_outcome(c, s).requests;
    if asked.len() > 0 {
        assert(asked.contains(asked[0]));
    }
    if asked.len() > 1 {
        assert(asked.contains(asked[1]));
    }
    if asked.len() > 2 {
        assert(asked.contains(asked[2]));
    }
}

/// The plan pane opens, takes the keys and closes as its commands say; no other command
/// touches it.
pub proof fn commands_open_and_close_the_plan(c: PaletteCommand, s: Cockpit)
    ensures
        ({
            let after = palette_plan(c, s);
            &&& (c == PaletteCommand::OpenPlan || c == PaletteCommand::FocusPlan)
                && s.plan.snapshot is Some ==> after.open && after.focused
            &&& c == PaletteCommand::ClosePlan ==> !after.open && !after.focused
                && !after.inspector_open
            &&& after.snapshot == s.plan.snapshot
            &&& after.selected_node_id == s.plan.selected_node_id
            &&& after.collapsed_node_ids == s.plan.collapsed_node_ids
            &&& !(c == PaletteCommand::OpenPlan || c == PaletteCommand::FocusPlan || c
                == PaletteCommand::ClosePlan) ==> after == s.plan
        }),
{
}

/// A slash command is never sent as a message: where the input is one that is known, the
/// command runs as the palette runs it, with the input cleared first; where it is not known or
/// has arguments, nothing runs and the input stays. Either way a review of the conversation
/// ends.
pub proof fn slash_commands_are_not_sent(lane: QueuedInputLane, s: Cockpit)
    requires
        input_as_slash(s) !is NotCommand,
    ensures
        ({
            let o = submit_outcome(lane, s);
            &&& !(o.next is Ask)
            &&& o.requests.last() == effects::RequestView::ExitTimelineReview
            &&& input_as_slash(s) matches command::SlashView::Known(c) ==> {
                &&& o.next == palette_outcome(c.command, s).next
                &&& o.requests[0] == effects::RequestView::ClearInput
                &&& o.requests.len() == palette_outcome(c.command, s).requests.len() + 2
                &&& forall|i: int|
                    0 <= i < palette_outcome(c.command, s).requests.len()
                        ==> #[trigger] o.requests[i + 1] == palette_outcome(
                        c.command,
                        s,
                    ).requests[i]
            }
            &&& !(input_as_slash(s) is Known) ==> o.next == effects::StepView::Effect(
                effects::EffectView::Nothing,
            ) && !o.requests.contains(effects::RequestView::ClearInput)
        }),
{
}

/// What is no slash command is taken for a message of the lane that was asked for, unless an
/// earlier part of the conversation is looked at: then only that ends, and nothing is sent.
pub proof fn other_input_is_taken_for_a_message(lane: QueuedInputLane, s: Cockpit)
    requires
        input_as_slash(s) is NotCommand,
    ensures
        !s.run.reviewing ==> submit_outcome(lane, s).next == effects::StepView::Ask(
            effects::QuestionView::TakeInput(lane),
        ) && submit_outcome(lane, s).requests.len() == 0,
        s.run.reviewing ==> submit_outcome(lane, s).next == effects::StepView::Effect(
            effects::EffectView::Nothing,
        ) && submit_outcome(lane, s).requests == seq![effects::RequestView::ExitTimelineReview],
{
}

/// Where neither an overlay nor a menu nor the plan pane takes the keys, a key does what it is
/// bound to, and a key that is bound to nothing goes to the input as it was pressed.
pub proof fn keys_act_or_go_to_the_input(
    r: effects::OutcomeView,
    before: Cockpit,
    after: Cockpit,
    key: KeyEvent,
    name_is_valid: bool,
    refusal: Option<Seq<char>>,
)
    requires
        key_outcome(r, before, after, key, name_is_valid, refusal),
        before.overlay is None,
        before.completion_menu is None,
        !before.plan.focus(),
        !(before.run.text_selected && key.code == KeyCode::Esc),
    ensures
        ({
            let bound = keymap::action_of(
                before.keymap@,
                KeyBinding { code: key.code, modifiers: key.modifiers },
            );
            &&& r.requests.len() > 0
            &&& r.requests[0] == effects::RequestView::ClearTextSelection
            &&& bound is None ==> r.requests == seq![
                effects::RequestView::ClearTextSelection,
                effects::RequestView::InputKey(key),
            ] && r.next == effects::StepView::Effect(effects::EffectView::Nothing) && after == before
            &&& bound matches Some(action) ==> action_outcome(
                effects::OutcomeView { requests: r.requests.drop_first(), next: r.next },
                action,
                before,
            ) && !r.requests.contains(effects::RequestView::InputKey(key))
            &&& after.input == before.input
            &&& after.items == before.items
            &&& after.overlay is None
        }),
{
    let o = selecting(before, r);
    assert(r.requests =~= seq![effects::RequestView::ClearTextSelection] + o.requests);
    let bound = key_action(before, key);
    if bound is None {
        assert(r.requests =~= seq![
            effects::RequestView::ClearTextSelection,
            effects::RequestView::InputKey(key),
        ]);
    } else {
        lemma_actions_press_no_keys(bound->0, before, o, key);
        if r.requests.contains(effects::RequestView::InputKey(key)) {
            let i = choose|i: int|
                0 <= i < r.requests.len() && r.requests[i] == effects::RequestView::InputKey(key);
            assert(o.requests[i - 1] == r.requests[i]);
        }
    }
}

proof fn lemma_actions_press_no_keys(
    action: KeyAction,
    s: Cockpit,
    o: effects::OutcomeView,
    key: KeyEvent,
)
    requires
        action_outcome(o, action, s),
    ensures
        !o.requests.contains(effects::RequestView::InputKey(key)),
{
}

/// The escape key takes back a selection of text and does nothing else.
pub proof fn escape_takes_back_a_selection(
    r: effects::OutcomeView,
    before: Cockpit,
    after: Cockpit,
    key: KeyEvent,
    name_is_valid: bool,
    refusal: Option<Seq<char>>,
)
    requires
        key_outcome(r, before, after, key, name_is_valid, refusal),
        before.overlay is None,
        before.run.text_selected,
        key.code == KeyCode::Esc,
    ensures
        after == before,
        r.requests == seq![effects::RequestView::ClearTextSelection],
        r.next == effects::StepView::Effect(effects::EffectView::Nothing),
{
    assert(r.requests =~= seq![effects::RequestView::ClearTextSelection]);
}

/// While a menu of completions is open, Enter and Tab take the selected one, the arrow keys
/// step through the menu, and Escape closes it; none of them reaches the input or an action.
pub proof fn menus_take_their_keys(
    r: effects::OutcomeView,
    before: Cockpit,
    after: Cockpit,
    key: KeyEvent,
    name_is_valid: bool,
    refusal: Option<Seq<char>>,
)
    requires
        key_outcome(r, before, after, key, name_is_valid, refusal),
        before.overlay is None,
        before.completion_menu is Some,
        before.completion_menu->0@.well_formed(),
        !(before.run.text_selected && key.code == KeyCode::Esc),
        key.code == KeyCode::Enter || key.code == KeyCode::Tab || key.code == KeyCode::Down
            || key.code == KeyCode::Up || key.code == KeyCode::Esc,
    ensures
        ({
            let m = before.completion_menu->0@;
            let asked = r.requests.drop_first();
            &&& after.input == before.input
            &&& after.plan == before.plan
            &&& after.completion_menu is Some
            &&& key.code == KeyCode::Tab ==> asked == seq![effects::RequestView::AcceptCompletion]
            &&& key.code == KeyCode::Enter && m.trigger != '/' ==> asked == seq![
                effects::RequestView::AcceptCompletion,
            ]
            &&& key.code == KeyCode::Enter && m.trigger == '/' ==> r.next
                == effects::StepView::Ask(effects::QuestionView::AcceptSlashCompletion)
            &&& key.code == KeyCode::Esc ==> asked == seq![
                effects::RequestView::CloseCompletionMenu,
            ]
            &&& key.code == KeyCode::Down && m.selected + 1 < m.items.len()
                ==> after.completion_menu->0@.selected == m.selected + 1
            &&& key.code == KeyCode::Up && m.selected > 0 ==> after.completion_menu->0@.selected
                == m.selected - 1
            &&& after.completion_menu->0@.items == m.items
        }),
{
}

/// What an overlay asks for is done, and nothing else: permissions are granted or denied by the
/// id that was asked about, settings are turned the way that was asked for, and text is copied
/// as it stands.
pub proof fn overlays_get_what_they_ask_for(
    r: effects::OutcomeView,
    result: overlay::KeyResultView,
    s: Cockpit,
    id: Seq<char>,
)
    requires
        overlay_outcome(r, result, s),
    ensures
        r.next == effects::StepView::Effect(effects::EffectView::ApprovePermission(id)) <==> result
            == overlay::KeyResultView::ApprovePermission(id),
        r.next == effects::StepView::Effect(effects::EffectView::DenyPermission(id)) <==> result
            == overlay::KeyResultView::DenyPermission(id),
        result matches overlay::KeyResultView::CopyText(t) ==> r.next == effects::StepView::Effect(
            effects::EffectView::CopyText(t),
        ),
        result matches overlay::KeyResultView::AdjustSetting(i, d) ==> r.next
            == effects::StepView::Ask(effects::QuestionView::AdjustSetting(i, d)),
        result matches overlay::KeyResultView::ResetSetting(i) ==> r.next
            == effects::StepView::Ask(effects::QuestionView::ResetSetting(i)),
        result matches overlay::KeyResultView::CommitModel(v) ==> r.next == effects::StepView::Ask(
            effects::QuestionView::CommitModel(v),
        ),
        result matches overlay::KeyResultView::CommitReasoning(v) ==> r.next
            == effects::StepView::Ask(effects::QuestionView::CommitReasoning(v)),
        result matches overlay::KeyResultView::CommitContextWindow(v) ==> r.next
            == effects::StepView::Ask(effects::QuestionView::CommitContextWindow(v)),
        result == overlay::KeyResultView::Close || result
            == overlay::KeyResultView::ConfirmPlanApproval || result is ApprovePermission
            || result is DenyPermission ==> r.requests == seq![effects::RequestView::CloseOverlay],
        result == overlay::KeyResultView::Back ==> r.requests == seq![
            effects::RequestView::BackOverlay,
        ],
        result == overlay::KeyResultView::Consumed ==> r.requests.len() == 0 && r.next
            == effects::StepView::Effect(effects::EffectView::Nothing),
        overlay_left(result, s) is None <==> s.overlay is None || result is ConfirmPlanApproval,
{
    if result is Provider {
        let action = result->Provider_0;
        assert(!(controller_provider::action_effect(action) is ApprovePermission));
    }
    if result is Run {
        commands_lead_to_their_work(result->Run_0, s);
        let next = palette_outcome(result->Run_0, s).next;
        assert(!(next matches effects::StepView::Effect(effects::EffectView::ApprovePermission(_))));
        assert(!(next matches effects::StepView::Effect(effects::EffectView::DenyPermission(_))));
    }
}

/// A message that is sent is echoed as it is sent, in its lane, before its run begins; a stop
/// is told of at once. Other work shows nothing beforehand.
pub proof fn sent_messages_are_echoed(effect: effects::EffectView)
    ensures
        effect matches effects::EffectView::SubmitNext(m) ==> local_requests(effect) == seq![
            effects::RequestView::EchoUserInput { text: m.text@, lane: QueuedInputLane::Next },
            effects::RequestView::ProjectRunStart,
        ],
        effect matches effects::EffectView::SubmitBacklog(m) ==> local_requests(effect) == seq![
            effects::RequestView::EchoUserInput { text: m.text@, lane: QueuedInputLane::Backlog },
            effects::RequestView::ProjectRunStart,
        ],
        local_requests(effect).contains(effects::RequestView::BeginStopFeedback) <==> effect
            == effects::EffectView::Interrupt,
        local_requests(effect).len() > 0 ==> effect is SubmitNext || effect is SubmitBacklog
            || effect is Interrupt,
{
    let asked = local_requests(effect);
    if asked.len() > 1 {
        assert(asked.contains(asked[1]));
    }
}

} // verus!
