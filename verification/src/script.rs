//! Work that takes several steps outside, and what becomes of it when a step fails.
use crate::input::TuiSubmission;
use crate::plan_controller;
use crate::plan_controller::PlanRequest;
use crate::plan_model;
use crate::provider_form;
use crate::provider_form::{ProviderDraftMode, ProviderFormValues};
use crate::provider_overlay::{ModelPickerTarget, ReasoningEffort};
use crate::text;
use crate::timeline;
use crate::timeline::{QueuedInputLane, TimelineItem};
use vstd::prelude::*;

verus! {

/// A change of the preferences.
#[derive(Debug, PartialEq, Eq)]
pub enum PreferenceChange {
    /// Forget everything about a provider.
    ForgetProvider(String),
    /// Forget the model of a provider.
    ForgetModel(String),
    /// Use a provider from now on.
    UseProvider(String),
    /// Use the provider that has just been saved, with its model and its effort.
    UseSavedProvider,
    /// Use the provider that has just been saved, with its model.
    UseSavedProviderModel,
    /// Remember the model of the provider that has just been changed.
    RememberSavedModel,
    /// Use a provider from now on, with this model.
    UseModel { alias: String, model: String },
    /// Use a provider from now on, with this model and this effort.
    UseModelAndEffort { alias: String, model: String, reasoning_effort: ReasoningEffort },
}

pub enum ChangeView {
    ForgetProvider(Seq<char>),
    ForgetModel(Seq<char>),
    UseProvider(Seq<char>),
    UseSavedProvider,
    UseSavedProviderModel,
    RememberSavedModel,
    UseModel { alias: Seq<char>, model: Seq<char> },
    UseModelAndEffort { alias: Seq<char>, model: Seq<char>, reasoning_effort: Seq<char> },
}

impl View for PreferenceChange {
    type V = ChangeView;

    open spec fn view(&self) -> ChangeView {
        match self {
            PreferenceChange::ForgetProvider(a) => ChangeView::ForgetProvider(a@),
            PreferenceChange::ForgetModel(a) => ChangeView::ForgetModel(a@),
            PreferenceChange::UseProvider(a) => ChangeView::UseProvider(a@),
            PreferenceChange::UseSavedProvider => ChangeView::UseSavedProvider,
            PreferenceChange::UseSavedProviderModel => ChangeView::UseSavedProviderModel,
            PreferenceChange::RememberSavedModel => ChangeView::RememberSavedModel,
            PreferenceChange::UseModel { alias, model } => ChangeView::UseModel {
                alias: alias@,
                model: model@,
            },
            PreferenceChange::UseModelAndEffort { alias, model, reasoning_effort } =>
                ChangeView::UseModelAndEffort {
                alias: alias@,
                model: model@,
                reasoning_effort: reasoning_effort@,
            },
        }
    }
}

/// A step outside.
#[derive(PartialEq, Eq)]
pub enum Call {
    /// Give up looking for models, if that is under way.
    CancelDiscovery,
    CheckAlias(String),
    /// Show the providers.
    OpenManager,
    /// Show the providers, or the form for a first one where there is none.
    OpenManagerOrForm,
    /// Show the form for a new provider, with an alias that is not taken.
    OpenForm,
    /// Read what can be edited of a provider.
    LoadEditable(String),
    /// Show the form for the provider that was read.
    OpenEditor,
    /// Show the models of a provider that are known already.
    OpenModelPicker(String),
    /// Look for the models of a provider.
    StartDiscovery(String),
    /// Make a request for models out of a form.
    DraftDiscovery { original_alias: Option<String>, values: ProviderFormValues },
    /// Read the form that is open behind the models.
    ReadOpenForm,
    /// Make a request for models out of the form that was read.
    DraftOpenFormDiscovery,
    /// Show the models for the form, under this name of the provider.
    OpenFormModelPicker { display_name: String },
    /// Show that models are looked for.
    MarkLoading(String),
    /// The same, for the provider of the request that was made.
    MarkDraftLoading,
    /// Look for models with the request that was made.
    StartFormDiscovery,
    BackOverlay,
    /// Show an error in the overlay.
    ShowOverlayError(&'static str),
    /// Propose an alias for a provider of this name, and put it into the form.
    DeriveAlias(String),
    DeleteProvider(String),
    /// Make a provider out of a form.
    DraftProvider { mode: ProviderDraftMode, values: ProviderFormValues },
    SaveProvider,
    UpdateProvider(String),
    /// Read the configuration again, and take over its settings.
    ReloadConfig,
    /// The same, where there is one.
    ReloadConfigIfAny,
    ChangePreferences(PreferenceChange),
    /// Use the preferences.
    ApplyPreferences,
    StorePreferences,
    /// Show the preferences as they are now.
    ShowPreferences,
    /// Show the model and the effort that are in use.
    ShowLabels,
    OpenReasoningPicker { alias: String, model: String, target: ModelPickerTarget },
    /// Put a model and an effort into the form.
    SelectFormModel { model: String, reasoning_effort: Option<ReasoningEffort> },
    /// Go back to the settings where the choice began there; else show the providers.
    RestoreSettingsOrManager,
    /// Send a message into a queue.
    Submit { lane: QueuedInputLane, submission: TuiSubmission },
    /// Keep a message in the history, here and on disk.
    RecordHistory(String),
    ReadClipboardImage,
    /// Ask for the address of the session's page.
    SessionUrl,
    /// Open that page.
    OpenBrowser,
    /// Tell that the page has been opened.
    TellTrajectoryOpened,
    /// Answer a question, and ask the next one that waits.
    ResolvePermission { approval_id: String, approved: bool },
    /// Ask the run to stop, without waiting for it.
    Interrupt,
    ResumeSuspended,
    DiscardSuspended,
    /// Name the session after the latest input, and save it.
    SaveSession,
    /// Tell that the session has been saved.
    TellSessionSaved,
    /// Name the session after the latest input, and close it.
    CloseSession,
    WaitUntilClosed,
    SaveOnExit,
    Plan(PlanRequest),
}

pub enum CallView {
    CancelDiscovery,
    CheckAlias(Seq<char>),
    OpenManager,
    OpenManagerOrForm,
    OpenForm,
    LoadEditable(Seq<char>),
    OpenEditor,
    OpenModelPicker(Seq<char>),
    StartDiscovery(Seq<char>),
    DraftDiscovery { original_alias: Option<Seq<char>>, values: provider_form::ValuesView },
    ReadOpenForm,
    DraftOpenFormDiscovery,
    OpenFormModelPicker { display_name: Seq<char> },
    MarkLoading(Seq<char>),
    MarkDraftLoading,
    StartFormDiscovery,
    BackOverlay,
    ShowOverlayError(Seq<char>),
    DeriveAlias(Seq<char>),
    DeleteProvider(Seq<char>),
    DraftProvider { mode: ProviderDraftMode, values: provider_form::ValuesView },
    SaveProvider,
    UpdateProvider(Seq<char>),
    ReloadConfig,
    ReloadConfigIfAny,
    ChangePreferences(ChangeView),
    ApplyPreferences,
    StorePreferences,
    ShowPreferences,
    ShowLabels,
    OpenReasoningPicker { alias: Seq<char>, model: Seq<char>, target: ModelPickerTarget },
    SelectFormModel { model: Seq<char>, reasoning_effort: Option<Seq<char>> },
    RestoreSettingsOrManager,
    Submit { lane: QueuedInputLane, submission: TuiSubmission },
    RecordHistory(Seq<char>),
    ReadClipboardImage,
    SessionUrl,
    OpenBrowser,
    TellTrajectoryOpened,
    ResolvePermission { approval_id: Seq<char>, approved: bool },
    Interrupt,
    ResumeSuspended,
    DiscardSuspended,
    SaveSession,
    TellSessionSaved,
    CloseSession,
    WaitUntilClosed,
    SaveOnExit,
    Plan(plan_controller::PlanRequestView),
}

impl View for Call {
    type V = CallView;

    open spec fn view(&self) -> CallView {
        match self {
            Call::CancelDiscovery => CallView::CancelDiscovery,
            Call::CheckAlias(a) => CallView::CheckAlias(a@),
            Call::OpenManager => CallView::OpenManager,
            Call::OpenManagerOrForm => CallView::OpenManagerOrForm,
            Call::OpenForm => CallView::OpenForm,
            Call::LoadEditable(a) => CallView::LoadEditable(a@),
            Call::OpenEditor => CallView::OpenEditor,
            Call::OpenModelPicker(a) => CallView::OpenModelPicker(a@),
            Call::StartDiscovery(a) => CallView::StartDiscovery(a@),
            Call::DraftDiscovery { original_alias, values } => CallView::DraftDiscovery {
                original_alias: plan_model::opt(*original_alias),
                values: values@,
            },
            Call::ReadOpenForm => CallView::ReadOpenForm,
            Call::DraftOpenFormDiscovery => CallView::DraftOpenFormDiscovery,
            Call::OpenFormModelPicker { display_name } => CallView::OpenFormModelPicker {
                display_name: display_name@,
            },
            Call::MarkLoading(a) => CallView::MarkLoading(a@),
            Call::MarkDraftLoading => CallView::MarkDraftLoading,
            Call::StartFormDiscovery => CallView::StartFormDiscovery,
            Call::BackOverlay => CallView::BackOverlay,
            Call::ShowOverlayError(m) => CallView::ShowOverlayError(m@),
            Call::DeriveAlias(n) => CallView::DeriveAlias(n@),
            Call::DeleteProvider(a) => CallView::DeleteProvider(a@),
            Call::DraftProvider { mode, values } => CallView::DraftProvider {
                mode: *mode,
                values: values@,
            },
            Call::SaveProvider => CallView::SaveProvider,
            Call::UpdateProvider(a) => CallView::UpdateProvider(a@),
            Call::ReloadConfig => CallView::ReloadConfig,
            Call::ReloadConfigIfAny => CallView::ReloadConfigIfAny,
            Call::ChangePreferences(c) => CallView::ChangePreferences(c@),
            Call::ApplyPreferences => CallView::ApplyPreferences,
            Call::StorePreferences => CallView::StorePreferences,
            Call::ShowPreferences => CallView::ShowPreferences,
            Call::ShowLabels => CallView::ShowLabels,
            Call::OpenReasoningPicker { alias, model, target } => CallView::OpenReasoningPicker {
                alias: alias@,
                model: model@,
                target: *target,
            },
            Call::SelectFormModel { model, reasoning_effort } => CallView::SelectFormModel {
                model: model@,
                reasoning_effort: match reasoning_effort {
                    Some(e) => Some(e@),
                    None => None,
                },
            },
            Call::RestoreSettingsOrManager => CallView::RestoreSettingsOrManager,
            Call::Submit { lane, submission } => CallView::Submit {
                lane: *lane,
                submission: *submission,
            },
            Call::RecordHistory(t) => CallView::RecordHistory(t@),
            Call::ReadClipboardImage => CallView::ReadClipboardImage,
            Call::SessionUrl => CallView::SessionUrl,
            Call::OpenBrowser => CallView::OpenBrowser,
            Call::TellTrajectoryOpened => CallView::TellTrajectoryOpened,
            Call::TellSessionSaved => CallView::TellSessionSaved,
            Call::ResolvePermission { approval_id, approved } => CallView::ResolvePermission {
                approval_id: approval_id@,
                approved: *approved,
            },
            Call::Interrupt => CallView::Interrupt,
            Call::ResumeSuspended => CallView::ResumeSuspended,
            Call::DiscardSuspended => CallView::DiscardSuspended,
            Call::SaveSession => CallView::SaveSession,
            Call::CloseSession => CallView::CloseSession,
            Call::WaitUntilClosed => CallView::WaitUntilClosed,
            Call::SaveOnExit => CallView::SaveOnExit,
            Call::Plan(p) => CallView::Plan(p@),
        }
    }
}

/// What becomes of a step that fails.
#[derive(Debug, Clone, Copy, PartialEq, Eq)]
pub enum OnFailure {
    /// It is passed over.
    Ignore,
    /// The program ends with the error.
    Fatal,
    /// The program ends with this error.
    FatalWith(&'static str),
    /// The overlay shows the error, and the work ends.
    OverlayError,
    /// The overlay shows the error behind these words, and the work ends.
    OverlayErrorAfter(&'static str),
    /// The overlay shows these words, and the work ends.
    OverlayErrorInstead(&'static str),
    /// A provider that cannot be changed is told of in a dialog; else as `OverlayError`.
    ReadOnlyDialog,
    /// The work goes on; at its end the overlay shows the error behind these words.
    Remember(&'static str),
    /// A dialog with this title shows the error, and the work ends.
    ErrorDialog(&'static str),
    /// The conversation tells of the error under this title, and the work ends.
    Diagnostic(&'static str),
    /// The conversation tells these words under this title, and the work ends.
    DiagnosticInstead(&'static str, &'static str),
    /// The same, but only the first time.
    DiagnosticOnce(&'static str, &'static str),
    /// The conversation tells, under this title, of the error and of the address that could
    /// not be opened, and the work ends.
    DiagnosticWithAddress(&'static str),
}

pub enum FailureRule {
    Ignore,
    Fatal,
    FatalWith(Seq<char>),
    OverlayError,
    OverlayErrorAfter(Seq<char>),
    OverlayErrorInstead(Seq<char>),
    ReadOnlyDialog,
    Remember(Seq<char>),
    ErrorDialog(Seq<char>),
    Diagnostic(Seq<char>),
    DiagnosticInstead(Seq<char>, Seq<char>),
    DiagnosticOnce(Seq<char>, Seq<char>),
    DiagnosticWithAddress(Seq<char>),
}

impl View for OnFailure {
    type V = FailureRule;

    open spec fn view(&self) -> FailureRule {
        match self {
            OnFailure::Ignore => FailureRule::Ignore,
            OnFailure::Fatal => FailureRule::Fatal,
            OnFailure::FatalWith(s) => FailureRule::FatalWith(s@),
            OnFailure::OverlayError => FailureRule::OverlayError,
            OnFailure::OverlayErrorAfter(s) => FailureRule::OverlayErrorAfter(s@),
            OnFailure::OverlayErrorInstead(s) => FailureRule::OverlayErrorInstead(s@),
            OnFailure::ReadOnlyDialog => FailureRule::ReadOnlyDialog,
            OnFailure::Remember(s) => FailureRule::Remember(s@),
            OnFailure::ErrorDialog(s) => FailureRule::ErrorDialog(s@),
            OnFailure::Diagnostic(s) => FailureRule::Diagnostic(s@),
            OnFailure::DiagnosticInstead(s, t) => FailureRule::DiagnosticInstead(s@, t@),
            OnFailure::DiagnosticOnce(s, t) => FailureRule::DiagnosticOnce(s@, t@),
            OnFailure::DiagnosticWithAddress(s) => FailureRule::DiagnosticWithAddress(s@),
        }
    }
}

/// A step, and what becomes of it when it fails.
#[derive(PartialEq, Eq)]
pub struct Step {
    pub call: Call,
    pub on_failure: OnFailure,
}

pub struct StepView {
    pub call: CallView,
    pub on_failure: FailureRule,
}

impl View for Step {
    type V = StepView;

    open spec fn view(&self) -> StepView {
        StepView { call: self.call@, on_failure: self.on_failure@ }
    }
}

pub open spec fn step_views(v: Seq<Step>) -> Seq<StepView> {
    v.map_values(|s: Step| s@)
}

/// What a finished script leads to.
#[derive(Debug, Clone, Copy, PartialEq, Eq, Structural)]
pub enum Ending {
    /// The next event.
    Continue,
    /// The end of the program.
    Quit,
    /// The end of the setup, with the preferences as they are then.
    Configured,
}

/// Steps, one after the other.
#[derive(PartialEq, Eq)]
pub struct Script {
    pub steps: Vec<Step>,
    pub ending: Ending,
}

pub struct ScriptView {
    pub steps: Seq<StepView>,
    pub ending: Ending,
}

impl View for Script {
    type V = ScriptView;

    open spec fn view(&self) -> ScriptView {
        ScriptView { steps: step_views(self.steps@), ending: self.ending }
    }
}

/// A step that must not fail.
pub open spec fn sure(call: CallView) -> StepView {
    StepView { call, on_failure: FailureRule::Fatal }
}

pub open spec fn step(call: CallView, on_failure: FailureRule) -> StepView {
    StepView { call, on_failure }
}

pub open spec fn steps(s: Seq<StepView>) -> ScriptView {
    ScriptView { steps: s, ending: Ending::Continue }
}

impl Script {
    pub fn new() -> (r: Script)
        ensures
            r@ == steps(Seq::empty()),
    {
        let r = Script { steps: Vec::new(), ending: Ending::Continue };
        proof {
            assert(r@.steps =~= Seq::empty());
        }
        r
    }

    pub fn sure(self, call: Call) -> (r: Script)
        ensures
            r@ == (ScriptView { steps: self@.steps.push(sure(call@)), ..self@ }),
    {
        self.then_step(call, OnFailure::Fatal)
    }

    pub fn then_step(self, call: Call, on_failure: OnFailure) -> (r: Script)
        ensures
            r@ == (ScriptView {
                steps: self@.steps.push(step(call@, on_failure@)),
                ..self@
            }),
    {
        let ghost before = self.steps@;
        let mut steps = self.steps;
        let next = Step { call, on_failure };
        steps.push(next);
        proof {
            assert(step_views(steps@) =~= step_views(before).push(next@));
        }
        Script { steps, ending: self.ending }
    }

    pub fn ending(self, ending: Ending) -> (r: Script)
        ensures
            r@ == (ScriptView { ending, ..self@ }),
    {
        Script { steps: self.steps, ending }
    }
}

/// Why a step failed: the error as it is shown, and whether it is that a provider cannot be
/// changed.
#[derive(Debug, PartialEq, Eq)]
pub struct Failure {
    pub message: String,
    pub read_only: bool,
    /// The address that could not be opened.
    pub address: String,
}

/// What a failed step leads to.
#[derive(Debug, PartialEq, Eq)]
pub enum FailureOutcome {
    Fatal(String),
    OverlayError(String),
    InfoDialog { title: String, message: String },
    ErrorDialog { title: String, message: String },
    Tell(TimelineItem),
    /// Nothing more than the end of the work.
    Stop,
    /// The work goes on; this is shown at its end.
    GoOn(String),
}

pub enum FailureView {
    Fatal(Seq<char>),
    OverlayError(Seq<char>),
    InfoDialog { title: Seq<char>, message: Seq<char> },
    ErrorDialog { title: Seq<char>, message: Seq<char> },
    Tell(timeline::ItemView),
    Stop,
    GoOn(Seq<char>),
}

impl View for FailureOutcome {
    type V = FailureView;

    open spec fn view(&self) -> FailureView {
        match self {
            FailureOutcome::Fatal(s) => FailureView::Fatal(s@),
            FailureOutcome::OverlayError(s) => FailureView::OverlayError(s@),
            FailureOutcome::InfoDialog { title, message } => FailureView::InfoDialog {
                title: title@,
                message: message@,
            },
            FailureOutcome::ErrorDialog { title, message } => FailureView::ErrorDialog {
                title: title@,
                message: message@,
            },
            FailureOutcome::Tell(i) => FailureView::Tell(i@),
            FailureOutcome::Stop => FailureView::Stop,
            FailureOutcome::GoOn(s) => FailureView::GoOn(s@),
        }
    }
}

pub open spec fn diagnostic(title: Seq<char>, body: Seq<char>) -> FailureView {
    FailureView::Tell(timeline::ItemView::Diagnostic { title, body })
}

/// What a failed step leads to.
pub open spec fn after_failure(rule: FailureRule, failure: Failure, warned: bool) -> FailureView {
    match rule {
        FailureRule::Ignore => FailureView::Stop,
        FailureRule::Fatal => FailureView::Fatal(failure.message@),
        FailureRule::FatalWith(words) => FailureView::Fatal(words),
        FailureRule::OverlayError => FailureView::OverlayError(failure.message@),
        FailureRule::OverlayErrorAfter(words) => FailureView::OverlayError(
            words + failure.message@,
        ),
        FailureRule::OverlayErrorInstead(words) => FailureView::OverlayError(words),
        FailureRule::ReadOnlyDialog => if failure.read_only {
            FailureView::InfoDialog { title: "Read-only provider"@, message: failure.message@ }
        } else {
            FailureView::OverlayError(failure.message@)
        },
        FailureRule::Remember(words) => FailureView::GoOn(words + failure.message@),
        FailureRule::ErrorDialog(title) => FailureView::ErrorDialog {
            title,
            message: failure.message@,
        },
        FailureRule::Diagnostic(title) => diagnostic(title, failure.message@),
        FailureRule::DiagnosticInstead(title, words) => diagnostic(title, words),
        FailureRule::DiagnosticOnce(title, words) => if warned {
            FailureView::Stop
        } else {
            diagnostic(title, words)
        },
        FailureRule::DiagnosticWithAddress(title) => diagnostic(
            title,
            failure.message@ + ". Open this URL manually: "@ + failure.address@,
        ),
    }
}

fn tell(title: &str, body: &str) -> (r: FailureOutcome)
    ensures
        r@ == diagnostic(title@, body@),
{
    FailureOutcome::Tell(TimelineItem::diagnostic(title, body))
}

/// Decides what a failed step leads to. `warned` says whether the user has been told
/// before, and is set where they are told now.
pub fn fail(rule: OnFailure, failure: Failure, warned: &mut bool) -> (r: FailureOutcome)
    ensures
        r@ == after_failure(rule@, failure, *old(warned)),
        *final(warned) == (*old(warned) || rule@ is DiagnosticOnce),
{
    match rule {
        OnFailure::Ignore => FailureOutcome::Stop,
        OnFailure::Fatal => FailureOutcome::Fatal(failure.message),
        OnFailure::FatalWith(words) => FailureOutcome::Fatal(words.to_owned()),
        OnFailure::OverlayError => FailureOutcome::OverlayError(failure.message),
        OnFailure::OverlayErrorAfter(words) => FailureOutcome::OverlayError(
            text::cat2(words, failure.message.as_str()),
        ),
        OnFailure::OverlayErrorInstead(words) => FailureOutcome::OverlayError(words.to_owned()),
        OnFailure::ReadOnlyDialog => if failure.read_only {
            FailureOutcome::InfoDialog {
                title: "Read-only provider".to_owned(),
                message: failure.message,
            }
        } else {
            FailureOutcome::OverlayError(failure.message)
        },
        OnFailure::Remember(words) => FailureOutcome::GoOn(
            text::cat2(words, failure.message.as_str()),
        ),
        OnFailure::ErrorDialog(title) => FailureOutcome::ErrorDialog {
            title: title.to_owned(),
            message: failure.message,
        },
        OnFailure::Diagnostic(title) => tell(title, failure.message.as_str()),
        OnFailure::DiagnosticInstead(title, words) => tell(title, words),
        OnFailure::DiagnosticOnce(title, words) => {
            if *warned {
                FailureOutcome::Stop
            } else {
                *warned = true;
                tell(title, words)
            }
        },
        OnFailure::DiagnosticWithAddress(title) => tell(
            title,
            text::cat3(
                failure.message.as_str(),
                ". Open this URL manually: ",
                failure.address.as_str(),
            ).as_str(),
        ),
    }
}

/// A failure is never passed over in silence where nothing says so, but for one that has
/// been told of before: the user sees it now or at the end of the work, or the program ends
/// with it.
pub proof fn failures_are_told(rule: FailureRule, failure: Failure)
    requires
        !(rule is Ignore),
    ensures
        !(after_failure(rule, failure, false) is Stop),
        after_failure(rule, failure, true) is Stop ==> rule is DiagnosticOnce,
{
}

/// Where a failure is told of, what is told holds the words of the rule and the message of the
/// failure, as the rule asks for; the program ends only where the rule says that it must.
pub proof fn failures_are_told_in_their_words(
    rule: FailureRule,
    failure: Failure,
    warned: bool,
)
    ensures
        after_failure(rule, failure, warned) is Fatal <==> rule is Fatal || rule is FatalWith,
        rule is Fatal ==> after_failure(rule, failure, warned) == FailureView::Fatal(
            failure.message@,
        ),
        rule matches FailureRule::OverlayErrorAfter(words) ==> (after_failure(
            rule,
            failure,
            warned,
        ) matches FailureView::OverlayError(told) && words.is_prefix_of(told) && told.skip(
            words.len() as int,
        ) == failure.message@),
        rule is OverlayError ==> after_failure(rule, failure, warned) == FailureView::OverlayError(
            failure.message@,
        ),
        rule is Remember <==> after_failure(rule, failure, warned) is GoOn,
        rule is ReadOnlyDialog ==> (after_failure(rule, failure, warned) is InfoDialog
            <==> failure.read_only),
        rule matches FailureRule::ErrorDialog(title) ==> after_failure(rule, failure, warned)
            == (FailureView::ErrorDialog { title, message: failure.message@ }),
        rule matches FailureRule::DiagnosticOnce(title, words) ==> (warned <==> after_failure(
            rule,
            failure,
            warned,
        ) is Stop),
        rule is Ignore ==> after_failure(rule, failure, warned) is Stop,
{
    match rule {
        FailureRule::OverlayErrorAfter(words) => {
            let told = words + failure.message@;
            assert(words =~= told.subrange(0, words.len() as int));
            assert(told.skip(words.len() as int) =~= failure.message@);
        },
        _ => {},
    }
}

} // verus!
