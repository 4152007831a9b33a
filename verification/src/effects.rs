//! What a key press leads to: changes of the state that others hold, and work to be done.
use crate::command_details;
use crate::command_details::CommandDetails;
use crate::input::TuiSubmission;
use crate::key::KeyEvent;
use crate::overlay::{SettingDirection, SettingItem};
use crate::plan_approval::PlanApprovalInput;
use crate::plan_model;
use crate::provider_form;
use crate::provider_form::ProviderFormValues;
use crate::provider_overlay::{ModelPickerTarget, ReasoningEffort};
use crate::timeline;
use crate::timeline::{QueuedInputLane, TimelineItem};
use vstd::prelude::*;

verus! {

/// Work that a key press leads to.
#[derive(PartialEq, Eq)]
pub enum ControllerEffect {
    Nothing,
    SubmitNext(TuiSubmission),
    SubmitBacklog(TuiSubmission),
    PasteImage,
    CopyText(String),
    CopyTextTooLarge,
    LoadCommandOutput(String),
    Interrupt,
    ResumeSuspended,
    DiscardSuspended,
    /// Store the preferences as they are now.
    PersistPreferences,
    /// Use the preferences as they are now, and store them.
    ApplyRuntimePreferences,
    OpenSessionInBrowser,
    OpenProviderManager,
    OpenProviderForm,
    OpenProviderEditor(String),
    OpenModelPicker(String),
    BackToProviderForm,
    DeriveAlias(String),
    DiscoverFormModels { original_alias: Option<String>, values: ProviderFormValues },
    SaveProvider(ProviderFormValues),
    UpdateProvider { original_alias: String, values: ProviderFormValues },
    RefreshModels(String),
    RefreshFormModels,
    DeleteProvider(String),
    SelectProvider { alias: String },
    OpenReasoningPicker { alias: String, model: String, target: ModelPickerTarget },
    ApplyProviderModel {
        alias: String,
        model: String,
        reasoning_effort: ReasoningEffort,
        target: ModelPickerTarget,
    },
    EnterPlanMode,
    ApprovePlan(PlanApprovalInput),
    ApprovePermission(String),
    DenyPermission(String),
    RevisePlan,
    PausePlan,
    ResumePlan,
    RetryPlanNode(String),
    CancelPlan,
    SaveSession,
    Quit,
}

/// Work that a key press leads to, as mathematical values.
pub enum EffectView {
    Nothing,
    SubmitNext(TuiSubmission),
    SubmitBacklog(TuiSubmission),
    PasteImage,
    CopyText(Seq<char>),
    CopyTextTooLarge,
    LoadCommandOutput(Seq<char>),
    Interrupt,
    ResumeSuspended,
    DiscardSuspended,
    PersistPreferences,
    ApplyRuntimePreferences,
    OpenSessionInBrowser,
    OpenProviderManager,
    OpenProviderForm,
    OpenProviderEditor(Seq<char>),
    OpenModelPicker(Seq<char>),
    BackToProviderForm,
    DeriveAlias(Seq<char>),
    DiscoverFormModels { original_alias: Option<Seq<char>>, values: provider_form::ValuesView },
    SaveProvider(provider_form::ValuesView),
    UpdateProvider { original_alias: Seq<char>, values: provider_form::ValuesView },
    RefreshModels(Seq<char>),
    RefreshFormModels,
    DeleteProvider(Seq<char>),
    SelectProvider { alias: Seq<char> },
    OpenReasoningPicker { alias: Seq<char>, model: Seq<char>, target: ModelPickerTarget },
    ApplyProviderModel {
        alias: Seq<char>,
        model: Seq<char>,
        reasoning_effort: Seq<char>,
        target: ModelPickerTarget,
    },
    EnterPlanMode,
    ApprovePlan(PlanApprovalInput),
    ApprovePermission(Seq<char>),
    DenyPermission(Seq<char>),
    RevisePlan,
    PausePlan,
    ResumePlan,
    RetryPlanNode(Seq<char>),
    CancelPlan,
    SaveSession,
    Quit,
}

impl View for ControllerEffect {
    type V = EffectView;

    open spec fn view(&self) -> EffectView {
        match self {
            ControllerEffect::Nothing => EffectView::Nothing,
            ControllerEffect::SubmitNext(s) => EffectView::SubmitNext(*s),
            ControllerEffect::SubmitBacklog(s) => EffectView::SubmitBacklog(*s),
            ControllerEffect::PasteImage => EffectView::PasteImage,
            ControllerEffect::CopyText(t) => EffectView::CopyText(t@),
            ControllerEffect::CopyTextTooLarge => EffectView::CopyTextTooLarge,
            ControllerEffect::LoadCommandOutput(a) => EffectView::LoadCommandOutput(a@),
            ControllerEffect::Interrupt => EffectView::Interrupt,
            ControllerEffect::ResumeSuspended => EffectView::ResumeSuspended,
            ControllerEffect::DiscardSuspended => EffectView::DiscardSuspended,
            ControllerEffect::PersistPreferences => EffectView::PersistPreferences,
            ControllerEffect::ApplyRuntimePreferences => EffectView::ApplyRuntimePreferences,
            ControllerEffect::OpenSessionInBrowser => EffectView::OpenSessionInBrowser,
            ControllerEffect::OpenProviderManager => EffectView::OpenProviderManager,
            ControllerEffect::OpenProviderForm => EffectView::OpenProviderForm,
            ControllerEffect::OpenProviderEditor(a) => EffectView::OpenProviderEditor(a@),
            ControllerEffect::OpenModelPicker(a) => EffectView::OpenModelPicker(a@),
            ControllerEffect::BackToProviderForm => EffectView::BackToProviderForm,
            ControllerEffect::DeriveAlias(a) => EffectView::DeriveAlias(a@),
            ControllerEffect::DiscoverFormModels { original_alias, values } =>
                EffectView::DiscoverFormModels {
                original_alias: plan_model::opt(*original_alias),
                values: values@,
            },
            ControllerEffect::SaveProvider(v) => EffectView::SaveProvider(v@),
            ControllerEffect::UpdateProvider { original_alias, values } =>
                EffectView::UpdateProvider { original_alias: original_alias@, values: values@ },
            ControllerEffect::RefreshModels(a) => EffectView::RefreshModels(a@),
            ControllerEffect::RefreshFormModels => EffectView::RefreshFormModels,
            ControllerEffect::DeleteProvider(a) => EffectView::DeleteProvider(a@),
            ControllerEffect::SelectProvider { alias } => EffectView::SelectProvider {
                alias: alias@,
            },
            ControllerEffect::OpenReasoningPicker { alias, model, target } =>
                EffectView::OpenReasoningPicker { alias: alias@, model: model@, target: *target },
            ControllerEffect::ApplyProviderModel { alias, model, reasoning_effort, target } =>
                EffectView::ApplyProviderModel {
                alias: alias@,
                model: model@,
                reasoning_effort: reasoning_effort@,
                target: *target,
            },
            ControllerEffect::EnterPlanMode => EffectView::EnterPlanMode,
            ControllerEffect::ApprovePlan(i) => EffectView::ApprovePlan(*i),
            ControllerEffect::ApprovePermission(a) => EffectView::ApprovePermission(a@),
            ControllerEffect::DenyPermission(a) => EffectView::DenyPermission(a@),
            ControllerEffect::RevisePlan => EffectView::RevisePlan,
            ControllerEffect::PausePlan => EffectView::PausePlan,
            ControllerEffect::ResumePlan => EffectView::ResumePlan,
            ControllerEffect::RetryPlanNode(n) => EffectView::RetryPlanNode(n@),
            ControllerEffect::CancelPlan => EffectView::CancelPlan,
            ControllerEffect::SaveSession => EffectView::SaveSession,
            ControllerEffect::Quit => EffectView::Quit,
        }
    }
}

/// A change of what the rest of the screen holds: the conversation's place, the overlays
/// behind the one on top, and the input with its history.
#[derive(Debug, PartialEq, Eq)]
pub enum StateRequest {
    ClearTextSelection,
    CloseOverlay,
    BackOverlay,
    OpenSettings,
    OpenShortcuts,
    OpenCommandPalette,
    OpenPlanApproval,
    ShowErrorDialog { title: String, message: String },
    ShowInfoDialog { title: String, message: String },
    OpenCommandDetails(CommandDetails),
    BeginModelEdit,
    BeginReasoningEdit,
    BeginContextWindowEdit,
    PushTimelineItem(TimelineItem),
    /// Tell how the session stands.
    PushSessionStatus,
    SetInterrupting,
    ClearInput,
    InsertInputNewline,
    InputKey(KeyEvent),
    InputPaste(String),
    AcceptCompletion,
    CloseCompletionMenu,
    FollowLatest,
    /// Leave the review of the conversation, if there is one.
    ExitTimelineReview,
    JumpToPreviousUserInput,
    PreviousInputHistory,
    NextInputHistory,
    ScrollTimelineUp(usize),
    ScrollTimelineDown(usize),
    EchoUserInput { text: String, lane: QueuedInputLane },
    ProjectRunStart,
    BeginStopFeedback,
    RepeatStopFeedback,
}

pub enum RequestView {
    ClearTextSelection,
    CloseOverlay,
    BackOverlay,
    OpenSettings,
    OpenShortcuts,
    OpenCommandPalette,
    OpenPlanApproval,
    ShowErrorDialog { title: Seq<char>, message: Seq<char> },
    ShowInfoDialog { title: Seq<char>, message: Seq<char> },
    OpenCommandDetails(command_details::DetailsView),
    BeginModelEdit,
    BeginReasoningEdit,
    BeginContextWindowEdit,
    PushTimelineItem(timeline::ItemView),
    PushSessionStatus,
    SetInterrupting,
    ClearInput,
    InsertInputNewline,
    InputKey(KeyEvent),
    InputPaste(Seq<char>),
    AcceptCompletion,
    CloseCompletionMenu,
    FollowLatest,
    ExitTimelineReview,
    JumpToPreviousUserInput,
    PreviousInputHistory,
    NextInputHistory,
    ScrollTimelineUp(usize),
    ScrollTimelineDown(usize),
    EchoUserInput { text: Seq<char>, lane: QueuedInputLane },
    ProjectRunStart,
    BeginStopFeedback,
    RepeatStopFeedback,
}

impl View for StateRequest {
    type V = RequestView;

    open spec fn view(&self) -> RequestView {
        match self {
            StateRequest::ClearTextSelection => RequestView::ClearTextSelection,
            StateRequest::CloseOverlay => RequestView::CloseOverlay,
            StateRequest::BackOverlay => RequestView::BackOverlay,
            StateRequest::OpenSettings => RequestView::OpenSettings,
            StateRequest::OpenShortcuts => RequestView::OpenShortcuts,
            StateRequest::OpenCommandPalette => RequestView::OpenCommandPalette,
            StateRequest::OpenPlanApproval => RequestView::OpenPlanApproval,
            StateRequest::ShowErrorDialog { title, message } => RequestView::ShowErrorDialog {
                title: title@,
                message: message@,
            },
            StateRequest::ShowInfoDialog { title, message } => RequestView::ShowInfoDialog {
                title: title@,
                message: message@,
            },
            StateRequest::OpenCommandDetails(d) => RequestView::OpenCommandDetails(d@),
            StateRequest::BeginModelEdit => RequestView::BeginModelEdit,
            StateRequest::BeginReasoningEdit => RequestView::BeginReasoningEdit,
            StateRequest::BeginContextWindowEdit => RequestView::BeginContextWindowEdit,
            StateRequest::PushTimelineItem(i) => RequestView::PushTimelineItem(i@),
            StateRequest::PushSessionStatus => RequestView::PushSessionStatus,
            StateRequest::SetInterrupting => RequestView::SetInterrupting,
            StateRequest::ClearInput => RequestView::ClearInput,
            StateRequest::InsertInputNewline => RequestView::InsertInputNewline,
            StateRequest::InputKey(k) => RequestView::InputKey(*k),
            StateRequest::InputPaste(t) => RequestView::InputPaste(t@),
            StateRequest::AcceptCompletion => RequestView::AcceptCompletion,
            StateRequest::CloseCompletionMenu => RequestView::CloseCompletionMenu,
            StateRequest::FollowLatest => RequestView::FollowLatest,
            StateRequest::ExitTimelineReview => RequestView::ExitTimelineReview,
            StateRequest::JumpToPreviousUserInput => RequestView::JumpToPreviousUserInput,
            StateRequest::PreviousInputHistory => RequestView::PreviousInputHistory,
            StateRequest::NextInputHistory => RequestView::NextInputHistory,
            StateRequest::ScrollTimelineUp(n) => RequestView::ScrollTimelineUp(*n),
            StateRequest::ScrollTimelineDown(n) => RequestView::ScrollTimelineDown(*n),
            StateRequest::EchoUserInput { text, lane } => RequestView::EchoUserInput {
                text: text@,
                lane: *lane,
            },
            StateRequest::ProjectRunStart => RequestView::ProjectRunStart,
            StateRequest::BeginStopFeedback => RequestView::BeginStopFeedback,
            StateRequest::RepeatStopFeedback => RequestView::RepeatStopFeedback,
        }
    }
}

pub open spec fn request_views(v: Seq<StateRequest>) -> Seq<RequestView> {
    v.map_values(|r: StateRequest| r@)
}

/// Something that the rest of the screen does and whose result decides what follows.
#[derive(Debug, PartialEq, Eq)]
pub enum StateQuestion {
    AdjustSetting(SettingItem, SettingDirection),
    ResetSetting(SettingItem),
    CommitModel(String),
    CommitReasoning(String),
    CommitContextWindow(String),
    /// Clear the input; where it is empty already, leave.
    CancelInputOrQuit,
    /// Take the input for a message.
    TakeInput(QueuedInputLane),
    /// Accept a completed slash command.
    AcceptSlashCompletion,
}

pub enum QuestionView {
    AdjustSetting(SettingItem, SettingDirection),
    ResetSetting(SettingItem),
    CommitModel(Seq<char>),
    CommitReasoning(Seq<char>),
    CommitContextWindow(Seq<char>),
    CancelInputOrQuit,
    TakeInput(QueuedInputLane),
    AcceptSlashCompletion,
}

impl View for StateQuestion {
    type V = QuestionView;

    open spec fn view(&self) -> QuestionView {
        match self {
            StateQuestion::AdjustSetting(i, d) => QuestionView::AdjustSetting(*i, *d),
            StateQuestion::ResetSetting(i) => QuestionView::ResetSetting(*i),
            StateQuestion::CommitModel(s) => QuestionView::CommitModel(s@),
            StateQuestion::CommitReasoning(s) => QuestionView::CommitReasoning(s@),
            StateQuestion::CommitContextWindow(s) => QuestionView::CommitContextWindow(s@),
            StateQuestion::CancelInputOrQuit => QuestionView::CancelInputOrQuit,
            StateQuestion::TakeInput(l) => QuestionView::TakeInput(*l),
            StateQuestion::AcceptSlashCompletion => QuestionView::AcceptSlashCompletion,
        }
    }
}

/// What follows the requests.
#[derive(PartialEq, Eq)]
pub enum NextStep {
    Effect(ControllerEffect),
    Ask(StateQuestion),
}

pub enum StepView {
    Effect(EffectView),
    Ask(QuestionView),
}

/// What a key press leads to: requests, one after the other, and what follows.
#[derive(PartialEq, Eq)]
pub struct Outcome {
    pub requests: Vec<StateRequest>,
    pub next: NextStep,
}

pub struct OutcomeView {
    pub requests: Seq<RequestView>,
    pub next: StepView,
}

impl View for Outcome {
    type V = OutcomeView;

    open spec fn view(&self) -> OutcomeView {
        OutcomeView {
            requests: request_views(self.requests@),
            next: match self.next {
                NextStep::Effect(e) => StepView::Effect(e@),
                NextStep::Ask(q) => StepView::Ask(q@),
            },
        }
    }
}

/// Requests, and the work that follows.
pub open spec fn outcome(requests: Seq<RequestView>, effect: EffectView) -> OutcomeView {
    OutcomeView { requests, next: StepView::Effect(effect) }
}

/// A question, and nothing before it.
pub open spec fn asking(question: QuestionView) -> OutcomeView {
    OutcomeView { requests: Seq::empty(), next: StepView::Ask(question) }
}

/// An outcome with one more request behind the others.
pub open spec fn and_request(o: OutcomeView, request: RequestView) -> OutcomeView {
    OutcomeView { requests: o.requests.push(request), ..o }
}

impl Outcome {
    pub fn nothing() -> (r: Outcome)
        ensures
            r@ == outcome(Seq::empty(), EffectView::Nothing),
    {
        Outcome::effect(ControllerEffect::Nothing)
    }

    pub fn effect(effect: ControllerEffect) -> (r: Outcome)
        ensures
            r@ == outcome(Seq::empty(), effect@),
    {
        let r = Outcome { requests: Vec::new(), next: NextStep::Effect(effect) };
        proof {
            assert(r@.requests =~= Seq::empty());
        }
        r
    }

    pub fn ask(question: StateQuestion) -> (r: Outcome)
        ensures
            r@ == asking(question@),
    {
        let r = Outcome { requests: Vec::new(), next: NextStep::Ask(question) };
        proof {
            assert(r@.requests =~= Seq::empty());
        }
        r
    }

    /// One request, and the work that follows.
    pub fn request(request: StateRequest, effect: ControllerEffect) -> (r: Outcome)
        ensures
            r@ == outcome(seq![request@], effect@),
    {
        let r = Outcome { requests: vec![request], next: NextStep::Effect(effect) };
        proof {
            assert(r@.requests =~= seq![request@]);
        }
        r
    }

    /// Two requests, and the work that follows.
    pub fn requests(a: StateRequest, b: StateRequest, effect: ControllerEffect) -> (r: Outcome)
        ensures
            r@ == outcome(seq![a@, b@], effect@),
    {
        let r = Outcome { requests: vec![a, b], next: NextStep::Effect(effect) };
        proof {
            assert(r@.requests =~= seq![a@, b@]);
        }
        r
    }

    /// One more request behind the others.
    pub fn then_request(self, request: StateRequest) -> (r: Outcome)
        ensures
            r@ == and_request(self@, request@),
    {
        let ghost before = self.requests@;
        let mut requests = self.requests;
        requests.push(request);
        let r = Outcome { requests, next: self.next };
        proof {
            assert(request_views(r.requests@) =~= request_views(before).push(request@));
        }
        r
    }
}

} // verus!
