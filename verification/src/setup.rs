//! The setup before a first run: a provider and a model have to be chosen.
use crate::dispatch;
use crate::key::{KeyCode, KeyEvent};
use crate::overlay;
use crate::overlay::{InputVerdicts, Overlay, OverlayKeyResult};
use crate::plan_model;
use crate::ordered::TextSet;
use crate::provider_form;
use crate::provider_form::{ProviderDraftMode, ProviderFormOverlay};
use crate::provider_overlay;
use crate::provider_overlay::{
    ModelPickerTarget, ProviderListItem, ProviderManagerOverlay, ProviderOverlayAction,
};
use crate::script;
use crate::script::{Call, Ending, OnFailure, PreferenceChange, Script};
use vstd::prelude::*;

verus! {

/// What a key leads to during the setup.
#[derive(PartialEq, Eq)]
pub enum SetupStep {
    /// The setup ends, and nothing is configured.
    Leave,
    /// The overlay before this one comes back.
    BackOverlay,
    Run(Script),
}

pub enum SetupView {
    Leave,
    BackOverlay,
    Run(script::ScriptView),
}

impl View for SetupStep {
    type V = SetupView;

    open spec fn view(&self) -> SetupView {
        match self {
            SetupStep::Leave => SetupView::Leave,
            SetupStep::BackOverlay => SetupView::BackOverlay,
            SetupStep::Run(s) => SetupView::Run(s@),
        }
    }
}

/// How the setup begins: with the providers there are, or with the form for a first one.
pub fn setup_start() -> (r: Script)
    ensures
        r@ == script::steps(seq![script::sure(script::CallView::OpenManagerOrForm)]),
{
    let r = Script::new().sure(Call::OpenManagerOrForm);
    proof {
        assert(r@.steps =~= seq![script::sure(script::CallView::OpenManagerOrForm)]);
    }
    r
}

/// The overlay of the providers there are, or of the form for a first one, under this alias.
pub open spec fn manager_or_form(
    providers: Seq<provider_overlay::ProviderView>,
    current_alias: Option<Seq<char>>,
    fresh_alias: Seq<char>,
) -> overlay::OverlayView {
    if providers.len() == 0 {
        overlay::OverlayView::ProviderForm(provider_form::new_form(fresh_alias, Seq::empty()))
    } else {
        overlay::OverlayView::ProviderManager(
            provider_overlay::ManagerView {
                items: providers,
                selected: provider_overlay::provider_position(providers, current_alias, 0),
                current_alias,
                notice: None,
                pending_delete_alias: None,
            },
        )
    }
}

pub fn open_manager_or_form(
    providers: Vec<ProviderListItem>,
    current_alias: Option<&str>,
    fresh_alias: String,
) -> (r: Overlay)
    ensures
        r@ == manager_or_form(
            provider_overlay::provider_views(providers@),
            provider_overlay::opt_str(current_alias),
            fresh_alias@,
        ),
        r@.well_formed(),
{
    proof {
        assert(provider_overlay::provider_views(providers@).len() == providers@.len());
    }
    if providers.len() == 0 {
        Overlay::ProviderForm(ProviderFormOverlay::new(fresh_alias, TextSet::default()))
    } else {
        Overlay::ProviderManager(ProviderManagerOverlay::new(providers, current_alias))
    }
}

/// The steps that an overlay's wish takes during the setup. A choice of an effort, or of a
/// provider without a model, changes nothing here.
pub open spec fn setup_steps(action: provider_overlay::ActionView) -> script::ScriptView {
    let cancel = script::sure(script::CallView::CancelDiscovery);
    let manager = script::sure(script::CallView::OpenManagerOrForm);
    let store = script::sure(script::CallView::StorePreferences);
    match action {
        provider_overlay::ActionView::OpenProviderManager => script::steps(seq![cancel, manager]),
        provider_overlay::ActionView::OpenProviderForm => script::steps(
            seq![cancel, script::sure(script::CallView::OpenForm)],
        ),
        provider_overlay::ActionView::OpenProviderEditor(alias) => script::steps(
            seq![
                cancel,
                dispatch::fatal_check(alias),
                script::step(
                    script::CallView::LoadEditable(alias),
                    script::FailureRule::ReadOnlyDialog,
                ),
                script::sure(script::CallView::OpenEditor),
            ],
        ),
        provider_overlay::ActionView::OpenModelPicker(alias) => picker_steps(alias),
        provider_overlay::ActionView::RefreshModels(alias) => picker_steps(alias),
        provider_overlay::ActionView::BackToProviderForm => script::steps(
            seq![cancel, script::sure(script::CallView::BackOverlay)],
        ),
        provider_overlay::ActionView::DeriveAlias(name) => script::steps(
            seq![script::step(script::CallView::DeriveAlias(name), script::FailureRule::Ignore)],
        ),
        provider_overlay::ActionView::DiscoverFormModels { original_alias, values } =>
            script::steps(
            seq![
                cancel,
                script::step(
                    script::CallView::DraftDiscovery { original_alias, values },
                    script::FailureRule::OverlayError,
                ),
                script::step(
                    script::CallView::OpenFormModelPicker { display_name: values.display_name },
                    script::FailureRule::OverlayErrorInstead(dispatch::form_gone()),
                ),
                script::sure(script::CallView::StartFormDiscovery),
            ],
        ),
        provider_overlay::ActionView::RefreshFormModels => script::steps(
            seq![
                script::step(
                    script::CallView::ReadOpenForm,
                    script::FailureRule::OverlayErrorInstead(dispatch::form_gone()),
                ),
                script::step(
                    script::CallView::DraftOpenFormDiscovery,
                    script::FailureRule::OverlayError,
                ),
                script::sure(script::CallView::MarkDraftLoading),
                script::sure(script::CallView::StartFormDiscovery),
            ],
        ),
        provider_overlay::ActionView::DeleteProvider(alias) => script::steps(
            seq![
                dispatch::fatal_check(alias),
                script::step(
                    script::CallView::DeleteProvider(alias),
                    script::FailureRule::OverlayError,
                ),
                dispatch::change(script::ChangeView::ForgetModel(alias)),
                manager,
            ],
        ),
        provider_overlay::ActionView::SaveProvider(values) => script::ScriptView {
            steps: seq![
                script::step(
                    script::CallView::DraftProvider { mode: ProviderDraftMode::Create, values },
                    script::FailureRule::OverlayError,
                ),
                script::step(script::CallView::SaveProvider, script::FailureRule::OverlayError),
                dispatch::change(script::ChangeView::UseSavedProviderModel),
                store,
            ],
            ending: Ending::Configured,
        },
        provider_overlay::ActionView::UpdateProvider { original_alias, values } => script::steps(
            seq![
                dispatch::fatal_check(original_alias),
                script::step(
                    script::CallView::DraftProvider { mode: ProviderDraftMode::Update, values },
                    script::FailureRule::OverlayError,
                ),
                script::step(
                    script::CallView::UpdateProvider(original_alias),
                    script::FailureRule::OverlayError,
                ),
                dispatch::change(script::ChangeView::RememberSavedModel),
                store,
                manager,
            ],
        ),
        provider_overlay::ActionView::SelectModel { alias, model, target } => match target {
            ModelPickerTarget::ActiveProvider => script::ScriptView {
                steps: seq![
                    dispatch::fatal_check(alias),
                    dispatch::change(script::ChangeView::UseModel { alias, model }),
                    store,
                    cancel,
                ],
                ending: Ending::Configured,
            },
            ModelPickerTarget::ProviderForm => script::steps(
                seq![
                    cancel,
                    script::step(
                        script::CallView::SelectFormModel { model, reasoning_effort: None },
                        script::FailureRule::OverlayErrorInstead(
                            "provider form is no longer available for the selected model"@,
                        ),
                    ),
                ],
            ),
        },
        _ => script::steps(Seq::empty()),
    }
}

/// Showing the models of a provider: those that are known, and the search for the others.
pub open spec fn picker_steps(alias: Seq<char>) -> script::ScriptView {
    script::steps(
        seq![
            dispatch::fatal_check(alias),
            script::sure(script::CallView::OpenModelPicker(alias)),
            script::sure(script::CallView::StartDiscovery(alias)),
        ],
    )
}

fn picker_script(alias: String) -> (r: Script)
    ensures
        r@ == picker_steps(alias@),
{
    let r = Script::new().sure(Call::CheckAlias(alias.clone())).sure(
        Call::OpenModelPicker(alias.clone()),
    ).sure(Call::StartDiscovery(alias));
    proof {
        assert(r@.steps =~= picker_steps(alias@).steps);
    }
    r
}

/// The steps that an overlay's wish takes during the setup.
#[verifier::rlimit(40)]
pub fn setup_script(action: ProviderOverlayAction) -> (r: Script)
    ensures
        r@ == setup_steps(action@),
{
    let ghost expected = setup_steps(action@);
    let r = match action {
        ProviderOverlayAction::OpenProviderManager => Script::new().sure(
            Call::CancelDiscovery,
        ).sure(Call::OpenManagerOrForm),
        ProviderOverlayAction::OpenProviderForm => Script::new().sure(Call::CancelDiscovery).sure(
            Call::OpenForm,
        ),
        ProviderOverlayAction::OpenProviderEditor(alias) => Script::new().sure(
            Call::CancelDiscovery,
        ).sure(Call::CheckAlias(alias.clone())).then_step(
            Call::LoadEditable(alias),
            OnFailure::ReadOnlyDialog,
        ).sure(Call::OpenEditor),
        ProviderOverlayAction::OpenModelPicker(alias) => picker_script(alias),
        ProviderOverlayAction::RefreshModels(alias) => picker_script(alias),
        ProviderOverlayAction::BackToProviderForm => Script::new().sure(
            Call::CancelDiscovery,
        ).sure(Call::BackOverlay),
        ProviderOverlayAction::DeriveAlias(name) => Script::new().then_step(
            Call::DeriveAlias(name),
            OnFailure::Ignore,
        ),
        ProviderOverlayAction::DiscoverFormModels { original_alias, values } => {
            let display_name = values.display_name.clone();
            Script::new().sure(Call::CancelDiscovery).then_step(
                Call::DraftDiscovery { original_alias, values },
                OnFailure::OverlayError,
            ).then_step(
                Call::OpenFormModelPicker { display_name },
                OnFailure::OverlayErrorInstead(
                    "provider form is no longer available for model discovery",
                ),
            ).sure(Call::StartFormDiscovery)
        },
        ProviderOverlayAction::RefreshFormModels => Script::new().then_step(
            Call::ReadOpenForm,
            OnFailure::OverlayErrorInstead(
                "provider form is no longer available for model discovery",
            ),
        ).then_step(Call::DraftOpenFormDiscovery, OnFailure::OverlayError).sure(
            Call::MarkDraftLoading,
        ).sure(Call::StartFormDiscovery),
        ProviderOverlayAction::DeleteProvider(alias) => Script::new().sure(
            Call::CheckAlias(alias.clone()),
        ).then_step(Call::DeleteProvider(alias.clone()), OnFailure::OverlayError).sure(
            Call::ChangePreferences(PreferenceChange::ForgetModel(alias)),
        ).sure(Call::OpenManagerOrForm),
        ProviderOverlayAction::SaveProvider(values) => Script::new().then_step(
            Call::DraftProvider { mode: ProviderDraftMode::Create, values },
            OnFailure::OverlayError,
        ).then_step(Call::SaveProvider, OnFailure::OverlayError).sure(
            Call::ChangePreferences(PreferenceChange::UseSavedProviderModel),
        ).sure(Call::StorePreferences).ending(Ending::Configured),
        ProviderOverlayAction::UpdateProvider { original_alias, values } => Script::new().sure(
            Call::CheckAlias(original_alias.clone()),
        ).then_step(
            Call::DraftProvider { mode: ProviderDraftMode::Update, values },
            OnFailure::OverlayError,
        ).then_step(Call::UpdateProvider(original_alias), OnFailure::OverlayError).sure(
            Call::ChangePreferences(PreferenceChange::RememberSavedModel),
        ).sure(Call::StorePreferences).sure(Call::OpenManagerOrForm),
        ProviderOverlayAction::SelectModel { alias, model, target } => match target {
            ModelPickerTarget::ActiveProvider => Script::new().sure(
                Call::CheckAlias(alias.clone()),
            ).sure(Call::ChangePreferences(PreferenceChange::UseModel { alias, model })).sure(
                Call::StorePreferences,
            ).sure(Call::CancelDiscovery).ending(Ending::Configured),
            ModelPickerTarget::ProviderForm => Script::new().sure(Call::CancelDiscovery).then_step(
                Call::SelectFormModel { model, reasoning_effort: None },
                OnFailure::OverlayErrorInstead(
                    "provider form is no longer available for the selected model",
                ),
            ),
        },
        _ => Script::new(),
    };
    proof {
        assert(r@.steps =~= expected.steps);
    }
    r
}

pub open spec fn leaves(key: KeyEvent) -> bool {
    key.code == KeyCode::Char('q') && key.modifiers.control
}

/// What follows from what an overlay asks for during the setup: to close, or to go back to
/// nothing, ends it.
pub open spec fn setup_result(o: overlay::OverlayView, result: overlay::KeyResultView) -> SetupView {
    match result {
        overlay::KeyResultView::Close => SetupView::Leave,
        overlay::KeyResultView::Back => if o is Dialog || (o is ModelPicker && o->ModelPicker_0.target
            == ModelPickerTarget::ProviderForm) {
            SetupView::BackOverlay
        } else {
            SetupView::Leave
        },
        overlay::KeyResultView::Provider(action) => SetupView::Run(setup_steps(action)),
        _ => SetupView::Run(script::steps(Seq::empty())),
    }
}

/// Handles a key during the setup.
pub fn setup_key(key: KeyEvent, overlay: &mut Overlay, verdicts: InputVerdicts) -> (r: SetupStep)
    requires
        old(overlay)@.well_formed(),
    ensures
        final(overlay)@.well_formed(),
        leaves(key) ==> r@ is Leave && *final(overlay) == *old(overlay),
        !leaves(key) ==> ({
            let (after, result) = overlay::overlay_key(
                old(overlay)@,
                key,
                verdicts.model_name_is_valid,
                plan_model::opt(verdicts.effort_refusal),
            );
            final(overlay)@ == after && r@ == setup_result(after, result)
        }),
{
    if key.code == KeyCode::Char('q') && key.modifiers.control {
        return SetupStep::Leave;
    }
    match overlay.handle_key(key, verdicts) {
        OverlayKeyResult::Close => SetupStep::Leave,
        OverlayKeyResult::Back => match &*overlay {
            Overlay::Dialog(_) => SetupStep::BackOverlay,
            Overlay::ModelPicker(picker) => match picker.target() {
                ModelPickerTarget::ProviderForm => SetupStep::BackOverlay,
                ModelPickerTarget::ActiveProvider => SetupStep::Leave,
            },
            _ => SetupStep::Leave,
        },
        OverlayKeyResult::Provider(action) => SetupStep::Run(setup_script(action)),
        _ => SetupStep::Run(Script::new()),
    }
}

/// The setup ends with something configured only after the preferences have been stored, and
/// every step on the way there ends it or keeps the user in it where it fails.
pub proof fn what_is_configured_is_stored(action: provider_overlay::ActionView)
    ensures
        setup_steps(action).ending is Configured ==> dispatch::does(
            setup_steps(action),
            script::CallView::StorePreferences,
        ),
        forall|i: int|
            0 <= i < setup_steps(action).steps.len() ==> !((
            #[trigger] setup_steps(action).steps[i]).on_failure is Remember),
{
    let s = setup_steps(action);
    if s.ending is Configured {
        if action is SaveProvider {
            assert(s.steps[3].call == script::CallView::StorePreferences);
        } else {
            assert(s.steps[2].call == script::CallView::StorePreferences);
        }
    }
}

/// The setup ends configured only by saving a provider or by choosing a model for the one in
/// use, and what it stores names what was chosen.
pub proof fn the_setup_ends_with_a_choice(action: provider_overlay::ActionView)
    ensures
        setup_steps(action).ending is Configured ==> action is SaveProvider || action is
            SelectModel,
        !(setup_steps(action).ending is Quit),
        action matches provider_overlay::ActionView::SaveProvider(values) ==> setup_steps(
            action,
        ).ending is Configured && setup_steps(action).steps[0].call
            == (script::CallView::DraftProvider { mode: ProviderDraftMode::Create, values })
            && setup_steps(action).steps[1].call is SaveProvider,
        action matches provider_overlay::ActionView::SelectModel { alias, model, target } ==> (
        target == ModelPickerTarget::ActiveProvider ==> setup_steps(action).ending is Configured
            && setup_steps(action).steps[0].call == script::CallView::CheckAlias(alias)
            && setup_steps(action).steps[1].call == script::CallView::ChangePreferences(
            script::ChangeView::UseModel { alias, model },
        )),
        action matches provider_overlay::ActionView::DeleteProvider(alias) ==> setup_steps(
            action,
        ).steps[0].call == script::CallView::CheckAlias(alias) && setup_steps(action).steps[1].call
            == script::CallView::DeleteProvider(alias) && setup_steps(action).steps[2].call
            == script::CallView::ChangePreferences(script::ChangeView::ForgetModel(alias)),
        action matches provider_overlay::ActionView::UpdateProvider { original_alias, values }
            ==> setup_steps(action).steps[2].call == script::CallView::UpdateProvider(
            original_alias,
        ) && setup_steps(action).steps[1].call
            == (script::CallView::DraftProvider { mode: ProviderDraftMode::Update, values }),
{
}

/// The setup begins with the providers that there are, and with an empty form where there is
/// none; closing it leaves it.
pub proof fn the_setup_begins_with_what_there_is(
    providers: Seq<provider_overlay::ProviderView>,
    current_alias: Option<Seq<char>>,
    fresh_alias: Seq<char>,
    o: overlay::OverlayView,
)
    ensures
        manager_or_form(providers, current_alias, fresh_alias) is ProviderForm <==> providers.len()
            == 0,
        manager_or_form(
            providers,
            current_alias,
            fresh_alias,
        ) matches overlay::OverlayView::ProviderManager(m) ==> m.items == providers,
        setup_result(o, overlay::KeyResultView::Close) is Leave,
        o is Dialog ==> setup_result(o, overlay::KeyResultView::Back) is BackOverlay,
        o is ProviderManager ==> setup_result(o, overlay::KeyResultView::Back) is Leave,
{
}

} // verus!
