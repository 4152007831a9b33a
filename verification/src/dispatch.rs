//! The steps that the work of the keys takes.
use crate::controller_provider;
use crate::effects;
use crate::effects::ControllerEffect;
use crate::input::TuiSubmission;
use crate::plan_controller;
use crate::provider_form::ProviderDraftMode;
use crate::provider_overlay;
use crate::provider_overlay::ModelPickerTarget;
use crate::script;
use crate::script::{Call, Ending, OnFailure, PreferenceChange, Script};
use crate::text;
use crate::timeline::QueuedInputLane;
use vstd::prelude::*;

verus! {

pub open spec fn history_not_saved() -> script::FailureRule {
    script::FailureRule::DiagnosticOnce(
        "Input history not saved"@,
        "The message was accepted, but shared input history could not be written. In-memory history remains available for this session."@,
    )
}

pub open spec fn session_not_saved() -> script::FailureRule {
    script::FailureRule::DiagnosticInstead(
        "Session save failed"@,
        "Session state could not be written. The TUI is still open; check the logs and retry at an idle boundary."@,
    )
}

/// Sending a message: it goes into its queue, and then into the history, unless the
/// history would hold nothing but blanks.
pub open spec fn submit_steps(lane: QueuedInputLane, submission: TuiSubmission) -> script::ScriptView {
    let sent = script::sure(script::CallView::Submit { lane, submission });
    script::steps(
        if text::is_blank(submission.history_text@) {
            seq![sent]
        } else {
            seq![
                sent,
                script::step(
                    script::CallView::RecordHistory(submission.history_text@),
                    history_not_saved(),
                ),
            ]
        },
    )
}

fn submit_script(lane: QueuedInputLane, submission: TuiSubmission) -> (r: Script)
    ensures
        r@ == submit_steps(lane, submission),
{
    let history = submission.history_text.clone();
    let sent = Script::new().sure(Call::Submit { lane, submission });
    if text::blank(history.as_str()) {
        proof {
            assert(sent@.steps =~= submit_steps(lane, submission).steps);
        }
        sent
    } else {
        let r = sent.then_step(
            Call::RecordHistory(history),
            OnFailure::DiagnosticOnce(
                "Input history not saved",
                "The message was accepted, but shared input history could not be written. In-memory history remains available for this session.",
            ),
        );
        proof {
            assert(r@.steps =~= submit_steps(lane, submission).steps);
        }
        r
    }
}

/// The steps of work that is neither about plans nor about providers.
pub open spec fn plain_steps(effect: effects::EffectView) -> Option<script::ScriptView> {
    match effect {
        effects::EffectView::Nothing => Some(script::steps(Seq::empty())),
        effects::EffectView::SubmitNext(s) => Some(submit_steps(QueuedInputLane::Next, s)),
        effects::EffectView::SubmitBacklog(s) => Some(submit_steps(QueuedInputLane::Backlog, s)),
        effects::EffectView::PasteImage => Some(
            script::steps(seq![script::sure(script::CallView::ReadClipboardImage)]),
        ),
        effects::EffectView::OpenSessionInBrowser => Some(
            script::steps(
                seq![
                    script::step(
                        script::CallView::SessionUrl,
                        script::FailureRule::Diagnostic("Web service unavailable"@),
                    ),
                    script::step(
                        script::CallView::OpenBrowser,
                        script::FailureRule::DiagnosticWithAddress("Could not open browser"@),
                    ),
                    script::sure(script::CallView::TellTrajectoryOpened),
                ],
            ),
        ),
        effects::EffectView::ApprovePermission(approval_id) => Some(
            script::steps(
                seq![
                    script::sure(
                        script::CallView::ResolvePermission { approval_id, approved: true },
                    ),
                ],
            ),
        ),
        effects::EffectView::DenyPermission(approval_id) => Some(
            script::steps(
                seq![
                    script::sure(
                        script::CallView::ResolvePermission { approval_id, approved: false },
                    ),
                ],
            ),
        ),
        effects::EffectView::Interrupt => Some(
            script::steps(seq![script::sure(script::CallView::Interrupt)]),
        ),
        effects::EffectView::ResumeSuspended => Some(
            script::steps(seq![script::sure(script::CallView::ResumeSuspended)]),
        ),
        effects::EffectView::DiscardSuspended => Some(
            script::steps(seq![script::sure(script::CallView::DiscardSuspended)]),
        ),
        effects::EffectView::SaveSession => Some(
            script::steps(
                seq![
                    script::step(script::CallView::SaveSession, session_not_saved()),
                    script::sure(script::CallView::TellSessionSaved),
                ],
            ),
        ),
        effects::EffectView::PersistPreferences => Some(
            script::steps(seq![script::sure(script::CallView::StorePreferences)]),
        ),
        effects::EffectView::ApplyRuntimePreferences => Some(
            script::steps(
                seq![
                    script::sure(script::CallView::ApplyPreferences),
                    script::sure(script::CallView::StorePreferences),
                    script::sure(script::CallView::ShowLabels),
                ],
            ),
        ),
        effects::EffectView::Quit => Some(
            script::ScriptView {
                steps: seq![
                    script::sure(script::CallView::CloseSession),
                    script::sure(script::CallView::WaitUntilClosed),
                    script::sure(script::CallView::SaveOnExit),
                ],
                ending: Ending::Quit,
            },
        ),
        _ => None,
    }
}

/// The steps of work.
pub open spec fn work_steps(
    effect: effects::EffectView,
    active_alias: Option<Seq<char>>,
) -> Option<script::ScriptView> {
    match plan_controller::plan_request(effect) {
        Some(asked) => Some(
            script::steps(
                seq![
                    script::step(
                        script::CallView::Plan(asked.0),
                        script::FailureRule::ErrorDialog(asked.1),
                    ),
                ],
            ),
        ),
        None => if controller_provider::about_providers(effect) {
            provider_steps(effect, active_alias)
        } else {
            plain_steps(effect)
        },
    }
}

/// The steps that work takes. `active_alias` is the provider in use. Work that is done
/// elsewhere is handed back.
pub fn dispatch_effect(effect: ControllerEffect, active_alias: Option<&str>) -> (r: Result<
    Script,
    ControllerEffect,
>)
    ensures
        match r {
            Ok(s) => work_steps(effect@, provider_overlay::opt_str(active_alias)) == Some(s@),
            Err(e) => work_steps(effect@, provider_overlay::opt_str(active_alias)) is None && e
                == effect,
        },
{
    let effect = match plan_controller::dispatch_effect(effect) {
        Ok((request, title)) => {
            let r = Script::new().then_step(Call::Plan(request), OnFailure::ErrorDialog(title));
            proof {
                assert(r@.steps =~= seq![
                    script::step(
                        script::CallView::Plan(request@),
                        script::FailureRule::ErrorDialog(title@),
                    ),
                ]);
            }
            return Ok(r);
        },
        Err(other) => other,
    };
    if controller_provider::is_provider_effect(&effect) {
        return dispatch_provider_effect(effect, active_alias);
    }
    match effect {
        ControllerEffect::Nothing => Ok(Script::new()),
        ControllerEffect::SubmitNext(s) => Ok(submit_script(QueuedInputLane::Next, s)),
        ControllerEffect::SubmitBacklog(s) => Ok(submit_script(QueuedInputLane::Backlog, s)),
        ControllerEffect::PasteImage => Ok(one_sure(Call::ReadClipboardImage)),
        ControllerEffect::OpenSessionInBrowser => {
            let r = Script::new().then_step(
                Call::SessionUrl,
                OnFailure::Diagnostic("Web service unavailable"),
            ).then_step(
                Call::OpenBrowser,
                OnFailure::DiagnosticWithAddress("Could not open browser"),
            ).sure(Call::TellTrajectoryOpened);
            proof {
                assert(r@.steps =~= plain_steps(effect@)->0.steps);
            }
            Ok(r)
        },
        ControllerEffect::ApprovePermission(approval_id) => Ok(
            one_sure(Call::ResolvePermission { approval_id, approved: true }),
        ),
        ControllerEffect::DenyPermission(approval_id) => Ok(
            one_sure(Call::ResolvePermission { approval_id, approved: false }),
        ),
        ControllerEffect::Interrupt => Ok(one_sure(Call::Interrupt)),
        ControllerEffect::ResumeSuspended => Ok(one_sure(Call::ResumeSuspended)),
        ControllerEffect::DiscardSuspended => Ok(one_sure(Call::DiscardSuspended)),
        ControllerEffect::SaveSession => {
            let r = Script::new().then_step(
                Call::SaveSession,
                OnFailure::DiagnosticInstead(
                    "Session save failed",
                    "Session state could not be written. The TUI is still open; check the logs and retry at an idle boundary.",
                ),
            ).sure(Call::TellSessionSaved);
            proof {
                assert(r@.steps =~= plain_steps(effect@)->0.steps);
            }
            Ok(r)
        },
        ControllerEffect::PersistPreferences => Ok(one_sure(Call::StorePreferences)),
        ControllerEffect::ApplyRuntimePreferences => {
            let r = Script::new().sure(Call::ApplyPreferences).sure(Call::StorePreferences).sure(
                Call::ShowLabels,
            );
            proof {
                assert(r@.steps =~= plain_steps(effect@)->0.steps);
            }
            Ok(r)
        },
        ControllerEffect::Quit => {
            let r = Script::new().sure(Call::CloseSession).sure(Call::WaitUntilClosed).sure(
                Call::SaveOnExit,
            ).ending(Ending::Quit);
            proof {
                assert(r@.steps =~= plain_steps(effect@)->0.steps);
            }
            Ok(r)
        },
        other => Err(other),
    }
}

fn one_sure(call: Call) -> (r: Script)
    ensures
        r@ == script::steps(seq![script::sure(call@)]),
{
    let r = Script::new().sure(call);
    proof {
        assert(r@.steps =~= seq![script::sure(call@)]);
    }
    r
}

pub open spec fn form_gone() -> Seq<char> {
    "provider form is no longer available for model discovery"@
}

pub open spec fn fatal_check(alias: Seq<char>) -> script::StepView {
    script::sure(script::CallView::CheckAlias(alias))
}

pub open spec fn change(c: script::ChangeView) -> script::StepView {
    script::sure(script::CallView::ChangePreferences(c))
}

/// Changing what is in use: the preferences are used before they are stored and shown, so
/// that what is stored has worked.
pub open spec fn switch_steps(failed: Seq<char>) -> Seq<script::StepView> {
    seq![
        script::step(
            script::CallView::ApplyPreferences,
            script::FailureRule::OverlayErrorAfter(failed),
        ),
        script::sure(script::CallView::StorePreferences),
        script::sure(script::CallView::ShowPreferences),
        script::sure(script::CallView::ShowLabels),
    ]
}

fn then_switch(s: Script, failed: &'static str) -> (r: Script)
    ensures
        r@ == (script::ScriptView { steps: s@.steps + switch_steps(failed@), ..s@ }),
{
    let r = s.then_step(Call::ApplyPreferences, OnFailure::OverlayErrorAfter(failed)).sure(
        Call::StorePreferences,
    ).sure(Call::ShowPreferences).sure(Call::ShowLabels);
    proof {
        assert(r@.steps =~= s@.steps + switch_steps(failed@));
    }
    r
}

/// The steps of work about providers.
pub open spec fn provider_steps(
    effect: effects::EffectView,
    active_alias: Option<Seq<char>>,
) -> Option<script::ScriptView> {
    let cancel = script::sure(script::CallView::CancelDiscovery);
    let manager = script::sure(script::CallView::OpenManager);
    match effect {
        effects::EffectView::OpenProviderManager => Some(script::steps(seq![cancel, manager])),
        effects::EffectView::OpenProviderForm => Some(
            script::steps(seq![cancel, script::sure(script::CallView::OpenForm)]),
        ),
        effects::EffectView::OpenProviderEditor(alias) => Some(
            script::steps(
                seq![
                    cancel,
                    fatal_check(alias),
                    script::step(
                        script::CallView::LoadEditable(alias),
                        script::FailureRule::ReadOnlyDialog,
                    ),
                    script::sure(script::CallView::OpenEditor),
                ],
            ),
        ),
        effects::EffectView::OpenModelPicker(alias) => Some(
            script::steps(
                seq![
                    fatal_check(alias),
                    script::sure(script::CallView::OpenModelPicker(alias)),
                    script::sure(script::CallView::StartDiscovery(alias)),
                ],
            ),
        ),
        effects::EffectView::BackToProviderForm => Some(
            script::steps(seq![cancel, script::sure(script::CallView::BackOverlay)]),
        ),
        effects::EffectView::DeriveAlias(name) => Some(
            script::steps(
                seq![
                    script::step(
                        script::CallView::DeriveAlias(name),
                        script::FailureRule::Ignore,
                    ),
                ],
            ),
        ),
        effects::EffectView::DiscoverFormModels { original_alias, values } => Some(
            script::steps(
                seq![
                    cancel,
                    script::step(
                        script::CallView::DraftDiscovery { original_alias, values },
                        script::FailureRule::OverlayError,
                    ),
                    script::step(
                        script::CallView::OpenFormModelPicker {
                            display_name: values.display_name,
                        },
                        script::FailureRule::OverlayErrorInstead(form_gone()),
                    ),
                    script::sure(script::CallView::StartFormDiscovery),
                ],
            ),
        ),
        effects::EffectView::RefreshModels(alias) => Some(
            script::steps(
                seq![
                    script::sure(script::CallView::MarkLoading(alias)),
                    fatal_check(alias),
                    script::sure(script::CallView::StartDiscovery(alias)),
                ],
            ),
        ),
        effects::EffectView::RefreshFormModels => Some(
            script::steps(
                seq![
                    script::step(
                        script::CallView::ReadOpenForm,
                        script::FailureRule::OverlayErrorInstead(form_gone()),
                    ),
                    script::step(
                        script::CallView::DraftOpenFormDiscovery,
                        script::FailureRule::OverlayError,
                    ),
                    script::sure(script::CallView::MarkDraftLoading),
                    script::sure(script::CallView::StartFormDiscovery),
                ],
            ),
        ),
        effects::EffectView::DeleteProvider(alias) => Some(delete_steps(alias, active_alias)),
        effects::EffectView::SaveProvider(values) => Some(
            script::steps(
                seq![
                    script::step(
                        script::CallView::DraftProvider {
                            mode: ProviderDraftMode::Create,
                            values,
                        },
                        script::FailureRule::OverlayError,
                    ),
                    script::step(script::CallView::SaveProvider, script::FailureRule::OverlayError),
                    script::step(
                        script::CallView::ReloadConfig,
                        script::FailureRule::FatalWith(
                            "saved provider config did not reload"@,
                        ),
                    ),
                    change(script::ChangeView::UseSavedProvider),
                ] + switch_steps("provider saved; switch failed: "@).push(manager),
            ),
        ),
        effects::EffectView::UpdateProvider { original_alias, values } => Some(
            script::steps(
                seq![
                    fatal_check(original_alias),
                    script::step(
                        script::CallView::DraftProvider {
                            mode: ProviderDraftMode::Update,
                            values,
                        },
                        script::FailureRule::OverlayError,
                    ),
                    script::step(
                        script::CallView::UpdateProvider(original_alias),
                        script::FailureRule::OverlayError,
                    ),
                    script::step(
                        script::CallView::ReloadConfig,
                        script::FailureRule::FatalWith(
                            "updated provider config did not reload"@,
                        ),
                    ),
                    script::step(
                        script::CallView::ApplyPreferences,
                        script::FailureRule::OverlayErrorAfter(
                            "provider updated; runtime refresh failed: "@,
                        ),
                    ),
                    script::sure(script::CallView::ShowLabels),
                    manager,
                ],
            ),
        ),
        effects::EffectView::SelectProvider { alias } => Some(
            script::steps(
                seq![fatal_check(alias), change(script::ChangeView::UseProvider(alias))]
                    + switch_steps("switch failed: "@) + seq![cancel, manager],
            ),
        ),
        effects::EffectView::OpenReasoningPicker { alias, model, target } => Some(
            script::steps(
                seq![
                    script::step(
                        script::CallView::OpenReasoningPicker { alias, model, target },
                        script::FailureRule::OverlayErrorInstead(
                            "model selection is no longer available for reasoning mode selection"@,
                        ),
                    ),
                ],
            ),
        ),
        effects::EffectView::ApplyProviderModel { alias, model, reasoning_effort, target } => Some(
            match target {
                ModelPickerTarget::ActiveProvider => script::steps(
                    seq![
                        fatal_check(alias),
                        change(
                            script::ChangeView::UseModelAndEffort {
                                alias,
                                model,
                                reasoning_effort,
                            },
                        ),
                    ] + switch_steps("switch failed: "@).push(
                        script::sure(script::CallView::RestoreSettingsOrManager),
                    ),
                ),
                ModelPickerTarget::ProviderForm => script::steps(
                    seq![
                        cancel,
                        script::step(
                            script::CallView::SelectFormModel {
                                model,
                                reasoning_effort: Some(reasoning_effort),
                            },
                            script::FailureRule::OverlayErrorInstead(
                                "provider form is no longer available for the selected model"@,
                            ),
                        ),
                    ],
                ),
            },
        ),
        _ => None,
    }
}

/// Deleting a provider: never the one in use. What was preferred for it is forgotten; where
/// that cannot be stored, the user is told in the end.
pub open spec fn delete_steps(alias: Seq<char>, active_alias: Option<Seq<char>>) -> script::ScriptView {
    if active_alias == Some(alias) {
        script::steps(
            seq![
                fatal_check(alias),
                script::sure(
                    script::CallView::ShowOverlayError(
                        "switch provider before deleting the active one"@,
                    ),
                ),
            ],
        )
    } else {
        script::steps(
            seq![
                fatal_check(alias),
                script::step(
                    script::CallView::DeleteProvider(alias),
                    script::FailureRule::OverlayError,
                ),
                change(script::ChangeView::ForgetProvider(alias)),
                script::step(
                    script::CallView::StorePreferences,
                    script::FailureRule::Remember(
                        "Provider deleted, but its saved model preference could not be removed: "@,
                    ),
                ),
                script::sure(script::CallView::ShowPreferences),
                script::sure(script::CallView::ReloadConfigIfAny),
                script::sure(script::CallView::OpenManager),
            ],
        )
    }
}

fn delete_script(alias: String, active_alias: Option<&str>) -> (r: Script)
    ensures
        r@ == delete_steps(alias@, provider_overlay::opt_str(active_alias)),
{
    let checked = Script::new().sure(Call::CheckAlias(alias.clone()));
    let active = match active_alias {
        Some(a) => text::same(a, alias.as_str()),
        None => false,
    };
    let r = if active {
        checked.sure(Call::ShowOverlayError("switch provider before deleting the active one"))
    } else {
        checked.then_step(
            Call::DeleteProvider(alias.clone()),
            OnFailure::OverlayError,
        ).sure(Call::ChangePreferences(PreferenceChange::ForgetProvider(alias))).then_step(
            Call::StorePreferences,
            OnFailure::Remember(
                "Provider deleted, but its saved model preference could not be removed: ",
            ),
        ).sure(Call::ShowPreferences).sure(Call::ReloadConfigIfAny).sure(Call::OpenManager)
    };
    proof {
        assert(r@.steps =~= delete_steps(
            alias@,
            provider_overlay::opt_str(active_alias),
        ).steps);
    }
    r
}

/// The steps that work about providers takes.
#[verifier::rlimit(40)]
pub fn dispatch_provider_effect(effect: ControllerEffect, active_alias: Option<&str>) -> (r: Result<
    Script,
    ControllerEffect,
>)
    ensures
        match r {
            Ok(s) => provider_steps(effect@, provider_overlay::opt_str(active_alias)) == Some(s@),
            Err(e) => provider_steps(effect@, provider_overlay::opt_str(active_alias)) is None
                && e == effect,
        },
{
    let ghost expected = provider_steps(effect@, provider_overlay::opt_str(active_alias));
    let r = match effect {
        ControllerEffect::OpenProviderManager => Script::new().sure(Call::CancelDiscovery).sure(
            Call::OpenManager,
        ),
        ControllerEffect::OpenProviderForm => Script::new().sure(Call::CancelDiscovery).sure(
            Call::OpenForm,
        ),
        ControllerEffect::OpenProviderEditor(alias) => Script::new().sure(
            Call::CancelDiscovery,
        ).sure(Call::CheckAlias(alias.clone())).then_step(
            Call::LoadEditable(alias),
            OnFailure::ReadOnlyDialog,
        ).sure(Call::OpenEditor),
        ControllerEffect::OpenModelPicker(alias) => Script::new().sure(
            Call::CheckAlias(alias.clone()),
        ).sure(Call::OpenModelPicker(alias.clone())).sure(Call::StartDiscovery(alias)),
        ControllerEffect::BackToProviderForm => Script::new().sure(Call::CancelDiscovery).sure(
            Call::BackOverlay,
        ),
        ControllerEffect::DeriveAlias(name) => Script::new().then_step(
            Call::DeriveAlias(name),
            OnFailure::Ignore,
        ),
        ControllerEffect::DiscoverFormModels { original_alias, values } => {
            let display_name = values.display_name.clone();
            Script::new().sure(Call::CancelDiscovery).then_step(
                Call::DraftDiscovery { original_alias, values },
                OnFailure::OverlayError,
            ).then_step(
                Call::OpenFormModelPicker { display_name },
                OnFailure::OverlayErrorInstead(
                    "provider form is no longer available for model discovery",
                ),
            ).sure(Call::StartFormDiscovery)
        },
        ControllerEffect::RefreshModels(alias) => Script::new().sure(
            Call::MarkLoading(alias.clone()),
        ).sure(Call::CheckAlias(alias.clone())).sure(Call::StartDiscovery(alias)),
        ControllerEffect::RefreshFormModels => Script::new().then_step(
            Call::ReadOpenForm,
            OnFailure::OverlayErrorInstead(
                "provider form is no longer available for model discovery",
            ),
        ).then_step(Call::DraftOpenFormDiscovery, OnFailure::OverlayError).sure(
            Call::MarkDraftLoading,
        ).sure(Call::StartFormDiscovery),
        ControllerEffect::DeleteProvider(alias) => delete_script(alias, active_alias),
        ControllerEffect::SaveProvider(values) => then_switch(
            Script::new().then_step(
                Call::DraftProvider { mode: ProviderDraftMode::Create, values },
                OnFailure::OverlayError,
            ).then_step(Call::SaveProvider, OnFailure::OverlayError).then_step(
                Call::ReloadConfig,
                OnFailure::FatalWith("saved provider config did not reload"),
            ).sure(Call::ChangePreferences(PreferenceChange::UseSavedProvider)),
            "provider saved; switch failed: ",
        ).sure(Call::OpenManager),
        ControllerEffect::UpdateProvider { original_alias, values } => Script::new().sure(
            Call::CheckAlias(original_alias.clone()),
        ).then_step(
            Call::DraftProvider { mode: ProviderDraftMode::Update, values },
            OnFailure::OverlayError,
        ).then_step(Call::UpdateProvider(original_alias), OnFailure::OverlayError).then_step(
            Call::ReloadConfig,
            OnFailure::FatalWith("updated provider config did not reload"),
        ).then_step(
            Call::ApplyPreferences,
            OnFailure::OverlayErrorAfter("provider updated; runtime refresh failed: "),
        ).sure(Call::ShowLabels).sure(Call::OpenManager),
        ControllerEffect::SelectProvider { alias } => then_switch(
            Script::new().sure(Call::CheckAlias(alias.clone())).sure(
                Call::ChangePreferences(PreferenceChange::UseProvider(alias)),
            ),
            "switch failed: ",
        ).sure(Call::CancelDiscovery).sure(Call::OpenManager),
        ControllerEffect::OpenReasoningPicker { alias, model, target } => Script::new().then_step(
            Call::OpenReasoningPicker { alias, model, target },
            OnFailure::OverlayErrorInstead(
                "model selection is no longer available for reasoning mode selection",
            ),
        ),
        ControllerEffect::ApplyProviderModel { alias, model, reasoning_effort, target } => {
            match target {
                ModelPickerTarget::ActiveProvider => then_switch(
                    Script::new().sure(Call::CheckAlias(alias.clone())).sure(
                        Call::ChangePreferences(
                            PreferenceChange::UseModelAndEffort { alias, model, reasoning_effort },
                        ),
                    ),
                    "switch failed: ",
                ).sure(Call::RestoreSettingsOrManager),
                ModelPickerTarget::ProviderForm => Script::new().sure(
                    Call::CancelDiscovery,
                ).then_step(
                    Call::SelectFormModel { model, reasoning_effort: Some(reasoning_effort) },
                    OnFailure::OverlayErrorInstead(
                        "provider form is no longer available for the selected model",
                    ),
                ),
            }
        },
        other => {
            return Err(other);
        },
    };
    proof {
        assert(r@.steps =~= expected->0.steps);
    }
    Ok(r)
}

/// Whether some step of a script does this.
pub open spec fn does(s: script::ScriptView, call: script::CallView) -> bool {
    exists|i: int| 0 <= i < s.steps.len() && #[trigger] s.steps[i].call == call
}

/// Whether some step of a script changes the preferences.
pub open spec fn changes_preferences(s: script::ScriptView) -> bool {
    exists|i: int|
        0 <= i < s.steps.len() && (#[trigger] s.steps[i]).call is ChangePreferences
}

/// A change of provider or of model is stored only after the preferences have been used: a
/// step before the storing uses them, and ends the work where that fails.
pub proof fn only_working_choices_are_stored(
    effect: effects::EffectView,
    active_alias: Option<Seq<char>>,
    i: int,
)
    requires
        provider_steps(effect, active_alias) is Some,
        !(effect is DeleteProvider),
        0 <= i < provider_steps(effect, active_alias)->0.steps.len(),
        provider_steps(effect, active_alias)->0.steps[i].call is StorePreferences,
    ensures
        exists|j: int|
            0 <= j < i && (#[trigger] provider_steps(effect, active_alias)->0.steps[j]).call is
                ApplyPreferences && provider_steps(effect, active_alias)->0.steps[j].on_failure is
                OverlayErrorAfter,
{
    let s = provider_steps(effect, active_alias)->0.steps;
    assert(s[i - 1].call is ApplyPreferences);
}

/// Changing how a provider is reached leaves the preferences alone.
pub proof fn updating_a_provider_keeps_the_preferences(
    effect: effects::EffectView,
    active_alias: Option<Seq<char>>,
)
    requires
        effect is UpdateProvider,
    ensures
        provider_steps(effect, active_alias) is Some,
        !changes_preferences(provider_steps(effect, active_alias)->0),
        !does(provider_steps(effect, active_alias)->0, script::CallView::StorePreferences),
{
}

/// The provider in use is never deleted.
pub proof fn the_provider_in_use_stays(
    effect: effects::EffectView,
    alias: Seq<char>,
)
    requires
        provider_steps(effect, Some(alias)) is Some,
    ensures
        !does(provider_steps(effect, Some(alias))->0, script::CallView::DeleteProvider(alias)),
{
}

/// A message goes into the queue that it was sent to before anything is remembered of it, and
/// what is remembered is its text as it stood in the input, unless that is blank.
pub proof fn messages_are_sent_before_they_are_remembered(
    effect: effects::EffectView,
    submission: TuiSubmission,
)
    requires
        effect == effects::EffectView::SubmitNext(submission) || effect
            == effects::EffectView::SubmitBacklog(submission),
    ensures
        plain_steps(effect) matches Some(s) && s.ending == Ending::Continue && s.steps.len() > 0
            && s.steps[0].call == (script::CallView::Submit {
            lane: if effect is SubmitNext {
                QueuedInputLane::Next
            } else {
                QueuedInputLane::Backlog
            },
            submission,
        }) && s.steps[0].on_failure is Fatal && (text::is_blank(submission.history_text@)
            <==> s.steps.len() == 1) && (s.steps.len() > 1 ==> s.steps.len() == 2 && s.steps[1].call
            == script::CallView::RecordHistory(submission.history_text@) && !(
        s.steps[1].on_failure is Fatal)),
{
}

/// A permission is answered as the user decided, once.
pub proof fn permissions_are_answered_as_decided(
    effect: effects::EffectView,
    approval_id: Seq<char>,
    approved: bool,
)
    requires
        approved ==> effect == effects::EffectView::ApprovePermission(approval_id),
        !approved ==> effect == effects::EffectView::DenyPermission(approval_id),
    ensures
        plain_steps(effect) matches Some(s) && s.steps.len() == 1 && s.steps[0].call
            == (script::CallView::ResolvePermission { approval_id, approved }),
{
}

/// The program ends only where that was asked for, and then the session is closed, waited for
/// and saved, in this order.
pub proof fn only_quitting_ends_the_program(effect: effects::EffectView)
    ensures
        plain_steps(effect) matches Some(s) ==> (s.ending == Ending::Quit <==> effect is Quit),
        effect is Quit ==> (plain_steps(effect) matches Some(s) && s.steps.len() == 3
            && s.steps[0].call is CloseSession && s.steps[1].call is WaitUntilClosed
            && s.steps[2].call is SaveOnExit),
{
}

/// That a session was saved is told only once it was, and not where it failed.
pub proof fn saving_comes_before_telling(effect: effects::EffectView)
    requires
        effect is SaveSession,
    ensures
        plain_steps(effect) matches Some(s) && s.steps.len() == 2 && s.steps[0].call is SaveSession
            && s.steps[1].call is TellSessionSaved && s.steps[0].on_failure is DiagnosticInstead,
{
}

/// What stops, goes on with or drops a run does just that.
pub proof fn runs_are_stopped_and_resumed_as_asked(effect: effects::EffectView)
    ensures
        effect is Interrupt ==> (plain_steps(effect) matches Some(s) && s.steps.len() == 1
            && s.steps[0].call is Interrupt),
        effect is ResumeSuspended ==> (plain_steps(effect) matches Some(s) && s.steps.len() == 1
            && s.steps[0].call is ResumeSuspended),
        effect is DiscardSuspended ==> (plain_steps(effect) matches Some(s) && s.steps.len() == 1
            && s.steps[0].call is DiscardSuspended),
        effect is PasteImage ==> (plain_steps(effect) matches Some(s) && s.steps.len() == 1
            && s.steps[0].call is ReadClipboardImage),
        effect is Nothing ==> (plain_steps(effect) matches Some(s) && s.steps.len() == 0),
{
}

/// A choice of provider or model names what was chosen: its alias is checked first, and the
/// preferences are changed to it and to nothing else.
pub proof fn choices_are_made_as_named(
    effect: effects::EffectView,
    active_alias: Option<Seq<char>>,
)
    ensures
        effect matches effects::EffectView::SelectProvider { alias } ==> (provider_steps(
            effect,
            active_alias,
        ) matches Some(s) && s.steps.len() > 2 && s.steps[0].call == script::CallView::CheckAlias(
            alias,
        ) && s.steps[1].call == script::CallView::ChangePreferences(
            script::ChangeView::UseProvider(alias),
        )),
        effect matches effects::EffectView::ApplyProviderModel {
            alias,
            model,
            reasoning_effort,
            target,
        } ==> target == ModelPickerTarget::ActiveProvider ==> (provider_steps(
            effect,
            active_alias,
        ) matches Some(s) && s.steps.len() > 2 && s.steps[0].call == script::CallView::CheckAlias(
            alias,
        ) && s.steps[1].call == script::CallView::ChangePreferences(
            script::ChangeView::UseModelAndEffort { alias, model, reasoning_effort },
        )),
        effect matches effects::EffectView::DeleteProvider(alias) ==> active_alias != Some(alias)
            ==> (provider_steps(effect, active_alias) matches Some(s) && s.steps.len() > 3
            && s.steps[0].call == script::CallView::CheckAlias(alias) && s.steps[1].call
            == script::CallView::DeleteProvider(alias) && s.steps[1].on_failure is OverlayError
            && s.steps[2].call == script::CallView::ChangePreferences(
            script::ChangeView::ForgetProvider(alias),
        ) && s.steps[3].call is StorePreferences),
        effect matches effects::EffectView::UpdateProvider { original_alias, values } ==> (
        provider_steps(effect, active_alias) matches Some(s) && s.steps.len() > 2
            && s.steps[0].call == script::CallView::CheckAlias(original_alias) && s.steps[1].call
            == (script::CallView::DraftProvider { mode: ProviderDraftMode::Update, values })
            && s.steps[2].call == script::CallView::UpdateProvider(original_alias)),
        effect matches effects::EffectView::SaveProvider(values) ==> (provider_steps(
            effect,
            active_alias,
        ) matches Some(s) && s.steps.len() > 3 && s.steps[0].call
            == (script::CallView::DraftProvider { mode: ProviderDraftMode::Create, values })
            && s.steps[1].call is SaveProvider && s.steps[2].call is ReloadConfig
            && s.steps[3].call == script::CallView::ChangePreferences(
            script::ChangeView::UseSavedProvider,
        )),
{
}

/// What opens a dialog of the providers opens that one, for the provider that was named.
pub proof fn dialogs_are_opened_as_asked(
    effect: effects::EffectView,
    active_alias: Option<Seq<char>>,
)
    ensures
        effect is OpenProviderManager ==> (provider_steps(effect, active_alias) matches Some(s)
            && s.steps.len() > 0 && s.steps[0].call is CancelDiscovery && s.steps.last().call is
            OpenManager),
        effect is OpenProviderForm ==> (provider_steps(effect, active_alias) matches Some(s)
            && s.steps.len() > 0 && s.steps[0].call is CancelDiscovery && s.steps.last().call is
            OpenForm),
        effect matches effects::EffectView::OpenProviderEditor(alias) ==> (provider_steps(
            effect,
            active_alias,
        ) matches Some(s) && s.steps.len() == 4 && s.steps[2].call
            == script::CallView::LoadEditable(alias) && s.steps[2].on_failure is ReadOnlyDialog
            && s.steps[3].call is OpenEditor),
        effect matches effects::EffectView::OpenModelPicker(alias) ==> (provider_steps(
            effect,
            active_alias,
        ) matches Some(s) && s.steps.len() == 3 && s.steps[1].call
            == script::CallView::OpenModelPicker(alias) && s.steps[2].call
            == script::CallView::StartDiscovery(alias)),
        effect matches effects::EffectView::RefreshModels(alias) ==> (provider_steps(
            effect,
            active_alias,
        ) matches Some(s) && s.steps.len() == 3 && s.steps[0].call == script::CallView::MarkLoading(
            alias,
        ) && s.steps[2].call == script::CallView::StartDiscovery(alias)),
{
}

} // verus!
