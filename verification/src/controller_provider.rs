//! What the overlays about providers lead to.
use crate::effects;
use crate::effects::ControllerEffect;
use crate::provider_overlay;
use crate::provider_overlay::ProviderOverlayAction;
use vstd::prelude::*;

verus! {

/// The work that an overlay about providers asks for.
pub open spec fn action_effect(action: provider_overlay::ActionView) -> effects::EffectView {
    match action {
        provider_overlay::ActionView::Consumed => effects::EffectView::Nothing,
        provider_overlay::ActionView::Back => effects::EffectView::Nothing,
        provider_overlay::ActionView::OpenProviderManager =>
            effects::EffectView::OpenProviderManager,
        provider_overlay::ActionView::OpenProviderForm => effects::EffectView::OpenProviderForm,
        provider_overlay::ActionView::OpenProviderEditor(a) =>
            effects::EffectView::OpenProviderEditor(a),
        provider_overlay::ActionView::OpenModelPicker(a) => effects::EffectView::OpenModelPicker(
            a,
        ),
        provider_overlay::ActionView::BackToProviderForm =>
            effects::EffectView::BackToProviderForm,
        provider_overlay::ActionView::DeriveAlias(n) => effects::EffectView::DeriveAlias(n),
        provider_overlay::ActionView::DiscoverFormModels { original_alias, values } =>
            effects::EffectView::DiscoverFormModels { original_alias, values },
        provider_overlay::ActionView::SaveProvider(v) => effects::EffectView::SaveProvider(v),
        provider_overlay::ActionView::UpdateProvider { original_alias, values } =>
            effects::EffectView::UpdateProvider { original_alias, values },
        provider_overlay::ActionView::RefreshModels(a) => effects::EffectView::RefreshModels(a),
        provider_overlay::ActionView::RefreshFormModels => effects::EffectView::RefreshFormModels,
        provider_overlay::ActionView::DeleteProvider(a) => effects::EffectView::DeleteProvider(a),
        provider_overlay::ActionView::SelectProvider(alias) =>
            effects::EffectView::SelectProvider { alias },
        provider_overlay::ActionView::SelectModel { alias, model, target } =>
            effects::EffectView::OpenReasoningPicker { alias, model, target },
        provider_overlay::ActionView::SelectReasoning {
            alias,
            model,
            reasoning_effort,
            target,
        } => effects::EffectView::ApplyProviderModel { alias, model, reasoning_effort, target },
    }
}

pub fn provider_overlay_effect(action: ProviderOverlayAction) -> (r: ControllerEffect)
    ensures
        r@ == action_effect(action@),
{
    match action {
        ProviderOverlayAction::Consumed | ProviderOverlayAction::Back => ControllerEffect::Nothing,
        ProviderOverlayAction::OpenProviderManager => ControllerEffect::OpenProviderManager,
        ProviderOverlayAction::OpenProviderForm => ControllerEffect::OpenProviderForm,
        ProviderOverlayAction::OpenProviderEditor(a) => ControllerEffect::OpenProviderEditor(a),
        ProviderOverlayAction::OpenModelPicker(a) => ControllerEffect::OpenModelPicker(a),
        ProviderOverlayAction::BackToProviderForm => ControllerEffect::BackToProviderForm,
        ProviderOverlayAction::DeriveAlias(n) => ControllerEffect::DeriveAlias(n),
        ProviderOverlayAction::DiscoverFormModels { original_alias, values } =>
            ControllerEffect::DiscoverFormModels { original_alias, values },
        ProviderOverlayAction::SaveProvider(v) => ControllerEffect::SaveProvider(v),
        ProviderOverlayAction::UpdateProvider { original_alias, values } =>
            ControllerEffect::UpdateProvider { original_alias, values },
        ProviderOverlayAction::RefreshModels(a) => ControllerEffect::RefreshModels(a),
        ProviderOverlayAction::RefreshFormModels => ControllerEffect::RefreshFormModels,
        ProviderOverlayAction::DeleteProvider(a) => ControllerEffect::DeleteProvider(a),
        ProviderOverlayAction::SelectProvider(alias) => ControllerEffect::SelectProvider {
            alias,
        },
        ProviderOverlayAction::SelectModel { alias, model, target } =>
            ControllerEffect::OpenReasoningPicker { alias, model, target },
        ProviderOverlayAction::SelectReasoning { alias, model, reasoning_effort, target } =>
            ControllerEffect::ApplyProviderModel { alias, model, reasoning_effort, target },
    }
}

/// Whether some work is about providers.
pub open spec fn about_providers(effect: effects::EffectView) -> bool {
    effect is OpenProviderManager || effect is OpenProviderForm || effect is OpenProviderEditor
        || effect is OpenModelPicker || effect is BackToProviderForm || effect is DeriveAlias
        || effect is DiscoverFormModels || effect is RefreshModels || effect is RefreshFormModels
        || effect is DeleteProvider || effect is SaveProvider || effect is UpdateProvider
        || effect is SelectProvider || effect is OpenReasoningPicker || effect is ApplyProviderModel
}

pub fn is_provider_effect(effect: &ControllerEffect) -> (r: bool)
    ensures
        r == about_providers(effect@),
{
    match effect {
        ControllerEffect::OpenProviderManager => true,
        ControllerEffect::OpenProviderForm => true,
        ControllerEffect::OpenProviderEditor(_) => true,
        ControllerEffect::OpenModelPicker(_) => true,
        ControllerEffect::BackToProviderForm => true,
        ControllerEffect::DeriveAlias(_) => true,
        ControllerEffect::DiscoverFormModels { original_alias: _, values: _ } => true,
        ControllerEffect::RefreshModels(_) => true,
        ControllerEffect::RefreshFormModels => true,
        ControllerEffect::DeleteProvider(_) => true,
        ControllerEffect::SaveProvider(_) => true,
        ControllerEffect::UpdateProvider { original_alias: _, values: _ } => true,
        ControllerEffect::SelectProvider { alias: _ } => true,
        ControllerEffect::OpenReasoningPicker { alias: _, model: _, target: _ } => true,
        ControllerEffect::ApplyProviderModel {
            alias: _,
            model: _,
            reasoning_effort: _,
            target: _,
        } => true,
        _ => false,
    }
}

} // verus!
