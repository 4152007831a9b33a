//! The providers that are configured, the looking for their models, and what becomes of the
//! preferences when they change.
use crate::plan_model;
use crate::preferences;
use crate::preferences::TuiPreferences;
use crate::provider_form::{ManagedProviderKind, ProviderFormValues};
use crate::provider_overlay;
use crate::provider_overlay::{
    ConfiguredProviderKind, ModelListItem, OpenAiProtocol, ProviderConfigSource, ProviderListItem,
    ReasoningEffort,
};
use crate::script;
use crate::script::PreferenceChange;
use crate::text;
use crate::timeline;
use crate::timeline::TimelineItem;
use vstd::prelude::*;

verus! {

/// A provider as it is configured.
#[derive(Debug, PartialEq, Eq)]
pub struct ProviderProfile {
    pub alias: String,
    pub display_name: String,
    pub kind: ConfiguredProviderKind,
    pub source: ProviderConfigSource,
    pub protocol: Option<OpenAiProtocol>,
    pub default_model: Option<String>,
}

/// A provider as the manager lists it: with the model that is preferred, or else with its
/// own.
pub open spec fn listed(
    p: ProviderProfile,
    states: Map<Seq<char>, preferences::ProviderStateView>,
) -> provider_overlay::ProviderView {
    provider_overlay::ProviderView {
        alias: p.alias@,
        display_name: p.display_name@,
        kind: p.kind,
        source: p.source,
        protocol: p.protocol,
        model: preferences::either(
            preferences::state_of(states, p.alias@).model,
            plan_model::opt(p.default_model),
        ),
    }
}

pub open spec fn all_listed(
    profiles: Seq<ProviderProfile>,
    states: Map<Seq<char>, preferences::ProviderStateView>,
) -> Seq<provider_overlay::ProviderView> {
    profiles.map_values(|p: ProviderProfile| listed(p, states))
}

/// The providers for the manager.
pub fn provider_list_items(profiles: &Vec<ProviderProfile>, preferred: &TuiPreferences) -> (r: Vec<
    ProviderListItem,
>)
    requires
        preferred.well_formed(),
    ensures
        provider_overlay::provider_views(r@) == all_listed(profiles@, preferred@.states),
{
    let mut r: Vec<ProviderListItem> = Vec::new();
    let mut i: usize = 0;
    while i < profiles.len()
        invariant
            i <= profiles.len(),
            preferred.well_formed(),
            provider_overlay::provider_views(r@) == all_listed(
                profiles@.take(i as int),
                preferred@.states,
            ),
        decreases profiles.len() - i,
    {
        let p = &profiles[i];
        let model = match preferred.model_for_provider(p.alias.as_str()) {
            Some(m) => Some(m),
            None => provider_overlay::lend_opt(&p.default_model),
        };
        let item = ProviderListItem::new(
            p.alias.as_str(),
            p.display_name.as_str(),
            p.kind,
            p.source,
            p.protocol,
            model,
        );
        let ghost before = r@;
        r.push(item);
        proof {
            assert(provider_overlay::provider_views(r@) =~= provider_overlay::provider_views(
                before,
            ).push(item@));
            assert(all_listed(profiles@.take(i as int + 1), preferred@.states) =~= all_listed(
                profiles@.take(i as int),
                preferred@.states,
            ).push(listed(profiles@[i as int], preferred@.states)));
        }
        i = i + 1;
    }
    proof {
        assert(profiles@.take(profiles@.len() as int) =~= profiles@);
    }
    r
}

/// The providers for the manager while nothing is preferred yet.
pub fn setup_provider_items(profiles: &Vec<ProviderProfile>) -> (r: Vec<ProviderListItem>)
    ensures
        provider_overlay::provider_views(r@) == all_listed(profiles@, Map::empty()),
{
    let nothing = TuiPreferences::default();
    provider_list_items(profiles, &nothing)
}

pub open spec fn models_listed(models: Seq<(String, Option<String>)>) -> Seq<
    provider_overlay::ModelView,
> {
    models.map_values(
        |m: (String, Option<String>)|
            provider_overlay::ModelView { id: m.0@, owner: plan_model::opt(m.1) },
    )
}

/// The models of a provider, as they are listed: each with its name, and with its owner where
/// that is known.
pub fn model_list_items(models: &Vec<(String, Option<String>)>) -> (r: Vec<ModelListItem>)
    ensures
        provider_overlay::model_views(r@) == models_listed(models@),
{
    let mut r: Vec<ModelListItem> = Vec::new();
    let mut i: usize = 0;
    while i < models.len()
        invariant
            i <= models.len(),
            provider_overlay::model_views(r@) == models_listed(models@.take(i as int)),
        decreases models.len() - i,
    {
        let item = ModelListItem::new(
            models[i].0.as_str(),
            provider_overlay::lend_opt(&models[i].1),
        );
        let ghost before = r@;
        r.push(item);
        proof {
            assert(provider_overlay::model_views(r@) =~= provider_overlay::model_views(
                before,
            ).push(item@));
            assert(models_listed(models@.take(i as int + 1)) =~= models_listed(
                models@.take(i as int),
            ).push(
                provider_overlay::ModelView {
                    id: models@[i as int].0@,
                    owner: plan_model::opt(models@[i as int].1),
                },
            ));
        }
        i = i + 1;
    }
    proof {
        assert(models@.take(models@.len() as int) =~= models@);
    }
    r
}

/// What a request for the models of a form is made from.
#[derive(PartialEq, Eq)]
pub struct ProviderDiscoveryInput {
    pub alias: String,
    pub original_alias: Option<String>,
    pub kind: ManagedProviderKind,
    pub protocol: Option<OpenAiProtocol>,
    pub base_url: String,
    pub api_key: Option<String>,
}

/// The values of a form as a request for models is made from them: without the blanks around
/// them, and with no key where none was entered.
pub fn provider_discovery_draft(original_alias: Option<&str>, values: &ProviderFormValues) -> (r:
    ProviderDiscoveryInput)
    ensures
        r.alias@ == text::trimmed(values@.alias),
        plan_model::opt(r.original_alias) == provider_overlay::opt_str(original_alias),
        r.kind == values@.kind,
        r.protocol == values@.protocol,
        r.base_url@ == text::trimmed(values@.base_url),
        plan_model::opt(r.api_key) == (if text::trimmed(values@.api_key).len() == 0 {
            None
        } else {
            Some(text::trimmed(values@.api_key))
        }),
{
    let key = text::trim(values.api_key.as_str());
    ProviderDiscoveryInput {
        alias: text::trim(values.alias.as_str()),
        original_alias: provider_overlay::own_opt(original_alias),
        kind: values.kind,
        protocol: values.protocol,
        base_url: text::trim(values.base_url.as_str()),
        api_key: if key.as_str().is_empty() {
            None
        } else {
            Some(key)
        },
    }
}

/// The looking for models: which search is the latest, and whether it may be under way.
#[derive(Debug, Clone, Copy, PartialEq, Eq, Structural)]
pub struct Discovery {
    pub generation: u64,
    pub running: bool,
}

/// The number of the search after another.
pub open spec fn next_generation(generation: u64) -> u64 {
    if generation == u64::MAX {
        0
    } else {
        (generation + 1) as u64
    }
}

impl Discovery {
    pub fn new() -> (r: Discovery)
        ensures
            r == (Discovery { generation: 0, running: false }),
    {
        Discovery { generation: 0, running: false }
    }

    /// Begins a search in place of the one before; gives whether that one has to be given up.
    pub fn start(&mut self) -> (r: bool)
        ensures
            r == old(self).running,
            *final(self) == (Discovery {
                generation: next_generation(old(self).generation),
                running: true,
            }),
    {
        let r = self.running;
        self.generation = self.generation.wrapping_add(1);
        self.running = true;
        r
    }

    /// Gives up the search; gives whether there is one to give up.
    pub fn cancel(&mut self) -> (r: bool)
        ensures
            r == old(self).running,
            *final(self) == (Discovery { running: false, ..*old(self) }),
    {
        let r = self.running;
        self.running = false;
        r
    }

    /// Whether the result of a search is still wanted.
    pub fn accepts(&self, generation: u64) -> (r: bool)
        ensures
            r == is_latest(*self, generation),
    {
        self.generation == generation
    }
}

pub open spec fn is_latest(d: Discovery, generation: u64) -> bool {
    d.generation == generation
}

/// Once a search has begun, the result of the one before is ignored, and its own is not.
pub proof fn late_models_are_ignored(before: Discovery)
    ensures
        ({
            let after = Discovery {
                generation: next_generation(before.generation),
                running: true,
            };
            !is_latest(after, before.generation) && is_latest(
                after,
                next_generation(before.generation),
            )
        }),
{
}

/// What is configured of the providers.
#[derive(Debug, PartialEq, Eq)]
pub struct ConfiguredProviders {
    /// The provider to use where none is preferred.
    pub default_provider: Option<String>,
    /// The providers that say themselves which model to use.
    pub with_model: Vec<String>,
}

/// Whether a run can begin: a provider is known, and a model for it.
pub open spec fn can_run(
    config: Option<&ConfiguredProviders>,
    preferred: preferences::PreferencesView,
) -> bool {
    match config {
        None => false,
        Some(config) => match preferences::either(
            preferred.provider,
            plan_model::opt(config.default_provider),
        ) {
            None => false,
            Some(provider) => preferences::state_of(preferred.states, provider).model is Some
                || text::views(config.with_model@).contains(provider),
        },
    }
}

pub fn has_runtime_selection(
    config: Option<&ConfiguredProviders>,
    preferred: &TuiPreferences,
) -> (r: bool)
    requires
        preferred.well_formed(),
    ensures
        r == can_run(config, preferred@),
{
    let known = match config {
        Some(c) => c,
        None => {
            return false;
        },
    };
    let provider = match &preferred.provider {
        Some(p) => p.as_str(),
        None => match &known.default_provider {
            Some(p) => p.as_str(),
            None => {
                return false;
            },
        },
    };
    if preferred.model_for_provider(provider).is_some() {
        return true;
    }
    let mut i: usize = 0;
    while i < known.with_model.len()
        invariant
            i <= known.with_model.len(),
            config == Some(known),
            Some(provider@) == preferences::either(
                preferred@.provider,
                plan_model::opt(known.default_provider),
            ),
            forall|j: int| 0 <= j < i ==> #[trigger] known.with_model@[j]@ != provider@,
        decreases known.with_model.len() - i,
    {
        if text::same(known.with_model[i].as_str(), provider) {
            proof {
                assert(text::views(known.with_model@)[i as int] == provider@);
            }
            return true;
        }
        i = i + 1;
    }
    proof {
        assert forall|j: int| 0 <= j < text::views(known.with_model@).len() implies text::views(
            known.with_model@,
        )[j] != provider@ by {
            assert(known.with_model@[j]@ != provider@);
        }
    }
    false
}

/// A provider that has just been saved, or changed.
#[derive(Debug, PartialEq, Eq)]
pub struct SavedProvider {
    pub alias: String,
    pub model: String,
    pub reasoning_effort: Option<ReasoningEffort>,
}

/// Preferences with another model for one provider.
pub open spec fn with_model(
    p: preferences::PreferencesView,
    alias: Seq<char>,
    model: Option<Seq<char>>,
) -> preferences::PreferencesView {
    preferences::with_state(
        p,
        alias,
        preferences::ProviderStateView { model, ..preferences::state_of(p.states, alias) },
    )
}

/// Preferences with another provider in use.
pub open spec fn using(p: preferences::PreferencesView, alias: Seq<char>) -> preferences::PreferencesView {
    preferences::PreferencesView { provider: Some(alias), ..p }
}

/// Preferences after a change.
pub open spec fn changed(
    p: preferences::PreferencesView,
    c: script::ChangeView,
    saved: SavedProvider,
) -> preferences::PreferencesView {
    match c {
        script::ChangeView::ForgetProvider(alias) => preferences::with_state(
            p,
            alias,
            preferences::no_state(),
        ),
        script::ChangeView::ForgetModel(alias) => with_model(p, alias, None),
        script::ChangeView::UseProvider(alias) => using(p, alias),
        script::ChangeView::UseSavedProvider => {
            let renamed = with_model(using(p, saved.alias@), saved.alias@, Some(saved.model@));
            preferences::with_state(
                renamed,
                saved.alias@,
                preferences::ProviderStateView {
                    reasoning_effort: preferences::effort_view(saved.reasoning_effort),
                    ..preferences::state_of(renamed.states, saved.alias@)
                },
            )
        },
        script::ChangeView::UseSavedProviderModel => with_model(
            using(p, saved.alias@),
            saved.alias@,
            Some(saved.model@),
        ),
        script::ChangeView::RememberSavedModel => with_model(p, saved.alias@, Some(saved.model@)),
        script::ChangeView::UseModel { alias, model } => with_model(
            using(p, alias),
            alias,
            Some(model),
        ),
        script::ChangeView::UseModelAndEffort { alias, model, reasoning_effort } =>
            preferences::with_state(
            using(p, alias),
            alias,
            preferences::ProviderStateView {
                model: Some(model),
                reasoning_effort: Some(reasoning_effort),
            },
        ),
    }
}

/// Changes the preferences. `saved` is the provider that has just been saved, or changed. The
/// names in the change, and those of `saved`, are names that the configuration and the model
/// layer have accepted.
pub fn change_preferences(
    preferred: &mut TuiPreferences,
    change: PreferenceChange,
    saved: SavedProvider,
)
    requires
        old(preferred).well_formed(),
    ensures
        final(preferred).well_formed(),
        final(preferred)@ == changed(old(preferred)@, change@, saved),
{
    match change {
        PreferenceChange::ForgetProvider(alias) => {
            let _ = preferred.clear_provider_state(alias.as_str(), Ok(()));
        },
        PreferenceChange::ForgetModel(alias) => {
            let _ = preferred.set_model_for_provider(alias.as_str(), None, Ok(()));
        },
        PreferenceChange::UseProvider(alias) => {
            preferred.provider = Some(alias);
        },
        PreferenceChange::UseSavedProvider => {
            preferred.provider = Some(saved.alias.clone());
            let alias = saved.alias.as_str();
            let _ = preferred.set_model_for_provider(alias, Some(Ok(saved.model)), Ok(()));
            let _ = preferred.set_reasoning_effort_for_provider(
                alias,
                saved.reasoning_effort,
                Ok(()),
            );
        },
        PreferenceChange::UseSavedProviderModel => {
            preferred.provider = Some(saved.alias.clone());
            let alias = saved.alias.as_str();
            let _ = preferred.set_model_for_provider(alias, Some(Ok(saved.model)), Ok(()));
        },
        PreferenceChange::RememberSavedModel => {
            let alias = saved.alias.as_str();
            let _ = preferred.set_model_for_provider(alias, Some(Ok(saved.model)), Ok(()));
        },
        PreferenceChange::UseModel { alias, model } => {
            preferred.provider = Some(alias.clone());
            let _ = preferred.set_model_for_provider(alias.as_str(), Some(Ok(model)), Ok(()));
        },
        PreferenceChange::UseModelAndEffort { alias, model, reasoning_effort } => {
            preferred.provider = Some(alias.clone());
            let _ = preferred.set_model_and_reasoning_for_provider(
                alias.as_str(),
                Ok(model),
                reasoning_effort,
                Ok(()),
            );
        },
    }
}

/// What the conversation begins with when a session is taken up again: where nothing was said
/// in it, a line with its name.
pub fn resume_notice(session_id: &str, transcript_is_empty: bool) -> (r: Option<TimelineItem>)
    ensures
        timeline::opt_item(r) == (if transcript_is_empty {
            Some(timeline::ItemView::Muted { title: "Resumed"@, detail: session_id@ })
        } else {
            None
        }),
{
    if transcript_is_empty {
        Some(TimelineItem::muted("Resumed", session_id))
    } else {
        None
    }
}

} // verus!
