//! What a user prefers, and how older files of preferences are taken over.
use crate::plan_model;
use crate::provider_overlay;
use crate::provider_overlay::ReasoningEffort;
use crate::text;
use crate::textmap::TextMap;
use vstd::prelude::*;

verus! {

/// The version of the preferences that are written.
pub const PREFERENCES_VERSION: u32 = 3;

/// How many reasoning efforts are offered by name.
pub const PRESET_COUNT: usize = 7;

/// The reasoning efforts that are offered by name.
pub open spec fn presets() -> Seq<Seq<char>> {
    seq!["minimal"@, "low"@, "medium"@, "high"@, "xhigh"@, "max"@, "ultra"@]
}

/// The first place, from `i` on, where an effort stands among the presets.
pub open spec fn preset_position(effort: Seq<char>, i: int) -> Option<int>
    decreases PRESET_COUNT - i,
{
    if i < 0 || i >= PRESET_COUNT {
        None
    } else if presets()[i] == effort {
        Some(i)
    } else {
        preset_position(effort, i + 1)
    }
}

/// The preset at a place.
pub fn preset(index: usize) -> (r: Option<&'static str>)
    ensures
        provider_overlay::opt_str(r) == (if index < PRESET_COUNT {
            Some(presets()[index as int])
        } else {
            None
        }),
{
    match index {
        0 => Some("minimal"),
        1 => Some("low"),
        2 => Some("medium"),
        3 => Some("high"),
        4 => Some("xhigh"),
        5 => Some("max"),
        6 => Some("ultra"),
        _ => None,
    }
}

/// Where an effort stands among the presets.
pub fn preset_index(effort: &str) -> (r: Option<usize>)
    ensures
        match r {
            Some(i) => i < PRESET_COUNT && preset_position(effort@, 0) == Some(i as int),
            None => preset_position(effort@, 0) is None,
        },
{
    let mut i: usize = 0;
    while i < PRESET_COUNT
        invariant
            i <= PRESET_COUNT,
            preset_position(effort@, 0) == preset_position(effort@, i as int),
        decreases PRESET_COUNT - i,
    {
        match preset(i) {
            Some(value) => {
                if text::same(value, effort) {
                    return Some(i);
                }
            },
            None => {},
        }
        i += 1;
    }
    None
}

/// The colours of code.
#[derive(Debug, Clone, Copy, PartialEq, Eq, Structural)]
pub enum CodeTheme {
    Dracula,
    CatppuccinMocha,
    MonokaiBright,
}

impl Default for CodeTheme {
    fn default() -> (r: Self)
        ensures
            r == CodeTheme::Dracula,
    {
        CodeTheme::Dracula
    }
}

/// How much of a conversation survives when it is compacted.
#[derive(Debug, Clone, Copy, PartialEq, Eq, Structural)]
pub enum CompactionStrategy {
    Compact,
    Balanced,
    PreserveDetail,
}

impl CompactionStrategy {
    pub fn label(self) -> (r: &'static str)
        ensures
            r@ == match self {
                CompactionStrategy::Compact => "Compact"@,
                CompactionStrategy::Balanced => "Balanced"@,
                CompactionStrategy::PreserveDetail => "Preserve detail"@,
            },
    {
        match self {
            CompactionStrategy::Compact => "Compact",
            CompactionStrategy::Balanced => "Balanced",
            CompactionStrategy::PreserveDetail => "Preserve detail",
        }
    }
}

/// The theme that follows another one.
pub open spec fn theme_after(theme: CodeTheme) -> CodeTheme {
    match theme {
        CodeTheme::Dracula => CodeTheme::CatppuccinMocha,
        CodeTheme::CatppuccinMocha => CodeTheme::MonokaiBright,
        CodeTheme::MonokaiBright => CodeTheme::Dracula,
    }
}

/// The theme before another one.
pub open spec fn theme_before(theme: CodeTheme) -> CodeTheme {
    match theme {
        CodeTheme::Dracula => CodeTheme::MonokaiBright,
        CodeTheme::CatppuccinMocha => CodeTheme::Dracula,
        CodeTheme::MonokaiBright => CodeTheme::CatppuccinMocha,
    }
}

/// Going on to the next theme and back, or back and on again, changes nothing, and three
/// steps go through all of them.
pub proof fn themes_go_round(theme: CodeTheme)
    ensures
        theme_before(theme_after(theme)) == theme,
        theme_after(theme_before(theme)) == theme,
        theme_after(theme_after(theme_after(theme))) == theme,
        theme_after(theme) != theme,
{
}

impl CodeTheme {
    pub fn label(self) -> (r: &'static str)
        ensures
            r@ == match self {
                CodeTheme::Dracula => "Dracula"@,
                CodeTheme::CatppuccinMocha => "Catppuccin Mocha"@,
                CodeTheme::MonokaiBright => "Monokai Bright"@,
            },
    {
        match self {
            CodeTheme::Dracula => "Dracula",
            CodeTheme::CatppuccinMocha => "Catppuccin Mocha",
            CodeTheme::MonokaiBright => "Monokai Bright",
        }
    }

    pub fn next(self) -> (r: CodeTheme)
        ensures
            r == theme_after(self),
    {
        match self {
            CodeTheme::Dracula => CodeTheme::CatppuccinMocha,
            CodeTheme::CatppuccinMocha => CodeTheme::MonokaiBright,
            CodeTheme::MonokaiBright => CodeTheme::Dracula,
        }
    }

    pub fn previous(self) -> (r: CodeTheme)
        ensures
            r == theme_before(self),
    {
        match self {
            CodeTheme::Dracula => CodeTheme::MonokaiBright,
            CodeTheme::CatppuccinMocha => CodeTheme::Dracula,
            CodeTheme::MonokaiBright => CodeTheme::CatppuccinMocha,
        }
    }
}

/// What is preferred for one provider.
#[derive(Debug, PartialEq, Eq)]
pub struct TuiProviderState {
    pub model: Option<String>,
    pub reasoning_effort: Option<ReasoningEffort>,
}

/// What is preferred for one provider.
pub struct ProviderStateView {
    pub model: Option<Seq<char>>,
    pub reasoning_effort: Option<Seq<char>>,
}

pub open spec fn effort_view(e: Option<ReasoningEffort>) -> Option<Seq<char>> {
    match e {
        Some(e) => Some(e@),
        None => None,
    }
}

impl View for TuiProviderState {
    type V = ProviderStateView;

    open spec fn view(&self) -> ProviderStateView {
        ProviderStateView {
            model: plan_model::opt(self.model),
            reasoning_effort: effort_view(self.reasoning_effort),
        }
    }
}

fn copy_effort(e: &Option<ReasoningEffort>) -> (r: Option<ReasoningEffort>)
    ensures
        effort_view(r) == effort_view(*e),
{
    match e {
        Some(e) => Some(e.clone()),
        None => None,
    }
}

impl TuiProviderState {
    pub fn model(&self) -> (r: Option<&str>)
        ensures
            provider_overlay::opt_str(r) == self@.model,
    {
        provider_overlay::lend_opt(&self.model)
    }

    pub fn reasoning_effort(&self) -> (r: Option<&ReasoningEffort>)
        ensures
            match r {
                Some(e) => self@.reasoning_effort == Some(e@),
                None => self@.reasoning_effort is None,
            },
    {
        match &self.reasoning_effort {
            Some(e) => Some(e),
            None => None,
        }
    }

    pub fn is_empty(&self) -> (r: bool)
        ensures
            r == (self@.model is None && self@.reasoning_effort is None),
    {
        self.model.is_none() && self.reasoning_effort.is_none()
    }
}

/// The nothing that is preferred for a provider at first.
pub open spec fn no_state() -> ProviderStateView {
    ProviderStateView { model: None, reasoning_effort: None }
}

/// What is preferred for a provider, if anything.
pub open spec fn state_of(
    states: Map<Seq<char>, ProviderStateView>,
    provider: Seq<char>,
) -> ProviderStateView {
    if states.dom().contains(provider) {
        states[provider]
    } else {
        no_state()
    }
}

/// What is wrong with some preferences.
#[derive(Debug, PartialEq, Eq)]
pub enum PreferencesError {
    UnsupportedVersion { path_version: u32, supported_version: u32 },
    Invalid(String),
}

impl PreferencesError {
    pub fn message(&self) -> (r: String)
        ensures
            r@ == match self {
                PreferencesError::UnsupportedVersion { path_version, supported_version } =>
                    "unsupported TUI preferences version "@ + text::decimal(*path_version as nat)
                    + "; this Merry supports version "@ + text::decimal(
                    *supported_version as nat,
                ),
                PreferencesError::Invalid(reason) => "invalid TUI preferences: "@ + reason@,
            },
    {
        match self {
            PreferencesError::UnsupportedVersion { path_version, supported_version } => text::cat4(
                "unsupported TUI preferences version ",
                text::decimal_text(*path_version as u64).as_str(),
                "; this Merry supports version ",
                text::decimal_text(*supported_version as u64).as_str(),
            ),
            PreferencesError::Invalid(reason) => text::cat2(
                "invalid TUI preferences: ",
                reason.as_str(),
            ),
        }
    }
}

pub open spec fn is_unsupported(e: PreferencesError, version: u32) -> bool {
    e == (PreferencesError::UnsupportedVersion {
        path_version: version,
        supported_version: PREFERENCES_VERSION,
    })
}

pub open spec fn is_invalid(e: PreferencesError, reason: Seq<char>) -> bool {
    e matches PreferencesError::Invalid(r) && r@ == reason
}

/// What a user prefers. What is `None` goes by the configuration.
#[derive(Debug, PartialEq, Eq)]
pub struct TuiPreferences {
    pub version: u32,
    pub code_theme: CodeTheme,
    pub provider: Option<String>,
    pub provider_states: TextMap<TuiProviderState>,
    pub context_window_tokens: Option<u64>,
    pub auto_compaction_enabled: Option<bool>,
    pub compaction_strategy: Option<CompactionStrategy>,
    pub subagents_enabled: Option<bool>,
    pub subagent_max_threads: Option<usize>,
}

/// What a user prefers.
pub struct PreferencesView {
    pub version: u32,
    pub code_theme: CodeTheme,
    pub provider: Option<Seq<char>>,
    pub states: Map<Seq<char>, ProviderStateView>,
    pub context_window_tokens: Option<u64>,
    pub auto_compaction_enabled: Option<bool>,
    pub compaction_strategy: Option<CompactionStrategy>,
    pub subagents_enabled: Option<bool>,
    pub subagent_max_threads: Option<usize>,
}

impl View for TuiPreferences {
    type V = PreferencesView;

    open spec fn view(&self) -> PreferencesView {
        PreferencesView {
            version: self.version,
            code_theme: self.code_theme,
            provider: plan_model::opt(self.provider),
            states: self.provider_states.map(),
            context_window_tokens: self.context_window_tokens,
            auto_compaction_enabled: self.auto_compaction_enabled,
            compaction_strategy: self.compaction_strategy,
            subagents_enabled: self.subagents_enabled,
            subagent_max_threads: self.subagent_max_threads,
        }
    }
}

impl Default for TuiPreferences {
    fn default() -> (r: Self)
        ensures
            r.well_formed(),
            r@ == (PreferencesView {
                version: PREFERENCES_VERSION,
                code_theme: CodeTheme::Dracula,
                provider: None,
                states: Map::empty(),
                context_window_tokens: None,
                auto_compaction_enabled: None,
                compaction_strategy: None,
                subagents_enabled: None,
                subagent_max_threads: None,
            }),
    {
        TuiPreferences {
            version: PREFERENCES_VERSION,
            code_theme: CodeTheme::default(),
            provider: None,
            provider_states: TextMap::new(),
            context_window_tokens: None,
            auto_compaction_enabled: None,
            compaction_strategy: None,
            subagents_enabled: None,
            subagent_max_threads: None,
        }
    }
}

/// Preferences with another state for one provider; a state that says nothing is left out.
pub open spec fn with_state(
    p: PreferencesView,
    provider: Seq<char>,
    state: ProviderStateView,
) -> PreferencesView {
    PreferencesView {
        states: if state.model is None && state.reasoning_effort is None {
            p.states.remove(provider)
        } else {
            p.states.insert(provider, state)
        },
        ..p
    }
}

/// Changing what is preferred for one provider changes nothing for another.
pub proof fn providers_keep_their_own_state(
    p: PreferencesView,
    provider: Seq<char>,
    state: ProviderStateView,
    other: Seq<char>,
)
    requires
        other != provider,
    ensures
        state_of(with_state(p, provider, state).states, other) == state_of(p.states, other),
        state_of(with_state(p, provider, state).states, provider) == state,
{
}

/// A name that has to be accepted before preferences are used.
#[derive(Debug, PartialEq, Eq)]
pub enum NameCheck {
    ProviderAlias(String),
    ModelName(String),
}

pub enum NameView {
    ProviderAlias(Seq<char>),
    ModelName(Seq<char>),
}

impl View for NameCheck {
    type V = NameView;

    open spec fn view(&self) -> NameView {
        match self {
            NameCheck::ProviderAlias(s) => NameView::ProviderAlias(s@),
            NameCheck::ModelName(s) => NameView::ModelName(s@),
        }
    }
}

pub open spec fn name_views(v: Seq<NameCheck>) -> Seq<NameView> {
    v.map_values(|n: NameCheck| n@)
}

/// The names in the states of some providers: each alias, and its model behind it.
pub open spec fn state_names(
    keys: Seq<Seq<char>>,
    states: Map<Seq<char>, ProviderStateView>,
) -> Seq<NameView>
    decreases keys.len(),
{
    if keys.len() == 0 {
        Seq::empty()
    } else {
        let before = state_names(keys.drop_last(), states).push(
            NameView::ProviderAlias(keys.last()),
        );
        match states[keys.last()].model {
            Some(model) => before.push(NameView::ModelName(model)),
            None => before,
        }
    }
}

/// Why preferences of the right version and with accepted names are refused, if they are.
pub open spec fn limits_error(p: PreferencesView) -> Option<Seq<char>> {
    if p.subagent_max_threads == Some(0usize) {
        Some("subagent_max_threads must be greater than zero"@)
    } else if p.context_window_tokens == Some(0u64) {
        Some("context_window_tokens must be greater than zero"@)
    } else {
        None
    }
}

impl TuiPreferences {
    pub open spec fn well_formed(self) -> bool {
        self.provider_states.well_formed()
    }

    pub fn reasoning_effort_for_provider(&self, provider: &str) -> (r: Option<&ReasoningEffort>)
        requires
            self.well_formed(),
        ensures
            match r {
                Some(e) => state_of(self@.states, provider@).reasoning_effort == Some(e@),
                None => state_of(self@.states, provider@).reasoning_effort is None,
            },
    {
        match self.provider_states.get(provider) {
            Some(state) => state.reasoning_effort(),
            None => None,
        }
    }

    pub fn reasoning_label_for_provider(&self, provider: &str) -> (r: Option<&str>)
        requires
            self.well_formed(),
        ensures
            provider_overlay::opt_str(r) == state_of(self@.states, provider@).reasoning_effort,
    {
        match self.reasoning_effort_for_provider(provider) {
            Some(e) => Some(e.as_str()),
            None => None,
        }
    }

    pub fn model_for_provider(&self, provider: &str) -> (r: Option<&str>)
        requires
            self.well_formed(),
        ensures
            provider_overlay::opt_str(r) == state_of(self@.states, provider@).model,
    {
        match self.provider_states.get(provider) {
            Some(state) => state.model(),
            None => None,
        }
    }

    fn put_state(&mut self, provider: &str, state: TuiProviderState)
        requires
            old(self).well_formed(),
        ensures
            final(self).well_formed(),
            final(self)@ == with_state(old(self)@, provider@, state@),
    {
        if state.is_empty() {
            let _ = self.provider_states.remove(provider);
        } else {
            self.provider_states.insert(provider, state);
        }
    }

    /// Prefers a model for a provider, or none. `alias` says whether the provider's alias
    /// is accepted, `model` holds the name as the model layer accepted or refused it.
    pub fn set_model_for_provider(
        &mut self,
        provider: &str,
        model: Option<Result<String, String>>,
        alias: Result<(), String>,
    ) -> (r: Result<(), PreferencesError>)
        requires
            old(self).well_formed(),
        ensures
            final(self).well_formed(),
            match (alias, model) {
                (Err(reason), _) => r is Err && is_invalid(r->Err_0, reason@) && final(self)@
                    == old(self)@,
                (Ok(_), Some(Err(reason))) => r is Err && is_invalid(r->Err_0, reason@)
                    && final(self)@ == old(self)@,
                (Ok(_), Some(Ok(name))) => r is Ok && final(self)@ == with_state(
                    old(self)@,
                    provider@,
                    ProviderStateView {
                        model: Some(name@),
                        ..state_of(old(self)@.states, provider@)
                    },
                ),
                (Ok(_), None) => r is Ok && final(self)@ == with_state(
                    old(self)@,
                    provider@,
                    ProviderStateView { model: None, ..state_of(old(self)@.states, provider@) },
                ),
            },
    {
        match alias {
            Err(reason) => {
                return Err(PreferencesError::Invalid(reason));
            },
            Ok(_) => {},
        }
        let name = match model {
            Some(Err(reason)) => {
                return Err(PreferencesError::Invalid(reason));
            },
            Some(Ok(name)) => Some(name),
            None => None,
        };
        let reasoning_effort = match self.provider_states.get(provider) {
            Some(state) => copy_effort(&state.reasoning_effort),
            None => None,
        };
        self.put_state(provider, TuiProviderState { model: name, reasoning_effort });
        Ok(())
    }

    /// Prefers a reasoning effort for a provider, or none.
    pub fn set_reasoning_effort_for_provider(
        &mut self,
        provider: &str,
        reasoning_effort: Option<ReasoningEffort>,
        alias: Result<(), String>,
    ) -> (r: Result<(), PreferencesError>)
        requires
            old(self).well_formed(),
        ensures
            final(self).well_formed(),
            match alias {
                Err(reason) => r is Err && is_invalid(r->Err_0, reason@) && final(self)@
                    == old(self)@,
                Ok(_) => r is Ok && final(self)@ == with_state(
                    old(self)@,
                    provider@,
                    ProviderStateView {
                        reasoning_effort: effort_view(reasoning_effort),
                        ..state_of(old(self)@.states, provider@)
                    },
                ),
            },
    {
        match alias {
            Err(reason) => {
                return Err(PreferencesError::Invalid(reason));
            },
            Ok(_) => {},
        }
        let model = match self.provider_states.get(provider) {
            Some(state) => provider_overlay::copy_opt(&state.model),
            None => None,
        };
        self.put_state(provider, TuiProviderState { model, reasoning_effort });
        Ok(())
    }

    /// Forgets what is preferred for a provider.
    pub fn clear_provider_state(&mut self, provider: &str, alias: Result<(), String>) -> (r: Result<
        (),
        PreferencesError,
    >)
        requires
            old(self).well_formed(),
        ensures
            final(self).well_formed(),
            match alias {
                Err(reason) => r is Err && is_invalid(r->Err_0, reason@) && final(self)@
                    == old(self)@,
                Ok(_) => r is Ok && final(self)@ == with_state(
                    old(self)@,
                    provider@,
                    no_state(),
                ),
            },
    {
        match alias {
            Err(reason) => Err(PreferencesError::Invalid(reason)),
            Ok(_) => {
                let _ = self.provider_states.remove(provider);
                Ok(())
            },
        }
    }

    /// Prefers a model and an effort for a provider, in place of what it had.
    pub fn set_model_and_reasoning_for_provider(
        &mut self,
        provider: &str,
        model: Result<String, String>,
        reasoning_effort: ReasoningEffort,
        alias: Result<(), String>,
    ) -> (r: Result<(), PreferencesError>)
        requires
            old(self).well_formed(),
        ensures
            final(self).well_formed(),
            match (model, alias) {
                (Err(reason), _) => r is Err && is_invalid(r->Err_0, reason@) && final(self)@
                    == old(self)@,
                (Ok(_), Err(reason)) => r is Err && is_invalid(r->Err_0, reason@) && final(self)@
                    == old(self)@,
                (Ok(name), Ok(_)) => r is Ok && final(self)@ == with_state(
                    old(self)@,
                    provider@,
                    ProviderStateView {
                        model: Some(name@),
                        reasoning_effort: Some(reasoning_effort@),
                    },
                ),
            },
    {
        let name = match model {
            Err(reason) => {
                return Err(PreferencesError::Invalid(reason));
            },
            Ok(name) => name,
        };
        match alias {
            Err(reason) => {
                return Err(PreferencesError::Invalid(reason));
            },
            Ok(_) => {},
        }
        self.put_state(
            provider,
            TuiProviderState { model: Some(name), reasoning_effort: Some(reasoning_effort) },
        );
        Ok(())
    }

    /// The names that have to be accepted, in the order in which they are checked.
    pub fn names_to_check(&self) -> (r: Vec<NameCheck>)
        requires
            self.well_formed(),
        ensures
            name_views(r@) == (match self@.provider {
                Some(p) => seq![NameView::ProviderAlias(p)],
                None => Seq::empty(),
            }) + state_names(self.provider_states.keys_view(), self@.states),
    {
        let mut r: Vec<NameCheck> = Vec::new();
        match &self.provider {
            Some(p) => r.push(NameCheck::ProviderAlias(p.clone())),
            None => {},
        }
        let ghost head = name_views(r@);
        proof {
            assert(head =~= (match self@.provider {
                Some(p) => seq![NameView::ProviderAlias(p)],
                None => Seq::empty(),
            }));
        }
        let keys = self.provider_states.keys();
        let ghost all = text::views(keys@);
        let mut i: usize = 0;
        proof {
            assert(name_views(r@) =~= head + state_names(all.take(0), self@.states));
        }
        while i < keys.len()
            invariant
                i <= keys@.len(),
                self.well_formed(),
                all == text::views(keys@),
                forall|k: Seq<char>| #[trigger]
                    self.provider_states.map().dom().contains(k) <==> all.contains(k),
                name_views(r@) == head + state_names(all.take(i as int), self@.states),
            decreases keys@.len() - i,
        {
            let ghost before = r@;
            let ghost done = state_names(all.take(i as int), self@.states);
            proof {
                assert(all.take(i + 1).drop_last() =~= all.take(i as int));
                assert(all[i as int] == keys@[i as int]@);
                assert(all.contains(keys@[i as int]@));
            }
            r.push(NameCheck::ProviderAlias(keys[i].clone()));
            let ghost middle = r@;
            proof {
                assert(name_views(middle) =~= name_views(before).push(
                    NameView::ProviderAlias(keys@[i as int]@),
                ));
            }
            match self.provider_states.get(keys[i].as_str()) {
                Some(state) => {
                    match &state.model {
                        Some(model) => {
                            r.push(NameCheck::ModelName(model.clone()));
                            proof {
                                assert(name_views(r@) =~= name_views(middle).push(
                                    NameView::ModelName(model@),
                                ));
                            }
                        },
                        None => {},
                    }
                },
                None => {},
            }
            proof {
                assert(name_views(r@) =~= head + state_names(all.take(i + 1), self@.states));
            }
            i += 1;
        }
        proof {
            assert(all.take(i as int) =~= all);
        }
        r
    }

    /// Whether preferences can be used. `name_error` is why the first of the names to
    /// check that is refused is refused.
    pub fn validate(&self, name_error: Option<String>) -> (r: Result<(), PreferencesError>)
        ensures
            if self@.version != PREFERENCES_VERSION {
                r is Err && is_unsupported(r->Err_0, self@.version)
            } else if name_error is Some {
                r is Err && is_invalid(r->Err_0, name_error->0@)
            } else {
                match limits_error(self@) {
                    Some(reason) => r is Err && is_invalid(r->Err_0, reason),
                    None => r is Ok,
                }
            },
    {
        if self.version != PREFERENCES_VERSION {
            return Err(
                PreferencesError::UnsupportedVersion {
                    path_version: self.version,
                    supported_version: PREFERENCES_VERSION,
                },
            );
        }
        match name_error {
            Some(reason) => {
                return Err(PreferencesError::Invalid(reason));
            },
            None => {},
        }
        if self.subagent_max_threads == Some(0usize) {
            return Err(
                PreferencesError::Invalid(
                    "subagent_max_threads must be greater than zero".to_owned(),
                ),
            );
        }
        if self.context_window_tokens == Some(0u64) {
            return Err(
                PreferencesError::Invalid(
                    "context_window_tokens must be greater than zero".to_owned(),
                ),
            );
        }
        Ok(())
    }
}

/// The version that preferences without one have now.
pub fn preferences_version() -> (r: u32)
    ensures
        r == PREFERENCES_VERSION,
{
    PREFERENCES_VERSION
}

/// The version that a file without one has.
pub fn legacy_preferences_version() -> (r: u32)
    ensures
        r == 1,
{
    1
}

/// The form that a file of preferences has.
#[derive(Debug, Clone, Copy, PartialEq, Eq, Structural)]
pub enum PreferencesFormat {
    Legacy,
    PerProviderModels,
    Current,
}

/// The form that a file of a version has.
pub fn preferences_format(version: u32) -> (r: Result<PreferencesFormat, PreferencesError>)
    ensures
        match version {
            1 => r == Ok::<_, PreferencesError>(PreferencesFormat::Legacy),
            2 => r == Ok::<_, PreferencesError>(PreferencesFormat::PerProviderModels),
            3 => r == Ok::<_, PreferencesError>(PreferencesFormat::Current),
            _ => r is Err && is_unsupported(r->Err_0, version),
        },
{
    match version {
        1 => Ok(PreferencesFormat::Legacy),
        2 => Ok(PreferencesFormat::PerProviderModels),
        3 => Ok(PreferencesFormat::Current),
        _ => Err(
            PreferencesError::UnsupportedVersion {
                path_version: version,
                supported_version: PREFERENCES_VERSION,
            },
        ),
    }
}

/// Preferences with a model for each provider and one reasoning effort for all.
#[derive(Debug, PartialEq, Eq)]
pub struct StoredTuiPreferencesV2 {
    pub version: u32,
    pub code_theme: CodeTheme,
    pub provider: Option<String>,
    pub models: Vec<(String, String)>,
    pub reasoning_effort: Option<ReasoningEffort>,
    pub context_window_tokens: Option<u64>,
    pub auto_compaction_enabled: Option<bool>,
    pub compaction_strategy: Option<CompactionStrategy>,
    pub subagents_enabled: Option<bool>,
    pub subagent_max_threads: Option<usize>,
}

/// Preferences with one model and one reasoning effort.
#[derive(Debug, PartialEq, Eq)]
pub struct LegacyTuiPreferences {
    pub version: u32,
    pub code_theme: CodeTheme,
    pub provider: Option<String>,
    pub model: Option<String>,
    pub reasoning_effort: Option<ReasoningEffort>,
    pub subagents_enabled: Option<bool>,
    pub subagent_max_threads: Option<usize>,
}

pub open spec fn pair_views(v: Seq<(String, String)>) -> Seq<(Seq<char>, Seq<char>)> {
    v.map_values(|p: (String, String)| (p.0@, p.1@))
}

/// The states that some models make: one for each provider, the last model that is given.
pub open spec fn model_states(models: Seq<(Seq<char>, Seq<char>)>) -> Map<
    Seq<char>,
    ProviderStateView,
>
    decreases models.len(),
{
    if models.len() == 0 {
        Map::empty()
    } else {
        model_states(models.drop_last()).insert(
            models.last().0,
            ProviderStateView { model: Some(models.last().1), reasoning_effort: None },
        )
    }
}

/// The one of two optional texts that is there, the first before the second.
pub open spec fn either(a: Option<Seq<char>>, b: Option<Seq<char>>) -> Option<Seq<char>> {
    if a is Some {
        a
    } else {
        b
    }
}

/// States with the effort put to the provider that it was meant for.
pub open spec fn with_effort(
    states: Map<Seq<char>, ProviderStateView>,
    effort: Option<Seq<char>>,
    provider: Option<Seq<char>>,
) -> Map<Seq<char>, ProviderStateView> {
    match (effort, provider) {
        (Some(e), Some(p)) => states.insert(
            p,
            ProviderStateView { reasoning_effort: Some(e), ..state_of(states, p) },
        ),
        _ => states,
    }
}

/// The states of older preferences: their models, and the effort for the provider that
/// was selected.
fn migrate_provider_states(
    provider: &Option<String>,
    models: Vec<(String, String)>,
    reasoning_effort: Option<ReasoningEffort>,
    default_provider: Option<&str>,
) -> (r: TextMap<TuiProviderState>)
    ensures
        r.well_formed(),
        r.map() == with_effort(
            model_states(pair_views(models@)),
            effort_view(reasoning_effort),
            either(plan_model::opt(*provider), provider_overlay::opt_str(default_provider)),
        ),
{
    let mut states: TextMap<TuiProviderState> = TextMap::new();
    let ghost all = pair_views(models@);
    let mut i: usize = 0;
    while i < models.len()
        invariant
            i <= models@.len(),
            all == pair_views(models@),
            states.well_formed(),
            states.map() == model_states(all.take(i as int)),
        decreases models@.len() - i,
    {
        proof {
            assert(all.take(i + 1).drop_last() =~= all.take(i as int));
            assert(all.take(i + 1).last() == (models@[i as int].0@, models@[i as int].1@));
        }
        states.insert(
            models[i].0.as_str(),
            TuiProviderState { model: Some(models[i].1.clone()), reasoning_effort: None },
        );
        i += 1;
    }
    proof {
        assert(all.take(i as int) =~= all);
    }
    let target = match provider {
        Some(p) => Some(p.as_str()),
        None => default_provider,
    };
    match (reasoning_effort, target) {
        (Some(effort), Some(p)) => {
            let model = match states.get(p) {
                Some(state) => provider_overlay::copy_opt(&state.model),
                None => None,
            };
            states.insert(p, TuiProviderState { model, reasoning_effort: Some(effort) });
        },
        _ => {},
    }
    states
}

impl StoredTuiPreferencesV2 {
    /// The preferences as they are held now. The names in them have yet to be checked.
    pub fn migrate(self, default_provider: Option<&str>) -> (r: Result<
        TuiPreferences,
        PreferencesError,
    >)
        ensures
            match r {
                Err(e) => self.version != 2 && is_unsupported(e, self.version),
                Ok(p) => self.version == 2 && p.well_formed() && p@ == (PreferencesView {
                    version: PREFERENCES_VERSION,
                    code_theme: self.code_theme,
                    provider: plan_model::opt(self.provider),
                    states: with_effort(
                        model_states(pair_views(self.models@)),
                        effort_view(self.reasoning_effort),
                        either(
                            plan_model::opt(self.provider),
                            provider_overlay::opt_str(default_provider),
                        ),
                    ),
                    context_window_tokens: self.context_window_tokens,
                    auto_compaction_enabled: self.auto_compaction_enabled,
                    compaction_strategy: self.compaction_strategy,
                    subagents_enabled: self.subagents_enabled,
                    subagent_max_threads: self.subagent_max_threads,
                }),
            },
    {
        if self.version != 2 {
            return Err(
                PreferencesError::UnsupportedVersion {
                    path_version: self.version,
                    supported_version: PREFERENCES_VERSION,
                },
            );
        }
        let provider_states = migrate_provider_states(
            &self.provider,
            self.models,
            self.reasoning_effort,
            default_provider,
        );
        Ok(
            TuiPreferences {
                version: PREFERENCES_VERSION,
                code_theme: self.code_theme,
                provider: self.provider,
                provider_states,
                context_window_tokens: self.context_window_tokens,
                auto_compaction_enabled: self.auto_compaction_enabled,
                compaction_strategy: self.compaction_strategy,
                subagents_enabled: self.subagents_enabled,
                subagent_max_threads: self.subagent_max_threads,
            },
        )
    }
}

impl LegacyTuiPreferences {
    /// The preferences as they are held now: the model goes to the provider that was
    /// selected. The names in them have yet to be checked.
    pub fn migrate(self, default_provider: Option<&str>) -> (r: Result<
        TuiPreferences,
        PreferencesError,
    >)
        ensures
            ({
                let target = either(
                    plan_model::opt(self.provider),
                    provider_overlay::opt_str(default_provider),
                );
                if self.version != 1 {
                    r is Err && is_unsupported(r->Err_0, self.version)
                } else if self.model is Some && target is None {
                    r is Err && is_invalid(
                        r->Err_0,
                        "version 1 model preference cannot migrate without a provider"@,
                    )
                } else {
                    r is Ok && r->Ok_0.well_formed() && r->Ok_0@ == (PreferencesView {
                        version: PREFERENCES_VERSION,
                        code_theme: self.code_theme,
                        provider: plan_model::opt(self.provider),
                        states: with_effort(
                            match self.model {
                                Some(m) => model_states(seq![(target->0, m@)]),
                                None => Map::empty(),
                            },
                            effort_view(self.reasoning_effort),
                            target,
                        ),
                        context_window_tokens: None,
                        auto_compaction_enabled: None,
                        compaction_strategy: None,
                        subagents_enabled: self.subagents_enabled,
                        subagent_max_threads: self.subagent_max_threads,
                    })
                }
            }),
    {
        if self.version != 1 {
            return Err(
                PreferencesError::UnsupportedVersion {
                    path_version: self.version,
                    supported_version: PREFERENCES_VERSION,
                },
            );
        }
        let ghost target = either(
            plan_model::opt(self.provider),
            provider_overlay::opt_str(default_provider),
        );
        let mut models: Vec<(String, String)> = Vec::new();
        match self.model {
            Some(model) => {
                let provider = match &self.provider {
                    Some(p) => p.clone(),
                    None => match default_provider {
                        Some(p) => p.to_owned(),
                        None => {
                            return Err(
                                PreferencesError::Invalid(
                                    "version 1 model preference cannot migrate without a provider".to_owned(),
                                ),
                            );
                        },
                    },
                };
                models.push((provider, model));
                proof {
                    assert(pair_views(models@) =~= seq![(target->0, model@)]);
                }
            },
            None => {
                proof {
                    assert(pair_views(models@) =~= Seq::empty());
                }
            },
        }
        let provider_states = migrate_provider_states(
            &self.provider,
            models,
            self.reasoning_effort,
            default_provider,
        );
        Ok(
            TuiPreferences {
                version: PREFERENCES_VERSION,
                code_theme: self.code_theme,
                provider: self.provider,
                provider_states,
                context_window_tokens: None,
                auto_compaction_enabled: None,
                compaction_strategy: None,
                subagents_enabled: self.subagents_enabled,
                subagent_max_threads: self.subagent_max_threads,
            },
        )
    }
}

/// An older reasoning effort reaches only the provider that was selected, and no model is
/// lost or moved on the way.
pub proof fn migration_gives_the_effort_to_one_provider(
    states: Map<Seq<char>, ProviderStateView>,
    effort: Option<Seq<char>>,
    selected: Option<Seq<char>>,
    provider: Seq<char>,
)
    ensures
        state_of(with_effort(states, effort, selected), provider).model == state_of(
            states,
            provider,
        ).model,
        selected != Some(provider) ==> state_of(with_effort(states, effort, selected), provider)
            == state_of(states, provider),
{
}

/// Where preferences are kept.
#[derive(Debug, Clone, PartialEq, Eq)]
pub struct TuiPreferencesStore {
    path: String,
}

impl View for TuiPreferencesStore {
    type V = Seq<char>;

    closed spec fn view(&self) -> Seq<char> {
        self.path@
    }
}

impl TuiPreferencesStore {
    pub fn new(path: String) -> (r: TuiPreferencesStore)
        ensures
            r@ == path@,
    {
        TuiPreferencesStore { path }
    }

    pub fn path(&self) -> (r: &str)
        ensures
            r@ == self@,
    {
        self.path.as_str()
    }

    /// The name of the file that is written before it takes the place of the old one.
    pub fn temporary_name(process: u32, counter: u64) -> (r: String)
        ensures
            r@ == ".tui-preferences.toml.tmp-"@ + text::decimal(process as nat) + "-"@
                + text::decimal(counter as nat),
    {
        text::cat4(
            ".tui-preferences.toml.tmp-",
            text::decimal_text(process as u64).as_str(),
            "-",
            text::decimal_text(counter).as_str(),
        )
    }
}

/// The settings that hold where nothing else is preferred.
#[derive(Debug, PartialEq, Eq)]
pub struct TuiSettingsDefaults {
    pub provider_aliases: Vec<String>,
    pub provider: Option<String>,
    pub model: Option<String>,
    pub reasoning_efforts: TextMap<ReasoningEffort>,
    pub context_window_tokens: u64,
    pub subagents_enabled: bool,
    pub subagent_max_threads: usize,
    pub auto_compaction_enabled: bool,
    pub compaction_strategy: String,
}

/// What a configuration file says of these settings.
#[derive(Debug, PartialEq, Eq)]
pub struct ConfiguredSettings {
    pub provider_aliases: Vec<String>,
    /// The default provider's alias and model.
    pub default_provider: Option<(String, String)>,
    /// The effort of each provider, in the order of the aliases.
    pub reasoning_efforts: Vec<Option<ReasoningEffort>>,
    pub subagents_enabled: bool,
    pub subagent_max_threads: usize,
    pub auto_compaction_enabled: bool,
}

/// What the runtime does on its own.
#[derive(Debug, Clone, Copy, PartialEq, Eq, Structural)]
pub struct RuntimeLimits {
    pub context_window_tokens: u64,
    pub subagent_max_threads: usize,
}

/// The efforts that some providers are configured with.
pub open spec fn configured_efforts(
    aliases: Seq<Seq<char>>,
    efforts: Seq<Option<Seq<char>>>,
) -> Map<Seq<char>, Seq<char>>
    decreases aliases.len(),
{
    if aliases.len() == 0 {
        Map::empty()
    } else {
        let before = configured_efforts(aliases.drop_last(), efforts);
        match efforts[aliases.len() - 1] {
            Some(e) => before.insert(aliases.last(), e),
            None => before,
        }
    }
}

pub open spec fn effort_views(v: Seq<Option<ReasoningEffort>>) -> Seq<Option<Seq<char>>> {
    v.map_values(|e: Option<ReasoningEffort>| effort_view(e))
}

impl TuiSettingsDefaults {
    pub open spec fn well_formed(self) -> bool {
        self.reasoning_efforts.well_formed()
    }

    /// The settings where nothing is configured.
    pub fn built_in(limits: RuntimeLimits) -> (r: TuiSettingsDefaults)
        ensures
            r.well_formed(),
            r.provider_aliases@ == Seq::<String>::empty(),
            r.provider is None,
            r.model is None,
            r.reasoning_efforts.map() == Map::<Seq<char>, Seq<char>>::empty(),
            r.context_window_tokens == limits.context_window_tokens,
            !r.subagents_enabled,
            r.subagent_max_threads == limits.subagent_max_threads,
            r.auto_compaction_enabled,
            r.compaction_strategy@ == "Balanced"@,
    {
        TuiSettingsDefaults {
            provider_aliases: Vec::new(),
            provider: None,
            model: None,
            reasoning_efforts: TextMap::new(),
            context_window_tokens: limits.context_window_tokens,
            subagents_enabled: false,
            subagent_max_threads: limits.subagent_max_threads,
            auto_compaction_enabled: true,
            compaction_strategy: "Balanced".to_owned(),
        }
    }

    /// The settings of a configuration; each provider has its own reasoning effort.
    pub fn from_config(config: ConfiguredSettings, limits: RuntimeLimits) -> (r:
        TuiSettingsDefaults)
        requires
            config.reasoning_efforts@.len() == config.provider_aliases@.len(),
        ensures
            r.well_formed(),
            r.provider_aliases == config.provider_aliases,
            plan_model::opt(r.provider) == (match config.default_provider {
                Some(p) => Some(p.0@),
                None => None,
            }),
            plan_model::opt(r.model) == (match config.default_provider {
                Some(p) => Some(p.1@),
                None => None,
            }),
            r.reasoning_efforts.map() == configured_efforts(
                text::views(config.provider_aliases@),
                effort_views(config.reasoning_efforts@),
            ),
            r.context_window_tokens == limits.context_window_tokens,
            r.subagents_enabled == config.subagents_enabled,
            r.subagent_max_threads == config.subagent_max_threads,
            r.auto_compaction_enabled == config.auto_compaction_enabled,
            r.compaction_strategy@ == "Config"@,
    {
        let mut efforts: TextMap<ReasoningEffort> = TextMap::new();
        let ghost aliases = text::views(config.provider_aliases@);
        let ghost given = effort_views(config.reasoning_efforts@);
        let mut i: usize = 0;
        while i < config.provider_aliases.len()
            invariant
                i <= config.provider_aliases@.len(),
                config.reasoning_efforts@.len() == config.provider_aliases@.len(),
                aliases == text::views(config.provider_aliases@),
                given == effort_views(config.reasoning_efforts@),
                efforts.well_formed(),
                efforts.map() == configured_efforts(aliases.take(i as int), given),
            decreases config.provider_aliases@.len() - i,
        {
            proof {
                assert(aliases.take(i + 1).drop_last() =~= aliases.take(i as int));
                assert(given[i as int] == effort_view(config.reasoning_efforts@[i as int]));
            }
            match &config.reasoning_efforts[i] {
                Some(effort) => {
                    efforts.insert(config.provider_aliases[i].as_str(), effort.clone());
                },
                None => {},
            }
            i += 1;
        }
        proof {
            assert(aliases.take(i as int) =~= aliases);
        }
        let (provider, model) = match config.default_provider {
            Some((alias, model)) => (Some(alias), Some(model)),
            None => (None, None),
        };
        TuiSettingsDefaults {
            provider_aliases: config.provider_aliases,
            provider,
            model,
            reasoning_efforts: efforts,
            context_window_tokens: limits.context_window_tokens,
            subagents_enabled: config.subagents_enabled,
            subagent_max_threads: config.subagent_max_threads,
            auto_compaction_enabled: config.auto_compaction_enabled,
            compaction_strategy: "Config".to_owned(),
        }
    }

    /// The effort of a provider, or of the default one where none is named.
    pub fn reasoning_effort_for_provider(&self, provider: Option<&str>) -> (r: Option<
        &ReasoningEffort,
    >)
        requires
            self.well_formed(),
        ensures
            match (r, either(provider_overlay::opt_str(provider), plan_model::opt(self.provider))) {
                (Some(e), Some(p)) => self.reasoning_efforts.map().dom().contains(p) && e@
                    == self.reasoning_efforts.map()[p],
                (None, Some(p)) => !self.reasoning_efforts.map().dom().contains(p),
                (None, None) => true,
                (Some(_), None) => false,
            },
    {
        let alias = match provider {
            Some(p) => p,
            None => match &self.provider {
                Some(p) => p.as_str(),
                None => {
                    return None;
                },
            },
        };
        self.reasoning_efforts.get(alias)
    }
}

/// A preset is found where it stands; what is not found is no preset.
pub proof fn presets_are_found_where_they_stand(effort: Seq<char>)
    ensures
        preset_position(effort, 0) matches Some(k) ==> 0 <= k < presets().len() && presets()[k]
            == effort,
        preset_position(effort, 0) is None ==> !presets().contains(effort),
{
    lemma_preset_position(effort, 0);
    if preset_position(effort, 0) is None && presets().contains(effort) {
        let k = choose|k: int| 0 <= k < presets().len() && presets()[k] == effort;
        assert(presets()[k] != effort);
    }
}

proof fn lemma_preset_position(effort: Seq<char>, i: int)
    requires
        0 <= i,
    ensures
        preset_position(effort, i) matches Some(k) ==> i <= k < PRESET_COUNT && presets()[k]
            == effort,
        preset_position(effort, i) is None ==> (forall|k: int|
            i <= k < PRESET_COUNT ==> #[trigger] presets()[k] != effort),
    decreases PRESET_COUNT - i,
{
    if i < PRESET_COUNT && presets()[i] != effort {
        lemma_preset_position(effort, i + 1);
    }
}

/// Preferences keep to the limits if and only if neither limit is nought, and the reason names
/// the one that is.
pub proof fn limits_are_above_nought(p: PreferencesView)
    ensures
        limits_error(p) is None <==> p.subagent_max_threads != Some(0usize)
            && p.context_window_tokens != Some(0u64),
        p.subagent_max_threads == Some(0usize) ==> limits_error(p) == Some(
            "subagent_max_threads must be greater than zero"@,
        ),
        p.subagent_max_threads != Some(0usize) && p.context_window_tokens == Some(0u64)
            ==> limits_error(p) == Some("context_window_tokens must be greater than zero"@),
{
}

/// Of the models that are given for a provider the last one counts; a provider without any has
/// no state.
pub proof fn the_last_model_counts(models: Seq<(Seq<char>, Seq<char>)>, k: int)
    requires
        0 <= k < models.len(),
        forall|j: int| k < j < models.len() ==> (#[trigger] models[j]).0 != models[k].0,
    ensures
        model_states(models).dom().contains(models[k].0),
        model_states(models)[models[k].0].model == Some(models[k].1),
        model_states(models)[models[k].0].reasoning_effort is None,
    decreases models.len(),
{
    if k < models.len() - 1 {
        let front = models.drop_last();
        assert(models[models.len() - 1].0 != models[k].0);
        assert forall|j: int| k < j < front.len() implies (#[trigger] front[j]).0 != front[k].0 by {
            assert(front[j] == models[j]);
        }
        the_last_model_counts(front, k);
    }
}

/// No provider has a state that no model was given for.
pub proof fn states_come_from_models(models: Seq<(Seq<char>, Seq<char>)>, provider: Seq<char>)
    requires
        forall|j: int| 0 <= j < models.len() ==> (#[trigger] models[j]).0 != provider,
    ensures
        !model_states(models).dom().contains(provider),
    decreases models.len(),
{
    if models.len() > 0 {
        let front = models.drop_last();
        assert(models[models.len() - 1].0 != provider);
        assert forall|j: int| 0 <= j < front.len() implies (#[trigger] front[j]).0 != provider by {
            assert(front[j] == models[j]);
        }
        states_come_from_models(front, provider);
    }
}

/// The provider that was selected has the effort afterwards, where there are both; else nothing
/// changes.
pub proof fn the_selected_provider_gets_the_effort(
    states: Map<Seq<char>, ProviderStateView>,
    effort: Option<Seq<char>>,
    selected: Option<Seq<char>>,
)
    ensures
        effort is Some && selected is Some ==> state_of(
            with_effort(states, effort, selected),
            selected->0,
        ).reasoning_effort == effort,
        effort is None || selected is None ==> with_effort(states, effort, selected) == states,
        selected is Some && state_of(states, selected->0).model is Some ==> state_of(
            with_effort(states, effort, selected),
            selected->0,
        ).model == state_of(states, selected->0).model,
{
}

proof fn lemma_names_grow(keys: Seq<Seq<char>>, states: Map<Seq<char>, ProviderStateView>, n: int)
    requires
        0 <= n <= keys.len(),
    ensures
        state_names(keys.take(n), states).is_prefix_of(state_names(keys, states)),
    decreases keys.len() - n,
{
    let whole = state_names(keys, states);
    if n == keys.len() {
        assert(keys.take(n) =~= keys);
        assert(whole =~= whole.subrange(0, whole.len() as int));
    } else {
        lemma_names_grow(keys, states, n + 1);
        let more = state_names(keys.take(n + 1), states);
        let less = state_names(keys.take(n), states);
        assert(keys.take(n + 1).drop_last() =~= keys.take(n));
        assert(less =~= more.subrange(0, less.len() as int));
        assert(less =~= whole.subrange(0, less.len() as int));
    }
}

/// Every alias and every model that is preferred is among the names that have to be accepted.
pub proof fn every_name_has_to_be_accepted(
    keys: Seq<Seq<char>>,
    states: Map<Seq<char>, ProviderStateView>,
    k: int,
)
    requires
        0 <= k < keys.len(),
    ensures
        state_names(keys, states).contains(NameView::ProviderAlias(keys[k])),
        states[keys[k]].model matches Some(model) ==> state_names(keys, states).contains(
            NameView::ModelName(model),
        ),
{
    lemma_names_grow(keys, states, k + 1);
    let upto = keys.take(k + 1);
    let names = state_names(upto, states);
    let whole = state_names(keys, states);
    let before = state_names(upto.drop_last(), states);
    assert(upto.last() == keys[k]);
    assert(names[before.len() as int] == NameView::ProviderAlias(keys[k]));
    assert(whole[before.len() as int] == names[before.len() as int]);
    if states[keys[k]].model is Some {
        assert(names[before.len() as int + 1] == NameView::ModelName(states[keys[k]].model->0));
        assert(whole[before.len() as int + 1] == names[before.len() as int + 1]);
    }
}

/// A provider that is configured with an effort has it, the last one where it is named more
/// than once with one.
pub proof fn configured_efforts_are_kept(
    aliases: Seq<Seq<char>>,
    efforts: Seq<Option<Seq<char>>>,
    k: int,
)
    requires
        0 <= k < aliases.len() <= efforts.len(),
        efforts[k] is Some,
        forall|j: int|
            k < j < aliases.len() ==> #[trigger] aliases[j] != aliases[k] || efforts[j] is None,
    ensures
        configured_efforts(aliases, efforts).dom().contains(aliases[k]),
        configured_efforts(aliases, efforts)[aliases[k]] == efforts[k]->0,
    decreases aliases.len(),
{
    if k < aliases.len() - 1 {
        let front = aliases.drop_last();
        assert(aliases[aliases.len() - 1] == aliases.last());
        assert forall|j: int| k < j < front.len() implies #[trigger] front[j] != front[k]
            || efforts[j] is None by {
            assert(front[j] == aliases[j]);
        }
        configured_efforts_are_kept(front, efforts, k);
    }
}

} // verus!
