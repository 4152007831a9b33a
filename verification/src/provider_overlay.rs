//! The provider manager and the model picker.
use crate::input;
use crate::input::{TextInput, TextInputViewport};
use crate::key::{KeyCode, KeyEvent};
use crate::menu;
use crate::plan_model;
use crate::provider_form;
use crate::provider_form::ProviderFormValues;
use crate::text;
use vstd::prelude::*;

verus! {

/// The protocol that a provider speaks.
#[derive(Debug, Clone, Copy, PartialEq, Eq, Structural)]
pub enum OpenAiProtocol {
    Responses,
    ChatCompletions,
}

/// The kind of a configured provider.
#[derive(Debug, Clone, Copy, PartialEq, Eq, Structural)]
pub enum ConfiguredProviderKind {
    OpenAiCompatible,
    Anthropic,
}

/// Where a provider is configured. Only managed ones can be changed here.
#[derive(Debug, Clone, Copy, PartialEq, Eq, Structural)]
pub enum ProviderConfigSource {
    Managed,
    User,
}

/// What a chosen model is for.
#[derive(Debug, Clone, Copy, PartialEq, Eq, Structural)]
pub enum ModelPickerTarget {
    ActiveProvider,
    ProviderForm,
}

/// A reasoning effort that the model layer accepts.
#[derive(Debug, PartialEq, Eq)]
pub struct ReasoningEffort {
    pub value: String,
}

impl View for ReasoningEffort {
    type V = Seq<char>;

    open spec fn view(&self) -> Seq<char> {
        self.value@
    }
}

impl Clone for ReasoningEffort {
    fn clone(&self) -> (r: Self)
        ensures
            r@ == self@,
    {
        ReasoningEffort { value: self.value.clone() }
    }
}

impl ReasoningEffort {
    pub fn as_str(&self) -> (r: &str)
        ensures
            r@ == self@,
    {
        self.value.as_str()
    }
}

/// What an overlay asks for after a key press.
#[derive(PartialEq, Eq)]
pub enum ProviderOverlayAction {
    Consumed,
    Back,
    OpenProviderManager,
    OpenProviderForm,
    OpenProviderEditor(String),
    OpenModelPicker(String),
    BackToProviderForm,
    /// Propose an alias for a provider of this name.
    DeriveAlias(String),
    DiscoverFormModels { original_alias: Option<String>, values: ProviderFormValues },
    SaveProvider(ProviderFormValues),
    UpdateProvider { original_alias: String, values: ProviderFormValues },
    RefreshModels(String),
    RefreshFormModels,
    DeleteProvider(String),
    SelectProvider(String),
    SelectModel { alias: String, model: String, target: ModelPickerTarget },
    SelectReasoning {
        alias: String,
        model: String,
        reasoning_effort: ReasoningEffort,
        target: ModelPickerTarget,
    },
}

/// What an overlay asks for, as mathematical values.
pub enum ActionView {
    Consumed,
    Back,
    OpenProviderManager,
    OpenProviderForm,
    OpenProviderEditor(Seq<char>),
    OpenModelPicker(Seq<char>),
    BackToProviderForm,
    DeriveAlias(Seq<char>),
    DiscoverFormModels { original_alias: Option<Seq<char>>, values: provider_form::ValuesView },
    SaveProvider(provider_form::ValuesView),
    UpdateProvider { original_alias: Seq<char>, values: provider_form::ValuesView },
    RefreshModels(Seq<char>),
    RefreshFormModels,
    DeleteProvider(Seq<char>),
    SelectProvider(Seq<char>),
    SelectModel { alias: Seq<char>, model: Seq<char>, target: ModelPickerTarget },
    SelectReasoning {
        alias: Seq<char>,
        model: Seq<char>,
        reasoning_effort: Seq<char>,
        target: ModelPickerTarget,
    },
}

impl View for ProviderOverlayAction {
    type V = ActionView;

    open spec fn view(&self) -> ActionView {
        match self {
            ProviderOverlayAction::Consumed => ActionView::Consumed,
            ProviderOverlayAction::Back => ActionView::Back,
            ProviderOverlayAction::OpenProviderManager => ActionView::OpenProviderManager,
            ProviderOverlayAction::OpenProviderForm => ActionView::OpenProviderForm,
            ProviderOverlayAction::OpenProviderEditor(a) => ActionView::OpenProviderEditor(a@),
            ProviderOverlayAction::OpenModelPicker(a) => ActionView::OpenModelPicker(a@),
            ProviderOverlayAction::BackToProviderForm => ActionView::BackToProviderForm,
            ProviderOverlayAction::DeriveAlias(a) => ActionView::DeriveAlias(a@),
            ProviderOverlayAction::DiscoverFormModels { original_alias, values } =>
                ActionView::DiscoverFormModels {
                original_alias: plan_model::opt(*original_alias),
                values: values@,
            },
            ProviderOverlayAction::SaveProvider(values) => ActionView::SaveProvider(values@),
            ProviderOverlayAction::UpdateProvider { original_alias, values } =>
                ActionView::UpdateProvider { original_alias: original_alias@, values: values@ },
            ProviderOverlayAction::RefreshModels(a) => ActionView::RefreshModels(a@),
            ProviderOverlayAction::RefreshFormModels => ActionView::RefreshFormModels,
            ProviderOverlayAction::DeleteProvider(a) => ActionView::DeleteProvider(a@),
            ProviderOverlayAction::SelectProvider(a) => ActionView::SelectProvider(a@),
            ProviderOverlayAction::SelectModel { alias, model, target } =>
                ActionView::SelectModel { alias: alias@, model: model@, target: *target },
            ProviderOverlayAction::SelectReasoning { alias, model, reasoning_effort, target } =>
                ActionView::SelectReasoning {
                alias: alias@,
                model: model@,
                reasoning_effort: reasoning_effort@,
                target: *target,
            },
        }
    }
}

/// A provider as the manager lists it.
#[derive(Debug, PartialEq, Eq)]
pub struct ProviderListItem {
    alias: String,
    display_name: String,
    kind: ConfiguredProviderKind,
    source: ProviderConfigSource,
    protocol: Option<OpenAiProtocol>,
    model: Option<String>,
}

/// A provider as the manager lists it.
pub struct ProviderView {
    pub alias: Seq<char>,
    pub display_name: Seq<char>,
    pub kind: ConfiguredProviderKind,
    pub source: ProviderConfigSource,
    pub protocol: Option<OpenAiProtocol>,
    pub model: Option<Seq<char>>,
}

impl View for ProviderListItem {
    type V = ProviderView;

    closed spec fn view(&self) -> ProviderView {
        ProviderView {
            alias: self.alias@,
            display_name: self.display_name@,
            kind: self.kind,
            source: self.source,
            protocol: self.protocol,
            model: plan_model::opt(self.model),
        }
    }
}

pub open spec fn provider_views(v: Seq<ProviderListItem>) -> Seq<ProviderView> {
    v.map_values(|p: ProviderListItem| p@)
}

/// An optional text on loan.
pub open spec fn opt_str(o: Option<&str>) -> Option<Seq<char>> {
    match o {
        Some(s) => Some(s@),
        None => None,
    }
}

pub(crate) fn own_opt(o: Option<&str>) -> (r: Option<String>)
    ensures
        plan_model::opt(r) == opt_str(o),
{
    match o {
        Some(s) => Some(s.to_owned()),
        None => None,
    }
}

pub(crate) fn lend_opt(o: &Option<String>) -> (r: Option<&str>)
    ensures
        opt_str(r) == plan_model::opt(*o),
{
    match o {
        Some(s) => Some(s.as_str()),
        None => None,
    }
}

pub(crate) fn copy_opt(o: &Option<String>) -> (r: Option<String>)
    ensures
        plan_model::opt(r) == plan_model::opt(*o),
{
    match o {
        Some(s) => Some(s.clone()),
        None => None,
    }
}

impl Clone for ProviderListItem {
    fn clone(&self) -> (r: Self)
        ensures
            r@ == self@,
    {
        ProviderListItem {
            alias: self.alias.clone(),
            display_name: self.display_name.clone(),
            kind: self.kind,
            source: self.source,
            protocol: self.protocol,
            model: copy_opt(&self.model),
        }
    }
}

impl ProviderListItem {
    pub fn new(
        alias: &str,
        display_name: &str,
        kind: ConfiguredProviderKind,
        source: ProviderConfigSource,
        protocol: Option<OpenAiProtocol>,
        model: Option<&str>,
    ) -> (r: ProviderListItem)
        ensures
            r@ == (ProviderView {
                alias: alias@,
                display_name: display_name@,
                kind,
                source,
                protocol,
                model: opt_str(model),
            }),
    {
        ProviderListItem {
            alias: alias.to_owned(),
            display_name: display_name.to_owned(),
            kind,
            source,
            protocol,
            model: own_opt(model),
        }
    }

    pub fn alias(&self) -> (r: &str)
        ensures
            r@ == self@.alias,
    {
        self.alias.as_str()
    }

    pub fn display_name(&self) -> (r: &str)
        ensures
            r@ == self@.display_name,
    {
        self.display_name.as_str()
    }

    pub fn kind(&self) -> (r: ConfiguredProviderKind)
        ensures
            r == self@.kind,
    {
        self.kind
    }

    pub fn source(&self) -> (r: ProviderConfigSource)
        ensures
            r == self@.source,
    {
        self.source
    }

    pub fn model(&self) -> (r: Option<&str>)
        ensures
            opt_str(r) == self@.model,
    {
        lend_opt(&self.model)
    }

    pub fn protocol(&self) -> (r: Option<OpenAiProtocol>)
        ensures
            r == self@.protocol,
    {
        self.protocol
    }
}

/// The list of providers.
#[derive(Debug, PartialEq, Eq)]
pub struct ProviderManagerOverlay {
    items: Vec<ProviderListItem>,
    selected: usize,
    current_alias: Option<String>,
    notice: Option<String>,
    pending_delete_alias: Option<String>,
}

/// The list of providers.
pub struct ManagerView {
    pub items: Seq<ProviderView>,
    pub selected: int,
    pub current_alias: Option<Seq<char>>,
    pub notice: Option<Seq<char>>,
    pub pending_delete_alias: Option<Seq<char>>,
}

impl View for ProviderManagerOverlay {
    type V = ManagerView;

    closed spec fn view(&self) -> ManagerView {
        ManagerView {
            items: provider_views(self.items@),
            selected: self.selected as int,
            current_alias: plan_model::opt(self.current_alias),
            notice: plan_model::opt(self.notice),
            pending_delete_alias: plan_model::opt(self.pending_delete_alias),
        }
    }
}

/// The first provider with the given alias, or the first of all.
pub open spec fn provider_position(items: Seq<ProviderView>, alias: Option<Seq<char>>, i: int) -> int
    decreases items.len() - i,
{
    if alias is None || i >= items.len() || i < 0 {
        0
    } else if items[i].alias == alias->0 {
        i
    } else {
        provider_position(items, alias, i + 1)
    }
}

impl ManagerView {
    pub open spec fn chosen(self) -> Option<ProviderView> {
        if 0 <= self.selected < self.items.len() {
            Some(self.items[self.selected])
        } else {
            None
        }
    }
}

/// A manager after a key press, and what it asks for. A provider is deleted only on the
/// second press in a row, never one of the user's own files and never the active one.
pub open spec fn manager_key(m: ManagerView, key: KeyEvent) -> (ManagerView, ActionView) {
    match key.code {
        KeyCode::Esc => (m, ActionView::Back),
        KeyCode::Up => (
            ManagerView {
                selected: menu::above(m.selected),
                pending_delete_alias: None,
                ..m
            },
            ActionView::Consumed,
        ),
        KeyCode::Down => (
            ManagerView {
                selected: menu::below(m.selected, m.items.len() as int),
                pending_delete_alias: None,
                ..m
            },
            ActionView::Consumed,
        ),
        KeyCode::Enter => match m.chosen() {
            None => (m, ActionView::OpenProviderForm),
            Some(p) => if p.model is Some {
                (m, ActionView::SelectProvider(p.alias))
            } else {
                (m, ActionView::OpenModelPicker(p.alias))
            },
        },
        KeyCode::Char('e') => match m.chosen() {
            Some(p) if p.source == ProviderConfigSource::Managed => (
                m,
                ActionView::OpenProviderEditor(p.alias),
            ),
            _ => (m, ActionView::Consumed),
        },
        KeyCode::Char('m') => match m.chosen() {
            Some(p) => (m, ActionView::OpenModelPicker(p.alias)),
            None => (m, ActionView::Consumed),
        },
        KeyCode::Char('n') => (m, ActionView::OpenProviderForm),
        KeyCode::Char('d') => match m.chosen() {
            None => (m, ActionView::Consumed),
            Some(p) => if p.source == ProviderConfigSource::User {
                (
                    ManagerView { notice: Some("User config providers are read-only"@), ..m },
                    ActionView::Consumed,
                )
            } else if m.current_alias == Some(p.alias) {
                (
                    ManagerView {
                        notice: Some("Switch provider before deleting the active one"@),
                        ..m
                    },
                    ActionView::Consumed,
                )
            } else if m.pending_delete_alias == Some(p.alias) {
                (m, ActionView::DeleteProvider(p.alias))
            } else {
                (
                    ManagerView {
                        pending_delete_alias: Some(p.alias),
                        notice: Some("Press d again to delete "@ + p.display_name),
                        ..m
                    },
                    ActionView::Consumed,
                )
            },
        },
        _ => (m, ActionView::Consumed),
    }
}

/// Whatever the key, a provider that is asked to be deleted is managed, is not the active
/// one, and was asked about by the press before.
pub proof fn deletions_are_confirmed(m: ManagerView, key: KeyEvent, alias: Seq<char>)
    requires
        manager_key(m, key).1 == ActionView::DeleteProvider(alias),
    ensures
        m.pending_delete_alias == Some(alias),
        m.current_alias != Some(alias),
        m.chosen() matches Some(p) && p.alias == alias && p.source
            == ProviderConfigSource::Managed,
{
}

impl ProviderManagerOverlay {
    pub fn new(items: Vec<ProviderListItem>, current_alias: Option<&str>) -> (r:
        ProviderManagerOverlay)
        ensures
            r@ == (ManagerView {
                items: provider_views(items@),
                selected: provider_position(provider_views(items@), opt_str(current_alias), 0),
                current_alias: opt_str(current_alias),
                notice: None,
                pending_delete_alias: None,
            }),
    {
        let ghost views = provider_views(items@);
        let mut selected: usize = 0;
        match current_alias {
            None => {},
            Some(alias) => {
                let mut i: usize = 0;
                while i < items.len()
                    invariant_except_break
                        i <= items@.len(),
                        selected == 0,
                        views == provider_views(items@),
                        provider_position(views, Some(alias@), 0) == provider_position(
                            views,
                            Some(alias@),
                            i as int,
                        ),
                    ensures
                        selected == provider_position(views, Some(alias@), 0),
                    decreases items@.len() - i,
                {
                    proof {
                        assert(views[i as int] == items@[i as int]@);
                    }
                    if text::same(items[i].alias(), alias) {
                        selected = i;
                        break;
                    }
                    i += 1;
                }
            },
        }
        ProviderManagerOverlay {
            items,
            selected,
            current_alias: own_opt(current_alias),
            notice: None,
            pending_delete_alias: None,
        }
    }

    pub fn items(&self) -> (r: &Vec<ProviderListItem>)
        ensures
            provider_views(r@) == self@.items,
    {
        &self.items
    }

    pub fn selected(&self) -> (r: usize)
        ensures
            r == self@.selected,
    {
        self.selected
    }

    pub fn current_alias(&self) -> (r: Option<&str>)
        ensures
            opt_str(r) == self@.current_alias,
    {
        lend_opt(&self.current_alias)
    }

    fn chosen_item(&self) -> (r: Option<&ProviderListItem>)
        ensures
            match r {
                Some(p) => self@.chosen() == Some(p@),
                None => self@.chosen() is None,
            },
    {
        proof {
            assert(provider_views(self.items@).len() == self.items@.len());
        }
        if self.selected < self.items.len() {
            Some(&self.items[self.selected])
        } else {
            None
        }
    }

    pub fn selected_source(&self) -> (r: Option<ProviderConfigSource>)
        ensures
            r == match self@.chosen() {
                Some(p) => Some(p.source),
                None => None,
            },
    {
        match self.chosen_item() {
            Some(p) => Some(p.source()),
            None => None,
        }
    }

    pub fn notice(&self) -> (r: Option<&str>)
        ensures
            opt_str(r) == self@.notice,
    {
        lend_opt(&self.notice)
    }

    pub fn handle_key(&mut self, key: KeyEvent) -> (r: ProviderOverlayAction)
        ensures
            final(self)@ == manager_key(old(self)@, key).0,
            r@ == manager_key(old(self)@, key).1,
    {
        proof {
            assert(provider_views(self.items@).len() == self.items@.len());
        }
        match key.code {
            KeyCode::Esc => ProviderOverlayAction::Back,
            KeyCode::Up => {
                self.selected = menu::step_above(self.selected);
                self.pending_delete_alias = None;
                ProviderOverlayAction::Consumed
            },
            KeyCode::Down => {
                self.selected = menu::step_below(self.selected, self.items.len());
                self.pending_delete_alias = None;
                ProviderOverlayAction::Consumed
            },
            KeyCode::Enter => match self.chosen_item() {
                None => ProviderOverlayAction::OpenProviderForm,
                Some(item) => match item.model() {
                    Some(_) => ProviderOverlayAction::SelectProvider(item.alias().to_owned()),
                    None => ProviderOverlayAction::OpenModelPicker(item.alias().to_owned()),
                },
            },
            KeyCode::Char('e') => match self.chosen_item() {
                None => ProviderOverlayAction::Consumed,
                Some(item) => if item.source() == ProviderConfigSource::Managed {
                    ProviderOverlayAction::OpenProviderEditor(item.alias().to_owned())
                } else {
                    ProviderOverlayAction::Consumed
                },
            },
            KeyCode::Char('m') => match self.chosen_item() {
                None => ProviderOverlayAction::Consumed,
                Some(item) => ProviderOverlayAction::OpenModelPicker(item.alias().to_owned()),
            },
            KeyCode::Char('n') => ProviderOverlayAction::OpenProviderForm,
            KeyCode::Char('d') => self.request_deletion(),
            _ => ProviderOverlayAction::Consumed,
        }
    }

    fn request_deletion(&mut self) -> (r: ProviderOverlayAction)
        ensures
            forall|key: KeyEvent|
                key.code == KeyCode::Char('d') ==> final(self)@ == (#[trigger] manager_key(
                    old(self)@,
                    key,
                )).0 && r@ == manager_key(old(self)@, key).1,
    {
        let (alias, name, source) = match self.chosen_item() {
            None => {
                return ProviderOverlayAction::Consumed;
            },
            Some(item) => (
                item.alias().to_owned(),
                item.display_name().to_owned(),
                item.source(),
            ),
        };
        if source == ProviderConfigSource::User {
            self.notice = Some("User config providers are read-only".to_owned());
            return ProviderOverlayAction::Consumed;
        }
        if plan_model::opt_is(&self.current_alias, alias.as_str()) {
            self.notice = Some("Switch provider before deleting the active one".to_owned());
            return ProviderOverlayAction::Consumed;
        }
        if plan_model::opt_is(&self.pending_delete_alias, alias.as_str()) {
            ProviderOverlayAction::DeleteProvider(alias)
        } else {
            self.pending_delete_alias = Some(alias);
            self.notice = Some(text::cat2("Press d again to delete ", name.as_str()));
            ProviderOverlayAction::Consumed
        }
    }
}

/// A model as a provider lists it.
#[derive(Debug, Clone, PartialEq, Eq)]
pub struct ModelListItem {
    id: String,
    owner: Option<String>,
}

/// A model: its name, and whose it is.
pub struct ModelView {
    pub id: Seq<char>,
    pub owner: Option<Seq<char>>,
}

impl View for ModelListItem {
    type V = ModelView;

    closed spec fn view(&self) -> ModelView {
        ModelView { id: self.id@, owner: plan_model::opt(self.owner) }
    }
}

pub open spec fn model_views(v: Seq<ModelListItem>) -> Seq<ModelView> {
    v.map_values(|m: ModelListItem| m@)
}

pub open spec fn lent_models(v: Seq<&ModelListItem>) -> Seq<ModelView> {
    v.map_values(|m: &ModelListItem| (*m)@)
}

impl ModelListItem {
    pub fn new(id: &str, owner: Option<&str>) -> (r: ModelListItem)
        ensures
            r@ == (ModelView { id: id@, owner: opt_str(owner) }),
    {
        ModelListItem { id: id.to_owned(), owner: own_opt(owner) }
    }

    pub fn id(&self) -> (r: &str)
        ensures
            r@ == self@.id,
    {
        self.id.as_str()
    }

    pub fn owner(&self) -> (r: Option<&str>)
        ensures
            opt_str(r) == self@.owner,
    {
        lend_opt(&self.owner)
    }
}

/// The choice of a model.
#[derive(Debug, PartialEq, Eq)]
pub struct ModelPickerOverlay {
    alias: String,
    display_name: String,
    models: Vec<ModelListItem>,
    query: TextInput,
    selected: usize,
    loading: bool,
    error: Option<String>,
    target: ModelPickerTarget,
}

/// The choice of a model.
pub struct PickerView {
    pub alias: Seq<char>,
    pub display_name: Seq<char>,
    pub models: Seq<ModelView>,
    pub query: input::InputView,
    pub selected: int,
    pub loading: bool,
    pub error: Option<Seq<char>>,
    pub target: ModelPickerTarget,
}

impl View for ModelPickerOverlay {
    type V = PickerView;

    closed spec fn view(&self) -> PickerView {
        PickerView {
            alias: self.alias@,
            display_name: self.display_name@,
            models: model_views(self.models@),
            query: self.query@,
            selected: self.selected as int,
            loading: self.loading,
            error: plan_model::opt(self.error),
            target: self.target,
        }
    }
}

/// Whether a model answers to a query in small letters, by its name or by its owner.
pub open spec fn answers(m: ModelView, query: Seq<char>) -> bool {
    ||| query.len() == 0
    ||| text::occurs(text::lower(m.id), query)
    ||| m.owner matches Some(owner) && text::occurs(text::lower(owner), query)
}

/// The models that answer to a query.
pub open spec fn answering(models: Seq<ModelView>, query: Seq<char>) -> Seq<ModelView>
    decreases models.len(),
{
    if models.len() == 0 {
        models
    } else if answers(models.last(), query) {
        answering(models.drop_last(), query).push(models.last())
    } else {
        answering(models.drop_last(), query)
    }
}

impl PickerView {
    pub open spec fn well_formed(self) -> bool {
        self.query.well_formed()
    }

    pub open spec fn visible(self) -> Seq<ModelView> {
        answering(self.models, text::lower(text::trimmed(self.query.text)))
    }

    /// The query itself as the name of a model, where it can be one and is not listed.
    pub open spec fn manual(self, name_is_valid: bool) -> Option<Seq<char>> {
        let query = text::trimmed(self.query.text);
        if query.len() > 0 && name_is_valid && !(exists|i: int|
            0 <= i < self.models.len() && (#[trigger] self.models[i]).id == query) {
            Some(query)
        } else {
            None
        }
    }
}

/// A picker after a key press, and what it asks for.
pub open spec fn picker_key(p: PickerView, key: KeyEvent, name_is_valid: bool) -> (
    PickerView,
    ActionView,
) {
    match key.code {
        KeyCode::Esc => (p, ActionView::Back),
        KeyCode::Down => (
            PickerView { selected: menu::below(p.selected, p.visible().len() as int), ..p },
            ActionView::Consumed,
        ),
        KeyCode::Up => (
            PickerView { selected: menu::above(p.selected), ..p },
            ActionView::Consumed,
        ),
        KeyCode::F(5) => (
            p,
            match p.target {
                ModelPickerTarget::ActiveProvider => ActionView::RefreshModels(p.alias),
                ModelPickerTarget::ProviderForm => ActionView::RefreshFormModels,
            },
        ),
        KeyCode::Enter => if 0 <= p.selected < p.visible().len() {
            (
                p,
                ActionView::SelectModel {
                    alias: p.alias,
                    model: p.visible()[p.selected].id,
                    target: p.target,
                },
            )
        } else {
            match p.manual(name_is_valid) {
                Some(model) => (
                    p,
                    ActionView::SelectModel { alias: p.alias, model, target: p.target },
                ),
                None => (p, ActionView::Consumed),
            }
        },
        _ => (
            PickerView { query: input::after_key(p.query, key), selected: 0, ..p },
            ActionView::Consumed,
        ),
    }
}

impl ModelPickerOverlay {
    pub fn new(
        alias: String,
        display_name: String,
        models: Vec<ModelListItem>,
        loading: bool,
    ) -> (r: ModelPickerOverlay)
        ensures
            r@ == (PickerView {
                alias: alias@,
                display_name: display_name@,
                models: model_views(models@),
                query: input::empty_input(),
                selected: 0,
                loading,
                error: None,
                target: ModelPickerTarget::ActiveProvider,
            }),
            r@.well_formed(),
    {
        ModelPickerOverlay::with_target(
            alias,
            display_name,
            models,
            loading,
            ModelPickerTarget::ActiveProvider,
        )
    }

    pub fn for_provider_form(
        alias: String,
        display_name: String,
        models: Vec<ModelListItem>,
    ) -> (r: ModelPickerOverlay)
        ensures
            r@ == (PickerView {
                alias: alias@,
                display_name: display_name@,
                models: model_views(models@),
                query: input::empty_input(),
                selected: 0,
                loading: true,
                error: None,
                target: ModelPickerTarget::ProviderForm,
            }),
            r@.well_formed(),
    {
        ModelPickerOverlay::with_target(
            alias,
            display_name,
            models,
            true,
            ModelPickerTarget::ProviderForm,
        )
    }

    pub fn with_target(
        alias: String,
        display_name: String,
        models: Vec<ModelListItem>,
        loading: bool,
        target: ModelPickerTarget,
    ) -> (r: ModelPickerOverlay)
        ensures
            r@ == (PickerView {
                alias: alias@,
                display_name: display_name@,
                models: model_views(models@),
                query: input::empty_input(),
                selected: 0,
                loading,
                error: None,
                target,
            }),
            r@.well_formed(),
    {
        ModelPickerOverlay {
            alias,
            display_name,
            models,
            query: TextInput::default(),
            selected: 0,
            loading,
            error: None,
            target,
        }
    }

    pub fn alias(&self) -> (r: &str)
        ensures
            r@ == self@.alias,
    {
        self.alias.as_str()
    }

    pub fn display_name(&self) -> (r: &str)
        ensures
            r@ == self@.display_name,
    {
        self.display_name.as_str()
    }

    pub fn target(&self) -> (r: ModelPickerTarget)
        ensures
            r == self@.target,
    {
        self.target
    }

    pub fn query(&self) -> (r: &str)
        ensures
            r@ == self@.query.text,
    {
        self.query.text()
    }

    pub fn query_viewport(&self, width: usize) -> (r: TextInputViewport)
        requires
            self@.well_formed(),
        ensures
            input::shows(r, self@.query, width as int, usize::MAX as int),
            r.text@ == input::shown_text(self@.query, width as int),
            r.cursor_column == input::shown_column(self@.query, width as int),
    {
        self.query.viewport(width)
    }

    pub fn selected(&self) -> (r: usize)
        ensures
            r == self@.selected,
    {
        self.selected
    }

    pub fn is_loading(&self) -> (r: bool)
        ensures
            r == self@.loading,
    {
        self.loading
    }

    pub fn error(&self) -> (r: Option<&str>)
        ensures
            opt_str(r) == self@.error,
    {
        lend_opt(&self.error)
    }

    pub fn visible_models(&self) -> (r: Vec<&ModelListItem>)
        ensures
            lent_models(r@) == self@.visible(),
    {
        let trimmed = text::trim(self.query.text());
        let query = text::to_lower(trimmed.as_str());
        let ghost all = model_views(self.models@);
        let mut r: Vec<&ModelListItem> = Vec::new();
        let mut i: usize = 0;
        proof {
            assert(lent_models(r@) =~= answering(all.take(0), query@));
        }
        while i < self.models.len()
            invariant
                i <= self.models@.len(),
                all == model_views(self.models@),
                lent_models(r@) == answering(all.take(i as int), query@),
            decreases self.models@.len() - i,
        {
            let ghost before = r@;
            proof {
                assert(all.take(i + 1).drop_last() =~= all.take(i as int));
                assert(all.take(i + 1).last() == self.models@[i as int]@);
            }
            let hit = query.as_str().is_empty() || text::contains(
                text::to_lower(self.models[i].id.as_str()).as_str(),
                query.as_str(),
            ) || match &self.models[i].owner {
                Some(owner) => text::contains(
                    text::to_lower(owner.as_str()).as_str(),
                    query.as_str(),
                ),
                None => false,
            };
            if hit {
                r.push(&self.models[i]);
                proof {
                    assert(lent_models(r@) =~= lent_models(before).push(self.models@[i as int]@));
                }
            }
            i += 1;
        }
        proof {
            assert(all.take(i as int) =~= all);
        }
        r
    }

    /// The query as a model of its own; `name_is_valid` says whether the model layer
    /// accepts the trimmed query as a name.
    pub fn manual_model(&self, name_is_valid: bool) -> (r: Option<String>)
        ensures
            plan_model::opt(r) == self@.manual(name_is_valid),
    {
        let query = text::trim(self.query.text());
        if query.as_str().is_empty() || !name_is_valid {
            return None;
        }
        let mut i: usize = 0;
        while i < self.models.len()
            invariant
                i <= self.models@.len(),
                query@ == text::trimmed(self@.query.text),
                forall|k: int| 0 <= k < i ==> (#[trigger] self@.models[k]).id != query@,
            decreases self.models@.len() - i,
        {
            proof {
                assert(self@.models[i as int] == self.models@[i as int]@);
            }
            if text::same(self.models[i].id(), query.as_str()) {
                return None;
            }
            i += 1;
        }
        Some(query)
    }

    pub fn set_models(&mut self, models: Vec<ModelListItem>)
        ensures
            ({
                let with = PickerView {
                    models: model_views(models@),
                    loading: false,
                    error: None,
                    ..old(self)@
                };
                final(self)@ == (PickerView {
                    selected: menu::within(with.selected, with.visible().len() as int),
                    ..with
                })
            }),
    {
        self.models = models;
        self.loading = false;
        self.error = None;
        let shown = self.visible_models();
        proof {
            assert(lent_models(shown@).len() == shown@.len());
        }
        let count = shown.len();
        self.selected = menu::clamp_within(self.selected, count);
    }

    pub fn set_loading(&mut self)
        ensures
            final(self)@ == (PickerView { loading: true, error: None, ..old(self)@ }),
    {
        self.loading = true;
        self.error = None;
    }

    /// Applies a key press; `name_is_valid` as for `manual_model`.
    pub fn handle_key(&mut self, key: KeyEvent, name_is_valid: bool) -> (r: ProviderOverlayAction)
        requires
            old(self)@.well_formed(),
        ensures
            final(self)@ == picker_key(old(self)@, key, name_is_valid).0,
            r@ == picker_key(old(self)@, key, name_is_valid).1,
            final(self)@.well_formed(),
    {
        match key.code {
            KeyCode::Esc => ProviderOverlayAction::Back,
            KeyCode::Down => {
                let shown = self.visible_models();
                proof {
                    assert(lent_models(shown@).len() == shown@.len());
                }
                let count = shown.len();
                self.selected = menu::step_below(self.selected, count);
                ProviderOverlayAction::Consumed
            },
            KeyCode::Up => {
                self.selected = menu::step_above(self.selected);
                ProviderOverlayAction::Consumed
            },
            KeyCode::F(5) => match self.target {
                ModelPickerTarget::ActiveProvider => ProviderOverlayAction::RefreshModels(
                    self.alias.clone(),
                ),
                ModelPickerTarget::ProviderForm => ProviderOverlayAction::RefreshFormModels,
            },
            KeyCode::Enter => {
                let shown = self.visible_models();
                proof {
                    assert(lent_models(shown@).len() == shown@.len());
                }
                if self.selected < shown.len() {
                    proof {
                        assert(lent_models(shown@)[self.selected as int]
                            == shown@[self.selected as int]@);
                    }
                    ProviderOverlayAction::SelectModel {
                        alias: self.alias.clone(),
                        model: shown[self.selected].id.clone(),
                        target: self.target,
                    }
                } else {
                    match self.manual_model(name_is_valid) {
                        Some(model) => ProviderOverlayAction::SelectModel {
                            alias: self.alias.clone(),
                            model,
                            target: self.target,
                        },
                        None => ProviderOverlayAction::Consumed,
                    }
                }
            },
            _ => {
                self.query.handle_key(key);
                self.selected = 0;
                ProviderOverlayAction::Consumed
            },
        }
    }
}

/// In the list of providers, Enter takes the selected one, or its model where it has none; the
/// arrow keys step through the list and stay in it; the letters open the form, the editor of a
/// managed provider, and the choice of its model. All act on the selected one.
pub proof fn provider_keys_act_on_the_selected_one(m: ManagerView, key: KeyEvent, p: ProviderView)
    requires
        0 <= m.selected < m.items.len(),
        p == m.items[m.selected],
    ensures
        ({
            let (after, asked) = manager_key(m, key);
            &&& after.items == m.items
            &&& after.current_alias == m.current_alias
            &&& key.code == KeyCode::Enter && p.model is Some ==> asked
                == ActionView::SelectProvider(p.alias)
            &&& key.code == KeyCode::Enter && p.model is None ==> asked
                == ActionView::OpenModelPicker(p.alias)
            &&& key.code == KeyCode::Char('m') ==> asked == ActionView::OpenModelPicker(p.alias)
            &&& key.code == KeyCode::Char('n') ==> asked == ActionView::OpenProviderForm
            &&& key.code == KeyCode::Char('e') && p.source == ProviderConfigSource::Managed
                ==> asked == ActionView::OpenProviderEditor(p.alias)
            &&& key.code == KeyCode::Char('e') && p.source != ProviderConfigSource::Managed
                ==> asked == ActionView::Consumed
            &&& asked == ActionView::Back <==> key.code == KeyCode::Esc
            &&& key.code == KeyCode::Down && m.selected + 1 < m.items.len() ==> after.selected
                == m.selected + 1
            &&& key.code == KeyCode::Up && m.selected > 0 ==> after.selected == m.selected - 1
            &&& 0 <= after.selected < m.items.len()
            &&& key.code == KeyCode::Down || key.code == KeyCode::Up
                ==> after.pending_delete_alias is None
        }),
{
}

/// A managed provider that is not in use is deleted by the second press in a row, and asked
/// about by the first; what may not be deleted is told why.
pub proof fn the_second_press_deletes(m: ManagerView, key: KeyEvent, p: ProviderView)
    requires
        0 <= m.selected < m.items.len(),
        p == m.items[m.selected],
        key.code == KeyCode::Char('d'),
    ensures
        ({
            let (after, asked) = manager_key(m, key);
            let again = manager_key(after, key);
            &&& p.source != ProviderConfigSource::User && m.current_alias != Some(p.alias)
                ==> again.1 == ActionView::DeleteProvider(p.alias)
            &&& p.source != ProviderConfigSource::User && m.current_alias != Some(p.alias)
                && m.pending_delete_alias != Some(p.alias) ==> asked == ActionView::Consumed
                && after.pending_delete_alias == Some(p.alias)
            &&& p.source == ProviderConfigSource::User || m.current_alias == Some(p.alias)
                ==> asked == ActionView::Consumed && after.notice is Some
                && after.pending_delete_alias == m.pending_delete_alias
            &&& after.items == m.items
        }),
{
}

/// The models that a picker shows are those that answer to the query, by their name or their
/// owner, all of them and in their order; without a query all.
pub proof fn pickers_show_what_answers(models: Seq<ModelView>, query: Seq<char>)
    ensures
        answering(models, query) == models.filter(
            |m: ModelView|
                query.len() == 0 || text::occurs(text::lower(m.id), query) || (
                m.owner matches Some(owner) && text::occurs(text::lower(owner), query)),
        ),
        query.len() == 0 ==> answering(models, query) == models,
    decreases models.len(),
{
    let picks = |m: ModelView|
        query.len() == 0 || text::occurs(text::lower(m.id), query) || (m.owner matches Some(owner)
            && text::occurs(text::lower(owner), query));
    reveal(Seq::filter);
    if models.len() > 0 {
        let init = models.drop_last();
        pickers_show_what_answers(init, query);
        assert(models.filter(picks) == if picks(models.last()) {
            init.filter(picks).push(models.last())
        } else {
            init.filter(picks)
        });
        assert(answering(models, query) == models.filter(picks));
        if query.len() == 0 {
            assert(answering(models, query) =~= models);
        }
    }
}

/// In a picker, Enter takes the model that is selected among those that are shown, or the
/// query itself where none is selected and it can be a model's name; the arrow keys step
/// through them, and every other key but those for leaving and reading anew edits the query and
/// leads back to the first.
pub proof fn picker_keys_act_on_what_is_shown(p: PickerView, key: KeyEvent, name_is_valid: bool)
    requires
        0 <= p.selected,
    ensures
        ({
            let (after, asked) = picker_key(p, key, name_is_valid);
            let n = p.visible().len() as int;
            let query = text::trimmed(p.query.text);
            &&& after.models == p.models
            &&& after.target == p.target
            &&& after.alias == p.alias
            &&& key.code == KeyCode::Enter && p.selected < n ==> asked == (ActionView::SelectModel {
                alias: p.alias,
                model: p.visible()[p.selected].id,
                target: p.target,
            })
            &&& key.code == KeyCode::Enter && p.selected >= n && query.len() > 0 && name_is_valid
                && !p.models.map_values(|m: ModelView| m.id).contains(query) ==> asked == (
            ActionView::SelectModel { alias: p.alias, model: query, target: p.target })
            &&& key.code == KeyCode::Enter && p.selected >= n && (query.len() == 0
                || !name_is_valid) ==> asked == ActionView::Consumed
            &&& asked == ActionView::Back <==> key.code == KeyCode::Esc
            &&& key.code == KeyCode::Down && p.selected + 1 < n ==> after.selected == p.selected + 1
            &&& key.code == KeyCode::Up && p.selected > 0 ==> after.selected == p.selected - 1
            &&& key.code == KeyCode::F(5) ==> asked == (match p.target {
                ModelPickerTarget::ActiveProvider => ActionView::RefreshModels(p.alias),
                ModelPickerTarget::ProviderForm => ActionView::RefreshFormModels,
            })
            &&& !(key.code == KeyCode::Esc || key.code == KeyCode::Enter || key.code
                == KeyCode::Down || key.code == KeyCode::Up || key.code == KeyCode::F(5))
                ==> after.query == input::after_key(p.query, key) && after.selected == 0 && asked
                == ActionView::Consumed
        }),
{
    let query = text::trimmed(p.query.text);
    let ids = p.models.map_values(|m: ModelView| m.id);
    if exists|i: int| 0 <= i < p.models.len() && (#[trigger] p.models[i]).id == query {
        let i = choose|i: int| 0 <= i < p.models.len() && (#[trigger] p.models[i]).id == query;
        assert(ids[i] == query);
        assert(ids.contains(query));
    }
}

/// The list of providers opens at the one in use, where it is listed, and else at the first.
pub proof fn lists_open_at_the_one_in_use(items: Seq<ProviderView>, alias: Seq<char>, i: int)
    requires
        0 <= i <= items.len(),
        forall|k: int| 0 <= k < i ==> (#[trigger] items[k]).alias != alias,
    ensures
        ({
            let at = provider_position(items, Some(alias), i);
            &&& (exists|k: int| 0 <= k < items.len() && (#[trigger] items[k]).alias == alias) ==> 0
                <= at < items.len() && items[at].alias == alias && (forall|k: int|
                0 <= k < at ==> (#[trigger] items[k]).alias != alias)
            &&& (forall|k: int| 0 <= k < items.len() ==> (#[trigger] items[k]).alias != alias)
                ==> at == 0
        }),
        provider_position(items, None, i) == 0,
    decreases items.len() - i,
{
    if i < items.len() && items[i].alias != alias {
        lists_open_at_the_one_in_use(items, alias, i + 1);
    }
}

} // verus!
