//! The form in which a provider is added or edited.
use crate::input;
use crate::input::{TextInput, TextInputViewport};
use crate::key::{KeyCode, KeyEvent};
use crate::ordered::TextSet;
use crate::plan_model;
use crate::preferences;
use crate::provider_overlay;
use crate::provider_overlay::{OpenAiProtocol, ProviderOverlayAction, ReasoningEffort};
use crate::text;
use vstd::prelude::*;

verus! {

/// The kind of a provider that can be managed here.
#[derive(Debug, Clone, Copy, PartialEq, Eq, Structural)]
pub enum ManagedProviderKind {
    OpenAiCompatible,
    Anthropic,
}

/// A row of the form.
#[derive(Debug, Clone, Copy, PartialEq, Eq, Structural)]
pub enum ProviderFormField {
    DisplayName,
    Alias,
    Kind,
    Protocol,
    BaseUrl,
    ApiKey,
    Model,
    ReasoningEffort,
    Save,
}

/// How many rows the form has.
pub const FORM_FIELD_COUNT: usize = 9;

/// The row at a position, from the top.
pub open spec fn form_field(i: int) -> ProviderFormField {
    if i == 0 {
        ProviderFormField::DisplayName
    } else if i == 1 {
        ProviderFormField::Alias
    } else if i == 2 {
        ProviderFormField::Kind
    } else if i == 3 {
        ProviderFormField::Protocol
    } else if i == 4 {
        ProviderFormField::BaseUrl
    } else if i == 5 {
        ProviderFormField::ApiKey
    } else if i == 6 {
        ProviderFormField::Model
    } else if i == 7 {
        ProviderFormField::ReasoningEffort
    } else {
        ProviderFormField::Save
    }
}

impl ProviderFormField {
    /// The rows from the top to the bottom.
    pub fn all() -> (r: Vec<ProviderFormField>)
        ensures
            r@.len() == FORM_FIELD_COUNT,
            forall|i: int| 0 <= i < FORM_FIELD_COUNT ==> #[trigger] r@[i] == form_field(i),
    {
        vec![
            ProviderFormField::DisplayName,
            ProviderFormField::Alias,
            ProviderFormField::Kind,
            ProviderFormField::Protocol,
            ProviderFormField::BaseUrl,
            ProviderFormField::ApiKey,
            ProviderFormField::Model,
            ProviderFormField::ReasoningEffort,
            ProviderFormField::Save,
        ]
    }
}

/// Which of the text inputs belongs to a row.
pub open spec fn input_index(field: ProviderFormField) -> Option<int> {
    match field {
        ProviderFormField::DisplayName => Some(0),
        ProviderFormField::Alias => Some(1),
        ProviderFormField::BaseUrl => Some(2),
        ProviderFormField::ApiKey => Some(3),
        ProviderFormField::Model => Some(4),
        ProviderFormField::ReasoningEffort => Some(5),
        _ => None,
    }
}

pub fn field_input_index(field: ProviderFormField) -> (r: Option<usize>)
    ensures
        r is Some <==> input_index(field) is Some,
        r matches Some(i) ==> input_index(field) == Some(i as int) && i < 6,
{
    match field {
        ProviderFormField::DisplayName => Some(0),
        ProviderFormField::Alias => Some(1),
        ProviderFormField::Kind => None,
        ProviderFormField::Protocol => None,
        ProviderFormField::BaseUrl => Some(2),
        ProviderFormField::ApiKey => Some(3),
        ProviderFormField::Model => Some(4),
        ProviderFormField::ReasoningEffort => Some(5),
        ProviderFormField::Save => None,
    }
}

/// What has been entered.
#[derive(PartialEq, Eq)]
pub struct ProviderFormValues {
    pub display_name: String,
    pub alias: String,
    pub kind: ManagedProviderKind,
    pub protocol: Option<OpenAiProtocol>,
    pub base_url: String,
    pub api_key: String,
    pub model: String,
    pub reasoning_effort: String,
}

/// What has been entered.
pub struct ValuesView {
    pub display_name: Seq<char>,
    pub alias: Seq<char>,
    pub kind: ManagedProviderKind,
    pub protocol: Option<OpenAiProtocol>,
    pub base_url: Seq<char>,
    pub api_key: Seq<char>,
    pub model: Seq<char>,
    pub reasoning_effort: Seq<char>,
}

impl View for ProviderFormValues {
    type V = ValuesView;

    open spec fn view(&self) -> ValuesView {
        ValuesView {
            display_name: self.display_name@,
            alias: self.alias@,
            kind: self.kind,
            protocol: self.protocol,
            base_url: self.base_url@,
            api_key: self.api_key@,
            model: self.model@,
            reasoning_effort: self.reasoning_effort@,
        }
    }
}

impl Clone for ProviderFormValues {
    fn clone(&self) -> (r: Self)
        ensures
            r@ == self@,
    {
        ProviderFormValues {
            display_name: self.display_name.clone(),
            alias: self.alias.clone(),
            kind: self.kind,
            protocol: self.protocol,
            base_url: self.base_url.clone(),
            api_key: self.api_key.clone(),
            model: self.model.clone(),
            reasoning_effort: self.reasoning_effort.clone(),
        }
    }
}

/// Whether a provider is added or changed.
#[derive(Debug, Clone, Copy, PartialEq, Eq, Structural)]
pub enum ProviderDraftMode {
    Create,
    Update,
}

/// What a provider is made from.
#[derive(PartialEq, Eq)]
pub struct ProviderDraftInput {
    pub display_name: String,
    pub alias: String,
    pub kind: ManagedProviderKind,
    pub protocol: Option<OpenAiProtocol>,
    pub base_url: String,
    /// The key to store; `None` leaves the stored one as it is.
    pub api_key: Option<String>,
    pub model: String,
    pub reasoning_effort: String,
}

impl ProviderFormValues {
    /// The values as a provider is made from them, without the blanks around them. A
    /// changed provider keeps its key where none was entered.
    pub fn to_draft(&self, mode: ProviderDraftMode) -> (r: ProviderDraftInput)
        ensures
            r.display_name@ == text::trimmed(self@.display_name),
            r.alias@ == text::trimmed(self@.alias),
            r.kind == self@.kind,
            r.protocol == self@.protocol,
            r.base_url@ == text::trimmed(self@.base_url),
            plan_model::opt(r.api_key) == (match mode {
                ProviderDraftMode::Create => Some(self@.api_key),
                ProviderDraftMode::Update => if text::trimmed(self@.api_key).len() == 0 {
                    None
                } else {
                    Some(text::trimmed(self@.api_key))
                },
            }),
            r.model@ == text::trimmed(self@.model),
            r.reasoning_effort@ == self@.reasoning_effort,
    {
        let api_key = match mode {
            ProviderDraftMode::Create => Some(self.api_key.clone()),
            ProviderDraftMode::Update => {
                let key = text::trim(self.api_key.as_str());
                if key.as_str().is_empty() {
                    None
                } else {
                    Some(key)
                }
            },
        };
        ProviderDraftInput {
            display_name: text::trim(self.display_name.as_str()),
            alias: text::trim(self.alias.as_str()),
            kind: self.kind,
            protocol: self.protocol,
            base_url: text::trim(self.base_url.as_str()),
            api_key,
            model: text::trim(self.model.as_str()),
            reasoning_effort: self.reasoning_effort.clone(),
        }
    }
}

/// What an edited provider holds.
#[derive(Debug, PartialEq, Eq)]
pub struct ProviderFormSeed {
    pub original_alias: String,
    pub display_name: String,
    pub alias: String,
    pub kind: ManagedProviderKind,
    pub protocol: Option<OpenAiProtocol>,
    pub base_url: String,
    pub model: String,
    pub reasoning_effort: Option<ReasoningEffort>,
}

/// The form. Its text inputs are the name, the alias, the address, the key, the model and
/// the reasoning effort.
#[derive(PartialEq, Eq)]
pub struct ProviderFormOverlay {
    fields: Vec<TextInput>,
    used_aliases: TextSet,
    original_alias: Option<String>,
    kind: ManagedProviderKind,
    openai_protocol: OpenAiProtocol,
    selected: usize,
    notice: Option<String>,
    alias_edited: bool,
}

/// The form. `original_alias` is there when a provider is edited.
pub struct FormView {
    pub fields: Seq<input::InputView>,
    pub used_aliases: Seq<Seq<char>>,
    pub original_alias: Option<Seq<char>>,
    pub kind: ManagedProviderKind,
    pub openai_protocol: OpenAiProtocol,
    pub selected: int,
    pub notice: Option<Seq<char>>,
    pub alias_edited: bool,
}

pub open spec fn input_views(v: Seq<TextInput>) -> Seq<input::InputView> {
    v.map_values(|i: TextInput| i@)
}

impl View for ProviderFormOverlay {
    type V = FormView;

    closed spec fn view(&self) -> FormView {
        FormView {
            fields: input_views(self.fields@),
            used_aliases: self.used_aliases@,
            original_alias: plan_model::opt(self.original_alias),
            kind: self.kind,
            openai_protocol: self.openai_protocol,
            selected: self.selected as int,
            notice: plan_model::opt(self.notice),
            alias_edited: self.alias_edited,
        }
    }
}

pub open spec fn default_address(kind: ManagedProviderKind) -> Seq<char> {
    match kind {
        ManagedProviderKind::OpenAiCompatible => "https://api.openai.com/v1"@,
        ManagedProviderKind::Anthropic => "https://api.anthropic.com"@,
    }
}

pub open spec fn other_kind(kind: ManagedProviderKind) -> ManagedProviderKind {
    match kind {
        ManagedProviderKind::OpenAiCompatible => ManagedProviderKind::Anthropic,
        ManagedProviderKind::Anthropic => ManagedProviderKind::OpenAiCompatible,
    }
}

pub open spec fn other_protocol(protocol: OpenAiProtocol) -> OpenAiProtocol {
    match protocol {
        OpenAiProtocol::Responses => OpenAiProtocol::ChatCompletions,
        OpenAiProtocol::ChatCompletions => OpenAiProtocol::Responses,
    }
}

/// A form for a new provider.
pub open spec fn new_form(alias: Seq<char>, used_aliases: Seq<Seq<char>>) -> FormView {
    FormView {
        fields: seq![
            input::empty_input(),
            input::plain_input(alias),
            input::plain_input(default_address(ManagedProviderKind::OpenAiCompatible)),
            input::empty_input(),
            input::empty_input(),
            input::empty_input(),
        ],
        used_aliases,
        original_alias: None,
        kind: ManagedProviderKind::OpenAiCompatible,
        openai_protocol: OpenAiProtocol::Responses,
        selected: 0,
        notice: None,
        alias_edited: false,
    }
}

/// A form filled with what a provider holds.
pub open spec fn edit_form(seed: ProviderFormSeed, used_aliases: Seq<Seq<char>>) -> FormView {
    FormView {
        fields: seq![
            input::plain_input(seed.display_name@),
            input::plain_input(seed.alias@),
            input::plain_input(seed.base_url@),
            input::empty_input(),
            input::plain_input(seed.model@),
            match seed.reasoning_effort {
                Some(e) => input::plain_input(e@),
                None => input::empty_input(),
            },
        ],
        used_aliases,
        original_alias: Some(seed.original_alias@),
        kind: seed.kind,
        openai_protocol: match seed.protocol {
            Some(p) => p,
            None => OpenAiProtocol::Responses,
        },
        selected: 0,
        notice: None,
        alias_edited: true,
    }
}

impl FormView {
    pub open spec fn well_formed(self) -> bool {
        &&& self.fields.len() == 6
        &&& forall|i: int| 0 <= i < 6 ==> (#[trigger] self.fields[i]).well_formed()
        &&& 0 <= self.selected < FORM_FIELD_COUNT
    }

    pub open spec fn row(self) -> ProviderFormField {
        form_field(self.selected)
    }

    pub open spec fn editing(self) -> bool {
        self.original_alias is Some
    }

    pub open spec fn field_text(self, field: ProviderFormField) -> Seq<char> {
        match input_index(field) {
            Some(i) => self.fields[i].text,
            None => Seq::empty(),
        }
    }

    pub open spec fn protocol(self) -> Option<OpenAiProtocol> {
        match self.kind {
            ManagedProviderKind::OpenAiCompatible => Some(self.openai_protocol),
            ManagedProviderKind::Anthropic => None,
        }
    }

    pub open spec fn values(self) -> ValuesView {
        ValuesView {
            display_name: self.fields[0].text,
            alias: self.fields[1].text,
            kind: self.kind,
            protocol: self.protocol(),
            base_url: self.fields[2].text,
            api_key: self.fields[3].text,
            model: self.fields[4].text,
            reasoning_effort: text::trimmed(self.fields[5].text),
        }
    }

    pub open spec fn with_field(self, i: int, to: input::InputView) -> FormView {
        FormView { fields: self.fields.update(i, to), ..self }
    }

    pub open spec fn saving(self) -> provider_overlay::ActionView {
        match self.original_alias {
            None => provider_overlay::ActionView::SaveProvider(self.values()),
            Some(original_alias) => provider_overlay::ActionView::UpdateProvider {
                original_alias,
                values: self.values(),
            },
        }
    }
}

/// The preset that follows an effort; the first one follows all that are none.
pub open spec fn next_preset(current: Seq<char>) -> Seq<char> {
    match preferences::preset_position(current, 0) {
        Some(i) => preferences::presets()[if i + 1 < preferences::PRESET_COUNT {
            i + 1
        } else {
            0
        }],
        None => preferences::presets()[0],
    }
}

pub open spec fn stable_alias_notice() -> Seq<char> {
    "Config alias is the stable provider ID"@
}

/// The form after a key that is typed into the selected row. The alias of a provider
/// stays; a new provider's alias follows its name until it is edited itself.
pub open spec fn typed(f: FormView, key: KeyEvent) -> (FormView, provider_overlay::ActionView) {
    let row = f.row();
    match input_index(row) {
        None => (f, provider_overlay::ActionView::Consumed),
        Some(i) => if row == ProviderFormField::Alias && f.editing() {
            (
                FormView { notice: Some(stable_alias_notice()), ..f },
                provider_overlay::ActionView::Consumed,
            )
        } else {
            let after = f.with_field(i, input::after_key(f.fields[i], key));
            if row == ProviderFormField::Alias {
                (
                    FormView { alias_edited: true, ..after },
                    provider_overlay::ActionView::Consumed,
                )
            } else if row == ProviderFormField::DisplayName && !f.alias_edited {
                (after, provider_overlay::ActionView::DeriveAlias(after.fields[i].text))
            } else {
                (after, provider_overlay::ActionView::Consumed)
            }
        },
    }
}

/// The form after a key press, and what it asks for.
pub open spec fn form_key(before: FormView, key: KeyEvent) -> (
    FormView,
    provider_overlay::ActionView,
) {
    let f = FormView { notice: None, ..before };
    let row = f.row();
    let turn = key.code == KeyCode::Left || key.code == KeyCode::Right || key.code
        == KeyCode::Char(' ');
    if key.code == KeyCode::Esc {
        (f, provider_overlay::ActionView::Back)
    } else if key.code == KeyCode::Char('s') && key.modifiers.control {
        (f, f.saving())
    } else if key.code == KeyCode::Tab || key.code == KeyCode::Down {
        (
            FormView {
                selected: if f.selected + 1 < FORM_FIELD_COUNT {
                    f.selected + 1
                } else {
                    0
                },
                ..f
            },
            provider_overlay::ActionView::Consumed,
        )
    } else if key.code == KeyCode::BackTab || key.code == KeyCode::Up {
        (
            FormView {
                selected: if f.selected > 0 {
                    f.selected - 1
                } else {
                    FORM_FIELD_COUNT - 1
                },
                ..f
            },
            provider_overlay::ActionView::Consumed,
        )
    } else if turn && row == ProviderFormField::Kind {
        (
            FormView { kind: other_kind(f.kind), ..f }.with_field(
                2,
                input::plain_input(default_address(other_kind(f.kind))),
            ),
            provider_overlay::ActionView::Consumed,
        )
    } else if turn && row == ProviderFormField::Protocol {
        (
            if f.kind == ManagedProviderKind::OpenAiCompatible {
                FormView { openai_protocol: other_protocol(f.openai_protocol), ..f }
            } else {
                f
            },
            provider_overlay::ActionView::Consumed,
        )
    } else if key.code == KeyCode::Char(' ') && key.modifiers.control && row
        == ProviderFormField::ReasoningEffort {
        (
            f.with_field(5, input::plain_input(next_preset(text::trimmed(f.fields[5].text)))),
            provider_overlay::ActionView::Consumed,
        )
    } else if key.code == KeyCode::Enter {
        if row == ProviderFormField::Model {
            (
                f,
                provider_overlay::ActionView::DiscoverFormModels {
                    original_alias: f.original_alias,
                    values: f.values(),
                },
            )
        } else if row == ProviderFormField::Save {
            (f, f.saving())
        } else {
            (
                FormView { selected: f.selected + 1, ..f },
                provider_overlay::ActionView::Consumed,
            )
        }
    } else {
        typed(f, key)
    }
}

/// The form after a paste into the selected row.
pub open spec fn form_paste(f: FormView, value: Seq<char>) -> FormView {
    if f.row() == ProviderFormField::Alias && f.editing() {
        FormView { notice: Some(stable_alias_notice()), ..f }
    } else {
        match input_index(f.row()) {
            Some(i) => f.with_field(
                i,
                input::edited(f.fields[i], f.fields[i].cursor, f.fields[i].cursor, value),
            ),
            None => f,
        }
    }
}

/// No key press changes the alias of a provider under edit.
pub proof fn edited_aliases_stay(f: FormView, key: KeyEvent)
    requires
        f.well_formed(),
        f.editing(),
    ensures
        form_key(f, key).0.fields[1] == f.fields[1],
        form_key(f, key).0.original_alias == f.original_alias,
{
}

/// Turning the protocol twice leads back.
pub proof fn protocols_alternate(protocol: OpenAiProtocol)
    ensures
        other_protocol(other_protocol(protocol)) == protocol,
        other_protocol(protocol) != protocol,
{
}

/// The form as it may be logged: everything but the key.
pub open spec fn described(f: FormView) -> Seq<char> {
    "ProviderFormOverlay { display_name: "@ + text::quoted_debug(f.fields[0].text) + ", alias: "@
        + text::quoted_debug(f.fields[1].text) + ", kind: "@ + kind_name(f.kind)
        + ", base_url: "@ + text::quoted_debug(f.fields[2].text)
        + ", api_key: \"<redacted>\", model: "@ + text::quoted_debug(f.fields[4].text)
        + ", reasoning_effort: "@ + text::quoted_debug(f.fields[5].text) + ", selected: "@
        + text::decimal(f.selected as nat) + ", notice: "@ + (match f.notice {
        Some(n) => "Some("@ + text::quoted_debug(n) + ")"@,
        None => "None"@,
    }) + " }"@
}

pub open spec fn kind_name(kind: ManagedProviderKind) -> Seq<char> {
    match kind {
        ManagedProviderKind::OpenAiCompatible => "OpenAiCompatible"@,
        ManagedProviderKind::Anthropic => "Anthropic"@,
    }
}

/// Two forms that differ in nothing but the key are described alike: a description tells
/// nothing of the key.
pub proof fn descriptions_hide_the_key(f: FormView, key: input::InputView)
    requires
        f.well_formed(),
    ensures
        described(f.with_field(3, key)) == described(f),
{
    let g = f.with_field(3, key);
    assert(g.fields[0] == f.fields[0]);
    assert(g.fields[1] == f.fields[1]);
    assert(g.fields[2] == f.fields[2]);
    assert(g.fields[4] == f.fields[4]);
    assert(g.fields[5] == f.fields[5]);
}

impl ProviderFormOverlay {
    fn blank_fields() -> (r: Vec<TextInput>)
        ensures
            input_views(r@) == Seq::new(6, |i: int| input::empty_input()),
            input::empty_input().well_formed(),
    {
        let a = TextInput::default();
        let r = vec![
            a,
            TextInput::default(),
            TextInput::default(),
            TextInput::default(),
            TextInput::default(),
            TextInput::default(),
        ];
        proof {
            assert(input_views(r@) =~= Seq::new(6, |i: int| input::empty_input()));
        }
        r
    }

    fn fill(&mut self, i: usize, value: String)
        requires
            old(self)@.well_formed(),
            i < 6,
        ensures
            final(self)@ == old(self)@.with_field(i as int, input::plain_input(value@)),
            final(self)@.well_formed(),
    {
        let ghost before = self.fields@;
        let mut filled = TextInput::default();
        filled.replace_text(value);
        self.fields.set(i, filled);
        proof {
            assert(input_views(self.fields@) =~= input_views(before).update(
                i as int,
                filled@,
            ));
        }
    }

    /// A form for a new provider, with an alias proposed.
    pub fn new(alias: String, used_aliases: TextSet) -> (r: ProviderFormOverlay)
        ensures
            r@ == new_form(alias@, used_aliases@),
            r@.well_formed(),
    {
        let fields = ProviderFormOverlay::blank_fields();
        let mut r = ProviderFormOverlay {
            fields,
            used_aliases,
            original_alias: None,
            kind: ManagedProviderKind::OpenAiCompatible,
            openai_protocol: OpenAiProtocol::Responses,
            selected: 0,
            notice: None,
            alias_edited: false,
        };
        r.fill(1, alias);
        r.fill(2, "https://api.openai.com/v1".to_owned());
        proof {
            assert(r@.fields =~= new_form(alias@, used_aliases@).fields);
        }
        r
    }

    /// A form filled with what a provider holds. The key is not shown; leaving it empty
    /// keeps it.
    pub fn edit(seed: ProviderFormSeed, used_aliases: TextSet) -> (r: ProviderFormOverlay)
        ensures
            r@ == edit_form(seed, used_aliases@),
            r@.well_formed(),
    {
        let ghost seen = seed;
        let fields = ProviderFormOverlay::blank_fields();
        let openai_protocol = match seed.protocol {
            Some(p) => p,
            None => OpenAiProtocol::Responses,
        };
        let mut r = ProviderFormOverlay {
            fields,
            used_aliases,
            original_alias: Some(seed.original_alias),
            kind: seed.kind,
            openai_protocol,
            selected: 0,
            notice: None,
            alias_edited: true,
        };
        r.fill(0, seed.display_name);
        r.fill(1, seed.alias);
        r.fill(2, seed.base_url);
        r.fill(4, seed.model);
        match seed.reasoning_effort {
            Some(effort) => r.fill(5, effort.value),
            None => {},
        }
        proof {
            assert(r@.fields =~= edit_form(seen, used_aliases@).fields);
        }
        r
    }

    pub fn title(&self) -> (r: &'static str)
        ensures
            r@ == (if self@.editing() {
                " M  Edit provider "@
            } else {
                " M  Add provider "@
            }),
    {
        if self.is_editing() {
            " M  Edit provider "
        } else {
            " M  Add provider "
        }
    }

    pub fn is_editing(&self) -> (r: bool)
        ensures
            r == self@.editing(),
    {
        self.original_alias.is_some()
    }

    pub fn selected_field(&self) -> (r: ProviderFormField)
        ensures
            r == self@.row(),
    {
        match self.selected {
            0 => ProviderFormField::DisplayName,
            1 => ProviderFormField::Alias,
            2 => ProviderFormField::Kind,
            3 => ProviderFormField::Protocol,
            4 => ProviderFormField::BaseUrl,
            5 => ProviderFormField::ApiKey,
            6 => ProviderFormField::Model,
            7 => ProviderFormField::ReasoningEffort,
            _ => ProviderFormField::Save,
        }
    }

    pub fn kind(&self) -> (r: ManagedProviderKind)
        ensures
            r == self@.kind,
    {
        self.kind
    }

    pub fn protocol(&self) -> (r: Option<OpenAiProtocol>)
        ensures
            r == self@.protocol(),
    {
        match self.kind {
            ManagedProviderKind::OpenAiCompatible => Some(self.openai_protocol),
            ManagedProviderKind::Anthropic => None,
        }
    }

    /// The aliases that are taken.
    pub fn used_aliases(&self) -> (r: &Vec<String>)
        ensures
            text::views(r@) == self@.used_aliases,
    {
        self.used_aliases.items()
    }

    pub fn reasoning_effort_text(&self) -> (r: &str)
        requires
            self@.well_formed(),
        ensures
            r@ == self@.fields[5].text,
    {
        self.field(ProviderFormField::ReasoningEffort)
    }

    /// The effort that was entered, if any.
    pub fn reasoning_effort(&self) -> (r: Option<String>)
        requires
            self@.well_formed(),
        ensures
            plan_model::opt(r) == (if text::trimmed(self@.fields[5].text).len() == 0 {
                None
            } else {
                Some(text::trimmed(self@.fields[5].text))
            }),
    {
        let value = text::trim(self.reasoning_effort_text());
        if value.as_str().is_empty() {
            None
        } else {
            Some(value)
        }
    }

    pub fn field(&self, field: ProviderFormField) -> (r: &str)
        requires
            self@.well_formed(),
        ensures
            r@ == self@.field_text(field),
    {
        match field_input_index(field) {
            Some(index) => {
                proof {
                    assert(input_views(self.fields@)[index as int] == self.fields@[index as int]@);
                }
                self.fields[index].text()
            },
            None => {
                proof {
                    reveal_strlit("");
                    assert(""@ =~= Seq::<char>::empty());
                }
                ""
            },
        }
    }

    pub fn field_viewport(&self, field: ProviderFormField, width: usize) -> (r: Option<
        TextInputViewport,
    >)
        requires
            self@.well_formed(),
        ensures
            match (r, input_index(field)) {
                (Some(v), Some(i)) => input::shows(
                    v,
                    self@.fields[i],
                    width as int,
                    usize::MAX as int,
                ) && v.text@ == input::shown_text(self@.fields[i], width as int)
                    && v.cursor_column == input::shown_column(self@.fields[i], width as int),
                (None, None) => true,
                _ => false,
            },
    {
        match field_input_index(field) {
            Some(index) => {
                proof {
                    assert(input_views(self.fields@)[index as int] == self.fields@[index as int]@);
                    assert(self@.fields[index as int].well_formed());
                }
                Some(self.fields[index].viewport(width))
            },
            None => None,
        }
    }

    /// One star for each character of the key.
    pub fn masked_api_key(&self) -> (r: String)
        requires
            self@.well_formed(),
        ensures
            r@ == (if self@.fields[3].text.len() == 0 && self@.editing() {
                "unchanged"@
            } else {
                text::repeated('*', self@.fields[3].text.len())
            }),
    {
        let count = text::chars_of(self.field(ProviderFormField::ApiKey)).len();
        if count == 0 && self.is_editing() {
            "unchanged".to_owned()
        } else {
            text::repeat_char('*', count)
        }
    }

    pub fn notice(&self) -> (r: Option<&str>)
        ensures
            provider_overlay::opt_str(r) == self@.notice,
    {
        provider_overlay::lend_opt(&self.notice)
    }

    /// The form as it may be logged: everything but the key.
    pub fn describe(&self) -> (r: String)
        requires
            self@.well_formed(),
        ensures
            r@ == described(self@),
    {
        let kind = match self.kind {
            ManagedProviderKind::OpenAiCompatible => "OpenAiCompatible",
            ManagedProviderKind::Anthropic => "Anthropic",
        };
        let head = text::cat6(
            "ProviderFormOverlay { display_name: ",
            text::debug_text(self.field(ProviderFormField::DisplayName)).as_str(),
            ", alias: ",
            text::debug_text(self.field(ProviderFormField::Alias)).as_str(),
            ", kind: ",
            kind,
        );
        let middle = text::cat7(
            head.as_str(),
            ", base_url: ",
            text::debug_text(self.field(ProviderFormField::BaseUrl)).as_str(),
            ", api_key: \"<redacted>\", model: ",
            text::debug_text(self.field(ProviderFormField::Model)).as_str(),
            ", reasoning_effort: ",
            text::debug_text(self.reasoning_effort_text()).as_str(),
        );
        let notice = match &self.notice {
            Some(n) => text::cat3("Some(", text::debug_text(n.as_str()).as_str(), ")"),
            None => "None".to_owned(),
        };
        let r = text::cat6(
            middle.as_str(),
            ", selected: ",
            text::decimal_text(self.selected as u64).as_str(),
            ", notice: ",
            notice.as_str(),
            " }",
        );
        proof {
            assert(r@ =~= described(self@));
        }
        r
    }

    /// Takes over a chosen model and effort, and selects the row of the effort.
    pub fn set_model_and_reasoning(&mut self, model: &str, reasoning_effort: &str)
        requires
            old(self)@.well_formed(),
        ensures
            final(self)@ == (FormView {
                selected: 7,
                ..old(self)@.with_field(4, input::plain_input(model@)).with_field(
                    5,
                    input::plain_input(reasoning_effort@),
                )
            }),
            final(self)@.well_formed(),
            form_field(7) == ProviderFormField::ReasoningEffort,
    {
        self.fill(4, model.to_owned());
        self.fill(5, reasoning_effort.to_owned());
        self.selected = 7;
    }

    /// Takes over an alias that was derived from the name.
    pub fn set_derived_alias(&mut self, alias: &str)
        requires
            old(self)@.well_formed(),
        ensures
            final(self)@ == old(self)@.with_field(1, input::plain_input(alias@)),
            final(self)@.well_formed(),
    {
        self.fill(1, alias.to_owned());
    }

    pub fn discovery_request(&self) -> (r: (Option<String>, ProviderFormValues))
        requires
            self@.well_formed(),
        ensures
            plan_model::opt(r.0) == self@.original_alias,
            r.1@ == self@.values(),
    {
        (provider_overlay::copy_opt(&self.original_alias), self.values())
    }

    pub fn insert_paste(&mut self, value: &str)
        requires
            old(self)@.well_formed(),
        ensures
            final(self)@ == form_paste(old(self)@, value@),
            final(self)@.well_formed(),
    {
        if self.selected_field() == ProviderFormField::Alias && self.is_editing() {
            self.notice = Some("Config alias is the stable provider ID".to_owned());
            return;
        }
        match field_input_index(self.selected_field()) {
            Some(index) => {
                let ghost before = self.fields@;
                proof {
                    assert(input_views(before)[index as int] == before[index as int]@);
                    assert(self@.fields[index as int].well_formed());
                }
                self.fields[index].insert_str(value);
                proof {
                    assert(input_views(self.fields@) =~= input_views(before).update(
                        index as int,
                        self.fields@[index as int]@,
                    ));
                }
            },
            None => {},
        }
    }

    /// Applies a key press. Where it asks for an alias to be derived from the name, the
    /// alias is handed back by `set_derived_alias`.
    pub fn handle_key(&mut self, key: KeyEvent) -> (r: ProviderOverlayAction)
        requires
            old(self)@.well_formed(),
        ensures
            final(self)@ == form_key(old(self)@, key).0,
            r@ == form_key(old(self)@, key).1,
            final(self)@.well_formed(),
    {
        self.notice = None;
        let row = self.selected_field();
        let turn = key.code == KeyCode::Left || key.code == KeyCode::Right || key.code
            == KeyCode::Char(' ');
        if key.code == KeyCode::Esc {
            ProviderOverlayAction::Back
        } else if key.code == KeyCode::Char('s') && key.modifiers.control {
            self.save_action()
        } else if key.code == KeyCode::Tab || key.code == KeyCode::Down {
            self.selected = if self.selected + 1 < FORM_FIELD_COUNT {
                self.selected + 1
            } else {
                0
            };
            ProviderOverlayAction::Consumed
        } else if key.code == KeyCode::BackTab || key.code == KeyCode::Up {
            self.selected = if self.selected > 0 {
                self.selected - 1
            } else {
                FORM_FIELD_COUNT - 1
            };
            ProviderOverlayAction::Consumed
        } else if turn && row == ProviderFormField::Kind {
            self.toggle_kind();
            ProviderOverlayAction::Consumed
        } else if turn && row == ProviderFormField::Protocol {
            self.toggle_protocol();
            ProviderOverlayAction::Consumed
        } else if key.code == KeyCode::Char(' ') && key.modifiers.control && row
            == ProviderFormField::ReasoningEffort {
            self.cycle_reasoning();
            ProviderOverlayAction::Consumed
        } else if key.code == KeyCode::Enter {
            if row == ProviderFormField::Model {
                let (original_alias, values) = self.discovery_request();
                ProviderOverlayAction::DiscoverFormModels { original_alias, values }
            } else if row == ProviderFormField::Save {
                self.save_action()
            } else {
                self.selected = self.selected + 1;
                ProviderOverlayAction::Consumed
            }
        } else {
            self.type_key(key)
        }
    }

    fn type_key(&mut self, key: KeyEvent) -> (r: ProviderOverlayAction)
        requires
            old(self)@.well_formed(),
        ensures
            final(self)@ == typed(old(self)@, key).0,
            r@ == typed(old(self)@, key).1,
            final(self)@.well_formed(),
    {
        let row = self.selected_field();
        match field_input_index(row) {
            None => ProviderOverlayAction::Consumed,
            Some(index) => {
                if row == ProviderFormField::Alias && self.is_editing() {
                    self.notice = Some("Config alias is the stable provider ID".to_owned());
                    return ProviderOverlayAction::Consumed;
                }
                let ghost before = self.fields@;
                proof {
                    assert(input_views(before)[index as int] == before[index as int]@);
                    assert(self@.fields[index as int].well_formed());
                }
                self.fields[index].handle_key(key);
                proof {
                    assert(input_views(self.fields@) =~= input_views(before).update(
                        index as int,
                        self.fields@[index as int]@,
                    ));
                }
                if row == ProviderFormField::Alias {
                    self.alias_edited = true;
                    ProviderOverlayAction::Consumed
                } else if row == ProviderFormField::DisplayName && !self.alias_edited {
                    ProviderOverlayAction::DeriveAlias(self.fields[index].text().to_owned())
                } else {
                    ProviderOverlayAction::Consumed
                }
            },
        }
    }

    fn toggle_kind(&mut self)
        requires
            old(self)@.well_formed(),
        ensures
            final(self)@ == (FormView { kind: other_kind(old(self)@.kind), ..old(self)@ }).with_field(
                2,
                input::plain_input(default_address(other_kind(old(self)@.kind))),
            ),
            final(self)@.well_formed(),
    {
        match self.kind {
            ManagedProviderKind::OpenAiCompatible => {
                self.kind = ManagedProviderKind::Anthropic;
                self.fill(2, "https://api.anthropic.com".to_owned());
            },
            ManagedProviderKind::Anthropic => {
                self.kind = ManagedProviderKind::OpenAiCompatible;
                self.fill(2, "https://api.openai.com/v1".to_owned());
            },
        }
    }

    fn toggle_protocol(&mut self)
        requires
            old(self)@.well_formed(),
        ensures
            final(self)@ == (if old(self)@.kind == ManagedProviderKind::OpenAiCompatible {
                FormView {
                    openai_protocol: other_protocol(old(self)@.openai_protocol),
                    ..old(self)@
                }
            } else {
                old(self)@
            }),
            final(self)@.well_formed(),
    {
        if self.kind == ManagedProviderKind::OpenAiCompatible {
            self.openai_protocol = match self.openai_protocol {
                OpenAiProtocol::Responses => OpenAiProtocol::ChatCompletions,
                OpenAiProtocol::ChatCompletions => OpenAiProtocol::Responses,
            };
        }
    }

    fn cycle_reasoning(&mut self)
        requires
            old(self)@.well_formed(),
        ensures
            final(self)@ == old(self)@.with_field(
                5,
                input::plain_input(next_preset(text::trimmed(old(self)@.fields[5].text))),
            ),
            final(self)@.well_formed(),
    {
        let current = text::trim(self.reasoning_effort_text());
        let next: usize = match preferences::preset_index(current.as_str()) {
            Some(i) => if i + 1 < preferences::PRESET_COUNT {
                i + 1
            } else {
                0
            },
            None => 0,
        };
        match preferences::preset(next) {
            Some(value) => self.fill(5, value.to_owned()),
            None => {},
        }
    }

    fn save_action(&self) -> (r: ProviderOverlayAction)
        requires
            self@.well_formed(),
        ensures
            r@ == self@.saving(),
    {
        match &self.original_alias {
            None => ProviderOverlayAction::SaveProvider(self.values()),
            Some(original_alias) => ProviderOverlayAction::UpdateProvider {
                original_alias: original_alias.clone(),
                values: self.values(),
            },
        }
    }

    fn values(&self) -> (r: ProviderFormValues)
        requires
            self@.well_formed(),
        ensures
            r@ == self@.values(),
    {
        ProviderFormValues {
            display_name: self.field(ProviderFormField::DisplayName).to_owned(),
            alias: self.field(ProviderFormField::Alias).to_owned(),
            kind: self.kind,
            protocol: self.protocol(),
            base_url: self.field(ProviderFormField::BaseUrl).to_owned(),
            api_key: self.field(ProviderFormField::ApiKey).to_owned(),
            model: self.field(ProviderFormField::Model).to_owned(),
            reasoning_effort: text::trim(self.reasoning_effort_text()),
        }
    }
}

/// Where a key is typed into a row of the form, that row alone changes, as the input would; a
/// row without a text changes by no typing. The name of a new provider suggests its alias until
/// the alias has been edited itself.
pub proof fn typing_changes_the_selected_row(f: FormView, key: KeyEvent, c: char)
    requires
        f.well_formed(),
        key.code == KeyCode::Char(c),
        !key.modifiers.control,
        c != ' ',
    ensures
        ({
            let (after, asked) = form_key(f, key);
            let row = form_field(f.selected);
            &&& after.selected == f.selected
            &&& after.kind == f.kind
            &&& after.openai_protocol == f.openai_protocol
            &&& after.fields.len() == 6
            &&& input_index(row) matches Some(i) ==> (!(row == ProviderFormField::Alias
                && f.original_alias is Some) ==> after.fields[i] == input::after_key(
                f.fields[i],
                key,
            ))
            &&& forall|j: int|
                0 <= j < 6 && input_index(row) != Some(j) ==> #[trigger] after.fields[j]
                    == f.fields[j]
            &&& input_index(row) is None ==> after.fields == f.fields
            &&& row == ProviderFormField::DisplayName && !f.alias_edited ==> asked
                == provider_overlay::ActionView::DeriveAlias(after.fields[0].text)
            &&& row == ProviderFormField::Alias && f.original_alias is None ==> after.alias_edited
            &&& row != ProviderFormField::DisplayName || f.alias_edited ==> asked
                == provider_overlay::ActionView::Consumed
        }),
{
}

/// The rows of the form are gone through in a circle, and back the same way.
pub proof fn rows_of_the_form_go_round(f: FormView, down: KeyEvent, up: KeyEvent)
    requires
        f.well_formed(),
        down.code == KeyCode::Tab || down.code == KeyCode::Down,
        up.code == KeyCode::BackTab || up.code == KeyCode::Up,
    ensures
        f.selected + 1 < FORM_FIELD_COUNT ==> form_key(f, down).0.selected == f.selected + 1,
        f.selected + 1 == FORM_FIELD_COUNT ==> form_key(f, down).0.selected == 0,
        form_key(form_key(f, down).0, up).0.selected == f.selected,
        form_key(form_key(f, up).0, down).0.selected == f.selected,
        form_key(f, down).0.fields == f.fields,
        form_key(f, up).0.fields == f.fields,
{
}

/// A form is saved with what its rows say: a new provider as such, an edited one under the
/// alias that it had. Only the row for saving and its own key save it.
pub proof fn forms_are_saved_as_they_stand(f: FormView, key: KeyEvent)
    requires
        f.well_formed(),
    ensures
        ({
            let (after, asked) = form_key(f, key);
            let values = f.values();
            let saves = (key.code == KeyCode::Char('s') && key.modifiers.control) || (key.code
                == KeyCode::Enter && form_field(f.selected) == ProviderFormField::Save);
            &&& asked == provider_overlay::ActionView::SaveProvider(values) <==> saves
                && f.original_alias is None
            &&& asked is UpdateProvider <==> saves && f.original_alias is Some
            &&& saves && f.original_alias is Some ==> asked
                == (provider_overlay::ActionView::UpdateProvider {
                original_alias: f.original_alias->0,
                values,
            })
            &&& saves ==> after.fields == f.fields
            &&& values.display_name == f.fields[0].text
            &&& values.alias == f.fields[1].text
            &&& values.base_url == f.fields[2].text
            &&& values.api_key == f.fields[3].text
            &&& values.model == f.fields[4].text
            &&& values.reasoning_effort == text::trimmed(f.fields[5].text)
            &&& values.kind == f.kind
            &&& f.kind == ManagedProviderKind::OpenAiCompatible ==> values.protocol == Some(
                f.openai_protocol,
            )
            &&& f.kind == ManagedProviderKind::Anthropic ==> values.protocol is None
            &&& asked == provider_overlay::ActionView::Back <==> key.code == KeyCode::Esc
        }),
{
}

/// Turning the kind of a provider brings the address of the other kind with it, and turning it
/// twice leads back to the kind; the protocol is turned only where there is one.
pub proof fn kinds_bring_their_address(f: FormView, key: KeyEvent)
    requires
        f.well_formed(),
        key.code == KeyCode::Left || key.code == KeyCode::Right,
    ensures
        ({
            let after = form_key(f, key).0;
            let again = form_key(after, key).0;
            &&& form_field(f.selected) == ProviderFormField::Kind ==> after.kind != f.kind
                && again.kind == f.kind && after.fields[2].text == default_address(after.kind)
                && after.openai_protocol == f.openai_protocol
            &&& form_field(f.selected) == ProviderFormField::Protocol && f.kind
                == ManagedProviderKind::OpenAiCompatible ==> after.openai_protocol
                != f.openai_protocol && again.openai_protocol == f.openai_protocol && after.fields
                == f.fields
            &&& form_field(f.selected) == ProviderFormField::Protocol && f.kind
                == ManagedProviderKind::Anthropic ==> after.openai_protocol == f.openai_protocol
        }),
{
}

/// A form for an existing provider shows what it holds, but never its key.
pub proof fn forms_show_what_a_provider_holds(
    seed: ProviderFormSeed,
    used_aliases: Seq<Seq<char>>,
)
    ensures
        ({
            let f = edit_form(seed, used_aliases);
            &&& f.well_formed()
            &&& f.values().display_name == seed.display_name@
            &&& f.values().alias == seed.alias@
            &&& f.values().base_url == seed.base_url@
            &&& f.values().model == seed.model@
            &&& f.values().kind == seed.kind
            &&& f.values().api_key.len() == 0
            &&& f.original_alias == Some(seed.original_alias@)
            &&& f.used_aliases == used_aliases
        }),
{
    let f = edit_form(seed, used_aliases);
    assert forall|i: int| 0 <= i < 6 implies (#[trigger] f.fields[i]).well_formed() by {
        assert(f.fields[i].elements.len() == 0);
    }
}

} // verus!
