//! The choice of a reasoning effort.
use crate::input;
use crate::input::TextInput;
use crate::key::{KeyCode, KeyEvent};
use crate::menu;
use crate::plan_model;
use crate::preferences;
use crate::provider_overlay;
use crate::provider_overlay::{ModelPickerTarget, ReasoningEffort};
use crate::text;
use vstd::prelude::*;

verus! {

/// The choice of a reasoning effort: a preset, or one of the user's own.
#[derive(Debug, PartialEq, Eq)]
pub struct ReasoningPickerOverlay {
    alias: String,
    model: String,
    target: ModelPickerTarget,
    selected: usize,
    custom_editor: Option<TextInput>,
    error: Option<String>,
}

/// The choice of a reasoning effort.
pub struct EffortPickerView {
    pub alias: Seq<char>,
    pub model: Seq<char>,
    pub target: ModelPickerTarget,
    pub selected: int,
    pub custom_editor: Option<input::InputView>,
    pub error: Option<Seq<char>>,
}

/// An optional text under edit.
pub open spec fn editor_view(e: Option<TextInput>) -> Option<input::InputView> {
    match e {
        Some(e) => Some(e@),
        None => None,
    }
}

impl View for ReasoningPickerOverlay {
    type V = EffortPickerView;

    closed spec fn view(&self) -> EffortPickerView {
        EffortPickerView {
            alias: self.alias@,
            model: self.model@,
            target: self.target,
            selected: self.selected as int,
            custom_editor: editor_view(self.custom_editor),
            error: plan_model::opt(self.error),
        }
    }
}

/// What the picker asks for.
#[derive(Debug, PartialEq, Eq)]
pub enum ReasoningPickerAction {
    Consumed,
    Back,
    SelectReasoning {
        alias: String,
        model: String,
        reasoning_effort: ReasoningEffort,
        target: ModelPickerTarget,
    },
}

pub enum EffortActionView {
    Consumed,
    Back,
    SelectReasoning {
        alias: Seq<char>,
        model: Seq<char>,
        reasoning_effort: Seq<char>,
        target: ModelPickerTarget,
    },
}

impl View for ReasoningPickerAction {
    type V = EffortActionView;

    open spec fn view(&self) -> EffortActionView {
        match self {
            ReasoningPickerAction::Consumed => EffortActionView::Consumed,
            ReasoningPickerAction::Back => EffortActionView::Back,
            ReasoningPickerAction::SelectReasoning { alias, model, reasoning_effort, target } =>
                EffortActionView::SelectReasoning {
                alias: alias@,
                model: model@,
                reasoning_effort: reasoning_effort@,
                target: *target,
            },
        }
    }
}

impl EffortPickerView {
    pub open spec fn well_formed(self) -> bool {
        &&& 0 <= self.selected <= preferences::PRESET_COUNT
        &&& self.custom_editor matches Some(e) ==> e.well_formed()
    }

    /// Choosing an effort.
    pub open spec fn choosing(self, effort: Seq<char>) -> EffortActionView {
        EffortActionView::SelectReasoning {
            alias: self.alias,
            model: self.model,
            reasoning_effort: effort,
            target: self.target,
        }
    }
}

/// The picker after a key press. `refusal` is why the model layer refuses the effort that
/// stands in the editor, if it does.
pub open spec fn effort_key(p: EffortPickerView, key: KeyEvent, refusal: Option<Seq<char>>) -> (
    EffortPickerView,
    EffortActionView,
) {
    match p.custom_editor {
        Some(editor) => match key.code {
            KeyCode::Esc => (
                EffortPickerView { custom_editor: None, error: None, ..p },
                EffortActionView::Consumed,
            ),
            KeyCode::Enter => match refusal {
                None => (p, p.choosing(text::trimmed(editor.text))),
                Some(reason) => (
                    EffortPickerView { error: Some(reason), ..p },
                    EffortActionView::Consumed,
                ),
            },
            _ => (
                EffortPickerView {
                    custom_editor: Some(input::after_key(editor, key)),
                    error: None,
                    ..p
                },
                EffortActionView::Consumed,
            ),
        },
        None => match key.code {
            KeyCode::Esc => (p, EffortActionView::Back),
            KeyCode::Down => (
                EffortPickerView {
                    selected: menu::below(p.selected, preferences::PRESET_COUNT + 1),
                    ..p
                },
                EffortActionView::Consumed,
            ),
            KeyCode::Up => (
                EffortPickerView { selected: menu::above(p.selected), ..p },
                EffortActionView::Consumed,
            ),
            KeyCode::Enter => if p.selected < preferences::PRESET_COUNT {
                (p, p.choosing(preferences::presets()[p.selected]))
            } else {
                (
                    EffortPickerView {
                        custom_editor: Some(input::empty_input()),
                        error: None,
                        ..p
                    },
                    EffortActionView::Consumed,
                )
            },
            _ => (p, EffortActionView::Consumed),
        },
    }
}

/// The picker after a paste: it goes to the editor, if it is open.
pub open spec fn effort_paste(p: EffortPickerView, value: Seq<char>) -> EffortPickerView {
    match p.custom_editor {
        Some(e) => EffortPickerView {
            custom_editor: Some(input::edited(e, e.cursor, e.cursor, value)),
            error: None,
            ..p
        },
        None => p,
    }
}

impl ReasoningPickerOverlay {
    pub fn new(alias: String, model: String, target: ModelPickerTarget) -> (r:
        ReasoningPickerOverlay)
        ensures
            r@ == (EffortPickerView {
                alias: alias@,
                model: model@,
                target,
                selected: 0,
                custom_editor: None,
                error: None,
            }),
            r@.well_formed(),
    {
        ReasoningPickerOverlay {
            alias,
            model,
            target,
            selected: 0,
            custom_editor: None,
            error: None,
        }
    }

    pub fn alias(&self) -> (r: &str)
        ensures
            r@ == self@.alias,
    {
        self.alias.as_str()
    }

    pub fn model(&self) -> (r: &str)
        ensures
            r@ == self@.model,
    {
        self.model.as_str()
    }

    pub fn selected(&self) -> (r: usize)
        ensures
            r == self@.selected,
    {
        self.selected
    }

    pub fn custom_editor(&self) -> (r: Option<&TextInput>)
        ensures
            match r {
                Some(e) => self@.custom_editor == Some(e@),
                None => self@.custom_editor is None,
            },
    {
        match &self.custom_editor {
            Some(e) => Some(e),
            None => None,
        }
    }

    pub fn error(&self) -> (r: Option<&str>)
        ensures
            provider_overlay::opt_str(r) == self@.error,
    {
        provider_overlay::lend_opt(&self.error)
    }

    pub fn insert_paste(&mut self, value: &str)
        requires
            old(self)@.well_formed(),
        ensures
            final(self)@ == effort_paste(old(self)@, value@),
            final(self)@.well_formed(),
    {
        match &mut self.custom_editor {
            Some(editor) => {
                editor.insert_str(value);
                self.error = None;
            },
            None => {},
        }
    }

    /// How many choices there are: the presets and one of the user's own.
    pub fn option_count(&self) -> (r: usize)
        ensures
            r == preferences::PRESET_COUNT + 1,
    {
        preferences::PRESET_COUNT + 1
    }

    pub fn option_label(&self, index: usize) -> (r: &str)
        ensures
            r@ == (if index < preferences::PRESET_COUNT {
                preferences::presets()[index as int]
            } else {
                "Custom"@
            }),
    {
        match preferences::preset(index) {
            Some(label) => label,
            None => "Custom",
        }
    }

    /// Applies a key press. `refusal` is why the model layer refuses the trimmed text of
    /// the editor, if it does.
    pub fn handle_key(&mut self, key: KeyEvent, refusal: Option<String>) -> (r:
        ReasoningPickerAction)
        requires
            old(self)@.well_formed(),
        ensures
            final(self)@ == effort_key(old(self)@, key, plan_model::opt(refusal)).0,
            r@ == effort_key(old(self)@, key, plan_model::opt(refusal)).1,
            final(self)@.well_formed(),
    {
        if self.custom_editor.is_some() {
            return self.handle_editor_key(key, refusal);
        }
        match key.code {
            KeyCode::Esc => ReasoningPickerAction::Back,
            KeyCode::Down => {
                self.selected = menu::step_below(self.selected, preferences::PRESET_COUNT + 1);
                ReasoningPickerAction::Consumed
            },
            KeyCode::Up => {
                self.selected = menu::step_above(self.selected);
                ReasoningPickerAction::Consumed
            },
            KeyCode::Enter => match preferences::preset(self.selected) {
                Some(value) => self.select(value.to_owned()),
                None => {
                    self.custom_editor = Some(TextInput::default());
                    self.error = None;
                    ReasoningPickerAction::Consumed
                },
            },
            _ => ReasoningPickerAction::Consumed,
        }
    }

    fn select(&self, value: String) -> (r: ReasoningPickerAction)
        ensures
            r@ == self@.choosing(value@),
    {
        ReasoningPickerAction::SelectReasoning {
            alias: self.alias.clone(),
            model: self.model.clone(),
            reasoning_effort: ReasoningEffort { value },
            target: self.target,
        }
    }

    fn handle_editor_key(&mut self, key: KeyEvent, refusal: Option<String>) -> (r:
        ReasoningPickerAction)
        requires
            old(self)@.well_formed(),
            old(self)@.custom_editor is Some,
        ensures
            final(self)@ == effort_key(old(self)@, key, plan_model::opt(refusal)).0,
            r@ == effort_key(old(self)@, key, plan_model::opt(refusal)).1,
            final(self)@.well_formed(),
    {
        match key.code {
            KeyCode::Esc => {
                self.custom_editor = None;
                self.error = None;
                ReasoningPickerAction::Consumed
            },
            KeyCode::Enter => match refusal {
                Some(reason) => {
                    self.error = Some(reason);
                    ReasoningPickerAction::Consumed
                },
                None => match &self.custom_editor {
                    Some(editor) => self.select(text::trim(editor.text())),
                    None => ReasoningPickerAction::Consumed,
                },
            },
            _ => {
                match &mut self.custom_editor {
                    Some(editor) => editor.handle_key(key),
                    None => {},
                }
                self.error = None;
                ReasoningPickerAction::Consumed
            },
        }
    }
}

/// The choice of an effort: a preset that is entered is chosen for the model that was asked
/// about; the last row opens an editor, whose text is chosen without the blanks around it
/// unless it is refused, and then the reason is shown. Nothing else chooses.
pub proof fn efforts_are_chosen_by_enter(
    p: EffortPickerView,
    key: KeyEvent,
    refusal: Option<Seq<char>>,
)
    requires
        p.well_formed(),
    ensures
        ({
            let (after, asked) = effort_key(p, key, refusal);
            &&& after.alias == p.alias
            &&& after.model == p.model
            &&& after.target == p.target
            &&& after.well_formed()
            &&& asked is SelectReasoning <==> key.code == KeyCode::Enter && (if p.custom_editor is Some {
                refusal is None
            } else {
                p.selected < preferences::PRESET_COUNT
            })
            &&& asked matches EffortActionView::SelectReasoning {
                alias,
                model,
                reasoning_effort,
                target,
            } ==> alias == p.alias && model == p.model && target == p.target && reasoning_effort
                == (match p.custom_editor {
                Some(e) => text::trimmed(e.text),
                None => preferences::presets()[p.selected],
            })
            &&& p.custom_editor is Some && key.code == KeyCode::Enter && refusal is Some
                ==> after.error == refusal && after.custom_editor == p.custom_editor
            &&& p.custom_editor is None && key.code == KeyCode::Enter && p.selected
                == preferences::PRESET_COUNT ==> after.custom_editor == Some(input::empty_input())
            &&& asked == EffortActionView::Back <==> p.custom_editor is None && key.code
                == KeyCode::Esc
            &&& p.custom_editor is Some && key.code == KeyCode::Esc ==> after.custom_editor is None
            &&& p.custom_editor matches Some(e) ==> (key.code != KeyCode::Esc && key.code
                != KeyCode::Enter ==> after.custom_editor == Some(input::after_key(e, key)))
            &&& p.custom_editor is None && key.code == KeyCode::Down && p.selected
                < preferences::PRESET_COUNT ==> after.selected == p.selected + 1
            &&& p.custom_editor is None && key.code == KeyCode::Up && p.selected > 0
                ==> after.selected == p.selected - 1
        }),
{
    if p.custom_editor is Some && key.code != KeyCode::Esc && key.code != KeyCode::Enter {
        input::keys_keep_inputs_well_formed(p.custom_editor->0, key);
    }
}

} // verus!
