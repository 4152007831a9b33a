//! What lies over the conversation: the command palette, the settings, and dialogs.
use crate::command;
use crate::command::{CommandSpec, PaletteCommand};
use crate::command_details;
use crate::command_details::{CommandDetails, DetailsKeyResult};
use crate::completion;
use crate::input;
use crate::input::{TextInput, TextInputViewport};
use crate::key::{KeyCode, KeyEvent};
use crate::menu;
use crate::plan_approval::PlanApprovalInput;
use crate::plan_model;
use crate::plan_model::{PlanNodeStatus, PlanPhase, PlanSnapshot};
use crate::provider_form;
use crate::provider_form::ProviderFormOverlay;
use crate::provider_overlay;
use crate::provider_overlay::{
    ModelPickerOverlay, ModelPickerTarget, ProviderManagerOverlay, ProviderOverlayAction,
};
use crate::reasoning_picker;
use crate::reasoning_picker::{ReasoningPickerAction, ReasoningPickerOverlay};
use crate::text;
use vstd::prelude::*;

verus! {

/// What the palette knows of the plan.
#[derive(Debug, Clone, Copy, PartialEq, Eq, Structural)]
pub struct PlanPaletteContext {
    pub has_plan: bool,
    pub plan_open: bool,
    pub plan_focused: bool,
    pub phase: Option<PlanPhase>,
    pub plan_ready: bool,
    pub retry_selected: bool,
}

/// What is known where there is no plan.
pub open spec fn no_plan() -> PlanPaletteContext {
    PlanPaletteContext {
        has_plan: false,
        plan_open: false,
        plan_focused: false,
        phase: None,
        plan_ready: false,
        retry_selected: false,
    }
}

impl Default for PlanPaletteContext {
    fn default() -> (r: Self)
        ensures
            r == no_plan(),
    {
        PlanPaletteContext {
            has_plan: false,
            plan_open: false,
            plan_focused: false,
            phase: None,
            plan_ready: false,
            retry_selected: false,
        }
    }
}

/// Whether a node of this name is blocked.
pub open spec fn blocked(snapshot: PlanSnapshot, node: Seq<char>) -> bool {
    exists|i: int|
        0 <= i < snapshot.nodes@.len() && (#[trigger] snapshot.nodes@[i]).id@ == node
            && snapshot.nodes@[i].status == PlanNodeStatus::Blocked
}

/// The outcome of the latest attempt, among the first `n`, at a node.
pub open spec fn latest_outcome(snapshot: PlanSnapshot, node: Seq<char>, n: int) -> Option<
    Seq<char>,
>
    decreases n,
{
    if n <= 0 {
        None
    } else if snapshot.attempts@[n - 1].node_id@ == node {
        plan_model::opt(snapshot.attempts@[n - 1].outcome)
    } else {
        latest_outcome(snapshot, node, n - 1)
    }
}

/// Whether a node can be tried again: it is blocked, and its latest attempt was
/// interrupted.
pub open spec fn can_retry(snapshot: PlanSnapshot, node: Seq<char>) -> bool {
    blocked(snapshot, node) && latest_outcome(snapshot, node, snapshot.attempts@.len() as int)
        == Some("Interrupted"@)
}

fn retry_is_possible(snapshot: &PlanSnapshot, node: &str) -> (r: bool)
    ensures
        r == can_retry(*snapshot, node@),
{
    let mut is_blocked = false;
    let mut i: usize = 0;
    while i < snapshot.nodes.len()
        invariant
            i <= snapshot.nodes@.len(),
            is_blocked == (exists|k: int|
                0 <= k < i && (#[trigger] snapshot.nodes@[k]).id@ == node@
                    && snapshot.nodes@[k].status == PlanNodeStatus::Blocked),
        decreases snapshot.nodes@.len() - i,
    {
        if snapshot.nodes[i].status == PlanNodeStatus::Blocked && text::same(
            snapshot.nodes[i].id.as_str(),
            node,
        ) {
            proof {
                assert(snapshot.nodes@[i as int].id@ == node@);
            }
            is_blocked = true;
        }
        i += 1;
    }
    if !is_blocked {
        return false;
    }
    let mut n: usize = snapshot.attempts.len();
    while n > 0
        invariant
            n <= snapshot.attempts@.len(),
            blocked(*snapshot, node@),
            latest_outcome(*snapshot, node@, snapshot.attempts@.len() as int) == latest_outcome(
                *snapshot,
                node@,
                n as int,
            ),
        decreases n,
    {
        if text::same(snapshot.attempts[n - 1].node_id.as_str(), node) {
            return plan_model::opt_is(&snapshot.attempts[n - 1].outcome, "Interrupted");
        }
        n -= 1;
    }
    false
}

impl PlanPaletteContext {
    pub fn from_snapshot(
        snapshot: Option<&PlanSnapshot>,
        selected_node_id: Option<&str>,
        plan_open: bool,
        plan_focused: bool,
    ) -> (r: PlanPaletteContext)
        ensures
            r.has_plan == (snapshot is Some),
            r.plan_open == plan_open,
            r.plan_focused == plan_focused,
            r.phase == (match snapshot {
                Some(s) => Some(s.phase),
                None => None,
            }),
            r.plan_ready == (snapshot matches Some(s) && s.root_node_id is Some),
            r.retry_selected == (snapshot is Some && selected_node_id is Some && can_retry(
                *snapshot->0,
                selected_node_id->0@,
            )),
    {
        match snapshot {
            None => PlanPaletteContext {
                has_plan: false,
                plan_open,
                plan_focused,
                phase: None,
                plan_ready: false,
                retry_selected: false,
            },
            Some(s) => PlanPaletteContext {
                has_plan: true,
                plan_open,
                plan_focused,
                phase: Some(s.phase),
                plan_ready: s.root_node_id.is_some(),
                retry_selected: match selected_node_id {
                    Some(node) => retry_is_possible(s, node),
                    None => false,
                },
            },
        }
    }
}

/// Whether a command makes sense for the plan as it is. Commands that have nothing to do
/// with the plan always do.
pub open spec fn available(c: PaletteCommand, plan: PlanPaletteContext) -> bool {
    match c {
        PaletteCommand::EnterPlanMode => !plan.has_plan || plan.phase == Some(PlanPhase::Completed)
            || plan.phase == Some(PlanPhase::Blocked) || plan.phase == Some(PlanPhase::Cancelled),
        PaletteCommand::ApprovePlan => plan.plan_ready && (plan.phase == Some(PlanPhase::Planning)
            || plan.phase == Some(PlanPhase::AwaitingApproval)),
        PaletteCommand::RevisePlan => plan.phase == Some(PlanPhase::AwaitingApproval) || plan.phase
            == Some(PlanPhase::Executing),
        PaletteCommand::OpenPlan => plan.has_plan && !plan.plan_open,
        PaletteCommand::FocusPlan => plan.has_plan && plan.plan_open && !plan.plan_focused,
        PaletteCommand::ClosePlan => plan.has_plan && plan.plan_open,
        PaletteCommand::RetryPlanNode => plan.retry_selected,
        PaletteCommand::CancelPlan => plan.phase == Some(PlanPhase::Planning) || plan.phase == Some(
            PlanPhase::AwaitingApproval,
        ) || plan.phase == Some(PlanPhase::Executing),
        _ => true,
    }
}

pub fn plan_command_is_available(c: PaletteCommand, context: PlanPaletteContext) -> (r: bool)
    ensures
        r == available(c, context),
{
    match c {
        PaletteCommand::EnterPlanMode => !context.has_plan || matches!(
            context.phase,
            Some(PlanPhase::Completed | PlanPhase::Blocked | PlanPhase::Cancelled)
        ),
        PaletteCommand::ApprovePlan => context.plan_ready && matches!(
            context.phase,
            Some(PlanPhase::Planning | PlanPhase::AwaitingApproval)
        ),
        PaletteCommand::RevisePlan => matches!(
            context.phase,
            Some(PlanPhase::AwaitingApproval | PlanPhase::Executing)
        ),
        PaletteCommand::OpenPlan => context.has_plan && !context.plan_open,
        PaletteCommand::FocusPlan => context.has_plan && context.plan_open
            && !context.plan_focused,
        PaletteCommand::ClosePlan => context.has_plan && context.plan_open,
        PaletteCommand::RetryPlanNode => context.retry_selected,
        PaletteCommand::CancelPlan => matches!(
            context.phase,
            Some(PlanPhase::Planning | PlanPhase::AwaitingApproval | PlanPhase::Executing)
        ),
        _ => true,
    }
}

/// A plan that has ended is not approved, revised or cancelled, and one that is under way
/// is not entered anew.
pub proof fn ended_plans_are_left_alone(plan: PlanPaletteContext)
    requires
        plan.has_plan,
        plan.phase matches Some(p) && (p == PlanPhase::Completed || p == PlanPhase::Blocked || p
            == PlanPhase::Cancelled),
    ensures
        available(PaletteCommand::EnterPlanMode, plan),
        !available(PaletteCommand::ApprovePlan, plan),
        !available(PaletteCommand::RevisePlan, plan),
        !available(PaletteCommand::CancelPlan, plan),
{
}

/// Whether a label answers to a query in small letters.
pub open spec fn fuzzy(candidate: Seq<char>, query: Seq<char>) -> bool {
    text::occurs(text::lower(candidate), query) || completion::in_order(
        text::lower(candidate),
        query,
    )
}

pub fn fuzzy_matches(candidate: &str, query: &str) -> (r: bool)
    ensures
        r == fuzzy(candidate@, query@),
{
    let small = text::to_lower(candidate);
    if text::contains(small.as_str(), query) {
        return true;
    }
    let c = text::chars_of(small.as_str());
    let q = text::chars_of(query);
    completion::chars_in_order(&c, &q)
}

/// A query without the slash before it.
pub open spec fn unslashed(query: Seq<char>) -> Seq<char> {
    if query.len() > 0 && query[0] == '/' {
        query.drop_first()
    } else {
        query
    }
}

/// Whether the palette lists a command for a query in small letters.
pub open spec fn listed(c: command::CommandView, query: Seq<char>, plan: PlanPaletteContext) -> bool {
    available(c.command, plan) && (query.len() == 0 || fuzzy(c.label, query) || fuzzy(
        c.category,
        query,
    ) || (c.slash_name matches Some(name) && fuzzy(name, unslashed(query))))
}

/// The commands that the palette lists for a query.
pub open spec fn listing(
    commands: Seq<command::CommandView>,
    query: Seq<char>,
    plan: PlanPaletteContext,
) -> Seq<command::CommandView>
    decreases commands.len(),
{
    if commands.len() == 0 {
        commands
    } else if listed(commands.last(), query, plan) {
        listing(commands.drop_last(), query, plan).push(commands.last())
    } else {
        listing(commands.drop_last(), query, plan)
    }
}

/// The command palette.
#[derive(Debug, PartialEq, Eq)]
pub struct CommandPalette {
    query: TextInput,
    selected: usize,
    plan: PlanPaletteContext,
}

/// The command palette.
pub struct PaletteView {
    pub query: input::InputView,
    pub selected: int,
    pub plan: PlanPaletteContext,
}

impl View for CommandPalette {
    type V = PaletteView;

    closed spec fn view(&self) -> PaletteView {
        PaletteView { query: self.query@, selected: self.selected as int, plan: self.plan }
    }
}

impl PaletteView {
    pub open spec fn well_formed(self) -> bool {
        self.query.well_formed()
    }

    pub open spec fn visible(self) -> Seq<command::CommandView> {
        listing(command::registry(), text::lower(text::trimmed(self.query.text)), self.plan)
    }
}

/// The palette after a key press.
pub open spec fn palette_key(p: PaletteView, key: KeyEvent) -> (PaletteView, KeyResultView) {
    match key.code {
        KeyCode::Esc => (p, KeyResultView::Close),
        KeyCode::Enter => if 0 <= p.selected < p.visible().len() {
            (p, KeyResultView::Run(p.visible()[p.selected].command))
        } else {
            (p, KeyResultView::Consumed)
        },
        KeyCode::Down => (
            if p.visible().len() > 0 {
                PaletteView {
                    selected: menu::below(p.selected, p.visible().len() as int),
                    ..p
                }
            } else {
                p
            },
            KeyResultView::Consumed,
        ),
        KeyCode::Up => (
            PaletteView { selected: menu::above(p.selected), ..p },
            KeyResultView::Consumed,
        ),
        _ => {
            let typed = PaletteView { query: input::after_key(p.query, key), ..p };
            (
                PaletteView {
                    selected: menu::within(p.selected, typed.visible().len() as int),
                    ..typed
                },
                KeyResultView::Consumed,
            )
        },
    }
}

impl CommandPalette {
    pub fn for_plan(plan: PlanPaletteContext) -> (r: CommandPalette)
        ensures
            r@ == (PaletteView { query: input::empty_input(), selected: 0, plan }),
            r@.well_formed(),
    {
        CommandPalette { query: TextInput::default(), selected: 0, plan }
    }

    pub fn query(&self) -> (r: &str)
        ensures
            r@ == self@.query.text,
    {
        self.query.text()
    }

    pub fn query_viewport(&self, width: usize) -> (r: TextInputViewport)
        requires
            self@.well_formed(),
        ensures
            input::shows(r, self@.query, width as int, usize::MAX as int),
            r.text@ == input::shown_text(self@.query, width as int),
            r.cursor_column == input::shown_column(self@.query, width as int),
    {
        self.query.viewport(width)
    }

    pub fn selected(&self) -> (r: usize)
        ensures
            r == self@.selected,
    {
        self.selected
    }

    pub fn visible_commands(&self) -> (r: Vec<CommandSpec>)
        ensures
            command::command_views(r@) == self@.visible(),
    {
        let trimmed = text::trim(self.query.text());
        let query = text::to_lower(trimmed.as_str());
        let query_chars = text::chars_of(query.as_str());
        let slash_query = if query_chars.len() > 0 && query_chars[0] == '/' {
            text::text_of(&query_chars, 1, query_chars.len())
        } else {
            query.clone()
        };
        proof {
            assert(slash_query@ =~= unslashed(query@));
        }
        let commands = command::all_commands();
        let ghost all = command::registry();
        let mut r: Vec<CommandSpec> = Vec::new();
        let mut i: usize = 0;
        proof {
            assert(command::command_views(r@) =~= listing(all.take(0), query@, self@.plan));
        }
        while i < commands.len()
            invariant
                i <= commands@.len(),
                all == command::command_views(commands@),
                slash_query@ == unslashed(query@),
                command::command_views(r@) == listing(all.take(i as int), query@, self@.plan),
            decreases commands@.len() - i,
        {
            let ghost before = r@;
            let c = commands[i];
            proof {
                assert(all.take(i + 1).drop_last() =~= all.take(i as int));
                assert(all.take(i + 1).last() == commands@[i as int]@);
            }
            if plan_command_is_available(c.command, self.plan) && (query.as_str().is_empty()
                || fuzzy_matches(c.label, query.as_str()) || fuzzy_matches(
                c.category,
                query.as_str(),
            ) || match c.slash_name {
                Some(name) => fuzzy_matches(name, slash_query.as_str()),
                None => false,
            }) {
                r.push(c);
                proof {
                    assert(command::command_views(r@) =~= command::command_views(before).push(c@));
                }
            }
            i += 1;
        }
        proof {
            assert(all.take(i as int) =~= all);
        }
        r
    }

    fn visible_count(&self) -> (r: usize)
        ensures
            r == self@.visible().len(),
    {
        let shown = self.visible_commands();
        proof {
            assert(command::command_views(shown@).len() == shown@.len());
        }
        shown.len()
    }

    pub fn insert_paste(&mut self, value: &str)
        requires
            old(self)@.well_formed(),
        ensures
            final(self)@ == (PaletteView {
                query: input::edited(
                    old(self)@.query,
                    old(self)@.query.cursor,
                    old(self)@.query.cursor,
                    value@,
                ),
                selected: 0,
                ..old(self)@
            }),
            final(self)@.well_formed(),
    {
        self.query.insert_str(value);
        self.selected = 0;
    }

    pub fn handle_key(&mut self, key: KeyEvent) -> (r: OverlayKeyResult)
        requires
            old(self)@.well_formed(),
        ensures
            final(self)@ == palette_key(old(self)@, key).0,
            r@ == palette_key(old(self)@, key).1,
            final(self)@.well_formed(),
    {
        match key.code {
            KeyCode::Esc => OverlayKeyResult::Close,
            KeyCode::Enter => {
                let shown = self.visible_commands();
                proof {
                    assert(command::command_views(shown@).len() == shown@.len());
                }
                if self.selected < shown.len() {
                    proof {
                        assert(command::command_views(shown@)[self.selected as int]
                            == shown@[self.selected as int]@);
                    }
                    OverlayKeyResult::Run(shown[self.selected].command)
                } else {
                    OverlayKeyResult::Consumed
                }
            },
            KeyCode::Down => {
                let count = self.visible_count();
                if count > 0 {
                    self.selected = menu::step_below(self.selected, count);
                }
                OverlayKeyResult::Consumed
            },
            KeyCode::Up => {
                self.selected = menu::step_above(self.selected);
                OverlayKeyResult::Consumed
            },
            _ => {
                self.query.handle_key(key);
                let count = self.visible_count();
                self.selected = menu::clamp_within(self.selected, count);
                OverlayKeyResult::Consumed
            },
        }
    }
}

/// A row of the settings.
#[derive(Debug, Clone, Copy, PartialEq, Eq, Structural)]
pub enum SettingItem {
    CodeTheme,
    DefaultProvider,
    DefaultModel,
    ReasoningEffort,
    ContextWindow,
    AutoCompaction,
    ContextStrategy,
    Subagents,
    MaxThreads,
    KeyboardShortcuts,
}

/// How many rows the settings have.
pub const SETTING_COUNT: usize = 10;

/// The row at a position, from the top.
pub open spec fn setting_at(i: int) -> SettingItem {
    if i == 0 {
        SettingItem::CodeTheme
    } else if i == 1 {
        SettingItem::DefaultProvider
    } else if i == 2 {
        SettingItem::DefaultModel
    } else if i == 3 {
        SettingItem::ReasoningEffort
    } else if i == 4 {
        SettingItem::ContextWindow
    } else if i == 5 {
        SettingItem::AutoCompaction
    } else if i == 6 {
        SettingItem::ContextStrategy
    } else if i == 7 {
        SettingItem::Subagents
    } else if i == 8 {
        SettingItem::MaxThreads
    } else {
        SettingItem::KeyboardShortcuts
    }
}

/// Which way a setting is turned.
#[derive(Debug, Clone, Copy, PartialEq, Eq, Structural)]
pub enum SettingDirection {
    Previous,
    Next,
}

/// The settings.
#[derive(Debug, PartialEq, Eq)]
pub struct SettingsOverlay {
    selected: usize,
    model_editor: Option<TextInput>,
    reasoning_editor: Option<TextInput>,
    context_window_editor: Option<TextInput>,
    notice: Option<String>,
}

/// The settings.
pub struct SettingsView {
    pub selected: int,
    pub model_editor: Option<input::InputView>,
    pub reasoning_editor: Option<input::InputView>,
    pub context_window_editor: Option<input::InputView>,
    pub notice: Option<Seq<char>>,
}

impl View for SettingsOverlay {
    type V = SettingsView;

    closed spec fn view(&self) -> SettingsView {
        SettingsView {
            selected: self.selected as int,
            model_editor: reasoning_picker::editor_view(self.model_editor),
            reasoning_editor: reasoning_picker::editor_view(self.reasoning_editor),
            context_window_editor: reasoning_picker::editor_view(self.context_window_editor),
            notice: plan_model::opt(self.notice),
        }
    }
}

/// The settings as they are opened.
pub open spec fn fresh_settings() -> SettingsView {
    SettingsView {
        selected: 0,
        model_editor: None,
        reasoning_editor: None,
        context_window_editor: None,
        notice: None,
    }
}

pub open spec fn editor_well_formed(e: Option<input::InputView>) -> bool {
    e matches Some(v) ==> v.well_formed()
}

impl SettingsView {
    pub open spec fn well_formed(self) -> bool {
        &&& 0 <= self.selected < SETTING_COUNT
        &&& editor_well_formed(self.model_editor)
        &&& editor_well_formed(self.reasoning_editor)
        &&& editor_well_formed(self.context_window_editor)
    }

    pub open spec fn item(self) -> SettingItem {
        setting_at(self.selected)
    }
}

/// What an editor makes of a key press: the editor after it, and the text where it is
/// committed.
pub open spec fn editor_key(editor: input::InputView, key: KeyEvent) -> (
    Option<input::InputView>,
    Option<Seq<char>>,
) {
    match key.code {
        KeyCode::Esc => (None, None),
        KeyCode::Enter => (None, Some(editor.text)),
        _ => (Some(input::after_key(editor, key)), None),
    }
}

/// What the settings ask for when the selected row is entered.
pub open spec fn entering(item: SettingItem) -> KeyResultView {
    match item {
        SettingItem::DefaultModel => KeyResultView::BeginModelEdit,
        SettingItem::ReasoningEffort => KeyResultView::BeginReasoningEdit,
        SettingItem::ContextWindow => KeyResultView::BeginContextWindowEdit,
        SettingItem::DefaultProvider => KeyResultView::Provider(
            provider_overlay::ActionView::OpenProviderManager,
        ),
        SettingItem::KeyboardShortcuts => KeyResultView::OpenShortcuts,
        _ => KeyResultView::AdjustSetting(item, SettingDirection::Next),
    }
}

/// What the settings ask for when the selected row is turned.
pub open spec fn turning(item: SettingItem, direction: SettingDirection) -> KeyResultView {
    if item == SettingItem::DefaultProvider {
        KeyResultView::Provider(provider_overlay::ActionView::OpenProviderManager)
    } else {
        KeyResultView::AdjustSetting(item, direction)
    }
}

/// The settings after a key press. An open editor takes the key: the one of the model
/// before that of the context window, and that before the one of the effort.
pub open spec fn settings_key(s: SettingsView, key: KeyEvent) -> (SettingsView, KeyResultView) {
    if s.model_editor is Some {
        let (editor, committed) = editor_key(s.model_editor->0, key);
        (
            SettingsView { model_editor: editor, ..s },
            match committed {
                Some(value) => KeyResultView::CommitModel(value),
                None => KeyResultView::Consumed,
            },
        )
    } else if s.context_window_editor is Some {
        let (editor, committed) = editor_key(s.context_window_editor->0, key);
        (
            SettingsView { context_window_editor: editor, ..s },
            match committed {
                Some(value) => KeyResultView::CommitContextWindow(value),
                None => KeyResultView::Consumed,
            },
        )
    } else if s.reasoning_editor is Some {
        let (editor, committed) = editor_key(s.reasoning_editor->0, key);
        (
            SettingsView { reasoning_editor: editor, ..s },
            match committed {
                Some(value) => KeyResultView::CommitReasoning(value),
                None => KeyResultView::Consumed,
            },
        )
    } else {
        match key.code {
            KeyCode::Esc => (s, KeyResultView::Back),
            KeyCode::Down => (
                SettingsView {
                    selected: menu::below(s.selected, SETTING_COUNT as int),
                    notice: None,
                    ..s
                },
                KeyResultView::Consumed,
            ),
            KeyCode::Up => (
                SettingsView { selected: menu::above(s.selected), notice: None, ..s },
                KeyResultView::Consumed,
            ),
            KeyCode::Left => (s, turning(s.item(), SettingDirection::Previous)),
            KeyCode::Right => (s, turning(s.item(), SettingDirection::Next)),
            KeyCode::Backspace => (s, KeyResultView::ResetSetting(s.item())),
            KeyCode::Delete => (s, KeyResultView::ResetSetting(s.item())),
            KeyCode::Enter => (s, entering(s.item())),
            _ => (s, KeyResultView::Consumed),
        }
    }
}

/// An editor with a text in it.
fn editor_with(value: String) -> (r: TextInput)
    ensures
        r@ == input::plain_input(value@),
        r@.well_formed(),
{
    let mut editor = TextInput::default();
    editor.replace_text(value);
    editor
}

/// Hands a key to an editor, and gives back the text where it is committed.
fn edit(editor: &mut Option<TextInput>, key: KeyEvent) -> (r: Option<String>)
    requires
        *old(editor) is Some,
        (*old(editor))->0@.well_formed(),
    ensures
        reasoning_picker::editor_view(*final(editor)) == editor_key((*old(editor))->0@, key).0,
        plan_model::opt(r) == editor_key((*old(editor))->0@, key).1,
        editor_well_formed(reasoning_picker::editor_view(*final(editor))),
{
    match key.code {
        KeyCode::Esc => {
            *editor = None;
            None
        },
        KeyCode::Enter => {
            let value = match &*editor {
                Some(e) => Some(e.text().to_owned()),
                None => None,
            };
            *editor = None;
            value
        },
        _ => {
            match editor {
                Some(e) => e.handle_key(key),
                None => {},
            }
            None
        },
    }
}

fn lend_editor(e: &Option<TextInput>) -> (r: Option<&TextInput>)
    ensures
        match r {
            Some(v) => reasoning_picker::editor_view(*e) == Some(v@),
            None => reasoning_picker::editor_view(*e) is None,
        },
{
    match e {
        Some(v) => Some(v),
        None => None,
    }
}

impl Default for SettingsOverlay {
    fn default() -> (r: Self)
        ensures
            r@ == fresh_settings(),
            r@.well_formed(),
    {
        SettingsOverlay {
            selected: 0,
            model_editor: None,
            reasoning_editor: None,
            context_window_editor: None,
            notice: None,
        }
    }
}

impl SettingsOverlay {
    pub fn selected_item(&self) -> (r: SettingItem)
        ensures
            r == self@.item(),
    {
        match self.selected {
            0 => SettingItem::CodeTheme,
            1 => SettingItem::DefaultProvider,
            2 => SettingItem::DefaultModel,
            3 => SettingItem::ReasoningEffort,
            4 => SettingItem::ContextWindow,
            5 => SettingItem::AutoCompaction,
            6 => SettingItem::ContextStrategy,
            7 => SettingItem::Subagents,
            8 => SettingItem::MaxThreads,
            _ => SettingItem::KeyboardShortcuts,
        }
    }

    pub fn model_editor(&self) -> (r: Option<&TextInput>)
        ensures
            match r {
                Some(e) => self@.model_editor == Some(e@),
                None => self@.model_editor is None,
            },
    {
        lend_editor(&self.model_editor)
    }

    pub fn context_window_editor(&self) -> (r: Option<&TextInput>)
        ensures
            match r {
                Some(e) => self@.context_window_editor == Some(e@),
                None => self@.context_window_editor is None,
            },
    {
        lend_editor(&self.context_window_editor)
    }

    pub fn reasoning_editor(&self) -> (r: Option<&TextInput>)
        ensures
            match r {
                Some(e) => self@.reasoning_editor == Some(e@),
                None => self@.reasoning_editor is None,
            },
    {
        lend_editor(&self.reasoning_editor)
    }

    pub fn notice(&self) -> (r: Option<&str>)
        ensures
            provider_overlay::opt_str(r) == self@.notice,
    {
        provider_overlay::lend_opt(&self.notice)
    }

    pub fn begin_model_edit(&mut self, value: String)
        ensures
            final(self)@ == (SettingsView {
                model_editor: Some(input::plain_input(value@)),
                notice: None,
                ..old(self)@
            }),
            input::plain_input(value@).well_formed(),
    {
        self.model_editor = Some(editor_with(value));
        self.notice = None;
    }

    pub fn begin_context_window_edit(&mut self, value: String)
        ensures
            final(self)@ == (SettingsView {
                context_window_editor: Some(input::plain_input(value@)),
                notice: None,
                ..old(self)@
            }),
            input::plain_input(value@).well_formed(),
    {
        self.context_window_editor = Some(editor_with(value));
        self.notice = None;
    }

    pub fn begin_reasoning_edit(&mut self, value: String)
        ensures
            final(self)@ == (SettingsView {
                reasoning_editor: Some(input::plain_input(value@)),
                notice: None,
                ..old(self)@
            }),
            input::plain_input(value@).well_formed(),
    {
        self.reasoning_editor = Some(editor_with(value));
        self.notice = None;
    }

    pub fn set_notice(&mut self, notice: Option<String>)
        ensures
            final(self)@ == (SettingsView { notice: plan_model::opt(notice), ..old(self)@ }),
    {
        self.notice = notice;
    }

    pub fn insert_paste(&mut self, value: &str)
        requires
            old(self)@.well_formed(),
        ensures
            final(self)@ == settings_paste(old(self)@, value@),
            final(self)@.well_formed(),
    {
        if self.model_editor.is_some() {
            paste(&mut self.model_editor, value);
        } else if self.reasoning_editor.is_some() {
            paste(&mut self.reasoning_editor, value);
        } else {
            paste(&mut self.context_window_editor, value);
        }
    }

    pub fn handle_key(&mut self, key: KeyEvent) -> (r: OverlayKeyResult)
        requires
            old(self)@.well_formed(),
        ensures
            final(self)@ == settings_key(old(self)@, key).0,
            r@ == settings_key(old(self)@, key).1,
            final(self)@.well_formed(),
    {
        if self.model_editor.is_some() {
            return match edit(&mut self.model_editor, key) {
                Some(value) => OverlayKeyResult::CommitModel(value),
                None => OverlayKeyResult::Consumed,
            };
        }
        if self.context_window_editor.is_some() {
            return match edit(&mut self.context_window_editor, key) {
                Some(value) => OverlayKeyResult::CommitContextWindow(value),
                None => OverlayKeyResult::Consumed,
            };
        }
        if self.reasoning_editor.is_some() {
            return match edit(&mut self.reasoning_editor, key) {
                Some(value) => OverlayKeyResult::CommitReasoning(value),
                None => OverlayKeyResult::Consumed,
            };
        }
        let item = self.selected_item();
        match key.code {
            KeyCode::Esc => OverlayKeyResult::Back,
            KeyCode::Down => {
                self.selected = menu::step_below(self.selected, SETTING_COUNT);
                self.notice = None;
                OverlayKeyResult::Consumed
            },
            KeyCode::Up => {
                self.selected = menu::step_above(self.selected);
                self.notice = None;
                OverlayKeyResult::Consumed
            },
            KeyCode::Left => turned(item, SettingDirection::Previous),
            KeyCode::Right => turned(item, SettingDirection::Next),
            KeyCode::Backspace | KeyCode::Delete => OverlayKeyResult::ResetSetting(item),
            KeyCode::Enter => match item {
                SettingItem::DefaultModel => OverlayKeyResult::BeginModelEdit,
                SettingItem::ReasoningEffort => OverlayKeyResult::BeginReasoningEdit,
                SettingItem::ContextWindow => OverlayKeyResult::BeginContextWindowEdit,
                SettingItem::DefaultProvider => OverlayKeyResult::Provider(
                    ProviderOverlayAction::OpenProviderManager,
                ),
                SettingItem::KeyboardShortcuts => OverlayKeyResult::OpenShortcuts,
                _ => OverlayKeyResult::AdjustSetting(item, SettingDirection::Next),
            },
            _ => OverlayKeyResult::Consumed,
        }
    }
}

fn turned(item: SettingItem, direction: SettingDirection) -> (r: OverlayKeyResult)
    ensures
        r@ == turning(item, direction),
{
    if item == SettingItem::DefaultProvider {
        OverlayKeyResult::Provider(ProviderOverlayAction::OpenProviderManager)
    } else {
        OverlayKeyResult::AdjustSetting(item, direction)
    }
}

/// An editor after a paste.
pub open spec fn pasted(editor: Option<input::InputView>, value: Seq<char>) -> Option<
    input::InputView,
> {
    match editor {
        Some(e) => Some(input::edited(e, e.cursor, e.cursor, value)),
        None => None,
    }
}

/// The settings after a paste: it goes to the editor of the model before that of the
/// effort, and to that before the one of the context window.
pub open spec fn settings_paste(s: SettingsView, value: Seq<char>) -> SettingsView {
    if s.model_editor is Some {
        SettingsView { model_editor: pasted(s.model_editor, value), ..s }
    } else if s.reasoning_editor is Some {
        SettingsView { reasoning_editor: pasted(s.reasoning_editor, value), ..s }
    } else {
        SettingsView { context_window_editor: pasted(s.context_window_editor, value), ..s }
    }
}

fn paste(editor: &mut Option<TextInput>, value: &str)
    requires
        editor_well_formed(reasoning_picker::editor_view(*old(editor))),
    ensures
        reasoning_picker::editor_view(*final(editor)) == pasted(
            reasoning_picker::editor_view(*old(editor)),
            value@,
        ),
        editor_well_formed(reasoning_picker::editor_view(*final(editor))),
{
    match editor {
        Some(e) => e.insert_str(value),
        None => {},
    }
}

/// Whether a message tells of an error.
#[derive(Debug, Clone, Copy, PartialEq, Eq, Structural)]
pub enum MessageDialogKind {
    Info,
    Error,
}

/// A message that has to be dismissed.
#[derive(Debug, PartialEq, Eq)]
pub struct MessageDialogOverlay {
    title: String,
    message: String,
    kind: MessageDialogKind,
}

/// A message that has to be dismissed.
pub struct DialogView {
    pub title: Seq<char>,
    pub message: Seq<char>,
    pub kind: MessageDialogKind,
}

impl View for MessageDialogOverlay {
    type V = DialogView;

    closed spec fn view(&self) -> DialogView {
        DialogView { title: self.title@, message: self.message@, kind: self.kind }
    }
}

impl MessageDialogOverlay {
    pub fn new(kind: MessageDialogKind, title: &str, message: String) -> (r: MessageDialogOverlay)
        ensures
            r@ == (DialogView { title: title@, message: message@, kind }),
    {
        MessageDialogOverlay { title: title.to_owned(), message, kind }
    }

    pub fn title(&self) -> (r: &str)
        ensures
            r@ == self@.title,
    {
        self.title.as_str()
    }

    pub fn message(&self) -> (r: &str)
        ensures
            r@ == self@.message,
    {
        self.message.as_str()
    }

    pub fn kind(&self) -> (r: MessageDialogKind)
        ensures
            r == self@.kind,
    {
        self.kind
    }
}

/// The question whether a plan is approved.
#[derive(Debug, PartialEq, Eq)]
pub struct PlanApprovalOverlay {
    message: String,
    input: PlanApprovalInput,
}

impl PlanApprovalOverlay {
    pub closed spec fn message_view(self) -> Seq<char> {
        self.message@
    }

    pub closed spec fn input_view(self) -> PlanApprovalInput {
        self.input
    }

    pub fn new(message: String, input: PlanApprovalInput) -> (r: PlanApprovalOverlay)
        ensures
            r.message_view() == message@,
            r.input_view() == input,
    {
        PlanApprovalOverlay { message, input }
    }

    pub fn message(&self) -> (r: &str)
        ensures
            r@ == self.message_view(),
    {
        self.message.as_str()
    }

    pub fn input(&self) -> (r: &PlanApprovalInput)
        ensures
            *r == self.input_view(),
    {
        &self.input
    }

    pub fn into_input(self) -> (r: PlanApprovalInput)
        ensures
            r == self.input_view(),
    {
        self.input
    }
}

/// The question whether a tool may do what it asks for.
#[derive(Debug, PartialEq, Eq)]
pub struct PermissionReviewOverlay {
    approval_id: String,
    body: String,
}

/// The question whether a tool may do what it asks for.
pub struct ReviewView {
    pub approval_id: Seq<char>,
    pub body: Seq<char>,
}

impl View for PermissionReviewOverlay {
    type V = ReviewView;

    closed spec fn view(&self) -> ReviewView {
        ReviewView { approval_id: self.approval_id@, body: self.body@ }
    }
}

impl PermissionReviewOverlay {
    pub fn new(approval_id: String, body: String) -> (r: PermissionReviewOverlay)
        ensures
            r@ == (ReviewView { approval_id: approval_id@, body: body@ }),
    {
        PermissionReviewOverlay { approval_id, body }
    }

    pub fn approval_id(&self) -> (r: &str)
        ensures
            r@ == self@.approval_id,
    {
        self.approval_id.as_str()
    }

    pub fn body(&self) -> (r: &str)
        ensures
            r@ == self@.body,
    {
        self.body.as_str()
    }
}

/// Where the list of shortcuts leads back to.
#[derive(Debug, PartialEq, Eq)]
pub enum ShortcutsBack {
    CommandPalette,
    Settings(SettingsOverlay),
}

/// What an overlay asks for after a key press.
#[derive(PartialEq, Eq)]
pub enum OverlayKeyResult {
    Consumed,
    Close,
    Back,
    Run(PaletteCommand),
    AdjustSetting(SettingItem, SettingDirection),
    ResetSetting(SettingItem),
    BeginModelEdit,
    CommitModel(String),
    BeginReasoningEdit,
    CommitReasoning(String),
    BeginContextWindowEdit,
    CommitContextWindow(String),
    OpenShortcuts,
    ConfirmPlanApproval,
    ApprovePermission(String),
    DenyPermission(String),
    Provider(ProviderOverlayAction),
    PreviousCommand,
    NextCommand,
    CopyText(String),
}

/// What an overlay asks for, as mathematical values.
pub enum KeyResultView {
    Consumed,
    Close,
    Back,
    Run(PaletteCommand),
    AdjustSetting(SettingItem, SettingDirection),
    ResetSetting(SettingItem),
    BeginModelEdit,
    CommitModel(Seq<char>),
    BeginReasoningEdit,
    CommitReasoning(Seq<char>),
    BeginContextWindowEdit,
    CommitContextWindow(Seq<char>),
    OpenShortcuts,
    ConfirmPlanApproval,
    ApprovePermission(Seq<char>),
    DenyPermission(Seq<char>),
    Provider(provider_overlay::ActionView),
    PreviousCommand,
    NextCommand,
    CopyText(Seq<char>),
}

impl View for OverlayKeyResult {
    type V = KeyResultView;

    open spec fn view(&self) -> KeyResultView {
        match self {
            OverlayKeyResult::Consumed => KeyResultView::Consumed,
            OverlayKeyResult::Close => KeyResultView::Close,
            OverlayKeyResult::Back => KeyResultView::Back,
            OverlayKeyResult::Run(c) => KeyResultView::Run(*c),
            OverlayKeyResult::AdjustSetting(i, d) => KeyResultView::AdjustSetting(*i, *d),
            OverlayKeyResult::ResetSetting(i) => KeyResultView::ResetSetting(*i),
            OverlayKeyResult::BeginModelEdit => KeyResultView::BeginModelEdit,
            OverlayKeyResult::CommitModel(s) => KeyResultView::CommitModel(s@),
            OverlayKeyResult::BeginReasoningEdit => KeyResultView::BeginReasoningEdit,
            OverlayKeyResult::CommitReasoning(s) => KeyResultView::CommitReasoning(s@),
            OverlayKeyResult::BeginContextWindowEdit => KeyResultView::BeginContextWindowEdit,
            OverlayKeyResult::CommitContextWindow(s) => KeyResultView::CommitContextWindow(s@),
            OverlayKeyResult::OpenShortcuts => KeyResultView::OpenShortcuts,
            OverlayKeyResult::ConfirmPlanApproval => KeyResultView::ConfirmPlanApproval,
            OverlayKeyResult::ApprovePermission(s) => KeyResultView::ApprovePermission(s@),
            OverlayKeyResult::DenyPermission(s) => KeyResultView::DenyPermission(s@),
            OverlayKeyResult::Provider(a) => KeyResultView::Provider(a@),
            OverlayKeyResult::PreviousCommand => KeyResultView::PreviousCommand,
            OverlayKeyResult::NextCommand => KeyResultView::NextCommand,
            OverlayKeyResult::CopyText(t) => KeyResultView::CopyText(t@),
        }
    }
}

/// What lies over the conversation.
#[derive(PartialEq, Eq)]
pub enum Overlay {
    CommandPalette(CommandPalette),
    Settings(SettingsOverlay),
    ProviderManager(ProviderManagerOverlay),
    ProviderForm(ProviderFormOverlay),
    ModelPicker(ModelPickerOverlay),
    ReasoningPicker(ReasoningPickerOverlay),
    PlanApproval(PlanApprovalOverlay),
    PermissionReview(PermissionReviewOverlay),
    Dialog(MessageDialogOverlay),
    Shortcuts(ShortcutsBack),
    CommandDetails(CommandDetails),
}

/// What lies over the conversation, as mathematical values.
pub enum OverlayView {
    CommandPalette(PaletteView),
    Settings(SettingsView),
    ProviderManager(provider_overlay::ManagerView),
    ProviderForm(provider_form::FormView),
    ModelPicker(provider_overlay::PickerView),
    ReasoningPicker(reasoning_picker::EffortPickerView),
    PlanApproval(Seq<char>, PlanApprovalInput),
    PermissionReview(ReviewView),
    Dialog(DialogView),
    ShortcutsFromPalette,
    ShortcutsFromSettings(SettingsView),
    CommandDetails(command_details::DetailsView),
}

impl View for Overlay {
    type V = OverlayView;

    open spec fn view(&self) -> OverlayView {
        match self {
            Overlay::CommandPalette(o) => OverlayView::CommandPalette(o@),
            Overlay::Settings(o) => OverlayView::Settings(o@),
            Overlay::ProviderManager(o) => OverlayView::ProviderManager(o@),
            Overlay::ProviderForm(o) => OverlayView::ProviderForm(o@),
            Overlay::ModelPicker(o) => OverlayView::ModelPicker(o@),
            Overlay::ReasoningPicker(o) => OverlayView::ReasoningPicker(o@),
            Overlay::PlanApproval(o) => OverlayView::PlanApproval(
                o.message_view(),
                o.input_view(),
            ),
            Overlay::PermissionReview(o) => OverlayView::PermissionReview(o@),
            Overlay::Dialog(o) => OverlayView::Dialog(o@),
            Overlay::CommandDetails(o) => OverlayView::CommandDetails(o@),
            Overlay::Shortcuts(ShortcutsBack::CommandPalette) => OverlayView::ShortcutsFromPalette,
            Overlay::Shortcuts(ShortcutsBack::Settings(s)) => OverlayView::ShortcutsFromSettings(
                s@,
            ),
        }
    }
}

impl OverlayView {
    pub open spec fn well_formed(self) -> bool {
        match self {
            OverlayView::CommandPalette(o) => o.well_formed(),
            OverlayView::Settings(o) => o.well_formed(),
            OverlayView::ProviderForm(o) => o.well_formed(),
            OverlayView::ModelPicker(o) => o.well_formed(),
            OverlayView::ReasoningPicker(o) => o.well_formed(),
            OverlayView::ShortcutsFromSettings(o) => o.well_formed(),
            _ => true,
        }
    }
}

/// What the model layer says of the text under edit: whether a query is a model's name,
/// and why an effort is refused, if it is.
#[derive(Debug, PartialEq, Eq)]
pub struct InputVerdicts {
    pub model_name_is_valid: bool,
    pub effort_refusal: Option<String>,
}

/// What follows from what the picker of a model asks for: without a choice it leads back
/// to where it was opened.
pub open spec fn picker_result(
    action: provider_overlay::ActionView,
    target: ModelPickerTarget,
) -> KeyResultView {
    if action is Back {
        match target {
            ModelPickerTarget::ProviderForm => KeyResultView::Provider(
                provider_overlay::ActionView::BackToProviderForm,
            ),
            ModelPickerTarget::ActiveProvider => KeyResultView::Provider(
                provider_overlay::ActionView::OpenProviderManager,
            ),
        }
    } else {
        KeyResultView::Provider(action)
    }
}

pub open spec fn effort_result(action: reasoning_picker::EffortActionView) -> KeyResultView {
    match action {
        reasoning_picker::EffortActionView::Back => KeyResultView::Back,
        reasoning_picker::EffortActionView::Consumed => KeyResultView::Consumed,
        reasoning_picker::EffortActionView::SelectReasoning {
            alias,
            model,
            reasoning_effort,
            target,
        } => KeyResultView::Provider(
            provider_overlay::ActionView::SelectReasoning {
                alias,
                model,
                reasoning_effort,
                target,
            },
        ),
    }
}

pub open spec fn details_result(result: command_details::DetailsKeyView) -> KeyResultView {
    match result {
        command_details::DetailsKeyView::Consumed => KeyResultView::Consumed,
        command_details::DetailsKeyView::Close => KeyResultView::Close,
        command_details::DetailsKeyView::PreviousCommand => KeyResultView::PreviousCommand,
        command_details::DetailsKeyView::NextCommand => KeyResultView::NextCommand,
        command_details::DetailsKeyView::CopyText(t) => KeyResultView::CopyText(t),
    }
}

/// What the question of a permission makes of a key: only yes, no and their keys answer.
pub open spec fn review_result(review: ReviewView, key: KeyEvent) -> KeyResultView {
    match key.code {
        KeyCode::Enter => KeyResultView::ApprovePermission(review.approval_id),
        KeyCode::Char('y') => KeyResultView::ApprovePermission(review.approval_id),
        KeyCode::Char('Y') => KeyResultView::ApprovePermission(review.approval_id),
        KeyCode::Esc => KeyResultView::DenyPermission(review.approval_id),
        KeyCode::Char('n') => KeyResultView::DenyPermission(review.approval_id),
        KeyCode::Char('N') => KeyResultView::DenyPermission(review.approval_id),
        _ => KeyResultView::Consumed,
    }
}

/// An overlay after a key press. The palette's own key closes every overlay but the
/// question of a permission.
pub open spec fn overlay_key(
    o: OverlayView,
    key: KeyEvent,
    name_is_valid: bool,
    refusal: Option<Seq<char>>,
) -> (OverlayView, KeyResultView) {
    if key.code == KeyCode::Char('p') && key.modifiers.control && !(o is PermissionReview) {
        (o, KeyResultView::Close)
    } else {
        match o {
            OverlayView::CommandPalette(p) => (
                OverlayView::CommandPalette(palette_key(p, key).0),
                palette_key(p, key).1,
            ),
            OverlayView::Settings(s) => (
                OverlayView::Settings(settings_key(s, key).0),
                settings_key(s, key).1,
            ),
            OverlayView::ProviderManager(m) => {
                let (after, action) = provider_overlay::manager_key(m, key);
                (
                    OverlayView::ProviderManager(after),
                    if action is Back {
                        KeyResultView::Back
                    } else {
                        KeyResultView::Provider(action)
                    },
                )
            },
            OverlayView::ProviderForm(f) => {
                let (after, action) = provider_form::form_key(f, key);
                (
                    OverlayView::ProviderForm(after),
                    if action is Back {
                        KeyResultView::Provider(provider_overlay::ActionView::OpenProviderManager)
                    } else {
                        KeyResultView::Provider(action)
                    },
                )
            },
            OverlayView::ModelPicker(p) => {
                let (after, action) = provider_overlay::picker_key(p, key, name_is_valid);
                (OverlayView::ModelPicker(after), picker_result(action, after.target))
            },
            OverlayView::ReasoningPicker(p) => {
                let (after, action) = reasoning_picker::effort_key(p, key, refusal);
                (OverlayView::ReasoningPicker(after), effort_result(action))
            },
            OverlayView::PlanApproval(_, _) => (
                o,
                match key.code {
                    KeyCode::Enter => KeyResultView::ConfirmPlanApproval,
                    KeyCode::Esc => KeyResultView::Back,
                    _ => KeyResultView::Consumed,
                },
            ),
            OverlayView::PermissionReview(review) => (o, review_result(review, key)),
            OverlayView::CommandDetails(d) => (
                OverlayView::CommandDetails(command_details::details_key(d, key).0),
                details_result(command_details::details_key(d, key).1),
            ),
            OverlayView::Dialog(_) => (
                o,
                if key.code == KeyCode::Esc || key.code == KeyCode::Enter {
                    KeyResultView::Back
                } else {
                    KeyResultView::Consumed
                },
            ),
            _ => (
                o,
                if key.code == KeyCode::Esc {
                    KeyResultView::Back
                } else {
                    KeyResultView::Consumed
                },
            ),
        }
    }
}

/// The question of a permission stays until it is answered, and an answer is about what
/// was asked.
pub proof fn permissions_are_answered_or_stay(
    review: ReviewView,
    key: KeyEvent,
    name_is_valid: bool,
    refusal: Option<Seq<char>>,
)
    ensures
        ({
            let (after, result) = overlay_key(
                OverlayView::PermissionReview(review),
                key,
                name_is_valid,
                refusal,
            );
            &&& after == OverlayView::PermissionReview(review)
            &&& result is Consumed || result == KeyResultView::ApprovePermission(
                review.approval_id,
            ) || result == KeyResultView::DenyPermission(review.approval_id)
        }),
{
}

impl Overlay {
    pub fn command_palette_for_plan(plan: PlanPaletteContext) -> (r: Overlay)
        ensures
            r@ == OverlayView::CommandPalette(
                PaletteView { query: input::empty_input(), selected: 0, plan },
            ),
            r@.well_formed(),
    {
        Overlay::CommandPalette(CommandPalette::for_plan(plan))
    }

    pub fn settings() -> (r: Overlay)
        ensures
            r@ == OverlayView::Settings(fresh_settings()),
            r@.well_formed(),
    {
        Overlay::Settings(SettingsOverlay::default())
    }

    pub fn plan_approval(message: String, input: PlanApprovalInput) -> (r: Overlay)
        ensures
            r@ == OverlayView::PlanApproval(message@, input),
    {
        Overlay::PlanApproval(PlanApprovalOverlay::new(message, input))
    }

    pub fn permission_review(approval_id: String, body: String) -> (r: Overlay)
        ensures
            r@ == OverlayView::PermissionReview(
                ReviewView { approval_id: approval_id@, body: body@ },
            ),
    {
        Overlay::PermissionReview(PermissionReviewOverlay::new(approval_id, body))
    }

    pub fn handle_key(&mut self, key: KeyEvent, verdicts: InputVerdicts) -> (r: OverlayKeyResult)
        requires
            old(self)@.well_formed(),
        ensures
            ({
                let (after, result) = overlay_key(
                    old(self)@,
                    key,
                    verdicts.model_name_is_valid,
                    plan_model::opt(verdicts.effort_refusal),
                );
                final(self)@ == after && r@ == result
            }),
            final(self)@.well_formed(),
    {
        let is_review = match &*self {
            Overlay::PermissionReview(_) => true,
            _ => false,
        };
        if key.code == KeyCode::Char('p') && key.modifiers.control && !is_review {
            return OverlayKeyResult::Close;
        }
        match self {
            Overlay::CommandPalette(palette) => palette.handle_key(key),
            Overlay::Settings(settings) => settings.handle_key(key),
            Overlay::ProviderManager(manager) => match manager.handle_key(key) {
                ProviderOverlayAction::Back => OverlayKeyResult::Back,
                action => OverlayKeyResult::Provider(action),
            },
            Overlay::ProviderForm(form) => match form.handle_key(key) {
                ProviderOverlayAction::Back => OverlayKeyResult::Provider(
                    ProviderOverlayAction::OpenProviderManager,
                ),
                action => OverlayKeyResult::Provider(action),
            },
            Overlay::ModelPicker(picker) => match picker.handle_key(
                key,
                verdicts.model_name_is_valid,
            ) {
                ProviderOverlayAction::Back => match picker.target() {
                    ModelPickerTarget::ProviderForm => OverlayKeyResult::Provider(
                        ProviderOverlayAction::BackToProviderForm,
                    ),
                    ModelPickerTarget::ActiveProvider => OverlayKeyResult::Provider(
                        ProviderOverlayAction::OpenProviderManager,
                    ),
                },
                action => OverlayKeyResult::Provider(action),
            },
            Overlay::ReasoningPicker(picker) => match picker.handle_key(
                key,
                verdicts.effort_refusal,
            ) {
                ReasoningPickerAction::Back => OverlayKeyResult::Back,
                ReasoningPickerAction::Consumed => OverlayKeyResult::Consumed,
                ReasoningPickerAction::SelectReasoning {
                    alias,
                    model,
                    reasoning_effort,
                    target,
                } => OverlayKeyResult::Provider(
                    ProviderOverlayAction::SelectReasoning {
                        alias,
                        model,
                        reasoning_effort,
                        target,
                    },
                ),
            },
            Overlay::PlanApproval(_) => match key.code {
                KeyCode::Enter => OverlayKeyResult::ConfirmPlanApproval,
                KeyCode::Esc => OverlayKeyResult::Back,
                _ => OverlayKeyResult::Consumed,
            },
            Overlay::PermissionReview(review) => match key.code {
                KeyCode::Enter | KeyCode::Char('y') | KeyCode::Char('Y') =>
                    OverlayKeyResult::ApprovePermission(review.approval_id().to_owned()),
                KeyCode::Esc | KeyCode::Char('n') | KeyCode::Char('N') =>
                    OverlayKeyResult::DenyPermission(review.approval_id().to_owned()),
                _ => OverlayKeyResult::Consumed,
            },
            Overlay::Dialog(_) => match key.code {
                KeyCode::Esc | KeyCode::Enter => OverlayKeyResult::Back,
                _ => OverlayKeyResult::Consumed,
            },
            Overlay::Shortcuts(_) => match key.code {
                KeyCode::Esc => OverlayKeyResult::Back,
                _ => OverlayKeyResult::Consumed,
            },
            Overlay::CommandDetails(details) => match details.handle_key(key) {
                DetailsKeyResult::Consumed => OverlayKeyResult::Consumed,
                DetailsKeyResult::Close => OverlayKeyResult::Close,
                DetailsKeyResult::PreviousCommand => OverlayKeyResult::PreviousCommand,
                DetailsKeyResult::NextCommand => OverlayKeyResult::NextCommand,
                DetailsKeyResult::CopyText(t) => OverlayKeyResult::CopyText(t),
            },
        }
    }

    pub fn insert_paste(&mut self, value: &str)
        requires
            old(self)@.well_formed(),
        ensures
            overlay_paste(old(self)@, final(self)@, value@),
            final(self)@.well_formed(),
    {
        match self {
            Overlay::CommandPalette(palette) => palette.insert_paste(value),
            Overlay::Settings(settings) => settings.insert_paste(value),
            Overlay::ProviderForm(form) => form.insert_paste(value),
            Overlay::ReasoningPicker(picker) => picker.insert_paste(value),
            _ => {},
        }
    }
}

/// An overlay after a paste: it goes to the text under edit, if there is one.
pub open spec fn overlay_paste(before: OverlayView, after: OverlayView, value: Seq<char>) -> bool {
    match before {
        OverlayView::CommandPalette(p) => after == OverlayView::CommandPalette(
            PaletteView {
                query: input::edited(p.query, p.query.cursor, p.query.cursor, value),
                selected: 0,
                ..p
            },
        ),
        OverlayView::Settings(s) => after == OverlayView::Settings(settings_paste(s, value)),
        OverlayView::ProviderForm(f) => after == OverlayView::ProviderForm(
            provider_form::form_paste(f, value),
        ),
        OverlayView::ReasoningPicker(p) => after == OverlayView::ReasoningPicker(
            reasoning_picker::effort_paste(p, value),
        ),
        _ => after == before,
    }
}

/// The palette lists the commands that make sense and answer to the query, all of them and in
/// their order; without a query all that make sense.
pub proof fn the_palette_lists_what_answers(
    commands: Seq<command::CommandView>,
    query: Seq<char>,
    plan: PlanPaletteContext,
)
    ensures
        listing(commands, query, plan) == commands.filter(
            |c: command::CommandView| listed(c, query, plan),
        ),
        query.len() == 0 ==> listing(commands, query, plan) == commands.filter(
            |c: command::CommandView| available(c.command, plan),
        ),
    decreases commands.len(),
{
    let picks = |c: command::CommandView| listed(c, query, plan);
    let suits = |c: command::CommandView| available(c.command, plan);
    reveal(Seq::filter);
    if commands.len() > 0 {
        let init = commands.drop_last();
        the_palette_lists_what_answers(init, query, plan);
        assert(init.filter(|c: command::CommandView| listed(c, query, plan)) == init.filter(picks));
        assert(init.filter(|c: command::CommandView| available(c.command, plan)) == init.filter(
            suits,
        ));
        assert(commands.filter(picks) == if picks(commands.last()) {
            init.filter(picks).push(commands.last())
        } else {
            init.filter(picks)
        });
        assert(commands.filter(suits) == if suits(commands.last()) {
            init.filter(suits).push(commands.last())
        } else {
            init.filter(suits)
        });
    }
}

/// A command whose label holds the query, in capital or small letters, is listed where it makes
/// sense; one that makes no sense is never listed.
pub proof fn labels_answer_to_what_they_hold(
    c: command::CommandView,
    query: Seq<char>,
    plan: PlanPaletteContext,
)
    ensures
        available(c.command, plan) && text::occurs(text::lower(c.label), query) ==> listed(
            c,
            query,
            plan,
        ),
        available(c.command, plan) && text::occurs(text::lower(c.category), query) ==> listed(
            c,
            query,
            plan,
        ),
        available(c.command, plan) && (c.slash_name matches Some(name) && query == "/"@
            + text::lower(name)) ==> listed(c, query, plan),
        !available(c.command, plan) ==> !listed(c, query, plan),
{
    if c.slash_name is Some && query == "/"@ + text::lower(c.slash_name->0) {
        reveal_strlit("/");
        let name = text::lower(c.slash_name->0);
        assert(unslashed(query) =~= name);
        assert(name.subrange(0, name.len() as int) =~= name);
        assert(text::stands_at(name, name, 0));
        assert(text::occurs(name, name));
    }
}

/// In the palette, Enter runs the command that is selected among the listed ones, the arrow
/// keys step through them and stay among them, Escape closes it, and every other key edits the
/// query as the input would be edited.
pub proof fn palette_keys_do_what_they_should(p: PaletteView, key: KeyEvent)
    requires
        0 <= p.selected,
    ensures
        ({
            let (after, result) = palette_key(p, key);
            let n = p.visible().len() as int;
            &&& after.plan == p.plan
            &&& result == KeyResultView::Close <==> key.code == KeyCode::Esc
            &&& (result matches KeyResultView::Run(c) && p.visible()[p.selected].command == c)
                <==> key.code == KeyCode::Enter && p.selected < n
            &&& key.code == KeyCode::Down && p.selected + 1 < n ==> after.selected == p.selected + 1
            &&& key.code == KeyCode::Down && p.selected + 1 >= n && n > 0 ==> after.selected == n
                - 1
            &&& key.code == KeyCode::Up && p.selected > 0 ==> after.selected == p.selected - 1
            &&& key.code == KeyCode::Up && p.selected == 0 ==> after.selected == 0
            &&& key.code == KeyCode::Esc || key.code == KeyCode::Enter || key.code == KeyCode::Down
                || key.code == KeyCode::Up ==> after.query == p.query
            &&& !(key.code == KeyCode::Esc || key.code == KeyCode::Enter || key.code
                == KeyCode::Down || key.code == KeyCode::Up) ==> after.query == input::after_key(
                p.query,
                key,
            ) && (after.visible().len() > 0 ==> after.selected < after.visible().len())
        }),
{
}

/// An open editor of the settings takes every key: Enter commits its text and closes it, Escape
/// closes it without, and every other key edits it. No row moves meanwhile.
pub proof fn editors_take_the_keys(s: SettingsView, key: KeyEvent)
    requires
        s.well_formed(),
        s.model_editor is Some || s.context_window_editor is Some || s.reasoning_editor is Some,
    ensures
        ({
            let (after, result) = settings_key(s, key);
            let first = if s.model_editor is Some {
                s.model_editor->0
            } else if s.context_window_editor is Some {
                s.context_window_editor->0
            } else {
                s.reasoning_editor->0
            };
            let left = if s.model_editor is Some {
                after.model_editor
            } else if s.context_window_editor is Some {
                after.context_window_editor
            } else {
                after.reasoning_editor
            };
            &&& after.selected == s.selected
            &&& after.notice == s.notice
            &&& key.code == KeyCode::Enter || key.code == KeyCode::Esc <==> left is None
            &&& left matches Some(e) ==> e == input::after_key(first, key)
            &&& key.code != KeyCode::Enter ==> result == KeyResultView::Consumed
            &&& key.code == KeyCode::Enter && s.model_editor is Some ==> result
                == KeyResultView::CommitModel(first.text)
            &&& key.code == KeyCode::Enter && s.model_editor is None
                && s.context_window_editor is Some ==> result == KeyResultView::CommitContextWindow(
                first.text,
            )
            &&& key.code == KeyCode::Enter && s.model_editor is None
                && s.context_window_editor is None ==> result == KeyResultView::CommitReasoning(
                first.text,
            )
        }),
{
}

/// Without an open editor, the keys act on the selected row: Left and Right turn it one way and
/// the other, Backspace and Delete put it back, Up and Down go to the next row and stay among
/// the rows.
pub proof fn rows_of_the_settings_take_the_keys(s: SettingsView, key: KeyEvent)
    requires
        s.well_formed(),
        s.model_editor is None,
        s.context_window_editor is None,
        s.reasoning_editor is None,
    ensures
        ({
            let (after, result) = settings_key(s, key);
            let item = setting_at(s.selected);
            let provider = item == SettingItem::DefaultProvider;
            &&& after.well_formed()
            &&& key.code == KeyCode::Left && !provider ==> result == KeyResultView::AdjustSetting(
                item,
                SettingDirection::Previous,
            )
            &&& key.code == KeyCode::Right && !provider ==> result == KeyResultView::AdjustSetting(
                item,
                SettingDirection::Next,
            )
            &&& provider && (key.code == KeyCode::Left || key.code == KeyCode::Right || key.code
                == KeyCode::Enter) ==> result == KeyResultView::Provider(
                provider_overlay::ActionView::OpenProviderManager,
            )
            &&& key.code == KeyCode::Backspace || key.code == KeyCode::Delete <==> result
                == KeyResultView::ResetSetting(item)
            &&& key.code == KeyCode::Esc <==> result == KeyResultView::Back
            &&& key.code == KeyCode::Down && s.selected + 1 < SETTING_COUNT ==> after.selected
                == s.selected + 1
            &&& key.code == KeyCode::Up && s.selected > 0 ==> after.selected == s.selected - 1
            &&& key.code != KeyCode::Down && key.code != KeyCode::Up ==> after == s
            &&& (result == KeyResultView::BeginModelEdit) <==> (key.code == KeyCode::Enter && item
                == SettingItem::DefaultModel)
            &&& (result == KeyResultView::BeginReasoningEdit) <==> (key.code == KeyCode::Enter
                && item == SettingItem::ReasoningEffort)
            &&& (result == KeyResultView::BeginContextWindowEdit) <==> (key.code == KeyCode::Enter
                && item == SettingItem::ContextWindow)
            &&& (result == KeyResultView::OpenShortcuts) <==> (key.code == KeyCode::Enter && item
                == SettingItem::KeyboardShortcuts)
        }),
{
}

/// Every row of the settings has a place of its own.
pub proof fn rows_of_the_settings_are_apart(i: int, j: int)
    requires
        0 <= i < SETTING_COUNT,
        0 <= j < SETTING_COUNT,
        setting_at(i) == setting_at(j),
    ensures
        i == j,
{
}

/// A permission is granted by Enter and by the letter for yes, and denied by Escape and by the
/// letter for no; nothing else answers, and no other overlay can.
pub proof fn permissions_are_granted_and_denied_by_their_keys(
    o: OverlayView,
    key: KeyEvent,
    name_is_valid: bool,
    refusal: Option<Seq<char>>,
)
    ensures
        ({
            let result = overlay_key(o, key, name_is_valid, refusal).1;
            &&& result is ApprovePermission <==> o is PermissionReview && (key.code
                == KeyCode::Enter || key.code == KeyCode::Char('y') || key.code == KeyCode::Char(
                'Y',
            ))
            &&& result is DenyPermission <==> o is PermissionReview && (key.code == KeyCode::Esc
                || key.code == KeyCode::Char('n') || key.code == KeyCode::Char('N'))
        }),
{
}

/// A plan is approved only by Enter in the question of its approval; a message is dismissed by
/// Enter or Escape.
pub proof fn plans_are_approved_by_enter_alone(
    o: OverlayView,
    key: KeyEvent,
    name_is_valid: bool,
    refusal: Option<Seq<char>>,
)
    ensures
        overlay_key(o, key, name_is_valid, refusal).1 == KeyResultView::ConfirmPlanApproval
            <==> o is PlanApproval && key.code == KeyCode::Enter,
        o is PlanApproval && key.code == KeyCode::Esc ==> overlay_key(
            o,
            key,
            name_is_valid,
            refusal,
        ).1 == KeyResultView::Back,
        o is Dialog && (key.code == KeyCode::Enter || key.code == KeyCode::Esc) ==> overlay_key(
            o,
            key,
            name_is_valid,
            refusal,
        ).1 == KeyResultView::Back,
        o is PlanApproval || o is Dialog || o is PermissionReview ==> overlay_key(
            o,
            key,
            name_is_valid,
            refusal,
        ).0 == o,
{
}

/// The key of the palette closes every overlay as it is, but for the question of a permission.
pub proof fn the_palette_key_closes_overlays(
    o: OverlayView,
    key: KeyEvent,
    name_is_valid: bool,
    refusal: Option<Seq<char>>,
)
    requires
        key.code == KeyCode::Char('p'),
        key.modifiers.control,
    ensures
        !(o is PermissionReview) ==> overlay_key(o, key, name_is_valid, refusal) == (
            o,
            KeyResultView::Close,
        ),
        o is PermissionReview ==> overlay_key(o, key, name_is_valid, refusal).1
            == KeyResultView::Consumed,
{
}

proof fn lemma_latest_outcome(snapshot: PlanSnapshot, node: Seq<char>, n: int)
    requires
        0 <= n <= snapshot.attempts@.len(),
    ensures
        forall|k: int|
            0 <= k < n && (#[trigger] snapshot.attempts@[k]).node_id@ == node && (forall|j: int|
                k < j < n ==> (#[trigger] snapshot.attempts@[j]).node_id@ != node)
                ==> latest_outcome(snapshot, node, n) == plan_model::opt(
                snapshot.attempts@[k].outcome,
            ),
        (forall|k: int| 0 <= k < n ==> (#[trigger] snapshot.attempts@[k]).node_id@ != node)
            ==> latest_outcome(snapshot, node, n) is None,
    decreases n,
{
    if n > 0 {
        lemma_latest_outcome(snapshot, node, n - 1);
        assert forall|k: int|
            0 <= k < n && (#[trigger] snapshot.attempts@[k]).node_id@ == node && (forall|j: int|
                k < j < n ==> (#[trigger] snapshot.attempts@[j]).node_id@ != node) implies latest_outcome(
            snapshot,
            node,
            n,
        ) == plan_model::opt(snapshot.attempts@[k].outcome) by {
            if k < n - 1 {
                assert(snapshot.attempts@[n - 1].node_id@ != node);
            }
        }
        if forall|k: int| 0 <= k < n ==> (#[trigger] snapshot.attempts@[k]).node_id@ != node {
            assert(snapshot.attempts@[n - 1].node_id@ != node);
        }
    }
}

/// A node can be tried again exactly when it is blocked and the last of its attempts was
/// interrupted.
pub proof fn interrupted_nodes_can_be_tried_again(
    snapshot: PlanSnapshot,
    node: Seq<char>,
    k: int,
)
    requires
        0 <= k < snapshot.attempts@.len(),
        snapshot.attempts@[k].node_id@ == node,
        forall|j: int|
            k < j < snapshot.attempts@.len() ==> (#[trigger] snapshot.attempts@[j]).node_id@ != node,
    ensures
        can_retry(snapshot, node) <==> (exists|i: int|
            0 <= i < snapshot.nodes@.len() && (#[trigger] snapshot.nodes@[i]).id@ == node
                && snapshot.nodes@[i].status == PlanNodeStatus::Blocked) && (
        snapshot.attempts@[k].outcome matches Some(o) && o@ == "Interrupted"@),
{
    lemma_latest_outcome(snapshot, node, snapshot.attempts@.len() as int);
}

/// What a plan can be asked for follows its course: one that waits for its approval can be
/// approved, where it is ready, revised and cancelled; one that is carried out can be revised
/// and cancelled but not approved; and it is opened, given the keys and closed only as it lies.
pub proof fn commands_follow_the_course_of_a_plan(plan: PlanPaletteContext)
    ensures
        plan.phase == Some(PlanPhase::AwaitingApproval) ==> available(
            PaletteCommand::RevisePlan,
            plan,
        ) && available(PaletteCommand::CancelPlan, plan) && available(
            PaletteCommand::ApprovePlan,
            plan,
        ) == plan.plan_ready,
        plan.phase == Some(PlanPhase::Executing) ==> available(PaletteCommand::RevisePlan, plan)
            && available(PaletteCommand::CancelPlan, plan) && !available(
            PaletteCommand::ApprovePlan,
            plan,
        ),
        plan.phase == Some(PlanPhase::Planning) ==> !available(PaletteCommand::RevisePlan, plan)
            && available(PaletteCommand::CancelPlan, plan) && available(
            PaletteCommand::ApprovePlan,
            plan,
        ) == plan.plan_ready,
        plan.has_plan && (plan.phase == Some(PlanPhase::Planning) || plan.phase == Some(
            PlanPhase::AwaitingApproval,
        ) || plan.phase == Some(PlanPhase::Executing)) ==> !available(
            PaletteCommand::EnterPlanMode,
            plan,
        ),
        !plan.has_plan ==> available(PaletteCommand::EnterPlanMode, plan) && !available(
            PaletteCommand::OpenPlan,
            plan,
        ) && !available(PaletteCommand::ClosePlan, plan) && !available(
            PaletteCommand::FocusPlan,
            plan,
        ),
        plan.has_plan ==> available(PaletteCommand::OpenPlan, plan) != available(
            PaletteCommand::ClosePlan,
            plan,
        ),
        available(PaletteCommand::FocusPlan, plan) ==> available(PaletteCommand::ClosePlan, plan)
            && !plan.plan_focused,
        available(PaletteCommand::RetryPlanNode, plan) == plan.retry_selected,
        available(PaletteCommand::Quit, plan),
        available(PaletteCommand::Interrupt, plan),
{
}

} // verus!
