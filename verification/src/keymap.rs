//! Which key does what.
use crate::key;
use crate::key::{KeyCode, KeyEvent, KeyModifiers};
use crate::text;
use vstd::prelude::*;

verus! {

/// What a key can be bound to.
#[derive(Debug, Clone, Copy, PartialEq, Eq, Hash, Structural)]
pub enum KeyAction {
    SubmitNext,
    SubmitBacklog,
    CancelInputOrQuit,
    InsertNewline,
    PasteImage,
    OpenSessionInBrowser,
    Interrupt,
    OpenCommandPanel,
    OpenCommandDetails,
    OpenDetails,
    CloseOverlay,
    TogglePlan,
    Quit,
    ScrollUp,
    ScrollDown,
    FollowLatest,
    FollowLatestArtifact,
    ReviewPreviousArtifact,
    ReviewNextArtifact,
    ReviewPreviousUserInput,
    HistoryPrevious,
    HistoryNext,
    ResumeSuspended,
    DiscardSuspended,
}

/// A key with its modifiers.
#[derive(Debug, Clone, Copy, PartialEq, Eq, Structural)]
pub struct KeyBinding {
    pub code: KeyCode,
    pub modifiers: KeyModifiers,
}

impl KeyBinding {
    pub fn new(code: KeyCode, modifiers: KeyModifiers) -> (b: KeyBinding)
        ensures
            b == (KeyBinding { code, modifiers }),
    {
        KeyBinding { code, modifiers }
    }

    pub fn of_event(event: KeyEvent) -> (b: KeyBinding)
        ensures
            b == (KeyBinding { code: event.code, modifiers: event.modifiers }),
    {
        KeyBinding { code: event.code, modifiers: event.modifiers }
    }
}

/// What is wrong with a configuration.
#[derive(Debug, PartialEq, Eq)]
pub enum ConfigError {
    Invalid(String),
}

/// Key bindings as the configuration names them.
#[derive(Debug, Default, PartialEq, Eq)]
pub struct TuiKeymapToml {
    pub submit_next: Option<String>,
    pub submit_backlog: Option<String>,
    pub cancel_input_or_quit: Option<String>,
    pub insert_newline: Option<String>,
    pub interrupt: Option<String>,
    pub quit: Option<String>,
    pub scroll_up: Option<String>,
    pub scroll_down: Option<String>,
    pub review_previous_user_input: Option<String>,
    pub history_previous: Option<String>,
    pub history_next: Option<String>,
    pub resume_suspended: Option<String>,
    pub discard_suspended: Option<String>,
}

pub type Bindings = Seq<(KeyBinding, KeyAction)>;

/// A key without modifiers.
pub open spec fn plain_key(code: KeyCode) -> KeyBinding {
    KeyBinding { code, modifiers: no_modifiers() }
}

/// A letter with the control key held.
pub open spec fn control_key(c: char) -> KeyBinding {
    KeyBinding { code: KeyCode::Char(c), modifiers: control_modifier() }
}

pub open spec fn no_modifiers() -> KeyModifiers {
    KeyModifiers {
        shift: false,
        control: false,
        alt: false,
        command: false,
        hyper: false,
        meta: false,
    }
}

pub open spec fn control_modifier() -> KeyModifiers {
    KeyModifiers { control: true, ..no_modifiers() }
}

/// The bindings before any configuration.
pub open spec fn default_bindings() -> Bindings {
    seq![
        (plain_key(KeyCode::Enter), KeyAction::SubmitNext),
        (control_key('b'), KeyAction::SubmitBacklog),
        (control_key('c'), KeyAction::CancelInputOrQuit),
        (control_key('j'), KeyAction::InsertNewline),
        (control_key('p'), KeyAction::OpenCommandPanel),
        (plain_key(KeyCode::Esc), KeyAction::Interrupt),
        (control_key('q'), KeyAction::Quit),
        (plain_key(KeyCode::PageUp), KeyAction::ScrollUp),
        (plain_key(KeyCode::PageDown), KeyAction::ScrollDown),
        (control_key('u'), KeyAction::ReviewPreviousUserInput),
        (plain_key(KeyCode::Up), KeyAction::HistoryPrevious),
        (plain_key(KeyCode::Down), KeyAction::HistoryNext),
        (control_key('o'), KeyAction::TogglePlan),
    ]
}

/// The action of the last binding of a key.
pub open spec fn action_of(bindings: Bindings, key: KeyBinding) -> Option<KeyAction>
    decreases bindings.len(),
{
    if bindings.len() == 0 {
        None
    } else if bindings.last().0 == key {
        Some(bindings.last().1)
    } else {
        action_of(bindings.drop_last(), key)
    }
}

/// The bindings without those of a key or of an action.
pub open spec fn cleared(bindings: Bindings, key: KeyBinding, action: KeyAction) -> Bindings
    decreases bindings.len(),
{
    if bindings.len() == 0 {
        bindings
    } else if bindings.last().0 == key || bindings.last().1 == action {
        cleared(bindings.drop_last(), key, action)
    } else {
        cleared(bindings.drop_last(), key, action).push(bindings.last())
    }
}

/// The bindings once a key is bound to an action: the key's former action and the
/// action's former key are free.
pub open spec fn rebound(bindings: Bindings, key: KeyBinding, action: KeyAction) -> Bindings {
    cleared(bindings, key, action).push((key, action))
}

/// No key has two actions and no action has two keys.
pub open spec fn one_to_one(bindings: Bindings) -> bool {
    forall|i: int, j: int|
        0 <= i < j < bindings.len() ==> (#[trigger] bindings[i]).0 != (#[trigger] bindings[j]).0
            && bindings[i].1 != bindings[j].1
}

/// A key that has been bound does what it was bound to.
pub proof fn a_bound_key_acts(bindings: Bindings, key: KeyBinding, action: KeyAction)
    ensures
        action_of(rebound(bindings, key, action), key) == Some(action),
{
}

/// Binding a key leaves every other key alone, but for the one that had the action.
pub proof fn binding_leaves_other_keys_alone(
    bindings: Bindings,
    key: KeyBinding,
    action: KeyAction,
    other: KeyBinding,
)
    requires
        one_to_one(bindings),
        other != key,
        action_of(bindings, other) != Some(action),
    ensures
        action_of(rebound(bindings, key, action), other) == action_of(bindings, other),
{
    lemma_cleared_action(bindings, key, action, other);
    assert(rebound(bindings, key, action).drop_last() =~= cleared(bindings, key, action));
}

proof fn lemma_cleared_action(
    bindings: Bindings,
    key: KeyBinding,
    action: KeyAction,
    other: KeyBinding,
)
    requires
        one_to_one(bindings),
        other != key,
        action_of(bindings, other) != Some(action),
    ensures
        action_of(cleared(bindings, key, action), other) == action_of(bindings, other),
    decreases bindings.len(),
{
    if bindings.len() > 0 {
        let init = bindings.drop_last();
        lemma_one_to_one_prefix(bindings);
        if bindings.last().0 == other {
            assert(cleared(bindings, key, action).last() == bindings.last());
        } else {
            lemma_cleared_action(init, key, action, other);
            if !(bindings.last().0 == key || bindings.last().1 == action) {
                assert(cleared(bindings, key, action).drop_last() =~= cleared(init, key, action));
            }
        }
    }
}

proof fn lemma_one_to_one_prefix(bindings: Bindings)
    requires
        one_to_one(bindings),
        bindings.len() > 0,
    ensures
        one_to_one(bindings.drop_last()),
{
    let init = bindings.drop_last();
    assert forall|i: int, j: int| 0 <= i < j < init.len() implies (#[trigger] init[i]).0 != (
    #[trigger] init[j]).0 && init[i].1 != init[j].1 by {
        assert(init[i] == bindings[i] && init[j] == bindings[j]);
    }
}

/// Binding keys keeps keys and actions paired one to one.
pub proof fn binding_keeps_keys_and_actions_paired(
    bindings: Bindings,
    key: KeyBinding,
    action: KeyAction,
)
    requires
        one_to_one(bindings),
    ensures
        one_to_one(rebound(bindings, key, action)),
{
    lemma_cleared(bindings, key, action);
}

proof fn lemma_cleared(bindings: Bindings, key: KeyBinding, action: KeyAction)
    requires
        one_to_one(bindings),
    ensures
        one_to_one(cleared(bindings, key, action)),
        forall|i: int|
            0 <= i < cleared(bindings, key, action).len() ==> (#[trigger] cleared(
                bindings,
                key,
                action,
            )[i]).0 != key && cleared(bindings, key, action)[i].1 != action && exists|k: int|
                0 <= k < bindings.len() && #[trigger] bindings[k] == cleared(
                    bindings,
                    key,
                    action,
                )[i],
    decreases bindings.len(),
{
    if bindings.len() > 0 {
        let init = bindings.drop_last();
        lemma_one_to_one_prefix(bindings);
        lemma_cleared(init, key, action);
        let before = cleared(init, key, action);
        let after = cleared(bindings, key, action);
        assert forall|i: int| 0 <= i < before.len() implies exists|k: int|
            0 <= k < bindings.len() - 1 && #[trigger] bindings[k] == #[trigger] before[i] by {
            let k = choose|k: int| 0 <= k < init.len() && #[trigger] init[k] == before[i];
            assert(bindings[k] == before[i]);
        }
        if !(bindings.last().0 == key || bindings.last().1 == action) {
            assert forall|i: int| 0 <= i < after.len() implies (#[trigger] after[i]).0 != key
                && after[i].1 != action && exists|k: int|
                0 <= k < bindings.len() && #[trigger] bindings[k] == after[i] by {
                if i < before.len() {
                    assert(after[i] == before[i]);
                } else {
                    assert(bindings[bindings.len() - 1] == after[i]);
                }
            }
            assert forall|i: int, j: int| 0 <= i < j < after.len() implies (#[trigger] after[i]).0
                != (#[trigger] after[j]).0 && after[i].1 != after[j].1 by {
                assert(after[i] == before[i]);
                if j < before.len() {
                    assert(after[j] == before[j]);
                } else {
                    let k = choose|k: int|
                        0 <= k < bindings.len() - 1 && #[trigger] bindings[k] == before[i];
                    assert(bindings[bindings.len() - 1] == after[j]);
                }
            }
        }
    }
}

/// The key that a name stands for; case and surrounding blanks do not matter.
pub open spec fn named_key(value: Seq<char>) -> Option<KeyBinding> {
    let name = text::lower(text::trimmed(value));
    if name == "enter"@ {
        Some(plain_key(KeyCode::Enter))
    } else if name == "esc"@ {
        Some(plain_key(KeyCode::Esc))
    } else if name == "up"@ {
        Some(plain_key(KeyCode::Up))
    } else if name == "down"@ {
        Some(plain_key(KeyCode::Down))
    } else if name == "pageup"@ || name == "page_up"@ || name == "pgup"@ {
        Some(plain_key(KeyCode::PageUp))
    } else if name == "pagedown"@ || name == "page_down"@ || name == "pgdown"@ {
        Some(plain_key(KeyCode::PageDown))
    } else if name == "ctrl+b"@ {
        Some(control_key('b'))
    } else if name == "ctrl+c"@ {
        Some(control_key('c'))
    } else if name == "ctrl+d"@ {
        Some(control_key('d'))
    } else if name == "ctrl+j"@ {
        Some(control_key('j'))
    } else if name == "ctrl+n"@ {
        Some(control_key('n'))
    } else if name == "ctrl+p"@ {
        Some(control_key('p'))
    } else if name == "ctrl+q"@ {
        Some(control_key('q'))
    } else if name == "ctrl+r"@ {
        Some(control_key('r'))
    } else if name == "ctrl+u"@ {
        Some(control_key('u'))
    } else {
        None
    }
}

/// What is said of a name that stands for no key.
pub open spec fn unsupported_binding(value: Seq<char>) -> Seq<char> {
    "unsupported TUI key binding "@ + text::quoted_debug(text::lower(text::trimmed(value)))
}

fn plain(code: KeyCode) -> (b: KeyBinding)
    ensures
        b == plain_key(code),
{
    KeyBinding { code, modifiers: KeyModifiers::none() }
}

fn control(c: char) -> (b: KeyBinding)
    ensures
        b == control_key(c),
{
    KeyBinding { code: KeyCode::Char(c), modifiers: KeyModifiers::control() }
}

/// The key that a name stands for.
pub fn parse_binding(value: &str) -> (r: Result<KeyBinding, ConfigError>)
    ensures
        match r {
            Ok(b) => named_key(value@) == Some(b),
            Err(ConfigError::Invalid(message)) => named_key(value@) is None && message@
                == unsupported_binding(value@),
        },
{
    let trimmed = text::trim(value);
    let name = text::to_lower(trimmed.as_str());
    let n = name.as_str();
    if text::same(n, "enter") {
        Ok(plain(KeyCode::Enter))
    } else if text::same(n, "esc") {
        Ok(plain(KeyCode::Esc))
    } else if text::same(n, "up") {
        Ok(plain(KeyCode::Up))
    } else if text::same(n, "down") {
        Ok(plain(KeyCode::Down))
    } else if text::same(n, "pageup") || text::same(n, "page_up") || text::same(n, "pgup") {
        Ok(plain(KeyCode::PageUp))
    } else if text::same(n, "pagedown") || text::same(n, "page_down") || text::same(n, "pgdown") {
        Ok(plain(KeyCode::PageDown))
    } else if text::same(n, "ctrl+b") {
        Ok(control('b'))
    } else if text::same(n, "ctrl+c") {
        Ok(control('c'))
    } else if text::same(n, "ctrl+d") {
        Ok(control('d'))
    } else if text::same(n, "ctrl+j") {
        Ok(control('j'))
    } else if text::same(n, "ctrl+n") {
        Ok(control('n'))
    } else if text::same(n, "ctrl+p") {
        Ok(control('p'))
    } else if text::same(n, "ctrl+q") {
        Ok(control('q'))
    } else if text::same(n, "ctrl+r") {
        Ok(control('r'))
    } else if text::same(n, "ctrl+u") {
        Ok(control('u'))
    } else {
        Err(
            ConfigError::Invalid(
                text::cat2("unsupported TUI key binding ", text::debug_text(n).as_str()),
            ),
        )
    }
}

/// The bindings once the named ones have been taken over in turn, or the first name that
/// stands for no key.
pub open spec fn configured(
    bindings: Bindings,
    entries: Seq<(Option<Seq<char>>, KeyAction)>,
) -> Result<Bindings, Seq<char>>
    decreases entries.len(),
{
    if entries.len() == 0 {
        Ok(bindings)
    } else {
        match configured(bindings, entries.drop_last()) {
            Err(name) => Err(name),
            Ok(before) => match entries.last().0 {
                None => Ok(before),
                Some(name) => match named_key(name) {
                    Some(key) => Ok(rebound(before, key, entries.last().1)),
                    None => Err(name),
                },
            },
        }
    }
}

pub open spec fn opt_view(o: Option<String>) -> Option<Seq<char>> {
    match o {
        Some(s) => Some(s@),
        None => None,
    }
}

/// The configuration's entries in the order in which they are taken over.
pub open spec fn config_entries(config: TuiKeymapToml) -> Seq<(Option<Seq<char>>, KeyAction)> {
    seq![
        (opt_view(config.submit_next), KeyAction::SubmitNext),
        (opt_view(config.submit_backlog), KeyAction::SubmitBacklog),
        (opt_view(config.cancel_input_or_quit), KeyAction::CancelInputOrQuit),
        (opt_view(config.insert_newline), KeyAction::InsertNewline),
        (opt_view(config.interrupt), KeyAction::Interrupt),
        (opt_view(config.quit), KeyAction::Quit),
        (opt_view(config.scroll_up), KeyAction::ScrollUp),
        (opt_view(config.scroll_down), KeyAction::ScrollDown),
        (opt_view(config.review_previous_user_input), KeyAction::ReviewPreviousUserInput),
        (opt_view(config.history_previous), KeyAction::HistoryPrevious),
        (opt_view(config.history_next), KeyAction::HistoryNext),
        (opt_view(config.resume_suspended), KeyAction::ResumeSuspended),
        (opt_view(config.discard_suspended), KeyAction::DiscardSuspended),
    ]
}

/// Which key does what.
#[derive(Debug, PartialEq, Eq)]
pub struct Keymap {
    bindings: Vec<(KeyBinding, KeyAction)>,
}

impl View for Keymap {
    type V = Bindings;

    closed spec fn view(&self) -> Bindings {
        self.bindings@
    }
}

impl Default for Keymap {
    fn default() -> (r: Self)
        ensures
            r@ == default_bindings(),
            one_to_one(r@),
    {
        let mut b: Vec<(KeyBinding, KeyAction)> = Vec::new();
        b.push((plain(KeyCode::Enter), KeyAction::SubmitNext));
        b.push((control('b'), KeyAction::SubmitBacklog));
        b.push((control('c'), KeyAction::CancelInputOrQuit));
        b.push((control('j'), KeyAction::InsertNewline));
        b.push((control('p'), KeyAction::OpenCommandPanel));
        b.push((plain(KeyCode::Esc), KeyAction::Interrupt));
        b.push((control('q'), KeyAction::Quit));
        b.push((plain(KeyCode::PageUp), KeyAction::ScrollUp));
        b.push((plain(KeyCode::PageDown), KeyAction::ScrollDown));
        b.push((control('u'), KeyAction::ReviewPreviousUserInput));
        b.push((plain(KeyCode::Up), KeyAction::HistoryPrevious));
        b.push((plain(KeyCode::Down), KeyAction::HistoryNext));
        b.push((control('o'), KeyAction::TogglePlan));
        proof {
            assert(b@ =~= default_bindings());
        }
        Keymap { bindings: b }
    }
}

impl Keymap {
    /// The default bindings with the configured ones taken over.
    pub fn from_config(config: &TuiKeymapToml) -> (r: Result<Keymap, ConfigError>)
        ensures
            match r {
                Ok(k) => configured(default_bindings(), config_entries(*config)) == Ok::<
                    Bindings,
                    Seq<char>,
                >(k@) && one_to_one(k@),
                Err(ConfigError::Invalid(message)) => configured(
                    default_bindings(),
                    config_entries(*config),
                ) matches Err(name) && message@ == unsupported_binding(name),
            },
    {
        let mut keymap = Keymap::default();
        let ghost all = config_entries(*config);
        let entries: Vec<(&Option<String>, KeyAction)> = config_list(config);
        let mut i: usize = 0;
        proof {
            assert(all.take(0) =~= Seq::<(Option<Seq<char>>, KeyAction)>::empty());
        }
        while i < entries.len()
            invariant
                i <= entries@.len(),
                all == config_entries(*config),
                entry_views(entries@) == all,
                one_to_one(keymap@),
                configured(default_bindings(), all.take(i as int)) == Ok::<Bindings, Seq<char>>(
                    keymap@,
                ),
            decreases entries@.len() - i,
        {
            proof {
                assert(all.take(i + 1).drop_last() =~= all.take(i as int));
                assert(all.take(i + 1).last() == entry_views(entries@)[i as int]);
            }
            match entries[i].0 {
                None => {},
                Some(name) => match parse_binding(name.as_str()) {
                    Ok(key) => {
                        keymap.set_binding(key, entries[i].1);
                    },
                    Err(error) => {
                        proof {
                            lemma_configured_error(default_bindings(), all, i + 1);
                        }
                        return Err(error);
                    },
                },
            }
            i += 1;
        }
        proof {
            assert(all.take(i as int) =~= all);
        }
        Ok(keymap)
    }

    /// What a key does.
    pub fn action_for(&self, binding: KeyBinding) -> (r: Option<KeyAction>)
        ensures
            r == action_of(self@, binding),
    {
        let mut i: usize = self.bindings.len();
        proof {
            assert(self@.take(i as int) =~= self@);
        }
        while i > 0
            invariant
                i <= self.bindings@.len(),
                action_of(self@, binding) == action_of(self@.take(i as int), binding),
            decreases i,
        {
            proof {
                assert(self@.take(i as int).drop_last() =~= self@.take(i - 1));
                assert(self@.take(i as int).last() == self.bindings@[i - 1]);
            }
            if self.bindings[i - 1].0 == binding {
                return Some(self.bindings[i - 1].1);
            }
            i -= 1;
        }
        None
    }

    /// Binds a key to an action.
    pub fn set_binding(&mut self, binding: KeyBinding, action: KeyAction)
        requires
            one_to_one(old(self)@),
        ensures
            final(self)@ == rebound(old(self)@, binding, action),
            one_to_one(final(self)@),
    {
        let ghost before = self@;
        let mut kept: Vec<(KeyBinding, KeyAction)> = Vec::new();
        let mut i: usize = 0;
        proof {
            binding_keeps_keys_and_actions_paired(before, binding, action);
            assert(before.take(0) =~= Seq::<(KeyBinding, KeyAction)>::empty());
        }
        while i < self.bindings.len()
            invariant
                i <= self.bindings@.len(),
                self@ == before,
                kept@ == cleared(before.take(i as int), binding, action),
            decreases self.bindings@.len() - i,
        {
            proof {
                assert(before.take(i + 1).drop_last() =~= before.take(i as int));
                assert(before.take(i + 1).last() == self.bindings@[i as int]);
            }
            let entry = self.bindings[i];
            if entry.0 != binding && entry.1 != action {
                kept.push(entry);
            }
            i += 1;
        }
        proof {
            assert(before.take(i as int) =~= before);
        }
        kept.push((binding, action));
        self.bindings = kept;
    }
}

spec fn entry_views(v: Seq<(&Option<String>, KeyAction)>) -> Seq<(Option<Seq<char>>, KeyAction)> {
    v.map_values(|e: (&Option<String>, KeyAction)| (opt_view(*e.0), e.1))
}

fn config_list(config: &TuiKeymapToml) -> (r: Vec<(&Option<String>, KeyAction)>)
    ensures
        entry_views(r@) == config_entries(*config),
{
    let mut r: Vec<(&Option<String>, KeyAction)> = Vec::new();
    r.push((&config.submit_next, KeyAction::SubmitNext));
    r.push((&config.submit_backlog, KeyAction::SubmitBacklog));
    r.push((&config.cancel_input_or_quit, KeyAction::CancelInputOrQuit));
    r.push((&config.insert_newline, KeyAction::InsertNewline));
    r.push((&config.interrupt, KeyAction::Interrupt));
    r.push((&config.quit, KeyAction::Quit));
    r.push((&config.scroll_up, KeyAction::ScrollUp));
    r.push((&config.scroll_down, KeyAction::ScrollDown));
    r.push((&config.review_previous_user_input, KeyAction::ReviewPreviousUserInput));
    r.push((&config.history_previous, KeyAction::HistoryPrevious));
    r.push((&config.history_next, KeyAction::HistoryNext));
    r.push((&config.resume_suspended, KeyAction::ResumeSuspended));
    r.push((&config.discard_suspended, KeyAction::DiscardSuspended));
    proof {
        assert(entry_views(r@) =~= config_entries(*config));
    }
    r
}

proof fn lemma_configured_error(
    bindings: Bindings,
    entries: Seq<(Option<Seq<char>>, KeyAction)>,
    n: int,
)
    requires
        0 <= n <= entries.len(),
        configured(bindings, entries.take(n)) is Err,
    ensures
        configured(bindings, entries) == configured(bindings, entries.take(n)),
    decreases entries.len(),
{
    if n == entries.len() {
        assert(entries.take(n) =~= entries);
    } else {
        assert(entries.drop_last().take(n) =~= entries.take(n));
        lemma_configured_error(bindings, entries.drop_last(), n);
    }
}

/// Whatever a configuration names, keys and actions stay paired one to one.
pub proof fn configurations_keep_keys_and_actions_paired(
    entries: Seq<(Option<Seq<char>>, KeyAction)>,
    bindings: Bindings,
)
    requires
        configured(default_bindings(), entries) == Ok::<Bindings, Seq<char>>(bindings),
    ensures
        one_to_one(bindings),
    decreases entries.len(),
{
    if entries.len() > 0 {
        let before = configured(default_bindings(), entries.drop_last())->Ok_0;
        configurations_keep_keys_and_actions_paired(entries.drop_last(), before);
        if let Some(name) = entries.last().0 {
            binding_keeps_keys_and_actions_paired(before, named_key(name)->0, entries.last().1);
        }
    }
}

/// A key does exactly what a binding of it says, where keys and actions are paired one to one.
pub proof fn keys_do_what_their_binding_says(
    bindings: Bindings,
    key: KeyBinding,
    action: KeyAction,
)
    requires
        one_to_one(bindings),
    ensures
        action_of(bindings, key) == Some(action) <==> bindings.contains((key, action)),
    decreases bindings.len(),
{
    if bindings.len() > 0 {
        let init = bindings.drop_last();
        let last = bindings.len() - 1;
        lemma_one_to_one_prefix(bindings);
        keys_do_what_their_binding_says(init, key, action);
        if init.contains((key, action)) {
            let i = choose|i: int| 0 <= i < init.len() && init[i] == (key, action);
            assert(bindings[i] == (key, action));
            assert(bindings[i].0 != bindings[last].0);
        }
        if bindings.contains((key, action)) {
            let i = choose|i: int| 0 <= i < bindings.len() && bindings[i] == (key, action);
            if i < last {
                assert(init[i] == (key, action));
                assert(bindings[i].0 != bindings[last].0);
            }
        }
        if bindings.last() == (key, action) {
            assert(bindings[last] == (key, action));
        }
    }
}

/// A key that has been bound is the only one that does the action, and the action the only one
/// that the key does.
pub proof fn a_bound_key_alone_acts(
    bindings: Bindings,
    key: KeyBinding,
    action: KeyAction,
    other: KeyBinding,
)
    requires
        one_to_one(bindings),
        other != key,
    ensures
        action_of(rebound(bindings, key, action), key) == Some(action),
        action_of(rebound(bindings, key, action), other) != Some(action),
{
    let after = rebound(bindings, key, action);
    binding_keeps_keys_and_actions_paired(bindings, key, action);
    keys_do_what_their_binding_says(after, other, action);
    if after.contains((other, action)) {
        let i = choose|i: int| 0 <= i < after.len() && after[i] == (other, action);
        let last = after.len() - 1;
        assert(after[last] == (key, action));
        assert(after[i].1 != after[last].1);
    }
}

/// The name of a letter with the control key held is that letter behind `ctrl+`, in capital or
/// small letters and with blanks around it or not; other names stand for keys without modifiers.
pub proof fn names_of_control_keys_name_their_letter(value: Seq<char>, key: KeyBinding)
    requires
        named_key(value) == Some(key),
    ensures
        key.code matches KeyCode::Char(c) ==> {
            &&& key.modifiers.control
            &&& text::lower(text::trimmed(value)) == "ctrl+"@.push(c)
        },
        !(key.code is Char) ==> !key.modifiers.control,
        !key.modifiers.shift,
        !key.modifiers.alt,
        key.code == KeyCode::Up ==> text::lower(text::trimmed(value)) == "up"@,
        key.code == KeyCode::Down ==> text::lower(text::trimmed(value)) == "down"@,
        key.code == KeyCode::Enter ==> text::lower(text::trimmed(value)) == "enter"@,
        key.code == KeyCode::Esc ==> text::lower(text::trimmed(value)) == "esc"@,
{
    reveal_strlit("ctrl+");
    reveal_strlit("ctrl+b");
    reveal_strlit("ctrl+c");
    reveal_strlit("ctrl+d");
    reveal_strlit("ctrl+j");
    reveal_strlit("ctrl+n");
    reveal_strlit("ctrl+p");
    reveal_strlit("ctrl+q");
    reveal_strlit("ctrl+r");
    reveal_strlit("ctrl+u");
    assert("ctrl+b"@ =~= "ctrl+"@.push('b'));
    assert("ctrl+c"@ =~= "ctrl+"@.push('c'));
    assert("ctrl+d"@ =~= "ctrl+"@.push('d'));
    assert("ctrl+j"@ =~= "ctrl+"@.push('j'));
    assert("ctrl+n"@ =~= "ctrl+"@.push('n'));
    assert("ctrl+p"@ =~= "ctrl+"@.push('p'));
    assert("ctrl+q"@ =~= "ctrl+"@.push('q'));
    assert("ctrl+r"@ =~= "ctrl+"@.push('r'));
    assert("ctrl+u"@ =~= "ctrl+"@.push('u'));
}

/// Whether a configuration's entry names a key.
pub open spec fn entry_names(entry: (Option<Seq<char>>, KeyAction), key: KeyBinding) -> bool {
    entry.0 matches Some(name) && named_key(name) == Some(key)
}

/// A configuration is taken over exactly when every name in it stands for a key.
pub proof fn configurations_fail_on_unknown_names(
    bindings: Bindings,
    entries: Seq<(Option<Seq<char>>, KeyAction)>,
)
    ensures
        configured(bindings, entries) is Ok <==> (forall|i: int|
            0 <= i < entries.len() ==> ((#[trigger] entries[i]).0 matches Some(name) ==> named_key(
                name,
            ) is Some)),
        configured(bindings, entries) matches Err(name) ==> named_key(name) is None && (exists|
            i: int,
        |
            0 <= i < entries.len() && (#[trigger] entries[i]).0 == Some(name)),
    decreases entries.len(),
{
    if entries.len() > 0 {
        let init = entries.drop_last();
        let last = entries.len() - 1;
        configurations_fail_on_unknown_names(bindings, init);
        assert forall|i: int| 0 <= i < init.len() implies init[i] == #[trigger] entries[i] by {}
        let all = forall|i: int|
            0 <= i < entries.len() ==> ((#[trigger] entries[i]).0 matches Some(name) ==> named_key(
                name,
            ) is Some);
        if all {
            assert forall|i: int| 0 <= i < init.len() implies ((#[trigger] init[i]).0 matches Some(
                name,
            ) ==> named_key(name) is Some) by {
                assert(init[i] == entries[i]);
            }
            assert(entries[last].0 matches Some(name) ==> named_key(name) is Some);
        }
        if configured(bindings, entries) is Ok {
            assert forall|i: int| 0 <= i < entries.len() implies ((
            #[trigger] entries[i]).0 matches Some(name) ==> named_key(name) is Some) by {
                if i < init.len() {
                    assert(init[i] == entries[i]);
                }
            }
            assert(all);
        }
        if configured(bindings, entries) is Err {
            let name = configured(bindings, entries)->Err_0;
            if configured(bindings, init) is Err {
                let i = choose|i: int| 0 <= i < init.len() && (#[trigger] init[i]).0 == Some(name);
                assert(entries[i].0 == Some(name));
            } else {
                assert(entries[last].0 == Some(name));
            }
        }
    }
}

/// A key that a configuration names for an action does that action, unless a later entry names
/// the key or the action again.
pub proof fn configured_keys_act(
    bindings: Bindings,
    entries: Seq<(Option<Seq<char>>, KeyAction)>,
    i: int,
    key: KeyBinding,
)
    requires
        one_to_one(bindings),
        configured(bindings, entries) is Ok,
        0 <= i < entries.len(),
        entry_names(entries[i], key),
        forall|j: int|
            i < j < entries.len() ==> !entry_names(#[trigger] entries[j], key) && entries[j].1
                != entries[i].1,
    ensures
        action_of(configured(bindings, entries)->Ok_0, key) == Some(entries[i].1),
        one_to_one(configured(bindings, entries)->Ok_0),
    decreases entries.len(),
{
    let init = entries.drop_last();
    let before = configured(bindings, init)->Ok_0;
    let last = entries.len() - 1;
    lemma_configured_pairs(bindings, init);
    if i == last {
        binding_keeps_keys_and_actions_paired(before, key, entries[i].1);
    } else {
        assert(init[i] == entries[i]);
        assert forall|j: int| i < j < init.len() implies !entry_names(#[trigger] init[j], key)
            && init[j].1 != init[i].1 by {
            assert(init[j] == entries[j]);
        }
        configured_keys_act(bindings, init, i, key);
        assert(!entry_names(entries[last], key) && entries[last].1 != entries[i].1);
        if entries[last].0 is Some {
            let other = named_key(entries[last].0->0)->0;
            binding_leaves_other_keys_alone(before, other, entries[last].1, key);
            binding_keeps_keys_and_actions_paired(before, other, entries[last].1);
        }
    }
}

proof fn lemma_configured_pairs(
    bindings: Bindings,
    entries: Seq<(Option<Seq<char>>, KeyAction)>,
)
    requires
        one_to_one(bindings),
    ensures
        configured(bindings, entries) matches Ok(after) ==> one_to_one(after),
    decreases entries.len(),
{
    if entries.len() > 0 {
        let init = entries.drop_last();
        lemma_configured_pairs(bindings, init);
        if configured(bindings, entries) is Ok && entries.last().0 is Some {
            binding_keeps_keys_and_actions_paired(
                configured(bindings, init)->Ok_0,
                named_key(entries.last().0->0)->0,
                entries.last().1,
            );
        }
    }
}

/// Each field of a configuration is the entry of the action that it is named for, and no action
/// has two entries.
pub proof fn fields_name_the_keys_of_their_actions(config: TuiKeymapToml)
    ensures
        ({
            let e = config_entries(config);
            &&& e.contains((opt_view(config.submit_next), KeyAction::SubmitNext))
            &&& e.contains((opt_view(config.submit_backlog), KeyAction::SubmitBacklog))
            &&& e.contains((opt_view(config.cancel_input_or_quit), KeyAction::CancelInputOrQuit))
            &&& e.contains((opt_view(config.insert_newline), KeyAction::InsertNewline))
            &&& e.contains((opt_view(config.interrupt), KeyAction::Interrupt))
            &&& e.contains((opt_view(config.quit), KeyAction::Quit))
            &&& e.contains((opt_view(config.scroll_up), KeyAction::ScrollUp))
            &&& e.contains((opt_view(config.scroll_down), KeyAction::ScrollDown))
            &&& e.contains(
                (
                    opt_view(config.review_previous_user_input),
                    KeyAction::ReviewPreviousUserInput,
                ),
            )
            &&& e.contains((opt_view(config.history_previous), KeyAction::HistoryPrevious))
            &&& e.contains((opt_view(config.history_next), KeyAction::HistoryNext))
            &&& e.contains((opt_view(config.resume_suspended), KeyAction::ResumeSuspended))
            &&& e.contains((opt_view(config.discard_suspended), KeyAction::DiscardSuspended))
            &&& forall|i: int, j: int|
                0 <= i < j < e.len() ==> (#[trigger] e[i]).1 != (#[trigger] e[j]).1
        }),
{
    let e = config_entries(config);
    assert(e[0].1 == KeyAction::SubmitNext);
    assert(e[1].1 == KeyAction::SubmitBacklog);
    assert(e[2].1 == KeyAction::CancelInputOrQuit);
    assert(e[3].1 == KeyAction::InsertNewline);
    assert(e[4].1 == KeyAction::Interrupt);
    assert(e[5].1 == KeyAction::Quit);
    assert(e[6].1 == KeyAction::ScrollUp);
    assert(e[7].1 == KeyAction::ScrollDown);
    assert(e[8].1 == KeyAction::ReviewPreviousUserInput);
    assert(e[9].1 == KeyAction::HistoryPrevious);
    assert(e[10].1 == KeyAction::HistoryNext);
    assert(e[11].1 == KeyAction::ResumeSuspended);
    assert(e[12].1 == KeyAction::DiscardSuspended);
}

} // verus!
