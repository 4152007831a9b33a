//! The commands of the palette and their slash forms.
use crate::keymap::KeyAction;
use crate::ordered;
use crate::provider_overlay;
use crate::text;
use vstd::prelude::*;

verus! {

/// What a command does.
#[derive(Debug, Clone, Copy, PartialEq, Eq, Structural)]
pub enum PaletteCommand {
    OpenSettings,
    OpenProviders,
    ShowShortcuts,
    ShowHelp,
    ShowStatus,
    FollowLatest,
    ReviewPreviousArtifact,
    ReviewNextArtifact,
    ReviewPreviousUserInput,
    Interrupt,
    ResumeSuspended,
    DiscardSuspended,
    SaveSession,
    Quit,
    EnterPlanMode,
    ApprovePlan,
    RevisePlan,
    OpenPlan,
    FocusPlan,
    ClosePlan,
    PausePlan,
    ResumePlan,
    RetryPlanNode,
    CancelPlan,
}

/// A command as the palette lists it.
#[derive(Debug, Clone, Copy, PartialEq, Eq)]
pub struct CommandSpec {
    pub command: PaletteCommand,
    pub category: &'static str,
    pub label: &'static str,
    pub key_action: Option<KeyAction>,
    pub slash_name: Option<&'static str>,
    pub slash_description: Option<&'static str>,
}

/// A command as the palette lists it.
pub struct CommandView {
    pub command: PaletteCommand,
    pub category: Seq<char>,
    pub label: Seq<char>,
    pub key_action: Option<KeyAction>,
    pub slash_name: Option<Seq<char>>,
    pub slash_description: Option<Seq<char>>,
}

impl CommandSpec {
    pub open spec fn name(self) -> Option<Seq<char>> {
        match self.slash_name {
            Some(n) => Some(n@),
            None => None,
        }
    }

    pub open spec fn description(self) -> Option<Seq<char>> {
        match self.slash_description {
            Some(d) => Some(d@),
            None => None,
        }
    }
}

impl View for CommandSpec {
    type V = CommandView;

    open spec fn view(&self) -> CommandView {
        CommandView {
            command: self.command,
            category: self.category@,
            label: self.label@,
            key_action: self.key_action,
            slash_name: self.name(),
            slash_description: self.description(),
        }
    }
}

pub open spec fn entry(
    command: PaletteCommand,
    category: Seq<char>,
    label: Seq<char>,
    key_action: Option<KeyAction>,
) -> CommandView {
    CommandView {
        command,
        category,
        label,
        key_action,
        slash_name: None,
        slash_description: None,
    }
}

pub open spec fn slashed(e: CommandView, name: Seq<char>, description: Seq<char>) -> CommandView {
    CommandView { slash_name: Some(name), slash_description: Some(description), ..e }
}

/// Every command, in the order of the palette.
pub open spec fn registry() -> Seq<CommandView> {
    seq![
        entry(PaletteCommand::OpenSettings, "Merry"@, "Settings"@, None),
        entry(PaletteCommand::OpenProviders, "Merry"@, "Providers & models"@, None),
        entry(PaletteCommand::ShowShortcuts, "Merry"@, "Keyboard shortcuts"@, None),
        slashed(
            entry(PaletteCommand::ShowHelp, "Merry"@, "Command help"@, None),
            "help"@,
            "List slash commands and essential keys"@,
        ),
        entry(
            PaletteCommand::FollowLatest,
            "Navigation"@,
            "Follow latest"@,
            Some(KeyAction::FollowLatestArtifact),
        ),
        entry(
            PaletteCommand::ReviewPreviousArtifact,
            "Navigation"@,
            "Previous artifact"@,
            Some(KeyAction::ReviewPreviousArtifact),
        ),
        entry(
            PaletteCommand::ReviewNextArtifact,
            "Navigation"@,
            "Next artifact"@,
            Some(KeyAction::ReviewNextArtifact),
        ),
        entry(
            PaletteCommand::ReviewPreviousUserInput,
            "Navigation"@,
            "Previous user input"@,
            Some(KeyAction::ReviewPreviousUserInput),
        ),
        slashed(
            entry(
                PaletteCommand::Interrupt,
                "Runtime"@,
                "Interrupt current run"@,
                Some(KeyAction::Interrupt),
            ),
            "stop"@,
            "Interrupt the active model or tool run"@,
        ),
        entry(
            PaletteCommand::ResumeSuspended,
            "Runtime"@,
            "Resume suspended input"@,
            Some(KeyAction::ResumeSuspended),
        ),
        entry(
            PaletteCommand::DiscardSuspended,
            "Runtime"@,
            "Discard suspended input"@,
            Some(KeyAction::DiscardSuspended),
        ),
        slashed(
            entry(PaletteCommand::ShowStatus, "Session"@, "Show session status"@, None),
            "status"@,
            "Show run, model, usage, plan, and workspace state"@,
        ),
        slashed(
            entry(PaletteCommand::SaveSession, "Session"@, "Save session"@, None),
            "save"@,
            "Save the session at a stable boundary"@,
        ),
        entry(PaletteCommand::Quit, "Session"@, "Quit Merry"@, Some(KeyAction::Quit)),
        entry(PaletteCommand::EnterPlanMode, "Plan"@, "Enter Plan Mode"@, None),
        entry(PaletteCommand::ApprovePlan, "Plan"@, "Approve plan and execute"@, None),
        entry(PaletteCommand::RevisePlan, "Plan"@, "Revise plan"@, None),
        entry(PaletteCommand::OpenPlan, "Plan"@, "Open plan"@, None),
        entry(PaletteCommand::FocusPlan, "Plan"@, "Focus plan tree"@, None),
        entry(PaletteCommand::ClosePlan, "Plan"@, "Close plan"@, None),
        entry(PaletteCommand::RetryPlanNode, "Plan"@, "Retry selected interrupted node"@, None),
        entry(PaletteCommand::CancelPlan, "Plan"@, "Cancel plan"@, None),
    ]
}

pub open spec fn command_views(v: Seq<CommandSpec>) -> Seq<CommandView> {
    v.map_values(|c: CommandSpec| c@)
}

impl CommandSpec {
    pub fn new(
        command: PaletteCommand,
        category: &'static str,
        label: &'static str,
        key_action: Option<KeyAction>,
    ) -> (r: CommandSpec)
        ensures
            r@ == entry(command, category@, label@, key_action),
    {
        CommandSpec {
            command,
            category,
            label,
            key_action,
            slash_name: None,
            slash_description: None,
        }
    }

    pub fn with_slash(self, name: &'static str, description: &'static str) -> (r: CommandSpec)
        ensures
            r@ == slashed(self@, name@, description@),
    {
        let mut r = self;
        r.slash_name = Some(name);
        r.slash_description = Some(description);
        r
    }

    pub fn slash_name(&self) -> (r: Option<&'static str>)
        ensures
            match r {
                Some(n) => self.name() == Some(n@),
                None => self.name() is None,
            },
    {
        self.slash_name
    }

    pub fn slash_description(&self) -> (r: Option<&'static str>)
        ensures
            match r {
                Some(d) => self.description() == Some(d@),
                None => self.description() is None,
            },
    {
        self.slash_description
    }
}

/// Every command, in the order of the palette.
pub fn all_commands() -> (r: Vec<CommandSpec>)
    ensures
        command_views(r@) == registry(),
{
    let mut r: Vec<CommandSpec> = Vec::new();
    r.push(CommandSpec::new(PaletteCommand::OpenSettings, "Merry", "Settings", None));
    r.push(CommandSpec::new(PaletteCommand::OpenProviders, "Merry", "Providers & models", None));
    r.push(CommandSpec::new(PaletteCommand::ShowShortcuts, "Merry", "Keyboard shortcuts", None));
    r.push(
        CommandSpec::new(PaletteCommand::ShowHelp, "Merry", "Command help", None).with_slash(
            "help",
            "List slash commands and essential keys",
        ),
    );
    r.push(
        CommandSpec::new(
            PaletteCommand::FollowLatest,
            "Navigation",
            "Follow latest",
            Some(KeyAction::FollowLatestArtifact),
        ),
    );
    r.push(
        CommandSpec::new(
            PaletteCommand::ReviewPreviousArtifact,
            "Navigation",
            "Previous artifact",
            Some(KeyAction::ReviewPreviousArtifact),
        ),
    );
    r.push(
        CommandSpec::new(
            PaletteCommand::ReviewNextArtifact,
            "Navigation",
            "Next artifact",
            Some(KeyAction::ReviewNextArtifact),
        ),
    );
    r.push(
        CommandSpec::new(
            PaletteCommand::ReviewPreviousUserInput,
            "Navigation",
            "Previous user input",
            Some(KeyAction::ReviewPreviousUserInput),
        ),
    );
    r.push(
        CommandSpec::new(
            PaletteCommand::Interrupt,
            "Runtime",
            "Interrupt current run",
            Some(KeyAction::Interrupt),
        ).with_slash("stop", "Interrupt the active model or tool run"),
    );
    r.push(
        CommandSpec::new(
            PaletteCommand::ResumeSuspended,
            "Runtime",
            "Resume suspended input",
            Some(KeyAction::ResumeSuspended),
        ),
    );
    r.push(
        CommandSpec::new(
            PaletteCommand::DiscardSuspended,
            "Runtime",
            "Discard suspended input",
            Some(KeyAction::DiscardSuspended),
        ),
    );
    r.push(
        CommandSpec::new(
            PaletteCommand::ShowStatus,
            "Session",
            "Show session status",
            None,
        ).with_slash("status", "Show run, model, usage, plan, and workspace state"),
    );
    r.push(
        CommandSpec::new(PaletteCommand::SaveSession, "Session", "Save session", None).with_slash(
            "save",
            "Save the session at a stable boundary",
        ),
    );
    r.push(
        CommandSpec::new(PaletteCommand::Quit, "Session", "Quit Merry", Some(KeyAction::Quit)),
    );
    r.push(CommandSpec::new(PaletteCommand::EnterPlanMode, "Plan", "Enter Plan Mode", None));
    r.push(
        CommandSpec::new(PaletteCommand::ApprovePlan, "Plan", "Approve plan and execute", None),
    );
    r.push(CommandSpec::new(PaletteCommand::RevisePlan, "Plan", "Revise plan", None));
    r.push(CommandSpec::new(PaletteCommand::OpenPlan, "Plan", "Open plan", None));
    r.push(CommandSpec::new(PaletteCommand::FocusPlan, "Plan", "Focus plan tree", None));
    r.push(CommandSpec::new(PaletteCommand::ClosePlan, "Plan", "Close plan", None));
    r.push(
        CommandSpec::new(
            PaletteCommand::RetryPlanNode,
            "Plan",
            "Retry selected interrupted node",
            None,
        ),
    );
    r.push(CommandSpec::new(PaletteCommand::CancelPlan, "Plan", "Cancel plan", None));
    proof {
        assert(command_views(r@) =~= registry());
    }
    r
}

/// The command with a slash name.
pub open spec fn slash_command(name: Seq<char>) -> Option<PaletteCommand> {
    if name == "help"@ {
        Some(PaletteCommand::ShowHelp)
    } else if name == "stop"@ {
        Some(PaletteCommand::Interrupt)
    } else if name == "status"@ {
        Some(PaletteCommand::ShowStatus)
    } else if name == "save"@ {
        Some(PaletteCommand::SaveSession)
    } else {
        None
    }
}

/// Whether a listed command has a slash name.
pub open spec fn has_name(e: CommandView, name: Seq<char>) -> bool {
    e.slash_name == Some(name)
}

/// No two commands share a slash name.
pub proof fn slash_names_are_unique(i: int, j: int, name: Seq<char>)
    requires
        0 <= i < registry().len(),
        0 <= j < registry().len(),
        has_name(registry()[i], name),
        has_name(registry()[j], name),
    ensures
        i == j,
{
    lemma_names();
}

proof fn lemma_names()
    ensures
        "help"@ != "stop"@,
        "help"@ != "status"@,
        "help"@ != "save"@,
        "stop"@ != "status"@,
        "stop"@ != "save"@,
        "status"@ != "save"@,
{
    reveal_strlit("help");
    reveal_strlit("stop");
    reveal_strlit("status");
    reveal_strlit("save");
    assert("help"@[0] != "stop"@[0]);
    assert("help"@[0] != "status"@[0]);
    assert("help"@[0] != "save"@[0]);
    assert("stop"@[2] != "status"@[2]);
    assert("stop"@[1] != "save"@[1]);
    assert("status"@[1] != "save"@[1]);
}

/// The command of a slash name is the one that the registry lists under it.
pub proof fn slash_commands_are_registered(name: Seq<char>)
    ensures
        slash_command(name) matches Some(c) ==> exists|i: int|
            0 <= i < registry().len() && has_name(#[trigger] registry()[i], name)
                && registry()[i].command == c,
        slash_command(name) is None ==> forall|i: int|
            0 <= i < registry().len() ==> !has_name(#[trigger] registry()[i], name),
{
    assert(has_name(registry()[3], "help"@));
    assert(has_name(registry()[8], "stop"@));
    assert(has_name(registry()[11], "status"@));
    assert(has_name(registry()[12], "save"@));
}

/// The entry of the registry with a slash name, if there is one.
pub open spec fn slash_entry(name: Seq<char>) -> CommandView {
    registry()[choose|i: int| 0 <= i < registry().len() && has_name(#[trigger] registry()[i], name)]
}

/// The entry of a slash name is in the registry, under that name and with its command.
proof fn lemma_slash_entry(name: Seq<char>, i: int)
    requires
        0 <= i < registry().len(),
        has_name(registry()[i], name),
    ensures
        slash_entry(name) == registry()[i],
        slash_command(name) == Some(registry()[i].command),
        registry().contains(slash_entry(name)),
        slash_entry(name).slash_description is Some,
{
    let k = choose|k: int| 0 <= k < registry().len() && has_name(#[trigger] registry()[k], name);
    slash_names_are_unique(i, k, name);
    slash_commands_are_registered(name);
    let c = slash_command(name)->0;
    let j = choose|j: int|
        0 <= j < registry().len() && has_name(#[trigger] registry()[j], name)
            && registry()[j].command == c;
    slash_names_are_unique(i, j, name);
}

/// The command with a slash name.
pub fn find_slash_exact(name: &str) -> (r: Option<CommandSpec>)
    ensures
        match r {
            Some(c) => {
                &&& slash_command(name@) == Some(c.command)
                &&& c@ == slash_entry(name@)
                &&& registry().contains(c@)
                &&& c.name() == Some(name@)
            },
            None => slash_command(name@) is None,
        },
        r matches Some(c) ==> c.description() is Some,
{
    let all = all_commands();
    let mut i: usize = 0;
    proof {
        slash_commands_are_registered(name@);
    }
    while i < all.len()
        invariant
            i <= all@.len(),
            command_views(all@) == registry(),
            slash_command(name@) matches Some(c) ==> exists|k: int|
                0 <= k < registry().len() && has_name(#[trigger] registry()[k], name@)
                    && registry()[k].command == c,
            slash_command(name@) is None ==> forall|k: int|
                0 <= k < registry().len() ==> !has_name(#[trigger] registry()[k], name@),
            forall|k: int| 0 <= k < i ==> !has_name(#[trigger] registry()[k], name@),
        decreases all@.len() - i,
    {
        proof {
            assert(registry()[i as int] == command_views(all@)[i as int]);
            assert(command_views(all@)[i as int] == all@[i as int]@);
        }
        match all[i].slash_name() {
            Some(n) => {
                if text::same(n, name) {
                    proof {
                        assert(has_name(registry()[i as int], name@));
                        lemma_slash_entry(name@, i as int);
                    }
                    return Some(all[i]);
                }
            },
            None => {},
        }
        i += 1;
    }
    None
}

/// The slash names in ascending order.
pub open spec fn slash_names() -> Seq<Seq<char>> {
    seq!["help"@, "save"@, "status"@, "stop"@]
}

/// The slash names are in ascending order, and they are exactly those of the registry.
pub proof fn slash_names_are_sorted_and_complete()
    ensures
        ordered::ascending(slash_names()),
        forall|name: Seq<char>|
            #[trigger] slash_names().contains(name) <==> slash_command(name) is Some,
{
    reveal_strlit("help");
    reveal_strlit("stop");
    reveal_strlit("status");
    reveal_strlit("save");
    reveal_with_fuel(ordered::lex_less, 4);
    assert(ordered::lex_less("help"@, "save"@));
    assert(ordered::lex_less("help"@, "status"@));
    assert(ordered::lex_less("help"@, "stop"@));
    assert(ordered::lex_less("save"@, "status"@));
    assert(ordered::lex_less("save"@, "stop"@));
    assert(ordered::lex_less("status"@, "stop"@)) by {
        let a = "status"@;
        let b = "stop"@;
        assert(a.drop_first()[0] == 't');
        assert(b.drop_first()[0] == 't');
        assert(a.drop_first().drop_first()[0] == 'a');
        assert(b.drop_first().drop_first()[0] == 'o');
    }
    assert forall|name: Seq<char>| #[trigger] slash_names().contains(name) <==> slash_command(
        name,
    ) is Some by {
        assert(slash_names()[0] == "help"@);
        assert(slash_names()[1] == "save"@);
        assert(slash_names()[2] == "status"@);
        assert(slash_names()[3] == "stop"@);
    }
}

/// Those of some names that begin with `query`.
pub open spec fn with_prefix(names: Seq<Seq<char>>, query: Seq<char>) -> Seq<Seq<char>>
    decreases names.len(),
{
    if names.len() == 0 {
        names
    } else if query.is_prefix_of(names.last()) {
        with_prefix(names.drop_last(), query).push(names.last())
    } else {
        with_prefix(names.drop_last(), query)
    }
}

/// The commands with the given slash names, in that order.
pub open spec fn are_named(v: Seq<CommandSpec>, names: Seq<Seq<char>>) -> bool {
    &&& v.len() == names.len()
    &&& forall|k: int|
        0 <= k < v.len() ==> (#[trigger] v[k]).name() == Some(names[k]) && v[k].description() is Some
            && slash_command(names[k]) == Some(v[k].command) && registry().contains(v[k]@)
}

/// The commands whose slash name begins with `query`, by name.
pub fn find_slash_prefix(query: &str) -> (r: Vec<CommandSpec>)
    ensures
        are_named(r@, with_prefix(slash_names(), query@)),
{
    let mut names: Vec<&'static str> = Vec::new();
    names.push("help");
    names.push("save");
    names.push("status");
    names.push("stop");
    let ghost all = slash_names();
    let mut r: Vec<CommandSpec> = Vec::new();
    let mut i: usize = 0;
    proof {
        assert(all.take(0) =~= Seq::<Seq<char>>::empty());
        slash_names_are_sorted_and_complete();
    }
    while i < names.len()
        invariant
            i <= names@.len(),
            names@.len() == all.len(),
            all == slash_names(),
            forall|k: int| 0 <= k < names@.len() ==> (#[trigger] names@[k])@ == all[k],
            forall|name: Seq<char>|
                #[trigger] slash_names().contains(name) <==> slash_command(name) is Some,
            are_named(r@, with_prefix(all.take(i as int), query@)),
        decreases names@.len() - i,
    {
        let ghost before = r@;
        proof {
            assert(all.take(i + 1).drop_last() =~= all.take(i as int));
            assert(all.take(i + 1).last() == names@[i as int]@);
            assert(slash_names().contains(all[i as int]));
        }
        if text::begins_with(names[i], query) {
            match find_slash_exact(names[i]) {
                Some(c) => {
                    r.push(c);
                },
                None => {},
            }
        }
        i += 1;
    }
    proof {
        assert(all.take(i as int) =~= all);
    }
    r
}

/// Every command with a slash name, by name.
pub fn slash_commands() -> (r: Vec<CommandSpec>)
    ensures
        are_named(r@, slash_names()),
{
    let none = String::new();
    let r = find_slash_prefix(none.as_str());
    proof {
        let n = slash_names();
        lemma_all_begin_empty(n);
        assert(none@ =~= Seq::<char>::empty());
    }
    r
}

proof fn lemma_all_begin_empty(names: Seq<Seq<char>>)
    ensures
        with_prefix(names, Seq::empty()) == names,
    decreases names.len(),
{
    if names.len() > 0 {
        lemma_all_begin_empty(names.drop_last());
        let e = Seq::<char>::empty();
        assert(e =~= names.last().take(0));
        assert(e.is_prefix_of(names.last()));
        assert(names.drop_last().push(names.last()) =~= names);
    }
}

/// What a line of input is, taken as a slash command.
#[derive(Debug, Clone, Copy, PartialEq, Eq)]
pub enum SlashCommandMatch<'a> {
    NotCommand,
    Known(CommandSpec),
    Unknown(&'a str),
    ArgumentsNotSupported(&'a str),
}

/// What a line of input is, taken as a slash command.
pub enum SlashView {
    NotCommand,
    Known(CommandView),
    Unknown(Seq<char>),
    ArgumentsNotSupported(Seq<char>),
}

pub open spec fn slash_view(m: SlashCommandMatch) -> SlashView {
    match m {
        SlashCommandMatch::NotCommand => SlashView::NotCommand,
        SlashCommandMatch::Known(c) => SlashView::Known(c@),
        SlashCommandMatch::Unknown(n) => SlashView::Unknown(n@),
        SlashCommandMatch::ArgumentsNotSupported(n) => SlashView::ArgumentsNotSupported(n@),
    }
}

/// A character of a command name.
pub open spec fn name_char(c: char) -> bool {
    ('a' <= c <= 'z') || ('A' <= c <= 'Z') || ('0' <= c <= '9') || c == '-' || c == '_'
}

/// The length of the part of `s` before the first white space.
pub open spec fn word_len(s: Seq<char>) -> nat
    decreases s.len(),
{
    if s.len() == 0 || text::is_space(s[0]) {
        0
    } else {
        1 + word_len(s.drop_first())
    }
}

/// A line is a command when it begins with a slash, directly followed by a name. What
/// comes behind the name is an argument; no command takes any.
pub open spec fn slash_parse(input: Seq<char>) -> SlashView {
    let line = text::trim_end(input);
    if input.contains('\n') || input.contains('\r') || line.len() == 0 || line[0] != '/' {
        SlashView::NotCommand
    } else {
        let rest = line.drop_first();
        let name = rest.take(word_len(rest) as int);
        let arguments = rest.skip(word_len(rest) as int);
        if exists|i: int| 0 <= i < name.len() && !name_char(#[trigger] name[i]) {
            SlashView::NotCommand
        } else {
            match slash_command(name) {
                Some(_) => if text::is_blank(arguments) {
                    SlashView::Known(slash_entry(name))
                } else {
                    SlashView::ArgumentsNotSupported(name)
                },
                None => SlashView::Unknown(name),
            }
        }
    }
}

proof fn lemma_word_within(s: Seq<char>)
    ensures
        word_len(s) <= s.len(),
    decreases s.len(),
{
    if s.len() > 0 {
        lemma_word_within(s.drop_first());
    }
}

proof fn lemma_word_len(s: Seq<char>, i: int)
    requires
        0 <= i <= s.len(),
        forall|k: int| 0 <= k < i ==> !text::is_space(#[trigger] s[k]),
        i == s.len() || text::is_space(s[i]),
    ensures
        word_len(s) == i,
    decreases i,
{
    if i > 0 {
        assert(!text::is_space(s[0]));
        assert forall|k: int| 0 <= k < i - 1 implies !text::is_space(
            #[trigger] s.drop_first()[k],
        ) by {
            assert(s.drop_first()[k] == s[k + 1]);
        }
        lemma_word_len(s.drop_first(), i - 1);
    }
}

/// A name of the registry is made of the characters of a name.
proof fn lemma_names_are_words(name: Seq<char>)
    requires
        slash_command(name) is Some,
    ensures
        word_len(name) == name.len(),
        forall|i: int| 0 <= i < name.len() ==> name_char(#[trigger] name[i]),
{
    reveal_strlit("help");
    reveal_strlit("stop");
    reveal_strlit("status");
    reveal_strlit("save");
    lemma_word_len(name, name.len() as int);
}

/// Nothing that can be trimmed is left behind the end of a text.
proof fn lemma_trimmed_end(s: Seq<char>)
    ensures
        text::trim_end(s).len() > 0 ==> !text::is_space(text::trim_end(s).last()),
        text::trim_end(s).len() <= s.len(),
        text::trim_end(s).len() > 0 ==> text::trim_end(s)[0] == s[0],
    decreases s.len(),
{
    if s.len() > 0 && text::is_space(s.last()) {
        lemma_trimmed_end(s.drop_last());
    }
}

/// A line is a command exactly when it is the command's slash name behind a slash, with
/// nothing but white space after it.
pub proof fn commands_are_known_by_name(input: Seq<char>, i: int)
    requires
        0 <= i < registry().len(),
    ensures
        slash_parse(input) == SlashView::Known(registry()[i]) <==> {
            &&& !input.contains('\n')
            &&& !input.contains('\r')
            &&& registry()[i].slash_name matches Some(name) && text::trim_end(input) == seq!['/']
                + name
        },
{
    let line = text::trim_end(input);
    lemma_trimmed_end(input);
    if line.len() > 0 && line[0] == '/' {
        let rest = line.drop_first();
        let name = rest.take(word_len(rest) as int);
        let arguments = rest.skip(word_len(rest) as int);
        lemma_word_within(rest);
        if slash_parse(input) is Known {
            slash_commands_are_registered(name);
            let c = slash_command(name)->0;
            let k = choose|k: int|
                0 <= k < registry().len() && has_name(#[trigger] registry()[k], name)
                    && registry()[k].command == c;
            lemma_slash_entry(name, k);
            if arguments.len() > 0 {
                assert(arguments.last() == line.last());
                assert(text::is_space(arguments[arguments.len() - 1]));
            }
            assert(rest =~= name);
            assert(line =~= seq!['/'] + name);
            if registry()[i].slash_name is Some && line == seq!['/'] + registry()[i].slash_name->0 {
                let n = registry()[i].slash_name->0;
                assert((seq!['/'] + n).drop_first() =~= n);
                lemma_slash_entry(n, i);
            }
        }
    }
    if registry()[i].slash_name is Some && line == seq!['/'] + registry()[i].slash_name->0 {
        let n = registry()[i].slash_name->0;
        let rest = line.drop_first();
        assert(rest =~= n);
        lemma_slash_entry(n, i);
        lemma_names_are_words(n);
        assert(rest.take(word_len(rest) as int) =~= n);
        assert(rest.skip(word_len(rest) as int).len() == 0);
    }
}

/// A line that begins with white space is no command, so a space sends it as it is.
pub proof fn indented_lines_are_no_commands(input: Seq<char>)
    requires
        input.len() > 0,
        text::is_space(input[0]),
    ensures
        slash_parse(input) is NotCommand,
{
    lemma_trimmed_end(input);
}

/// What a line of input is, taken as a slash command. A command that is known is the one that
/// the registry lists under the name that was typed.
pub fn match_slash_input(input: &str) -> (r: SlashCommandMatch<'_>)
    ensures
        slash_view(r) == slash_parse(input@),
        r matches SlashCommandMatch::Known(c) ==> {
            &&& registry().contains(c@)
            &&& c.name() matches Some(name) && text::trim_end(input@) == seq!['/'] + name
        },
{
    let v = text::chars_of(input);
    let mut i: usize = 0;
    while i < v.len()
        invariant
            i <= v@.len(),
            v@ == input@,
            forall|k: int| 0 <= k < i ==> v@[k] != '\n' && v@[k] != '\r',
        decreases v@.len() - i,
    {
        if v[i] == '\n' || v[i] == '\r' {
            assert(input@[i as int] == v@[i as int]);
            return SlashCommandMatch::NotCommand;
        }
        i += 1;
    }
    let end: usize = text::trimmed_end(&v);
    let ghost line = text::trim_end(input@);
    if end == 0 || v[0] != '/' {
        return SlashCommandMatch::NotCommand;
    }
    let ghost rest = line.drop_first();
    let mut stop: usize = 1;
    let mut plain = true;
    while stop < end && !text::is_whitespace(v[stop])
        invariant
            1 <= stop <= end <= v@.len(),
            line == v@.take(end as int),
            rest == line.drop_first(),
            forall|k: int| 0 <= k < stop - 1 ==> !text::is_space(#[trigger] rest[k]),
            plain == !(exists|k: int| 0 <= k < stop - 1 && !name_char(#[trigger] rest[k])),
        decreases end - stop,
    {
        let c: char = v[stop];
        proof {
            assert(rest[stop - 1] == c);
        }
        if !(('a' <= c && c <= 'z') || ('A' <= c && c <= 'Z') || ('0' <= c && c <= '9') || c == '-'
            || c == '_') {
            plain = false;
        }
        stop += 1;
    }
    let ghost name = rest.take(stop - 1);
    let ghost arguments = rest.skip(stop - 1);
    proof {
        if stop < end {
            assert(rest[stop - 1] == v@[stop as int]);
        }
        lemma_word_len(rest, stop - 1);
        assert(plain == !(exists|k: int| 0 <= k < name.len() && !name_char(#[trigger] name[k]))) by {
            if exists|k: int| 0 <= k < stop - 1 && !name_char(#[trigger] rest[k]) {
                let k = choose|k: int| 0 <= k < stop - 1 && !name_char(#[trigger] rest[k]);
                assert(name[k] == rest[k]);
            }
            if exists|k: int| 0 <= k < name.len() && !name_char(#[trigger] name[k]) {
                let k = choose|k: int| 0 <= k < name.len() && !name_char(#[trigger] name[k]);
                assert(name[k] == rest[k]);
            }
        }
    }
    if !plain {
        return SlashCommandMatch::NotCommand;
    }
    let name_text = input.substring_char(1, stop);
    proof {
        assert(name_text@ =~= name);
    }
    let rest_text = text::text_of(&v, stop, end);
    proof {
        assert(rest_text@ =~= arguments);
    }
    match find_slash_exact(name_text) {
        Some(command) => {
            if text::blank(rest_text.as_str()) {
                proof {
                    let i = choose|i: int|
                        0 <= i < registry().len() && registry()[i] == command@;
                    commands_are_known_by_name(input@, i);
                }
                SlashCommandMatch::Known(command)
            } else {
                SlashCommandMatch::ArgumentsNotSupported(name_text)
            }
        },
        None => SlashCommandMatch::Unknown(name_text),
    }
}

/// The keys that the help names, as mathematical values.
pub struct HelpKeysView {
    pub submit: Option<Seq<char>>,
    pub backlog: Option<Seq<char>>,
    pub commands: Option<Seq<char>>,
    pub stop: Option<Seq<char>>,
}

impl<'a> View for HelpKeys<'a> {
    type V = HelpKeysView;

    open spec fn view(&self) -> HelpKeysView {
        HelpKeysView {
            submit: provider_overlay::opt_str(self.submit),
            backlog: provider_overlay::opt_str(self.backlog),
            commands: provider_overlay::opt_str(self.commands),
            stop: provider_overlay::opt_str(self.stop),
        }
    }
}

/// The keys that the help names; `None` where an action has no key.
pub struct HelpKeys<'a> {
    pub submit: Option<&'a str>,
    pub backlog: Option<&'a str>,
    pub commands: Option<&'a str>,
    pub stop: Option<&'a str>,
}

pub open spec fn key_text(label: Option<Seq<char>>) -> Seq<char> {
    match label {
        Some(l) => l,
        None => "Unbound"@,
    }
}

fn binding_label<'a>(label: Option<&'a str>) -> (r: &'a str)
    ensures
        r@ == key_text(provider_overlay::opt_str(label)),
{
    match label {
        Some(l) => l,
        None => "Unbound",
    }
}

/// The description that the registry gives a slash name.
pub open spec fn description_of(name: Seq<char>) -> Seq<char> {
    if name == "help"@ {
        "List slash commands and essential keys"@
    } else if name == "stop"@ {
        "Interrupt the active model or tool run"@
    } else if name == "status"@ {
        "Show run, model, usage, plan, and workspace state"@
    } else {
        "Save the session at a stable boundary"@
    }
}

pub open spec fn help_line(name: Seq<char>) -> Seq<char> {
    "/"@ + text::padded(name, 8) + " "@ + description_of(name)
}

/// The help text: each slash command with its description, then the essential keys.
pub open spec fn help_lines(keys: HelpKeysView) -> Seq<Seq<char>> {
    seq![
        help_line("help"@),
        help_line("save"@),
        help_line("status"@),
        help_line("stop"@),
        Seq::empty(),
        "Submit "@ + key_text(keys.submit) + "  Backlog "@ + key_text(keys.backlog)
            + "  Commands "@ + key_text(keys.commands) + ("  Stop "@ + key_text(keys.stop)),
    ]
}

/// The help text.
pub fn slash_help_body(keys: HelpKeys<'_>) -> (r: String)
    ensures
        r@ == text::join(help_lines(keys@), seq!['\n']),
{
    let commands = slash_commands();
    let ghost names = slash_names();
    let ghost goal = help_lines(keys@);
    let mut lines: Vec<String> = Vec::new();
    let mut i: usize = 0;
    proof {
        assert(text::views(lines@) =~= goal.take(0));
    }
    while i < commands.len()
        invariant
            i <= commands@.len(),
            are_named(commands@, names),
            names == slash_names(),
            goal == help_lines(keys@),
            text::views(lines@) == goal.take(i as int),
        decreases commands@.len() - i,
    {
        let ghost before = lines@;
        proof {
            lemma_descriptions(commands@[i as int], names[i as int]);
        }
        match (commands[i].slash_name(), commands[i].slash_description()) {
            (Some(name), Some(description)) => {
                let line = text::cat4("/", text::pad_right(name, 8).as_str(), " ", description);
                lines.push(line);
                proof {
                    assert(line@ == help_line(names[i as int]));
                    assert(goal[i as int] == help_line(names[i as int]));
                    assert(text::views(lines@) =~= text::views(before).push(line@));
                    assert(goal.take(i + 1) =~= goal.take(i as int).push(goal[i as int]));
                }
            },
            _ => {},
        }
        i += 1;
    }
    let ghost before = lines@;
    lines.push(String::new());
    let last = text::cat7(
        "Submit ",
        binding_label(keys.submit),
        "  Backlog ",
        binding_label(keys.backlog),
        "  Commands ",
        binding_label(keys.commands),
        text::cat2("  Stop ", binding_label(keys.stop)).as_str(),
    );
    lines.push(last);
    let newline = "\n";
    proof {
        reveal_strlit("\n");
        assert(newline@ =~= seq!['\n']);
        assert(text::views(lines@) =~= text::views(before).push(Seq::empty()).push(last@));
        assert(text::views(lines@) =~= goal);
    }
    text::join_texts(&lines, newline)
}

proof fn lemma_descriptions(c: CommandSpec, name: Seq<char>)
    requires
        c.name() == Some(name),
        c.description() is Some,
        registry().contains(c@),
        slash_command(name) is Some,
    ensures
        c.description()->0 == description_of(name),
{
    lemma_names();
    let i = choose|i: int| 0 <= i < registry().len() && registry()[i] == c@;
}

/// The names that begin with a text are all of those that do, in their order.
pub proof fn prefixes_pick_the_names_that_begin_so(names: Seq<Seq<char>>, query: Seq<char>)
    ensures
        with_prefix(names, query) == names.filter(|n: Seq<char>| query.is_prefix_of(n)),
    decreases names.len(),
{
    let picks = |n: Seq<char>| query.is_prefix_of(n);
    reveal(Seq::filter);
    if names.len() > 0 {
        prefixes_pick_the_names_that_begin_so(names.drop_last(), query);
        assert(names.drop_last().filter(|n: Seq<char>| query.is_prefix_of(n))
            == names.drop_last().filter(picks));
        assert(names.filter(|n: Seq<char>| query.is_prefix_of(n)) == names.filter(picks));
    }
}

/// A line behind a slash whose first word is made of the characters of a name is a command: it
/// is unknown exactly when no command has that name, and where one has it, anything behind the
/// name but white space is an argument, which no command takes.
pub proof fn lines_behind_a_slash_are_commands(input: Seq<char>, name: Seq<char>, rest: Seq<char>)
    requires
        !input.contains('\n'),
        !input.contains('\r'),
        text::trim_end(input) == seq!['/'] + name + rest,
        forall|i: int| 0 <= i < name.len() ==> name_char(#[trigger] name[i]) && !text::is_space(name[i]),
        rest.len() == 0 || text::is_space(rest[0]),
    ensures
        slash_parse(input) == SlashView::Unknown(name) <==> !slash_names().contains(name),
        slash_names().contains(name) && rest.len() > 0 ==> slash_parse(input)
            == SlashView::ArgumentsNotSupported(name),
        slash_names().contains(name) && rest.len() == 0 ==> slash_parse(input) == SlashView::Known(
            slash_entry(name),
        ),
        slash_parse(input) !is NotCommand,
{
    let line = text::trim_end(input);
    let behind = line.drop_first();
    assert(behind =~= name + rest);
    assert forall|k: int| 0 <= k < name.len() implies !text::is_space(#[trigger] behind[k]) by {
        assert(behind[k] == name[k]);
    }
    if rest.len() > 0 {
        assert(behind[name.len() as int] == rest[0]);
    }
    lemma_word_len(behind, name.len() as int);
    assert(behind.take(word_len(behind) as int) =~= name);
    assert(behind.skip(word_len(behind) as int) =~= rest);
    slash_names_are_sorted_and_complete();
    lemma_trimmed_end(input);
    if rest.len() > 0 {
        assert(line.last() == rest.last());
        assert(!text::is_space(rest[rest.len() - 1]));
        assert(!text::is_blank(rest));
    }
}

/// The help tells of every slash command what the list of commands says of it.
pub proof fn the_help_tells_of_every_slash_command(i: int, name: Seq<char>, keys: HelpKeysView)
    requires
        0 <= i < registry().len(),
        registry()[i].slash_name == Some(name),
    ensures
        registry()[i].slash_description == Some(description_of(name)),
        exists|k: int| 0 <= k < help_lines(keys).len() && #[trigger] help_lines(keys)[k] == "/"@
            + text::padded(name, 8) + " "@ + description_of(name),
{
    lemma_names();
    slash_names_are_sorted_and_complete();
    slash_commands_are_registered(name);
    assert(slash_command(name) is Some) by {
        if slash_command(name) is None {
            assert(!has_name(registry()[i], name));
        }
    }
    let lines = help_lines(keys);
    assert(lines[0] == help_line("help"@));
    assert(lines[1] == help_line("save"@));
    assert(lines[2] == help_line("status"@));
    assert(lines[3] == help_line("stop"@));
    assert(has_name(registry()[3], "help"@));
    assert(has_name(registry()[8], "stop"@));
    assert(has_name(registry()[11], "status"@));
    assert(has_name(registry()[12], "save"@));
    if name == "help"@ {
        slash_names_are_unique(i, 3, name);
    } else if name == "stop"@ {
        slash_names_are_unique(i, 8, name);
    } else if name == "status"@ {
        slash_names_are_unique(i, 11, name);
    } else {
        slash_names_are_unique(i, 12, name);
    }
}

/// No command is listed twice.
pub proof fn commands_are_listed_once(i: int, j: int)
    requires
        0 <= i < registry().len(),
        0 <= j < registry().len(),
        registry()[i].command == registry()[j].command,
    ensures
        i == j,
{
}

} // verus!
