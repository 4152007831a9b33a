use merry_tui::command::PaletteCommand;
use merry_tui::completion::{
    active_completion_token, fuzzy_path_match, CompletionSources, DirEntry, EntryKind, MenuStep,
    PathScan, ScanStep, SkillCompletion,
};
use merry_tui::controller::{
    apply_clipboard_image_completion, cancel_effect, commit_effect, handle_key_event,
    handle_paste_event, model_commit_effect, preferences_effect, project_local_effect,
    run_palette_command, submission_effect, Cockpit, KeyLabels, RunStatus,
};
use merry_tui::dispatch::dispatch_effect;
use merry_tui::effects::{ControllerEffect, NextStep, Outcome, StateQuestion, StateRequest};
use merry_tui::event_loop::{
    drain_background_tasks, loop_step, shutdown_result, LoopAction, LoopEvent, LoopState,
    PermissionQuestion,
};
use merry_tui::input::{DraftImage, TextInput, TuiSubmission};
use merry_tui::key::{KeyCode, KeyEvent, KeyModifiers};
use merry_tui::keymap::Keymap;
use merry_tui::layout::Position;
use merry_tui::mouse::{handle_mouse_input, mouse_down_effect, selection_effect, MouseInput, MouseStep, TimelineMouseDown};
use merry_tui::overlay::{InputVerdicts, Overlay, PlanPaletteContext, SettingItem};
use merry_tui::plan::PlanUiState;
use merry_tui::provider_form::{ManagedProviderKind, ProviderFormValues};
use merry_tui::provider_overlay::{
    ConfiguredProviderKind, ModelPickerTarget, ProviderConfigSource, ProviderListItem,
    ProviderOverlayAction,
};
use merry_tui::providers::{resume_notice, Discovery};
use merry_tui::runner::{RunAction, ScriptRun};
use merry_tui::script::{fail, Call, Ending, Failure, FailureOutcome, OnFailure, Script};
use merry_tui::setup::{
    open_manager_or_form, setup_key, setup_script, setup_start, SetupStep,
};
use merry_tui::startup::{
    startup_step, LaunchMode, SessionPickerSelection, StartupAction, StartupEvent, StartupState,
};
use merry_tui::timeline::{QueuedInputLane, TimelineItem};

fn key(code: KeyCode) -> KeyEvent {
    KeyEvent::new(code, KeyModifiers::none())
}

fn control(letter: char) -> KeyEvent {
    KeyEvent::new(KeyCode::Char(letter), KeyModifiers::control())
}

fn cockpit() -> Cockpit {
    Cockpit {
        overlay: None,
        plan: PlanUiState::default(),
        completion_menu: None,
        keymap: Keymap::default(),
        input: TextInput::default(),
        items: Vec::new(),
        run: RunStatus {
            active: false,
            can_interrupt: false,
            interrupting: false,
            reviewing: false,
            text_selected: false,
        },
        key_labels: KeyLabels {
            submit: None,
            backlog: None,
            commands: None,
            stop: None,
        },
    }
}

fn verdicts() -> InputVerdicts {
    InputVerdicts {
        model_name_is_valid: true,
        effort_refusal: None,
    }
}

fn press(event: KeyEvent, state: &mut Cockpit) -> Outcome {
    handle_key_event(event, state, verdicts())
}

fn submission(text: &str, history: &str) -> TuiSubmission {
    let mut input = TextInput::default();
    input.insert_str(text);
    let mut submission = input.submission().expect("a message");
    submission.history_text = history.to_owned();
    submission
}

#[test]
fn letters_go_into_the_input() {
    let mut state = cockpit();
    let outcome = press(key(KeyCode::Char('x')), &mut state);
    assert_eq!(
        outcome.requests,
        vec![
            StateRequest::ClearTextSelection,
            StateRequest::InputKey(key(KeyCode::Char('x'))),
        ]
    );
    assert!(outcome.next == NextStep::Effect(ControllerEffect::Nothing));
}

#[test]
fn enter_takes_the_input_for_a_message() {
    let mut state = cockpit();
    state.input.insert_str("hello");
    let outcome = press(key(KeyCode::Enter), &mut state);
    assert!(outcome.next == NextStep::Ask(StateQuestion::TakeInput(QueuedInputLane::Next)));
    assert!(
        submission_effect(QueuedInputLane::Next, Some(submission("hello", "hello")))
            == ControllerEffect::SubmitNext(submission("hello", "hello"))
    );
    assert!(
        submission_effect(QueuedInputLane::Backlog, Some(submission("hello", "hello")))
            == ControllerEffect::SubmitBacklog(submission("hello", "hello"))
    );
    assert!(submission_effect(QueuedInputLane::Next, None) == ControllerEffect::Nothing);
}

#[test]
fn known_commands_run_instead_of_being_sent() {
    let mut state = cockpit();
    state.input.insert_str("/status");
    let outcome = press(key(KeyCode::Enter), &mut state);
    assert!(outcome.requests.contains(&StateRequest::PushSessionStatus));
    assert!(outcome.requests.contains(&StateRequest::ClearInput));
    assert!(!matches!(outcome.next, NextStep::Ask(_)));

    let mut state = cockpit();
    state.input.insert_str("/nothing");
    let outcome = press(key(KeyCode::Enter), &mut state);
    assert!(!outcome.requests.contains(&StateRequest::ClearInput));
    assert!(outcome.requests.iter().any(|request| matches!(
        request,
        StateRequest::PushTimelineItem(TimelineItem::Muted { title, .. })
            if title == "Unknown command"
    )));
}

#[test]
fn overlays_take_keys_before_the_input() {
    let mut state = cockpit();
    state.overlay = Some(Overlay::command_palette_for_plan(
        PlanPaletteContext::default(),
    ));
    let outcome = press(key(KeyCode::Char('x')), &mut state);
    assert!(!outcome
        .requests
        .contains(&StateRequest::InputKey(key(KeyCode::Char('x')))));
    match &state.overlay {
        Some(Overlay::CommandPalette(palette)) => assert_eq!(palette.query(), "x"),
        _ => panic!("the palette stays open"),
    }
    let closing = press(key(KeyCode::Esc), &mut state);
    assert!(closing.requests.contains(&StateRequest::CloseOverlay));
}

#[test]
fn selected_text_is_let_go_by_a_key() {
    let mut state = cockpit();
    state.run.text_selected = true;
    let outcome = press(key(KeyCode::Char('x')), &mut state);
    assert_eq!(outcome.requests[0], StateRequest::ClearTextSelection);
}

#[test]
fn sessions_are_saved_only_when_nothing_runs() {
    let mut state = cockpit();
    let idle = run_palette_command(PaletteCommand::SaveSession, &mut state);
    assert!(idle.next == NextStep::Effect(ControllerEffect::SaveSession));
    state.run.active = true;
    let busy = run_palette_command(PaletteCommand::SaveSession, &mut state);
    assert!(busy.next == NextStep::Effect(ControllerEffect::Nothing));
    assert_eq!(busy.requests.len(), 2);
}

#[test]
fn pastes_go_where_keys_go() {
    let mut state = cockpit();
    let outcome = handle_paste_event("text", &mut state);
    assert_eq!(
        outcome.requests,
        vec![
            StateRequest::ClearTextSelection,
            StateRequest::InputPaste("text".to_owned()),
        ]
    );
    state.overlay = Some(Overlay::command_palette_for_plan(
        PlanPaletteContext::default(),
    ));
    assert_eq!(
        handle_paste_event("text", &mut state).requests,
        vec![StateRequest::ClearTextSelection]
    );
}

#[test]
fn settings_are_used_or_stored() {
    assert!(
        preferences_effect(SettingItem::CodeTheme, true) == ControllerEffect::PersistPreferences
    );
    assert!(
        preferences_effect(SettingItem::DefaultModel, true)
            == ControllerEffect::ApplyRuntimePreferences
    );
    assert!(preferences_effect(SettingItem::DefaultModel, false) == ControllerEffect::Nothing);
    assert!(commit_effect(true) == ControllerEffect::ApplyRuntimePreferences);
    assert!(cancel_effect(true) == ControllerEffect::Quit);
    assert!(cancel_effect(false) == ControllerEffect::Nothing);
    assert!(model_commit_effect("  ", None) == ControllerEffect::ApplyRuntimePreferences);
    assert!(model_commit_effect("gpt", None) == ControllerEffect::Nothing);
    assert!(
        model_commit_effect("gpt", Some(("openai".to_owned(), "gpt".to_owned())))
            == ControllerEffect::OpenReasoningPicker {
                alias: "openai".to_owned(),
                model: "gpt".to_owned(),
                target: ModelPickerTarget::ActiveProvider,
            }
    );
}

#[test]
fn messages_are_echoed_at_once() {
    let mut plan = PlanUiState::default();
    let sent = ControllerEffect::SubmitNext(submission("hello", "hello"));
    assert_eq!(
        project_local_effect(&sent, &mut plan),
        vec![
            StateRequest::EchoUserInput {
                text: "hello".to_owned(),
                lane: QueuedInputLane::Next,
            },
            StateRequest::ProjectRunStart,
        ]
    );
    assert!(project_local_effect(&ControllerEffect::Quit, &mut plan).is_empty());
}

#[test]
fn pictures_go_into_the_input_or_are_told() {
    let mut input = TextInput::default();
    let image = || DraftImage::new(vec![1, 2, 3].into(), 1, 1);
    assert!(apply_clipboard_image_completion(Ok(image()), &mut input).is_none());
    assert_eq!(input.image_count(), 1);
    for _ in 1..20 {
        assert!(apply_clipboard_image_completion(Ok(image()), &mut input).is_none());
    }
    assert_eq!(
        apply_clipboard_image_completion(Ok(image()), &mut input),
        Some(TimelineItem::diagnostic(
            "clipboard_image",
            "one user message may contain at most 20 images"
        ))
    );
    assert_eq!(
        apply_clipboard_image_completion(Err("empty".to_owned()), &mut input),
        Some(TimelineItem::diagnostic("clipboard_image", "empty"))
    );
    assert_eq!(input.image_count(), 20);
}

fn steps(script: &Script) -> usize {
    script.steps.len()
}

#[test]
fn blank_messages_leave_no_history() {
    let sent = dispatch_effect(
        ControllerEffect::SubmitNext(submission("hello", "hello")),
        None,
    );
    let sent = sent.ok().expect("a script");
    assert_eq!(steps(&sent), 2);
    assert!(sent.steps[1].call == Call::RecordHistory("hello".to_owned()));

    let silent = dispatch_effect(
        ControllerEffect::SubmitNext(submission("hello", " \n")),
        None,
    );
    assert_eq!(steps(&silent.ok().expect("a script")), 1);
}

fn failure(message: &str) -> Failure {
    Failure {
        message: message.to_owned(),
        read_only: false,
        address: "http://localhost".to_owned(),
    }
}

#[test]
fn failures_are_told_as_their_rule_says() {
    let mut warned = false;
    let once = OnFailure::DiagnosticOnce("Input history not saved", "kept in memory");
    assert_eq!(
        fail(once, failure("x"), &mut warned),
        FailureOutcome::Tell(TimelineItem::diagnostic(
            "Input history not saved",
            "kept in memory"
        ))
    );
    assert!(warned);
    assert_eq!(fail(once, failure("x"), &mut warned), FailureOutcome::Stop);

    let told = |rule: OnFailure| fail(rule, failure("x"), &mut false);
    assert_eq!(told(OnFailure::Ignore), FailureOutcome::Stop);
    assert_eq!(told(OnFailure::Fatal), FailureOutcome::Fatal("x".to_owned()));
    assert_eq!(
        told(OnFailure::FatalWith("y")),
        FailureOutcome::Fatal("y".to_owned())
    );
    assert_eq!(
        told(OnFailure::OverlayError),
        FailureOutcome::OverlayError("x".to_owned())
    );
    assert_eq!(
        told(OnFailure::OverlayErrorAfter("a: ")),
        FailureOutcome::OverlayError("a: x".to_owned())
    );
    assert_eq!(
        told(OnFailure::OverlayErrorInstead("a")),
        FailureOutcome::OverlayError("a".to_owned())
    );
    assert_eq!(
        told(OnFailure::Remember("a: ")),
        FailureOutcome::GoOn("a: x".to_owned())
    );
    assert_eq!(
        told(OnFailure::ErrorDialog("T")),
        FailureOutcome::ErrorDialog {
            title: "T".to_owned(),
            message: "x".to_owned(),
        }
    );
    assert_eq!(
        told(OnFailure::DiagnosticWithAddress("T")),
        FailureOutcome::Tell(TimelineItem::diagnostic(
            "T",
            "x. Open this URL manually: http://localhost"
        ))
    );
    let read_only = Failure {
        read_only: true,
        ..failure("x")
    };
    assert_eq!(
        fail(OnFailure::ReadOnlyDialog, read_only, &mut false),
        FailureOutcome::InfoDialog {
            title: "Read-only provider".to_owned(),
            message: "x".to_owned(),
        }
    );
}

#[test]
fn the_provider_in_use_is_not_deleted() {
    let refused = dispatch_effect(
        ControllerEffect::DeleteProvider("openai".to_owned()),
        Some("openai"),
    )
    .ok()
    .expect("a script");
    assert!(refused
        .steps
        .iter()
        .all(|step| step.call != Call::DeleteProvider("openai".to_owned())));
    assert!(refused.steps[1].call
        == Call::ShowOverlayError("switch provider before deleting the active one"));

    let deleted = dispatch_effect(
        ControllerEffect::DeleteProvider("openai".to_owned()),
        Some("other"),
    )
    .ok()
    .expect("a script");
    assert!(deleted
        .steps
        .iter()
        .any(|step| step.call == Call::DeleteProvider("openai".to_owned())));
}

#[test]
fn choices_are_used_before_they_are_stored() {
    let script = dispatch_effect(
        ControllerEffect::SelectProvider {
            alias: "openai".to_owned(),
        },
        None,
    )
    .ok()
    .expect("a script");
    let applied = script
        .steps
        .iter()
        .position(|step| step.call == Call::ApplyPreferences)
        .expect("the choice is used");
    let stored = script
        .steps
        .iter()
        .position(|step| step.call == Call::StorePreferences)
        .expect("the choice is stored");
    assert!(applied < stored);
    assert!(script.ending == Ending::Continue);
}

fn values() -> ProviderFormValues {
    ProviderFormValues {
        display_name: "OpenAI".to_owned(),
        alias: "openai".to_owned(),
        kind: ManagedProviderKind::OpenAiCompatible,
        protocol: None,
        base_url: "https://example.com".to_owned(),
        api_key: "key".to_owned(),
        model: "gpt".to_owned(),
        reasoning_effort: "high".to_owned(),
    }
}

#[test]
fn updating_a_provider_leaves_the_preferences_alone() {
    let script = dispatch_effect(
        ControllerEffect::UpdateProvider {
            original_alias: "openai".to_owned(),
            values: values(),
        },
        Some("openai"),
    )
    .ok()
    .expect("a script");
    assert!(script
        .steps
        .iter()
        .all(|step| step.call != Call::StorePreferences
            && !matches!(step.call, Call::ChangePreferences(_))));
}

#[test]
fn setups_store_what_they_configure() {
    let script = setup_script(ProviderOverlayAction::SaveProvider(values()));
    let stored = script
        .steps
        .iter()
        .any(|step| step.call == Call::StorePreferences);
    assert_eq!(stored, script.ending == Ending::Configured);
    assert!(stored);
    assert!(setup_script(ProviderOverlayAction::OpenProviderForm).ending == Ending::Continue);
}

#[test]
fn setups_can_be_left() {
    let mut overlay = Overlay::settings();
    assert!(setup_key(control('q'), &mut overlay, verdicts()) == SetupStep::Leave);
    assert!(setup_key(key(KeyCode::Esc), &mut overlay, verdicts()) == SetupStep::Leave);
}

#[test]
fn sessions_begin_once_a_provider_is_known() {
    let (state, action) = startup_step(
        StartupState::Launched(LaunchMode::New),
        StartupEvent::Configured(false),
    );
    assert_eq!(state, StartupState::SettingUp(LaunchMode::New));
    assert_eq!(action, StartupAction::RunSetup);

    let (state, action) = startup_step(state, StartupEvent::SetupEnded(true));
    assert_eq!(state, StartupState::Starting);
    assert_eq!(
        action,
        StartupAction::StartSession(SessionPickerSelection::New)
    );

    let (_, action) = startup_step(
        state,
        StartupEvent::Started {
            resumed: true,
            transcript_is_empty: false,
        },
    );
    assert_eq!(action, StartupAction::ReplayTranscript);

    let (state, action) = startup_step(
        StartupState::Launched(LaunchMode::ResumePicker),
        StartupEvent::Configured(true),
    );
    assert_eq!(action, StartupAction::PickSession);
    let (state, action) = startup_step(
        state,
        StartupEvent::Picked(SessionPickerSelection::Quit),
    );
    assert_eq!(state, StartupState::Left);
    assert_eq!(action, StartupAction::Leave);
    let (state, action) = startup_step(state, StartupEvent::Configured(true));
    assert_eq!((state, action), (StartupState::Left, StartupAction::Pass));
}

#[test]
fn the_loop_acts_on_what_happens() {
    let mut state = LoopState::new();
    assert_eq!(loop_step(&mut state, LoopEvent::Resized), LoopAction::Draw);
    assert_eq!(
        loop_step(&mut state, LoopEvent::StreamClosed),
        LoopAction::Leave
    );
    assert_eq!(
        loop_step(&mut state, LoopEvent::TaskEnded(Some("broken".to_owned()))),
        LoopAction::Fail("broken".to_owned())
    );
    assert_eq!(
        loop_step(&mut state, LoopEvent::ToolInvocations(2)),
        LoopAction::Fail(
            "Rust TUI received 2 host tool invocations, but its coding profile requires \
             runtime-owned tools"
                .to_owned()
        )
    );
    let question = || PermissionQuestion {
        approval_id: "a".to_owned(),
        body: "b".to_owned(),
    };
    assert_eq!(
        loop_step(&mut state, LoopEvent::PermissionAsked(Some(question()))),
        LoopAction::AskPermission(question())
    );
}

#[test]
fn ended_sources_are_not_listened_to() {
    let mut state = LoopState::new();
    loop_step(&mut state, LoopEvent::ActivityClosed);
    loop_step(&mut state, LoopEvent::PermissionsClosed);
    loop_step(&mut state, LoopEvent::ActivityChanged);
    assert!(!state.subagent_activity_open);
    assert!(!state.permission_requests_open);
}

#[test]
fn late_models_are_not_shown() {
    let mut discovery = Discovery::new();
    assert!(!discovery.start());
    let first = discovery.generation;
    assert!(discovery.start());
    assert!(!discovery.accepts(first));
    assert!(discovery.accepts(discovery.generation));
    assert!(discovery.cancel());
    assert!(!discovery.cancel());

    let mut state = LoopState::new();
    state.discovery = discovery;
    assert_eq!(
        loop_step(&mut state, LoopEvent::ModelsFound(first)),
        LoopAction::Wait
    );
    assert_eq!(
        loop_step(&mut state, LoopEvent::ModelsFound(discovery.generation)),
        LoopAction::ShowModels
    );
}

#[test]
fn programs_end_with_their_first_error() {
    assert_eq!(drain_background_tasks(vec![None, None]), Ok(()));
    assert_eq!(
        drain_background_tasks(vec![None, Some("a".to_owned()), Some("b".to_owned())]),
        Err("a".to_owned())
    );
    let broken = |words: &str| Err::<(), String>(words.to_owned());
    assert_eq!(
        shutdown_result(Ok(()), broken("session"), broken("tasks"), Ok(())),
        broken("session")
    );
    assert_eq!(
        shutdown_result(broken("run"), broken("session"), Ok(()), Ok(())),
        broken("run")
    );
    assert_eq!(
        shutdown_result(Ok(()), Ok(()), Ok(()), broken("web")),
        broken("web")
    );
}

#[test]
fn resumed_sessions_are_told_where_nothing_was_said() {
    assert!(resume_notice("s1", true).is_some());
    assert!(resume_notice("s1", false).is_none());
}

#[test]
fn presses_copy_what_is_under_them() {
    let (effect, _) = mouse_down_effect(TimelineMouseDown::Copy("x".to_owned()));
    assert!(effect == ControllerEffect::CopyText("x".to_owned()));
    let (effect, _) = mouse_down_effect(TimelineMouseDown::CopyTooLarge);
    assert!(effect == ControllerEffect::CopyTextTooLarge);
    assert!(selection_effect(Ok(None)) == ControllerEffect::Nothing);
    assert!(
        selection_effect(Ok(Some("x".to_owned()))) == ControllerEffect::CopyText("x".to_owned())
    );
    let position = Position { x: 1, y: 1 };
    assert_eq!(
        handle_mouse_input(MouseInput::Down(position), &cockpit()),
        MouseStep::Press(position)
    );
}

#[test]
fn tokens_are_completed_where_the_cursor_is() {
    let token = active_completion_token("see @src", 8).expect("a token");
    assert_eq!(token.trigger, '@');
    assert_eq!((token.start, token.end), (4, 8));
    assert_eq!(token.query, "src");
    assert!(active_completion_token("a@b", 3).is_none());
}

#[test]
fn skills_are_offered_by_their_name() {
    let sources = CompletionSources::new(vec![SkillCompletion {
        name: "review".to_owned(),
        description: "Review a change".to_owned(),
    }]);
    let items = sources.skill_items("rev");
    assert_eq!(items.len(), 1);
    assert_eq!(items[0].value(), "review");
    assert_eq!(items[0].detail(), Some("Review a change"));
    assert!(sources.skill_items("zzz").is_empty());
}

#[test]
fn menus_step_down_and_back() {
    let sources = CompletionSources::from_skill_names(&vec!["one".to_owned(), "two".to_owned()]);
    let MenuStep::Show(Some(mut menu)) = sources.menu_for_input("$", 1, None) else {
        panic!("a menu of skills");
    };
    assert_eq!(menu.items().len(), 2);
    menu.select_next();
    assert_eq!(menu.selected_index(), 1);
    menu.select_previous();
    assert_eq!(menu.selected_index(), 0);
}

#[test]
fn searches_for_paths_skip_what_does_not_match() {
    assert!(fuzzy_path_match("src/lib.rs", "lib"));
    assert!(!fuzzy_path_match("src/lib.rs", "zzz"));

    let MenuStep::FindPaths(token) =
        CompletionSources::new(Vec::new()).menu_for_input("@lib", 4, None)
    else {
        panic!("a search for paths");
    };
    let mut scan = PathScan::new(&token.query);
    let entry = |name: &str, kind: EntryKind| DirEntry {
        name: name.to_owned(),
        kind,
    };
    scan.enter(
        String::new(),
        vec![
            entry("src", EntryKind::Directory),
            entry("README.md", EntryKind::Other),
        ],
    );
    let mut reads = 0;
    loop {
        match scan.step() {
            ScanStep::Read(dir) => {
                reads += 1;
                assert_eq!(dir.trim_end_matches('/'), "src");
                scan.enter(dir, vec![entry("lib.rs", EntryKind::Other)]);
            }
            ScanStep::Continue => {}
            ScanStep::Done => break,
        }
        assert!(reads < 5);
    }
    let menu = scan.menu(token).expect("a path was found");
    assert_eq!(menu.items().len(), 1);
    assert!(menu.items()[0].value().ends_with("src/lib.rs"));
}

fn saving() -> Script {
    Script::new()
        .sure(Call::CancelDiscovery)
        .then_step(Call::StorePreferences, OnFailure::Remember("not stored: "))
        .then_step(Call::SaveProvider, OnFailure::OverlayError)
        .ending(Ending::Configured)
}

#[test]
fn scripts_are_performed_step_by_step() {
    let mut run = ScriptRun::new(saving());
    assert!(run.next() == RunAction::Perform(Call::CancelDiscovery));
    assert!(run.next() == RunAction::Perform(Call::StorePreferences));
    assert!(run.next() == RunAction::Perform(Call::SaveProvider));
    assert!(
        run.next()
            == RunAction::Finish {
                error: None,
                ending: Some(Ending::Configured),
            }
    );
}

#[test]
fn failed_scripts_stop_or_remember() {
    let mut run = ScriptRun::new(saving());
    run.next();
    run.next();
    assert!(run.failed(failure("disk"), &mut false).is_none());
    assert!(run.next() == RunAction::Perform(Call::SaveProvider));
    assert!(
        run.next()
            == RunAction::Finish {
                error: Some("not stored: disk".to_owned()),
                ending: Some(Ending::Configured),
            }
    );

    let mut broken = ScriptRun::new(saving());
    broken.next();
    assert_eq!(
        broken.failed(failure("gone"), &mut false),
        Some(FailureOutcome::Fatal("gone".to_owned()))
    );
    assert!(
        broken.next()
            == RunAction::Finish {
                error: None,
                ending: None,
            }
    );
}

#[test]
fn the_setup_opens_with_the_providers_or_with_a_form() {
    assert!(setup_start() == Script::new().sure(Call::OpenManagerOrForm));
    match open_manager_or_form(Vec::new(), None, "provider".to_owned()) {
        Overlay::ProviderForm(_) => {}
        _ => panic!("there is no provider to list"),
    }
    let one = ProviderListItem::new(
        "openai",
        "OpenAI",
        ConfiguredProviderKind::Anthropic,
        ProviderConfigSource::Managed,
        None,
        None,
    );
    match open_manager_or_form(vec![one], Some("openai"), "provider".to_owned()) {
        Overlay::ProviderManager(_) => {}
        _ => panic!("there is a provider to list"),
    }
}
