use merry_tui::completion::{CompletionSources, MenuStep, SkillCompletion};
use merry_tui::composer::{completion_detail_width, completion_lines};
use merry_tui::key::{KeyCode, KeyEvent, KeyModifiers};
use merry_tui::layout::{
    bordered_inner, desired_completion_preview_height, desired_input_region_height,
    desired_queue_preview_height, input_cursor, Position, Rect,
};
use merry_tui::overlay::{OverlayKeyResult, SettingDirection, SettingItem, SettingsOverlay};
use merry_tui::plan::PlanUiState;
use merry_tui::preferences::TuiPreferences;
use merry_tui::projector::{Projection, ProjectionContext, ToolCall, TranscriptItem, TuiProjector};
use merry_tui::provider_form::{ManagedProviderKind, ProviderDraftMode, ProviderFormValues};
use merry_tui::provider_overlay::{ProviderOverlayAction, ReasoningEffort};
use merry_tui::providers::{
    change_preferences, model_list_items, provider_discovery_draft, SavedProvider,
};
use merry_tui::render::status_style;
use merry_tui::script::PreferenceChange;
use merry_tui::timeline::{QueuedInputLane, TimelineItem};
use merry_tui::timeline_lines::expanded_timeline_lines;
use merry_tui::transcript::{
    hints_fit, local_command_lines, output_title, RenderedMarkdown, SelectionPolicy, TranscriptRow,
};
use merry_tui::ui::{Block, Line, LinePart, SemanticColor, Span, Style};

fn key(code: KeyCode) -> KeyEvent {
    KeyEvent::new(code, KeyModifiers::none())
}

fn at(item: SettingItem) -> SettingsOverlay {
    let mut settings = SettingsOverlay::default();
    while settings.selected_item() != item {
        settings.handle_key(key(KeyCode::Down));
    }
    settings
}

#[test]
fn settings_are_turned_entered_and_put_back() {
    let mut theme = at(SettingItem::CodeTheme);
    assert!(
        theme.handle_key(key(KeyCode::Left))
            == OverlayKeyResult::AdjustSetting(SettingItem::CodeTheme, SettingDirection::Previous)
    );
    assert!(
        theme.handle_key(key(KeyCode::Enter))
            == OverlayKeyResult::AdjustSetting(SettingItem::CodeTheme, SettingDirection::Next)
    );
    assert!(
        theme.handle_key(key(KeyCode::Delete))
            == OverlayKeyResult::ResetSetting(SettingItem::CodeTheme)
    );
    assert!(theme.handle_key(key(KeyCode::Esc)) == OverlayKeyResult::Back);

    let mut provider = at(SettingItem::DefaultProvider);
    for code in [KeyCode::Left, KeyCode::Right, KeyCode::Enter] {
        assert!(
            provider.handle_key(key(code))
                == OverlayKeyResult::Provider(ProviderOverlayAction::OpenProviderManager)
        );
    }
    assert!(
        at(SettingItem::KeyboardShortcuts).handle_key(key(KeyCode::Enter))
            == OverlayKeyResult::OpenShortcuts
    );
}

#[test]
fn editors_of_settings_take_the_keys() {
    let mut settings = at(SettingItem::DefaultModel);
    assert!(settings.handle_key(key(KeyCode::Enter)) == OverlayKeyResult::BeginModelEdit);
    settings.begin_model_edit("gpt".to_owned());
    assert!(settings.handle_key(key(KeyCode::Char('x'))) == OverlayKeyResult::Consumed);
    assert!(
        settings.handle_key(key(KeyCode::Enter)) == OverlayKeyResult::CommitModel("gptx".to_owned())
    );
    assert!(settings.model_editor().is_none());

    settings.begin_context_window_edit("1".to_owned());
    assert!(settings.handle_key(key(KeyCode::Esc)) == OverlayKeyResult::Consumed);
    assert!(settings.context_window_editor().is_none());

    settings.begin_reasoning_edit("low".to_owned());
    assert!(
        settings.handle_key(key(KeyCode::Enter))
            == OverlayKeyResult::CommitReasoning("low".to_owned())
    );
    settings.set_notice(Some("refused".to_owned()));
    assert_eq!(settings.notice(), Some("refused"));
}

fn saved() -> SavedProvider {
    SavedProvider {
        alias: "openai".to_owned(),
        model: "gpt".to_owned(),
        reasoning_effort: Some(ReasoningEffort {
            value: "high".to_owned(),
        }),
    }
}

#[test]
fn preferences_change_as_the_work_says() {
    let mut preferred = TuiPreferences::default();
    change_preferences(&mut preferred, PreferenceChange::UseSavedProvider, saved());
    assert_eq!(preferred.provider.as_deref(), Some("openai"));
    assert_eq!(preferred.model_for_provider("openai"), Some("gpt"));
    assert_eq!(
        preferred.reasoning_label_for_provider("openai"),
        Some("high")
    );

    change_preferences(
        &mut preferred,
        PreferenceChange::UseModel {
            alias: "other".to_owned(),
            model: "haiku".to_owned(),
        },
        saved(),
    );
    assert_eq!(preferred.provider.as_deref(), Some("other"));
    assert_eq!(preferred.model_for_provider("openai"), Some("gpt"));

    change_preferences(
        &mut preferred,
        PreferenceChange::ForgetProvider("openai".to_owned()),
        saved(),
    );
    assert_eq!(preferred.model_for_provider("openai"), None);
    assert_eq!(preferred.model_for_provider("other"), Some("haiku"));
}

fn values(api_key: &str) -> ProviderFormValues {
    ProviderFormValues {
        display_name: " OpenAI ".to_owned(),
        alias: " openai".to_owned(),
        kind: ManagedProviderKind::OpenAiCompatible,
        protocol: None,
        base_url: " https://example.com ".to_owned(),
        api_key: api_key.to_owned(),
        model: " gpt ".to_owned(),
        reasoning_effort: "high".to_owned(),
    }
}

#[test]
fn drafts_are_made_without_blanks_around() {
    let draft = values("  ").to_draft(ProviderDraftMode::Update);
    assert_eq!(draft.display_name, "OpenAI");
    assert_eq!(draft.alias, "openai");
    assert_eq!(draft.model, "gpt");
    assert_eq!(draft.api_key, None);
    assert_eq!(
        values(" k ").to_draft(ProviderDraftMode::Update).api_key,
        Some("k".to_owned())
    );
    assert_eq!(
        values(" k ").to_draft(ProviderDraftMode::Create).api_key,
        Some(" k ".to_owned())
    );
    let request = provider_discovery_draft(Some("old"), &values(""));
    assert_eq!(request.alias, "openai");
    assert_eq!(request.original_alias, Some("old".to_owned()));
    assert_eq!(request.base_url, "https://example.com");
    assert_eq!(request.api_key, None);
}

#[test]
fn models_are_listed_with_their_owner() {
    let items = model_list_items(&vec![
        ("gpt".to_owned(), Some("openai".to_owned())),
        ("other".to_owned(), None),
    ]);
    assert_eq!(items[0].id(), "gpt");
    assert_eq!(items[0].owner(), Some("openai"));
    assert_eq!(items[1].owner(), None);
}

#[test]
fn panes_wish_for_their_height() {
    assert_eq!(desired_queue_preview_height(false), 0);
    assert!(desired_queue_preview_height(true) > 0);
    assert_eq!(desired_completion_preview_height(None), 0);
    assert_eq!(desired_completion_preview_height(Some(3)), 3);
    assert_eq!(desired_completion_preview_height(Some(100)), 6);
    assert_eq!(desired_input_region_height(2), 4);
    assert_eq!(desired_input_region_height(usize::MAX), u16::MAX);
    assert_eq!(
        bordered_inner(Rect::new(1, 1, 10, 4)),
        Rect::new(2, 2, 8, 2)
    );
    assert_eq!(
        input_cursor(Rect::new(2, 2, 8, 2), 100, 1),
        Some(Position { x: 9, y: 3 })
    );
    assert_eq!(input_cursor(Rect::new(2, 2, 0, 2), 0, 0), None);
}

#[test]
fn completions_are_shown_with_what_is_said_about_them() {
    let sources = CompletionSources::new(vec![SkillCompletion {
        name: "review".to_owned(),
        description: "Review a change".to_owned(),
    }]);
    let MenuStep::Show(Some(menu)) = sources.menu_for_input("$re", 3, None) else {
        panic!("a menu of skills");
    };
    assert_eq!(menu.replacement_range(), (0, 3));
    assert!(menu.replacement_text().expect("a text").contains("review"));
    assert_eq!(completion_detail_width(&menu.items()[0], 42), Some(18));
    let lines = completion_lines(&menu, &vec!["Review".to_owned()], 42, 6);
    assert_eq!(lines.len(), 1);
    let Block::Composed(parts) = &lines[0] else {
        panic!("a composed line");
    };
    assert!(matches!(
        &parts[1],
        LinePart::Shortened { text, .. } if text.contains("review")
    ));
}

#[test]
fn tools_show_the_first_lines_of_their_output() {
    let lines = expanded_timeline_lines("Read a.rs", "one\n\ntwo", 40);
    assert_eq!(lines.len(), 3);
    assert_eq!(
        expanded_timeline_lines("Something", "one\ntwo", 40).len(),
        1
    );
}

fn context(timeline_len: usize) -> ProjectionContext {
    ProjectionContext {
        timeline_len,
        now_ms: 9,
        approval_open: false,
    }
}

#[test]
fn earlier_sessions_are_shown_again() {
    let mut plan = PlanUiState::default();
    let mut projector = TuiProjector::new();
    assert_eq!(
        projector.apply_transcript_item(
            TranscriptItem::UserMessage("hello".to_owned()),
            context(0),
            &mut plan
        ),
        vec![Projection::ConfirmOrPushUserInput {
            text: "hello".to_owned(),
            lane: QueuedInputLane::Next,
        }]
    );
    assert_eq!(
        projector.apply_transcript_item(
            TranscriptItem::AssistantText("hi".to_owned()),
            context(1),
            &mut plan
        ),
        vec![Projection::Push(TimelineItem::Assistant {
            text: "hi".to_owned()
        })]
    );
    projector.apply_transcript_item(
        TranscriptItem::ToolCall(ToolCall {
            id: "one".to_owned(),
            name: "run_process".to_owned(),
            summary: None,
            command: None,
            cwd: None,
            patch: None,
        }),
        context(2),
        &mut plan,
    );
    assert_eq!(projector.started_at("one"), None);
}

#[test]
fn local_commands_stand_under_their_title() {
    let shown = local_command_lines(
        "Trajectory opened",
        RenderedMarkdown {
            rows: vec![TranscriptRow::new(
                Line::one(Span::raw("url")),
                SelectionPolicy::Keep,
            )],
            copy_targets: Vec::new(),
        },
    );
    assert_eq!(shown.rows.len(), 2);
    assert_eq!(shown.rows[0].display.text(), "Trajectory opened");
    assert_eq!(shown.rows[1].display.text(), " url");
    assert_eq!(shown.rows[1].selection, SelectionPolicy::StripPrefix(1));
}

#[test]
fn hints_are_shown_where_they_fit() {
    assert_eq!(output_title(false, Some("Ctrl+T"), &Vec::new()), None);
    assert!(hints_fit(10, 10, 20));
    assert!(!hints_fit(10, 11, 20));
    assert_eq!(status_style(false), Style::color(SemanticColor::Muted));
    assert_eq!(
        status_style(true),
        Style::color(SemanticColor::Focus).bold()
    );
}
