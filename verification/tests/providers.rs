use merry_tui::key::{KeyCode, KeyEvent, KeyModifiers};
use merry_tui::ordered::TextSet;
use merry_tui::preferences::{preset, PRESET_COUNT};
use merry_tui::provider_form::{
    ManagedProviderKind, ProviderFormField, ProviderFormOverlay, ProviderFormSeed,
};
use merry_tui::provider_overlay::{
    ConfiguredProviderKind, ModelListItem, ModelPickerOverlay, ModelPickerTarget, OpenAiProtocol,
    ProviderConfigSource, ProviderListItem, ProviderManagerOverlay, ProviderOverlayAction,
    ReasoningEffort,
};
use merry_tui::reasoning_picker::{ReasoningPickerAction, ReasoningPickerOverlay};

fn press(code: KeyCode) -> KeyEvent {
    KeyEvent::new(code, KeyModifiers::none())
}

fn press_control(code: KeyCode) -> KeyEvent {
    KeyEvent::new(code, KeyModifiers::control())
}

fn no_aliases() -> TextSet {
    TextSet::default()
}

fn aliases(alias: &str) -> TextSet {
    let mut set = TextSet::default();
    set.insert(alias);
    set
}

#[test]
fn provider_form_masks_secret_and_never_debugs_it() {
    let mut form = ProviderFormOverlay::new("opencode".to_owned(), no_aliases());
    for _ in 0..5 {
        let _ = form.handle_key(press(KeyCode::Down));
    }
    assert_eq!(form.selected_field(), ProviderFormField::ApiKey);
    form.insert_paste("sk-super-secret");

    assert_eq!(form.masked_api_key(), "***************");
    assert!(!form.describe().contains("sk-super-secret"));
    assert!(form.describe().contains("<redacted>"));
}

#[test]
fn provider_form_exposes_openai_protocol_selection() {
    let mut form = ProviderFormOverlay::new("provider".to_owned(), no_aliases());
    assert_eq!(form.protocol(), Some(OpenAiProtocol::Responses));
    for _ in 0..3 {
        let _ = form.handle_key(press(KeyCode::Down));
    }

    let _ = form.handle_key(press(KeyCode::Right));

    assert_eq!(form.selected_field(), ProviderFormField::Protocol);
    assert_eq!(form.protocol(), Some(OpenAiProtocol::ChatCompletions));
}

#[test]
fn provider_form_exposes_reasoning_effort_selection() {
    let mut form = ProviderFormOverlay::new("provider".to_owned(), no_aliases());
    for _ in 0..7 {
        let _ = form.handle_key(press(KeyCode::Down));
    }
    assert_eq!(form.selected_field(), ProviderFormField::ReasoningEffort);
    assert_eq!(form.reasoning_effort(), None);

    let _ = form.handle_key(press_control(KeyCode::Char(' ')));
    assert_eq!(form.reasoning_effort().as_deref(), Some("minimal"));
    let _ = form.handle_key(press_control(KeyCode::Char(' ')));
    assert_eq!(form.reasoning_effort().as_deref(), Some("low"));
}

#[test]
fn provider_form_supports_builtin_and_custom_reasoning_efforts() {
    let mut form = ProviderFormOverlay::new("provider".to_owned(), no_aliases());
    for _ in 0..7 {
        let _ = form.handle_key(press(KeyCode::Down));
    }

    for expected in ["minimal", "low", "medium", "high", "xhigh", "max", "ultra"] {
        let _ = form.handle_key(press_control(KeyCode::Char(' ')));
        assert_eq!(form.reasoning_effort_text(), expected);
    }

    let _ = form.handle_key(press(KeyCode::End));
    for _ in 0.."ultra".len() {
        let _ = form.handle_key(press(KeyCode::Backspace));
    }
    form.insert_paste("max ultra");
    assert_eq!(form.reasoning_effort().as_deref(), Some("max ultra"));
}

#[test]
fn provider_edit_form_prefills_values_retains_secret_and_emits_update() {
    let mut form = ProviderFormOverlay::edit(
        ProviderFormSeed {
            original_alias: "opencode".to_owned(),
            display_name: "OpenCode".to_owned(),
            alias: "opencode".to_owned(),
            kind: ManagedProviderKind::OpenAiCompatible,
            protocol: Some(OpenAiProtocol::Responses),
            base_url: "https://api.openai.com/v1".to_owned(),
            model: "model-a".to_owned(),
            reasoning_effort: None,
        },
        aliases("opencode"),
    );
    assert_eq!(form.field(ProviderFormField::DisplayName), "OpenCode");
    assert_eq!(form.masked_api_key(), "unchanged");

    let _ = form.handle_key(press(KeyCode::Down));
    form.insert_paste("-pasted");
    let _ = form.handle_key(press(KeyCode::Char('x')));
    assert_eq!(form.field(ProviderFormField::Alias), "opencode");
    assert!(form
        .notice()
        .is_some_and(|notice| notice.contains("stable provider ID")));
    let _ = form.handle_key(press(KeyCode::Down));
    let _ = form.handle_key(press(KeyCode::Down));
    let _ = form.handle_key(press(KeyCode::Right));
    for _ in 0..5 {
        let _ = form.handle_key(press(KeyCode::Down));
    }

    let action = form.handle_key(press(KeyCode::Enter));

    assert!(matches!(
        action,
        ProviderOverlayAction::UpdateProvider { original_alias, values }
            if original_alias == "opencode"
                && values.protocol == Some(OpenAiProtocol::ChatCompletions)
                && values.api_key.is_empty()
    ));
}

#[test]
fn provider_form_model_enter_discovers_before_explicit_save() {
    let mut form = ProviderFormOverlay::edit(
        ProviderFormSeed {
            original_alias: "opencode".to_owned(),
            display_name: "OpenCode".to_owned(),
            alias: "opencode".to_owned(),
            kind: ManagedProviderKind::OpenAiCompatible,
            protocol: Some(OpenAiProtocol::ChatCompletions),
            base_url: "https://opencode.example.test/v1".to_owned(),
            model: "model-a".to_owned(),
            reasoning_effort: None,
        },
        aliases("opencode"),
    );
    for _ in 0..6 {
        let _ = form.handle_key(press(KeyCode::Down));
    }

    let discover = form.handle_key(press(KeyCode::Enter));

    assert!(matches!(
        discover,
        ProviderOverlayAction::DiscoverFormModels {
            original_alias: Some(original_alias),
            values,
        } if original_alias == "opencode" && values.model == "model-a"
    ));

    for _ in 0..2 {
        let _ = form.handle_key(press(KeyCode::Down));
    }
    assert_eq!(form.selected_field(), ProviderFormField::Save);
    assert!(matches!(
        form.handle_key(press(KeyCode::Enter)),
        ProviderOverlayAction::UpdateProvider { original_alias, values }
            if original_alias == "opencode" && values.model == "model-a"
    ));
}

#[test]
fn provider_form_ctrl_s_saves_from_any_field() {
    let mut form = ProviderFormOverlay::new("provider".to_owned(), no_aliases());

    let action = form.handle_key(press_control(KeyCode::Char('s')));

    assert!(matches!(action, ProviderOverlayAction::SaveProvider(_)));
}

#[test]
fn a_typed_name_asks_for_its_alias_until_the_alias_is_edited() {
    let mut form = ProviderFormOverlay::new("provider".to_owned(), no_aliases());
    let first = form.handle_key(press(KeyCode::Char('O')));
    assert!(first == ProviderOverlayAction::DeriveAlias("O".to_owned()));
    form.set_derived_alias("o");
    assert_eq!(form.field(ProviderFormField::Alias), "o");

    let _ = form.handle_key(press(KeyCode::Down));
    let _ = form.handle_key(press(KeyCode::Char('x')));
    assert_eq!(form.field(ProviderFormField::Alias), "ox");
    let _ = form.handle_key(press(KeyCode::Up));
    let second = form.handle_key(press(KeyCode::Char('p')));
    assert!(second == ProviderOverlayAction::Consumed);
    assert_eq!(form.field(ProviderFormField::Alias), "ox");
}

fn managed(alias: &str, model: Option<&str>) -> ProviderListItem {
    ProviderListItem::new(
        alias,
        "OpenCode",
        ConfiguredProviderKind::OpenAiCompatible,
        ProviderConfigSource::Managed,
        Some(OpenAiProtocol::ChatCompletions),
        model,
    )
}

#[test]
fn provider_manager_keeps_duplicate_endpoint_profiles_as_distinct_rows() {
    let manager = ProviderManagerOverlay::new(
        vec![
            ProviderListItem::new(
                "work",
                "OpenCode Work",
                ConfiguredProviderKind::OpenAiCompatible,
                ProviderConfigSource::Managed,
                Some(OpenAiProtocol::ChatCompletions),
                Some("model-work"),
            ),
            ProviderListItem::new(
                "personal",
                "OpenCode Personal",
                ConfiguredProviderKind::OpenAiCompatible,
                ProviderConfigSource::Managed,
                Some(OpenAiProtocol::ChatCompletions),
                Some("model-personal"),
            ),
        ],
        Some("work"),
    );

    assert_eq!(manager.items().len(), 2);
    assert_eq!(manager.items()[0].alias(), "work");
    assert_eq!(manager.items()[1].alias(), "personal");
}

#[test]
fn provider_manager_requires_confirmation_before_deleting_managed_provider() {
    let mut manager = ProviderManagerOverlay::new(vec![managed("opencode", Some("model-a"))], None);
    let delete = press(KeyCode::Char('d'));

    assert!(manager.handle_key(delete) == ProviderOverlayAction::Consumed);
    assert!(manager
        .notice()
        .is_some_and(|notice| notice.contains("again")));
    assert!(
        manager.handle_key(delete) == ProviderOverlayAction::DeleteProvider("opencode".to_owned())
    );
}

#[test]
fn provider_manager_enter_switches_the_resolved_model_and_e_edits() {
    let item = || managed("opencode", Some("model-a"));
    let mut switch_manager = ProviderManagerOverlay::new(vec![item()], None);
    let mut edit_manager = ProviderManagerOverlay::new(vec![item()], None);
    let mut model_manager = ProviderManagerOverlay::new(vec![item()], None);

    assert!(
        switch_manager.handle_key(press(KeyCode::Enter))
            == ProviderOverlayAction::SelectProvider("opencode".to_owned())
    );
    assert!(
        edit_manager.handle_key(press(KeyCode::Char('e')))
            == ProviderOverlayAction::OpenProviderEditor("opencode".to_owned())
    );
    assert!(
        model_manager.handle_key(press(KeyCode::Char('m')))
            == ProviderOverlayAction::OpenModelPicker("opencode".to_owned())
    );
}

#[test]
fn provider_manager_enter_opens_models_when_no_model_is_resolved() {
    let mut manager = ProviderManagerOverlay::new(vec![managed("opencode", None)], None);

    assert!(
        manager.handle_key(press(KeyCode::Enter))
            == ProviderOverlayAction::OpenModelPicker("opencode".to_owned())
    );
}

#[test]
fn provider_manager_refuses_to_delete_user_or_active_provider() {
    let delete = press(KeyCode::Char('d'));
    let mut user_manager = ProviderManagerOverlay::new(
        vec![ProviderListItem::new(
            "user-config",
            "User Config",
            ConfiguredProviderKind::OpenAiCompatible,
            ProviderConfigSource::User,
            Some(OpenAiProtocol::ChatCompletions),
            Some("model-a"),
        )],
        None,
    );
    assert!(user_manager.handle_key(delete) == ProviderOverlayAction::Consumed);
    assert!(user_manager
        .notice()
        .is_some_and(|notice| notice.contains("read-only")));

    let mut active_manager = ProviderManagerOverlay::new(
        vec![ProviderListItem::new(
            "active",
            "Active",
            ConfiguredProviderKind::Anthropic,
            ProviderConfigSource::Managed,
            None,
            Some("model-b"),
        )],
        Some("active"),
    );
    assert!(active_manager.handle_key(delete) == ProviderOverlayAction::Consumed);
    assert!(active_manager
        .notice()
        .is_some_and(|notice| notice.contains("active")));
}

#[test]
fn model_picker_shows_cached_models_while_loading_and_accepts_manual_search() {
    let mut picker = ModelPickerOverlay::new(
        "opencode".to_owned(),
        "OpenCode".to_owned(),
        vec![ModelListItem::new("cached-model", Some("gateway"))],
        true,
    );
    assert!(picker.is_loading());
    assert_eq!(picker.visible_models()[0].id(), "cached-model");

    for character in "manual-model".chars() {
        let _ = picker.handle_key(press(KeyCode::Char(character)), true);
    }

    assert_eq!(picker.manual_model(true).as_deref(), Some("manual-model"));
    assert_eq!(picker.manual_model(false), None);
}

#[test]
fn reasoning_picker_has_no_empty_default_and_accepts_custom_values() {
    let mut picker = ReasoningPickerOverlay::new(
        "opencode".to_owned(),
        "model-a".to_owned(),
        ModelPickerTarget::ActiveProvider,
    );
    assert_eq!(picker.option_count(), PRESET_COUNT + 1);
    assert!((0..picker.option_count()).all(|index| picker.option_label(index) != "Default"));

    assert_eq!(
        picker.handle_key(press(KeyCode::Enter), None),
        ReasoningPickerAction::SelectReasoning {
            alias: "opencode".to_owned(),
            model: "model-a".to_owned(),
            reasoning_effort: ReasoningEffort {
                value: "minimal".to_owned()
            },
            target: ModelPickerTarget::ActiveProvider,
        }
    );

    let mut custom = ReasoningPickerOverlay::new(
        "opencode".to_owned(),
        "model-b".to_owned(),
        ModelPickerTarget::ActiveProvider,
    );
    for _ in 0..PRESET_COUNT {
        let _ = custom.handle_key(press(KeyCode::Down), None);
    }
    assert_eq!(
        custom.handle_key(press(KeyCode::Enter), None),
        ReasoningPickerAction::Consumed
    );
    custom.insert_paste("max ultra");
    assert_eq!(
        custom.handle_key(press(KeyCode::Enter), None),
        ReasoningPickerAction::SelectReasoning {
            alias: "opencode".to_owned(),
            model: "model-b".to_owned(),
            reasoning_effort: ReasoningEffort {
                value: "max ultra".to_owned()
            },
            target: ModelPickerTarget::ActiveProvider,
        }
    );
}

#[test]
fn refused_efforts_are_told() {
    let mut custom = ReasoningPickerOverlay::new(
        "opencode".to_owned(),
        "model-b".to_owned(),
        ModelPickerTarget::ActiveProvider,
    );
    for _ in 0..PRESET_COUNT {
        let _ = custom.handle_key(press(KeyCode::Down), None);
    }
    let _ = custom.handle_key(press(KeyCode::Enter), None);
    custom.insert_paste("bad");
    let answer = custom.handle_key(press(KeyCode::Enter), Some("not an effort".to_owned()));
    assert_eq!(answer, ReasoningPickerAction::Consumed);
    assert_eq!(custom.error(), Some("not an effort"));
}

#[test]
fn presets_have_an_order() {
    let names: Vec<_> = (0..PRESET_COUNT).map(|i| preset(i).expect("preset")).collect();
    assert_eq!(names, ["minimal", "low", "medium", "high", "xhigh", "max", "ultra"]);
    assert_eq!(preset(PRESET_COUNT), None);
}
