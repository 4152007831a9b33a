use image::{Delay, DynamicImage, Frame, GenericImageView, ImageFormat, Rgba, RgbaImage};
use merry_tui::clipboard_image::{
    accept_format, accept_frame, accept_head, check_source_file, normalize_encoded_image,
    normalize_file_candidate, normalize_rgba, pixels_read, validate_dimensions,
    validate_encoded_png_size, ClipboardImageError, ClipboardRgba, ImageSearch, ImageStep,
    MAX_CLIPBOARD_IMAGE_SOURCE_BYTES,
};
use merry_tui::input_history_store::{
    history_file, load_history, record_history, short_hash, InputHistoryError, InputHistoryStore,
};
use merry_tui::preferences::{
    preferences_format, preferences_version, CodeTheme, CompactionStrategy, ConfiguredSettings,
    LegacyTuiPreferences, PreferencesError, PreferencesFormat, RuntimeLimits,
    StoredTuiPreferencesV2, TuiPreferences, TuiPreferencesStore, TuiSettingsDefaults,
};
use merry_tui::provider_overlay::ReasoningEffort;
use merry_tui::providers::{has_runtime_selection, ConfiguredProviders};
use std::collections::BTreeSet;
use std::io::Cursor;

fn encoded_fixture(format: ImageFormat, color: Rgba<u8>) -> Vec<u8> {
    let image = DynamicImage::ImageRgba8(RgbaImage::from_pixel(2, 3, color));
    let mut bytes = Cursor::new(Vec::new());
    image
        .write_to(&mut bytes, format)
        .expect("fixture should encode");
    bytes.into_inner()
}

fn animated_gif_fixture() -> Vec<u8> {
    let first = RgbaImage::from_pixel(2, 2, Rgba([255, 0, 0, 255]));
    let second = RgbaImage::from_pixel(2, 2, Rgba([0, 0, 255, 255]));
    let mut bytes = Vec::new();
    image::codecs::gif::GifEncoder::new(&mut bytes)
        .encode_frames([
            Frame::from_parts(first, 0, 0, Delay::from_numer_denom_ms(1, 1)),
            Frame::from_parts(second, 0, 0, Delay::from_numer_denom_ms(1, 1)),
        ])
        .expect("animated GIF fixture should encode");
    bytes
}

#[test]
fn normalizes_png_jpeg_gif_and_webp_to_png() {
    for format in [
        ImageFormat::Png,
        ImageFormat::Jpeg,
        ImageFormat::Gif,
        ImageFormat::WebP,
    ] {
        let normalized = normalize_encoded_image(&encoded_fixture(format, Rgba([10, 20, 30, 255])))
            .expect("supported fixture should normalize");

        assert_eq!((normalized.width(), normalized.height()), (2, 3));
        assert!(normalized.png_bytes().starts_with(b"\x89PNG\r\n\x1a\n"));
        assert_eq!(
            image::load_from_memory(normalized.png_bytes())
                .expect("normalized PNG should decode")
                .dimensions(),
            (2, 3)
        );
    }
}

#[test]
fn animated_gif_normalization_uses_the_first_frame() {
    let normalized =
        normalize_encoded_image(&animated_gif_fixture()).expect("GIF should normalize");
    let decoded = image::load_from_memory(normalized.png_bytes())
        .expect("normalized PNG should decode")
        .to_rgba8();

    assert_eq!(decoded.get_pixel(0, 0), &Rgba([255, 0, 0, 255]));
}

#[test]
fn raw_rgba_normalization_validates_layout_and_preserves_pixels() {
    let rgba = [255, 0, 0, 255, 0, 255, 0, 128];
    let pixels = |bytes: &[u8]| ClipboardRgba {
        width: 2,
        height: 1,
        bytes: bytes.to_vec(),
    };
    let normalized = normalize_rgba(pixels(&rgba)).expect("valid RGBA should normalize");
    let decoded = image::load_from_memory(normalized.png_bytes())
        .expect("normalized PNG should decode")
        .to_rgba8();

    assert_eq!(decoded.as_raw(), &rgba);
    assert!(normalize_rgba(pixels(&rgba[..7])).is_err());
}

/// Looks through files, given by what they hold, and asks for pixels when none is a picture.
fn search(
    files: Vec<Vec<u8>>,
    pixels: impl FnOnce() -> Result<ClipboardRgba, ClipboardImageError>,
) -> Result<(u32, u32), ClipboardImageError> {
    let mut search = ImageSearch::new(files.len());
    loop {
        match search.step() {
            ImageStep::ReadFile(i) => {
                if let Some(found) = search.file_read(Ok(files[i].clone())) {
                    return Ok((found.width(), found.height()));
                }
            }
            ImageStep::ReadPixels => {
                return pixels_read(pixels()).map(|found| (found.width(), found.height()));
            }
        }
    }
}

#[test]
fn file_candidates_are_preferred_and_invalid_files_fall_back_to_rgba() {
    let valid = encoded_fixture(ImageFormat::WebP, Rgba([1, 2, 3, 255]));
    let mut fallback_called = false;
    let found = search(vec![valid], || {
        fallback_called = true;
        Err(ClipboardImageError::NoImage(
            "fallback must not run".to_owned(),
        ))
    })
    .expect("valid file candidate should win");
    assert_eq!(found, (2, 3));
    assert!(!fallback_called);

    let found = search(vec![b"not an image".to_vec()], || {
        Ok(ClipboardRgba {
            width: 1,
            height: 1,
            bytes: vec![9, 8, 7, 255],
        })
    })
    .expect("RGBA should be used after invalid file");
    assert_eq!(found, (1, 1));
}

#[test]
fn source_encoded_and_dimension_limits_reject_before_unbounded_work() {
    let oversized = vec![0u8; MAX_CLIPBOARD_IMAGE_SOURCE_BYTES + 1];
    assert!(check_source_file(true, oversized.len() as u64).is_err());
    assert!(check_source_file(false, 1).is_err());
    assert!(check_source_file(true, 1).is_ok());
    assert!(normalize_file_candidate(&oversized).is_err());
    assert!(validate_dimensions(8_001, 1).is_err());
    assert!(validate_dimensions(8_000, 4_001).is_err());
    assert!(validate_dimensions(0, 1).is_err());
    assert!(validate_dimensions(8_000, 4_000).is_ok());
    assert!(validate_encoded_png_size(10 * 1024 * 1024 + 1).is_err());
    assert!(validate_encoded_png_size(10 * 1024 * 1024).is_ok());
}

#[test]
fn pictures_are_refused_with_a_reason() {
    let message = |e: ClipboardImageError| e.message();
    assert_eq!(
        normalize_encoded_image(&b"BM not supported".to_vec()).map_err(message).err(),
        Some(ClipboardImageError::UnsupportedFormat.message())
    );
    assert_eq!(accept_format(Ok(None)), Err(ClipboardImageError::UnsupportedFormat));
    assert_eq!(
        accept_head(Err("no head".to_owned())),
        Err(ClipboardImageError::Decode("no head".to_owned()))
    );
    assert_eq!(
        accept_frame(Ok(None)).err(),
        Some(ClipboardImageError::Decode("GIF contains no frames".to_owned()))
    );
    let unavailable = ClipboardImageError::ClipboardUnavailable("no display".to_owned());
    assert_eq!(unavailable.message(), "clipboard unavailable: no display");
}

#[test]
fn pictures_go_into_the_draft_as_they_are() {
    let normalized = normalize_encoded_image(&encoded_fixture(
        ImageFormat::Png,
        Rgba([1, 2, 3, 255]),
    ))
    .expect("fixture");
    let bytes = normalized.png_bytes().clone();
    let draft = normalized.into_draft_image();
    assert_eq!(&draft.shared_png_bytes()[..], &bytes[..]);
    assert_eq!((draft.width(), draft.height()), (2, 3));
}

fn history_store(workspace: &str) -> InputHistoryStore {
    InputHistoryStore::for_workspace("/state/merry", &workspace.as_bytes().to_vec())
}

#[test]
fn round_trips_multiline_unicode_entries_and_loads_empty_files() {
    let mut content: Vec<u8> = Vec::new();
    for entry in ["first", "second\nline", "第三条"] {
        content = record_history(&content, entry).content;
    }
    assert_eq!(
        load_history(&content).entries,
        vec!["first", "second\nline", "第三条"]
    );

    assert!(load_history(&Vec::new()).entries.is_empty());
}

#[test]
fn salvages_valid_lines_from_partially_or_fully_corrupt_files() {
    let partial = load_history(&b"\"first\"\nnot-json\n42\n\"second\"\n".to_vec());
    assert_eq!(partial.entries, vec!["first", "second"]);
    assert_eq!(partial.skipped_lines, 2);

    let invalid_utf8 = load_history(&b"\"first\"\n\xff\n\"second\"\n".to_vec());
    assert_eq!(invalid_utf8.entries, vec!["first", "second"]);

    let corrupt = load_history(&b"not-json\n{}\n".to_vec());
    assert!(corrupt.entries.is_empty());
}

#[test]
fn scopes_paths_by_workspace_without_leaking_the_raw_path() {
    let first = history_store("/private/workspace/first");
    let second = history_store("/private/workspace/second");
    assert_ne!(first.path(), second.path());
    let (directory, file_name) = first.path().rsplit_once('/').expect("a file in a directory");
    assert_eq!(directory, "/state/merry/input-history");
    assert_eq!(file_name.len(), 32 + ".jsonl".len());
    assert!(file_name.ends_with(".jsonl"));
    assert!(!first.path().contains("private"));
    assert!(history_store("/workspace/merry")
        .path()
        .ends_with("/d4d8319782c356e98a4473aa3c7cc170.jsonl"));
    assert_ne!(first.lock_path(), first.path());

    let first_content = record_history(&Vec::new(), "first only").content;
    let second_content = record_history(&Vec::new(), "second only").content;
    assert_eq!(load_history(&first_content).entries, vec!["first only"]);
    assert_eq!(load_history(&second_content).entries, vec!["second only"]);
}

#[test]
fn normalizes_duplicates_blanks_and_capacity_on_load_and_record() {
    let fixture = (0..=200)
        .map(|index| serde_json::to_string(&format!("entry-{index}")))
        .collect::<Result<Vec<_>, _>>()
        .expect("serialize fixture")
        .join("\n")
        .into_bytes();
    let loaded = load_history(&fixture).entries;
    assert_eq!(loaded.len(), 200);
    assert_eq!(loaded.first().map(String::as_str), Some("entry-1"));

    let content = record_history(&fixture, "entry-200").content;
    let content = record_history(&content, "   ").content;
    assert_eq!(load_history(&content).entries, loaded);
    let content = record_history(&content, "entry-1").content;
    let loaded = load_history(&content).entries;
    assert_eq!(loaded.last().map(String::as_str), Some("entry-1"));
}

#[test]
fn history_files_hold_a_json_string_in_each_line() {
    let written = history_file(&vec!["a\"b".to_owned(), "c\nd".to_owned()]);
    assert_eq!(
        String::from_utf8(written).expect("UTF-8"),
        "\"a\\\"b\"\n\"c\\nd\"\n"
    );
    assert_eq!(short_hash(&vec![0xab; 16]), "ab".repeat(16));
    assert_eq!(
        InputHistoryStore::temporary_name("x.jsonl", 7, 9),
        ".x.jsonl.tmp-7-9"
    );
}

#[test]
fn history_errors_tell_what_failed() {
    let path = "/p".to_owned();
    assert_eq!(
        InputHistoryError::Io {
            operation: "read",
            path: path.clone(),
            source: "denied".to_owned()
        }
        .message(),
        "could not read input history path /p: denied"
    );
    assert_eq!(
        InputHistoryError::InvalidPath { path }.message(),
        "input history path /p is invalid"
    );
    assert_eq!(
        InputHistoryError::Serialize("x".to_owned()).message(),
        "could not serialize input history: x"
    );
    assert!(InputHistoryError::TaskJoin("gone".to_owned()).message().contains("gone"));
}

fn effort(value: &str) -> ReasoningEffort {
    ReasoningEffort {
        value: value.to_owned(),
    }
}

#[test]
fn settings_defaults_keep_reasoning_effort_per_provider() {
    let defaults = TuiSettingsDefaults::from_config(
        ConfiguredSettings {
            provider_aliases: vec!["compat".to_owned(), "alt".to_owned()],
            default_provider: Some(("compat".to_owned(), "gpt-test".to_owned())),
            reasoning_efforts: vec![Some(effort("high")), Some(effort("max ultra"))],
            subagents_enabled: false,
            subagent_max_threads: 2,
            auto_compaction_enabled: true,
        },
        RuntimeLimits {
            context_window_tokens: 1_000,
            subagent_max_threads: 4,
        },
    );

    assert_eq!(
        defaults
            .reasoning_effort_for_provider(Some("compat"))
            .map(ReasoningEffort::as_str),
        Some("high")
    );
    assert_eq!(
        defaults
            .reasoning_effort_for_provider(Some("alt"))
            .map(ReasoningEffort::as_str),
        Some("max ultra")
    );
}

#[test]
fn migrates_legacy_model_into_the_selected_provider_history() {
    let migrated = LegacyTuiPreferences {
        version: 1,
        code_theme: CodeTheme::default(),
        provider: Some("opencode".to_owned()),
        model: Some("deepseek-v4-pro".to_owned()),
        reasoning_effort: None,
        subagents_enabled: None,
        subagent_max_threads: None,
    }
    .migrate(Some("anthropic"))
    .expect("v1 preferences should migrate");

    assert_eq!(migrated.provider.as_deref(), Some("opencode"));
    assert_eq!(
        migrated.model_for_provider("opencode"),
        Some("deepseek-v4-pro")
    );
    assert_eq!(migrated.model_for_provider("anthropic"), None);
}

#[test]
fn migrates_version_two_reasoning_only_to_its_selected_provider() {
    let migrated = StoredTuiPreferencesV2 {
        version: 2,
        code_theme: CodeTheme::default(),
        provider: Some("opencode".to_owned()),
        models: vec![
            ("anthropic".to_owned(), "model-b".to_owned()),
            ("opencode".to_owned(), "model-a".to_owned()),
        ],
        reasoning_effort: Some(effort("max ultra")),
        context_window_tokens: None,
        auto_compaction_enabled: None,
        compaction_strategy: None,
        subagents_enabled: None,
        subagent_max_threads: None,
    }
    .migrate(Some("anthropic"))
    .expect("v2 preferences should migrate");

    assert_eq!(migrated.model_for_provider("opencode"), Some("model-a"));
    assert_eq!(migrated.model_for_provider("anthropic"), Some("model-b"));
    assert_eq!(
        migrated
            .reasoning_effort_for_provider("opencode")
            .map(ReasoningEffort::as_str),
        Some("max ultra")
    );
    assert_eq!(migrated.reasoning_effort_for_provider("anthropic"), None);
}

#[test]
fn provider_state_keeps_one_model_and_reasoning_pair() {
    let mut preferences = TuiPreferences::default();
    preferences
        .set_model_and_reasoning_for_provider(
            "opencode",
            Ok("model-a".to_owned()),
            effort("high"),
            Ok(()),
        )
        .expect("valid provider state");
    preferences
        .set_model_and_reasoning_for_provider(
            "opencode",
            Ok("model-b".to_owned()),
            effort("max ultra"),
            Ok(()),
        )
        .expect("valid provider state");

    assert_eq!(preferences.model_for_provider("opencode"), Some("model-b"));
    assert_eq!(
        preferences
            .reasoning_effort_for_provider("opencode")
            .map(ReasoningEffort::as_str),
        Some("max ultra")
    );
}

#[test]
fn provider_model_histories_are_independent_even_for_duplicate_endpoints() {
    let mut preferences = TuiPreferences::default();
    preferences
        .set_model_for_provider("opencode-work", Some(Ok("model-work".to_owned())), Ok(()))
        .expect("work model");
    preferences
        .set_model_for_provider(
            "opencode-personal",
            Some(Ok("model-personal".to_owned())),
            Ok(()),
        )
        .expect("personal model");

    assert_eq!(
        preferences.model_for_provider("opencode-work"),
        Some("model-work")
    );
    assert_eq!(
        preferences.model_for_provider("opencode-personal"),
        Some("model-personal")
    );
}

#[test]
fn refused_names_change_nothing() {
    let mut preferences = TuiPreferences::default();
    let refused = preferences.set_model_for_provider(
        "bad alias",
        Some(Ok("model".to_owned())),
        Err("alias is invalid".to_owned()),
    );
    assert!(matches!(refused, Err(PreferencesError::Invalid(reason)) if reason == "alias is invalid"));
    assert!(preferences == TuiPreferences::default());
}

#[test]
fn preference_versions_are_told_apart() {
    assert_eq!(preferences_version(), 3);
    assert!(matches!(preferences_format(3), Ok(PreferencesFormat::Current)));
    assert!(preferences_format(1).is_ok());
    assert!(preferences_format(2).is_ok());
    let newer = preferences_format(4).err().expect("a newer version");
    assert!(newer.message().contains('4'));
    assert_eq!(
        TuiPreferencesStore::new("/x/tui-preferences.toml".to_owned()).path(),
        "/x/tui-preferences.toml"
    );
}

#[test]
fn themes_follow_one_another_in_a_circle() {
    let start = CodeTheme::Dracula;
    assert_eq!(start.next().previous(), start);
    assert_eq!(start.next().next().next(), start);
    let labels: BTreeSet<_> = [start, start.next(), start.previous()]
        .into_iter()
        .map(CodeTheme::label)
        .collect();
    assert_eq!(labels.len(), 3);
    assert!(!CompactionStrategy::Balanced.label().is_empty());
}

#[test]
fn provider_setup_is_required_only_until_provider_and_model_resolve() {
    let config = ConfiguredProviders {
        default_provider: None,
        with_model: vec!["opencode".to_owned()],
    };
    let mut preferences = TuiPreferences::default();

    assert!(!has_runtime_selection(Some(&config), &preferences));
    preferences.provider = Some("opencode".to_owned());
    assert!(has_runtime_selection(Some(&config), &preferences));
    preferences
        .set_model_for_provider("opencode", Some(Ok("manual-model".to_owned())), Ok(()))
        .expect("manual model");
    assert!(has_runtime_selection(Some(&config), &preferences));
    assert!(!has_runtime_selection(None, &preferences));
}

#[test]
fn recorded_files_hold_nothing_that_is_skipped() {
    let damaged = b"\"first\"\nnot-json\n\"  \"\n".to_vec();
    assert_eq!(load_history(&damaged).skipped_lines, 2);
    let recorded = record_history(&damaged, "second");
    assert_eq!(recorded.entries, vec!["first", "second"]);
    let read = load_history(&recorded.content);
    assert_eq!(read.entries, recorded.entries);
    assert_eq!(read.skipped_lines, 0);
    assert_eq!(recorded.content, b"\"first\"\n\"second\"\n".to_vec());
}
