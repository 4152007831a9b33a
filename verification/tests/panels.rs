use merry_tui::panels::{
    directory_entry_view, focus_body_for_expanded_item, focus_panel_view, focus_title_for_text_item,
    process_command_from_tool_detail, DirectoryEntryKind, FocusPanelBody, FocusPanelTone,
};
use merry_tui::timeline::{PatchChangeView, PatchLineView, PatchOperationView, TimelineItem};

fn expanded(title: &str, body: &str) -> TimelineItem {
    TimelineItem::Expanded {
        title: title.to_owned(),
        body: body.to_owned(),
    }
}

#[test]
fn focus_panel_selects_latest_high_signal_item() {
    let items = vec![
        expanded("Ran cargo test", "  stdout: ok"),
        TimelineItem::Patch {
            changes: vec![PatchChangeView {
                path: "hello.py".to_owned(),
                operation: PatchOperationView::Update,
                added: 1,
                removed: 1,
                hunks: 1,
                lines_before: None,
                lines_after: None,
                bytes_before: Some(10),
                bytes_after: Some(11),
                lines: vec![
                    PatchLineView::remove("print('old')".to_owned(), Some(1)),
                    PatchLineView::add("print('new')".to_owned(), Some(1)),
                ],
            }],
        },
    ];

    let view = focus_panel_view(&items, Some(1));

    assert_eq!(view.title, "FOCUS patch hello.py");
    assert!(matches!(view.body, FocusPanelBody::Patch { .. }));
}

#[test]
fn focus_panel_uses_command_output_when_no_patch_exists() {
    let items = vec![expanded(
        "Ran python3 hello_world.py (cwd: .)",
        "  stdout: hello world",
    )];

    let view = focus_panel_view(&items, Some(0));

    assert_eq!(view.title, "FOCUS command python3 hello_world.py");
    assert_eq!(
        view.body,
        FocusPanelBody::CommandOutput {
            lines: vec!["  stdout: hello world".to_owned()]
        }
    );
}

#[test]
fn focus_panel_stays_on_reviewed_artifact_when_new_artifacts_arrive() {
    let items = vec![
        expanded("Ran first command", "first output"),
        expanded("Ran second command", "second output"),
        expanded("Ran third command", "third output"),
    ];

    let view = focus_panel_view(&items, Some(1));

    assert_eq!(view.title, "FOCUS command second command");
    assert_eq!(
        view.body,
        FocusPanelBody::CommandOutput {
            lines: vec!["second output".to_owned()]
        }
    );
}

#[test]
fn focus_panel_has_explicit_empty_state() {
    let view = focus_panel_view(&Vec::new(), None);

    assert_eq!(view.title, "FOCUS");
    assert_eq!(view.body, FocusPanelBody::Empty);
}

#[test]
fn focus_panel_marks_diagnostics_as_errors() {
    let items = vec![TimelineItem::Diagnostic {
        title: "auto_compaction".to_owned(),
        body: "compaction window is stale".to_owned(),
    }];

    let view = focus_panel_view(&items, Some(0));

    assert_eq!(view.tone, FocusPanelTone::Error);
}

#[test]
fn only_diagnostics_alarm_the_reader() {
    let items = vec![expanded("Ran ls", ""), TimelineItem::muted("Tool", "x")];
    assert_eq!(
        focus_panel_view(&items, Some(0)).tone,
        FocusPanelTone::Default
    );
    assert_eq!(
        focus_panel_view(&items, Some(1)).tone,
        FocusPanelTone::Default
    );
    assert_eq!(
        focus_panel_view(&items, Some(7)).body,
        FocusPanelBody::Empty
    );
}

#[test]
fn muted_tools_are_named_in_small_letters() {
    let items = vec![TimelineItem::muted("Permission", "run")];

    assert_eq!(
        focus_panel_view(&items, Some(0)).title,
        "FOCUS permission"
    );
    assert_eq!(
        focus_panel_view(&items, Some(0)).body,
        FocusPanelBody::Text {
            lines: vec!["Permission run".to_owned()]
        }
    );
}

#[test]
fn commands_are_told_from_other_details() {
    assert_eq!(
        process_command_from_tool_detail(r#"run_process argv=["cargo","test"] cwd=app"#),
        Some("cargo test".to_owned())
    );
    assert_eq!(process_command_from_tool_detail("run_process argv=[]"), None);
    assert_eq!(process_command_from_tool_detail("run_process argv=oops"), None);
    assert_eq!(process_command_from_tool_detail("cargo test"), None);
    assert_eq!(
        focus_title_for_text_item(r#"Ran run_process argv=["ls"]"#),
        "FOCUS command ls"
    );
    assert_eq!(focus_title_for_text_item("MCP docs/search"), "FOCUS MCP docs/search");
    assert_eq!(focus_title_for_text_item("Ran ls"), "FOCUS command ls");
}

#[test]
fn directories_are_told_from_files() {
    let folder = directory_entry_view("src/");
    let file = directory_entry_view("lib.rs");

    assert_eq!(folder.kind, DirectoryEntryKind::Directory);
    assert_eq!(folder.path, "src/");
    assert_eq!(file.kind, DirectoryEntryKind::File);
}

#[test]
fn plain_texts_are_shown_line_by_line() {
    assert_eq!(
        focus_body_for_expanded_item("Checkpoint", "one\ntwo"),
        FocusPanelBody::Text {
            lines: vec!["one".to_owned(), "two".to_owned()]
        }
    );
}
