use merry_tui::patch::{
    parse_apply_patch_argument, parse_apply_patch_view, parse_hunk_start,
    parse_unified_hunk_header, ArgumentLine, PatchLineNumbers, PatchReport, PatchSectionKind,
    ReportedChange, ReportedLine, ReportedLineKind, ReportedOperation,
};
use merry_tui::plan::PlanUiState;
use merry_tui::process_output::{
    process_exit_code, process_output_preview, ArtifactContent, CapturedOutput, CapturedStream,
    PreviewSource,
};
use merry_tui::projector::{
    ErrorInfo, Projection, ProjectionContext, RuntimeEvent, ToolCall, ToolFinish, TuiProjector,
};
use merry_tui::timeline::{
    CommandFailure, CommandView, PatchLineKind, PatchOperationView, TimelineItem,
};
use merry_tui::tool_output::{
    compact_tool_output, completed_tool_title, expanded_tool_title, failed_tool_body, failure_of,
    parse_mcp_tool_name, permission_output_bodies, preview_of_result, read_text_output_bodies,
    started_tool_title_and_detail, success_tool_bodies, tool_output_text, tui_tool_detail,
    tui_tool_title, ReadText, ToolOutput, WorkspaceReadTextOutput,
};

#[test]
fn tool_titles_carry_their_detail() {
    assert_eq!(expanded_tool_title("Ran", "ls"), "Ran ls");
    assert_eq!(expanded_tool_title("Ran", ""), "Ran");
    assert_eq!(completed_tool_title("Ran", "ls", "ok"), "Ran ls -> ok");
}

#[test]
fn server_tools_are_named_by_server_and_tool() {
    assert_eq!(
        parse_mcp_tool_name("mcp_docs_search_pages"),
        Some(("docs".to_owned(), "search_pages".to_owned()))
    );
    assert_eq!(parse_mcp_tool_name("mcp__x"), None);
    assert_eq!(parse_mcp_tool_name("mcp_docs_"), None);
    assert_eq!(parse_mcp_tool_name("mcp_docs"), None);
    assert_eq!(parse_mcp_tool_name("run_process"), None);
    assert_eq!(tui_tool_title("mcp_docs_search"), "MCP");
    assert_eq!(tui_tool_detail("mcp_docs_search", Some("q")), "docs/search q");
}

#[test]
fn every_known_tool_has_its_word() {
    let words = [
        ("run_process", "Ran"),
        ("read_text", "Read"),
        ("request_permissions", "Permission"),
        ("merry_read_checkpoint_ref", "Retrieved"),
        ("spawn_subagents", "Delegated"),
        ("wait_subagents", "Waited"),
        ("cancel_subagents", "Cancelled"),
        ("apply_patch", "Patch"),
        ("anything", "Tool"),
    ];
    for (name, word) in words {
        assert_eq!(tui_tool_title(name), word);
    }
}

#[test]
fn commands_show_their_line_and_others_their_name() {
    assert_eq!(tui_tool_detail("run_process", Some("ls -l")), "ls -l");
    assert_eq!(tui_tool_detail("run_process", Some("")), "run_process");
    assert_eq!(tui_tool_detail("run_process", None), "run_process");
    assert_eq!(tui_tool_detail("read_text", Some("a.rs")), "read_text a.rs");
    assert_eq!(
        started_tool_title_and_detail("read_text", None),
        ("Read".to_owned(), "read_text".to_owned())
    );
}

#[test]
fn long_outputs_are_cut() {
    assert_eq!(compact_tool_output("  ok \n", "ok"), "ok");
    assert_eq!(compact_tool_output(" \n ", ""), "");
    let long = "x".repeat(601);
    let cut = compact_tool_output(&long, &long);
    assert_eq!(cut.len(), 603);
    assert!(cut.ends_with("x..."));
    let exact = "x".repeat(600);
    assert_eq!(compact_tool_output(&exact, &exact), exact);
}

#[test]
fn failures_give_their_account_before_their_output() {
    assert_eq!(failed_tool_body(Some("denied"), "raw", "raw"), "denied");
    assert_eq!(failed_tool_body(None, " raw ", "raw"), "raw");
}

#[test]
fn outputs_of_tools_are_their_texts() {
    assert_eq!(tool_output_text(Some(ToolOutput::Text("a".to_owned()))), "a");
    assert_eq!(
        tool_output_text(Some(ToolOutput::Json("{}".to_owned()))),
        "{}"
    );
    assert_eq!(tool_output_text(None), "");
}

#[test]
fn granted_permissions_are_told() {
    let output = r#"{"ok":true,"kind":"process_action","permission_profile_id":"dev",
        "permission_review":{"rationale":"tests only"}}"#;
    assert_eq!(
        permission_output_bodies(output),
        Some("allowed: tests only\nprofile: dev".to_owned())
    );
    assert_eq!(
        permission_output_bodies(r#"{"ok":true,"kind":"process_action"}"#),
        Some("allowed: permission request was admitted\nprofile: unknown".to_owned())
    );
    assert_eq!(
        permission_output_bodies(r#"{"ok":false,"kind":"process_action"}"#),
        None
    );
    assert_eq!(permission_output_bodies("no document"), None);
}

fn read_output(content: &str, truncated: bool) -> WorkspaceReadTextOutput {
    WorkspaceReadTextOutput {
        ok: true,
        tool: Some("read_text".to_owned()),
        path: "a.rs".to_owned(),
        content: content.to_owned(),
        truncated,
    }
}

#[test]
fn files_are_shown_by_their_first_lines() {
    let output = read_output("one\ntwo\n", false);
    let lines = output.preview_lines();
    assert_eq!(lines, vec!["one", "two"]);
    assert_eq!(
        read_text_output_bodies(&output, lines),
        Some("one\ntwo".to_owned())
    );

    let cut = read_output("one", true);
    assert_eq!(
        read_text_output_bodies(&cut, cut.preview_lines()),
        Some("one\n... truncated".to_owned())
    );

    let empty = read_output("", false);
    assert_eq!(
        read_text_output_bodies(&empty, empty.preview_lines()),
        Some("a.rs is empty".to_owned())
    );

    let long = read_output(&"x\n".repeat(200), false);
    assert_eq!(long.preview_lines().len(), 120);

    let other = WorkspaceReadTextOutput {
        tool: None,
        ..read_output("one", false)
    };
    assert_eq!(read_text_output_bodies(&other, Vec::new()), None);
}

#[test]
fn successes_have_a_form_for_some_tools() {
    let read = ReadText {
        output: read_output("one", false),
        shown: vec!["one".to_owned()],
    };
    assert_eq!(
        success_tool_bodies("read_text", "", Some(read)),
        Some("one".to_owned())
    );
    assert_eq!(success_tool_bodies("read_text", "", None), None);
    assert_eq!(success_tool_bodies("other", "{}", None), None);
    assert_eq!(
        success_tool_bodies(
            "request_permissions",
            r#"{"ok":true,"kind":"process_action"}"#,
            None
        ),
        Some("allowed: permission request was admitted\nprofile: unknown".to_owned())
    );
}

#[test]
fn commands_fail_unless_their_code_says_more() {
    assert_eq!(failure_of(true, true, Some(1)), Some(CommandFailure::Cancelled));
    assert_eq!(failure_of(false, true, None), Some(CommandFailure::Failed));
    assert_eq!(failure_of(false, true, Some(0)), Some(CommandFailure::Failed));
    assert_eq!(failure_of(false, true, Some(2)), None);
    assert_eq!(failure_of(false, false, Some(2)), None);
}

#[test]
fn results_of_commands_are_read() {
    let output = r#"{"kind":"process_action","status":{"kind":"exited","code":3},
        "stdout":{"text":"out","truncated":false},"stderr":{"text":"err","truncated":true}}"#;
    assert_eq!(process_exit_code(output), Some(3));
    assert_eq!(
        process_output_preview(output),
        Some(PreviewSource {
            stdout: "out".to_owned(),
            stderr: "err".to_owned(),
            truncated: true,
        })
    );
    assert_eq!(
        process_exit_code(r#"{"kind":"process_action","status":-1}"#),
        Some(-1)
    );
    assert_eq!(
        process_exit_code(r#"{"kind":"process_action","status":{"kind":"signalled","code":9}}"#),
        None
    );
    assert_eq!(process_exit_code(r#"{"kind":"other","status":1}"#), None);
    assert_eq!(process_output_preview("plain"), None);
}

#[test]
fn previews_fall_back_to_what_there_is() {
    let plain = preview_of_result(None, None, None, " raw ", "raw");
    assert_eq!(plain.stdout, "raw");
    assert_eq!(plain.stderr, "");
    assert!(!plain.truncated);

    let told = PreviewSource {
        stdout: "out".to_owned(),
        stderr: "err".to_owned(),
        truncated: true,
    };
    let failed = preview_of_result(
        Some(CommandFailure::Failed),
        Some(told),
        Some("no such file"),
        "raw",
        "raw",
    );
    assert_eq!(failed.stdout, "no such file");
    assert_eq!(failed.stderr, "");
    assert!(failed.truncated);
}

fn stream(text: &str) -> CapturedStream {
    CapturedStream {
        text: text.to_owned(),
        truncated: false,
        utf8: Some(true),
    }
}

#[test]
fn copied_outputs_hold_both_streams() {
    let joined = CapturedOutput::Process {
        stdout: stream("out"),
        stderr: stream("err"),
    };
    assert_eq!(joined.copy_text(), "out\nerr");
    let ended = CapturedOutput::Process {
        stdout: stream("out\n"),
        stderr: stream("err"),
    };
    assert_eq!(ended.copy_text(), "out\nerr");
    let silent = CapturedOutput::Process {
        stdout: stream("out"),
        stderr: stream(""),
    };
    assert_eq!(silent.copy_text(), "out");
    assert_eq!(CapturedOutput::Text("x".to_owned()).copy_text(), "x");
}

#[test]
fn stored_results_are_texts_or_refused() {
    assert_eq!(
        CapturedOutput::from_artifact(ArtifactContent::Text("x".to_owned()), None),
        Ok(CapturedOutput::Text("x".to_owned()))
    );
    assert_eq!(
        CapturedOutput::from_artifact(
            ArtifactContent::Json("{}".to_owned()),
            Some((stream("a"), stream("b")))
        ),
        Ok(CapturedOutput::Process {
            stdout: stream("a"),
            stderr: stream("b"),
        })
    );
    assert!(CapturedOutput::from_artifact(ArtifactContent::Binary, None)
        .unwrap_err()
        .contains("binary data"));
}

#[test]
fn hunk_headers_give_their_numbers() {
    assert_eq!(parse_hunk_start("-12,3", '-'), Some(12));
    assert_eq!(parse_hunk_start("+7", '+'), Some(7));
    assert_eq!(parse_hunk_start("7", '+'), None);
    assert_eq!(parse_hunk_start("+x", '+'), None);
    assert_eq!(
        parse_unified_hunk_header("@@ -12,3 +14,4 @@ fn main"),
        Some(PatchLineNumbers {
            old_next: Some(12),
            new_next: Some(14),
        })
    );
    assert_eq!(parse_unified_hunk_header("@@ -12"), None);
    assert_eq!(parse_unified_hunk_header("-- -1 +1"), None);
}

fn argument(text: &str) -> ArgumentLine {
    ArgumentLine {
        text: text.to_owned(),
        header: None,
    }
}

fn section(kind: PatchSectionKind, path: &str) -> ArgumentLine {
    ArgumentLine {
        text: String::new(),
        header: Some((kind, path.to_owned())),
    }
}

#[test]
fn patches_are_read_file_by_file() {
    let lines = vec![
        argument("*** Begin Patch"),
        section(PatchSectionKind::Update, "a.rs"),
        argument("@@ -4,2 +4,2 @@"),
        argument(" keep"),
        argument("-old"),
        argument("+new"),
        section(PatchSectionKind::Add, "b.rs"),
        argument("+first"),
        argument("+second"),
        argument("*** End Patch"),
    ];
    let parsed = parse_apply_patch_argument(&lines);

    let updated = parsed.change_lines("a.rs").expect("the first file");
    let numbers: Vec<_> = updated
        .iter()
        .map(|line| (line.kind, line.old_line, line.new_line, line.text.as_str()))
        .collect();
    assert_eq!(
        numbers,
        vec![
            (PatchLineKind::Context, Some(4), Some(4), "keep"),
            (PatchLineKind::Remove, Some(5), None, "old"),
            (PatchLineKind::Add, None, Some(5), "new"),
        ]
    );
    let added = parsed.change_lines("b.rs").expect("the second file");
    assert_eq!(added[1].new_line, Some(2));
    assert!(parsed.change_lines("c.rs").is_none());
}

fn reported(operation: ReportedOperation, lines: Vec<ReportedLine>) -> PatchReport {
    PatchReport {
        ok: true,
        tool: "apply_patch".to_owned(),
        changes: vec![ReportedChange {
            path: "a.rs".to_owned(),
            operation,
            hunks: 1,
            lines_before: Some(9),
            lines_after: Some(9),
            bytes_before: None,
            bytes_after: None,
            lines,
        }],
    }
}

#[test]
fn patches_count_the_lines_they_show() {
    let lines = vec![
        ReportedLine {
            kind: ReportedLineKind::Add,
            old_line: None,
            new_line: Some(1),
            text: "new".to_owned(),
        },
        ReportedLine {
            kind: ReportedLineKind::Remove,
            old_line: Some(1),
            new_line: None,
            text: "old".to_owned(),
        },
    ];
    let item = parse_apply_patch_view(Some(reported(ReportedOperation::Update, lines)), None);
    let Some(TimelineItem::Patch { changes }) = item else {
        panic!("expected a patch");
    };
    assert_eq!(changes[0].added, 1);
    assert_eq!(changes[0].removed, 1);
    assert!(changes[0].added + changes[0].removed <= changes[0].lines.len());

    let gone = parse_apply_patch_view(
        Some(reported(ReportedOperation::Delete, Vec::new())),
        None,
    );
    let Some(TimelineItem::Patch { changes }) = gone else {
        panic!("expected a patch");
    };
    assert_eq!(changes[0].operation, PatchOperationView::Delete);
    assert_eq!((changes[0].added, changes[0].removed), (0, 9));
}

#[test]
fn patches_without_lines_take_those_that_were_asked_for() {
    let asked = parse_apply_patch_argument(&vec![
        section(PatchSectionKind::Update, "a.rs"),
        argument("+new"),
    ]);
    let item = parse_apply_patch_view(
        Some(reported(ReportedOperation::Unknown, Vec::new())),
        Some(&asked),
    );
    let Some(TimelineItem::Patch { changes }) = item else {
        panic!("expected a patch");
    };
    assert_eq!(changes[0].operation, PatchOperationView::Update);
    assert_eq!(changes[0].lines[0].text, "new");
    assert_eq!(changes[0].added, 1);

    let refused = PatchReport {
        ok: false,
        ..reported(ReportedOperation::Add, Vec::new())
    };
    assert!(parse_apply_patch_view(Some(refused), None).is_none());
    assert!(parse_apply_patch_view(None, None).is_none());
}

fn call(id: &str, name: &str, summary: &str) -> ToolCall {
    ToolCall {
        id: id.to_owned(),
        name: name.to_owned(),
        summary: Some(summary.to_owned()),
        command: Some(summary.to_owned()),
        cwd: Some(".".to_owned()),
        patch: None,
    }
}

fn finish(id: &str, failed: bool, output: &str) -> ToolFinish {
    ToolFinish {
        call_id: id.to_owned(),
        failed,
        cancelled_by_user: false,
        account: None,
        artifact_id: "artifact".to_owned(),
        output: Some(ToolOutput::Text(output.to_owned())),
        clean: output.trim().to_owned(),
        read: None,
        patch: None,
        elapsed: None,
    }
}

fn context(timeline_len: usize) -> ProjectionContext {
    ProjectionContext {
        timeline_len,
        now_ms: 5_000,
        approval_open: false,
    }
}

#[test]
fn calls_end_in_the_place_where_they_began() {
    let mut plan = PlanUiState::default();
    let mut projector = TuiProjector::new();
    let begun = projector.apply(
        RuntimeEvent::ToolCallStarted(call("one", "run_process", "ls")),
        context(4),
        &mut plan,
    );
    assert!(begun.iter().any(|told| matches!(
        told,
        Projection::Push(TimelineItem::Command {
            view: CommandView::Running {
                started_at_ms: 5_000,
                ..
            }
        })
    )));
    assert_eq!(projector.started_at("one"), Some(5_000));

    let ended = projector.apply(
        RuntimeEvent::ToolCallFinished(finish("one", false, "done")),
        context(5),
        &mut plan,
    );
    assert!(ended.iter().any(|told| matches!(
        told,
        Projection::ReplaceCommand(4, process) if process.command == "ls"
    )));
    assert_eq!(projector.started_at("one"), None);
}

#[test]
fn answers_are_written_into_one_item() {
    let mut plan = PlanUiState::default();
    let mut projector = TuiProjector::new();
    let first = projector.apply(
        RuntimeEvent::AssistantMessageDelta("he".to_owned()),
        context(2),
        &mut plan,
    );
    assert!(first.contains(&Projection::AppendAssistantDelta {
        index: None,
        delta: "he".to_owned(),
    }));
    projector.streams_at(2);
    let second = projector.apply(
        RuntimeEvent::AssistantMessageDelta("llo".to_owned()),
        context(3),
        &mut plan,
    );
    assert!(second.contains(&Projection::AppendAssistantDelta {
        index: Some(2),
        delta: "llo".to_owned(),
    }));
}

#[test]
fn ended_runs_forget_their_calls() {
    let mut plan = PlanUiState::default();
    let mut projector = TuiProjector::new();
    projector.apply(
        RuntimeEvent::ToolCallStarted(call("one", "run_process", "ls")),
        context(0),
        &mut plan,
    );
    projector.apply(
        RuntimeEvent::RunFailed(ErrorInfo {
            code: "provider_error".to_owned(),
            message: "offline".to_owned(),
        }),
        context(1),
        &mut plan,
    );
    assert_eq!(projector.started_at("one"), None);
}
