use merry_tui::command_style::{
    command_spans, shell_operator_len, shell_quoted_token_len, shell_word_len,
};
use merry_tui::composer::{queue_lines, styled_input_line, QueuePreview};
use merry_tui::copy_controls::CopyContent;
use merry_tui::highlight::{
    ansi_palette_color, code_lines, convert_style, highlight_code_to_lines, CodeHighlighter,
    ColoredText,
};

use merry_tui::keymap::KeyAction;
use merry_tui::layout::{Constraint, Position, Rect, MAX_WRAP_WIDTH};
use merry_tui::markdown::{
    fit_table_widths, markdown_events, markdown_lines, render_events, table_lines,
    truncate_to_width, MarkdownBlock, MarkdownEvent, MarkdownTag, TableState, TagDetail,
};
use merry_tui::overlay::{
    CommandPalette, MessageDialogKind, MessageDialogOverlay, Overlay, PlanPaletteContext,
    SettingsOverlay,
};
use merry_tui::overlay_render::{
    centered_rect, command_palette_rows, dialog_in_panes, dialog_panes, inset, palette_panes,
    render_command_palette, render_overlay, render_settings, scroll_offset, CommandPaletteRow, KeyLabel, OverlayContext, OverlayDrawing,
    PaneContent, SettingTexts,
};
use merry_tui::preferences::CodeTheme;
use merry_tui::provider_form::{ProviderFormField, ProviderFormOverlay};
use merry_tui::provider_overlay::{
    ConfiguredProviderKind, ModelListItem, ModelPickerOverlay, ProviderConfigSource,
    ProviderListItem, ProviderManagerOverlay,
};
use merry_tui::provider_render::{
    effort_panes, picker_panes, render_model_picker, render_provider_form, render_provider_manager,
};
use merry_tui::render::{drawn_panes, header_line, ScreenPane};
use merry_tui::timeline::{
    CommandFailure, CommandView, Elapsed, FinishedCommand, PatchChangeView, PatchOperationView,
    ProcessOutputPreview, QueuedInputLane, TimelineItem,
};
use merry_tui::timeline_lines::{
    assistant_separator_line, command_lines, compact_patch_lines, diagnostic_lines, muted_lines,
    split_command_suffix, strip_tool_title_detail, tool_title_keyword, user_lines,
};
use merry_tui::transcript::{
    assistant_lines, document_rows_of, item_rows_of, prepare_timeline_viewport, review_title, timeline_content_region,
    timeline_layout, timeline_mouse_down, timeline_scroll_start, timeline_viewport, ItemRows,
    RenderedMarkdown, SelectionPolicy, TimelinePress, TimelineScroll, TranscriptRow,
};
use merry_tui::ui::{Block, Line, LinePart, SemanticColor, Span, Style, StyledTextPart, Tint};
use merry_tui::ordered::TextSet;

fn part_text(parts: &[StyledTextPart]) -> String {
    parts.iter().map(|part| part.text.as_str()).collect()
}

fn block_text(block: &Block) -> String {
    match block {
        Block::Line(line) => line.text(),
        Block::Composed(parts) => parts
            .iter()
            .map(|part| match part {
                LinePart::Span(span) => span.content.clone(),
                LinePart::InlineCode { text, .. } => text.clone(),
                LinePart::Shortened { front, text, .. } => format!("{front}{text}"),
            })
            .collect(),
        Block::Wrapped { parts, .. } => part_text(parts),
        Block::Hanging { front, parts, .. } => {
            let front: String = front.iter().map(|span| span.content.as_str()).collect();
            format!("{front}{}", part_text(parts))
        }
    }
}

fn markdown_text(block: &MarkdownBlock) -> String {
    match block {
        MarkdownBlock::Line(line) => line.text(),
        MarkdownBlock::Wrapped { front, parts, .. } => {
            let front = front
                .as_ref()
                .map_or(String::new(), |span| span.content.clone());
            format!("{front}{}", part_text(parts))
        }
        MarkdownBlock::Code { parts, .. } => part_text(parts),
    }
}

fn rendered(markdown: &str, width: u16) -> Vec<String> {
    let highlighter = CodeHighlighter::new();
    markdown_lines(markdown, width, CodeTheme::Dracula, &highlighter)
        .iter()
        .map(markdown_text)
        .collect()
}

#[test]
fn python_highlighting_uses_bright_magenta_forward_colors() {
    let lines = highlight_code_to_lines(
        "def greet(name):\n    return \"hello\"",
        "python",
        CodeTheme::Dracula,
    );
    let spans = lines
        .iter()
        .flat_map(|line| line.spans.iter())
        .collect::<Vec<_>>();
    let keyword = spans
        .iter()
        .find(|span| span.content == "def")
        .expect("python keyword should render");
    let string = spans
        .iter()
        .find(|span| span.content.contains("hello"))
        .expect("python string should render");

    assert_eq!(keyword.style.fg, Some(Tint::Rgb(255, 121, 198)));
    assert_eq!(string.style.fg, Some(Tint::Rgb(241, 250, 140)));
}

#[test]
fn code_without_a_syntax_keeps_its_lines() {
    let lines = highlight_code_to_lines("a\nb\n", "no-such-language", CodeTheme::Dracula);
    let texts: Vec<String> = lines.iter().map(|line| line.text()).collect();
    assert_eq!(texts[..2], ["a", "b"]);
    assert_eq!(
        code_lines("a\nb", None)
            .iter()
            .map(|line| line.text())
            .collect::<Vec<_>>(),
        vec!["a", "b"]
    );
}

#[test]
fn themes_color_code_differently() {
    let code = "fn main() { let x = 1; }";
    let dracula = highlight_code_to_lines(code, "rust", CodeTheme::Dracula);
    let mocha = highlight_code_to_lines(code, "rust", CodeTheme::CatppuccinMocha);
    let monokai = highlight_code_to_lines(code, "rust", CodeTheme::MonokaiBright);
    assert_eq!(dracula[0].text(), code);
    assert!(dracula != mocha && mocha != monokai && dracula != monokai);
}

#[test]
fn colored_code_takes_the_colors_given() {
    let stretch = |opacity: u8| ColoredText {
        text: "x".to_owned(),
        red: 3,
        green: 2,
        blue: 1,
        opacity,
        bold: true,
    };
    assert_eq!(convert_style(&stretch(255)).fg, Some(Tint::Rgb(3, 2, 1)));
    assert_eq!(convert_style(&stretch(0)).fg, Some(Tint::Yellow));
    assert_eq!(convert_style(&stretch(1)).fg, None);
    assert!(convert_style(&stretch(255)).bold);
    assert_eq!(ansi_palette_color(7), Tint::Gray);
    assert_eq!(ansi_palette_color(8), Tint::Indexed(8));
}

#[test]
fn documents_are_parsed_into_events() {
    let events = markdown_events("# Title\n\ntext `code`\n");
    assert_eq!(
        events,
        vec![
            MarkdownEvent::Start(MarkdownTag::Heading, TagDetail::Bare),
            MarkdownEvent::Text("Title".to_owned()),
            MarkdownEvent::End(MarkdownTag::Heading),
            MarkdownEvent::Start(MarkdownTag::Paragraph, TagDetail::Bare),
            MarkdownEvent::Text("text ".to_owned()),
            MarkdownEvent::Code("code".to_owned()),
            MarkdownEvent::End(MarkdownTag::Paragraph),
        ]
    );
    assert!(markdown_events("~~gone~~")
        .contains(&MarkdownEvent::Start(MarkdownTag::Strikethrough, TagDetail::Bare)));
    assert!(markdown_events("- [x] done").contains(&MarkdownEvent::TaskListMarker(true)));
    assert!(markdown_events("```rust\nfn\n```").contains(&MarkdownEvent::Start(
        MarkdownTag::CodeBlock,
        TagDetail::Language("rust".to_owned())
    )));
    assert!(markdown_events("3. three").contains(&MarkdownEvent::Start(
        MarkdownTag::List,
        TagDetail::FirstNumber(Some(3))
    )));
    assert!(markdown_events("[a](b)").contains(&MarkdownEvent::Start(
        MarkdownTag::Link,
        TagDetail::Address("b".to_owned())
    )));
}

#[test]
fn items_of_lists_are_numbered_in_turn() {
    let lines = rendered("3. three\n4. four\n", 40);
    assert!(lines.iter().any(|line| line.contains("3. three")));
    assert!(lines.iter().any(|line| line.contains("4. four")));
    assert!(rendered("- one\n", 40)
        .iter()
        .any(|line| line.contains("- one")));
}

#[test]
fn quotations_stand_behind_their_marks() {
    let lines = rendered("> said\n", 40);
    assert!(lines.iter().any(|line| line.contains("> said")));
}

#[test]
fn code_is_shown_as_it_stands() {
    let lines = rendered("```\nlet a = \"*b*\";\n```\n", 60);
    assert!(lines.iter().any(|line| line.contains("let a = \"*b*\";")));
}

#[test]
fn addresses_follow_labels_that_hide_them() {
    let hidden = rendered("[docs](https://example.com)", 80).join("\n");
    assert!(hidden.contains("docs"));
    assert!(hidden.contains("https://example.com"));
    let shown = rendered("[https://example.com](https://example.com)", 80).join("\n");
    assert_eq!(shown.matches("https://example.com").count(), 1);
}

#[test]
fn events_render_without_a_parser() {
    let highlighter = CodeHighlighter::new();
    let blocks = render_events(
        &vec![
            MarkdownEvent::Start(MarkdownTag::Paragraph, TagDetail::Bare),
            MarkdownEvent::Text("plain".to_owned()),
            MarkdownEvent::End(MarkdownTag::Paragraph),
        ],
        20,
        CodeTheme::Dracula,
        &highlighter,
    );
    assert_eq!(markdown_text(&blocks[0]), "plain");
}

fn cell(text: &str) -> StyledTextPart {
    StyledTextPart {
        text: text.to_owned(),
        style: Style::plain(),
        atomic: false,
    }
}

#[test]
fn tables_line_up_their_columns() {
    let mut table = TableState::new();
    table.in_head = true;
    table.start_row();
    for text in ["a", "long"] {
        table.start_cell();
        table.push_part(cell(text));
        table.finish_cell();
    }
    table.finish_row();
    table.in_head = false;
    table.start_row();
    table.start_cell();
    table.push_part(cell("wide"));
    table.finish_cell();
    table.finish_row();
    table.start_row();
    table.finish_row();

    assert_eq!(table.rows.len(), 2, "a row without cells is left out");
    let lines = table_lines(&table.rows, 40);
    let texts: Vec<String> = lines.iter().map(|line| line.text()).collect();
    assert_eq!(texts.len(), 3);
    let bars: Vec<usize> = texts[0].match_indices('|').map(|(at, _)| at).collect();
    let others: Vec<usize> = texts[2].match_indices('|').map(|(at, _)| at).collect();
    assert_eq!(bars, others);
}

#[test]
fn wide_columns_give_way_first() {
    let mut widths = vec![10, 4];
    fit_table_widths(&mut widths, 10);
    assert_eq!(widths, vec![4, 3]);
    let mut narrow = vec![3, 3];
    fit_table_widths(&mut narrow, 100);
    assert_eq!(narrow, vec![3, 3]);
}

#[test]
fn texts_are_cut_by_their_columns() {
    assert_eq!(truncate_to_width("abc", 2), "ab");
    assert_eq!(truncate_to_width("界界", 3), "界");
    assert_eq!(truncate_to_width("abc", 9), "abc");
}

#[test]
fn commands_keep_their_text_in_colors() {
    let command = "cat 'a b' | grep -n x && echo \"y\"";
    let spans = command_spans(command);
    let joined: String = spans.iter().map(|span| span.content.as_str()).collect();
    assert_eq!(joined, command);
    assert!(spans.iter().any(|span| span.content == "|"));
    assert!(spans.iter().any(|span| span.content == "'a b'"));
    assert_eq!(shell_operator_len("2>&1 x"), Some(4));
    assert_eq!(shell_operator_len("&& x"), Some(2));
    assert_eq!(shell_operator_len("x"), None);
}

#[test]
fn titles_are_split_into_word_and_detail() {
    assert_eq!(
        strip_tool_title_detail("Read a.rs", "Read"),
        Some("a.rs".to_owned())
    );
    assert_eq!(
        strip_tool_title_detail("Read", "Read"),
        Some(String::new())
    );
    assert_eq!(strip_tool_title_detail("Reading", "Read"), None);
    assert_eq!(tool_title_keyword("MCP"), Some("MCP"));
    assert_eq!(tool_title_keyword("Ran"), None);
}

#[test]
fn splitting_a_command_loses_nothing() {
    for detail in [
        "ls (cwd: .)",
        "ls (cwd: .) -> 1",
        "ls (a) b",
        "ls",
        "f(x) (",
    ] {
        let (command, suffix) = split_command_suffix(detail);
        assert_eq!(format!("{command}{suffix}"), detail);
    }
    assert_eq!(
        split_command_suffix("ls (cwd: .)"),
        ("ls".to_owned(), " (cwd: .)".to_owned())
    );
    assert_eq!(
        split_command_suffix("ls (a) b"),
        ("ls (a) b".to_owned(), String::new())
    );
}

#[test]
fn passing_remarks_are_one_line() {
    let lines = muted_lines("Read", "a.rs");
    assert_eq!(lines.len(), 1);
    assert_eq!(block_text(&lines[0]), "Read a.rs");
    assert_eq!(block_text(&muted_lines("Anything", "")[0]), "Anything");
}

#[test]
fn patches_are_told_in_two_lines_a_file() {
    let lines = compact_patch_lines(&vec![PatchChangeView {
        path: "a.rs".to_owned(),
        operation: PatchOperationView::Update,
        added: 3,
        removed: 1,
        hunks: 2,
        lines_before: None,
        lines_after: None,
        bytes_before: Some(10),
        bytes_after: None,
        lines: Vec::new(),
    }]);
    assert_eq!(lines.len(), 2);
    assert_eq!(block_text(&lines[0]), "Edited a.rs (+3 -1)");
    assert!(block_text(&lines[1]).starts_with("  2 hunk(s), 10 -> "));
}

fn finished(exit_code: Option<i64>, failure: Option<CommandFailure>) -> FinishedCommand {
    FinishedCommand {
        detail: "ls (cwd: .)".to_owned(),
        exit_code,
        failure,
        preview: ProcessOutputPreview {
            lines: vec!["a.rs".to_owned()],
            truncated: true,
        },
        command: "ls".to_owned(),
        cwd: ".".to_owned(),
        artifact_id: "artifact".to_owned(),
        elapsed: None,
    }
}

fn elapsed(millis: u64, text: &str) -> Elapsed {
    Elapsed {
        millis,
        seconds_text: text.to_owned(),
    }
}

#[test]
fn commands_tell_how_they_ended() {
    let told = |command: FinishedCommand| {
        let lines = command_lines(
            &CommandView::Finished(command),
            elapsed(0, "0.0"),
            true,
            80,
        );
        lines.iter().map(block_text).collect::<Vec<_>>().join("\n")
    };
    assert!(told(finished(Some(0), None)).starts_with("Ran ls (cwd: .)"));
    assert!(told(finished(Some(2), None)).contains(" -> 2"));
    assert!(told(finished(None, Some(CommandFailure::Failed))).contains(" -> failed"));
    assert!(told(finished(None, Some(CommandFailure::Cancelled))).contains(" -> cancelled"));
    assert!(told(finished(Some(2), None)).contains("a.rs"));
    assert!(told(finished(Some(2), None)).ends_with("  ..."));
}

#[test]
fn running_commands_are_told_as_such() {
    let lines = command_lines(
        &CommandView::Running {
            detail: "ls".to_owned(),
            started_at_ms: 0,
        },
        elapsed(1_500, "1.5"),
        false,
        80,
    );
    assert!(block_text(&lines[0]).starts_with("Running "));
    assert!(block_text(&lines[0]).contains("1.5"));
}

#[test]
fn errors_tell_their_first_line() {
    let lines = diagnostic_lines("provider", "\n  \noffline\nmore", 40);
    assert_eq!(block_text(&lines[0]), "! Error  provider: offline");
    assert_eq!(
        block_text(&diagnostic_lines("x", "", 40)[0]),
        "! Error  x: run failed"
    );
}

#[test]
fn messages_are_told_line_by_line() {
    let lines = user_lines("one\ntwo", QueuedInputLane::Backlog);
    assert_eq!(lines.len(), 2);
    assert!(block_text(&lines[0]).contains("backlog  one"));
    assert!(block_text(&lines[1]).ends_with("two"));
    assert_eq!(assistant_separator_line(3).text(), "---");
    assert_eq!(assistant_separator_line(0).text(), "-");
}

fn row(text: &str) -> TranscriptRow {
    TranscriptRow::new(Line::one(Span::raw(text)), SelectionPolicy::Keep)
}

fn item(texts: &[&str]) -> ItemRows {
    ItemRows {
        rows: texts.iter().map(|text| row(text)).collect(),
        targets: Vec::new(),
        is_command: false,
    }
}

#[test]
fn answers_carry_a_control_that_copies_them() {
    let rendered = RenderedMarkdown {
        rows: vec![row("answer")],
        copy_targets: Vec::new(),
    };
    let lines = assistant_lines(rendered, 4, 40);
    assert_eq!(lines.rows.len(), 3);
    assert!(lines.rows[0].display.text().contains("[Copy reply]"));
    assert_eq!(lines.rows[1].display.text(), "answer");
    assert_eq!(lines.rows[2].display.text(), "-".repeat(40));
    assert_eq!(
        lines.copy_targets[0].content,
        CopyContent::AssistantMessage(4)
    );

    let narrow = assistant_lines(
        RenderedMarkdown {
            rows: vec![row("x")],
            copy_targets: Vec::new(),
        },
        0,
        3,
    );
    assert_eq!(narrow.copy_targets.len(), narrow.rows.len() - 2);
}

fn following() -> TimelineScroll {
    TimelineScroll {
        anchor: None,
        offset: 0,
    }
}

#[test]
fn rows_start_where_the_rows_before_them_end() {
    let layout = timeline_layout(&vec![item(&["aaaa", "b"]), item(&["c"])], None, 2);
    assert_eq!(layout.row_starts[0], 0);
    assert!(layout.row_starts.windows(2).all(|pair| pair[0] <= pair[1]));
    assert_eq!(layout.row_starts.len(), layout.rows.len() + 1);
    assert_eq!(layout.item_starts.len(), 2);
    assert!(
        layout.total_rows() > layout.rows.len(),
        "a wide row takes more than one line"
    );
}

#[test]
fn conversations_are_followed_to_their_end() {
    let layout = timeline_layout(&vec![item(&["a", "b", "c", "d"])], None, 20);
    let total = layout.total_rows();
    assert_eq!(timeline_scroll_start(&layout, following(), 2), total - 2);
    let up = TimelineScroll {
        anchor: None,
        offset: 1,
    };
    assert_eq!(timeline_scroll_start(&layout, up, 2), total - 3);
    let viewport = timeline_viewport(layout, up, 2);
    assert_eq!(viewport.scroll as usize, total - 3);
}

#[test]
fn held_conversations_stay_where_they_are() {
    let items = vec![item(&["a", "b"]), item(&["c", "d"])];
    let layout = timeline_layout(&items, None, 20);
    let content = Rect::new(0, 0, 20, 2);
    let scrolled = TimelineScroll {
        anchor: None,
        offset: 1,
    };
    let (anchor, offset) =
        prepare_timeline_viewport(&layout, scrolled, content).expect("something is seen");
    let held = TimelineScroll {
        anchor: Some(anchor),
        offset,
    };
    assert_eq!(
        timeline_scroll_start(&layout, held, 2),
        timeline_scroll_start(&layout, scrolled, 2)
    );

    let longer = timeline_layout(
        &vec![item(&["a", "b"]), item(&["c", "d"]), item(&["e"])],
        None,
        20,
    );
    assert_eq!(
        timeline_scroll_start(&longer, held, 2),
        timeline_scroll_start(&layout, held, 2)
    );
}

#[test]
fn presses_copy_or_begin_a_selection() {
    let answer = assistant_lines(
        RenderedMarkdown {
            rows: vec![row("answer")],
            copy_targets: Vec::new(),
        },
        0,
        40,
    );
    let control = answer.copy_targets[0].column;
    let layout = timeline_layout(
        &vec![ItemRows {
            rows: answer.rows,
            targets: answer.copy_targets,
            is_command: false,
        }],
        None,
        40,
    );
    let items = vec![TimelineItem::Assistant {
        text: "whole answer".to_owned(),
    }];
    let region = Rect::new(0, 0, 41, 20);
    let content = timeline_content_region(region);
    let press = |x: u16, y: u16| {
        timeline_mouse_down(&layout, following(), region, Position { x, y }, &items)
    };
    assert_eq!(
        press(content.x + control, content.y),
        TimelinePress::Copy("whole answer".to_owned())
    );
    assert!(matches!(
        press(content.x, content.y + 1),
        TimelinePress::Select { first_row: 0, .. }
    ));
    assert_eq!(press(100, 100), TimelinePress::Nothing);
}

#[test]
fn reviews_say_whether_something_is_new() {
    assert_eq!(review_title(true, Some("End")), " New content · End latest ");
    assert_eq!(review_title(false, None), " Reviewing ");
}

#[test]
fn labels_of_pictures_stand_out_in_the_input() {
    let line = styled_input_line("see [Image #1] now", &vec!["[Image #1]".to_owned()]);
    assert_eq!(line.text(), "see [Image #1] now");
    assert_eq!(line.spans.len(), 3);
    assert_eq!(line.spans[1].content, "[Image #1]");
    assert!(line.spans[1].style != line.spans[0].style);
}

#[test]
fn waiting_messages_are_numbered() {
    let lines = queue_lines(
        &QueuePreview {
            next: vec!["one".to_owned(), "two".to_owned()],
            suspended: Vec::new(),
            backlog: Vec::new(),
        },
        60,
    );
    assert_eq!(block_text(&lines[0]), "Next       1. one | 2. two");
    assert_eq!(block_text(&lines[1]), "Suspended  --");
}

fn drawing_text(drawing: &OverlayDrawing) -> String {
    drawing
        .panes
        .iter()
        .map(|pane| match &pane.content {
            PaneContent::Lines { lines, .. } => lines
                .iter()
                .map(|line| line.text())
                .collect::<Vec<_>>()
                .join("\n"),
            PaneContent::Wrapped { text, .. } => text.clone(),
        })
        .collect::<Vec<_>>()
        .join("\n")
}

fn within(inner: Rect, outer: Rect) -> bool {
    inner.x >= outer.x
        && inner.y >= outer.y
        && inner.right() <= outer.right()
        && inner.bottom() <= outer.bottom()
}

fn settings_texts() -> SettingTexts {
    let text = |value: &str| value.to_owned();
    SettingTexts {
        code_theme: text("Dracula"),
        default_provider: text("openai"),
        default_model: text("gpt-test"),
        reasoning_effort: text("high"),
        context_window: text("272,000"),
        auto_compaction: text("On"),
        context_strategy: text("Balanced"),
        subagents: text("On"),
        max_threads: text("4"),
        keyboard_shortcuts: text("Open"),
    }
}

#[test]
fn overlays_lie_within_their_area() {
    let area = Rect::new(0, 0, 100, 40);
    let region = centered_rect(area, 80, 20);
    assert!(within(region, area));
    assert_eq!((region.width, region.height), (80, 20));
    assert!(within(inset(region, 2, 1), region));

    let drawing = render_settings(&SettingsOverlay::default(), &settings_texts(), area);
    assert!(within(drawing.surface.region, area));
    for pane in &drawing.panes {
        assert!(within(pane.region, drawing.surface.region));
    }
    assert!(drawing_text(&drawing).contains("gpt-test"));
}

#[test]
fn windows_follow_the_chosen_row() {
    assert_eq!(scroll_offset(0, 10, 4), 0);
    assert_eq!(scroll_offset(5, 10, 4), 2);
    assert_eq!(scroll_offset(9, 10, 4), 6);
    assert_eq!(scroll_offset(9, 3, 4), 0);
}

#[test]
fn every_listed_command_has_a_row() {
    let palette = CommandPalette::for_plan(PlanPaletteContext::default());
    let commands = palette.visible_commands();
    let rows = command_palette_rows(&commands);
    for (at, spec) in commands.iter().enumerate() {
        assert!(rows.iter().any(|row| matches!(
            row,
            CommandPaletteRow::Command { index, spec: shown } if *index == at && shown == spec
        )));
    }
    assert!(matches!(rows[0], CommandPaletteRow::Category(_)));
}

#[test]
fn palettes_show_the_keys_of_their_commands() {
    let palette = CommandPalette::for_plan(PlanPaletteContext::default());
    let area = Rect::new(0, 0, 100, 60);
    let drawing = render_command_palette(
        &palette,
        &vec![KeyLabel {
            action: KeyAction::Quit,
            label: "Ctrl+Q".to_owned(),
        }],
        area,
    );
    let text = drawing_text(&drawing);
    assert!(text.contains(palette.visible_commands()[0].label));
    assert!(drawing.cursor.is_some());
}

#[test]
fn dialogs_show_their_message() {
    let context = OverlayContext {
        keys: Vec::new(),
        settings: settings_texts(),
        model_name_is_valid: true,
    };
    let dialog = Overlay::Dialog(MessageDialogOverlay::new(
        MessageDialogKind::Error,
        "Provider not saved",
        "disk is full".to_owned(),
    ));
    let drawing =
        render_overlay(&dialog, &context, Rect::new(0, 0, 80, 24)).expect("dialogs are drawn");
    assert_eq!(drawing.surface.border, SemanticColor::Error);
    assert!(drawing_text(&drawing).contains("disk is full"));
}

#[test]
fn forms_never_show_the_key() {
    let mut form = ProviderFormOverlay::new("provider".to_owned(), TextSet::default());
    while form.selected_field() != ProviderFormField::ApiKey {
        form.handle_key(merry_tui::key::KeyEvent::new(
            merry_tui::key::KeyCode::Down,
            merry_tui::key::KeyModifiers::none(),
        ));
    }
    form.insert_paste("confidential");
    let drawing = render_provider_form(&form, Rect::new(0, 0, 100, 40));
    assert!(!drawing_text(&drawing).contains("confidential"));
    assert!(drawing_text(&drawing).contains("Base URL"));
}

#[test]
fn lists_show_the_chosen_item() {
    let items: Vec<ProviderListItem> = (0..30)
        .map(|n| {
            ProviderListItem::new(
                &format!("alias-{n}"),
                &format!("Provider {n}"),
                ConfiguredProviderKind::Anthropic,
                ProviderConfigSource::Managed,
                None,
                None,
            )
        })
        .collect();
    let manager = ProviderManagerOverlay::new(items, Some("alias-29"));
    let drawing = render_provider_manager(&manager, Rect::new(0, 0, 100, 24));
    assert!(drawing_text(&drawing).contains("Provider 29"));
    assert!(within(drawing.surface.region, Rect::new(0, 0, 100, 24)));
}

#[test]
fn unlisted_models_can_be_chosen_by_name() {
    let mut picker = ModelPickerOverlay::new(
        "openai".to_owned(),
        "OpenAI".to_owned(),
        vec![ModelListItem::new("gpt-test", Some("owner"))],
        false,
    );
    for letter in "my-model".chars() {
        picker.handle_key(
            merry_tui::key::KeyEvent::new(
                merry_tui::key::KeyCode::Char(letter),
                merry_tui::key::KeyModifiers::none(),
            ),
            true,
        );
    }
    let drawing = render_model_picker(&picker, true, Rect::new(0, 0, 100, 24));
    assert!(drawing_text(&drawing).contains("my-model"));
    assert_eq!(picker.manual_model(true), Some("my-model".to_owned()));
    assert_eq!(picker.manual_model(false), None);
}

#[test]
fn panes_without_room_are_not_drawn() {
    let rects = merry_tui::layout::cockpit_layout(
        Rect::new(0, 0, 50, 20),
        merry_tui::layout::BottomPaneHeights {
            queue: 0,
            completion: 0,
            input: 3,
            status: 1,
        },
        false,
        false,
    );
    let panes: Vec<ScreenPane> = drawn_panes(&rects, 0)
        .into_iter()
        .map(|(pane, _)| pane)
        .collect();
    assert_eq!(
        panes,
        vec![
            ScreenPane::Header,
            ScreenPane::Timeline,
            ScreenPane::Input,
            ScreenPane::Status,
        ]
    );
    assert_eq!(
        header_line("/repo", "gpt-test", "1k").text(),
        "merry  /repo  gpt-test  1k"
    );
}

#[test]
fn shell_tokens_are_measured_in_bytes() {
    assert_eq!(shell_quoted_token_len("'\u{e9}' x", '\''), 4);
    assert_eq!(shell_quoted_token_len("\"a\\\"b\" c", '"'), 6);
    assert_eq!(shell_quoted_token_len("'a\\' b", '\''), 4);
    assert_eq!(shell_quoted_token_len("'\u{e9}", '\''), 3);
    assert_eq!(shell_quoted_token_len("", '"'), 0);
    assert_eq!(shell_word_len("\u{e9}t\u{e9} x"), 5);
    assert_eq!(shell_word_len("a|b"), 1);
    assert_eq!(shell_word_len("\u{65e5}\u{672c}"), 6);
    assert_eq!(shell_word_len(""), 0);
}

#[test]
fn each_kind_of_markup_keeps_its_own_name() {
    let events = markdown_events("a <b>c</b>\n\n<div>\nd\n</div>\n");
    assert!(events.contains(&MarkdownEvent::InlineHtml("<b>".to_owned())));
    assert!(events.contains(&MarkdownEvent::Html("<div>\n".to_owned())));
    assert!(events.contains(&MarkdownEvent::Start(
        MarkdownTag::HtmlBlock,
        TagDetail::Bare
    )));
    assert!(events.contains(&MarkdownEvent::End(MarkdownTag::HtmlBlock)));
}

#[test]
fn rows_are_wrapped_up_to_the_widest_line() {
    let layout = timeline_layout(&vec![item(&["aaaa", "b"])], None, MAX_WRAP_WIDTH);
    assert_eq!(layout.total_rows(), layout.rows.len());
}

#[test]
fn the_panes_of_overlays_are_asked_for() {
    assert_eq!(palette_panes(), vec![Constraint::Length(2), Constraint::Min(1)]);
    assert_eq!(dialog_panes(), vec![Constraint::Min(1), Constraint::Length(1)]);
    assert_eq!(
        picker_panes(),
        vec![
            Constraint::Length(1),
            Constraint::Length(2),
            Constraint::Min(1),
            Constraint::Length(2),
        ]
    );
    assert_eq!(
        effort_panes(),
        vec![Constraint::Length(2), Constraint::Min(1), Constraint::Length(3)]
    );
}

#[test]
fn dialogs_are_drawn_in_the_panes_that_were_found() {
    let dialog =
        MessageDialogOverlay::new(MessageDialogKind::Error, "Stopped", "no model".to_owned());
    let keys = Line::one(Span::of("Esc", Style::color(SemanticColor::Focus)));
    let region = Rect::new(4, 2, 40, 8);
    let message = Rect::new(6, 3, 36, 5);
    let below = Rect::new(6, 8, 36, 1);
    let drawing = dialog_in_panes(&dialog, keys, region, message, below);
    assert_eq!(drawing.surface.region, region);
    assert_eq!(drawing.surface.title, " M  Stopped ");
    assert_eq!(drawing.surface.border, SemanticColor::Error);
    assert_eq!(drawing.panes.len(), 2);
    assert_eq!(drawing.panes[0].region, message);
    assert_eq!(drawing.panes[1].region, below);
}

#[test]
fn overlays_with_room_are_drawn_in_one_way() {
    for height in 12..=40 {
        let area = Rect::new(0, 0, 100, height);
        let picker = ModelPickerOverlay::new(
            "openai".to_owned(),
            "OpenAI".to_owned(),
            vec![ModelListItem::new("gpt-test", None)],
            false,
        );
        let drawing = render_model_picker(&picker, true, area);
        let inner = inset(drawing.surface.region, 2, 1);
        let rows: Vec<(u16, u16)> = drawing
            .panes
            .iter()
            .map(|pane| (pane.region.y - inner.y, pane.region.height))
            .collect();
        let rest = inner.height - 5;
        assert_eq!(rows, vec![(0, 1), (1, 2), (3, rest), (3 + rest, 2)], "{height}");

        let palette = CommandPalette::for_plan(PlanPaletteContext::default());
        let drawing = render_command_palette(&palette, &Vec::new(), area);
        let inner = inset(drawing.surface.region, 2, 1);
        assert_eq!(drawing.panes[0].region.height, 2);
        assert_eq!(drawing.panes[1].region.y, inner.y + 2);
        assert_eq!(drawing.panes[1].region.height, inner.height - 2);
    }
}

#[test]
fn selections_leave_the_mark_of_a_message_out() {
    let line = |text: &str| Line::one(Span::raw(text));
    let user = TimelineItem::User {
        text: "hi".to_owned(),
        lane: QueuedInputLane::Next,
    };
    let rows = item_rows_of(&user, vec![line("> hi"), line("  there")]);
    assert_eq!(
        rows,
        ItemRows {
            rows: vec![
                TranscriptRow::new(line("> hi"), SelectionPolicy::StripPrefix(2)),
                TranscriptRow::new(line("  there"), SelectionPolicy::StripPrefix(2)),
            ],
            targets: Vec::new(),
            is_command: false,
        }
    );
    let command = TimelineItem::Command {
        view: CommandView::Running {
            detail: "ls".to_owned(),
            started_at_ms: 0,
        },
    };
    let rows = item_rows_of(&command, vec![line("Running ls")]);
    assert!(rows.is_command);
    assert_eq!(rows.rows[0].selection, SelectionPolicy::Keep);
}

#[test]
fn documents_get_what_their_item_puts_around_them() {
    let body = || RenderedMarkdown {
        rows: vec![row("text")],
        copy_targets: Vec::new(),
    };
    let answer = TimelineItem::Assistant {
        text: "text".to_owned(),
    };
    let rows = document_rows_of(&answer, body(), 3, 40);
    assert_eq!(rows.rows.len(), 3);
    assert_eq!(rows.targets[0].content, CopyContent::AssistantMessage(3));
    assert_eq!(rows.rows[1], row("text"));
    assert!(!rows.is_command);
    let told = TimelineItem::LocalCommand {
        title: "Help".to_owned(),
        body: "text".to_owned(),
    };
    let rows = document_rows_of(&told, body(), 3, 40);
    assert_eq!(rows.rows[0].display.text(), "Help");
    assert_eq!(rows.rows[1].display.text(), " text");
    assert_eq!(rows.rows[1].selection, SelectionPolicy::StripPrefix(1));
    assert!(!rows.is_command, "what this program tells is no command of the run");
}
