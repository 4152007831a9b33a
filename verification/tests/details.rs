use merry_tui::command::PaletteCommand;
use merry_tui::command_details::{
    content_lines, details_title, first_visible_line, footer_hints, inspect_command, place_details,
    regions, signed_decimal_text, CommandDetails, CommandNavigation, DetailsKeyResult,
    DetailsLayout, DetailsOutput, Inspection,
};
use merry_tui::controller::{Cockpit, KeyLabels, RunStatus, TIMELINE_SCROLL_STEP};
use merry_tui::effects::StateRequest;
use merry_tui::input::TextInput;
use merry_tui::key::{KeyCode, KeyEvent, KeyModifiers};
use merry_tui::keymap::Keymap;
use merry_tui::layout::{PaneHeights, Position, Rect};
use merry_tui::markdown::{table_lines, TableRow};
use merry_tui::menu::{clamp_within, step_above, step_below};
use merry_tui::mouse::{
    cockpit_rects, handle_mouse_scroll_down, handle_mouse_scroll_up, lies_over_plan,
    position_in_plan_pane, turn_wheel, Size,
};
use merry_tui::overlay::{
    fuzzy_matches, plan_command_is_available, InputVerdicts, Overlay, OverlayKeyResult,
    PlanPaletteContext,
};
use merry_tui::plan::PlanUiState;
use merry_tui::plan_model::PlanPhase;
use merry_tui::plan_render::{bounded_activity_summary, compact_id, duration};
use merry_tui::process_output::{CapturedOutput, CapturedStream};
use merry_tui::timeline::{CommandView, FinishedCommand, ProcessOutputPreview, TimelineItem};
use merry_tui::ui::{Block, Style, StyledTextPart};

fn key(code: KeyCode) -> KeyEvent {
    KeyEvent::new(code, KeyModifiers::none())
}

fn finished(command: &str) -> FinishedCommand {
    FinishedCommand {
        detail: command.to_owned(),
        exit_code: Some(0),
        failure: None,
        preview: ProcessOutputPreview {
            lines: Vec::new(),
            truncated: false,
        },
        command: command.to_owned(),
        cwd: ".".to_owned(),
        artifact_id: format!("artifact-{command}"),
        elapsed: None,
    }
}

fn conversation() -> Vec<TimelineItem> {
    let command = |name: &str| TimelineItem::Command {
        view: CommandView::Finished(finished(name)),
    };
    vec![
        command("first"),
        TimelineItem::muted("Tool", "x"),
        command("second"),
        TimelineItem::Command {
            view: CommandView::Running {
                detail: "third".to_owned(),
                started_at_ms: 0,
            },
        },
    ]
}

fn opened(inspection: Inspection) -> CommandDetails {
    match inspection {
        Inspection::Open(details) => details,
        other => panic!("expected details, not {other:?}"),
    }
}

#[test]
fn the_latest_command_is_looked_at_first() {
    let items = conversation();
    let details = opened(inspect_command(&items, None, CommandNavigation::Latest));
    assert_eq!(details.timeline_index, 2);
    assert_eq!((details.ordinal, details.total), (2, 2));
    assert_eq!(details.artifact_id(), "artifact-second");
    assert_eq!(details_title(&details), " Command 2/2 ");
    assert_eq!(
        inspect_command(&Vec::new(), None, CommandNavigation::Latest),
        Inspection::NoCommands
    );
}

#[test]
fn a_step_back_leads_to_where_a_step_forward_began() {
    let items = conversation();
    let before = opened(inspect_command(
        &items,
        Some(2),
        CommandNavigation::Previous,
    ));
    assert_eq!(before.timeline_index, 0);
    let after = opened(inspect_command(
        &items,
        Some(before.timeline_index),
        CommandNavigation::Next,
    ));
    assert_eq!(after.timeline_index, 2);
    assert_eq!(
        inspect_command(&items, Some(0), CommandNavigation::Previous),
        Inspection::Unchanged
    );
}

fn details() -> CommandDetails {
    CommandDetails::new(0, 1, 1, finished("ls"))
}

fn output(text: &str) -> CapturedOutput {
    CapturedOutput::Process {
        stdout: CapturedStream {
            text: text.to_owned(),
            truncated: false,
            utf8: Some(true),
        },
        stderr: CapturedStream {
            text: String::new(),
            truncated: false,
            utf8: Some(true),
        },
    }
}

#[test]
fn outputs_of_other_commands_are_ignored() {
    let mut shown = details();
    shown.apply_output("artifact-other", Ok(output("no")));
    assert_eq!(shown.output, DetailsOutput::Loading);
    shown.apply_output("artifact-ls", Ok(output("yes")));
    assert_eq!(shown.output, DetailsOutput::Ready(output("yes")));
    shown.apply_output("artifact-ls", Err("gone".to_owned()));
    assert_eq!(shown.output, DetailsOutput::Failed("gone".to_owned()));
}

#[test]
fn details_copy_what_they_show() {
    let mut shown = details();
    assert_eq!(
        shown.handle_key(key(KeyCode::Char('c'))),
        DetailsKeyResult::CopyText("ls".to_owned())
    );
    assert_eq!(
        shown.handle_key(key(KeyCode::Char('y'))),
        DetailsKeyResult::Consumed
    );
    assert_eq!(
        shown.feedback,
        Some("Output is not available yet".to_owned())
    );
    shown.apply_output("artifact-ls", Ok(output("a.rs")));
    assert_eq!(
        shown.handle_key(key(KeyCode::Char('y'))),
        DetailsKeyResult::CopyText("a.rs".to_owned())
    );
    assert_eq!(shown.handle_key(key(KeyCode::Esc)), DetailsKeyResult::Close);
    assert_eq!(
        shown.handle_key(key(KeyCode::Left)),
        DetailsKeyResult::PreviousCommand
    );
}

#[test]
fn details_scroll_within_their_lines() {
    let mut shown = details();
    assert!(shown.needs_layout(40));
    shown.handle_key(key(KeyCode::End));
    shown.settle(
        Some(DetailsLayout {
            width: 40,
            lines: 30,
        }),
        10,
    );
    assert_eq!(shown.scroll, 20);
    assert!(!shown.needs_layout(40));
    assert!(shown.needs_layout(41));
    assert_eq!(first_visible_line(&shown, 30, 10), 20);
    assert_eq!(first_visible_line(&shown, 5, 10), 0);
    shown.handle_key(key(KeyCode::PageUp));
    assert_eq!(shown.scroll, 10);
    shown.handle_key(key(KeyCode::Home));
    assert_eq!(shown.scroll, 0);
}

#[test]
fn details_fill_the_inside_of_their_region() {
    for hint_rows in [0, 1, 5, 1_000] {
        let placed = place_details(Rect::new(0, 0, 100, 30), hint_rows);
        let inner = placed.region.inner();
        assert_eq!(placed.body.height + placed.footer.height, inner.height);
        assert_eq!(placed.footer.y, placed.body.bottom());
        assert!(placed.body.height > 0);
    }
}

#[test]
fn narrow_details_need_more_rows_for_their_hints() {
    let shown = details();
    let wide = regions(Rect::new(0, 0, 140, 30), &shown, Some("Ctrl+T"));
    let narrow = regions(Rect::new(0, 0, 24, 30), &shown, Some("Ctrl+T"));
    assert!(narrow.footer.height > wide.footer.height);
    assert!(!footer_hints(&shown, Some("Ctrl+T"), 100).is_empty());
}

#[test]
fn details_tell_the_command_and_its_output() {
    let mut shown = details();
    shown.apply_output("artifact-ls", Ok(output("a.rs\nb.rs")));
    let text: String = content_lines(&shown, 60)
        .iter()
        .map(|block| match block {
            Block::Line(line) => line.text(),
            Block::Wrapped { parts, .. } | Block::Hanging { parts, .. } => {
                parts.iter().map(|part| part.text.as_str()).collect()
            }
            Block::Composed(_) => String::new(),
        })
        .collect::<Vec<_>>()
        .join("\n");
    for word in ["ls", "a.rs", "b.rs"] {
        assert!(text.contains(word), "{word} in {text}");
    }
    assert_eq!(signed_decimal_text(-12), "-12");
    assert_eq!(signed_decimal_text(i64::MIN), "-9223372036854775808");
}

fn cockpit(overlay: Option<Overlay>) -> Cockpit {
    Cockpit {
        overlay,
        plan: PlanUiState::default(),
        completion_menu: None,
        keymap: Keymap::default(),
        input: TextInput::default(),
        items: Vec::new(),
        run: RunStatus {
            active: false,
            can_interrupt: false,
            interrupting: false,
            reviewing: false,
            text_selected: false,
        },
        key_labels: KeyLabels {
            submit: None,
            backlog: None,
            commands: None,
            stop: None,
        },
    }
}

#[test]
fn wheels_move_only_what_is_not_covered() {
    let position = Position { x: 1, y: 5 };
    let size = Size {
        width: 100,
        height: 30,
    };
    let heights = PaneHeights {
        queue: 0,
        completion: 0,
        input: 3,
    };
    let mut open = cockpit(None);
    assert_eq!(
        handle_mouse_scroll_up(position, size, heights, &mut open),
        vec![
            StateRequest::ClearTextSelection,
            StateRequest::ScrollTimelineUp(TIMELINE_SCROLL_STEP),
        ]
    );
    let mut covered = cockpit(Some(Overlay::settings()));
    assert_eq!(
        handle_mouse_scroll_down(position, size, heights, &mut covered),
        vec![StateRequest::ClearTextSelection]
    );
    let mut looking = cockpit(Some(Overlay::CommandDetails(details())));
    handle_mouse_scroll_down(position, size, heights, &mut looking);
    match looking.overlay {
        Some(Overlay::CommandDetails(shown)) => assert_eq!(shown.scroll, 10),
        _ => panic!("the details stay open"),
    }
}

#[test]
fn permissions_wait_for_an_answer() {
    let verdicts = || InputVerdicts {
        model_name_is_valid: true,
        effort_refusal: None,
    };
    let mut overlay = Overlay::permission_review("a1".to_owned(), "run ls?".to_owned());
    assert!(
        overlay.handle_key(key(KeyCode::Char('z')), verdicts()) == OverlayKeyResult::Consumed
    );
    assert!(
        overlay.handle_key(key(KeyCode::Char('y')), verdicts())
            == OverlayKeyResult::ApprovePermission("a1".to_owned())
    );
    assert!(
        overlay.handle_key(key(KeyCode::Char('n')), verdicts())
            == OverlayKeyResult::DenyPermission("a1".to_owned())
    );
    assert!(matches!(overlay, Overlay::PermissionReview(_)));
}

#[test]
fn ended_plans_are_only_entered_anew() {
    let ended = PlanPaletteContext {
        has_plan: true,
        phase: Some(PlanPhase::Completed),
        ..PlanPaletteContext::default()
    };
    assert!(plan_command_is_available(
        PaletteCommand::EnterPlanMode,
        ended
    ));
    for command in [
        PaletteCommand::ApprovePlan,
        PaletteCommand::RevisePlan,
        PaletteCommand::CancelPlan,
    ] {
        assert!(!plan_command_is_available(command, ended));
    }
}

#[test]
fn labels_answer_to_their_letters_in_order() {
    assert!(fuzzy_matches("Open settings", "osett"));
    assert!(fuzzy_matches("Open settings", "settings"));
    assert!(!fuzzy_matches("Open settings", "zs"));
}

#[test]
fn menus_stay_among_their_choices() {
    assert_eq!(step_below(0, 3), 1);
    assert_eq!(step_below(2, 3), 2);
    assert_eq!(step_above(step_below(0, 3)), 0);
    assert_eq!(step_above(0), 0);
    assert_eq!(clamp_within(9, 3), 2);
    assert_eq!(clamp_within(9, 0), 0);
}

#[test]
fn narrow_tables_keep_to_their_room() {
    let cell = |text: &str| {
        vec![StyledTextPart {
            text: text.to_owned(),
            style: Style::plain(),
            atomic: false,
        }]
    };
    let rows = vec![TableRow {
        cells: vec![cell("a very long cell"), cell("another long cell")],
        header: false,
    }];
    for line in table_lines(&rows, 20) {
        assert!(line.text().chars().count() <= 20);
    }
}

#[test]
fn plan_texts_are_short() {
    assert_eq!(duration(39_600_000), "11h 00m");
    assert_eq!(duration(61_000), "1m 01s");
    assert_eq!(compact_id("node", 10), "node");
    assert!(compact_id("a-very-long-identifier", 8).chars().count() <= 8);
    assert!(bounded_activity_summary(&"word ".repeat(100)).chars().count() < 200);
}

#[test]
fn the_wheel_belongs_to_the_plan_only_over_its_pane() {
    let size = Size {
        width: 140,
        height: 40,
    };
    let heights = PaneHeights {
        queue: 0,
        completion: 0,
        input: 3,
    };
    let mut state = cockpit(None);
    let far = Position { x: 138, y: 5 };
    let near = Position { x: 1, y: 5 };
    assert!(!position_in_plan_pane(far, size, heights, &state.plan));
    assert_eq!(
        handle_mouse_scroll_down(far, size, heights, &mut state).len(),
        2,
        "a closed plan catches no wheel"
    );
    state.plan.open = true;
    assert!(position_in_plan_pane(far, size, heights, &state.plan));
    assert!(!position_in_plan_pane(near, size, heights, &state.plan));
    let rects = cockpit_rects(size, heights, &state.plan);
    assert!(lies_over_plan(far, &rects));
    assert!(!lies_over_plan(near, &rects));
    assert_eq!(
        handle_mouse_scroll_up(far, size, heights, &mut state),
        vec![StateRequest::ClearTextSelection]
    );
    assert_eq!(
        turn_wheel(true, true, &mut state),
        vec![StateRequest::ClearTextSelection]
    );
    assert_eq!(
        turn_wheel(false, false, &mut state),
        vec![
            StateRequest::ClearTextSelection,
            StateRequest::ScrollTimelineDown(TIMELINE_SCROLL_STEP),
        ]
    );
}

#[test]
fn a_pane_that_lost_its_place_is_told() {
    let mut plan = PlanUiState::default();
    assert!(plan.is_well_formed());
    plan.scroll_offset = 1;
    assert!(!plan.is_well_formed(), "there is no row to scroll to");
    plan.scroll_offset = 0;
    plan.selected_node_id = Some("gone".to_owned());
    assert!(!plan.is_well_formed(), "no node has that name");
}
