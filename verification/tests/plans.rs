use merry_tui::command::PaletteCommand;
use merry_tui::controller::{handle_key_event, Cockpit, KeyLabels, RunStatus};
use merry_tui::effects::{ControllerEffect, NextStep, Outcome, StateRequest};
use merry_tui::input::TextInput;
use merry_tui::key::{KeyCode, KeyEvent, KeyModifiers};
use merry_tui::keymap::Keymap;
use merry_tui::layout::{cockpit_layout, BottomPaneHeights, Rect};
use merry_tui::overlay::{CommandPalette, InputVerdicts, Overlay, PlanPaletteContext};
use merry_tui::overlay_render::{render_overlay, OverlayContext, PaneContent, SettingTexts};
use merry_tui::plan::{PlanCounts, PlanUiState};
use merry_tui::plan_model::{
    CoordinatorDirectiveSnapshot, PlanApprovalRequirementKind, PlanApprovalRequirementSnapshot,
    PlanApprovalRequirementStatus, PlanAttemptProgressSnapshot, PlanAttemptSnapshot,
    PlanExecutionSummary, PlanExecutorPolicy, PlanHarnessSnapshot, PlanLeaseSnapshot,
    PlanLeaseStatus, PlanLinkSnapshot, PlanLinkStatus, PlanNodeSnapshot, PlanNodeStatus, PlanPhase,
    PlanSnapshot, SubagentActivityPhase, SubagentActivitySnapshot,
};
use merry_tui::plan_render::render_plan;
use merry_tui::projector::{Projection, ProjectionContext, RuntimeEvent, TuiProjector};
use merry_tui::render::{drawn_panes, ScreenPane};
use merry_tui::ui::Line;
use ratatui::backend::TestBackend;
use ratatui::layout as screen;
use ratatui::text as screen_text;
use ratatui::widgets::{Block, Borders, Clear, Paragraph, Wrap};
use ratatui::{Frame, Terminal};

fn add_live_attempt(snapshot: &mut PlanSnapshot) {
    snapshot.attempts.push(PlanAttemptSnapshot {
        attempt_id: "attempt-active".to_owned(),
        node_id: "active-leaf".to_owned(),
        outcome: None,
        diagnostic: None,
        latest_checkpoint_ref: Some("checkpoint-17".to_owned()),
    });
    snapshot.leases.push(PlanLeaseSnapshot {
        lease_id: "lease-active".to_owned(),
        attempt_id: "attempt-active".to_owned(),
        node_id: "active-leaf".to_owned(),
        executor_session_id: "subagent-active".to_owned(),
        last_heartbeat_at_ms: 39_600_000,
        lease_expires_at_ms: 39_630_000,
        status: PlanLeaseStatus::Live,
    });
    snapshot.attempt_progress.push(PlanAttemptProgressSnapshot {
        attempt_id: "attempt-active".to_owned(),
        node_id: "active-leaf".to_owned(),
        elapsed_ms: 39_600_000,
        model_turns: 42,
        last_subagent_heartbeat_at_ms: Some(39_600_000),
        last_durable_progress_at_ms: Some(39_540_000),
        provider_request_in_flight: true,
        tool_call_in_flight: false,
        artifacts_created: 7,
        summary: Some("Acceptance fixtures are still advancing".to_owned()),
        next_action: Some("finish the final deterministic fixture".to_owned()),
    });
    if let Some(node) = snapshot
        .nodes
        .iter_mut()
        .find(|node| node.id == "active-leaf")
    {
        node.execution_summary.active = 1;
        node.links.push(PlanLinkSnapshot {
            binding_id: "binding-active".to_owned(),
            subagent_id: "subagent-active".to_owned(),
            task_id: "task-active".to_owned(),
            status: PlanLinkStatus::Active,
            linked_at_ms: 1_000,
            terminal_at_ms: None,
            superseded_by: None,
        });
    }
    snapshot.directives.push(CoordinatorDirectiveSnapshot {
        sequence: 1,
        node_id: "active-leaf".to_owned(),
        kind: "converge".to_owned(),
        reason: "The acceptance target is already clear".to_owned(),
        instruction: Some("Finish the fixture and report evidence".to_owned()),
        status: "queued".to_owned(),
    });
}

fn key(code: KeyCode) -> KeyEvent {
    KeyEvent::new(code, KeyModifiers::none())
}

fn key_ctrl(code: char) -> KeyEvent {
    KeyEvent::new(KeyCode::Char(code), KeyModifiers::control())
}

fn harness() -> PlanHarnessSnapshot {
    PlanHarnessSnapshot {
        model_role: None,
        reasoning_effort: None,
        checkpoint_turn_interval: None,
        allowed_tools: Vec::new(),
        read_scope: Vec::new(),
        write_scope: Vec::new(),
        forbidden_paths: Vec::new(),
    }
}

fn node(
    id: &str,
    parent_id: Option<&str>,
    sibling_order: u16,
    status: PlanNodeStatus,
    depends_on: Vec<String>,
) -> PlanNodeSnapshot {
    PlanNodeSnapshot {
        id: id.to_owned(),
        parent_id: parent_id.map(str::to_owned),
        sibling_order,
        objective: format!("Objective {id}"),
        acceptance: vec![format!("Accept {id}")],
        status,
        executor_policy: PlanExecutorPolicy::Auto,
        harness: harness(),
        recovery_policy: "default".to_owned(),
        depends_on,
        result: None,
        created_revision: 1,
        updated_revision: 1,
        execution_summary: PlanExecutionSummary {
            active: 0,
            completed: 0,
            failed: 0,
            cancelled: 0,
        },
        links: Vec::new(),
    }
}

fn snapshot(revision: u64, active_leaf_status: PlanNodeStatus) -> PlanSnapshot {
    PlanSnapshot {
        plan_id: "plan-ui".to_owned(),
        revision,
        phase: PlanPhase::Executing,
        root_node_id: Some("root".to_owned()),
        coordinator_node_id: Some("root".to_owned()),
        authorized_capability_envelope: None,
        approval_requirements: Vec::new(),
        nodes: vec![
            node("root", None, 0, PlanNodeStatus::Expanded, Vec::new()),
            node(
                "active-parent",
                Some("root"),
                0,
                PlanNodeStatus::Expanded,
                Vec::new(),
            ),
            node(
                "active-leaf",
                Some("active-parent"),
                0,
                active_leaf_status,
                Vec::new(),
            ),
            node(
                "unrelated",
                Some("root"),
                1,
                PlanNodeStatus::Expanded,
                Vec::new(),
            ),
            node(
                "unrelated-leaf",
                Some("unrelated"),
                0,
                PlanNodeStatus::Pending,
                vec!["active-leaf".to_owned()],
            ),
        ],
        attempts: Vec::new(),
        leases: Vec::new(),
        attempt_progress: Vec::new(),
        directives: Vec::new(),
        subagent_heartbeat_ttl_ms: 30_000,
        max_concurrency_hint: Some(3),
        scheduler_status: "active".to_owned(),
        revision_summaries: Vec::new(),
    }
}

fn activity_for_task(
    subagent_id: &str,
    task_id: &str,
    phase: SubagentActivityPhase,
    summary: &str,
    updated_at_ms: u64,
) -> SubagentActivitySnapshot {
    SubagentActivitySnapshot {
        subagent_id: subagent_id.to_owned(),
        task_id: task_id.to_owned(),
        phase,
        summary: summary.to_owned(),
        updated_at_ms,
    }
}

fn activity(
    subagent_id: &str,
    phase: SubagentActivityPhase,
    summary: &str,
    updated_at_ms: u64,
) -> SubagentActivitySnapshot {
    activity_for_task(subagent_id, "task-active", phase, summary, updated_at_ms)
}

fn plan_event(snapshot: PlanSnapshot) -> RuntimeEvent {
    let summary = format!("plan revision {}", snapshot.revision);
    RuntimeEvent::PlanUpdated { snapshot, summary }
}

fn context(approval_open: bool) -> ProjectionContext {
    ProjectionContext {
        timeline_len: 0,
        now_ms: 1_000,
        approval_open,
    }
}

fn screen_rect(region: Rect) -> screen::Rect {
    screen::Rect::new(region.x, region.y, region.width, region.height)
}

fn screen_lines(lines: &[Line]) -> Vec<screen_text::Line<'static>> {
    lines
        .iter()
        .map(|line| screen_text::Line::from(line.text()))
        .collect()
}

fn draw_pane(frame: &mut Frame<'_>, plan: &PlanUiState, region: Rect) {
    let Some(pane) = render_plan(plan, region.width, region.height, None) else {
        return;
    };
    let mut shown = Paragraph::new(screen_lines(&pane.lines))
        .scroll((pane.scroll, 0))
        .block(Block::default().borders(Borders::ALL).title(pane.title.text()));
    if pane.wrap {
        shown = shown.wrap(Wrap { trim: false });
    }
    frame.render_widget(shown, screen_rect(region));
}

fn draw_overlay(frame: &mut Frame<'_>, overlay: &Overlay, area: Rect) {
    let context = OverlayContext {
        keys: Vec::new(),
        settings: no_settings(),
        model_name_is_valid: true,
    };
    let drawing = render_overlay(overlay, &context, area).expect("an overlay that is drawn");
    frame.render_widget(Clear, screen_rect(drawing.surface.region));
    frame.render_widget(
        Block::default()
            .borders(Borders::ALL)
            .title(drawing.surface.title.clone()),
        screen_rect(drawing.surface.region),
    );
    for pane in &drawing.panes {
        let shown = match &pane.content {
            PaneContent::Lines { lines, scroll } => {
                Paragraph::new(screen_lines(lines)).scroll((*scroll, 0))
            }
            PaneContent::Wrapped { text, .. } => {
                Paragraph::new(text.clone()).wrap(Wrap { trim: false })
            }
        };
        frame.render_widget(shown, screen_rect(pane.region));
    }
}

/// What the terminal shows: the conversation, the plan, the status, and what lies over them.
fn render_to_text(
    plan: &PlanUiState,
    overlay: Option<&Overlay>,
    answer: &str,
    width: u16,
    height: u16,
) -> String {
    let area = Rect::new(0, 0, width, height);
    let rects = cockpit_layout(
        area,
        BottomPaneHeights {
            queue: 0,
            completion: 0,
            input: 3,
            status: 1,
        },
        plan.is_open(),
        plan.is_focused(),
    );
    let mut terminal =
        Terminal::new(TestBackend::new(width, height)).expect("test terminal should build");
    terminal
        .draw(|frame| {
            for (pane, region) in drawn_panes(&rects, 0) {
                match pane {
                    ScreenPane::Timeline => {
                        frame.render_widget(Paragraph::new(answer.to_owned()), screen_rect(region));
                    }
                    ScreenPane::Plan => draw_pane(frame, plan, region),
                    ScreenPane::Status => {
                        frame.render_widget(Paragraph::new("Ready"), screen_rect(region));
                    }
                    _ => {}
                }
            }
            if let Some(overlay) = overlay {
                draw_overlay(frame, overlay, area);
            }
        })
        .expect("test render should draw");
    let buffer = terminal.backend().buffer().clone();
    let mut text = String::new();
    for y in 0..height {
        for x in 0..width {
            text.push_str(buffer[(x, y)].symbol());
        }
        text.push('\n');
    }
    text
}

fn pane_text(plan: &PlanUiState, width: u16, height: u16) -> String {
    render_to_text(plan, None, "", width, height)
}

fn overlay_text(state: &Cockpit) -> String {
    render_to_text(&state.plan, state.overlay.as_ref(), "", 80, 24)
}

fn no_settings() -> SettingTexts {
    SettingTexts {
        code_theme: String::new(),
        default_provider: String::new(),
        default_model: String::new(),
        reasoning_effort: String::new(),
        context_window: String::new(),
        auto_compaction: String::new(),
        context_strategy: String::new(),
        subagents: String::new(),
        max_threads: String::new(),
        keyboard_shortcuts: String::new(),
    }
}

fn cockpit(plan: PlanUiState) -> Cockpit {
    Cockpit {
        overlay: None,
        plan,
        completion_menu: None,
        keymap: Keymap::default(),
        input: TextInput::default(),
        items: Vec::new(),
        run: RunStatus {
            active: false,
            can_interrupt: false,
            interrupting: false,
            reviewing: false,
            text_selected: false,
        },
        key_labels: KeyLabels {
            submit: None,
            backlog: None,
            commands: None,
            stop: None,
        },
    }
}

fn verdicts() -> InputVerdicts {
    InputVerdicts {
        model_name_is_valid: true,
        effort_refusal: None,
    }
}

/// Presses a key and does what it asks of the screen.
fn press(event: KeyEvent, state: &mut Cockpit) -> ControllerEffect {
    let Outcome { requests, next } = handle_key_event(event, state, verdicts());
    for request in requests {
        match request {
            StateRequest::CloseOverlay => state.overlay = None,
            StateRequest::OpenPlanApproval => open_approval(state),
            StateRequest::InputKey(event) => state.input.handle_key(event),
            _ => {}
        }
    }
    match next {
        NextStep::Effect(effect) => effect,
        NextStep::Ask(_) => ControllerEffect::Nothing,
    }
}

fn open_approval(state: &mut Cockpit) {
    let message = state.plan.approval_summary().expect("an active plan");
    let input = state.plan.approval_input().expect("an active plan");
    state.overlay = Some(Overlay::plan_approval(message, input));
}

/// Does what the projector asks of the overlay.
fn show(told: Vec<Projection>, state: &mut Cockpit) {
    if told.contains(&Projection::OpenPlanApproval) {
        open_approval(state);
    }
}

fn is_plan_approval(state: &Cockpit) -> bool {
    matches!(state.overlay, Some(Overlay::PlanApproval(_)))
}

#[test]
fn plan_event_updates_tree_without_resetting_selection() {
    let mut plan = PlanUiState::default();
    let mut projector = TuiProjector::new();
    projector.apply(
        plan_event(snapshot(1, PlanNodeStatus::Pending)),
        context(false),
        &mut plan,
    );
    plan.select_node("unrelated");
    plan.toggle_collapse("active-parent");
    plan.toggle_collapse("unrelated");

    projector.apply(
        plan_event(snapshot(2, PlanNodeStatus::InProgress)),
        context(false),
        &mut plan,
    );

    assert_eq!(plan.selected_node_id(), Some("unrelated"));
    assert!(!plan.is_collapsed("active-parent"));
    assert!(plan.is_collapsed("unrelated"));
}

#[test]
fn active_path_is_revealed_without_unfolding_unrelated_branches() {
    let mut state = PlanUiState::default();
    state.update_snapshot(snapshot(1, PlanNodeStatus::Pending));
    state.toggle_collapse("active-parent");
    state.toggle_collapse("unrelated");

    state.update_snapshot(snapshot(2, PlanNodeStatus::Verifying));

    let visible = state
        .visible_rows()
        .into_iter()
        .map(|row| row.node_id)
        .collect::<Vec<_>>();
    assert!(visible.contains(&"active-leaf".to_owned()));
    assert!(!visible.contains(&"unrelated-leaf".to_owned()));
}

#[test]
fn plan_pane_derives_live_ready_and_blocked_counts() {
    let mut snapshot = snapshot(1, PlanNodeStatus::InProgress);
    snapshot
        .nodes
        .iter_mut()
        .find(|node| node.id == "active-leaf")
        .expect("active leaf exists")
        .execution_summary
        .active = 1;
    snapshot.nodes.push(node(
        "ready",
        Some("root"),
        2,
        PlanNodeStatus::Pending,
        Vec::new(),
    ));
    snapshot.nodes.push(node(
        "blocked",
        Some("root"),
        3,
        PlanNodeStatus::Blocked,
        Vec::new(),
    ));
    snapshot.leases.push(PlanLeaseSnapshot {
        lease_id: "lease-active".to_owned(),
        attempt_id: "attempt-active".to_owned(),
        node_id: "active-leaf".to_owned(),
        executor_session_id: "subagent-active".to_owned(),
        last_heartbeat_at_ms: 20,
        lease_expires_at_ms: 30,
        status: PlanLeaseStatus::Live,
    });
    snapshot.attempts.push(PlanAttemptSnapshot {
        attempt_id: "attempt-active".to_owned(),
        node_id: "active-leaf".to_owned(),
        outcome: None,
        diagnostic: None,
        latest_checkpoint_ref: None,
    });
    let mut state = PlanUiState::default();
    state.update_snapshot(snapshot);

    assert_eq!(
        state.counts(),
        PlanCounts {
            live: 1,
            ready: 1,
            blocked: 1,
        }
    );
}

#[test]
fn plan_pane_counts_a_live_local_attempt_without_a_lease() {
    let mut snapshot = snapshot(1, PlanNodeStatus::InProgress);
    snapshot.attempts.push(PlanAttemptSnapshot {
        attempt_id: "attempt-local".to_owned(),
        node_id: "active-leaf".to_owned(),
        outcome: None,
        diagnostic: None,
        latest_checkpoint_ref: None,
    });
    let mut state = PlanUiState::default();
    state.update_snapshot(snapshot);

    assert_eq!(
        state.counts().live,
        0,
        "unbound attempts are not Plan links"
    );
}

#[test]
fn subagent_activity_attaches_only_to_its_linked_plan_node() {
    let mut plan = snapshot(1, PlanNodeStatus::InProgress);
    add_live_attempt(&mut plan);
    let mut state = PlanUiState::default();
    state.update_subagent_activity(vec![
        activity(
            "subagent-active",
            SubagentActivityPhase::Running,
            "editing the linked file",
            10,
        ),
        activity(
            "unrelated-agent",
            SubagentActivityPhase::Running,
            "should stay hidden",
            20,
        ),
    ]);
    state.update_snapshot(plan);

    let rows = state.visible_rows();
    let active = rows
        .iter()
        .find(|row| row.node_id == "active-leaf")
        .expect("linked node should be visible");
    let unrelated = rows
        .iter()
        .find(|row| row.node_id == "unrelated")
        .expect("unrelated node should be visible");
    assert_eq!(
        active
            .activity
            .as_ref()
            .map(|snapshot| snapshot.summary.as_str()),
        Some("editing the linked file")
    );
    assert!(unrelated.activity.is_none());
}

#[test]
fn same_subagent_activity_for_a_different_task_is_not_attached() {
    let mut plan = snapshot(1, PlanNodeStatus::InProgress);
    add_live_attempt(&mut plan);
    let mut state = PlanUiState::default();
    state.update_subagent_activity(vec![activity_for_task(
        "subagent-active",
        "task-other",
        SubagentActivityPhase::Running,
        "stale task activity",
        20,
    )]);
    state.update_snapshot(plan);

    let row = state
        .visible_rows()
        .into_iter()
        .find(|row| row.node_id == "active-leaf")
        .expect("linked node should be visible");
    assert!(row.activity.is_none());
}

#[test]
fn latest_subagent_activity_replaces_the_prior_summary() {
    let mut plan = snapshot(1, PlanNodeStatus::InProgress);
    add_live_attempt(&mut plan);
    let mut state = PlanUiState::default();
    state.update_snapshot(plan);
    state.update_subagent_activity(vec![activity(
        "subagent-active",
        SubagentActivityPhase::Running,
        "old summary",
        10,
    )]);
    state.update_subagent_activity(vec![activity(
        "subagent-active",
        SubagentActivityPhase::Waiting,
        "new summary",
        20,
    )]);

    let row = state
        .visible_rows()
        .into_iter()
        .find(|row| row.node_id == "active-leaf")
        .expect("linked node should be visible");
    assert_eq!(
        row.activity
            .as_ref()
            .map(|activity| activity.summary.as_str()),
        Some("new summary")
    );
    assert_eq!(
        row.activity.as_ref().map(|activity| activity.phase),
        Some(SubagentActivityPhase::Waiting)
    );
}

#[test]
fn terminal_subagent_activity_is_rendered_on_the_plan_node() {
    let mut state = PlanUiState::default();
    let mut plan = snapshot(1, PlanNodeStatus::InProgress);
    add_live_attempt(&mut plan);
    state.update_snapshot(plan);
    state.update_subagent_activity(vec![activity(
        "subagent-active",
        SubagentActivityPhase::Completed,
        "finished the linked task",
        30,
    )]);

    let rendered = pane_text(&state, 140, 40);

    assert!(rendered.contains("completed  finished the linked task"));

    state.open_and_focus();
    state.select_node("active-leaf");
    state.open_inspector();
    assert!(pane_text(&state, 140, 40).contains("latest: completed  finished the linked task"));
}

#[test]
fn no_subagent_activity_preserves_existing_plan_tree_rendering() {
    let mut state = PlanUiState::default();
    let mut plan = snapshot(1, PlanNodeStatus::InProgress);
    add_live_attempt(&mut plan);
    state.update_snapshot(plan);
    let before = pane_text(&state, 140, 40);

    state.update_subagent_activity(Vec::new());

    assert_eq!(pane_text(&state, 140, 40), before);
}

#[test]
fn long_subagent_summary_does_not_change_tree_geometry_or_bottom_panes() {
    let mut state = PlanUiState::default();
    let mut plan = snapshot(1, PlanNodeStatus::InProgress);
    add_live_attempt(&mut plan);
    state.update_snapshot(plan);
    let node_count = state.visible_rows().len();
    state.update_subagent_activity(vec![activity(
        "subagent-active",
        SubagentActivityPhase::Running,
        &"a very long bounded summary ".repeat(40),
        40,
    )]);

    let rendered = pane_text(&state, 80, 24);

    assert_eq!(state.visible_rows().len(), node_count);
    assert_eq!(rendered.lines().count(), 24);
    assert!(rendered.contains("Ready"));
    assert!(!rendered.contains(&"a very long bounded summary ".repeat(10)));
}

#[test]
fn projector_opens_execution_review_for_a_non_empty_planning_draft() {
    let mut state = cockpit(PlanUiState::default());
    let mut projector = TuiProjector::new();
    let mut planning = snapshot(1, PlanNodeStatus::Pending);
    planning.phase = PlanPhase::Planning;
    planning.approval_requirements.clear();

    let told = projector.apply(plan_event(planning), context(false), &mut state.plan);
    show(told, &mut state);

    assert!(is_plan_approval(&state));
    assert!(overlay_text(&state).contains("Approve plan and execute?"));
}

#[test]
fn projector_applies_runtime_heartbeat_progress_to_the_live_plan_snapshot() {
    let mut state = PlanUiState::default();
    let mut projector = TuiProjector::new();
    let mut plan = snapshot(4, PlanNodeStatus::InProgress);
    add_live_attempt(&mut plan);
    plan.attempt_progress[0].elapsed_ms = 0;
    plan.attempt_progress[0].provider_request_in_flight = false;
    plan.attempt_progress[0].last_subagent_heartbeat_at_ms = Some(1_000);
    projector.apply(plan_event(plan), context(false), &mut state);

    let mut heartbeat = state.snapshot().expect("a plan").attempt_progress[0].clone();
    heartbeat.elapsed_ms = 39_600_000;
    heartbeat.provider_request_in_flight = true;
    heartbeat.last_subagent_heartbeat_at_ms = Some(39_600_000);
    projector.apply(
        RuntimeEvent::PlanProgressUpdated(heartbeat),
        context(false),
        &mut state,
    );
    state.open_and_focus();
    state.select_node("active-leaf");
    state.open_inspector();
    state.scroll_inspector_down_by(12);

    let rendered = pane_text(&state, 140, 40);
    assert!(rendered.contains("elapsed 11h 00m"));
    assert!(rendered.contains("provider request in flight"));
    assert!(rendered.contains("heartbeat @ 39600000 ms"));
}

#[test]
fn ready_counts_match_recursive_execution_shape() {
    let mut state = PlanUiState::default();
    let mut plan = snapshot(1, PlanNodeStatus::Pending);
    plan.nodes[0].status = PlanNodeStatus::Pending;
    plan.nodes[1].status = PlanNodeStatus::Pending;
    plan.nodes[2].status = PlanNodeStatus::Pending;
    plan.nodes[3].status = PlanNodeStatus::Superseded;
    plan.nodes[4].status = PlanNodeStatus::Superseded;
    state.update_snapshot(plan.clone());
    assert_eq!(state.counts().ready, 1, "only the pending leaf is ready");

    plan.nodes[0].status = PlanNodeStatus::Verifying;
    plan.nodes[1].status = PlanNodeStatus::Completed;
    plan.nodes[2].status = PlanNodeStatus::Completed;
    state.update_snapshot(plan);
    assert_eq!(
        state.counts().ready,
        1,
        "the verifying parent becomes ready"
    );
}

#[test]
fn superseded_nodes_are_hidden_from_the_current_plan_tree() {
    let mut state = PlanUiState::default();
    let mut plan = snapshot(4, PlanNodeStatus::Pending);
    plan.nodes.push(node(
        "old-child",
        Some("root"),
        0,
        PlanNodeStatus::Superseded,
        Vec::new(),
    ));

    state.update_snapshot(plan);

    assert!(state
        .visible_rows()
        .iter()
        .all(|row| row.node_id != "old-child"));
    assert!(!pane_text(&state, 140, 40).contains("Objective old-child"));
}

#[test]
fn long_running_node_renders_progress_without_fake_deadline() {
    let mut state = PlanUiState::default();
    let mut plan = snapshot(4, PlanNodeStatus::InProgress);
    add_live_attempt(&mut plan);
    state.update_snapshot(plan);
    state.open_and_focus();
    state.select_node("active-leaf");
    state.open_inspector();
    state.scroll_inspector_down_by(12);

    let rendered = pane_text(&state, 140, 40);

    assert!(rendered.contains("elapsed 11h 00m"));
    assert!(rendered.contains("provider request in flight"));
    assert!(rendered.contains("durable progress"));
    assert!(!rendered.to_ascii_lowercase().contains("remaining"));
    assert!(!rendered.to_ascii_lowercase().contains("deadline"));
}

fn plan_commands(plan: &PlanUiState) -> Vec<PaletteCommand> {
    let palette = CommandPalette::for_plan(PlanPaletteContext::from_snapshot(
        plan.snapshot(),
        plan.selected_node_id(),
        plan.is_open(),
        plan.is_focused(),
    ));
    palette
        .visible_commands()
        .into_iter()
        .filter(|command| command.category == "Plan")
        .map(|command| command.command)
        .collect()
}

#[test]
fn plan_palette_commands_follow_runtime_phase() {
    let mut plan = PlanUiState::default();
    assert_eq!(plan_commands(&plan), vec![PaletteCommand::EnterPlanMode]);

    let mut planning = snapshot(1, PlanNodeStatus::Pending);
    planning.phase = PlanPhase::Planning;
    plan.update_snapshot(planning);
    let commands = plan_commands(&plan);
    assert!(commands.contains(&PaletteCommand::ApprovePlan));

    let mut awaiting = snapshot(2, PlanNodeStatus::Pending);
    awaiting.phase = PlanPhase::AwaitingApproval;
    plan.update_snapshot(awaiting);
    let commands = plan_commands(&plan);
    assert!(commands.contains(&PaletteCommand::ApprovePlan));
    assert!(commands.contains(&PaletteCommand::RevisePlan));
    assert!(commands.contains(&PaletteCommand::FocusPlan));
    assert!(commands.contains(&PaletteCommand::ClosePlan));
    assert!(!commands.contains(&PaletteCommand::EnterPlanMode));

    let executing = snapshot(3, PlanNodeStatus::InProgress);
    plan.update_snapshot(executing.clone());
    let commands = plan_commands(&plan);
    assert!(!commands.contains(&PaletteCommand::RetryPlanNode));

    let mut blocked = snapshot(4, PlanNodeStatus::Blocked);
    blocked.phase = PlanPhase::Blocked;
    plan.update_snapshot(blocked);
    let commands = plan_commands(&plan);
    assert!(commands.contains(&PaletteCommand::EnterPlanMode));
    assert!(!commands.contains(&PaletteCommand::RevisePlan));
    assert!(!commands.contains(&PaletteCommand::CancelPlan));

    let mut completed = snapshot(5, PlanNodeStatus::Completed);
    completed.phase = PlanPhase::Completed;
    plan.update_snapshot(completed);
    assert!(plan_commands(&plan).contains(&PaletteCommand::EnterPlanMode));

    let mut cancelled = snapshot(6, PlanNodeStatus::Blocked);
    cancelled.phase = PlanPhase::Cancelled;
    plan.update_snapshot(cancelled);
    assert!(plan_commands(&plan).contains(&PaletteCommand::EnterPlanMode));
}

fn requirement(id: &str, kind: PlanApprovalRequirementKind) -> PlanApprovalRequirementSnapshot {
    PlanApprovalRequirementSnapshot {
        requirement_id: id.to_owned(),
        kind,
        status: PlanApprovalRequirementStatus::Pending,
    }
}

#[test]
fn approve_plan_command_previews_exact_capability_scope_before_dispatch() {
    let mut plan = PlanUiState::default();
    let mut awaiting = snapshot(2, PlanNodeStatus::Pending);
    awaiting.phase = PlanPhase::AwaitingApproval;
    awaiting.nodes[0].harness.allowed_tools = vec!["run_process".to_owned()];
    awaiting.nodes[0].harness.write_scope = vec!["crates/merry-runtime".to_owned()];
    awaiting.approval_requirements = vec![requirement(
        "approval-permission",
        PlanApprovalRequirementKind::CapabilityOrPermissionExpansion,
    )];
    plan.update_snapshot(awaiting);
    let palette = PlanPaletteContext::from_snapshot(
        plan.snapshot(),
        plan.selected_node_id(),
        plan.is_open(),
        plan.is_focused(),
    );
    let mut state = cockpit(plan);
    state.overlay = Some(Overlay::command_palette_for_plan(palette));
    for character in "approve plan".chars() {
        press(key(KeyCode::Char(character)), &mut state);
    }

    let first = press(key(KeyCode::Enter), &mut state);
    assert!(first == ControllerEffect::Nothing);
    assert!(is_plan_approval(&state));
    let rendered = overlay_text(&state);
    assert!(rendered.contains("Tools: run_process"));
    assert!(rendered.contains("Write scope: crates/merry-runtime"));
    assert!(rendered.contains("capability or permission expansion"));

    let confirmed = press(key(KeyCode::Enter), &mut state);
    assert!(matches!(confirmed, ControllerEffect::ApprovePlan(_)));
}

#[test]
fn approval_uses_root_forbidden_paths_not_stricter_child_only_paths() {
    let mut plan = PlanUiState::default();
    let mut awaiting = snapshot(2, PlanNodeStatus::Pending);
    awaiting.phase = PlanPhase::AwaitingApproval;
    awaiting.nodes[0].harness.forbidden_paths = vec![".git".to_owned()];
    awaiting.nodes[1].harness.forbidden_paths =
        vec![".git".to_owned(), "private-child-cache".to_owned()];
    plan.update_snapshot(awaiting);

    let input = plan
        .approval_input()
        .expect("valid recursive plan has approval material");
    assert_eq!(
        input
            .capability_envelope
            .expect("approval carries an envelope")
            .forbidden_paths,
        vec![".git"]
    );
}

#[test]
fn projector_opens_plan_approval_when_runtime_enters_awaiting_approval() {
    let mut state = cockpit(PlanUiState::default());
    let mut projector = TuiProjector::new();
    let mut planning = snapshot(1, PlanNodeStatus::Pending);
    planning.phase = PlanPhase::Planning;
    planning.root_node_id = None;
    planning.nodes.clear();
    planning.approval_requirements.clear();
    let told = projector.apply(plan_event(planning), context(false), &mut state.plan);
    show(told, &mut state);
    assert!(state.overlay.is_none());

    let mut awaiting = snapshot(2, PlanNodeStatus::Pending);
    awaiting.phase = PlanPhase::AwaitingApproval;
    awaiting.approval_requirements = vec![requirement(
        "approval-user-review",
        PlanApprovalRequirementKind::UserReviewRequested,
    )];
    let told = projector.apply(plan_event(awaiting), context(false), &mut state.plan);

    show(told, &mut state);
    assert!(is_plan_approval(&state));
    let rendered = overlay_text(&state);
    assert!(rendered.contains("Approve plan and execute?"));
    assert!(rendered.contains("user review"));
    assert!(matches!(
        press(key(KeyCode::Enter), &mut state),
        ControllerEffect::ApprovePlan(_)
    ));
}

#[test]
fn projector_refreshes_an_open_approval_when_the_plan_revision_changes() {
    let mut state = cockpit(PlanUiState::default());
    let mut projector = TuiProjector::new();
    let mut first = snapshot(1, PlanNodeStatus::Pending);
    first.phase = PlanPhase::Planning;
    let told = projector.apply(plan_event(first), context(false), &mut state.plan);
    show(told, &mut state);
    assert!(overlay_text(&state).contains("Plan revision 1"));

    let mut second = snapshot(2, PlanNodeStatus::Pending);
    second.phase = PlanPhase::Planning;
    second.nodes[0].harness.allowed_tools = vec!["run_process".to_owned()];
    let told = projector.apply(plan_event(second), context(true), &mut state.plan);

    show(told, &mut state);
    let rendered = overlay_text(&state);
    assert!(rendered.contains("Plan revision 2"));
    assert!(rendered.contains("Tools: run_process"));
    assert!(!rendered.contains("Plan revision 1"));
}

#[test]
fn plan_inspector_renders_approval_requirements_and_directive_status() {
    let mut state = PlanUiState::default();
    let mut plan = snapshot(4, PlanNodeStatus::InProgress);
    add_live_attempt(&mut plan);
    plan.approval_requirements = vec![requirement(
        "approval-review",
        PlanApprovalRequirementKind::UserReviewRequested,
    )];
    state.update_snapshot(plan);
    state.open_and_focus();
    state.select_node("active-leaf");
    state.open_inspector();
    state.scroll_inspector_down_by(18);

    let rendered = pane_text(&state, 140, 40);

    assert!(rendered.contains("DIRECTIVES"));
    assert!(rendered.contains("converge"));
    assert!(rendered.contains("queued"));
    assert!(rendered.contains("APPROVALS"));
    assert!(rendered.contains("user review"));
}

#[test]
fn wide_tui_renders_timeline_and_recursive_plan_without_overlap() {
    let mut state = PlanUiState::default();
    let mut plan = snapshot(2, PlanNodeStatus::InProgress);
    add_live_attempt(&mut plan);
    plan.nodes.push(node(
        "ready",
        Some("root"),
        2,
        PlanNodeStatus::Pending,
        Vec::new(),
    ));
    plan.nodes.push(node(
        "blocked",
        Some("root"),
        3,
        PlanNodeStatus::Blocked,
        Vec::new(),
    ));
    state.update_snapshot(plan);

    let rendered = render_to_text(&state, None, "TIMELINE_SENTINEL", 140, 40);

    assert!(rendered.contains("TIMELINE_SENTINEL"));
    assert!(rendered.contains("Objective active-parent"));
    assert!(rendered.contains("Objective active-leaf"));
    assert!(rendered.contains("live 1"));
    assert!(rendered.contains("ready 1"));
    assert!(rendered.contains("blocked 1"));
}

#[test]
fn narrow_tui_renders_full_screen_plan_overlay_when_focused() {
    let mut state = PlanUiState::default();
    state.update_snapshot(snapshot(2, PlanNodeStatus::InProgress));
    state.open_and_focus();

    let rendered = render_to_text(&state, None, "TIMELINE_SENTINEL", 50, 20);

    assert!(!rendered.contains("TIMELINE_SENTINEL"));
    assert!(rendered.contains("Objective active-leaf"));
    assert!(rendered.contains("Ready"));
    assert_eq!(rendered.lines().count(), 20);
}

#[test]
fn standard_tui_renders_timeline_and_plan_side_by_side() {
    let mut state = PlanUiState::default();
    state.update_snapshot(snapshot(2, PlanNodeStatus::InProgress));

    let rendered = render_to_text(&state, None, "TIMELINE_SENTINEL", 80, 24);

    assert!(rendered.contains("TIMELINE_SENTINEL"));
    assert!(rendered.contains("Objective active-leaf"));
    assert_eq!(rendered.lines().count(), 24);
}

#[test]
fn plan_node_inspector_renders_bounded_content() {
    let mut state = PlanUiState::default();
    state.update_snapshot(snapshot(2, PlanNodeStatus::InProgress));
    state.open_and_focus();
    state.select_node("active-leaf");
    state.open_inspector();

    let rendered = pane_text(&state, 80, 24);

    assert!(rendered.contains("OBJECTIVE"));
    assert!(rendered.contains("ACCEPTANCE"));
    assert!(rendered.contains("Objective active-leaf"));
    assert_eq!(rendered.lines().count(), 24);
}

#[test]
fn focused_plan_navigation_does_not_edit_chat_input() {
    let mut plan = PlanUiState::default();
    plan.update_snapshot(snapshot(2, PlanNodeStatus::InProgress));
    plan.open_and_focus();
    let mut state = cockpit(plan);

    press(key(KeyCode::Down), &mut state);
    assert_eq!(state.plan.selected_node_id(), Some("active-parent"));
    press(key(KeyCode::Right), &mut state);
    assert_eq!(state.plan.selected_node_id(), Some("active-leaf"));
    press(key(KeyCode::Enter), &mut state);
    assert!(state.plan.is_inspector_open());
    press(key(KeyCode::Down), &mut state);
    assert_eq!(state.plan.inspector_scroll_offset(), 1);
    press(key(KeyCode::Char('x')), &mut state);
    assert!(state.input.text().is_empty());

    press(key(KeyCode::Esc), &mut state);
    assert!(!state.plan.is_inspector_open());
    assert!(state.plan.is_focused());
    press(key(KeyCode::Esc), &mut state);
    assert!(!state.plan.is_focused());
    assert!(state.plan.is_open());
}

#[test]
fn ctrl_o_toggles_plan_visibility_and_focus() {
    let mut plan = PlanUiState::default();
    plan.update_snapshot(snapshot(1, PlanNodeStatus::InProgress));
    let mut state = cockpit(plan);
    assert!(state.plan.is_open());
    assert!(!state.plan.is_focused());

    press(key_ctrl('o'), &mut state);
    assert!(!state.plan.is_open());

    press(key_ctrl('o'), &mut state);
    assert!(state.plan.is_open());
    assert!(state.plan.is_focused());

    press(key_ctrl('o'), &mut state);
    assert!(!state.plan.is_open());
}

#[test]
fn plan_header_shows_toggle_shortcut() {
    let mut state = PlanUiState::default();
    state.update_snapshot(snapshot(1, PlanNodeStatus::InProgress));

    assert!(pane_text(&state, 140, 40).contains("Ctrl+O"));
}
