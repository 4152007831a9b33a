use merry_tui::command::{
    find_slash_exact, find_slash_prefix, match_slash_input, slash_commands, slash_help_body,
    all_commands, HelpKeys, PaletteCommand, SlashCommandMatch,
};
use merry_tui::copy_controls::{
    validate_copy_text, CopyTextBuilder, CopyTextError, MAX_CLIPBOARD_BYTES,
};
use merry_tui::key::{KeyCode, KeyModifiers};
use merry_tui::keymap::{ConfigError, KeyAction, KeyBinding, Keymap, TuiKeymapToml};
use merry_tui::layout::{
    arrange, cockpit_layout, column_widths, layout_mode, pane_heights, row_heights,
    timeline_layout, BottomPaneHeights, Constraint, Rect, TimelineLayoutMode,
};
use std::collections::BTreeSet;

#[test]
fn slash_registry_is_unique_and_queryable() {
    let commands = slash_commands();
    assert!(!commands.is_empty());
    let names = commands
        .iter()
        .map(|command| command.slash_name().expect("slash name"))
        .collect::<BTreeSet<_>>();
    assert_eq!(names.len(), commands.len());
    assert!(names.iter().all(|name| !name.starts_with('/')));
    assert_eq!(
        find_slash_exact("save").map(|command| command.command),
        Some(PaletteCommand::SaveSession)
    );
    assert_eq!(
        find_slash_prefix("sa")
            .into_iter()
            .filter_map(|command| command.slash_name())
            .collect::<Vec<_>>(),
        vec!["save"]
    );
    assert_eq!(find_slash_prefix("").len(), 4);
    assert!(find_slash_exact("unknown").is_none());
}

#[test]
fn slash_parser_is_strict_without_consuming_normal_paths_or_multiline_text() {
    assert!(matches!(
        match_slash_input("/save   "),
        SlashCommandMatch::Known(command) if command.command == PaletteCommand::SaveSession
    ));
    assert_eq!(
        match_slash_input("/unknown"),
        SlashCommandMatch::Unknown("unknown")
    );
    assert_eq!(
        match_slash_input("/save now"),
        SlashCommandMatch::ArgumentsNotSupported("save")
    );
    assert_eq!(
        match_slash_input("/unknown now"),
        SlashCommandMatch::Unknown("unknown")
    );
    assert_eq!(
        match_slash_input("/tmp/file"),
        SlashCommandMatch::NotCommand
    );
    assert_eq!(match_slash_input("/tmp"), SlashCommandMatch::Unknown("tmp"));
    assert_eq!(
        match_slash_input("/save\nexplain why"),
        SlashCommandMatch::NotCommand
    );
}

#[test]
fn help_names_the_slash_commands_and_the_keys() {
    let body = slash_help_body(HelpKeys {
        submit: Some("Enter"),
        backlog: Some("Ctrl+B"),
        commands: Some("Ctrl+P"),
        stop: None,
    });
    for command in slash_commands() {
        assert!(body.contains(&format!("/{}", command.slash_name().expect("slash name"))));
    }
    assert!(body.contains("Enter"));
    assert!(body.contains("Ctrl+P"));
}

#[test]
fn every_listed_command_has_a_label() {
    for command in all_commands() {
        assert!(!command.label.is_empty());
        assert!(!command.category.is_empty());
        assert_eq!(command.slash_name.is_some(), command.slash_description.is_some());
    }
}

#[test]
fn copy_builder_rejects_the_first_chunk_over_the_limit() {
    let mut builder = CopyTextBuilder::new();
    builder
        .push_str(&"x".repeat(MAX_CLIPBOARD_BYTES - 1))
        .expect("payload below the limit should be accepted");
    builder
        .push_str("x")
        .expect("payload at the limit should be accepted");
    assert_eq!(builder.push_str("x"), Err(CopyTextError::TooLarge));
    assert_eq!(builder.finish().len(), MAX_CLIPBOARD_BYTES);
}

#[test]
fn copied_texts_are_measured_in_bytes() {
    let two_bytes = "é".repeat(MAX_CLIPBOARD_BYTES / 2);
    assert!(validate_copy_text(two_bytes.clone()).is_ok());
    assert_eq!(
        validate_copy_text(format!("{two_bytes}x")),
        Err(CopyTextError::TooLarge)
    );
}

fn bottom() -> BottomPaneHeights {
    BottomPaneHeights {
        queue: 0,
        completion: 0,
        input: 3,
        status: 1,
    }
}

#[test]
fn mode_thresholds_are_stable() {
    assert_eq!(layout_mode(50), TimelineLayoutMode::Narrow);
    assert_eq!(layout_mode(80), TimelineLayoutMode::Standard);
    assert_eq!(layout_mode(119), TimelineLayoutMode::Standard);
    assert_eq!(layout_mode(120), TimelineLayoutMode::Wide);
}

#[test]
fn timeline_keeps_full_width_without_plan() {
    for area in [
        Rect::new(0, 0, 50, 20),
        Rect::new(0, 0, 80, 24),
        Rect::new(0, 0, 140, 40),
    ] {
        let rects = timeline_layout(area, bottom());
        assert_eq!(rects.timeline.width, area.width);
        assert_eq!(rects.header.height, 1);
        assert_eq!(rects.input.height, 3);
        assert_eq!(rects.status.height, 1);
    }
}

#[test]
fn queue_gets_no_rectangle_when_empty() {
    let rects = timeline_layout(Rect::new(0, 0, 80, 24), bottom());
    assert!(rects.queue.is_none());
}

#[test]
fn plan_layout_is_responsive_without_overlapping_bottom_panes() {
    let wide = cockpit_layout(Rect::new(0, 0, 140, 40), bottom(), true, false);
    let wide_plan = wide.plan.expect("wide plan pane");
    assert!(wide.timeline.width > 0);
    assert_eq!(wide.timeline.right(), wide_plan.x);
    assert_eq!(wide_plan.right(), 140);
    assert_eq!(wide_plan.bottom(), wide.input.y);

    let standard = cockpit_layout(Rect::new(0, 0, 80, 24), bottom(), true, false);
    let standard_plan = standard.plan.expect("standard plan pane");
    assert!(standard.timeline.width >= 44);
    assert_eq!(standard.timeline.right(), standard_plan.x);
    assert_eq!(standard_plan.right(), 80);

    let narrow = cockpit_layout(Rect::new(0, 0, 50, 20), bottom(), true, true);
    assert_eq!(narrow.timeline, Rect::new(0, 0, 0, 0));
    assert_eq!(narrow.plan, Some(Rect::new(0, 1, 50, 15)));
    assert_eq!(narrow.input, Rect::new(0, 16, 50, 3));
    assert_eq!(narrow.status, Rect::new(0, 19, 50, 1));
}

#[test]
fn narrow_plan_does_not_cover_timeline_until_focused() {
    let rects = cockpit_layout(Rect::new(0, 0, 50, 20), bottom(), true, false);

    assert_eq!(rects.timeline, Rect::new(0, 1, 50, 15));
    assert!(rects.plan.is_none());
}

#[test]
fn panes_never_take_more_than_the_screen() {
    for total in [0u16, 1, 5, 9, 24, 200] {
        let heights = pane_heights(total, 5, 6, 7);
        let used = u32::from(heights.queue) + u32::from(heights.completion)
            + u32::from(heights.input);
        assert!(used <= u32::from(total).max(3), "{total}: {used}");
    }
}

#[test]
fn configured_binding_takes_precedence_over_existing_default_binding() {
    let keymap = Keymap::from_config(&TuiKeymapToml {
        submit_next: Some("esc".to_owned()),
        ..TuiKeymapToml::default()
    })
    .expect("keymap config should validate");

    assert_eq!(
        keymap.action_for(KeyBinding::new(KeyCode::Esc, KeyModifiers::none())),
        Some(KeyAction::SubmitNext)
    );
}

#[test]
fn configured_binding_replaces_previous_action_on_same_key() {
    let keymap = Keymap::from_config(&TuiKeymapToml {
        insert_newline: Some("ctrl+r".to_owned()),
        ..TuiKeymapToml::default()
    })
    .expect("keymap config should validate");

    assert_eq!(
        keymap.action_for(KeyBinding::new(KeyCode::Char('r'), KeyModifiers::control())),
        Some(KeyAction::InsertNewline)
    );
}

#[test]
fn bindings_that_no_key_has_are_refused() {
    let refused = Keymap::from_config(&TuiKeymapToml {
        quit: Some("hyper+nothing".to_owned()),
        ..TuiKeymapToml::default()
    });
    assert!(matches!(refused, Err(ConfigError::Invalid(reason)) if reason.contains("hyper+nothing")));
}

#[test]
fn a_command_is_its_name_behind_a_slash() {
    for command in all_commands() {
        let Some(name) = command.slash_name() else {
            continue;
        };
        assert_eq!(
            match_slash_input(&format!("/{name} \t")),
            SlashCommandMatch::Known(command)
        );
        assert_eq!(
            match_slash_input(&format!(" /{name}")),
            SlashCommandMatch::NotCommand
        );
        assert_eq!(
            match_slash_input(&format!("/{name}\r")),
            SlashCommandMatch::NotCommand
        );
        assert_eq!(
            match_slash_input(&format!("/{name} now")),
            SlashCommandMatch::ArgumentsNotSupported(name)
        );
    }
    assert_eq!(match_slash_input("/"), SlashCommandMatch::Unknown(""));
}

#[test]
fn the_rows_and_columns_of_the_screen_are_asked_for() {
    assert_eq!(
        row_heights(bottom()),
        vec![
            Constraint::Length(1),
            Constraint::Min(1),
            Constraint::Length(0),
            Constraint::Length(0),
            Constraint::Length(3),
            Constraint::Length(1),
        ]
    );
    assert_eq!(
        column_widths(TimelineLayoutMode::Wide),
        vec![Constraint::Percentage(64), Constraint::Percentage(36)]
    );
    assert_eq!(
        column_widths(TimelineLayoutMode::Standard),
        vec![Constraint::Percentage(58), Constraint::Percentage(42)]
    );
}

#[test]
fn panes_stay_on_the_screen_however_small_it_is() {
    for (width, height) in [(0, 0), (1, 1), (3, 2), (80, 3), (81, 5), (140, 4), (300, 60)] {
        let area = Rect::new(2, 1, width, height);
        let tall = BottomPaneHeights {
            queue: 4,
            completion: 6,
            input: 8,
            status: 1,
        };
        let rects = cockpit_layout(area, tall, true, true);
        let covered = rects.timeline == Rect::new(0, 0, 0, 0);
        let mut shown = vec![rects.header, rects.completion, rects.input, rects.status];
        shown.extend(rects.queue);
        shown.extend(rects.plan);
        if !covered {
            shown.push(rects.timeline);
        }
        for pane in shown {
            assert!(pane.x >= area.x && pane.right() <= area.right(), "{pane:?}");
            assert!(pane.y >= area.y && pane.bottom() <= area.bottom(), "{pane:?}");
        }
    }
}

#[test]
fn panes_are_placed_in_the_rows_that_were_found() {
    let rows: Vec<Rect> = (0..6).map(|row| Rect::new(0, row, 50, 1)).collect();
    let none = Vec::new();
    let covering = arrange(TimelineLayoutMode::Narrow, bottom(), true, true, &rows, &none);
    assert_eq!(covering.plan, Some(rows[1]));
    assert_eq!(covering.timeline, Rect::new(0, 0, 0, 0));
    assert_eq!(
        arrange(TimelineLayoutMode::Narrow, bottom(), true, false, &rows, &none),
        arrange(TimelineLayoutMode::Narrow, bottom(), false, false, &rows, &none)
    );
    let columns = vec![Rect::new(0, 1, 30, 1), Rect::new(30, 1, 20, 1)];
    let beside = arrange(TimelineLayoutMode::Wide, bottom(), true, false, &rows, &columns);
    assert_eq!(beside.timeline, columns[0]);
    assert_eq!(beside.plan, Some(columns[1]));
    assert_eq!(beside.status, rows[5]);
}

#[test]
fn screens_with_room_are_shared_in_one_way() {
    for width in 1..=260 {
        for (queue, completion, input, status, height) in [
            (0, 0, 3, 1, 6),
            (0, 0, 3, 1, 24),
            (4, 6, 8, 1, 21),
            (4, 6, 8, 1, 90),
            (0, 5, 0, 1, 8),
            (7, 0, 1, 0, 400),
        ] {
            let bottom = BottomPaneHeights {
                queue,
                completion,
                input,
                status,
            };
            let area = Rect::new(5, 9, width, height);
            let rects = cockpit_layout(area, bottom, true, false);
            let rest = height - 1 - queue - completion - input - status;
            let mut y = 9;
            assert_eq!(rects.header, Rect::new(5, y, width, 1));
            y += 1;
            let row = Rect::new(5, y, width, rest);
            if width < 80 {
                assert_eq!(rects.timeline, row);
                assert_eq!(rects.plan, None);
            } else {
                let share: u32 = if width < 120 { 58 } else { 64 };
                let left = ((u32::from(width) * share + 50) / 100) as u16;
                assert_eq!(rects.timeline, Rect::new(5, y, left, rest), "{width}");
                assert_eq!(rects.plan, Some(Rect::new(5 + left, y, width - left, rest)));
            }
            y += rest;
            assert_eq!(
                rects.queue,
                (queue > 0).then_some(Rect::new(5, y, width, queue))
            );
            y += queue;
            assert_eq!(rects.completion, Rect::new(5, y, width, completion));
            y += completion;
            assert_eq!(rects.input, Rect::new(5, y, width, input));
            y += input;
            assert_eq!(rects.status, Rect::new(5, y, width, status));
            assert_eq!(y + status, area.bottom());
        }
    }
}

#[test]
fn screens_at_the_end_of_the_coordinates_are_shared_alike() {
    let area = Rect::new(65_400, 65_500, 135, 35);
    let rects = cockpit_layout(area, bottom(), true, true);
    assert_eq!(rects.header, Rect::new(65_400, 65_500, 135, 1));
    assert_eq!(rects.timeline, Rect::new(65_400, 65_501, 86, 30));
    assert_eq!(rects.plan, Some(Rect::new(65_486, 65_501, 49, 30)));
    assert_eq!(rects.input, Rect::new(65_400, 65_531, 135, 3));
    assert_eq!(rects.status, Rect::new(65_400, 65_534, 135, 1));
}
