//! Modes, measures, replies, the status report, and the numbers and texts that
//! they are made of.

use irene::config::{resolve_layout_config, LayoutFlags, LayoutVariables};
use irene::layout::LayoutConfig;
use irene::mode::{
    active_equal, current_mode, describe_mode, handle_mode, prefers_equal,
    prefers_equal_by_default, set_mode,
};
use irene::model::{LogicalSize, Output, Window, Workspace};
use irene::number::{decimal_text, one_decimal_text, parse_i32, parse_tenths, signed_text};
use irene::reply::{
    fetch_outputs, fetch_windows, fetch_workspaces, open_event_stream, send_action, Reply,
};
use irene::status::{report_status, status_lines, workspace_status};
use irene::text::{
    chars_of, is_blank, join_lines, same_ignoring_case, same_text, split_lines, trim_text,
};

fn no_flags() -> LayoutFlags {
    LayoutFlags { gap: None, strut_left: None, strut_right: None, strut_top: None, strut_bottom: None }
}

fn no_variables() -> LayoutVariables<'static> {
    LayoutVariables {
        gap: None,
        strut_left: None,
        strut_right: None,
        strut_top: None,
        strut_bottom: None,
    }
}

fn window(id: u64, workspace_id: u64, position: Option<(usize, usize)>) -> Window {
    Window {
        id,
        app_id: Some("ghostty".to_string()),
        pid: Some(id as i32),
        workspace_id: Some(workspace_id),
        is_focused: false,
        is_floating: false,
        pos_in_scrolling_layout: position,
        tile_size: (10, 10),
    }
}

fn workspace(id: u64, output: Option<&str>, is_focused: bool) -> Workspace {
    Workspace {
        id,
        name: Some(format!("name {id}")),
        output: output.map(String::from),
        is_focused,
        is_active: !is_focused,
        active_window_id: None,
    }
}

#[test]
fn measures_come_from_flags_then_variables() {
    let flags = LayoutFlags { gap: Some(4), strut_top: Some(-3), ..no_flags() };
    let variables = LayoutVariables {
        gap: Some("9"),
        strut_left: Some("+12"),
        strut_right: Some("wide"),
        strut_bottom: Some("-7"),
        ..no_variables()
    };
    let config = resolve_layout_config(&flags, &variables);
    assert_eq!(
        config,
        LayoutConfig { gap: 4, strut_left: 12, strut_right: 0, strut_top: -3, strut_bottom: -7 }
    );
}

#[test]
fn nothing_set_means_the_defaults() {
    assert_eq!(resolve_layout_config(&no_flags(), &no_variables()), LayoutConfig::default());
}

#[test]
fn whole_numbers_are_read_as_written() {
    for (text, value) in [
        ("0", Some(0)),
        ("007", Some(7)),
        ("-0", Some(0)),
        ("2147483647", Some(i32::MAX)),
        ("2147483648", None),
        ("-2147483648", Some(i32::MIN)),
        ("-2147483649", None),
        ("99999999999999999999999", None),
        ("", None),
        ("-", None),
        ("+", None),
        ("+-1", None),
        (" 1", None),
        ("1.0", None),
    ] {
        assert_eq!(parse_i32(text), value, "{text}");
        assert_eq!(text.parse::<i32>().ok(), value, "{text}");
    }
}

#[test]
fn numbers_are_written_as_usual() {
    assert_eq!(decimal_text(0), "0");
    assert_eq!(decimal_text(u64::MAX), format!("{}", u64::MAX));
    assert_eq!(signed_text(i32::MIN), "-2147483648");
    assert_eq!(signed_text(-1), "-1");
    assert_eq!(signed_text(40), "40");
    assert_eq!(one_decimal_text(85), "8.5");
    assert_eq!(one_decimal_text(120), "12.0");
    assert_eq!(one_decimal_text(3), "0.3");
}

#[test]
fn sizes_are_read_to_a_tenth() {
    assert_eq!(parse_tenths(&chars_of("14.5")), Some(145));
    assert_eq!(parse_tenths(&chars_of("11")), Some(110));
    assert_eq!(parse_tenths(&chars_of("11.0")), Some(110));
    assert_eq!(parse_tenths(&chars_of("x")), None);
}

#[test]
fn modes_are_set_in_any_letter_case() {
    let change = handle_mode("Master-STACK").unwrap();
    assert_eq!(change.content, "master-stack\n");
    assert_eq!(change.message, "irene autotiling mode set to: master-stack");
    let change = handle_mode("equal-grid").unwrap();
    assert_eq!(change.content, "equal-grid\n");
}

#[test]
fn letters_beyond_ascii_are_made_small_too() {
    // The Kelvin sign is a capital k.
    assert_eq!(handle_mode("master-stac\u{212a}").unwrap().content, "master-stack\n");
    assert_eq!(
        handle_mode("\u{c4}quil").unwrap_err(),
        "invalid mode: '\u{e4}quil'. Valid modes: equal-grid, master-stack"
    );
}

#[test]
fn other_modes_are_refused() {
    assert_eq!(
        handle_mode("Spiral").unwrap_err(),
        "invalid mode: 'spiral'. Valid modes: equal-grid, master-stack"
    );
    assert!(set_mode("Equal-Grid").is_err());
    assert!(handle_mode("").is_err());
}

#[test]
fn a_mode_that_was_set_is_read_back() {
    for mode in ["equal-grid", "master-stack"] {
        let change = set_mode(mode).unwrap();
        assert_eq!(current_mode(Some(&change.content)), mode);
        assert_eq!(active_equal(Some(&change.content), true), mode == "equal-grid");
        assert_eq!(active_equal(Some(&change.content), false), mode == "equal-grid");
    }
}

#[test]
fn without_a_mode_file_the_preference_counts() {
    assert_eq!(describe_mode(None), "irene autotiling mode: equal-grid");
    assert_eq!(describe_mode(Some("  odd \n")), "irene autotiling mode: odd");
    assert!(active_equal(None, true));
    assert!(!active_equal(None, false));
    assert!(active_equal(Some("anything"), false));
    assert!(!active_equal(Some("\tmaster-stack\n"), true));
}

#[test]
fn preferences_of_the_command_line() {
    assert!(prefers_equal_by_default(None));
    assert!(prefers_equal_by_default(Some("MASTER-STACK")));
    assert!(!prefers_equal_by_default(Some("master-stack")));
    assert!(prefers_equal(false, false, None, None));
    assert!(!prefers_equal(false, false, Some("master-stack"), None));
    assert!(!prefers_equal(false, false, None, Some("master-stack")));
    assert!(prefers_equal(true, false, Some("master-stack"), None));
    assert!(prefers_equal(false, true, None, Some("master-stack")));
}

#[test]
fn replies_are_taken_apart() {
    assert_eq!(fetch_windows(Reply::Payload(vec![window(1, 1, None)])).unwrap().len(), 1);
    assert_eq!(
        fetch_windows(Reply::Unexpected).unwrap_err(),
        "unexpected response to Windows request"
    );
    assert_eq!(
        fetch_windows(Reply::Rejected("busy".to_string())).unwrap_err(),
        "niri rejected Windows request: busy"
    );
    assert_eq!(
        fetch_outputs(Reply::Unexpected).unwrap_err(),
        "unexpected response to Outputs request"
    );
    assert_eq!(
        fetch_outputs(Reply::Rejected("no".to_string())).unwrap_err(),
        "niri rejected Outputs request: no"
    );
    assert!(fetch_outputs(Reply::Payload(Vec::new())).unwrap().is_empty());
    assert_eq!(
        fetch_workspaces(Reply::Unexpected).unwrap_err(),
        "unexpected response to Workspaces request"
    );
    assert_eq!(
        fetch_workspaces(Reply::Rejected("no".to_string())).unwrap_err(),
        "niri rejected Workspaces request: no"
    );
    assert_eq!(
        fetch_workspaces(Reply::Payload(vec![workspace(3, None, true)])).unwrap()[0].id,
        3
    );
}

#[test]
fn actions_fail_when_rejected() {
    assert_eq!(send_action(None), Ok(()));
    assert_eq!(send_action(Some("what?")), Err("niri rejected action: what?".to_string()));
}

#[test]
fn the_event_stream_must_be_granted() {
    assert_eq!(open_event_stream(&Reply::Payload(())), Ok(()));
    let refused = Err("niri refused the event stream request".to_string());
    assert_eq!(open_event_stream(&Reply::Unexpected), refused);
    assert_eq!(open_event_stream(&Reply::Rejected("no".to_string())), refused);
}

#[test]
fn a_status_report() {
    let outputs = vec![
        Output {
            name: "DP-1".to_string(),
            logical: Some(LogicalSize { width: 1920, height: 1080, scale: 2.0f64.to_bits() }),
        },
        Output { name: "off".to_string(), logical: None },
    ];
    let workspaces = vec![workspace(1, Some("DP-1"), true), workspace(2, None, false)];
    let mut windows = vec![
        window(11, 1, Some((1, 1))),
        window(12, 1, Some((1, 2))),
        window(13, 1, None),
        window(14, 2, Some((1, 1))),
    ];
    windows[3].is_floating = true;
    let report =
        report_status(&outputs, &workspaces, &windows, &[false, true], Some("font-size = 14\n"));
    assert_eq!(report.base_font_size, 140);
    assert_eq!(report.font_size_floor, 85);
    assert_eq!(report.ghostty_instances, 4);
    assert_eq!(report.workspaces[0], workspace_status(&workspaces[0], &windows, false));
    assert_eq!(report.workspaces[0].name, Some("name 1".to_string()));
    assert_eq!(report.workspaces[0].column_count, 1);
    assert_eq!(report.workspaces[0].window_count, 3);
    assert!(!report.workspaces[0].is_active);
    assert_eq!(report.workspaces[1].column_count, 0);
    assert_eq!(report.workspaces[1].window_count, 0);
    assert_eq!(report.outputs[1].height, 1440);
    let lines = status_lines(&report, &["2".to_string(), "1".to_string()]);
    assert_eq!(
        lines,
        vec![
            "irene autotiling status:",
            "  Ghostty Base Font: 14.0pt (Floor: 8.5pt)",
            "  Outputs:",
            "    - DP-1: 1920x1080 (scale 2)",
            "    - off: 2560x1440 (scale 1)",
            "  Workspaces:",
            "    - WS 1 on DP-1: 1 column(s) (focused)",
            "    - WS 2 on none: 0 column(s) [COMPRESSED]",
        ]
    );
}

#[test]
fn texts_are_split_and_joined() {
    assert_eq!(split_lines("a\r\nb\n\nc"), vec!["a", "b", "", "c"]);
    assert!(split_lines("").is_empty());
    assert_eq!(join_lines(&vec!["a".to_string(), String::new()]), "a\n\n");
    assert_eq!(trim_text("\u{3000} a b\t\r\n"), "a b");
    assert!(is_blank(" \u{a0}\n"));
    assert!(!is_blank("."));
    assert!(same_text("", ""));
    assert!(!same_text("a", "b"));
    assert!(same_ignoring_case("MpV", "mPv"));
    assert!(!same_ignoring_case("\u{c4}", "\u{e4}"));
}
