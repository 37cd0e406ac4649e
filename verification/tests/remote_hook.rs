use fig_lite::remote_hook::{
    edit_buffer_effects, history_update, keybinding_pressed, location_change, notification_payload, process_of,
    session_is_focused, utf16_cursor_position, FocusState, PopupVisibility, ShellContext,
};

fn context(cwd: Option<&str>) -> ShellContext {
    ShellContext {
        pid: Some(42),
        process_name: Some("zsh".to_string()),
        current_working_directory: cwd.map(|s| s.to_string()),
        hostname: Some("host".to_string()),
        terminal_pid: Some(7),
    }
}

fn focus(has_term: bool, term: Option<i32>, win: Option<i32>, suppressed: bool) -> FocusState {
    FocusState {
        has_active_terminal: has_term,
        terminal_pid: term,
        active_window_pid: win,
        focus_change_suppressed: suppressed,
    }
}

#[test]
fn utf16_cursor_counts_code_units() {
    assert_eq!(utf16_cursor_position("hello", 3), Some(3));
    assert_eq!(utf16_cursor_position("hello", 5), Some(5));
    assert_eq!(utf16_cursor_position("hello", 6), None);
    assert_eq!(utf16_cursor_position("hello", -1), None);
    // "é" takes two bytes and one UTF-16 unit
    assert_eq!(utf16_cursor_position("é!", 2), Some(1));
    assert_eq!(utf16_cursor_position("é!", 1), None);
    // an emoji takes four bytes and two UTF-16 units
    assert_eq!(utf16_cursor_position("😀x", 4), Some(2));
    assert_eq!(utf16_cursor_position("😀x", 5), Some(3));
    for (text, cursor) in [("aé😀b", 0i64), ("aé😀b", 3), ("aé😀b", 7), ("aé😀b", 8), ("aé😀b", 2)] {
        let expected = text
            .get(..cursor as usize)
            .map(|s| s.encode_utf16().count() as i32);
        assert_eq!(utf16_cursor_position(text, cursor), expected);
    }
}

#[test]
fn focus_rules() {
    assert!(session_is_focused(true, Some(1), Some(1)));
    assert!(!session_is_focused(true, Some(1), Some(2)));
    assert!(session_is_focused(true, None, Some(2)));
    assert!(session_is_focused(true, Some(1), None));
    assert!(!session_is_focused(false, Some(1), Some(1)));
}

#[test]
fn blank_buffer_hides_popup() {
    let e = edit_buffer_effects("  \t", 1, &focus(true, Some(1), Some(1), false));
    assert!(matches!(e.popup, PopupVisibility::Hide));
    assert!(!e.notify_platform);
    assert!(e.follow_caret);
    assert_eq!(e.cursor_utf16, Some(1));
}

#[test]
fn focused_buffer_shows_popup() {
    let e = edit_buffer_effects("git st", 6, &focus(true, Some(1), Some(1), false));
    assert!(matches!(e.popup, PopupVisibility::Show));
    assert!(e.notify_platform);
    assert!(e.follow_caret);
    assert_eq!(e.cursor_utf16, Some(6));
}

#[test]
fn unfocused_or_suppressed_buffer_hides_popup() {
    let e = edit_buffer_effects("git st", 2, &focus(true, Some(1), Some(2), false));
    assert!(matches!(e.popup, PopupVisibility::Hide));
    assert!(e.notify_platform);
    assert!(!e.follow_caret);
    let e = edit_buffer_effects("git st", 2, &focus(true, Some(1), Some(1), true));
    assert!(matches!(e.popup, PopupVisibility::Hide));
    assert!(!e.follow_caret);
    let e = edit_buffer_effects("git st", 2, &focus(false, None, None, false));
    assert!(matches!(e.popup, PopupVisibility::Hide));
}

#[test]
fn location_change_on_new_directory() {
    let change = location_change(&Some(context(Some("/a"))), &Some(context(Some("/b")))).unwrap();
    assert_eq!(change.directory.as_deref(), Some("/b"));
    assert_eq!(change.host_name.as_deref(), Some("host"));
    assert!(location_change(&Some(context(Some("/a"))), &Some(context(Some("/a")))).is_none());
    assert!(location_change(&None, &Some(context(Some("/b")))).is_none());
    assert!(location_change(&Some(context(Some("/a"))), &None).is_none());
    let change = location_change(&Some(context(Some("/a"))), &Some(context(None))).unwrap();
    assert!(change.directory.is_none());
}

#[test]
fn process_of_context() {
    let p = process_of(&Some(context(Some("/tmp")))).unwrap();
    assert_eq!(p.pid, Some(42));
    assert_eq!(p.executable.as_deref(), Some("zsh"));
    assert_eq!(p.directory.as_deref(), Some("/tmp"));
    assert!(process_of(&None).is_none());
}

#[test]
fn history_update_fields() {
    let u = history_update(&Some("ls".to_string()), Some(1), &Some(context(Some("/tmp"))));
    assert_eq!(u.command.as_deref(), Some("ls"));
    assert_eq!(u.exit_code, Some(1));
    assert_eq!(u.process_name.as_deref(), Some("zsh"));
    assert_eq!(u.current_working_directory.as_deref(), Some("/tmp"));
    assert_eq!(u.hostname.as_deref(), Some("host"));
    let u = history_update(&None, None, &None);
    assert!(u.command.is_none() && u.process_name.is_none() && u.hostname.is_none());
}

#[test]
fn payload_is_standard_base64() {
    assert_eq!(notification_payload(b"hello"), "aGVsbG8=");
    assert_eq!(notification_payload(b""), "");
    assert_eq!(notification_payload(&[0xfb, 0xff]), "+/8=");
}

#[test]
fn keybinding_notification_carries_action_and_context() {
    let n = keybinding_pressed("insertSelection".to_string(), Some(context(Some("/x"))));
    assert_eq!(n.action.as_deref(), Some("insertSelection"));
    assert_eq!(n.context.unwrap().current_working_directory.as_deref(), Some("/x"));
    let n = keybinding_pressed("hide".to_string(), None);
    assert!(n.context.is_none());
}
