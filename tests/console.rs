use proc_manager::console::{Action, ConsoleState, Key, Mode};

fn type_text(c: &mut ConsoleState, s: &str) {
    for ch in s.chars() {
        let a = c.handle_key(Key::Char(ch), 0, "/w");
        assert!(matches!(a, Action::Nothing));
    }
}

#[test]
fn typed_command_launches_with_a_name() {
    let mut c = ConsoleState::new();
    assert!(matches!(c.handle_key(Key::Char('o'), 0, "/w"), Action::Nothing));
    assert_eq!(c.mode, Mode::Input);
    type_text(&mut c, "echo  hix");
    c.handle_key(Key::Backspace, 0, "/w");
    assert_eq!(c.input_text(), "echo  hi");
    c.handle_key(Key::Enter, 0, "/w");
    assert!(c.name_input_mode);
    assert!(c.input_buffer.is_empty());
    type_text(&mut c, "greeter");
    match c.handle_key(Key::Enter, 0, "/w") {
        Action::Launch(p, name) => {
            assert_eq!(p.script_args, vec!["echo".to_string(), "hi".to_string()]);
            assert_eq!(p.working_dir, "/w");
            assert_eq!(p.timeout_ms, None);
            assert_eq!(name, Some("greeter".to_string()));
        }
        _ => panic!("expected a launch"),
    }
    assert_eq!(c.mode, Mode::Navigate);
    assert!(!c.name_input_mode);
    assert!(c.pending_launch.is_none());
}

#[test]
fn empty_name_keeps_the_default_and_esc_cancels() {
    let mut c = ConsoleState::new();
    c.handle_key(Key::Char('o'), 0, "/w");
    type_text(&mut c, "ls");
    c.handle_key(Key::Enter, 0, "/w");
    match c.handle_key(Key::Enter, 0, "/w") {
        Action::Launch(_, name) => assert_eq!(name, None),
        _ => panic!("expected a launch"),
    }
    c.handle_key(Key::Char('o'), 0, "/w");
    type_text(&mut c, "ls");
    c.handle_key(Key::Enter, 0, "/w");
    assert!(matches!(c.handle_key(Key::Esc, 0, "/w"), Action::Nothing));
    assert!(c.pending_launch.is_none());
    assert_eq!(c.mode, Mode::Navigate);
}

#[test]
fn navigation_stays_on_the_list() {
    let mut c = ConsoleState::new();
    c.handle_key(Key::Char('j'), 3, "/w");
    c.handle_key(Key::Char('j'), 3, "/w");
    c.handle_key(Key::Char('j'), 3, "/w");
    assert_eq!(c.selected_index, 2);
    c.handle_key(Key::Char('k'), 3, "/w");
    assert_eq!(c.selected_index, 1);
    assert!(matches!(c.handle_key(Key::Char('x'), 3, "/w"), Action::Kill(1)));
    assert!(matches!(c.handle_key(Key::Char('c'), 3, "/w"), Action::ClearLog(1)));
    assert!(matches!(c.handle_key(Key::Char('X'), 3, "/w"), Action::Remove(1)));
    assert_eq!(c.selected_index, 0);
    c.handle_key(Key::Char('j'), 3, "/w");
    assert!(matches!(c.handle_key(Key::Char('R'), 3, "/w"), Action::Restart(1)));
    assert_eq!(c.selected_index, 0);
    assert!(matches!(c.handle_key(Key::Char('x'), 0, "/w"), Action::Nothing));
    c.selected_index = 5;
    c.clamp_selection(2);
    assert_eq!(c.selected_index, 1);
    assert!(matches!(c.handle_key(Key::Char('q'), 2, "/w"), Action::Quit));
}

#[test]
fn pause_swallows_keys_until_resumed() {
    let mut c = ConsoleState::new();
    c.set_error("boom".to_string());
    c.handle_key(Key::Char('p'), 3, "/w");
    assert!(c.is_paused);
    assert!(c.error_message.is_empty());
    assert!(matches!(c.handle_key(Key::Char('q'), 3, "/w"), Action::Nothing));
    c.handle_key(Key::Char('j'), 3, "/w");
    assert_eq!(c.selected_index, 0);
    c.handle_key(Key::Char('p'), 3, "/w");
    assert!(!c.is_paused);
}
