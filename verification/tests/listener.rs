use rkd::config::{Cfg, Exec, Keybindings};
use rkd::input::{DecodeError, InputEvent, KEY_EV, KEY_PRESS, KEY_RELEASE};
use rkd::key::Key;
use rkd::listener::Listener;

const CTRL: u16 = 29;
const RIGHT_CTRL: u16 = 97;
const ALT: u16 = 56;
const T: u16 = 20;
const X: u16 = 45;
const REPEAT: i32 = 2;

fn table() -> Keybindings {
    Cfg::new("Ctrl+Alt+t\n  terminal\nXF86AudioMute\n  amixer set Master toggle\n".to_string()).parse()
}

fn key(code: u16, value: i32) -> InputEvent {
    InputEvent { tv_sec: 0, tv_usec: 0, type_: KEY_EV, code, value }
}

fn program(command: Option<Exec>) -> Option<String> {
    command.map(|c| c.program().to_string())
}

fn held(listener: &Listener) -> Vec<Key> {
    let all = [Key::Ctrl, Key::Alt, Key::T, Key::X, Key::Shift, Key::UK, Key::XF86AudioMute];
    all.iter().copied().filter(|k| listener.held().contains(*k)).collect()
}

#[test]
fn a_chord_dispatches_once() {
    let table = table();
    let mut listener = Listener::new();
    assert_eq!(program(listener.on_event(&key(CTRL, KEY_PRESS), &table)), None);
    assert_eq!(program(listener.on_event(&key(ALT, KEY_PRESS), &table)), None);
    assert_eq!(
        program(listener.on_event(&key(T, KEY_PRESS), &table)),
        Some("terminal".to_string())
    );
    assert_eq!(program(listener.on_event(&key(T, REPEAT), &table)), None);
    assert_eq!(program(listener.on_event(&key(T, REPEAT), &table)), None);
    assert_eq!(held(&listener), vec![Key::Ctrl, Key::Alt, Key::T]);
    assert_eq!(program(listener.on_event(&key(T, KEY_RELEASE), &table)), None);
    assert_eq!(held(&listener), vec![Key::Ctrl, Key::Alt]);
    assert_eq!(
        program(listener.on_event(&key(T, KEY_PRESS), &table)),
        Some("terminal".to_string())
    );
    assert_eq!(program(listener.on_event(&key(T, KEY_RELEASE), &table)), None);
    assert_eq!(program(listener.on_event(&key(ALT, KEY_RELEASE), &table)), None);
    assert_eq!(program(listener.on_event(&key(CTRL, KEY_RELEASE), &table)), None);
    assert_eq!(listener.held().len(), 0);
}

#[test]
fn arrival_order_does_not_matter() {
    let table = table();
    let mut listener = Listener::new();
    assert_eq!(program(listener.on_event(&key(T, KEY_PRESS), &table)), None);
    assert_eq!(program(listener.on_event(&key(ALT, KEY_PRESS), &table)), None);
    assert_eq!(
        program(listener.on_event(&key(CTRL, KEY_PRESS), &table)),
        Some("terminal".to_string())
    );
    assert_eq!(program(listener.on_event(&key(CTRL, REPEAT), &table)), None);
    assert_eq!(held(&listener), vec![Key::Ctrl, Key::Alt, Key::T]);
}

#[test]
fn repeats_change_nothing() {
    let table = table();
    let mut listener = Listener::new();
    assert_eq!(program(listener.on_event(&key(CTRL, REPEAT), &table)), None);
    assert_eq!(program(listener.on_event(&key(ALT, REPEAT), &table)), None);
    assert_eq!(program(listener.on_event(&key(T, REPEAT), &table)), None);
    assert_eq!(listener.held().len(), 0);
    listener.on_event(&key(CTRL, KEY_PRESS), &table);
    listener.on_event(&key(ALT, KEY_PRESS), &table);
    listener.on_event(&key(T, KEY_PRESS), &table);
    for code in [CTRL, ALT, T, X] {
        assert_eq!(program(listener.on_event(&key(code, REPEAT), &table)), None);
        assert_eq!(held(&listener), vec![Key::Ctrl, Key::Alt, Key::T]);
    }
    assert_eq!(program(listener.on_event(&key(T, 3), &table)), None);
    assert_eq!(program(listener.on_event(&key(T, -1), &table)), None);
    assert_eq!(held(&listener), vec![Key::Ctrl, Key::Alt, Key::T]);
}

#[test]
fn a_second_press_of_a_held_key_does_not_dispatch() {
    let table = table();
    let mut listener = Listener::new();
    listener.on_event(&key(CTRL, KEY_PRESS), &table);
    listener.on_event(&key(ALT, KEY_PRESS), &table);
    assert!(listener.on_event(&key(T, KEY_PRESS), &table).is_some());
    assert_eq!(program(listener.on_event(&key(T, KEY_PRESS), &table)), None);
    assert_eq!(program(listener.on_event(&key(RIGHT_CTRL, KEY_PRESS), &table)), None);
    assert_eq!(held(&listener), vec![Key::Ctrl, Key::Alt, Key::T]);
}

#[test]
fn a_release_never_dispatches() {
    let table = table();
    let mut listener = Listener::new();
    listener.on_event(&key(CTRL, KEY_PRESS), &table);
    listener.on_event(&key(ALT, KEY_PRESS), &table);
    listener.on_event(&key(X, KEY_PRESS), &table);
    assert_eq!(program(listener.on_event(&key(T, KEY_PRESS), &table)), None);
    assert_eq!(program(listener.on_event(&key(X, KEY_RELEASE), &table)), None);
    assert_eq!(held(&listener), vec![Key::Ctrl, Key::Alt, Key::T]);
    assert_eq!(program(listener.on_event(&key(X, KEY_RELEASE), &table)), None);
    assert_eq!(held(&listener), vec![Key::Ctrl, Key::Alt, Key::T]);
}

#[test]
fn an_extra_key_spoils_the_chord() {
    let table = table();
    let mut listener = Listener::new();
    listener.on_event(&key(X, KEY_PRESS), &table);
    listener.on_event(&key(CTRL, KEY_PRESS), &table);
    listener.on_event(&key(ALT, KEY_PRESS), &table);
    assert_eq!(program(listener.on_event(&key(T, KEY_PRESS), &table)), None);
}

#[test]
fn a_media_key_dispatches_alone() {
    let table = table();
    let mut listener = Listener::new();
    let command = listener.on_event(&key(113, KEY_PRESS), &table).expect("a command");
    assert_eq!(command.program(), "amixer");
    assert_eq!(
        command.args(),
        &vec!["set".to_string(), "Master".to_string(), "toggle".to_string()]
    );
    listener.on_event(&key(113, KEY_RELEASE), &table);
    listener.on_event(&key(CTRL, KEY_PRESS), &table);
    assert_eq!(program(listener.on_event(&key(113, KEY_PRESS), &table)), None);
}

#[test]
fn other_events_are_passed_over() {
    let table = table();
    let mut listener = Listener::new();
    listener.on_event(&key(CTRL, KEY_PRESS), &table);
    listener.on_event(&key(ALT, KEY_PRESS), &table);
    for type_ in [0u16, 2, 3, 4, 17, u16::MAX] {
        let other = InputEvent { tv_sec: 0, tv_usec: 0, type_, code: T, value: KEY_PRESS };
        assert_eq!(program(listener.on_event(&other, &table)), None);
        assert_eq!(held(&listener), vec![Key::Ctrl, Key::Alt]);
        let other = InputEvent { tv_sec: 0, tv_usec: 0, type_, code: CTRL, value: KEY_RELEASE };
        assert_eq!(program(listener.on_event(&other, &table)), None);
        assert_eq!(held(&listener), vec![Key::Ctrl, Key::Alt]);
    }
}

#[test]
fn two_devices_do_not_add_up() {
    let table = table();
    let mut one = Listener::new();
    let mut two = Listener::new();
    assert_eq!(program(one.on_event(&key(CTRL, KEY_PRESS), &table)), None);
    assert_eq!(program(two.on_event(&key(ALT, KEY_PRESS), &table)), None);
    assert_eq!(program(one.on_event(&key(T, KEY_PRESS), &table)), None);
    assert_eq!(program(two.on_event(&key(T, KEY_PRESS), &table)), None);
    assert_eq!(program(two.on_event(&key(CTRL, REPEAT), &table)), None);
    assert_eq!(held(&one), vec![Key::Ctrl, Key::T]);
    assert_eq!(held(&two), vec![Key::Alt, Key::T]);
    assert_eq!(program(one.on_event(&key(T, KEY_RELEASE), &table)), None);
    assert_eq!(program(one.on_event(&key(ALT, KEY_PRESS), &table)), None);
    assert_eq!(
        program(one.on_event(&key(T, KEY_PRESS), &table)),
        Some("terminal".to_string())
    );
    assert_eq!(held(&two), vec![Key::Alt, Key::T]);
}

#[test]
fn unknown_keys_are_held_as_one() {
    let table = table();
    let mut listener = Listener::new();
    listener.on_event(&key(250, KEY_PRESS), &table);
    assert_eq!(held(&listener), vec![Key::UK]);
    listener.on_event(&key(251, KEY_PRESS), &table);
    assert_eq!(listener.held().len(), 1);
    listener.on_event(&key(252, KEY_RELEASE), &table);
    assert_eq!(listener.held().len(), 0);
}

#[test]
fn records_are_decoded_and_taken_in() {
    let table = table();
    let mut listener = Listener::new();
    assert!(matches!(listener.on_record(&key(CTRL, KEY_PRESS).to_bytes(), &table), Ok(None)));
    assert!(matches!(listener.on_record(&key(ALT, KEY_PRESS).to_bytes(), &table), Ok(None)));
    match listener.on_record(&key(T, KEY_PRESS).to_bytes(), &table) {
        Ok(Some(command)) => assert_eq!(command.program(), "terminal"),
        other => panic!("no dispatch: {:?}", other),
    }
    assert!(matches!(listener.on_record(&key(T, REPEAT).to_bytes(), &table), Ok(None)));
    assert_eq!(held(&listener), vec![Key::Ctrl, Key::Alt, Key::T]);
}

#[test]
fn bytes_of_another_length_are_refused() {
    let table = table();
    let mut listener = Listener::new();
    listener.on_event(&key(CTRL, KEY_PRESS), &table);
    listener.on_event(&key(ALT, KEY_PRESS), &table);
    let record = key(T, KEY_PRESS).to_bytes();
    for n in 0..record.len() {
        assert!(matches!(listener.on_record(&record[..n], &table), Err(DecodeError::Truncated)));
        assert_eq!(held(&listener), vec![Key::Ctrl, Key::Alt]);
    }
    let mut long = record.clone();
    long.push(0);
    assert!(matches!(listener.on_record(&long, &table), Err(DecodeError::Oversized)));
    assert_eq!(held(&listener), vec![Key::Ctrl, Key::Alt]);
    assert!(matches!(listener.on_record(&record, &table), Ok(Some(_))));
}
