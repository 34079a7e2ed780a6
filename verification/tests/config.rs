use rkd::config::Cfg;
use rkd::key::Key;

#[test]
fn validates_keybindings() {
    let keybindings = vec![
        (vec![Key::Shift, Key::K], true),
        (vec![Key::Shift], false),
        (vec![Key::Ctrl, Key::Shift, Key::Num2], true),
        (vec![Key::Super, Key::Return], true),
        (vec![Key::Super, Key::A, Key::B], false),
        (vec![Key::Super, Key::A, Key::Ctrl], false),
        (vec![Key::Alt, Key::F1], true),
        (vec![Key::A], false),
        (vec![Key::XF86AudioRaiseVolume, Key::XF86AudioStop], false),
        (vec![Key::A, Key::XF86AudioStop], false),
        (vec![Key::A, Key::Shift], false),
        (vec![Key::XF86AudioPlay], true),
    ];

    keybindings.iter().for_each(|kb| {
        println!("validating {:?}", kb);
        assert_eq!(Cfg::is_valid_keybinding(&kb.0), kb.1)
    });
}

use rkd::config::{Exec, Keybindings, Refusal};
use rkd::keyset::KeySet;

fn set(keys: &[Key]) -> KeySet {
    let mut s = KeySet::new();
    for k in keys {
        s.insert(*k);
    }
    s
}

fn parsed(line: &str) -> KeySet {
    match Cfg::parse_keybinding(line) {
        Some(keys) => keys,
        None => panic!("{:?} stands for no combination", line),
    }
}

fn refusal(line: &str) -> Option<Refusal> {
    Cfg::check_keybinding(line).err()
}

fn command(table: &Keybindings, keys: &[Key]) -> Option<(String, Vec<String>)> {
    table.get(&set(keys)).map(|c| (c.program().to_string(), c.args().clone()))
}

fn bound(program: &str, args: &[&str]) -> Option<(String, Vec<String>)> {
    Some((program.to_string(), args.iter().map(|a| a.to_string()).collect()))
}

#[test]
fn modifier_order_does_not_matter() {
    let one = parsed("Ctrl+Shift+k");
    let two = parsed("Shift+Ctrl+k");
    assert!(one.same(&two));
    assert!(one.same(&set(&[Key::Ctrl, Key::Shift, Key::K])));
    assert_eq!(one.len(), 3);
    let three = parsed("Super+Alt+Ctrl+Return");
    let four = parsed("Alt+Ctrl+Super+Return");
    let five = parsed("Ctrl+Super+Alt+Return");
    assert!(three.same(&four));
    assert!(four.same(&five));
    assert!(three.same(&set(&[Key::Return, Key::Super, Key::Alt, Key::Ctrl])));
}

#[test]
fn chords_are_read() {
    assert!(parsed("Super+Return").same(&set(&[Key::Super, Key::Return])));
    assert!(parsed("alt+f1").same(&set(&[Key::Alt, Key::F1])));
    assert!(parsed("Ctrl + Alt + t").same(&set(&[Key::Ctrl, Key::Alt, Key::T])));
    assert!(parsed("  Ctrl+k  ").same(&set(&[Key::Ctrl, Key::K])));
    assert!(parsed("Ctrl+K").same(&set(&[Key::Ctrl, Key::Shift, Key::K])));
    assert!(parsed("Super+!").same(&set(&[Key::Super, Key::Shift, Key::Num1])));
    assert!(parsed("Ctrl+-").same(&set(&[Key::Ctrl, Key::Dash])));
    assert!(parsed("Ctrl++k").same(&set(&[Key::Ctrl, Key::K])));
    assert!(parsed("Ctrl+k\r").same(&set(&[Key::Ctrl, Key::K])));
}

#[test]
fn a_single_shifted_character_is_a_chord() {
    assert!(parsed("K").same(&set(&[Key::Shift, Key::K])));
    assert!(parsed("?").same(&set(&[Key::Shift, Key::Slash])));
}

#[test]
fn a_key_written_twice_is_refused() {
    assert!(Cfg::parse_keybinding("Shift+K").is_none());
    assert!(Cfg::parse_keybinding("Ctrl+Ctrl+k").is_none());
    assert!(Cfg::parse_keybinding("Shift+Ctrl+!").is_none());
    assert!(Cfg::parse_keybinding("ctrl+CTRL+k").is_none());
    assert_eq!(refusal("Shift+K"), Some(Refusal::RepeatedKey));
    assert_eq!(refusal("Ctrl+Ctrl+k"), Some(Refusal::RepeatedKey));
    assert!(matches!(
        Cfg::combine(&[Key::Shift, Key::Shift, Key::K]),
        Err(Refusal::RepeatedKey)
    ));
    assert!(matches!(
        Cfg::combine(&[Key::Ctrl, Key::Shift, Key::Ctrl, Key::K]),
        Err(Refusal::RepeatedKey)
    ));
}

#[test]
fn a_media_key_stands_alone() {
    assert!(parsed("XF86AudioRaiseVolume").same(&set(&[Key::XF86AudioRaiseVolume])));
    assert!(parsed("xf86audiomute").same(&set(&[Key::XF86AudioMute])));
    assert!(Cfg::parse_keybinding("Ctrl+XF86AudioRaiseVolume").is_none());
    assert!(Cfg::parse_keybinding("XF86AudioRaiseVolume+Ctrl").is_none());
    assert!(Cfg::parse_keybinding("XF86AudioRaiseVolume+a").is_none());
    assert!(Cfg::parse_keybinding("a+XF86AudioRaiseVolume").is_none());
    assert!(Cfg::parse_keybinding("XF86AudioPlay+XF86AudioStop").is_none());
    assert!(Cfg::parse_keybinding("Ctrl+a+XF86AudioStop").is_none());
}

#[test]
fn other_shapes_are_refused() {
    assert!(Cfg::parse_keybinding("Shift").is_none());
    assert!(Cfg::parse_keybinding("Ctrl+Alt").is_none());
    assert!(Cfg::parse_keybinding("Super+a+b").is_none());
    assert!(Cfg::parse_keybinding("a+Ctrl").is_none());
    assert!(Cfg::parse_keybinding("Super+a+Ctrl").is_none());
    assert!(Cfg::parse_keybinding("a").is_none());
    assert!(Cfg::parse_keybinding("a+b").is_none());
    assert!(Cfg::parse_keybinding("").is_none());
    assert!(Cfg::parse_keybinding("+").is_none());
    assert!(Cfg::parse_keybinding("Ctrl+").is_none());
}

#[test]
fn tokens_that_name_nothing_are_refused() {
    assert!(Cfg::parse_keybinding("Ctrl+foo").is_none());
    assert!(Cfg::parse_keybinding("Control+k").is_none());
    assert!(Cfg::parse_keybinding("Ctrl+é").is_none());
    assert!(Cfg::parse_keybinding("Ctrl+F13").is_none());
    assert!(Cfg::parse_keybinding("Ctrl k").is_none());
    assert!(!Cfg::is_valid_keybinding(&[Key::Ctrl, Key::UK]));
    assert!(!Cfg::is_valid_keybinding(&[Key::UK]));
    assert!(!Cfg::is_valid_keybinding(&[]));
}

#[test]
fn combining_keys_gives_their_set() {
    let keys = Cfg::combine(&[Key::Ctrl, Key::Alt, Key::T]);
    assert!(keys.is_ok_and(|k| k.same(&set(&[Key::T, Key::Ctrl, Key::Alt]))));
    assert!(Cfg::combine(&[Key::XF86AudioNext]).is_ok());
    assert!(matches!(Cfg::combine(&[Key::T, Key::Ctrl]), Err(Refusal::Shape)));
    assert!(matches!(Cfg::combine(&[]), Err(Refusal::Shape)));
}

#[test]
fn lines_are_told_apart_by_their_first_character() {
    assert!(Cfg::is_keybinding("Ctrl+k"));
    assert!(!Cfg::is_keybinding(" Ctrl+k"));
    assert!(!Cfg::is_keybinding("\tCtrl+k"));
    assert!(!Cfg::is_keybinding(""));
    assert!(Cfg::is_keybinding("#"));
    assert!(Cfg::is_keybinding("\u{a0}x"));
    assert!(Cfg::is_cmd(" ls"));
    assert!(Cfg::is_cmd("\tls"));
    assert!(Cfg::is_cmd(" "));
    assert!(!Cfg::is_cmd("ls"));
    assert!(!Cfg::is_cmd(""));
    assert!(!Cfg::is_cmd("\nls"));
}

#[test]
fn a_command_line_is_cut_at_whitespace() {
    let exec = Exec::new("alacritty -e tmux").expect("a command");
    assert_eq!(exec.program(), "alacritty");
    assert_eq!(exec.args(), &vec!["-e".to_string(), "tmux".to_string()]);
    let exec = Exec::new("terminal").expect("a command");
    assert_eq!(exec.program(), "terminal");
    assert!(exec.args().is_empty());
    let exec = Exec::new("amixer\tset Master\t5%+").expect("a command");
    assert_eq!(exec.program(), "amixer");
    assert_eq!(exec.args(), &vec!["set".to_string(), "Master".to_string(), "5%+".to_string()]);
    let exec = Exec::new("echo  $HOME \"a b\"").expect("a command");
    assert_eq!(exec.program(), "echo");
    assert_eq!(
        exec.args(),
        &vec!["".to_string(), "$HOME".to_string(), "\"a".to_string(), "b\"".to_string()]
    );
    let exec = Exec::new("").expect("a command");
    assert_eq!(exec.program(), "");
    assert!(exec.args().is_empty());
    let copy = exec.copy();
    assert_eq!(copy.program(), exec.program());
    let exec = Exec::new("a b c").expect("a command");
    let copy = exec.copy();
    assert_eq!(copy.program(), "a");
    assert_eq!(copy.args(), exec.args());
}

#[test]
fn the_table_binds_sets_of_keys() {
    let mut table = Keybindings::new();
    assert!(table.is_empty());
    assert!(table.get(&set(&[Key::Ctrl, Key::K])).is_none());
    table.insert(set(&[Key::Ctrl, Key::K]), Exec::new("one").expect("a command"));
    table.insert(set(&[Key::Ctrl, Key::J]), Exec::new("two x").expect("a command"));
    assert!(!table.is_empty());
    assert_eq!(command(&table, &[Key::Ctrl, Key::K]), bound("one", &[]));
    assert_eq!(command(&table, &[Key::K, Key::Ctrl]), bound("one", &[]));
    assert_eq!(command(&table, &[Key::J, Key::Ctrl]), bound("two", &["x"]));
    assert_eq!(command(&table, &[Key::Ctrl]), None);
    assert_eq!(command(&table, &[Key::Ctrl, Key::K, Key::J]), None);
    assert_eq!(command(&table, &[]), None);
}

#[test]
fn a_later_binding_replaces_an_earlier_one() {
    let mut table = Keybindings::new();
    table.insert(set(&[Key::Ctrl, Key::K]), Exec::new("one").expect("a command"));
    table.insert(set(&[Key::Alt, Key::K]), Exec::new("other").expect("a command"));
    table.insert(set(&[Key::K, Key::Ctrl]), Exec::new("two").expect("a command"));
    assert_eq!(command(&table, &[Key::Ctrl, Key::K]), bound("two", &[]));
    assert_eq!(command(&table, &[Key::Alt, Key::K]), bound("other", &[]));
    let table = Cfg::new("Ctrl+k\n  one\nShift+Ctrl+a\n  mid\nCtrl+k\n  two\n".to_string()).parse();
    assert_eq!(command(&table, &[Key::Ctrl, Key::K]), bound("two", &[]));
    assert_eq!(command(&table, &[Key::Ctrl, Key::Shift, Key::A]), bound("mid", &[]));
}

#[test]
fn a_configuration_is_read() {
    let text = "Ctrl+Alt+t\n    terminal\nSuper+Return\n\talacritty -e tmux\nXF86AudioRaiseVolume\n  amixer set Master 5%+\n";
    let table = Cfg::new(text.to_string()).parse();
    assert_eq!(command(&table, &[Key::Ctrl, Key::Alt, Key::T]), bound("terminal", &[]));
    assert_eq!(command(&table, &[Key::T, Key::Alt, Key::Ctrl]), bound("terminal", &[]));
    assert_eq!(command(&table, &[Key::Super, Key::Return]), bound("alacritty", &["-e", "tmux"]));
    assert_eq!(
        command(&table, &[Key::XF86AudioRaiseVolume]),
        bound("amixer", &["set", "Master", "5%+"])
    );
    assert_eq!(command(&table, &[Key::Ctrl, Key::Alt]), None);
    assert_eq!(command(&table, &[Key::Ctrl, Key::T]), None);
}

#[test]
fn an_empty_configuration_binds_nothing() {
    assert!(Cfg::new(String::new()).parse().is_empty());
    assert!(Cfg::new("\n\n\n".to_string()).parse().is_empty());
    assert!(Cfg::new("Ctrl+k".to_string()).parse().is_empty());
    assert!(Cfg::new("  ls\n".to_string()).parse().is_empty());
}

#[test]
fn a_refused_line_loses_its_command() {
    let text = "Shift\n  never\nCtrl+k\n  one\na+Ctrl\n  never\nCtrl+foo\n  never\nSuper+a+b\n  never\nAlt+F2\n  two\n";
    let table = Cfg::new(text.to_string()).parse();
    assert_eq!(command(&table, &[Key::Ctrl, Key::K]), bound("one", &[]));
    assert_eq!(command(&table, &[Key::Alt, Key::F2]), bound("two", &[]));
    assert_eq!(command(&table, &[Key::Shift]), None);
    assert_eq!(command(&table, &[Key::Ctrl, Key::A]), None);
    assert_eq!(command(&table, &[Key::Super, Key::A]), None);
    assert_eq!(command(&table, &[Key::Super, Key::A, Key::B]), None);
    assert_eq!(command(&table, &[Key::Ctrl, Key::UK]), None);
}

#[test]
fn only_the_first_command_line_counts() {
    let text = "Ctrl+k\n  one\n  two\n  three\nCtrl+j\n  four\n";
    let table = Cfg::new(text.to_string()).parse();
    assert_eq!(command(&table, &[Key::Ctrl, Key::K]), bound("one", &[]));
    assert_eq!(command(&table, &[Key::Ctrl, Key::J]), bound("four", &[]));
}

#[test]
fn a_new_combination_takes_the_place_of_a_waiting_one() {
    let table = Cfg::new("Ctrl+k\nCtrl+j\n  cmd\n".to_string()).parse();
    assert_eq!(command(&table, &[Key::Ctrl, Key::J]), bound("cmd", &[]));
    assert_eq!(command(&table, &[Key::Ctrl, Key::K]), None);
    let table = Cfg::new("Ctrl+k\nbad line\n  cmd\n".to_string()).parse();
    assert!(table.is_empty());
}

#[test]
fn empty_lines_change_nothing() {
    let table = Cfg::new("\nCtrl+k\n\n\n  one\n\n".to_string()).parse();
    assert_eq!(command(&table, &[Key::Ctrl, Key::K]), bound("one", &[]));
}

#[test]
fn a_command_line_is_trimmed() {
    let table = Cfg::new("Ctrl+k\n \t  ls   -l  \t \nCtrl+j\n \n".to_string()).parse();
    assert_eq!(command(&table, &[Key::Ctrl, Key::K]), bound("ls", &["", "", "-l"]));
    assert_eq!(command(&table, &[Key::Ctrl, Key::J]), bound("", &[]));
}

#[test]
fn each_refusal_has_its_reason() {
    assert_eq!(refusal("Ctrl+k"), None);
    assert_eq!(refusal("XF86AudioPlay"), None);
    assert_eq!(refusal("Shift+K"), Some(Refusal::RepeatedKey));
    assert_eq!(refusal("Ctrl+foo"), Some(Refusal::UnknownKey));
    assert_eq!(refusal("foo"), Some(Refusal::UnknownKey));
    assert_eq!(refusal("Shift"), Some(Refusal::Shape));
    assert_eq!(refusal("Super+a+b"), Some(Refusal::Shape));
    assert_eq!(refusal("a+Ctrl"), Some(Refusal::Shape));
    assert_eq!(refusal("Ctrl+XF86AudioPlay"), Some(Refusal::Shape));
    assert_eq!(refusal(""), Some(Refusal::Shape));
    assert_eq!(refusal("foo+bar"), Some(Refusal::RepeatedKey));
    assert_eq!(refusal("Ctrl+Ctrl+foo"), Some(Refusal::RepeatedKey));
    assert_eq!(refusal("a+b+foo"), Some(Refusal::UnknownKey));
    assert!(matches!(Cfg::combine(&[Key::Ctrl, Key::UK]), Err(Refusal::UnknownKey)));
    assert!(matches!(Cfg::combine(&[Key::UK, Key::UK]), Err(Refusal::RepeatedKey)));
}

#[test]
fn refused_lines_are_reported_with_their_numbers() {
    let text = "Shift\n  never\nCtrl+k\n  one\n\na+Ctrl\nCtrl+foo\n  never\nShift+K\n  never\nAlt+F2\n  two";
    let cfg = Cfg::new(text.to_string());
    assert_eq!(
        cfg.refused(),
        vec![
            (0, Refusal::Shape),
            (5, Refusal::Shape),
            (6, Refusal::UnknownKey),
            (8, Refusal::RepeatedKey),
        ]
    );
    assert_eq!(command(&cfg.parse(), &[Key::Ctrl, Key::K]), bound("one", &[]));
    assert_eq!(command(&cfg.parse(), &[Key::Alt, Key::F2]), bound("two", &[]));
    assert_eq!(Cfg::new("Ctrl+k\n  one\n".to_string()).refused(), vec![]);
    assert_eq!(Cfg::new(String::new()).refused(), vec![]);
    assert_eq!(Cfg::new("  orphan\n\n".to_string()).refused(), vec![]);
}
