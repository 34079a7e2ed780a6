use rkd::key::Key;
use rkd::keyset::KeySet;

#[test]
fn a_new_set_is_empty() {
    let set = KeySet::new();
    assert_eq!(set.len(), 0);
    assert!(set.is_empty());
    assert!(!set.contains(Key::A));
}

#[test]
fn keys_go_in_once() {
    let mut set = KeySet::new();
    assert!(set.insert(Key::Ctrl));
    assert!(set.insert(Key::K));
    assert!(!set.insert(Key::Ctrl));
    assert_eq!(set.len(), 2);
    assert!(set.contains(Key::Ctrl));
    assert!(set.contains(Key::K));
    assert!(!set.contains(Key::Alt));
    assert!(!set.is_empty());
}

#[test]
fn keys_come_out() {
    let mut set = KeySet::new();
    set.insert(Key::Ctrl);
    set.insert(Key::Alt);
    set.insert(Key::T);
    assert!(set.remove(Key::Alt));
    assert!(!set.remove(Key::Alt));
    assert!(!set.remove(Key::Z));
    assert_eq!(set.len(), 2);
    assert!(set.contains(Key::Ctrl));
    assert!(set.contains(Key::T));
    assert!(!set.contains(Key::Alt));
    assert!(set.remove(Key::Ctrl));
    assert!(set.remove(Key::T));
    assert!(set.is_empty());
}

#[test]
fn sets_compare_without_order() {
    let mut one = KeySet::new();
    one.insert(Key::Ctrl);
    one.insert(Key::Alt);
    one.insert(Key::T);
    let mut two = KeySet::new();
    two.insert(Key::T);
    two.insert(Key::Alt);
    assert!(!one.same(&two));
    assert!(!two.same(&one));
    assert!(one.includes(&two));
    assert!(!two.includes(&one));
    two.insert(Key::Ctrl);
    assert!(one.same(&two));
    assert!(two.same(&one));
    one.remove(Key::T);
    assert!(!two.same(&one));
    assert_eq!(two.len(), 3);
    assert!(KeySet::new().same(&KeySet::new()));
    assert!(one.includes(&KeySet::new()));
}
