use liaison::clipboard::{press_alt_v, Clipboard};
use liaison::hotkey::{HotKey, HotKeyManager};

#[test]
fn new_history_is_empty() {
    let c = Clipboard::new(16);
    assert!(c.content.is_empty());
    assert_eq!(c.capacity, 16);
    assert_eq!(c.size, 0);
    assert!(!c.updated);
}

#[test]
fn append_puts_newest_first_and_evicts_oldest() {
    let mut c = Clipboard::new(2);
    c.append(b"a".to_vec());
    c.append(b"b".to_vec());
    assert_eq!(c.content, vec![b"b".to_vec(), b"a".to_vec()]);
    c.append(b"c".to_vec());
    assert_eq!(c.content, vec![b"c".to_vec(), b"b".to_vec()]);
    assert_eq!(c.size, 2);
    assert!(c.updated);
}

#[test]
fn zero_capacity_history_keeps_nothing() {
    let mut c = Clipboard::new(0);
    c.append(b"a".to_vec());
    assert!(c.content.is_empty());
    assert_eq!(c.size, 0);
}

#[test]
fn paste_takes_newest_entry() {
    let mut c = Clipboard::new(4);
    assert_eq!(press_alt_v(&c), None);
    c.append(b"old".to_vec());
    c.append(b"new".to_vec());
    assert_eq!(press_alt_v(&c), Some(b"new".to_vec()));
}

#[test]
fn hotkey_is_sorted_without_repeats() {
    let k = HotKey::new(vec![9, 3, 9, 1, 3]);
    assert_eq!(k.keys(), vec![1, 3, 9]);
    assert!(k.eq(&HotKey::new(vec![1, 9, 3])));
    assert!(!k.eq(&HotKey::new(vec![1, 9])));
    assert_eq!(HotKey::new(vec![]).keys(), Vec::<u32>::new());
}

#[test]
fn manager_fires_actions_only_on_change() {
    let mut m = HotKeyManager::new();
    m.register(HotKey::new(vec![56, 46]), 1);
    m.register(HotKey::new(vec![56, 47]), 2);
    m.register(HotKey::new(vec![46, 56]), 3);
    let idle = HotKey::new(vec![]);
    let alt_c = HotKey::new(vec![46, 56]);
    assert_eq!(m.on_change(&idle, &alt_c), vec![1, 3]);
    assert_eq!(m.on_change(&alt_c, &HotKey::new(vec![56, 46])), Vec::<u32>::new());
    assert_eq!(m.on_change(&alt_c, &idle), Vec::<u32>::new());
    assert_eq!(m.shortcuts[1].match_call(&HotKey::new(vec![47, 56])), Some(2));
    assert_eq!(m.shortcuts[1].match_call(&alt_c), None);
}
