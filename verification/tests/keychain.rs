use skproto::keys::Keychain;
use skproto::keys::ScanCode;
use skproto::keys::SC_BACK;
use skproto::keys::SC_ESCAPE;

fn codes(kc: &Keychain) -> Vec<i32> {
    kc.keys.iter().map(|k| k.scan_code.0).collect()
}

#[test]
fn add_appends_in_order_without_deduplication() {
    let mut kc = Keychain::new();
    kc.add(ScanCode(0x1E));
    kc.add(ScanCode(0x30));
    kc.add(ScanCode(0x1E));
    assert_eq!(codes(&kc), vec![0x1E, 0x30, 0x1E]);
}

#[test]
fn back_undoes_add_from_a_nonempty_state() {
    let mut kc = Keychain::new();
    kc.add(ScanCode(0x1E));
    kc.add(ScanCode(0x30));
    let before = codes(&kc);
    kc.add(ScanCode(0x2C));
    kc.back();
    assert_eq!(codes(&kc), before);
}

#[test]
fn back_on_an_empty_keychain_leaves_it_empty() {
    let mut kc = Keychain::new();
    kc.back();
    assert!(kc.keys.is_empty());
    kc.back();
    assert!(kc.keys.is_empty());
}

#[test]
fn clear_empties_any_keychain_and_is_idempotent() {
    let mut kc = Keychain::new();
    kc.clear();
    assert!(kc.keys.is_empty());
    kc.add(ScanCode(0x1E));
    kc.add(ScanCode(0x30));
    kc.clear();
    assert!(kc.keys.is_empty());
    kc.clear();
    assert!(kc.keys.is_empty());
}

#[test]
fn dispatch_branches_on_the_two_reserved_codes() {
    let mut kc = Keychain::new();
    kc.dispatch(ScanCode(0x1E));
    kc.dispatch(ScanCode(0x30));
    assert_eq!(codes(&kc), vec![0x1E, 0x30]);
    kc.dispatch(ScanCode(SC_BACK));
    assert_eq!(codes(&kc), vec![0x1E]);
    kc.dispatch(ScanCode(SC_ESCAPE));
    assert!(kc.keys.is_empty());
}

#[test]
fn resolution_queries_the_platform_at_most_once_per_code() {
    let mut kc = Keychain::new();
    let mut queries = 0;
    for _ in 0..2 {
        if kc.needs_resolution(ScanCode(0x1E)) {
            queries += 1;
            kc.insert_label(ScanCode(0x1E), String::from("A"));
        }
        assert_eq!(kc.resolve(ScanCode(0x1E)), Some(String::from("A")));
    }
    assert_eq!(queries, 1);
}

#[test]
fn labels_survive_edits_and_are_never_replaced() {
    let mut kc = Keychain::new();
    kc.insert_label(ScanCode(0x1E), String::from("A"));
    kc.add(ScanCode(0x1E));
    kc.back();
    kc.clear();
    assert_eq!(kc.resolve(ScanCode(0x1E)), Some(String::from("A")));
    kc.insert_label(ScanCode(0x1E), String::from("B"));
    assert_eq!(kc.resolve(ScanCode(0x1E)), Some(String::from("A")));
    assert_eq!(kc.resolve(ScanCode(0x30)), None);
}

#[test]
fn a_failed_name_query_caches_an_empty_label() {
    let mut kc = Keychain::new();
    kc.insert_label(ScanCode(0xAD), String::new());
    assert!(!kc.needs_resolution(ScanCode(0xAD)));
    assert_eq!(kc.resolve(ScanCode(0xAD)), Some(String::new()));
}
