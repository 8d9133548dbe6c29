use clispeak::identity::{device_name_from, key_from_bytes, usable_hostname, FileKeyStore, IdentityError};
use clispeak::keystore::{decide, keyring_key, DesktopKeyStore, Keyring};

#[test]
fn a_mac_hostname_loses_its_mdns_suffix() {
    assert_eq!(
        usable_hostname("Patricks-Mac-mini.local").as_deref(),
        Some("Patricks-Mac-mini")
    );
}

#[test]
fn a_plain_hostname_survives_untouched() {
    assert_eq!(usable_hostname("laptop").as_deref(), Some("laptop"));
    assert_eq!(
        usable_hostname("  build-box\n").as_deref(),
        Some("build-box")
    );
}

#[test]
fn a_domain_that_is_not_mdns_is_left_alone() {
    assert_eq!(
        usable_hostname("host.corp.example.com").as_deref(),
        Some("host.corp.example.com")
    );
}

#[test]
fn a_name_that_is_not_one_is_refused() {
    assert_eq!(usable_hostname(""), None);
    assert_eq!(usable_hostname("   "), None);
    assert_eq!(usable_hostname("localhost"), None);
    assert_eq!(usable_hostname("LocalHost"), None);
    assert_eq!(usable_hostname(".local"), None);
}

#[test]
fn a_chosen_name_beats_the_environment_and_blanks_do_not_count() {
    assert_eq!(device_name_from(Some(" desk "), Some("env"), "this device"), "desk");
    assert_eq!(device_name_from(Some("  "), Some(" env "), "this device"), "env");
    let fallen = device_name_from(None, Some(" "), "this device");
    assert!(!fallen.is_empty());
}

#[test]
fn a_stored_key_has_to_be_thirty_two_bytes() {
    assert_eq!(key_from_bytes(&vec![5u8; 32]).expect("a key"), [5u8; 32]);
    match key_from_bytes(&vec![5u8; 31]) {
        Err(e @ IdentityError::Malformed(_)) => {
            assert_eq!(e.message(), "stored key is malformed: expected 32 bytes, found 31")
        }
        other => panic!("not refused as malformed: {other:?}"),
    }
}

const KEY: [u8; 32] = [7u8; 32];

fn marker() -> &'static str {
    "/tmp/clispeak-marker-test"
}

#[test]
fn keyring_key_wins() {
    assert_eq!(decide(Some(KEY), None, true, marker()).unwrap(), Some(KEY));
}

#[test]
fn file_key_is_used_when_the_keyring_has_none() {
    assert_eq!(decide(None, Some(KEY), false, marker()).unwrap(), Some(KEY));
}

#[test]
fn first_run_reports_no_identity_rather_than_failing() {
    assert_eq!(decide(None, None, false, marker()).unwrap(), None);
}

#[test]
fn a_vanished_keyring_key_is_an_error_not_a_new_identity() {
    let err = decide(None, None, true, marker()).expect_err("must refuse");
    let message = err.message();
    assert!(
        message.contains("Refusing to generate"),
        "unhelpful: {message}"
    );
    assert!(
        message.contains("clispeak-marker-test"),
        "should say how to override"
    );
}

fn store(answer: Keyring) -> DesktopKeyStore {
    DesktopKeyStore {
        fallback: FileKeyStore::at("/tmp/clispeak-cache-test".to_string()),
        marker: "/tmp/clispeak-cache-test-marker".to_string(),
        asked: Some(answer),
    }
}

fn the_keyring() -> Keyring {
    panic!("the keyring was asked again")
}

#[test]
fn a_second_ask_does_not_reach_the_keyring() {
    let mut store = store(Keyring::Empty);
    // Pre-seeded, so anything that reached the keyring would change it.
    assert!(matches!(store.ask(the_keyring), Keyring::Empty));
    assert!(matches!(store.ask(the_keyring), Keyring::Empty));
    assert!(matches!(store.asked.as_ref(), Some(Keyring::Empty)));
}

#[test]
fn a_keyring_that_will_not_answer_says_so() {
    let mut locked = store(Keyring::Unreadable("keychain is locked".into()));
    let mut empty = store(Keyring::Empty);

    let locked = locked.describe(the_keyring);
    assert_ne!(
        locked,
        empty.describe(the_keyring),
        "a locked keyring reported the same as one with no key, which is \
         what stopped anyone learning the keychain was the thing to unlock"
    );
    assert!(locked.contains("keychain is locked"), "{locked}");
    assert!(locked.contains("Unlock"), "{locked}");
}

#[test]
fn a_stale_empty_does_not_survive_a_save() {
    let mut store = store(Keyring::Empty);
    store.saved_to_keyring([9u8; 32]);
    assert_eq!(store.describe(the_keyring), "system keyring");
}

#[test]
fn the_first_ask_is_remembered() {
    let mut fresh = DesktopKeyStore::new(
        FileKeyStore::at("/tmp/k".to_string()),
        "/tmp/m".to_string(),
    );
    assert!(matches!(fresh.ask(|| Keyring::Malformed(5)), Keyring::Malformed(5)));
    assert_eq!(
        fresh.describe(the_keyring),
        "system keyring, holding 5 bytes where 32 are expected"
    );
    match keyring_key(&Keyring::Malformed(5)) {
        Err(e) => assert_eq!(e.message(), "stored key is malformed: keyring holds 5 bytes, expected 32"),
        Ok(_) => panic!("a malformed key was accepted"),
    }
    assert_eq!(keyring_key(&Keyring::Missing).unwrap(), None);
    assert_eq!(store(Keyring::Missing).describe(the_keyring), "file /tmp/clispeak-cache-test");
}
