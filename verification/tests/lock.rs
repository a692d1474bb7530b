use ferry_runtime::dav::lock::{token_of, LockError, LockTable, UnlockOutcome, MAX_LOCKS};

#[test]
fn a_lock_unlocks_with_its_own_token() {
    let mut table = LockTable::new();
    let token = table.lock_path("DCIM/.DS_Store", 0).unwrap();
    assert!(table.unlock_path("DCIM/.DS_Store", &token, 0));
}

#[test]
fn unlock_refuses_the_wrong_token() {
    let mut table = LockTable::new();
    table.lock_path("DCIM/.DS_Store", 0).unwrap();
    assert!(!table.unlock_path("DCIM/.DS_Store", "opaquelocktoken:not-it", 0));
}

#[test]
fn unlock_accepts_a_bracketed_token() {
    let mut table = LockTable::new();
    let token = table.lock_path("a", 0).unwrap();
    assert!(table.unlock_path("a", &format!("<{token}>"), 0));
}

#[test]
fn a_second_lock_replaces_the_first() {
    let mut table = LockTable::new();
    let first = table.lock_path("a", 0).unwrap();
    let second = table.lock_path("a", 0).unwrap();
    assert_ne!(first, second);
    assert!(!table.unlock_path("a", &first, 0));
    assert!(table.unlock_path("a", &second, 0));
}

#[test]
fn allows_an_unlocked_path() {
    let table = LockTable::new();
    assert!(table.allows("a", None, 0));
}

#[test]
fn allows_refuses_a_locked_path_with_no_token() {
    let mut table = LockTable::new();
    table.lock_path("a", 0).unwrap();
    assert!(!table.allows("a", None, 0));
    assert!(!table.allows("a", Some("(<opaquelocktoken:not-it>)"), 0));
}

#[test]
fn allows_accepts_the_matching_token_inside_an_if_header() {
    let mut table = LockTable::new();
    let token = table.lock_path("a", 0).unwrap();
    assert!(table.allows("a", Some(&format!("(<{token}>)")), 0));
}

#[test]
fn a_lock_expires() {
    let mut table = LockTable::with_timeout(20);
    let token = table.lock_path("a", 0).unwrap();
    assert!(
        !table.unlock_path("a", &token, 80),
        "an expired lock should no longer unlock"
    );
}

#[test]
fn an_unlock_says_what_it_found() {
    let mut table = LockTable::new();
    assert_eq!(table.unlock("a", "t", 0), UnlockOutcome::NotLocked);
    let token = table.lock_path("a", 0).unwrap();
    assert_eq!(table.unlock("a", "t", 0), UnlockOutcome::WrongToken);
    assert_eq!(table.unlock("a", &token, 0), UnlockOutcome::Unlocked);
    assert_eq!(table.unlock("a", &token, 0), UnlockOutcome::NotLocked);
}

#[test]
fn a_full_table_refuses_a_new_path_and_takes_a_known_one() {
    let mut table = LockTable::with_timeout(10);
    for i in 0..MAX_LOCKS {
        table.lock_path(&format!("{i:05}"), 0).unwrap();
    }
    assert_eq!(table.lock_path("one more", 0), Err(LockError::Full));
    assert!(table.lock_path("00000", 0).is_ok());
    assert!(
        table.lock_path("one more", 20).is_ok(),
        "expired locks make room"
    );
}

#[test]
fn a_table_without_randomness_locks_nothing() {
    let mut table = LockTable::new();
    assert_eq!(
        table.lock_path_with("a", 0, None),
        Err(LockError::NoRandomness)
    );
    assert!(table.allows("a", None, 0));
}

#[test]
fn a_token_reads_with_or_without_its_scheme() {
    assert_eq!(token_of("<opaquelocktoken:abc>"), "abc");
    assert_eq!(token_of("abc"), "abc");
}
