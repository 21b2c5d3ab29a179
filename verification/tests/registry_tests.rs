//! Tests of the session registry: nickname uniqueness, first-joiner
//! privilege, operator authority, departure policy and disconnect cleanup.

use irc_core::model::RegistryError;
use irc_core::registry::Registry;

fn b(s: &str) -> Vec<u8> {
    s.as_bytes().to_vec()
}

fn names(snapshot: &[(Vec<u8>, bool)]) -> Vec<Vec<u8>> {
    snapshot.iter().map(|e| e.0.clone()).collect()
}

#[test]
fn claim_free_nickname_succeeds() {
    let mut reg = Registry::new();
    assert_eq!(reg.claim_nickname(1, b"alice"), Ok(()));
    assert_eq!(reg.lookup_session(b"alice"), Some(1));
}

#[test]
fn second_claim_of_same_nickname_fails() {
    let mut reg = Registry::new();
    assert_eq!(reg.claim_nickname(1, b"alice"), Ok(()));
    assert_eq!(reg.claim_nickname(2, b"alice"), Err(RegistryError::NameTaken));
    assert_eq!(reg.lookup_session(b"alice"), Some(1));
}

#[test]
fn reclaiming_own_nickname_fails() {
    let mut reg = Registry::new();
    assert_eq!(reg.claim_nickname(1, b"alice"), Ok(()));
    assert_eq!(reg.claim_nickname(1, b"alice"), Err(RegistryError::NameTaken));
}

#[test]
fn rename_frees_the_old_nickname() {
    let mut reg = Registry::new();
    assert_eq!(reg.claim_nickname(1, b"alice"), Ok(()));
    assert_eq!(reg.claim_nickname(1, b"alyce"), Ok(()));
    assert_eq!(reg.lookup_session(b"alice"), None);
    assert_eq!(reg.lookup_session(b"alyce"), Some(1));
    assert_eq!(reg.claim_nickname(2, b"alice"), Ok(()));
}

#[test]
fn first_joiner_becomes_operator() {
    let mut reg = Registry::new();
    let snap = reg.join(b"alice", b"#team");
    assert_eq!(snap.members, vec![b("alice")]);
    assert_eq!(snap.operator, Some(b("alice")));
}

#[test]
fn second_joiner_is_not_operator() {
    let mut reg = Registry::new();
    reg.join(b"alice", b"#team");
    let snap = reg.join(b"bob", b"#team");
    assert_eq!(snap.members, vec![b("alice"), b("bob")]);
    assert_eq!(snap.operator, Some(b("alice")));
}

#[test]
fn join_is_idempotent() {
    let mut reg = Registry::new();
    reg.join(b"alice", b"#team");
    let snap = reg.join(b"alice", b"#team");
    assert_eq!(snap.members, vec![b("alice")]);
    assert_eq!(snap.operator, Some(b("alice")));
}

#[test]
fn part_removes_member_and_clears_operator() {
    let mut reg = Registry::new();
    reg.join(b"alice", b"#team");
    reg.join(b"bob", b"#team");
    assert_eq!(reg.part(b"alice", b"#team"), Ok(()));
    let snap = reg.snapshot_members(b"#team").unwrap();
    assert_eq!(names(&snap), vec![b("bob")]);
    assert!(snap.iter().all(|e| !e.1), "no operator may remain after the operator parts");
}

#[test]
fn part_of_non_member_fails_and_changes_nothing() {
    let mut reg = Registry::new();
    reg.join(b"alice", b"#team");
    let before = reg.snapshot_members(b"#team").unwrap();
    assert_eq!(reg.part(b"bob", b"#team"), Err(RegistryError::NotMember));
    assert_eq!(reg.part(b"alice", b"#void"), Err(RegistryError::NotMember));
    let after = reg.snapshot_members(b"#team").unwrap();
    assert_eq!(before, after);
}

#[test]
fn emptied_channel_is_retained_without_operator() {
    let mut reg = Registry::new();
    reg.join(b"alice", b"#team");
    assert_eq!(reg.part(b"alice", b"#team"), Ok(()));
    let snap = reg.snapshot_members(b"#team").unwrap();
    assert!(snap.is_empty());
    let snap2 = reg.join(b"bob", b"#team");
    assert_eq!(snap2.operator, Some(b("bob")));
}

#[test]
fn grant_by_non_operator_fails() {
    let mut reg = Registry::new();
    reg.join(b"alice", b"#team");
    reg.join(b"bob", b"#team");
    assert_eq!(
        reg.set_operator(b"bob", b"#team", b"bob", true),
        Err(RegistryError::NotOperator)
    );
    let snap = reg.snapshot_members(b"#team").unwrap();
    assert_eq!(snap[0], (b("alice"), true));
}

#[test]
fn grant_on_missing_channel_fails() {
    let mut reg = Registry::new();
    assert_eq!(
        reg.set_operator(b"alice", b"#void", b"bob", true),
        Err(RegistryError::NotOperator)
    );
}

#[test]
fn grant_to_non_member_fails() {
    let mut reg = Registry::new();
    reg.join(b"alice", b"#team");
    assert_eq!(
        reg.set_operator(b"alice", b"#team", b"carol", true),
        Err(RegistryError::NotMember)
    );
}

#[test]
fn operator_can_grant_to_member() {
    let mut reg = Registry::new();
    reg.join(b"alice", b"#team");
    reg.join(b"bob", b"#team");
    assert_eq!(reg.set_operator(b"alice", b"#team", b"bob", true), Ok(()));
    let snap = reg.snapshot_members(b"#team").unwrap();
    assert_eq!(snap, vec![(b("alice"), false), (b("bob"), true)]);
}

#[test]
fn operator_can_revoke_only_itself() {
    let mut reg = Registry::new();
    reg.join(b"alice", b"#team");
    reg.join(b"bob", b"#team");
    assert_eq!(
        reg.set_operator(b"alice", b"#team", b"bob", false),
        Err(RegistryError::NotOperator)
    );
    assert_eq!(reg.set_operator(b"alice", b"#team", b"alice", false), Ok(()));
    let snap = reg.snapshot_members(b"#team").unwrap();
    assert!(snap.iter().all(|e| !e.1));
}

#[test]
fn leave_all_cleans_every_channel_and_the_nickname() {
    let mut reg = Registry::new();
    assert_eq!(reg.claim_nickname(1, b"alice"), Ok(()));
    reg.join(b"alice", b"#x");
    reg.join(b"alice", b"#y");
    reg.join(b"bob", b"#x");
    reg.leave_all(b"alice");
    let x = reg.snapshot_members(b"#x").unwrap();
    assert_eq!(x, vec![(b("bob"), false)]);
    let y = reg.snapshot_members(b"#y").unwrap();
    assert!(y.is_empty());
    assert_eq!(reg.lookup_session(b"alice"), None);
}

#[test]
fn snapshot_of_missing_channel_is_none() {
    let reg = Registry::new();
    assert!(reg.snapshot_members(b"#void").is_none());
}

#[test]
fn is_operator_of_reports_the_role() {
    let mut reg = Registry::new();
    reg.join(b"alice", b"#team");
    assert!(reg.is_operator_of(b"#team", b"alice"));
    assert!(!reg.is_operator_of(b"#team", b"bob"));
    assert!(!reg.is_operator_of(b"#void", b"alice"));
}

#[test]
fn exactly_one_of_many_claims_succeeds() {
    let mut reg = Registry::new();
    let mut successes = 0;
    let mut taken = 0;
    for sid in 1..=5u64 {
        match reg.claim_nickname(sid, b"alice") {
            Ok(()) => successes += 1,
            Err(RegistryError::NameTaken) => taken += 1,
            Err(e) => panic!("unexpected error: {:?}", e),
        }
    }
    assert_eq!(successes, 1);
    assert_eq!(taken, 4);
}

#[test]
fn operator_is_always_a_member_after_any_sequence() {
    let mut reg = Registry::new();
    reg.join(b"alice", b"#a");
    reg.join(b"bob", b"#a");
    reg.join(b"alice", b"#b");
    let _ = reg.part(b"alice", b"#a");
    reg.join(b"carol", b"#a");
    reg.leave_all(b"bob");
    let _ = reg.part(b"carol", b"#b");
    for chan in [&b"#a"[..], &b"#b"[..]] {
        let snap = reg.snapshot_members(chan).unwrap();
        // the operator mark may sit only on a listed member, at most once
        assert!(snap.iter().filter(|e| e.1).count() <= 1);
    }
}
