//! Tests of the dispatch engine: registration, fan-out to third parties,
//! authorization failures, listings, and the end-to-end two-client scenario.

use irc_core::command::{parse_command, Command};
use irc_core::dispatch::{dispatch, DispatchResult, Reply, SessionState};
use irc_core::registry::Registry;

fn b(s: &str) -> Vec<u8> {
    s.as_bytes().to_vec()
}

fn run(reg: &mut Registry, sess: &mut SessionState, line: &str) -> DispatchResult {
    let cmd = parse_command(line);
    dispatch(reg, sess, &cmd)
}

#[test]
fn channel_command_before_nick_is_rejected() {
    let mut reg = Registry::new();
    let mut sess = SessionState::new(1);
    for line in ["JOIN #team", "PART #team", "PRIVMSG bob hi", "MODE #team +o bob", "WHO #team",
        "NAMES #team"] {
        let out = run(&mut reg, &mut sess, line);
        assert_eq!(out.to_issuer, vec![Reply::NotRegisteredReply]);
        assert!(out.broadcast.is_empty());
        assert!(!out.close);
    }
}

#[test]
fn nick_success_sends_welcome() {
    let mut reg = Registry::new();
    let mut sess = SessionState::new(1);
    let out = run(&mut reg, &mut sess, "NICK alice");
    assert_eq!(out.to_issuer, vec![Reply::Welcome { nick: b("alice") }]);
    assert!(out.broadcast.is_empty());
    assert_eq!(sess.nickname, Some(b("alice")));
}

#[test]
fn nick_collision_sends_name_taken() {
    let mut reg = Registry::new();
    let mut a = SessionState::new(1);
    let mut z = SessionState::new(2);
    run(&mut reg, &mut a, "NICK alice");
    let out = run(&mut reg, &mut z, "NICK alice");
    assert_eq!(out.to_issuer, vec![Reply::NameTaken { nick: b("alice") }]);
    assert_eq!(z.nickname, None);
}

#[test]
fn join_broadcasts_to_each_existing_member_once() {
    let mut reg = Registry::new();
    let mut a = SessionState::new(1);
    let mut bb = SessionState::new(2);
    let mut c = SessionState::new(3);
    run(&mut reg, &mut a, "NICK anna");
    run(&mut reg, &mut bb, "NICK bert");
    run(&mut reg, &mut c, "NICK cora");
    run(&mut reg, &mut a, "JOIN #team");
    run(&mut reg, &mut bb, "JOIN #team");
    let out = run(&mut reg, &mut c, "JOIN #team");
    let notice = |nick: &str| {
        (
            b(nick),
            Reply::JoinNotice { channel: b("#team"), nick: b("cora") },
        )
    };
    assert_eq!(out.broadcast, vec![notice("anna"), notice("bert")]);
    assert_eq!(
        out.to_issuer,
        vec![Reply::JoinReply {
            channel: b("#team"),
            members: vec![b("anna"), b("bert"), b("cora")],
            operator: Some(b("anna")),
        }]
    );
}

#[test]
fn part_notifies_remaining_members() {
    let mut reg = Registry::new();
    let mut a = SessionState::new(1);
    let mut bb = SessionState::new(2);
    run(&mut reg, &mut a, "NICK anna");
    run(&mut reg, &mut bb, "NICK bert");
    run(&mut reg, &mut a, "JOIN #team");
    run(&mut reg, &mut bb, "JOIN #team");
    let out = run(&mut reg, &mut a, "PART #team");
    assert_eq!(out.to_issuer, vec![Reply::PartReply { channel: b("#team") }]);
    assert_eq!(
        out.broadcast,
        vec![(b("bert"), Reply::PartNotice { channel: b("#team"), nick: b("anna") })]
    );
}

#[test]
fn part_of_unjoined_channel_is_an_issuer_only_error() {
    let mut reg = Registry::new();
    let mut a = SessionState::new(1);
    run(&mut reg, &mut a, "NICK anna");
    let out = run(&mut reg, &mut a, "PART #team");
    assert_eq!(out.to_issuer, vec![Reply::NotMemberReply { channel: b("#team") }]);
    assert!(out.broadcast.is_empty());
}

#[test]
fn privmsg_to_unknown_target_is_an_error() {
    let mut reg = Registry::new();
    let mut a = SessionState::new(1);
    run(&mut reg, &mut a, "NICK anna");
    let out = run(&mut reg, &mut a, "PRIVMSG nobody hi");
    assert_eq!(out.to_issuer, vec![Reply::NoSuchTargetReply { target: b("nobody") }]);
    assert!(out.broadcast.is_empty());
}

#[test]
fn mode_by_non_operator_fails_without_state_change_or_broadcast() {
    let mut reg = Registry::new();
    let mut a = SessionState::new(1);
    let mut bb = SessionState::new(2);
    run(&mut reg, &mut a, "NICK anna");
    run(&mut reg, &mut bb, "NICK bert");
    run(&mut reg, &mut a, "JOIN #team");
    run(&mut reg, &mut bb, "JOIN #team");
    let before = reg.snapshot_members(b"#team").unwrap();
    let out = run(&mut reg, &mut bb, "MODE #team +o bert");
    assert_eq!(out.to_issuer, vec![Reply::NotOperatorReply { channel: b("#team") }]);
    assert!(out.broadcast.is_empty());
    assert_eq!(reg.snapshot_members(b"#team").unwrap(), before);
}

#[test]
fn mode_grant_is_broadcast_to_the_channel() {
    let mut reg = Registry::new();
    let mut a = SessionState::new(1);
    let mut bb = SessionState::new(2);
    run(&mut reg, &mut a, "NICK anna");
    run(&mut reg, &mut bb, "NICK bert");
    run(&mut reg, &mut a, "JOIN #team");
    run(&mut reg, &mut bb, "JOIN #team");
    let out = run(&mut reg, &mut a, "MODE #team +o bert");
    assert_eq!(
        out.to_issuer,
        vec![Reply::ModeChange { channel: b("#team"), grant: true, target: b("bert") }]
    );
    assert_eq!(
        out.broadcast,
        vec![(
            b("bert"),
            Reply::ModeChange { channel: b("#team"), grant: true, target: b("bert") },
        )]
    );
    assert!(reg.is_operator_of(b"#team", b"bert"));
}

#[test]
fn mode_grant_to_non_member_fails() {
    let mut reg = Registry::new();
    let mut a = SessionState::new(1);
    run(&mut reg, &mut a, "NICK anna");
    run(&mut reg, &mut a, "JOIN #team");
    let out = run(&mut reg, &mut a, "MODE #team +o ghost");
    assert_eq!(out.to_issuer, vec![Reply::NotMemberReply { channel: b("#team") }]);
    assert!(out.broadcast.is_empty());
}

#[test]
fn mode_with_unknown_flag_does_nothing_for_the_operator() {
    let mut reg = Registry::new();
    let mut a = SessionState::new(1);
    run(&mut reg, &mut a, "NICK anna");
    run(&mut reg, &mut a, "JOIN #team");
    let out = run(&mut reg, &mut a, "MODE #team +v anna");
    assert!(out.to_issuer.is_empty());
    assert!(out.broadcast.is_empty());
}

#[test]
fn names_lists_members_with_operator_mark() {
    let mut reg = Registry::new();
    let mut a = SessionState::new(1);
    let mut bb = SessionState::new(2);
    run(&mut reg, &mut a, "NICK anna");
    run(&mut reg, &mut bb, "NICK bert");
    run(&mut reg, &mut a, "JOIN #team");
    run(&mut reg, &mut bb, "JOIN #team");
    let out = run(&mut reg, &mut bb, "NAMES #team");
    assert_eq!(
        out.to_issuer,
        vec![Reply::NamesReply {
            channel: b("#team"),
            entries: vec![(b("anna"), true), (b("bert"), false)],
        }]
    );
    let out2 = run(&mut reg, &mut bb, "WHO #team");
    assert_eq!(
        out2.to_issuer,
        vec![Reply::WhoReply {
            channel: b("#team"),
            entries: vec![(b("anna"), true), (b("bert"), false)],
        }]
    );
}

#[test]
fn listing_of_missing_channel_is_an_error() {
    let mut reg = Registry::new();
    let mut a = SessionState::new(1);
    run(&mut reg, &mut a, "NICK anna");
    let out = run(&mut reg, &mut a, "NAMES #void");
    assert_eq!(out.to_issuer, vec![Reply::NoSuchChannelReply { channel: b("#void") }]);
}

#[test]
fn quit_cleans_up_and_closes() {
    let mut reg = Registry::new();
    let mut a = SessionState::new(1);
    let mut bb = SessionState::new(2);
    run(&mut reg, &mut a, "NICK anna");
    run(&mut reg, &mut bb, "NICK bert");
    run(&mut reg, &mut a, "JOIN #x");
    run(&mut reg, &mut a, "JOIN #y");
    run(&mut reg, &mut bb, "JOIN #x");
    let out = run(&mut reg, &mut a, "QUIT");
    assert!(out.close);
    assert_eq!(out.to_issuer, vec![Reply::Farewell]);
    assert_eq!(sessionless_names(&reg, "#x"), vec![b("bert")]);
    assert!(sessionless_names(&reg, "#y").is_empty());
    assert_eq!(reg.lookup_session(b"anna"), None);
    assert!(!reg.is_operator_of(b"#x", b"anna"));
    assert_eq!(a.nickname, None);
}

fn sessionless_names(reg: &Registry, chan: &str) -> Vec<Vec<u8>> {
    reg.snapshot_members(chan.as_bytes())
        .unwrap()
        .into_iter()
        .map(|e| e.0)
        .collect()
}

#[test]
fn cap_ping_pong_user_unknown() {
    let mut reg = Registry::new();
    let mut a = SessionState::new(1);
    assert_eq!(run(&mut reg, &mut a, "CAP LS 302").to_issuer, vec![Reply::CapLs]);
    assert_eq!(run(&mut reg, &mut a, "PING").to_issuer, vec![Reply::Pong]);
    assert!(run(&mut reg, &mut a, "PONG").to_issuer.is_empty());
    assert_eq!(
        run(&mut reg, &mut a, "USER carol").to_issuer,
        vec![Reply::UserAck { username: b("carol") }]
    );
    assert_eq!(
        run(&mut reg, &mut a, "BOGUS x").to_issuer,
        vec![Reply::UnknownReply { line: b("BOGUS x") }]
    );
}

#[test]
fn two_clients_join_and_message_each_other() {
    let mut reg = Registry::new();
    let mut a = SessionState::new(1);
    let mut bb = SessionState::new(2);

    run(&mut reg, &mut a, "NICK alice");
    run(&mut reg, &mut a, "JOIN #team");
    run(&mut reg, &mut bb, "NICK bob");
    let join_b = run(&mut reg, &mut bb, "JOIN #team");

    // Alice, the existing member, gets exactly one join notice for bob; bob
    // reads its own direct reply and is no broadcast recipient.
    assert_eq!(
        join_b.broadcast,
        vec![(b("alice"), Reply::JoinNotice { channel: b("#team"), nick: b("bob") })]
    );
    assert_eq!(
        join_b.to_issuer,
        vec![Reply::JoinReply {
            channel: b("#team"),
            members: vec![b("alice"), b("bob")],
            operator: Some(b("alice")),
        }]
    );

    // One private message to bob alone; alice gets no broadcast back.
    let msg = run(&mut reg, &mut a, "PRIVMSG bob hi");
    assert_eq!(
        msg.broadcast,
        vec![(b("bob"), Reply::PrivMsgDelivery { from: b("alice"), message: b("hi") })]
    );
    assert!(msg.to_issuer.is_empty());
    assert!(!msg.close);
}
