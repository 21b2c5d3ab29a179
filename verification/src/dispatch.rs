//! Dispatch engine: given one parsed command and the issuing session, perform
//! the registry operation and compute the addressed outbound messages. Every
//! branch ends in a reply to the issuer alone, or a reply plus a broadcast to
//! a computed recipient set; a registry failure becomes an issuer-only error
//! reply and never unwinds. Rendering a `Reply` into wire text is the
//! connection loop's job, outside this crate.

use vstd::prelude::*;
use crate::bytes::{bytes_eq, copy_bytes, views_of};
use crate::command::Command;
use crate::model::{
    chan_keys,
    RegView, RegistryError, claimed, session_of, chan_at, has_channel, members_of, operator_of,
    is_operator, wf, claim_ok, spec_claim, spec_join, part_ok, spec_part, set_operator_err,
    spec_set_operator, spec_leave_all, entry_list, except_key, lemma_except_concat,
    lemma_leave_all_sid, lemma_find_key, lemma_except_single,
};
use crate::registry::{Registry, opt_view, entries_view};

verus! {

/// One outbound message kind with its parameters, still to be rendered into
/// wire text by the connection loop.
#[derive(Debug, PartialEq, Eq)]
pub enum Reply {
    CapLs,
    Welcome { nick: Vec<u8> },
    NameTaken { nick: Vec<u8> },
    UserAck { username: Vec<u8> },
    JoinReply { channel: Vec<u8>, members: Vec<Vec<u8>>, operator: Option<Vec<u8>> },
    JoinNotice { channel: Vec<u8>, nick: Vec<u8> },
    PartReply { channel: Vec<u8> },
    PartNotice { channel: Vec<u8>, nick: Vec<u8> },
    NotMemberReply { channel: Vec<u8> },
    PrivMsgDelivery { from: Vec<u8>, message: Vec<u8> },
    NoSuchTargetReply { target: Vec<u8> },
    ModeChange { channel: Vec<u8>, grant: bool, target: Vec<u8> },
    NotOperatorReply { channel: Vec<u8> },
    NoSuchChannelReply { channel: Vec<u8> },
    NamesReply { channel: Vec<u8>, entries: Vec<(Vec<u8>, bool)> },
    WhoReply { channel: Vec<u8>, entries: Vec<(Vec<u8>, bool)> },
    Pong,
    Farewell,
    NotRegisteredReply,
    UnknownReply { line: Vec<u8> },
}

/// Per-connection state: the session id and the claimed nickname, if any.
/// Unregistered until the first successful NICK.
pub struct SessionState {
    pub sid: u64,
    pub nickname: Option<Vec<u8>>,
}

/// What one dispatched command produces: replies owed to the issuer, messages
/// addressed to other members by nickname, and whether the connection is to
/// close.
pub struct DispatchResult {
    pub to_issuer: Vec<Reply>,
    pub broadcast: Vec<(Vec<u8>, Reply)>,
    pub close: bool,
}

impl SessionState {
    /// A fresh, unregistered session.
    pub fn new(sid: u64) -> (s: SessionState)
        ensures
            s.sid == sid,
            s.nickname is None,
    {
        SessionState { sid, nickname: None }
    }
}

/// The session agrees with the registry: its nickname, if any, maps to its
/// session id, and an unregistered session owns no mapping at all.
pub open spec fn session_ok(r: RegView, s: SessionState) -> bool {
    match s.nickname {
        Some(n) => claimed(r, n@) && session_of(r, n@) == s.sid,
        None => forall|j: int| 0 <= j < r.nicks.len() ==> r.nicks[j].1 != s.sid,
    }
}

/// Two session states with the same id and nickname.
pub open spec fn same_session(a: SessionState, b: SessionState) -> bool {
    a.sid == b.sid && opt_view(a.nickname) == opt_view(b.nickname)
}

/// Nothing moved: registry and session as before.
pub open spec fn unchanged(r0: RegView, s0: SessionState, r1: RegView, s1: SessionState) -> bool {
    r1 == r0 && same_session(s1, s0)
}

/// No broadcast and no close: an issuer-only outcome.
pub open spec fn issuer_only(out: DispatchResult) -> bool {
    out.broadcast@.len() == 0 && !out.close
}

/// A broadcast list of join notices: one per recipient, in order.
pub open spec fn join_notice_list(
    bs: Seq<(Vec<u8>, Reply)>,
    rcpt: Seq<Seq<u8>>,
    c: Seq<u8>,
    n: Seq<u8>,
) -> bool {
    &&& bs.len() == rcpt.len()
    &&& forall|j: int|
        #![auto]
        0 <= j < bs.len() ==> bs[j].0@ == rcpt[j] && (bs[j].1 matches Reply::JoinNotice {
            channel,
            nick,
        } && channel@ == c && nick@ == n)
}

/// A broadcast list of part notices: one per recipient, in order.
pub open spec fn part_notice_list(
    bs: Seq<(Vec<u8>, Reply)>,
    rcpt: Seq<Seq<u8>>,
    c: Seq<u8>,
    n: Seq<u8>,
) -> bool {
    &&& bs.len() == rcpt.len()
    &&& forall|j: int|
        #![auto]
        0 <= j < bs.len() ==> bs[j].0@ == rcpt[j] && (bs[j].1 matches Reply::PartNotice {
            channel,
            nick,
        } && channel@ == c && nick@ == n)
}

/// A broadcast list of mode-change notices: one per recipient, in order.
pub open spec fn mode_notice_list(
    bs: Seq<(Vec<u8>, Reply)>,
    rcpt: Seq<Seq<u8>>,
    c: Seq<u8>,
    g: bool,
    t: Seq<u8>,
) -> bool {
    &&& bs.len() == rcpt.len()
    &&& forall|j: int|
        #![auto]
        0 <= j < bs.len() ==> bs[j].0@ == rcpt[j] && (bs[j].1 matches Reply::ModeChange {
            channel,
            grant,
            target,
        } && channel@ == c && grant == g && target@ == t)
}

/// The nickname column of a marked member listing.
pub open spec fn entry_names(es: Seq<(Seq<u8>, bool)>) -> Seq<Seq<u8>> {
    Seq::new(es.len(), |i: int| es[i].0)
}

/// The issuer-only error reply for one authorization failure.
pub open spec fn mode_err_reply(rep: Reply, e: RegistryError, c: Seq<u8>) -> bool {
    match e {
        RegistryError::NotOperator => rep matches Reply::NotOperatorReply { channel } && channel@
            == c,
        RegistryError::NotMember => rep matches Reply::NotMemberReply { channel } && channel@ == c,
        _ => false,
    }
}

/// The MODE flag `+o`.
pub open spec fn flag_plus_o() -> Seq<u8> {
    seq![43u8, 111u8]
}

/// The MODE flag `-o`.
pub open spec fn flag_minus_o() -> Seq<u8> {
    seq![45u8, 111u8]
}

/// What a successful NICK leaves behind, or a name-taken refusal.
pub open spec fn nick_post(
    r0: RegView,
    s0: SessionState,
    n: Seq<u8>,
    r1: RegView,
    s1: SessionState,
    out: DispatchResult,
) -> bool {
    &&& r1 == spec_claim(r0, s0.sid, n)
    &&& issuer_only(out)
    &&& out.to_issuer@.len() == 1
    &&& s1.sid == s0.sid
    &&& if claim_ok(r0, n) {
        (out.to_issuer@[0] matches Reply::Welcome { nick } && nick@ == n) && opt_view(s1.nickname)
            == Some(n)
    } else {
        (out.to_issuer@[0] matches Reply::NameTaken { nick } && nick@ == n) && opt_view(s1.nickname)
            == opt_view(s0.nickname)
    }
}

/// QUIT: cleanup where registered, a farewell, and the connection closes.
pub open spec fn quit_post(
    r0: RegView,
    s0: SessionState,
    r1: RegView,
    s1: SessionState,
    out: DispatchResult,
) -> bool {
    &&& out.close
    &&& out.broadcast@.len() == 0
    &&& out.to_issuer@.len() == 1
    &&& out.to_issuer@[0] is Farewell
    &&& s1.sid == s0.sid
    &&& s1.nickname is None
    &&& match s0.nickname {
        Some(n) => r1 == spec_leave_all(r0, n@),
        None => r1 == r0,
    }
}

/// A channel command from an unregistered session: rejected, nothing moves.
pub open spec fn not_registered_post(
    r0: RegView,
    s0: SessionState,
    r1: RegView,
    s1: SessionState,
    out: DispatchResult,
) -> bool {
    &&& unchanged(r0, s0, r1, s1)
    &&& issuer_only(out)
    &&& out.to_issuer@.len() == 1
    &&& out.to_issuer@[0] is NotRegisteredReply
}

/// JOIN: the join applied, the member list replied to the issuer, and one
/// join notice to every other current member, exactly once each.
pub open spec fn join_post(
    r0: RegView,
    s0: SessionState,
    n: Seq<u8>,
    c: Seq<u8>,
    r1: RegView,
    s1: SessionState,
    out: DispatchResult,
) -> bool {
    &&& r1 == spec_join(r0, n, c)
    &&& same_session(s1, s0)
    &&& !out.close
    &&& out.to_issuer@.len() == 1
    &&& (out.to_issuer@[0] matches Reply::JoinReply { channel, members, operator } && channel@ == c
        && views_of(members@) == members_of(r1, c) && opt_view(operator) == operator_of(r1, c))
    &&& join_notice_list(out.broadcast@, except_key(members_of(r1, c), n), c, n)
}

/// PART: the part applied and a part notice to every remaining member, or an
/// issuer-only `NotMember` error with the registry untouched.
pub open spec fn part_post(
    r0: RegView,
    s0: SessionState,
    n: Seq<u8>,
    c: Seq<u8>,
    r1: RegView,
    s1: SessionState,
    out: DispatchResult,
) -> bool {
    &&& r1 == spec_part(r0, n, c)
    &&& same_session(s1, s0)
    &&& !out.close
    &&& out.to_issuer@.len() == 1
    &&& if part_ok(r0, n, c) {
        (out.to_issuer@[0] matches Reply::PartReply { channel } && channel@ == c)
            && part_notice_list(out.broadcast@, members_of(r1, c), c, n)
    } else {
        (out.to_issuer@[0] matches Reply::NotMemberReply { channel } && channel@ == c)
            && out.broadcast@.len() == 0
    }
}

/// PRIVMSG: delivered to the target's session alone, or an issuer-only
/// `no such target` error; never a broadcast, never a state change.
pub open spec fn privmsg_post(
    r0: RegView,
    s0: SessionState,
    n: Seq<u8>,
    t: Seq<u8>,
    m: Seq<u8>,
    r1: RegView,
    s1: SessionState,
    out: DispatchResult,
) -> bool {
    &&& r1 == r0
    &&& same_session(s1, s0)
    &&& !out.close
    &&& if claimed(r0, t) {
        out.to_issuer@.len() == 0 && out.broadcast@.len() == 1 && out.broadcast@[0].0@ == t && (
        out.broadcast@[0].1 matches Reply::PrivMsgDelivery { from, message } && from@ == n
            && message@ == m)
    } else {
        out.broadcast@.len() == 0 && out.to_issuer@.len() == 1 && (out.to_issuer@[0]
            matches Reply::NoSuchTargetReply { target } && target@ == t)
    }
}

/// MODE: an authorized `+o`/`-o` is applied and announced to the channel; a
/// failure is an issuer-only error; an unrecognized flag moves nothing.
pub open spec fn mode_post(
    r0: RegView,
    s0: SessionState,
    n: Seq<u8>,
    c: Seq<u8>,
    f: Seq<u8>,
    t: Seq<u8>,
    r1: RegView,
    s1: SessionState,
    out: DispatchResult,
) -> bool {
    &&& same_session(s1, s0)
    &&& !out.close
    &&& if f != flag_plus_o() && f != flag_minus_o() {
        r1 == r0 && out.broadcast@.len() == 0 && if is_operator(r0, c, n) {
            out.to_issuer@.len() == 0
        } else {
            out.to_issuer@.len() == 1 && (out.to_issuer@[0] matches Reply::NotOperatorReply {
                channel,
            } && channel@ == c)
        }
    } else {
        let grant = f == flag_plus_o();
        &&& r1 == spec_set_operator(r0, n, c, t, grant)
        &&& match set_operator_err(r0, n, c, t, grant) {
            Some(e) => out.broadcast@.len() == 0 && out.to_issuer@.len() == 1 && mode_err_reply(
                out.to_issuer@[0],
                e,
                c,
            ),
            None => out.to_issuer@.len() == 1 && (out.to_issuer@[0] matches Reply::ModeChange {
                channel,
                grant: g,
                target,
            } && channel@ == c && g == grant && target@ == t) && mode_notice_list(
                out.broadcast@,
                except_key(members_of(r1, c), n),
                c,
                grant,
                t,
            ),
        }
    }
}

/// WHO / NAMES: a read-only listing to the issuer alone, operator-marked, or
/// a `no such channel` error.
pub open spec fn listing_post(
    r0: RegView,
    s0: SessionState,
    c: Seq<u8>,
    who: bool,
    r1: RegView,
    s1: SessionState,
    out: DispatchResult,
) -> bool {
    &&& unchanged(r0, s0, r1, s1)
    &&& issuer_only(out)
    &&& out.to_issuer@.len() == 1
    &&& if has_channel(r0, c) {
        if who {
            out.to_issuer@[0] matches Reply::WhoReply { channel, entries } && channel@ == c
                && entries_view(entries@) == entry_list(r0.channels[chan_at(r0, c)])
        } else {
            out.to_issuer@[0] matches Reply::NamesReply { channel, entries } && channel@ == c
                && entries_view(entries@) == entry_list(r0.channels[chan_at(r0, c)])
        }
    } else {
        out.to_issuer@[0] matches Reply::NoSuchChannelReply { channel } && channel@ == c
    }
}

/// What `dispatch` guarantees for each command, relating the registry and
/// session before and after to the produced messages.
pub open spec fn dispatch_post(
    r0: RegView,
    s0: SessionState,
    cmd: Command,
    r1: RegView,
    s1: SessionState,
    out: DispatchResult,
) -> bool {
    match cmd {
        Command::CapLs302 => unchanged(r0, s0, r1, s1) && issuer_only(out) && out.to_issuer@.len()
            == 1 && out.to_issuer@[0] is CapLs,
        Command::Ping => unchanged(r0, s0, r1, s1) && issuer_only(out) && out.to_issuer@.len() == 1
            && out.to_issuer@[0] is Pong,
        Command::Pong => unchanged(r0, s0, r1, s1) && issuer_only(out) && out.to_issuer@.len()
            == 0,
        Command::User(u) => unchanged(r0, s0, r1, s1) && issuer_only(out) && out.to_issuer@.len()
            == 1 && (out.to_issuer@[0] matches Reply::UserAck { username } && username@ == u@),
        Command::Nick(n) => nick_post(r0, s0, n@, r1, s1, out),
        Command::Quit => quit_post(r0, s0, r1, s1, out),
        Command::Join(c) => match s0.nickname {
            None => not_registered_post(r0, s0, r1, s1, out),
            Some(n) => join_post(r0, s0, n@, c@, r1, s1, out),
        },
        Command::Part(c) => match s0.nickname {
            None => not_registered_post(r0, s0, r1, s1, out),
            Some(n) => part_post(r0, s0, n@, c@, r1, s1, out),
        },
        Command::PrivMsg(t, m) => match s0.nickname {
            None => not_registered_post(r0, s0, r1, s1, out),
            Some(n) => privmsg_post(r0, s0, n@, t@, m@, r1, s1, out),
        },
        Command::Mode(c, f, t) => match s0.nickname {
            None => not_registered_post(r0, s0, r1, s1, out),
            Some(n) => mode_post(r0, s0, n@, c@, f@, t@, r1, s1, out),
        },
        Command::Who(c) => match s0.nickname {
            None => not_registered_post(r0, s0, r1, s1, out),
            Some(n) => listing_post(r0, s0, c@, true, r1, s1, out),
        },
        Command::Names(c) => match s0.nickname {
            None => not_registered_post(r0, s0, r1, s1, out),
            Some(n) => listing_post(r0, s0, c@, false, r1, s1, out),
        },
        Command::Unknown(l) => unchanged(r0, s0, r1, s1) && issuer_only(out) && out.to_issuer@.len()
            == 1 && (out.to_issuer@[0] matches Reply::UnknownReply { line } && line@ == l@),
    }
}

/// A one-element reply list.
fn single_reply(r: Reply) -> (v: Vec<Reply>)
    ensures
        v@.len() == 1,
        v@[0] == r,
{
    let mut v: Vec<Reply> = Vec::new();
    v.push(r);
    v
}

/// Join notices for every member except the issuer, in member order.
fn join_notices(members: &Vec<Vec<u8>>, issuer: &[u8], channel: &[u8]) -> (out: Vec<
    (Vec<u8>, Reply),
>)
    ensures
        join_notice_list(out@, except_key(views_of(members@), issuer@), channel@, issuer@),
{
    let mut out: Vec<(Vec<u8>, Reply)> = Vec::new();
    let len = members.len();
    let mut i: usize = 0;
    while i < len
        invariant
            len == members@.len(),
            i <= len,
            join_notice_list(
                out@,
                except_key(views_of(members@).subrange(0, i as int), issuer@),
                channel@,
                issuer@,
            ),
        decreases len - i,
    {
        let ghost ms = views_of(members@);
        let ghost pre = ms.subrange(0, i as int);
        let ghost x = ms[i as int];
        proof {
            assert(ms.subrange(0, i + 1 as int) =~= pre + seq![x]);
            lemma_except_concat(pre, seq![x], issuer@);
            lemma_except_single(x, issuer@);
        }
        if !bytes_eq(members[i].as_slice(), issuer) {
            out.push(
                (
                    copy_bytes(members[i].as_slice()),
                    Reply::JoinNotice { channel: copy_bytes(channel), nick: copy_bytes(issuer) },
                ),
            );
            proof {
                assert(except_key(ms.subrange(0, i + 1 as int), issuer@) =~= except_key(pre, issuer@)
                    + seq![x]);
            }
        } else {
            proof {
                assert(except_key(ms.subrange(0, i + 1 as int), issuer@) =~= except_key(
                    pre,
                    issuer@,
                ));
            }
        }
        i = i + 1;
    }
    proof {
        assert(views_of(members@).subrange(0, len as int) =~= views_of(members@));
    }
    out
}

/// Part notices for every listed member, in member order.
fn part_notices(entries: &Vec<(Vec<u8>, bool)>, channel: &[u8], parted: &[u8]) -> (out: Vec<
    (Vec<u8>, Reply),
>)
    ensures
        part_notice_list(out@, entry_names(entries_view(entries@)), channel@, parted@),
{
    let mut out: Vec<(Vec<u8>, Reply)> = Vec::new();
    let len = entries.len();
    let mut i: usize = 0;
    while i < len
        invariant
            len == entries@.len(),
            i <= len,
            out@.len() == i,
            part_notice_list(
                out@,
                entry_names(entries_view(entries@)).subrange(0, i as int),
                channel@,
                parted@,
            ),
        decreases len - i,
    {
        out.push(
            (
                copy_bytes(entries[i].0.as_slice()),
                Reply::PartNotice { channel: copy_bytes(channel), nick: copy_bytes(parted) },
            ),
        );
        proof {
            let names = entry_names(entries_view(entries@));
            assert(names.subrange(0, i + 1 as int) =~= names.subrange(0, i as int).push(
                names[i as int],
            ));
        }
        i = i + 1;
    }
    proof {
        let names = entry_names(entries_view(entries@));
        assert(names.subrange(0, len as int) =~= names);
    }
    out
}

/// Mode-change notices for every listed member except the issuer, in order.
fn mode_notices(
    entries: &Vec<(Vec<u8>, bool)>,
    issuer: &[u8],
    channel: &[u8],
    grant: bool,
    target: &[u8],
) -> (out: Vec<(Vec<u8>, Reply)>)
    ensures
        mode_notice_list(
            out@,
            except_key(entry_names(entries_view(entries@)), issuer@),
            channel@,
            grant,
            target@,
        ),
{
    let mut out: Vec<(Vec<u8>, Reply)> = Vec::new();
    let len = entries.len();
    let mut i: usize = 0;
    while i < len
        invariant
            len == entries@.len(),
            i <= len,
            mode_notice_list(
                out@,
                except_key(
                    entry_names(entries_view(entries@)).subrange(0, i as int),
                    issuer@,
                ),
                channel@,
                grant,
                target@,
            ),
        decreases len - i,
    {
        let ghost ms = entry_names(entries_view(entries@));
        let ghost pre = ms.subrange(0, i as int);
        let ghost x = ms[i as int];
        proof {
            assert(entries_view(entries@)[i as int].0 == entries@[i as int].0@);
            assert(x == entries@[i as int].0@);
            assert(ms.subrange(0, i + 1 as int) =~= pre + seq![x]);
            lemma_except_concat(pre, seq![x], issuer@);
            lemma_except_single(x, issuer@);
        }
        if !bytes_eq(entries[i].0.as_slice(), issuer) {
            let ghost preout = out@;
            out.push(
                (
                    copy_bytes(entries[i].0.as_slice()),
                    Reply::ModeChange {
                        channel: copy_bytes(channel),
                        grant,
                        target: copy_bytes(target),
                    },
                ),
            );
            proof {
                assert(except_key(ms.subrange(0, i + 1 as int), issuer@) =~= except_key(pre, issuer@)
                    + seq![x]);
                let rc = except_key(pre, issuer@) + seq![x];
                assert(out@.len() == rc.len());
                assert forall|j: int|
                    0 <= j < out@.len() implies out@[j].0@ == rc[j] && (out@[j].1
                    matches Reply::ModeChange { channel: cc, grant: gg, target: tt } && cc@
                    == channel@ && gg == grant && tt@ == target@) by {
                    if j < out@.len() - 1 {
                        assert(out@[j] == preout[j]);
                        assert(rc[j] == except_key(pre, issuer@)[j]);
                    } else {
                        assert(rc[j] == x);
                    }
                }
                assert(mode_notice_list(
                    out@,
                    except_key(ms.subrange(0, i + 1 as int), issuer@),
                    channel@,
                    grant,
                    target@,
                ));
            }
        } else {
            proof {
                assert(except_key(ms.subrange(0, i + 1 as int), issuer@) =~= except_key(
                    pre,
                    issuer@,
                ));
                assert(mode_notice_list(
                    out@,
                    except_key(ms.subrange(0, i + 1 as int), issuer@),
                    channel@,
                    grant,
                    target@,
                ));
            }
        }
        i = i + 1;
    }
    proof {
        let ms = entry_names(entries_view(entries@));
        assert(ms.subrange(0, len as int) =~= ms);
    }
    out
}

/// An issuer-only result carrying one reply.
fn issuer_result(r: Reply) -> (out: DispatchResult)
    ensures
        out.to_issuer@.len() == 1,
        out.to_issuer@[0] == r,
        out.broadcast@.len() == 0,
        !out.close,
{
    DispatchResult { to_issuer: single_reply(r), broadcast: Vec::new(), close: false }
}

/// Perform one command for one session against the shared registry and
/// compute the addressed outbound messages. Failures resolve to an
/// issuer-only error reply; only QUIT closes the connection.
pub fn dispatch(reg: &mut Registry, sess: &mut SessionState, cmd: &Command) -> (out:
    DispatchResult)
    requires
        wf(old(reg)@),
        session_ok(old(reg)@, *old(sess)),
    ensures
        wf(final(reg)@),
        session_ok(final(reg)@, *final(sess)),
        final(sess).sid == old(sess).sid,
        dispatch_post(old(reg)@, *old(sess), *cmd, final(reg)@, *final(sess), out),
{
    let ghost r0 = reg@;
    let ghost s0 = *sess;
    match cmd {
        Command::CapLs302 => issuer_result(Reply::CapLs),
        Command::Ping => issuer_result(Reply::Pong),
        Command::Pong => DispatchResult { to_issuer: Vec::new(), broadcast: Vec::new(), close: false },
        Command::User(u) => issuer_result(Reply::UserAck { username: copy_bytes(u.as_slice()) }),
        Command::Nick(n) => {
            let res = reg.claim_nickname(sess.sid, n.as_slice());
            match res {
                Ok(()) => {
                    sess.nickname = Some(copy_bytes(n.as_slice()));
                    issuer_result(Reply::Welcome { nick: copy_bytes(n.as_slice()) })
                },
                Err(_) => issuer_result(Reply::NameTaken { nick: copy_bytes(n.as_slice()) }),
            }
        },
        Command::Quit => {
            match &sess.nickname {
                Some(n) => {
                    proof {
                        lemma_leave_all_sid(r0, n@);
                    }
                    reg.leave_all(n.as_slice());
                },
                None => {},
            }
            sess.nickname = None;
            DispatchResult { to_issuer: single_reply(Reply::Farewell), broadcast: Vec::new(), close: true }
        },
        Command::Join(c) => {
            match &sess.nickname {
                None => issuer_result(Reply::NotRegisteredReply),
                Some(nick) => {
                    let n = copy_bytes(nick.as_slice());
                    let snap = reg.join(n.as_slice(), c.as_slice());
                    let notices = join_notices(&snap.members, n.as_slice(), c.as_slice());
                    DispatchResult {
                        to_issuer: single_reply(
                            Reply::JoinReply {
                                channel: copy_bytes(c.as_slice()),
                                members: snap.members,
                                operator: snap.operator,
                            },
                        ),
                        broadcast: notices,
                        close: false,
                    }
                },
            }
        },
        Command::Part(c) => {
            match &sess.nickname {
                None => issuer_result(Reply::NotRegisteredReply),
                Some(nick) => {
                    let n = copy_bytes(nick.as_slice());
                    let res = reg.part(n.as_slice(), c.as_slice());
                    match res {
                        Err(_) => issuer_result(
                            Reply::NotMemberReply { channel: copy_bytes(c.as_slice()) },
                        ),
                        Ok(()) => {
                            proof {
                                lemma_find_key(chan_keys(r0.channels), c@, 0);
                                let ci = chan_at(r0, c@);
                                assert(0 <= ci < r0.channels.len());
                                assert forall|j: int|
                                    0 <= j < reg@.channels.len() implies chan_keys(reg@.channels)[j]
                                    == chan_keys(r0.channels)[j] by {
                                    if j != ci {
                                        assert(reg@.channels[j] == r0.channels[j]);
                                    } else {
                                        assert(reg@.channels[j].name == r0.channels[j].name);
                                    }
                                }
                                assert(chan_keys(reg@.channels) =~= chan_keys(r0.channels));
                                assert(chan_at(reg@, c@) == ci);
                            }
                            match reg.snapshot_members(c.as_slice()) {
                                Some(entries) => {
                                    proof {
                                        let ch1 = reg@.channels[chan_at(reg@, c@)];
                                        assert(entry_names(entries_view(entries@)) =~= ch1.members);
                                    }
                                    let notices = part_notices(&entries, c.as_slice(), n.as_slice());
                                    DispatchResult {
                                        to_issuer: single_reply(
                                            Reply::PartReply { channel: copy_bytes(c.as_slice()) },
                                        ),
                                        broadcast: notices,
                                        close: false,
                                    }
                                },
                                None => {
                                    // emptied channels are retained, so the
                                    // channel just parted still exists
                                    proof {
                                        assert(false);
                                    }
                                    issuer_result(Reply::NotMemberReply { channel: copy_bytes(c.as_slice()) })
                                },
                            }
                        },
                    }
                },
            }
        },
        Command::PrivMsg(t, m) => {
            match &sess.nickname {
                None => issuer_result(Reply::NotRegisteredReply),
                Some(nick) => {
                    let n = copy_bytes(nick.as_slice());
                    match reg.lookup_session(t.as_slice()) {
                        Some(_) => {
                            let mut bs: Vec<(Vec<u8>, Reply)> = Vec::new();
                            bs.push(
                                (
                                    copy_bytes(t.as_slice()),
                                    Reply::PrivMsgDelivery { from: n, message: copy_bytes(m.as_slice()) },
                                ),
                            );
                            DispatchResult { to_issuer: Vec::new(), broadcast: bs, close: false }
                        },
                        None => issuer_result(
                            Reply::NoSuchTargetReply { target: copy_bytes(t.as_slice()) },
                        ),
                    }
                },
            }
        },
        Command::Mode(c, f, t) => {
            match &sess.nickname {
                None => issuer_result(Reply::NotRegisteredReply),
                Some(nick) => {
                    let n = copy_bytes(nick.as_slice());
                    let plus_flag: Vec<u8> = vec![43u8, 111u8];
                    let minus_flag: Vec<u8> = vec![45u8, 111u8];
                    let plus = bytes_eq(f.as_slice(), plus_flag.as_slice());
                    let minus = bytes_eq(f.as_slice(), minus_flag.as_slice());
                    proof {
                        assert(plus_flag@ =~= flag_plus_o());
                        assert(minus_flag@ =~= flag_minus_o());
                    }
                    if !plus && !minus {
                        if reg.is_operator_of(c.as_slice(), n.as_slice()) {
                            DispatchResult { to_issuer: Vec::new(), broadcast: Vec::new(), close: false }
                        } else {
                            issuer_result(Reply::NotOperatorReply { channel: copy_bytes(c.as_slice()) })
                        }
                    } else {
                        let grant = plus;
                        let res = reg.set_operator(n.as_slice(), c.as_slice(), t.as_slice(), grant);
                        match res {
                            Err(RegistryError::NotMember) => issuer_result(
                                Reply::NotMemberReply { channel: copy_bytes(c.as_slice()) },
                            ),
                            Err(_) => issuer_result(
                                Reply::NotOperatorReply { channel: copy_bytes(c.as_slice()) },
                            ),
                            Ok(()) => {
                                proof {
                                    lemma_find_key(chan_keys(r0.channels), c@, 0);
                                    let ci = chan_at(r0, c@);
                                    assert(0 <= ci < r0.channels.len());
                                    assert forall|j: int|
                                        0 <= j < reg@.channels.len() implies chan_keys(
                                        reg@.channels,
                                    )[j] == chan_keys(r0.channels)[j] by {
                                        if j != ci {
                                            assert(reg@.channels[j] == r0.channels[j]);
                                        } else {
                                            assert(reg@.channels[j].name == r0.channels[j].name);
                                        }
                                    }
                                    assert(chan_keys(reg@.channels) =~= chan_keys(r0.channels));
                                    assert(chan_at(reg@, c@) == ci);
                                }
                                match reg.snapshot_members(c.as_slice()) {
                                    Some(entries) => {
                                        proof {
                                            let ch1 = reg@.channels[chan_at(reg@, c@)];
                                            assert(entry_names(entries_view(entries@)) =~= ch1.members);
                                        }
                                        let notices = mode_notices(
                                            &entries,
                                            n.as_slice(),
                                            c.as_slice(),
                                            grant,
                                            t.as_slice(),
                                        );
                                        DispatchResult {
                                            to_issuer: single_reply(
                                                Reply::ModeChange {
                                                    channel: copy_bytes(c.as_slice()),
                                                    grant,
                                                    target: copy_bytes(t.as_slice()),
                                                },
                                            ),
                                            broadcast: notices,
                                            close: false,
                                        }
                                    },
                                    None => {
                                        // a grant or revoke succeeds only on
                                        // an existing channel
                                        proof {
                                            assert(false);
                                        }
                                        issuer_result(Reply::NotOperatorReply { channel: copy_bytes(c.as_slice()) })
                                    },
                                }
                            },
                        }
                    }
                },
            }
        },
        Command::Who(c) => {
            match &sess.nickname {
                None => issuer_result(Reply::NotRegisteredReply),
                Some(_) => {
                    match reg.snapshot_members(c.as_slice()) {
                        Some(entries) => issuer_result(
                            Reply::WhoReply { channel: copy_bytes(c.as_slice()), entries },
                        ),
                        None => issuer_result(
                            Reply::NoSuchChannelReply { channel: copy_bytes(c.as_slice()) },
                        ),
                    }
                },
            }
        },
        Command::Names(c) => {
            match &sess.nickname {
                None => issuer_result(Reply::NotRegisteredReply),
                Some(_) => {
                    match reg.snapshot_members(c.as_slice()) {
                        Some(entries) => issuer_result(
                            Reply::NamesReply { channel: copy_bytes(c.as_slice()), entries },
                        ),
                        None => issuer_result(
                            Reply::NoSuchChannelReply { channel: copy_bytes(c.as_slice()) },
                        ),
                    }
                },
            }
        },
        Command::Unknown(l) => issuer_result(Reply::UnknownReply { line: copy_bytes(l.as_slice()) }),
    }
}

} // verus!
