//! The laws of the registry, proved over the model's transition functions.
//! Registry operations are linearizable (each runs as one critical section),
//! so any run of concurrent callers is equivalent to some serial order of
//! transitions; the laws below quantify over those serial orders.

use vstd::prelude::*;
use crate::model::{
    RegView, RegistryError, claimed, chan_at, has_channel, members_of, is_member, is_operator, wf,
    claim_ok, spec_claim, spec_join, part_ok, spec_part, set_operator_err, spec_set_operator,
    spec_leave_all, except_key, chan_keys, nick_keys, lemma_find_key, lemma_find_key_is,
    lemma_claim_claims, lemma_join_wf, lemma_part_wf, lemma_leave_all_wf,
    lemma_chan_parted_wf, lemma_except_concat, lemma_except_single, chan_parted,
};

verus! {

/// How many of a serial run of claims of nickname `n`, one per session id in
/// `sids`, succeed.
pub open spec fn claim_successes(r: RegView, n: Seq<u8>, sids: Seq<u64>) -> int
    decreases sids.len(),
{
    if sids.len() == 0 {
        0
    } else {
        (if claim_ok(r, n) {
            1int
        } else {
            0int
        }) + claim_successes(spec_claim(r, sids[0], n), n, sids.drop_first())
    }
}

/// Once `n` is claimed, every further claim of `n` fails.
proof fn lemma_claims_after_taken(r: RegView, n: Seq<u8>, sids: Seq<u64>)
    requires
        claimed(r, n),
    ensures
        claim_successes(r, n, sids) == 0,
    decreases sids.len(),
{
    if sids.len() > 0 {
        assert(spec_claim(r, sids[0], n) == r);
        lemma_claims_after_taken(r, n, sids.drop_first());
    }
}

/// Uniqueness: in any serial order of claims of one free nickname `n` by any
/// number of sessions, exactly one claim succeeds; all the others fail with
/// `NameTaken`.
pub proof fn lemma_nick_uniqueness(r: RegView, n: Seq<u8>, sids: Seq<u64>)
    requires
        !claimed(r, n),
        sids.len() > 0,
    ensures
        claim_successes(r, n, sids) == 1,
{
    lemma_claim_claims(r, sids[0], n);
    lemma_claims_after_taken(spec_claim(r, sids[0], n), n, sids.drop_first());
}

/// One registry-changing step of a session's channel life.
pub enum RegOp {
    JoinOp { nick: Seq<u8>, chan: Seq<u8> },
    PartOp { nick: Seq<u8>, chan: Seq<u8> },
    QuitOp { nick: Seq<u8> },
}

/// Apply one step.
pub open spec fn apply_op(r: RegView, op: RegOp) -> RegView {
    match op {
        RegOp::JoinOp { nick, chan } => spec_join(r, nick, chan),
        RegOp::PartOp { nick, chan } => spec_part(r, nick, chan),
        RegOp::QuitOp { nick } => spec_leave_all(r, nick),
    }
}

/// Apply a serial run of steps, in order.
pub open spec fn apply_ops(r: RegView, ops: Seq<RegOp>) -> RegView
    decreases ops.len(),
{
    if ops.len() == 0 {
        r
    } else {
        apply_ops(apply_op(r, ops[0]), ops.drop_first())
    }
}

/// Membership consistency: after any serial order of JOIN, PART and QUIT
/// steps, the registry invariant still holds — in particular, for every
/// channel the operator is a current member or there is none.
pub proof fn lemma_membership_consistency(r: RegView, ops: Seq<RegOp>)
    requires
        wf(r),
    ensures
        wf(apply_ops(r, ops)),
    decreases ops.len(),
{
    if ops.len() > 0 {
        match ops[0] {
            RegOp::JoinOp { nick, chan } => lemma_join_wf(r, nick, chan),
            RegOp::PartOp { nick, chan } => lemma_part_wf(r, nick, chan),
            RegOp::QuitOp { nick } => lemma_leave_all_wf(r, nick),
        }
        lemma_membership_consistency(apply_op(r, ops[0]), ops.drop_first());
    }
}

/// First joiner is operator: a JOIN into a channel with zero prior members —
/// absent, or emptied and retained — always leaves the joiner as operator.
pub proof fn lemma_first_joiner_is_operator(r: RegView, n: Seq<u8>, c: Seq<u8>)
    requires
        wf(r),
        members_of(r, c).len() == 0,
    ensures
        is_operator(spec_join(r, n, c), c, n),
{
    let r1 = spec_join(r, n, c);
    let ci = chan_at(r, c);
    lemma_find_key(chan_keys(r.channels), c, 0);
    if ci == -1 {
        let m = r.channels.len() as int;
        assert(chan_keys(r1.channels)[m] == c);
        assert forall|j: int| 0 <= j < m implies chan_keys(r1.channels)[j] != c by {
            assert(r1.channels[j] == r.channels[j]);
            assert(chan_keys(r.channels)[j] == r.channels[j].name);
        }
        lemma_find_key_is(chan_keys(r1.channels), c, m);
    } else {
        let ch = r.channels[ci];
        assert(ch.members.len() == 0);
        match ch.operator {
            Some(o) => {
                assert(ch.members.contains(o));
                let k = choose|k: int| 0 <= k < ch.members.len() && ch.members[k] == o;
                assert(false);
            },
            None => {},
        }
        assert forall|j: int| 0 <= j < r1.channels.len() implies chan_keys(r1.channels)[j]
            == chan_keys(r.channels)[j] by {
            if j != ci {
                assert(r1.channels[j] == r.channels[j]);
            }
        }
        assert(chan_keys(r1.channels) =~= chan_keys(r.channels));
        assert(chan_at(r1, c) == ci);
    }
}

/// Operator authority: a grant or revoke issued by anyone but the channel's
/// current operator — also where the channel does not exist — always fails
/// with `NotOperator` and moves nothing.
pub proof fn lemma_operator_authority(
    r: RegView,
    q: Seq<u8>,
    c: Seq<u8>,
    t: Seq<u8>,
    grant: bool,
)
    requires
        !is_operator(r, c, q),
    ensures
        set_operator_err(r, q, c, t, grant) == Some(RegistryError::NotOperator),
        spec_set_operator(r, q, c, t, grant) == r,
{
}

/// `except_key` of a list without the key is the list itself.
proof fn lemma_except_absent(ms: Seq<Seq<u8>>, n: Seq<u8>)
    requires
        !ms.contains(n),
    ensures
        except_key(ms, n) == ms,
    decreases ms.len(),
{
    if ms.len() > 0 {
        assert(ms[0] != n);
        assert forall|j: int| 0 <= j < ms.drop_first().len() implies ms.drop_first()[j] != n by {
            assert(ms.drop_first()[j] == ms[j + 1]);
        }
        assert(!ms.drop_first().contains(n));
        lemma_except_absent(ms.drop_first(), n);
        assert(seq![ms[0]] + ms.drop_first() =~= ms);
    }
}

/// Broadcast completeness: when `n` joins a channel it was not in, the
/// recipients of the join notices — the members after the join, without the
/// joiner — are exactly the members from before the join, each once, in
/// order; the joiner itself is no broadcast recipient.
pub proof fn lemma_join_broadcast_recipients(r: RegView, n: Seq<u8>, c: Seq<u8>)
    requires
        wf(r),
        !is_member(r, c, n),
    ensures
        except_key(members_of(spec_join(r, n, c), c), n) == members_of(r, c),
{
    let r1 = spec_join(r, n, c);
    let ci = chan_at(r, c);
    lemma_find_key(chan_keys(r.channels), c, 0);
    if ci == -1 {
        let m = r.channels.len() as int;
        assert(chan_keys(r1.channels)[m] == c);
        assert forall|j: int| 0 <= j < m implies chan_keys(r1.channels)[j] != c by {
            assert(r1.channels[j] == r.channels[j]);
            assert(chan_keys(r.channels)[j] == r.channels[j].name);
        }
        lemma_find_key_is(chan_keys(r1.channels), c, m);
        assert(members_of(r1, c) == seq![n]);
        lemma_except_single(n, n);
        assert(members_of(r, c) =~= Seq::<Seq<u8>>::empty());
    } else {
        let ch = r.channels[ci];
        assert(!ch.members.contains(n));
        assert forall|j: int| 0 <= j < r1.channels.len() implies chan_keys(r1.channels)[j]
            == chan_keys(r.channels)[j] by {
            if j != ci {
                assert(r1.channels[j] == r.channels[j]);
            }
        }
        assert(chan_keys(r1.channels) =~= chan_keys(r.channels));
        assert(chan_at(r1, c) == ci);
        assert(members_of(r1, c) == ch.members.push(n));
        assert(ch.members.push(n) =~= ch.members + seq![n]);
        lemma_except_concat(ch.members, seq![n], n);
        lemma_except_single(n, n);
        lemma_except_absent(ch.members, n);
        assert(except_key(members_of(r1, c), n) =~= ch.members);
    }
}

/// Disconnect cleanup: after QUIT or a forced disconnect of `n`, no channel
/// lists `n` as a member or as operator, and `n` is no longer claimed.
pub proof fn lemma_disconnect_cleanup(r: RegView, n: Seq<u8>)
    requires
        wf(r),
    ensures
        !claimed(spec_leave_all(r, n), n),
        forall|c: Seq<u8>|
            #![auto]
            !is_member(spec_leave_all(r, n), c, n) && !is_operator(spec_leave_all(r, n), c, n),
{
    let r1 = spec_leave_all(r, n);
    let ni = crate::model::nick_at(r, n);
    lemma_find_key(nick_keys(r.nicks), n, 0);
    if ni != -1 {
        assert forall|j: int| 0 <= j < r1.nicks.len() implies nick_keys(r1.nicks)[j] != n by {
            if j < ni {
                assert(r1.nicks[j] == r.nicks[j]);
            } else {
                assert(r1.nicks[j] == r.nicks[j + 1]);
            }
        }
        if claimed(r1, n) {
            lemma_find_key(nick_keys(r1.nicks), n, 0);
            assert(false);
        }
    } else {
        assert forall|j: int| 0 <= j < r1.nicks.len() implies nick_keys(r1.nicks)[j] != n by {
            assert(r1.nicks[j] == r.nicks[j]);
            assert(nick_keys(r.nicks)[j] == r.nicks[j].0);
        }
        if claimed(r1, n) {
            lemma_find_key(nick_keys(r1.nicks), n, 0);
            assert(false);
        }
    }
    assert forall|c: Seq<u8>|
        #![auto]
        !is_member(r1, c, n) && !is_operator(r1, c, n) by {
        if has_channel(r1, c) {
            let ci = chan_at(r1, c);
            lemma_find_key(chan_keys(r1.channels), c, 0);
            assert(r1.channels[ci] == chan_parted(r.channels[ci], n));
            lemma_chan_parted_wf(r.channels[ci], n);
        }
    }
}

/// Idempotent PART: a part of a channel the caller is not in — the channel
/// may not even exist — fails with `NotMember` and leaves the registry
/// exactly as it was.
pub proof fn lemma_part_not_member(r: RegView, n: Seq<u8>, c: Seq<u8>)
    requires
        !is_member(r, c, n),
    ensures
        !part_ok(r, n, c),
        spec_part(r, n, c) == r,
{
}

} // verus!
