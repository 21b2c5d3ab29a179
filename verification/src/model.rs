//! Mathematical model of the session registry: nickname claims, channel
//! membership and operator assignment, with one transition function per
//! registry operation. The executable registry is specified against these
//! transitions, and the crate's laws are proved over them.

use vstd::prelude::*;

verus! {

/// The failures a registry operation or the dispatch engine can report.
/// Each is expected, recoverable, and local to the command that caused it.
#[derive(Clone, Copy, Debug, PartialEq, Eq, Structural)]
pub enum RegistryError {
    NameTaken,
    NotMember,
    NotOperator,
    NoSuchChannel,
    NoSuchTarget,
}

/// Model of one channel: its name, its members in join order, and its
/// operator, if any.
#[verifier::ext_equal]
pub struct ChanView {
    pub name: Seq<u8>,
    pub members: Seq<Seq<u8>>,
    pub operator: Option<Seq<u8>>,
}

/// Model of the whole registry: the nickname-to-session map as a sequence of
/// pairs, and the channels in creation order.
#[verifier::ext_equal]
pub struct RegView {
    pub nicks: Seq<(Seq<u8>, u64)>,
    pub channels: Seq<ChanView>,
}

/// First index at or after `i` whose key equals `k`, or `-1`.
pub open spec fn find_key(keys: Seq<Seq<u8>>, k: Seq<u8>, i: int) -> int
    decreases keys.len() - i,
{
    if i < 0 || i >= keys.len() {
        -1
    } else if keys[i] == k {
        i
    } else {
        find_key(keys, k, i + 1)
    }
}

/// What `find_key` returns: the first hit, or proof that there is none.
pub proof fn lemma_find_key(keys: Seq<Seq<u8>>, k: Seq<u8>, i: int)
    requires
        0 <= i <= keys.len(),
    ensures
        find_key(keys, k, i) == -1 ==> forall|j: int| i <= j < keys.len() ==> keys[j] != k,
        find_key(keys, k, i) != -1 ==> i <= find_key(keys, k, i) < keys.len() && keys[find_key(
            keys,
            k,
            i,
        )] == k && forall|j: int| i <= j < find_key(keys, k, i) ==> keys[j] != k,
    decreases keys.len() - i,
{
    if i < keys.len() && keys[i] != k {
        lemma_find_key(keys, k, i + 1);
    }
}

/// First index at or after `i` whose session id equals `sid`, or `-1`.
pub open spec fn find_sid(ns: Seq<(Seq<u8>, u64)>, sid: u64, i: int) -> int
    decreases ns.len() - i,
{
    if i < 0 || i >= ns.len() {
        -1
    } else if ns[i].1 == sid {
        i
    } else {
        find_sid(ns, sid, i + 1)
    }
}

/// What `find_sid` returns: the first hit, or proof that there is none.
pub proof fn lemma_find_sid(ns: Seq<(Seq<u8>, u64)>, sid: u64, i: int)
    requires
        0 <= i <= ns.len(),
    ensures
        find_sid(ns, sid, i) == -1 ==> forall|j: int| i <= j < ns.len() ==> ns[j].1 != sid,
        find_sid(ns, sid, i) != -1 ==> i <= find_sid(ns, sid, i) < ns.len() && ns[find_sid(
            ns,
            sid,
            i,
        )].1 == sid && forall|j: int| i <= j < find_sid(ns, sid, i) ==> ns[j].1 != sid,
    decreases ns.len() - i,
{
    if i < ns.len() && ns[i].1 != sid {
        lemma_find_sid(ns, sid, i + 1);
    }
}

/// The nickname of each nickname-map entry.
pub open spec fn nick_keys(ns: Seq<(Seq<u8>, u64)>) -> Seq<Seq<u8>> {
    Seq::new(ns.len(), |i: int| ns[i].0)
}

/// The name of each channel.
pub open spec fn chan_keys(cs: Seq<ChanView>) -> Seq<Seq<u8>> {
    Seq::new(cs.len(), |i: int| cs[i].name)
}

/// Index of nickname `n` in the nickname map, or `-1`.
pub open spec fn nick_at(r: RegView, n: Seq<u8>) -> int {
    find_key(nick_keys(r.nicks), n, 0)
}

/// Whether nickname `n` is currently claimed.
pub open spec fn claimed(r: RegView, n: Seq<u8>) -> bool {
    nick_at(r, n) != -1
}

/// The session id that claimed nickname `n`.
pub open spec fn session_of(r: RegView, n: Seq<u8>) -> u64
    recommends
        claimed(r, n),
{
    r.nicks[nick_at(r, n)].1
}

/// Index of channel `c`, or `-1`.
pub open spec fn chan_at(r: RegView, c: Seq<u8>) -> int {
    find_key(chan_keys(r.channels), c, 0)
}

/// Whether channel `c` exists. Emptied channels are retained, so a channel
/// exists from its first join on.
pub open spec fn has_channel(r: RegView, c: Seq<u8>) -> bool {
    chan_at(r, c) != -1
}

/// The members of channel `c` in join order; empty where `c` does not exist.
pub open spec fn members_of(r: RegView, c: Seq<u8>) -> Seq<Seq<u8>> {
    if has_channel(r, c) {
        r.channels[chan_at(r, c)].members
    } else {
        Seq::empty()
    }
}

/// The operator of channel `c`; `None` where `c` does not exist or has none.
pub open spec fn operator_of(r: RegView, c: Seq<u8>) -> Option<Seq<u8>> {
    if has_channel(r, c) {
        r.channels[chan_at(r, c)].operator
    } else {
        None
    }
}

/// Whether `n` is a member of channel `c`.
pub open spec fn is_member(r: RegView, c: Seq<u8>, n: Seq<u8>) -> bool {
    members_of(r, c).contains(n)
}

/// Whether `n` is the operator of channel `c`.
pub open spec fn is_operator(r: RegView, c: Seq<u8>, n: Seq<u8>) -> bool {
    operator_of(r, c) == Some(n)
}

/// Registry invariant: nicknames unique, at most one nickname per session,
/// channel names unique, members listed once each, and every operator a
/// current member of its channel.
pub open spec fn wf(r: RegView) -> bool {
    &&& forall|i: int, j: int|
        0 <= i < j < r.nicks.len() ==> r.nicks[i].0 != r.nicks[j].0
    &&& forall|i: int, j: int|
        0 <= i < j < r.nicks.len() ==> r.nicks[i].1 != r.nicks[j].1
    &&& forall|i: int, j: int|
        0 <= i < j < r.channels.len() ==> r.channels[i].name != r.channels[j].name
    &&& forall|ci: int, i: int, j: int|
        0 <= ci < r.channels.len() && 0 <= i < j < r.channels[ci].members.len()
            ==> r.channels[ci].members[i] != r.channels[ci].members[j]
    &&& forall|ci: int|
        0 <= ci < r.channels.len() ==> (#[trigger] r.channels[ci].operator matches Some(o)
            ==> r.channels[ci].members.contains(o))
}

/// The empty registry, as the server starts.
pub open spec fn reg_empty() -> RegView {
    RegView { nicks: Seq::empty(), channels: Seq::empty() }
}

/// Whether a claim of `n` succeeds: exactly when `n` is not currently mapped.
pub open spec fn claim_ok(r: RegView, n: Seq<u8>) -> bool {
    !claimed(r, n)
}

/// Claim nickname `n` for session `sid`: on success any prior nickname of
/// `sid` is dropped (rename) and `n` is installed; on failure nothing moves.
pub open spec fn spec_claim(r: RegView, sid: u64, n: Seq<u8>) -> RegView {
    if claimed(r, n) {
        r
    } else {
        let si = find_sid(r.nicks, sid, 0);
        let base = if si == -1 {
            r.nicks
        } else {
            r.nicks.remove(si)
        };
        RegView { nicks: base.push((n, sid)), channels: r.channels }
    }
}

/// One channel after `n` joins it: `n` appended unless already a member, and
/// made operator where the channel had none.
pub open spec fn chan_joined(ch: ChanView, n: Seq<u8>) -> ChanView {
    let ms = if ch.members.contains(n) {
        ch.members
    } else {
        ch.members.push(n)
    };
    let op = if ch.operator is None {
        Some(n)
    } else {
        ch.operator
    };
    ChanView { name: ch.name, members: ms, operator: op }
}

/// `n` joins channel `c`, creating it when absent; the first joiner of a
/// fresh channel becomes its operator.
pub open spec fn spec_join(r: RegView, n: Seq<u8>, c: Seq<u8>) -> RegView {
    let ci = chan_at(r, c);
    if ci == -1 {
        RegView {
            nicks: r.nicks,
            channels: r.channels.push(
                ChanView { name: c, members: seq![n], operator: Some(n) },
            ),
        }
    } else {
        RegView { nicks: r.nicks, channels: r.channels.update(ci, chan_joined(r.channels[ci], n)) }
    }
}

/// One channel after `n` leaves it: `n` removed where present, and the
/// operator role cleared where `n` held it (no automatic succession).
pub open spec fn chan_parted(ch: ChanView, n: Seq<u8>) -> ChanView {
    let mi = find_key(ch.members, n, 0);
    if mi == -1 {
        ch
    } else {
        ChanView {
            name: ch.name,
            members: ch.members.remove(mi),
            operator: if ch.operator == Some(n) {
                None
            } else {
                ch.operator
            },
        }
    }
}

/// Whether a part succeeds: exactly when `c` exists and `n` is a member.
pub open spec fn part_ok(r: RegView, n: Seq<u8>, c: Seq<u8>) -> bool {
    has_channel(r, c) && is_member(r, c, n)
}

/// `n` parts channel `c`; where `n` was not a member nothing moves. Emptied
/// channels are retained.
pub open spec fn spec_part(r: RegView, n: Seq<u8>, c: Seq<u8>) -> RegView {
    let ci = chan_at(r, c);
    if ci == -1 {
        r
    } else if !r.channels[ci].members.contains(n) {
        r
    } else {
        RegView { nicks: r.nicks, channels: r.channels.update(ci, chan_parted(r.channels[ci], n)) }
    }
}

/// Why a grant or revoke of operator privilege fails, or `None` for success.
/// Only the current operator may act, and it may revoke only itself.
pub open spec fn set_operator_err(
    r: RegView,
    q: Seq<u8>,
    c: Seq<u8>,
    t: Seq<u8>,
    grant: bool,
) -> Option<RegistryError> {
    if !is_operator(r, c, q) {
        Some(RegistryError::NotOperator)
    } else if grant {
        if !is_member(r, c, t) {
            Some(RegistryError::NotMember)
        } else {
            None
        }
    } else {
        if t != q {
            Some(RegistryError::NotOperator)
        } else {
            None
        }
    }
}

/// Requester `q` grants operator privilege to member `t`, or revokes its own;
/// on any failure nothing moves.
pub open spec fn spec_set_operator(
    r: RegView,
    q: Seq<u8>,
    c: Seq<u8>,
    t: Seq<u8>,
    grant: bool,
) -> RegView {
    if set_operator_err(r, q, c, t, grant) is Some {
        r
    } else {
        let ci = chan_at(r, c);
        let ch = r.channels[ci];
        let op = if grant {
            Some(t)
        } else {
            None
        };
        RegView {
            nicks: r.nicks,
            channels: r.channels.update(
                ci,
                ChanView { name: ch.name, members: ch.members, operator: op },
            ),
        }
    }
}

/// Disconnect cleanup: `n` leaves every channel, loses any operator role, and
/// its nickname mapping is removed.
pub open spec fn spec_leave_all(r: RegView, n: Seq<u8>) -> RegView {
    let ni = nick_at(r, n);
    RegView {
        nicks: if ni == -1 {
            r.nicks
        } else {
            r.nicks.remove(ni)
        },
        channels: Seq::new(r.channels.len(), |i: int| chan_parted(r.channels[i], n)),
    }
}

/// The member listing of one channel, each entry marked as operator or not.
pub open spec fn entry_list(ch: ChanView) -> Seq<(Seq<u8>, bool)> {
    Seq::new(ch.members.len(), |i: int| (ch.members[i], ch.operator == Some(ch.members[i])))
}

/// Distinct members and operator-among-members survive one part.
pub proof fn lemma_chan_parted_wf(ch: ChanView, n: Seq<u8>)
    requires
        forall|i: int, j: int| 0 <= i < j < ch.members.len() ==> ch.members[i] != ch.members[j],
        ch.operator matches Some(o) ==> ch.members.contains(o),
    ensures
        forall|i: int, j: int|
            0 <= i < j < chan_parted(ch, n).members.len() ==> chan_parted(ch, n).members[i]
                != chan_parted(ch, n).members[j],
        chan_parted(ch, n).operator matches Some(o) ==> chan_parted(ch, n).members.contains(o),
        chan_parted(ch, n).name == ch.name,
        !chan_parted(ch, n).members.contains(n),
        chan_parted(ch, n).operator != Some(n),
{
    let mi = find_key(ch.members, n, 0);
    lemma_find_key(ch.members, n, 0);
    if mi == -1 {
        assert(!ch.members.contains(n));
    } else {
        let ms = ch.members.remove(mi);
        assert(forall|j: int|
            0 <= j < ms.len() ==> ms[j] == (if j < mi {
                ch.members[j]
            } else {
                ch.members[j + 1]
            }));
        assert forall|j: int| 0 <= j < ms.len() implies ms[j] != n by {
            assert(ch.members[mi] == n);
        }
        assert(!ms.contains(n));
        match ch.operator {
            Some(o) => {
                if o != n {
                    let k = choose|k: int| 0 <= k < ch.members.len() && ch.members[k] == o;
                    assert(k != mi);
                    if k < mi {
                        assert(ms[k] == o);
                    } else {
                        assert(ms[k - 1] == o);
                    }
                    assert(ms.contains(o));
                }
            },
            None => {},
        }
    }
}

/// A successful or failed claim leaves the registry invariant intact.
pub proof fn lemma_claim_wf(r: RegView, sid: u64, n: Seq<u8>)
    requires
        wf(r),
    ensures
        wf(spec_claim(r, sid, n)),
{
    if !claimed(r, n) {
        lemma_find_key(nick_keys(r.nicks), n, 0);
        assert forall|j: int| 0 <= j < r.nicks.len() implies r.nicks[j].0 != n by {
            assert(nick_keys(r.nicks)[j] == r.nicks[j].0);
        }
        lemma_find_sid(r.nicks, sid, 0);
        let si = find_sid(r.nicks, sid, 0);
        let base = if si == -1 {
            r.nicks
        } else {
            r.nicks.remove(si)
        };
        if si != -1 {
            assert(forall|j: int|
                0 <= j < base.len() ==> base[j] == (if j < si {
                    r.nicks[j]
                } else {
                    r.nicks[j + 1]
                }));
        }
        assert(forall|j: int| 0 <= j < base.len() ==> base[j].0 != n);
        assert forall|j: int| 0 <= j < base.len() implies base[j].1 != sid by {
            if si == -1 {
            } else if j < si {
                assert(base[j] == r.nicks[j]);
                assert(r.nicks[si].1 == sid);
            } else {
                assert(base[j] == r.nicks[j + 1]);
                assert(r.nicks[si].1 == sid);
            }
        }
        let ns2 = spec_claim(r, sid, n).nicks;
        assert(ns2 == base.push((n, sid)));
        assert forall|i: int, j: int| 0 <= i < j < ns2.len() implies ns2[i].0 != ns2[j].0 && ns2[i].1
            != ns2[j].1 by {
            if j == ns2.len() - 1 {
                assert(ns2[i] == base[i]);
                assert(ns2[j] == (n, sid));
            } else {
                assert(ns2[i] == base[i]);
                assert(ns2[j] == base[j]);
            }
        }
    }
}

/// A join leaves the registry invariant intact.
pub proof fn lemma_join_wf(r: RegView, n: Seq<u8>, c: Seq<u8>)
    requires
        wf(r),
    ensures
        wf(spec_join(r, n, c)),
{
    let ci = chan_at(r, c);
    lemma_find_key(chan_keys(r.channels), c, 0);
    let r2 = spec_join(r, n, c);
    if ci == -1 {
        assert forall|j: int| 0 <= j < r.channels.len() implies r.channels[j].name != c by {
            assert(chan_keys(r.channels)[j] == r.channels[j].name);
        }
        let fresh = ChanView { name: c, members: seq![n], operator: Some(n) };
        assert(fresh.members[0] == n);
        assert(fresh.members.contains(n));
        assert forall|i: int, j: int| 0 <= i < j < r2.channels.len() implies r2.channels[i].name
            != r2.channels[j].name by {
            if j == r2.channels.len() - 1 {
                assert(r2.channels[i] == r.channels[i]);
                assert(r2.channels[j] == fresh);
            }
        }
    } else {
        let ch = r.channels[ci];
        let ch2 = chan_joined(ch, n);
        if !ch.members.contains(n) {
            assert(forall|k: int| 0 <= k < ch.members.len() ==> ch.members[k] != n);
            assert forall|i: int, j: int| 0 <= i < j < ch2.members.len() implies ch2.members[i]
                != ch2.members[j] by {
                if j == ch2.members.len() - 1 {
                    assert(ch2.members[i] == ch.members[i]);
                    assert(ch2.members[j] == n);
                }
            }
        }
        if ch.operator is None {
            if ch.members.contains(n) {
                assert(ch2.members.contains(n));
            } else {
                assert(ch2.members[ch.members.len() as int] == n);
                assert(ch2.members.contains(n));
            }
        } else {
            let o = ch.operator->0;
            assert(ch.members.contains(o));
            let k = choose|k: int| 0 <= k < ch.members.len() && ch.members[k] == o;
            assert(ch2.members[k] == o);
            assert(ch2.members.contains(o));
        }
        assert forall|i: int, j: int| 0 <= i < j < r2.channels.len() implies r2.channels[i].name
            != r2.channels[j].name by {
            assert(r.channels[i].name != r.channels[j].name);
        }
    }
}

/// A part leaves the registry invariant intact.
pub proof fn lemma_part_wf(r: RegView, n: Seq<u8>, c: Seq<u8>)
    requires
        wf(r),
    ensures
        wf(spec_part(r, n, c)),
{
    let ci = chan_at(r, c);
    if ci != -1 && r.channels[ci].members.contains(n) {
        lemma_find_key(chan_keys(r.channels), c, 0);
        lemma_chan_parted_wf(r.channels[ci], n);
        let r2 = spec_part(r, n, c);
        assert forall|i: int, j: int| 0 <= i < j < r2.channels.len() implies r2.channels[i].name
            != r2.channels[j].name by {
            assert(r.channels[i].name != r.channels[j].name);
        }
    }
}

/// A grant or revoke of operator privilege leaves the invariant intact.
pub proof fn lemma_set_operator_wf(r: RegView, q: Seq<u8>, c: Seq<u8>, t: Seq<u8>, grant: bool)
    requires
        wf(r),
    ensures
        wf(spec_set_operator(r, q, c, t, grant)),
{
    if set_operator_err(r, q, c, t, grant) is None {
        let ci = chan_at(r, c);
        lemma_find_key(chan_keys(r.channels), c, 0);
        let r2 = spec_set_operator(r, q, c, t, grant);
        assert forall|i: int, j: int| 0 <= i < j < r2.channels.len() implies r2.channels[i].name
            != r2.channels[j].name by {
            assert(r.channels[i].name != r.channels[j].name);
        }
    }
}

/// Disconnect cleanup leaves the registry invariant intact.
pub proof fn lemma_leave_all_wf(r: RegView, n: Seq<u8>)
    requires
        wf(r),
    ensures
        wf(spec_leave_all(r, n)),
{
    let ni = nick_at(r, n);
    let r2 = spec_leave_all(r, n);
    if ni != -1 {
        lemma_find_key(nick_keys(r.nicks), n, 0);
        assert(forall|j: int|
            0 <= j < r2.nicks.len() ==> r2.nicks[j] == (if j < ni {
                r.nicks[j]
            } else {
                r.nicks[j + 1]
            }));
    }
    assert forall|ci: int| 0 <= ci < r2.channels.len() implies (#[trigger] r2.channels[ci].operator
        matches Some(o) ==> r2.channels[ci].members.contains(o)) by {
        lemma_chan_parted_wf(r.channels[ci], n);
    }
    assert forall|ci: int, i: int, j: int|
        0 <= ci < r2.channels.len() && 0 <= i < j < r2.channels[ci].members.len() implies r2.channels[ci].members[i]
        != r2.channels[ci].members[j] by {
        lemma_chan_parted_wf(r.channels[ci], n);
    }
    assert forall|i: int, j: int| 0 <= i < j < r2.channels.len() implies r2.channels[i].name
        != r2.channels[j].name by {
        lemma_chan_parted_wf(r.channels[i], n);
        lemma_chan_parted_wf(r.channels[j], n);
        assert(r.channels[i].name != r.channels[j].name);
    }
}


/// `find_key` from the left returns the first matching index.
pub proof fn lemma_find_key_is(keys: Seq<Seq<u8>>, k: Seq<u8>, m: int)
    requires
        0 <= m < keys.len(),
        keys[m] == k,
        forall|j: int| 0 <= j < m ==> keys[j] != k,
    ensures
        find_key(keys, k, 0) == m,
{
    lemma_find_key_from(keys, k, 0, m);
}

proof fn lemma_find_key_from(keys: Seq<Seq<u8>>, k: Seq<u8>, i: int, m: int)
    requires
        0 <= i <= m < keys.len(),
        keys[m] == k,
        forall|j: int| 0 <= j < m ==> keys[j] != k,
    ensures
        find_key(keys, k, i) == m,
    decreases m - i,
{
    if i < m {
        lemma_find_key_from(keys, k, i + 1, m);
    }
}

/// A successful claim installs the nickname for the claiming session.
pub proof fn lemma_claim_claims(r: RegView, sid: u64, n: Seq<u8>)
    requires
        !claimed(r, n),
    ensures
        claimed(spec_claim(r, sid, n), n),
        session_of(spec_claim(r, sid, n), n) == sid,
{
    lemma_find_key(nick_keys(r.nicks), n, 0);
    assert forall|j: int| 0 <= j < r.nicks.len() implies r.nicks[j].0 != n by {
        assert(nick_keys(r.nicks)[j] == r.nicks[j].0);
    }
    let si = find_sid(r.nicks, sid, 0);
    lemma_find_sid(r.nicks, sid, 0);
    let base = if si == -1 {
        r.nicks
    } else {
        r.nicks.remove(si)
    };
    if si != -1 {
        assert(forall|j: int|
            0 <= j < base.len() ==> base[j] == (if j < si {
                r.nicks[j]
            } else {
                r.nicks[j + 1]
            }));
    }
    let ns2 = spec_claim(r, sid, n).nicks;
    assert(ns2 == base.push((n, sid)));
    let m = base.len() as int;
    assert(nick_keys(ns2)[m] == n);
    assert forall|j: int| 0 <= j < m implies nick_keys(ns2)[j] != n by {
        assert(ns2[j] == base[j]);
        assert(base[j].0 != n);
    }
    lemma_find_key_is(nick_keys(ns2), n, m);
}


/// A member list without every occurrence of `n` (a well-formed channel
/// lists `n` at most once): the recipients of a broadcast not owed to `n`.
pub open spec fn except_key(ms: Seq<Seq<u8>>, n: Seq<u8>) -> Seq<Seq<u8>>
    decreases ms.len(),
{
    if ms.len() == 0 {
        Seq::empty()
    } else if ms[0] == n {
        except_key(ms.drop_first(), n)
    } else {
        seq![ms[0]] + except_key(ms.drop_first(), n)
    }
}

/// `except_key` distributes over concatenation.
pub proof fn lemma_except_concat(a: Seq<Seq<u8>>, b: Seq<Seq<u8>>, n: Seq<u8>)
    ensures
        except_key(a + b, n) == except_key(a, n) + except_key(b, n),
    decreases a.len(),
{
    if a.len() == 0 {
        assert(a + b =~= b);
        assert(except_key(a, n) + except_key(b, n) =~= except_key(b, n));
    } else {
        assert((a + b).drop_first() =~= a.drop_first() + b);
        lemma_except_concat(a.drop_first(), b, n);
        if a[0] != n {
            assert(seq![a[0]] + (except_key(a.drop_first(), n) + except_key(b, n)) =~= (seq![a[0]]
                + except_key(a.drop_first(), n)) + except_key(b, n));
        }
    }
}

/// After cleanup for `n`, no nickname entry of `n`'s session remains.
pub proof fn lemma_leave_all_sid(r: RegView, n: Seq<u8>)
    requires
        wf(r),
        claimed(r, n),
    ensures
        forall|j: int|
            0 <= j < spec_leave_all(r, n).nicks.len() ==> spec_leave_all(r, n).nicks[j].1
                != session_of(r, n),
{
    let ni = nick_at(r, n);
    lemma_find_key(nick_keys(r.nicks), n, 0);
    let ns2 = spec_leave_all(r, n).nicks;
    assert(ns2 == r.nicks.remove(ni));
    assert forall|j: int| 0 <= j < ns2.len() implies ns2[j].1 != session_of(r, n) by {
        if j < ni {
            assert(ns2[j] == r.nicks[j]);
        } else {
            assert(ns2[j] == r.nicks[j + 1]);
        }
    }
}


/// `except_key` on a one-element list.
pub proof fn lemma_except_single(x: Seq<u8>, n: Seq<u8>)
    ensures
        except_key(seq![x], n) == (if x == n {
            Seq::<Seq<u8>>::empty()
        } else {
            seq![x]
        }),
{
    let s = seq![x];
    assert(s.drop_first() =~= Seq::<Seq<u8>>::empty());
    assert(except_key(Seq::<Seq<u8>>::empty(), n) == Seq::<Seq<u8>>::empty());
    assert(except_key(s.drop_first(), n) == Seq::<Seq<u8>>::empty());
    if x != n {
        assert(except_key(s, n) == seq![x] + Seq::<Seq<u8>>::empty());
        assert(seq![x] + Seq::<Seq<u8>>::empty() =~= seq![x]);
    }
}

} // verus!
