//! The session registry: the one shared mutable aggregate of the server.
//! Every operation is specified against the transition functions of the
//! model, and every operation preserves the registry invariant. A process
//! holds one registry behind one exclusive lock; each operation below is one
//! critical section, so concurrent callers see some serial order of them.

use vstd::prelude::*;
use crate::bytes::{bytes_eq, copy_bytes, views_of};
use crate::model::{
    RegView, ChanView, RegistryError, find_key, find_sid, nick_keys, chan_keys, nick_at, claimed,
    session_of, chan_at, has_channel, members_of, operator_of, is_operator, wf,
    reg_empty, spec_claim, chan_joined, spec_join, chan_parted, part_ok, spec_part,
    set_operator_err, spec_set_operator, spec_leave_all, entry_list, lemma_find_key,
    lemma_claim_wf, lemma_claim_claims, lemma_find_key_is, lemma_join_wf, lemma_part_wf, lemma_set_operator_wf,
    lemma_leave_all_wf,
};

verus! {

/// One channel: name, members in join order, operator.
pub struct Channel {
    pub name: Vec<u8>,
    pub members: Vec<Vec<u8>>,
    pub operator: Option<Vec<u8>>,
}

/// The member list and operator of one channel at the moment of a call.
pub struct ChannelSnapshot {
    pub members: Vec<Vec<u8>>,
    pub operator: Option<Vec<u8>>,
}

/// The registry: nickname-to-session map and the channels.
pub struct Registry {
    nicks: Vec<(Vec<u8>, u64)>,
    channels: Vec<Channel>,
}

/// The view of an optional byte string.
pub open spec fn opt_view(o: Option<Vec<u8>>) -> Option<Seq<u8>> {
    match o {
        Some(v) => Some(v@),
        None => None,
    }
}

/// The views of a member listing with operator marks.
pub open spec fn entries_view(v: Seq<(Vec<u8>, bool)>) -> Seq<(Seq<u8>, bool)> {
    Seq::new(v.len(), |i: int| (v[i].0@, v[i].1))
}

/// The view of the nickname map.
pub open spec fn nicks_view(v: Seq<(Vec<u8>, u64)>) -> Seq<(Seq<u8>, u64)> {
    Seq::new(v.len(), |i: int| (v[i].0@, v[i].1))
}

impl View for Channel {
    type V = ChanView;

    open spec fn view(&self) -> ChanView {
        ChanView { name: self.name@, members: views_of(self.members@), operator: opt_view(self.operator) }
    }
}

/// The views of the channel list.
pub open spec fn chans_view(v: Seq<Channel>) -> Seq<ChanView> {
    Seq::new(v.len(), |i: int| v[i]@)
}

impl View for Registry {
    type V = RegView;

    closed spec fn view(&self) -> RegView {
        RegView { nicks: nicks_view(self.nicks@), channels: chans_view(self.channels@) }
    }
}

/// Removing an element and inserting another at the same place is an update.
proof fn lemma_remove_insert<T>(s: Seq<T>, i: int, x: T)
    requires
        0 <= i < s.len(),
    ensures
        s.remove(i).insert(i, x) =~= s.update(i, x),
{
}

/// Index of byte string `n` in `v`, or proof that it is absent.
fn find_bytes_idx(v: &Vec<Vec<u8>>, n: &[u8]) -> (r: Option<usize>)
    ensures
        match r {
            Some(i) => 0 <= i < v@.len() && find_key(views_of(v@), n@, 0) == i as int,
            None => find_key(views_of(v@), n@, 0) == -1,
        },
{
    let len = v.len();
    let mut i: usize = 0;
    while i < len
        invariant
            len == v@.len(),
            i <= len,
            find_key(views_of(v@), n@, 0) == find_key(views_of(v@), n@, i as int),
        decreases len - i,
    {
        if bytes_eq(v[i].as_slice(), n) {
            proof {
                assert(views_of(v@)[i as int] == n@);
            }
            return Some(i);
        }
        proof {
            assert(views_of(v@)[i as int] != n@);
        }
        i = i + 1;
    }
    None
}

impl Registry {
    /// The empty registry, created once at server start.
    pub fn new() -> (r: Registry)
        ensures
            r@ == reg_empty(),
            wf(r@),
    {
        let r = Registry { nicks: Vec::new(), channels: Vec::new() };
        proof {
            assert(r@.nicks =~= reg_empty().nicks);
            assert(r@.channels =~= reg_empty().channels);
            assert(r@ =~= reg_empty());
        }
        r
    }

    /// Index of nickname `n` in the nickname map.
    fn find_nick_idx(&self, n: &[u8]) -> (r: Option<usize>)
        ensures
            match r {
                Some(i) => 0 <= i < self@.nicks.len() && nick_at(self@, n@) == i as int,
                None => nick_at(self@, n@) == -1,
            },
    {
        let len = self.nicks.len();
        let mut i: usize = 0;
        while i < len
            invariant
                len == self@.nicks.len(),
                len == self.nicks@.len(),
                i <= len,
                nick_at(self@, n@) == find_key(nick_keys(self@.nicks), n@, i as int),
            decreases len - i,
        {
            if bytes_eq(self.nicks[i].0.as_slice(), n) {
                proof {
                    assert(nick_keys(self@.nicks)[i as int] == n@);
                }
                return Some(i);
            }
            proof {
                assert(nick_keys(self@.nicks)[i as int] != n@);
            }
            i = i + 1;
        }
        None
    }

    /// Index of the entry claimed by session `sid`.
    fn find_sid_idx(&self, sid: u64) -> (r: Option<usize>)
        ensures
            match r {
                Some(i) => 0 <= i < self@.nicks.len() && find_sid(self@.nicks, sid, 0) == i as int,
                None => find_sid(self@.nicks, sid, 0) == -1,
            },
    {
        let len = self.nicks.len();
        let mut i: usize = 0;
        while i < len
            invariant
                len == self@.nicks.len(),
                len == self.nicks@.len(),
                i <= len,
                find_sid(self@.nicks, sid, 0) == find_sid(self@.nicks, sid, i as int),
            decreases len - i,
        {
            if self.nicks[i].1 == sid {
                proof {
                    assert(self@.nicks[i as int].1 == sid);
                }
                return Some(i);
            }
            proof {
                assert(self@.nicks[i as int].1 != sid);
            }
            i = i + 1;
        }
        None
    }

    /// Index of channel `c` in the channel list.
    fn find_chan_idx(&self, c: &[u8]) -> (r: Option<usize>)
        ensures
            match r {
                Some(i) => 0 <= i < self@.channels.len() && chan_at(self@, c@) == i as int,
                None => chan_at(self@, c@) == -1,
            },
    {
        let len = self.channels.len();
        let mut i: usize = 0;
        while i < len
            invariant
                len == self@.channels.len(),
                len == self.channels@.len(),
                i <= len,
                chan_at(self@, c@) == find_key(chan_keys(self@.channels), c@, i as int),
            decreases len - i,
        {
            if bytes_eq(self.channels[i].name.as_slice(), c) {
                proof {
                    assert(chan_keys(self@.channels)[i as int] == c@);
                }
                return Some(i);
            }
            proof {
                assert(chan_keys(self@.channels)[i as int] != c@);
            }
            i = i + 1;
        }
        None
    }

    /// Claim `requested` for session `sid`: succeeds exactly when `requested`
    /// is not currently mapped; on success any prior nickname of `sid` is
    /// dropped (rename semantics) and the new mapping installed.
    pub fn claim_nickname(&mut self, sid: u64, requested: &[u8]) -> (r: Result<(), RegistryError>)
        requires
            wf(old(self)@),
        ensures
            final(self)@ == spec_claim(old(self)@, sid, requested@),
            wf(final(self)@),
            r == (if claimed(old(self)@, requested@) {
                Err::<(), RegistryError>(RegistryError::NameTaken)
            } else {
                Ok::<(), RegistryError>(())
            }),
            r is Ok ==> claimed(final(self)@, requested@) && session_of(final(self)@, requested@)
                == sid,
    {
        proof {
            lemma_claim_wf(old(self)@, sid, requested@);
            if !claimed(old(self)@, requested@) {
                lemma_claim_claims(old(self)@, sid, requested@);
            }
        }
        let ghost r0 = self@;
        if self.find_nick_idx(requested).is_some() {
            return Err(RegistryError::NameTaken);
        }
        let ghost si = find_sid(r0.nicks, sid, 0);
        match self.find_sid_idx(sid) {
            Some(i) => {
                self.nicks.remove(i);
                proof {
                    assert(nicks_view(self.nicks@) =~= r0.nicks.remove(si));
                }
            },
            None => {},
        }
        let ghost base = if si == -1 { r0.nicks } else { r0.nicks.remove(si) };
        self.nicks.push((copy_bytes(requested), sid));
        proof {
            assert(nicks_view(self.nicks@) =~= base.push((requested@, sid)));
            assert(self@.channels =~= r0.channels);
            assert(self@ =~= spec_claim(r0, sid, requested@));
        }
        Ok(())
    }

    /// `nickname` joins `channel`, creating it when absent; the first joiner
    /// of a fresh channel becomes its operator; a repeated join changes
    /// nothing. Returns the member list and operator right after the join.
    pub fn join(&mut self, nickname: &[u8], channel: &[u8]) -> (snap: ChannelSnapshot)
        requires
            wf(old(self)@),
        ensures
            final(self)@ == spec_join(old(self)@, nickname@, channel@),
            wf(final(self)@),
            has_channel(final(self)@, channel@),
            views_of(snap.members@) == members_of(final(self)@, channel@),
            opt_view(snap.operator) == operator_of(final(self)@, channel@),
    {
        proof {
            lemma_join_wf(old(self)@, nickname@, channel@);
        }
        let ghost r0 = self@;
        match self.find_chan_idx(channel) {
            None => {
                proof {
                    lemma_find_key(chan_keys(r0.channels), channel@, 0);
                }
                let mut members: Vec<Vec<u8>> = Vec::new();
                members.push(copy_bytes(nickname));
                let ch = Channel {
                    name: copy_bytes(channel),
                    members,
                    operator: Some(copy_bytes(nickname)),
                };
                let snap_members = copy_members(&ch.members);
                let snap_op = copy_operator(&ch.operator);
                let ghost chv = ch@;
                self.channels.push(ch);
                proof {
                    assert(chv.members =~= seq![nickname@]);
                    assert(chv =~= (ChanView {
                        name: channel@,
                        members: seq![nickname@],
                        operator: Some(nickname@),
                    }));
                    assert(chans_view(self.channels@) =~= r0.channels.push(chv));
                    assert(self@.nicks =~= r0.nicks);
                    assert(self@ =~= spec_join(r0, nickname@, channel@));
                    let m = r0.channels.len() as int;
                    assert(chan_keys(self@.channels)[m] == channel@);
                    assert forall|j: int| 0 <= j < m implies chan_keys(self@.channels)[j]
                        != channel@ by {
                        assert(self@.channels[j] == r0.channels[j]);
                        assert(chan_keys(r0.channels)[j] == r0.channels[j].name);
                    }
                    lemma_find_key_is(chan_keys(self@.channels), channel@, m);
                    assert(views_of(snap_members@) == members_of(self@, channel@));
                }
                ChannelSnapshot { members: snap_members, operator: snap_op }
            },
            Some(ci) => {
                proof {
                    lemma_find_key(chan_keys(r0.channels), channel@, 0);
                }
                let ghost cs0 = self.channels@;
                let mut ch = self.channels.remove(ci);
                let ghost ch0 = r0.channels[ci as int];
                match find_bytes_idx(&ch.members, nickname) {
                    None => {
                        proof {
                            lemma_find_key(views_of(ch.members@), nickname@, 0);
                            assert(!ch0.members.contains(nickname@));
                        }
                        let ghost pre = views_of(ch.members@);
                        ch.members.push(copy_bytes(nickname));
                        proof {
                            assert(views_of(ch.members@) =~= pre.push(nickname@));
                        }
                    },
                    Some(mi) => {
                        proof {
                            lemma_find_key(views_of(ch.members@), nickname@, 0);
                            assert(views_of(ch.members@)[mi as int] == nickname@);
                            assert(ch0.members.contains(nickname@));
                        }
                    },
                }
                let set_op = ch.operator.is_none();
                if set_op {
                    ch.operator = Some(copy_bytes(nickname));
                }
                let snap_members = copy_members(&ch.members);
                let snap_op = copy_operator(&ch.operator);
                let ghost chv = ch@;
                self.channels.insert(ci, ch);
                proof {
                    assert(chv =~= chan_joined(ch0, nickname@));
                    lemma_remove_insert(cs0, ci as int, ch);
                    assert(chans_view(self.channels@) =~= chans_view(cs0).update(ci as int, chv));
                    assert(chans_view(cs0).update(ci as int, chv) =~= r0.channels.update(
                        ci as int,
                        chan_joined(ch0, nickname@),
                    ));
                    assert(self@.nicks =~= r0.nicks);
                    assert(self@ =~= spec_join(r0, nickname@, channel@));
                    assert(chan_keys(self@.channels)[ci as int] == channel@);
                    assert forall|j: int| 0 <= j < ci as int implies chan_keys(self@.channels)[j]
                        != channel@ by {
                        assert(self@.channels[j] == r0.channels[j]);
                        assert(chan_keys(r0.channels)[j] == r0.channels[j].name);
                    }
                    lemma_find_key_is(chan_keys(self@.channels), channel@, ci as int);
                    assert(views_of(snap_members@) == members_of(self@, channel@));
                }
                ChannelSnapshot { members: snap_members, operator: snap_op }
            },
        }
    }

    /// `nickname` parts `channel`: fails with `NotMember` where the channel
    /// does not exist or `nickname` is not in it; on success the member entry
    /// goes, and the operator role is cleared where `nickname` held it (no
    /// automatic succession). Emptied channels are retained.
    pub fn part(&mut self, nickname: &[u8], channel: &[u8]) -> (r: Result<(), RegistryError>)
        requires
            wf(old(self)@),
        ensures
            final(self)@ == spec_part(old(self)@, nickname@, channel@),
            wf(final(self)@),
            r == (if part_ok(old(self)@, nickname@, channel@) {
                Ok::<(), RegistryError>(())
            } else {
                Err::<(), RegistryError>(RegistryError::NotMember)
            }),
    {
        proof {
            lemma_part_wf(old(self)@, nickname@, channel@);
        }
        let ghost r0 = self@;
        match self.find_chan_idx(channel) {
            None => Err(RegistryError::NotMember),
            Some(ci) => {
                let ghost ch0 = r0.channels[ci as int];
                let ghost cs0 = self.channels@;
                let mut ch = self.channels.remove(ci);
                let found = find_bytes_idx(&ch.members, nickname);
                match found {
                    None => {
                        proof {
                            lemma_find_key(views_of(ch.members@), nickname@, 0);
                            assert(!ch0.members.contains(nickname@));
                        }
                        self.channels.insert(ci, ch);
                        proof {
                            lemma_remove_insert(cs0, ci as int, ch);
                            assert(chans_view(self.channels@) =~= chans_view(cs0));
                            assert(self@ =~= r0);
                        }
                        Err(RegistryError::NotMember)
                    },
                    Some(mi) => {
                        proof {
                            lemma_find_key(views_of(ch.members@), nickname@, 0);
                            assert(views_of(ch.members@)[mi as int] == nickname@);
                            assert(ch0.members.contains(nickname@));
                        }
                        let ghost pre = views_of(ch.members@);
                        ch.members.remove(mi);
                        proof {
                            assert(views_of(ch.members@) =~= pre.remove(mi as int));
                        }
                        let clear_op = match &ch.operator {
                            Some(o) => bytes_eq(o.as_slice(), nickname),
                            None => false,
                        };
                        if clear_op {
                            ch.operator = None;
                        }
                        let ghost chv = ch@;
                        self.channels.insert(ci, ch);
                        proof {
                            assert(chv =~= chan_parted(ch0, nickname@));
                            lemma_remove_insert(cs0, ci as int, ch);
                            assert(chans_view(self.channels@) =~= chans_view(cs0).update(
                                ci as int,
                                chv,
                            ));
                            assert(self@.nicks =~= r0.nicks);
                            assert(self@ =~= spec_part(r0, nickname@, channel@));
                        }
                        Ok(())
                    },
                }
            },
        }
    }

    /// `requesting` grants operator privilege to `target` (`grant`) or
    /// revokes it: only the current operator may act, a grant requires the
    /// target to be a member, and a revoke may target only the operator
    /// itself. On any failure nothing moves.
    pub fn set_operator(
        &mut self,
        requesting: &[u8],
        channel: &[u8],
        target: &[u8],
        grant: bool,
    ) -> (r: Result<(), RegistryError>)
        requires
            wf(old(self)@),
        ensures
            final(self)@ == spec_set_operator(old(self)@, requesting@, channel@, target@, grant),
            wf(final(self)@),
            r == (match set_operator_err(old(self)@, requesting@, channel@, target@, grant) {
                Some(e) => Err::<(), RegistryError>(e),
                None => Ok::<(), RegistryError>(()),
            }),
    {
        proof {
            lemma_set_operator_wf(old(self)@, requesting@, channel@, target@, grant);
        }
        let ghost r0 = self@;
        match self.find_chan_idx(channel) {
            None => Err(RegistryError::NotOperator),
            Some(ci) => {
                let ghost ch0 = r0.channels[ci as int];
                let is_op = match &self.channels[ci].operator {
                    Some(o) => bytes_eq(o.as_slice(), requesting),
                    None => false,
                };
                proof {
                    assert(self.channels@[ci as int]@ == ch0);
                    assert(is_op == is_operator(r0, channel@, requesting@));
                }
                if !is_op {
                    return Err(RegistryError::NotOperator);
                }
                if grant {
                    match find_bytes_idx(&self.channels[ci].members, target) {
                        None => {
                            proof {
                                lemma_find_key(views_of(self.channels@[ci as int].members@), target@, 0);
                                assert(!ch0.members.contains(target@));
                            }
                            Err(RegistryError::NotMember)
                        },
                        Some(mi) => {
                            proof {
                                lemma_find_key(views_of(self.channels@[ci as int].members@), target@, 0);
                                assert(views_of(self.channels@[ci as int].members@)[mi as int]
                                    == target@);
                                assert(ch0.members.contains(target@));
                            }
                            let ghost cs0 = self.channels@;
                            let mut ch = self.channels.remove(ci);
                            ch.operator = Some(copy_bytes(target));
                            let ghost chv = ch@;
                            self.channels.insert(ci, ch);
                            proof {
                                assert(chv =~= (ChanView {
                                    name: ch0.name,
                                    members: ch0.members,
                                    operator: Some(target@),
                                }));
                                lemma_remove_insert(cs0, ci as int, ch);
                                assert(chans_view(self.channels@) =~= chans_view(cs0).update(
                                    ci as int,
                                    chv,
                                ));
                                assert(self@.nicks =~= r0.nicks);
                                assert(self@ =~= spec_set_operator(
                                    r0,
                                    requesting@,
                                    channel@,
                                    target@,
                                    grant,
                                ));
                            }
                            Ok(())
                        },
                    }
                } else {
                    if !bytes_eq(target, requesting) {
                        return Err(RegistryError::NotOperator);
                    }
                    let ghost cs0 = self.channels@;
                    let mut ch = self.channels.remove(ci);
                    ch.operator = None;
                    let ghost chv = ch@;
                    self.channels.insert(ci, ch);
                    proof {
                        assert(chv =~= (ChanView {
                            name: ch0.name,
                            members: ch0.members,
                            operator: None,
                        }));
                        lemma_remove_insert(cs0, ci as int, ch);
                        assert(chans_view(self.channels@) =~= chans_view(cs0).update(
                            ci as int,
                            chv,
                        ));
                        assert(self@.nicks =~= r0.nicks);
                        assert(self@ =~= spec_set_operator(
                            r0,
                            requesting@,
                            channel@,
                            target@,
                            grant,
                        ));
                    }
                    Ok(())
                }
            },
        }
    }

    /// Disconnect cleanup for `nickname`: removes it from every channel,
    /// clears any operator role it held, and drops its nickname mapping.
    pub fn leave_all(&mut self, nickname: &[u8])
        requires
            wf(old(self)@),
        ensures
            final(self)@ == spec_leave_all(old(self)@, nickname@),
            wf(final(self)@),
    {
        proof {
            lemma_leave_all_wf(old(self)@, nickname@);
        }
        let ghost r0 = self@;
        match self.find_nick_idx(nickname) {
            Some(i) => {
                self.nicks.remove(i);
                proof {
                    assert(nicks_view(self.nicks@) =~= r0.nicks.remove(nick_at(r0, nickname@)));
                }
            },
            None => {},
        }
        let len = self.channels.len();
        let mut ci: usize = 0;
        while ci < len
            invariant
                wf(r0),
                len == self.channels@.len(),
                len == r0.channels.len(),
                ci <= len,
                nicks_view(self.nicks@) == spec_leave_all(r0, nickname@).nicks,
                forall|j: int|
                    0 <= j < ci as int ==> chans_view(self.channels@)[j] == chan_parted(
                        r0.channels[j],
                        nickname@,
                    ),
                forall|j: int|
                    ci as int <= j < len ==> chans_view(self.channels@)[j] == r0.channels[j],
            decreases len - ci,
        {
            let ghost ch0 = r0.channels[ci as int];
            let ghost cs0 = self.channels@;
            let mut ch = self.channels.remove(ci);
            let found = find_bytes_idx(&ch.members, nickname);
            match found {
                None => {
                    proof {
                        lemma_find_key(views_of(ch.members@), nickname@, 0);
                        assert(chan_parted(ch0, nickname@) == ch0);
                    }
                },
                Some(mi) => {
                    proof {
                        lemma_find_key(views_of(ch.members@), nickname@, 0);
                        assert(views_of(ch.members@)[mi as int] == nickname@);
                    }
                    let ghost pre = views_of(ch.members@);
                    ch.members.remove(mi);
                    proof {
                        assert(views_of(ch.members@) =~= pre.remove(mi as int));
                    }
                    let clear_op = match &ch.operator {
                        Some(o) => bytes_eq(o.as_slice(), nickname),
                        None => false,
                    };
                    if clear_op {
                        ch.operator = None;
                    }
                },
            }
            let ghost chv = ch@;
            self.channels.insert(ci, ch);
            proof {
                assert(chv =~= chan_parted(ch0, nickname@));
                lemma_remove_insert(cs0, ci as int, ch);
                assert forall|j: int| 0 <= j < len as int implies chans_view(self.channels@)[j]
                    == chans_view(cs0).update(ci as int, chv)[j] by {
                    assert(self.channels@ =~= cs0.update(ci as int, ch));
                }
            }
            ci = ci + 1;
        }
        proof {
            assert(chans_view(self.channels@) =~= spec_leave_all(r0, nickname@).channels);
            assert(self@ =~= spec_leave_all(r0, nickname@));
        }
    }

    /// The ordered member listing of `channel`, each entry marked as operator
    /// or not; `None` where the channel does not exist.
    pub fn snapshot_members(&self, channel: &[u8]) -> (r: Option<Vec<(Vec<u8>, bool)>>)
        ensures
            match r {
                Some(v) => has_channel(self@, channel@) && entries_view(v@) == entry_list(
                    self@.channels[chan_at(self@, channel@)],
                ),
                None => !has_channel(self@, channel@),
            },
    {
        match self.find_chan_idx(channel) {
            None => None,
            Some(ci) => {
                let ghost chv = self@.channels[ci as int];
                let ch = &self.channels[ci];
                let mut out: Vec<(Vec<u8>, bool)> = Vec::new();
                let len = ch.members.len();
                let mut i: usize = 0;
                while i < len
                    invariant
                        len == ch.members@.len(),
                        chv == ch@,
                        i <= len,
                        entries_view(out@) =~= entry_list(chv).subrange(0, i as int),
                    decreases len - i,
                {
                    let m = &ch.members[i];
                    let is_op = match &ch.operator {
                        Some(o) => bytes_eq(o.as_slice(), m.as_slice()),
                        None => false,
                    };
                    proof {
                        assert(chv.members[i as int] == m@);
                        assert(is_op == (chv.operator == Some(chv.members[i as int])));
                    }
                    let ghost pre = out@;
                    out.push((copy_bytes(m.as_slice()), is_op));
                    proof {
                        assert(entries_view(out@) =~= entries_view(pre).push(
                            (m@, is_op),
                        ));
                        assert(entries_view(out@) =~= entry_list(chv).subrange(0, i + 1 as int));
                    }
                    i = i + 1;
                }
                proof {
                    assert(entry_list(chv).subrange(0, len as int) =~= entry_list(chv));
                }
                Some(out)
            },
        }
    }

    /// The session id that claimed `nickname`, for routing a direct message.
    pub fn lookup_session(&self, nickname: &[u8]) -> (r: Option<u64>)
        ensures
            match r {
                Some(sid) => claimed(self@, nickname@) && session_of(self@, nickname@) == sid,
                None => !claimed(self@, nickname@),
            },
    {
        match self.find_nick_idx(nickname) {
            Some(i) => Some(self.nicks[i].1),
            None => None,
        }
    }

    /// Whether `n` currently holds the operator role of `channel`.
    pub fn is_operator_of(&self, channel: &[u8], n: &[u8]) -> (r: bool)
        ensures
            r == is_operator(self@, channel@, n@),
    {
        match self.find_chan_idx(channel) {
            None => false,
            Some(ci) => {
                proof {
                    assert(self.channels@[ci as int]@ == self@.channels[ci as int]);
                }
                match &self.channels[ci].operator {
                    Some(o) => bytes_eq(o.as_slice(), n),
                    None => false,
                }
            },
        }
    }
}

/// Fresh copies of a list of byte strings.
fn copy_members(v: &Vec<Vec<u8>>) -> (r: Vec<Vec<u8>>)
    ensures
        views_of(r@) == views_of(v@),
{
    let mut out: Vec<Vec<u8>> = Vec::new();
    let len = v.len();
    let mut i: usize = 0;
    while i < len
        invariant
            len == v@.len(),
            i <= len,
            views_of(out@) =~= views_of(v@).subrange(0, i as int),
        decreases len - i,
    {
        let ghost pre = out@;
        out.push(copy_bytes(v[i].as_slice()));
        proof {
            assert(views_of(out@) =~= views_of(pre).push(v@[i as int]@));
            assert(views_of(out@) =~= views_of(v@).subrange(0, i + 1 as int));
        }
        i = i + 1;
    }
    proof {
        assert(views_of(v@).subrange(0, len as int) =~= views_of(v@));
    }
    out
}

/// A fresh copy of an optional byte string.
fn copy_operator(o: &Option<Vec<u8>>) -> (r: Option<Vec<u8>>)
    ensures
        opt_view(r) == opt_view(*o),
{
    match o {
        Some(v) => Some(copy_bytes(v.as_slice())),
        None => None,
    }
}

} // verus!
