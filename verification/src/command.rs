//! Command parser: pure translation of one raw protocol line into a typed
//! command. Splitting is on ASCII whitespace; the first token selects the
//! command kind case-insensitively. Parsing never fails: every line maps to
//! exactly one command, malformed input becomes `Unknown`. A missing optional
//! argument defaults to the sentinel token `unknown`, which downstream
//! handlers treat as "no valid target".

use vstd::prelude::*;
use vstd::string::StringSliceAdditionalSpecFns;
use crate::bytes::{is_space, upper_bytes, copy_bytes, eq_ignore_case, append_bytes, views_of};

verus! {

/// A parsed command. Textual arguments are byte strings.
#[derive(Debug, PartialEq, Eq)]
pub enum Command {
    CapLs302,
    Nick(Vec<u8>),
    User(Vec<u8>),
    Quit,
    Join(Vec<u8>),
    Part(Vec<u8>),
    PrivMsg(Vec<u8>, Vec<u8>),
    Ping,
    Pong,
    Names(Vec<u8>),
    Mode(Vec<u8>, Vec<u8>, Vec<u8>),
    Who(Vec<u8>),
    Unknown(Vec<u8>),
}

/// Mathematical mirror of `Command`, over byte sequences.
pub enum CmdView {
    CapLs302,
    Nick(Seq<u8>),
    User(Seq<u8>),
    Quit,
    Join(Seq<u8>),
    Part(Seq<u8>),
    PrivMsg(Seq<u8>, Seq<u8>),
    Ping,
    Pong,
    Names(Seq<u8>),
    Mode(Seq<u8>, Seq<u8>, Seq<u8>),
    Who(Seq<u8>),
    Unknown(Seq<u8>),
}

impl View for Command {
    type V = CmdView;

    open spec fn view(&self) -> CmdView {
        match self {
            Command::CapLs302 => CmdView::CapLs302,
            Command::Nick(n) => CmdView::Nick(n@),
            Command::User(u) => CmdView::User(u@),
            Command::Quit => CmdView::Quit,
            Command::Join(c) => CmdView::Join(c@),
            Command::Part(c) => CmdView::Part(c@),
            Command::PrivMsg(t, m) => CmdView::PrivMsg(t@, m@),
            Command::Ping => CmdView::Ping,
            Command::Pong => CmdView::Pong,
            Command::Names(c) => CmdView::Names(c@),
            Command::Mode(c, f, t) => CmdView::Mode(c@, f@, t@),
            Command::Who(c) => CmdView::Who(c@),
            Command::Unknown(l) => CmdView::Unknown(l@),
        }
    }
}

/// Whitespace splitting from position `i`, with `cur` the token read so far.
pub open spec fn tokens_from(s: Seq<u8>, i: int, cur: Seq<u8>) -> Seq<Seq<u8>>
    decreases s.len() - i,
{
    if i < 0 || i >= s.len() {
        if cur.len() == 0 {
            Seq::empty()
        } else {
            seq![cur]
        }
    } else if is_space(s[i]) {
        if cur.len() == 0 {
            tokens_from(s, i + 1, Seq::empty())
        } else {
            seq![cur] + tokens_from(s, i + 1, Seq::empty())
        }
    } else {
        tokens_from(s, i + 1, cur.push(s[i]))
    }
}

/// The whitespace-separated tokens of a line.
pub open spec fn tokens(s: Seq<u8>) -> Seq<Seq<u8>> {
    tokens_from(s, 0, Seq::empty())
}

/// Tokens rejoined with single spaces (the PRIVMSG message text).
pub open spec fn joined(ts: Seq<Seq<u8>>) -> Seq<u8>
    decreases ts.len(),
{
    if ts.len() == 0 {
        Seq::empty()
    } else if ts.len() == 1 {
        ts[0]
    } else {
        ts[0] + seq![32u8] + joined(ts.drop_first())
    }
}

pub open spec fn kw_cap() -> Seq<u8> {
    seq![67u8, 65u8, 80u8]
}

pub open spec fn kw_ls() -> Seq<u8> {
    seq![76u8, 83u8]
}

pub open spec fn kw_302() -> Seq<u8> {
    seq![51u8, 48u8, 50u8]
}

pub open spec fn kw_nick() -> Seq<u8> {
    seq![78u8, 73u8, 67u8, 75u8]
}

pub open spec fn kw_user() -> Seq<u8> {
    seq![85u8, 83u8, 69u8, 82u8]
}

pub open spec fn kw_quit() -> Seq<u8> {
    seq![81u8, 85u8, 73u8, 84u8]
}

pub open spec fn kw_join() -> Seq<u8> {
    seq![74u8, 79u8, 73u8, 78u8]
}

pub open spec fn kw_part() -> Seq<u8> {
    seq![80u8, 65u8, 82u8, 84u8]
}

pub open spec fn kw_privmsg() -> Seq<u8> {
    seq![80u8, 82u8, 73u8, 86u8, 77u8, 83u8, 71u8]
}

pub open spec fn kw_mode() -> Seq<u8> {
    seq![77u8, 79u8, 68u8, 69u8]
}

pub open spec fn kw_who() -> Seq<u8> {
    seq![87u8, 72u8, 79u8]
}

pub open spec fn kw_ping() -> Seq<u8> {
    seq![80u8, 73u8, 78u8, 71u8]
}

pub open spec fn kw_pong() -> Seq<u8> {
    seq![80u8, 79u8, 78u8, 71u8]
}

pub open spec fn kw_names() -> Seq<u8> {
    seq![78u8, 65u8, 77u8, 69u8, 83u8]
}

/// The sentinel argument `unknown`, standing in for a missing optional token.
pub open spec fn sentinel() -> Seq<u8> {
    seq![117u8, 110u8, 107u8, 110u8, 111u8, 119u8, 110u8]
}

/// Token `k` of `ts`, or the sentinel where `ts` is too short.
pub open spec fn arg_or_sentinel(ts: Seq<Seq<u8>>, k: int) -> Seq<u8> {
    if k < ts.len() {
        ts[k]
    } else {
        sentinel()
    }
}

/// What `parse_command` returns, as a function of the line's bytes.
pub open spec fn spec_parse(s: Seq<u8>) -> CmdView {
    let ts = tokens(s);
    if ts.len() == 0 {
        CmdView::Unknown(s)
    } else {
        let c = upper_bytes(ts[0]);
        if c == kw_cap() {
            if ts.len() >= 3 && upper_bytes(ts[1]) == kw_ls() && ts[2] == kw_302() {
                CmdView::CapLs302
            } else {
                CmdView::Unknown(s)
            }
        } else if c == kw_nick() {
            CmdView::Nick(arg_or_sentinel(ts, 1))
        } else if c == kw_user() {
            CmdView::User(arg_or_sentinel(ts, 1))
        } else if c == kw_quit() {
            CmdView::Quit
        } else if c == kw_join() {
            CmdView::Join(arg_or_sentinel(ts, 1))
        } else if c == kw_part() {
            CmdView::Part(arg_or_sentinel(ts, 1))
        } else if c == kw_privmsg() {
            if ts.len() >= 3 {
                CmdView::PrivMsg(ts[1], joined(ts.skip(2)))
            } else {
                CmdView::Unknown(s)
            }
        } else if c == kw_mode() {
            if ts.len() >= 3 {
                CmdView::Mode(ts[1], ts[2], arg_or_sentinel(ts, 3))
            } else {
                CmdView::Unknown(s)
            }
        } else if c == kw_who() {
            if ts.len() >= 2 {
                CmdView::Who(ts[1])
            } else {
                CmdView::Unknown(s)
            }
        } else if c == kw_ping() {
            CmdView::Ping
        } else if c == kw_pong() {
            CmdView::Pong
        } else if c == kw_names() {
            CmdView::Names(arg_or_sentinel(ts, 1))
        } else {
            CmdView::Unknown(s)
        }
    }
}

/// Split a line into its whitespace-separated tokens.
fn tokenize(line: &[u8]) -> (toks: Vec<Vec<u8>>)
    ensures
        views_of(toks@) == tokens(line@),
{
    let mut toks: Vec<Vec<u8>> = Vec::new();
    let mut cur: Vec<u8> = Vec::new();
    let n = line.len();
    let mut i: usize = 0;
    while i < n
        invariant
            n == line@.len(),
            i <= n,
            tokens(line@) == views_of(toks@) + tokens_from(line@, i as int, cur@),
        decreases n - i,
    {
        let ghost pre_toks = toks@;
        let ghost pre_cur = cur@;
        let b = line[i];
        if b == 32 || b == 9 || b == 13 || b == 10 {
            if cur.len() > 0 {
                toks.push(cur);
                cur = Vec::new();
                proof {
                    assert(views_of(toks@) =~= views_of(pre_toks) + seq![pre_cur]);
                    assert(tokens_from(line@, i as int, pre_cur) == seq![pre_cur] + tokens_from(
                        line@,
                        i + 1,
                        Seq::empty(),
                    ));
                    assert((views_of(pre_toks) + seq![pre_cur]) + tokens_from(line@, i + 1, Seq::empty())
                        =~= views_of(pre_toks) + (seq![pre_cur] + tokens_from(
                        line@,
                        i + 1,
                        Seq::empty(),
                    )));
                }
            } else {
                proof {
                    assert(tokens_from(line@, i as int, pre_cur) == tokens_from(
                        line@,
                        i + 1,
                        Seq::empty(),
                    ));
                    assert(pre_cur =~= Seq::<u8>::empty());
                }
            }
        } else {
            cur.push(b);
            proof {
                assert(cur@ =~= pre_cur.push(line@[i as int]));
                assert(tokens_from(line@, i as int, pre_cur) == tokens_from(
                    line@,
                    i + 1,
                    pre_cur.push(line@[i as int]),
                ));
            }
        }
        i = i + 1;
    }
    if cur.len() > 0 {
        let ghost pre_toks = toks@;
        let ghost pre_cur = cur@;
        toks.push(cur);
        proof {
            assert(views_of(toks@) =~= views_of(pre_toks) + seq![pre_cur]);
        }
    } else {
        proof {
            assert(views_of(toks@) =~= views_of(toks@) + tokens_from(line@, n as int, cur@));
        }
    }
    toks
}

/// Rejoin `toks[k..]` with single spaces.
fn join_from(toks: &Vec<Vec<u8>>, k: usize) -> (r: Vec<u8>)
    requires
        k <= toks@.len(),
    ensures
        r@ == joined(views_of(toks@).skip(k as int)),
    decreases toks@.len() - k,
{
    let n = toks.len();
    if k >= n {
        proof {
            assert(views_of(toks@).skip(k as int).len() == 0);
        }
        Vec::new()
    } else if k == n - 1 {
        let r = copy_bytes(toks[k].as_slice());
        proof {
            assert(views_of(toks@).skip(k as int).len() == 1);
            assert(views_of(toks@).skip(k as int)[0] == toks@[k as int]@);
        }
        r
    } else {
        let mut r = copy_bytes(toks[k].as_slice());
        r.push(32);
        let rest = join_from(toks, k + 1);
        append_bytes(&mut r, rest.as_slice());
        proof {
            let ts = views_of(toks@).skip(k as int);
            assert(ts.len() >= 2);
            assert(ts[0] == toks@[k as int]@);
            assert(ts.drop_first() =~= views_of(toks@).skip(k + 1 as int));
            assert(r@ =~= ts[0] + seq![32u8] + joined(ts.drop_first()));
        }
        r
    }
}

/// Parse one raw protocol line into a `Command`. Never fails; every line maps
/// to exactly one command and state is never touched.
pub fn parse_command(line: &str) -> (c: Command)
    ensures
        c@ == spec_parse(line.spec_bytes()),
{
    let bs = line.as_bytes();
    let toks = tokenize(bs);
    let ghost ts = tokens(bs@);
    if toks.len() == 0 {
        return Command::Unknown(copy_bytes(bs));
    }
    let head = toks[0].as_slice();
    if eq_ignore_case(head, vec![67u8, 65u8, 80u8].as_slice()) {
        if toks.len() >= 3 && eq_ignore_case(toks[1].as_slice(), vec![76u8, 83u8].as_slice())
            && crate::bytes::bytes_eq(toks[2].as_slice(), vec![51u8, 48u8, 50u8].as_slice()) {
            Command::CapLs302
        } else {
            Command::Unknown(copy_bytes(bs))
        }
    } else if eq_ignore_case(head, vec![78u8, 73u8, 67u8, 75u8].as_slice()) {
        Command::Nick(arg_or_default(&toks, 1))
    } else if eq_ignore_case(head, vec![85u8, 83u8, 69u8, 82u8].as_slice()) {
        Command::User(arg_or_default(&toks, 1))
    } else if eq_ignore_case(head, vec![81u8, 85u8, 73u8, 84u8].as_slice()) {
        Command::Quit
    } else if eq_ignore_case(head, vec![74u8, 79u8, 73u8, 78u8].as_slice()) {
        Command::Join(arg_or_default(&toks, 1))
    } else if eq_ignore_case(head, vec![80u8, 65u8, 82u8, 84u8].as_slice()) {
        Command::Part(arg_or_default(&toks, 1))
    } else if eq_ignore_case(head, vec![80u8, 82u8, 73u8, 86u8, 77u8, 83u8, 71u8].as_slice()) {
        if toks.len() >= 3 {
            let target = copy_bytes(toks[1].as_slice());
            let message = join_from(&toks, 2);
            proof {
                assert(views_of(toks@).skip(2) =~= ts.skip(2));
            }
            Command::PrivMsg(target, message)
        } else {
            Command::Unknown(copy_bytes(bs))
        }
    } else if eq_ignore_case(head, vec![77u8, 79u8, 68u8, 69u8].as_slice()) {
        if toks.len() >= 3 {
            Command::Mode(
                copy_bytes(toks[1].as_slice()),
                copy_bytes(toks[2].as_slice()),
                arg_or_default(&toks, 3),
            )
        } else {
            Command::Unknown(copy_bytes(bs))
        }
    } else if eq_ignore_case(head, vec![87u8, 72u8, 79u8].as_slice()) {
        if toks.len() >= 2 {
            Command::Who(copy_bytes(toks[1].as_slice()))
        } else {
            Command::Unknown(copy_bytes(bs))
        }
    } else if eq_ignore_case(head, vec![80u8, 73u8, 78u8, 71u8].as_slice()) {
        Command::Ping
    } else if eq_ignore_case(head, vec![80u8, 79u8, 78u8, 71u8].as_slice()) {
        Command::Pong
    } else if eq_ignore_case(head, vec![78u8, 65u8, 77u8, 69u8, 83u8].as_slice()) {
        Command::Names(arg_or_default(&toks, 1))
    } else {
        Command::Unknown(copy_bytes(bs))
    }
}

/// Token `k` of `toks`, or a fresh sentinel token where `toks` is too short.
fn arg_or_default(toks: &Vec<Vec<u8>>, k: usize) -> (r: Vec<u8>)
    ensures
        r@ == arg_or_sentinel(views_of(toks@), k as int),
{
    if k < toks.len() {
        copy_bytes(toks[k].as_slice())
    } else {
        let v: Vec<u8> = vec![117u8, 110u8, 107u8, 110u8, 111u8, 119u8, 110u8];
        proof {
            assert(v@ =~= sentinel());
        }
        v
    }
}

} // verus!
