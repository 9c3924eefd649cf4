//! The handlers of the login: the welcome, and the replies that refuse a
//! nickname.

use crate::conn::line::{Line, LineView};
use crate::conn::session::{Conn, ConnView};
use vstd::prelude::*;
use vstd::slice::slice_to_vec;

verus! {

/// The byte that takes the place of another in a refused nickname.
pub const UNDERSCORE: u8 = 0x5f;

/// The place of the last byte of `nick` that is no underscore, or -1
/// where every byte is one.
pub open spec fn last_plain(nick: Seq<u8>) -> int
    decreases nick.len(),
{
    if nick.len() == 0 {
        -1
    } else if nick.last() != UNDERSCORE {
        nick.len() - 1
    } else {
        last_plain(nick.drop_last())
    }
}

/// The nickname to try after `nick` was refused: `nick` with an
/// underscore in the place of its last byte that is none. There is none
/// to try where `nick` is made of underscores only.
pub open spec fn mutate_nick(nick: Seq<u8>) -> Option<Seq<u8>> {
    let k = last_plain(nick);
    if k < 0 {
        None
    } else {
        Some(nick.update(k, UNDERSCORE))
    }
}

/// How many bytes of `nick` are no underscores.
pub open spec fn plain_count(nick: Seq<u8>) -> nat
    decreases nick.len(),
{
    if nick.len() == 0 {
        0
    } else if nick.last() != UNDERSCORE {
        plain_count(nick.drop_last()) + 1
    } else {
        plain_count(nick.drop_last())
    }
}

/// The nickname after `steps` refusals in a row, while there is one to
/// try.
pub open spec fn mutated(nick: Seq<u8>, steps: nat) -> Option<Seq<u8>>
    decreases steps,
{
    if steps == 0 {
        Some(nick)
    } else {
        match mutated(nick, (steps - 1) as nat) {
            Some(n) => mutate_nick(n),
            None => None,
        }
    }
}

/// `last_plain` stays within the nickname, the byte at it is no
/// underscore, and every byte behind it is one.
pub proof fn lemma_last_plain(nick: Seq<u8>)
    ensures
        -1 <= last_plain(nick) < nick.len(),
        last_plain(nick) >= 0 ==> nick[last_plain(nick)] != UNDERSCORE,
        forall|i: int| last_plain(nick) < i < nick.len() ==> nick[i] == UNDERSCORE,
    decreases nick.len(),
{
    if nick.len() > 0 && nick.last() == UNDERSCORE {
        let front = nick.drop_last();
        lemma_last_plain(front);
        assert forall|i: int| last_plain(nick) < i < nick.len() implies nick[i] == UNDERSCORE by {
            if i < front.len() {
                assert(nick[i] == front[i]);
            }
        }
    }
}

/// A place with the properties of `lemma_last_plain` is `last_plain`.
pub proof fn lemma_last_plain_is(nick: Seq<u8>, k: int)
    requires
        -1 <= k < nick.len(),
        k >= 0 ==> nick[k] != UNDERSCORE,
        forall|i: int| k < i < nick.len() ==> nick[i] == UNDERSCORE,
    ensures
        last_plain(nick) == k,
{
    lemma_last_plain(nick);
}

/// Putting an underscore in the place of a byte that is none leaves one
/// such byte less.
proof fn lemma_plain_count_update(nick: Seq<u8>, k: int)
    requires
        0 <= k < nick.len(),
        nick[k] != UNDERSCORE,
    ensures
        plain_count(nick.update(k, UNDERSCORE)) + 1 == plain_count(nick),
    decreases nick.len(),
{
    let next = nick.update(k, UNDERSCORE);
    if k == nick.len() - 1 {
        assert(next.drop_last() =~= nick.drop_last());
    } else {
        lemma_plain_count_update(nick.drop_last(), k);
        assert(next.drop_last() =~= nick.drop_last().update(k, UNDERSCORE));
        assert(next.last() == nick.last());
    }
}

/// A nickname without a byte that is no underscore has none to count, and
/// the other way round.
proof fn lemma_plain_count_zero(nick: Seq<u8>)
    ensures
        plain_count(nick) == 0 <==> last_plain(nick) < 0,
    decreases nick.len(),
{
    if nick.len() > 0 {
        lemma_plain_count_zero(nick.drop_last());
    }
}

/// Each refusal leaves one byte less that is no underscore, at the same
/// length, and there is no nickname left to try exactly when no such byte
/// is left.
pub proof fn lemma_mutate_counts_down(nick: Seq<u8>)
    ensures
        match mutate_nick(nick) {
            Some(next) => {
                &&& plain_count(nick) > 0
                &&& plain_count(next) == plain_count(nick) - 1
                &&& next.len() == nick.len()
            },
            None => plain_count(nick) == 0,
        },
{
    lemma_last_plain(nick);
    lemma_plain_count_zero(nick);
    if last_plain(nick) >= 0 {
        lemma_plain_count_update(nick, last_plain(nick));
    }
}

/// The refusals come to an end: a nickname can be mutated as many times as
/// it has bytes that are no underscores, and is then made of underscores
/// only, so that the next refusal finds none to try.
pub proof fn lemma_mutation_ends(nick: Seq<u8>, steps: nat)
    requires
        steps <= plain_count(nick),
    ensures
        mutated(nick, steps) matches Some(n) && plain_count(n) == plain_count(nick) - steps,
        steps == plain_count(nick) ==> mutated(nick, steps + 1) is None,
    decreases steps,
{
    if steps > 0 {
        lemma_mutation_ends(nick, (steps - 1) as nat);
        lemma_mutate_counts_down(mutated(nick, (steps - 1) as nat)->0);
    }
    lemma_mutate_counts_down(mutated(nick, steps)->0);
}

impl LineView {
    /// The first argument of the line, if it has one.
    pub open spec fn first_arg(self) -> Option<Seq<u8>> {
        if self.args.len() > 0 {
            Some(self.args[0])
        } else {
            None
        }
    }
}

impl<'a> ConnView<'a> {
    /// The session after the welcome `line`: logged in, under the
    /// nickname that the line names, if it names one.
    pub open spec fn welcome(self, line: LineView) -> ConnView<'a> {
        self.welcomed(line.first_arg())
    }

    /// The session after `line` refused a nickname: the one that the line
    /// names, or else the session's own. The session asks for the
    /// mutated nickname, or quits where there is none to try.
    pub open spec fn bad_nick(self, line: LineView) -> ConnView<'a> {
        let refused = match line.first_arg() {
            Some(n) => n,
            None => self.nick,
        };
        match mutate_nick(refused) {
            Some(next) => self.set_nick(next),
            None => self.quit(),
        }
    }
}

/// Puts an underscore in the place of the last byte of `nick` that is
/// none, and says whether there was such a byte.
pub fn mutate(nick: &mut Vec<u8>) -> (modified: bool)
    ensures
        match mutate_nick(old(nick)@) {
            Some(next) => modified && final(nick)@ == next,
            None => !modified && final(nick)@ == old(nick)@,
        },
{
    let mut i: usize = nick.len();
    while i > 0
        invariant
            i <= nick@.len(),
            nick@ == old(nick)@,
            forall|j: int| i <= j < nick@.len() ==> nick@[j] == UNDERSCORE,
        decreases i,
    {
        i -= 1;
        if nick[i] != UNDERSCORE {
            proof {
                lemma_last_plain_is(nick@, i as int);
            }
            nick.set(i, UNDERSCORE);
            return true;
        }
    }
    proof {
        lemma_last_plain_is(nick@, -1);
    }
    false
}

/// The first argument of the line, if it has one.
fn first_arg(line: &Line) -> (r: Option<Vec<u8>>)
    ensures
        match r {
            Some(a) => line@.first_arg() == Some(a@),
            None => line@.first_arg() is None,
        },
{
    if line.args.len() > 0 {
        Some(slice_to_vec(line.args[0].as_slice()))
    } else {
        None
    }
}

/// 001: the server welcomes the session.
#[allow(non_snake_case)]
pub fn RPL_WELCOME(conn: &mut Conn, line: &Line)
    ensures
        final(conn)@ == old(conn)@.welcome(line@),
{
    conn.welcome(first_arg(line));
}

/// 433: the nickname is in use.
#[allow(non_snake_case)]
pub fn ERR_NICKNAMEINUSE(conn: &mut Conn, line: &Line)
    ensures
        final(conn)@ == old(conn)@.bad_nick(line@),
{
    bad_nick(conn, line);
}

/// 432: the nickname is erroneous.
#[allow(non_snake_case)]
pub fn ERR_ERRONEUSNICKNAME(conn: &mut Conn, line: &Line)
    ensures
        final(conn)@ == old(conn)@.bad_nick(line@),
{
    bad_nick(conn, line);
}

/// 436: the nickname collides with another.
#[allow(non_snake_case)]
pub fn ERR_NICKCOLLISION(conn: &mut Conn, line: &Line)
    ensures
        final(conn)@ == old(conn)@.bad_nick(line@),
{
    bad_nick(conn, line);
}

/// 437: the nickname is unavailable for now.
#[allow(non_snake_case)]
pub fn ERR_UNAVAILRESOURCE(conn: &mut Conn, line: &Line)
    ensures
        final(conn)@ == old(conn)@.bad_nick(line@),
{
    bad_nick(conn, line);
}

/// Asks for another nickname in the place of the refused one, or quits
/// where there is none to try.
fn bad_nick(conn: &mut Conn, line: &Line)
    ensures
        final(conn)@ == old(conn)@.bad_nick(line@),
{
    let mut nick = match first_arg(line) {
        Some(n) => n,
        None => slice_to_vec(conn.nick()),
    };
    if mutate(&mut nick) {
        conn.set_nick(nick);
    } else {
        conn.quit();
    }
}

} // verus!
