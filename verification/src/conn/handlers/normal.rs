//! The handlers that work in any state of the session.

use crate::conn::command::{pong_command, pong_verb, CommandView};
use crate::conn::line::{Line, LineView};
use crate::conn::session::{Conn, ConnView};
use crate::text::{byte_strings, push_all, SPACE};
use vstd::prelude::*;

verus! {

/// The arguments with one space between each two of them.
pub open spec fn spaced(args: Seq<Seq<u8>>) -> Seq<u8>
    decreases args.len(),
{
    if args.len() == 0 {
        Seq::empty()
    } else if args.len() == 1 {
        args[0]
    } else {
        spaced(args.drop_last()) + seq![SPACE] + args.last()
    }
}

impl<'a> ConnView<'a> {
    /// The session after it has answered the `PING` of `line`: with a
    /// `PONG` that echoes the arguments.
    pub open spec fn pong(self, line: LineView) -> ConnView<'a> {
        self.send(CommandView::IRCCmd(pong_verb()), spaced(line.args))
    }
}

/// Joins the arguments with single spaces.
pub fn connect_args(args: &Vec<Vec<u8>>) -> (r: Vec<u8>)
    ensures
        r@ == spaced(byte_strings(args@)),
{
    let ghost all = byte_strings(args@);
    let mut r: Vec<u8> = Vec::new();
    let mut i: usize = 0;
    assert(all.take(0).len() == 0);
    while i < args.len()
        invariant
            i <= args@.len(),
            all == byte_strings(args@),
            r@ == spaced(all.take(i as int)),
        decreases args@.len() - i,
    {
        if i > 0 {
            r.push(SPACE);
        }
        push_all(&mut r, args[i].as_slice());
        proof {
            let next = all.take(i + 1);
            assert(next.drop_last() =~= all.take(i as int));
            assert(next.last() == args@[i as int]@);
            assert(r@ =~= spaced(next));
        }
        i += 1;
    }
    assert(all.take(args@.len() as int) =~= all);
    r
}

/// PING: the server asks whether the session is alive.
#[allow(non_snake_case)]
pub fn PING(conn: &mut Conn, line: &Line)
    ensures
        final(conn)@ == old(conn)@.pong(line@),
{
    let echo = connect_args(&line.args);
    conn.send_command(pong_command(), echo.as_slice());
}

} // verus!
