//! A line of the protocol, and its form on the wire.

use crate::conn::command::{Command, CommandView};
use crate::text::{
    byte_strings, find_byte, fits, has_byte, plus, plus_len, push_all, CTCP_DELIM, COLON, SPACE,
};
use vstd::prelude::*;

verus! {

/// A parsed line.
#[derive(Clone, Debug, PartialEq, Eq)]
pub struct Line {
    /// The optional prefix.
    pub prefix: Option<Vec<u8>>,
    /// The command.
    pub command: Command,
    /// Any arguments. For a CTCP command these are the words of the
    /// payload behind the keyword.
    pub args: Vec<Vec<u8>>,
}

/// A line as the bytes it stands for.
pub struct LineView {
    pub prefix: Option<Seq<u8>>,
    pub command: CommandView,
    pub args: Seq<Seq<u8>>,
}

impl View for Line {
    type V = LineView;

    open spec fn view(&self) -> LineView {
        LineView {
            prefix: match self.prefix {
                Some(p) => Some(p@),
                None => None,
            },
            command: self.command@,
            args: byte_strings(self.args@),
        }
    }
}

/// Each argument behind a space of its own.
pub open spec fn joined(args: Seq<Seq<u8>>) -> Seq<u8>
    decreases args.len(),
{
    if args.len() == 0 {
        Seq::empty()
    } else {
        joined(args.drop_last()) + seq![SPACE] + args.last()
    }
}

/// A prefix on the wire: behind a colon and before a space.
pub open spec fn prefix_bytes(prefix: Option<Seq<u8>>) -> Seq<u8> {
    match prefix {
        Some(p) => seq![COLON] + p + seq![SPACE],
        None => Seq::empty(),
    }
}

/// The last argument of a line that is not CTCP: behind a space, with a
/// colon before it exactly when it holds a space.
pub open spec fn last_arg_bytes(arg: Seq<u8>) -> Seq<u8> {
    if has_byte(arg, SPACE) {
        seq![SPACE, COLON] + arg
    } else {
        seq![SPACE] + arg
    }
}

/// The arguments on the wire. Those of a CTCP command are joined by spaces
/// and closed by the delimiter. Of the others all but the last are joined
/// as they are, and the last follows `last_arg_bytes`.
pub open spec fn args_bytes(ctcp: bool, args: Seq<Seq<u8>>) -> Seq<u8> {
    if ctcp {
        joined(args) + seq![CTCP_DELIM]
    } else if args.len() == 0 {
        Seq::empty()
    } else {
        joined(args.drop_last()) + last_arg_bytes(args.last())
    }
}

impl LineView {
    /// The line on the wire, without a terminator.
    pub open spec fn to_raw(self) -> Seq<u8> {
        prefix_bytes(self.prefix) + self.command.head() + args_bytes(
            self.command.is_ctcp(),
            self.args,
        )
    }
}

/// The last argument of a plain line is written behind a colon exactly
/// when it holds a space. Whatever precedes it is not touched by that.
pub proof fn lemma_last_arg_colon(l: LineView)
    requires
        !l.command.is_ctcp(),
        l.args.len() > 0,
    ensures
        ({
            let lead = prefix_bytes(l.prefix) + l.command.head() + joined(l.args.drop_last());
            let last = l.args.last();
            &&& has_byte(last, SPACE) ==> l.to_raw() == lead + seq![SPACE, COLON] + last
            &&& !has_byte(last, SPACE) ==> l.to_raw() == lead + seq![SPACE] + last
            &&& has_byte(last, SPACE) <==> exists|i: int| 0 <= i < last.len() && last[i] == SPACE
        }),
{
    let lead = prefix_bytes(l.prefix) + l.command.head() + joined(l.args.drop_last());
    let last = l.args.last();
    crate::text::lemma_has_byte(last, SPACE);
    if has_byte(last, SPACE) {
        assert(l.to_raw() =~= lead + seq![SPACE, COLON] + last);
    } else {
        assert(l.to_raw() =~= lead + seq![SPACE] + last);
    }
}

/// The length of the first `n` of `args`, each behind a space.
fn joined_len(args: &Vec<Vec<u8>>, n: usize) -> (r: Option<usize>)
    requires
        n <= args@.len(),
    ensures
        fits(r, joined(byte_strings(args@).take(n as int)).len() as int),
{
    let ghost all = byte_strings(args@);
    let mut total: Option<usize> = Some(0);
    let mut i: usize = 0;
    assert(joined(all.take(0)).len() == 0);
    while i < n
        invariant
            i <= n <= args@.len(),
            all == byte_strings(args@),
            fits(total, joined(all.take(i as int)).len() as int),
        decreases n - i,
    {
        let ghost before: int = joined(all.take(i as int)).len() as int;
        proof {
            let next = all.take(i + 1);
            assert(next.drop_last() =~= all.take(i as int));
            assert(next.last() == args@[i as int]@);
            assert(joined(next).len() == before + 1 + args@[i as int]@.len());
        }
        total = plus(total, 1);
        assert(fits(total, before + 1));
        total = plus(total, args[i].len());
        i += 1;
    }
    total
}

/// Appends the first `n` of `args`, each behind a space.
fn push_joined(out: &mut Vec<u8>, args: &Vec<Vec<u8>>, n: usize)
    requires
        n <= args@.len(),
    ensures
        final(out)@ == old(out)@ + joined(byte_strings(args@).take(n as int)),
{
    let ghost all = byte_strings(args@);
    let mut i: usize = 0;
    assert(out@ =~= old(out)@ + joined(all.take(0)));
    while i < n
        invariant
            i <= n <= args@.len(),
            all == byte_strings(args@),
            out@ == old(out)@ + joined(all.take(i as int)),
        decreases n - i,
    {
        out.push(SPACE);
        push_all(out, args[i].as_slice());
        proof {
            let next = all.take(i + 1);
            assert(next.drop_last() =~= all.take(i as int));
            assert(next.last() == args@[i as int]@);
            assert(out@ =~= old(out)@ + joined(next));
        }
        i += 1;
    }
}

impl Line {
    /// The length of the line on the wire, or `None` where it does not
    /// fit a `usize`.
    pub fn raw_len(&self) -> (r: Option<usize>)
        ensures
            fits(r, self@.to_raw().len() as int),
    {
        let ghost all = byte_strings(self.args@);
        let ghost lead: int = prefix_bytes(self@.prefix).len() as int;
        let ghost head: int = self@.command.head().len() as int;
        let mut total: Option<usize> = match &self.prefix {
            Some(p) => plus(Some(p.len()), 2),
            None => Some(0),
        };
        assert(fits(total, lead)) by {
            match self.prefix {
                Some(p) => {
                    assert(fits(Some(p.len()), p@.len() as int));
                },
                None => {},
            }
        }
        total = plus_len(total, self.command.head_len());
        assert(fits(total, lead + head));
        if self.command.is_ctcp() {
            assert(all.take(all.len() as int) =~= all);
            total = plus_len(total, joined_len(&self.args, self.args.len()));
            assert(fits(total, lead + head + joined(all).len() as int));
            total = plus(total, 1);
        } else if self.args.len() > 0 {
            let n = self.args.len() - 1;
            let last = self.args[n].as_slice();
            assert(all.take(n as int) =~= all.drop_last());
            assert(all.last() == last@);
            total = plus_len(total, joined_len(&self.args, n));
            let ghost words: int = joined(all.drop_last()).len() as int;
            assert(fits(total, lead + head + words));
            if find_byte(last, SPACE) < last.len() {
                total = plus(total, 2);
                assert(fits(total, lead + head + words + 2));
            } else {
                total = plus(total, 1);
                assert(fits(total, lead + head + words + 1));
            }
            total = plus(total, last.len());
        }
        total
    }

    /// Converts into the "raw" representation `:prefix cmd args`.
    ///
    /// The buffer is made with room for the whole line.
    pub fn to_raw(&self) -> (res: Vec<u8>)
        ensures
            res@ == self@.to_raw(),
    {
        let mut res: Vec<u8> = match self.raw_len() {
            Some(n) => Vec::with_capacity(n),
            None => Vec::new(),
        };
        match &self.prefix {
            Some(p) => {
                res.push(COLON);
                push_all(&mut res, p.as_slice());
                res.push(SPACE);
            },
            None => {},
        }
        assert(res@ =~= prefix_bytes(self@.prefix));
        self.command.push_head(&mut res);
        let ghost before = res@;
        let ghost all = byte_strings(self.args@);
        if self.command.is_ctcp() {
            push_joined(&mut res, &self.args, self.args.len());
            res.push(CTCP_DELIM);
            assert(all.take(all.len() as int) =~= all);
            assert(res@ =~= before + args_bytes(true, all));
        } else if self.args.len() > 0 {
            let n = self.args.len() - 1;
            push_joined(&mut res, &self.args, n);
            let last = self.args[n].as_slice();
            res.push(SPACE);
            if find_byte(last, SPACE) < last.len() {
                res.push(COLON);
            }
            push_all(&mut res, last);
            assert(all.take(n as int) =~= all.drop_last());
            assert(all.last() == last@);
            assert(res@ =~= before + args_bytes(false, all));
        } else {
            assert(res@ =~= before + args_bytes(false, all));
        }
        assert(res@ =~= self@.to_raw());
        res
    }
}

} // verus!
