//! Framing a command for the wire: at most 512 bytes, terminator included.

use crate::conn::command::{Command, CommandView};
use crate::text::{append_bounded, lemma_truncate_append, truncate, CTCP_DELIM, SPACE};
use vstd::prelude::*;

verus! {

/// The most that a line may hold before its terminator.
pub const MAX_BODY: usize = 510;

/// The carriage return of the terminator.
pub const CR: u8 = 0x0d;

/// The line feed of the terminator.
pub const LF: u8 = 0x0a;

/// The terminator of a line.
pub open spec fn crlf() -> Seq<u8> {
    seq![CR, LF]
}

/// What a command and its argument bytes ask to be sent, before any cut:
/// the command, then the bytes behind a space where there are any, then
/// the closing delimiter of a CTCP command.
pub open spec fn body(cmd: CommandView, args: Seq<u8>) -> Seq<u8> {
    cmd.head() + (if args.len() > 0 {
        seq![SPACE] + args
    } else {
        Seq::empty()
    }) + (if cmd.is_ctcp() {
        seq![CTCP_DELIM]
    } else {
        Seq::empty()
    })
}

/// The line that is sent: the body cut to `MAX_BODY` bytes, and the
/// terminator.
pub open spec fn frame(cmd: CommandView, args: Seq<u8>) -> Seq<u8> {
    truncate(body(cmd, args), MAX_BODY as int) + crlf()
}

/// A line that is sent never exceeds 512 bytes and always ends in the
/// terminator. A body that fits is sent whole. One that does not is cut,
/// not refused: the line is then exactly 512 bytes, the first 510 of the
/// body and the terminator.
pub proof fn lemma_frame_bounded(cmd: CommandView, args: Seq<u8>)
    ensures
        frame(cmd, args).len() <= MAX_BODY + 2,
        frame(cmd, args).len() >= 2,
        frame(cmd, args).skip(frame(cmd, args).len() - 2) == crlf(),
        body(cmd, args).len() <= MAX_BODY ==> frame(cmd, args) == body(cmd, args) + crlf(),
        body(cmd, args).len() > MAX_BODY ==> {
            &&& frame(cmd, args).len() == MAX_BODY + 2
            &&& frame(cmd, args) == body(cmd, args).take(MAX_BODY as int) + crlf()
        },
{
    let f = frame(cmd, args);
    assert(f.skip(f.len() - 2) =~= crlf());
}

/// Frames a command with its argument bytes, which are sent as they are.
pub fn frame_command(cmd: &Command, args: &[u8]) -> (line: Vec<u8>)
    ensures
        line@ == frame(cmd@, args@),
{
    let mut head: Vec<u8> = Vec::new();
    cmd.push_head(&mut head);
    assert(head@ =~= cmd@.head());
    let mut line: Vec<u8> = Vec::new();
    append_bounded(&mut line, head.as_slice(), MAX_BODY);
    assert(line@ =~= truncate(cmd@.head(), MAX_BODY as int));
    let ghost mut sent = cmd@.head();
    if args.len() > 0 {
        if line.len() < MAX_BODY {
            line.push(SPACE);
        }
        assert(line@ =~= truncate(truncate(sent, MAX_BODY as int) + seq![SPACE], MAX_BODY as int));
        proof {
            lemma_truncate_append(sent, seq![SPACE], MAX_BODY as int);
            sent = sent + seq![SPACE];
        }
        append_bounded(&mut line, args, MAX_BODY);
        proof {
            lemma_truncate_append(sent, args@, MAX_BODY as int);
            sent = sent + args@;
        }
    }
    if cmd.is_ctcp() {
        if line.len() < MAX_BODY {
            line.push(CTCP_DELIM);
        }
        assert(line@ =~= truncate(
            truncate(sent, MAX_BODY as int) + seq![CTCP_DELIM],
            MAX_BODY as int,
        ));
        proof {
            lemma_truncate_append(sent, seq![CTCP_DELIM], MAX_BODY as int);
            sent = sent + seq![CTCP_DELIM];
        }
    }
    assert(sent =~= body(cmd@, args@));
    line.push(CR);
    line.push(LF);
    assert(line@ =~= frame(cmd@, args@));
    line
}

} // verus!
