//! Built-in IRC message handlers.
//!
//! Before the server has welcomed a session, the session answers the
//! welcome and the replies that refuse a nickname. At any time it answers
//! a `PING`. Every other line is left to the owner of the session.

pub mod handshake;
pub mod normal;

use crate::conn::command::{nick_verb, ping_bytes, ping_verb, Command, CommandView};
use crate::conn::frame::frame;
use crate::conn::line::{Line, LineView};
use crate::conn::session::{Conn, ConnView};
use crate::text::bytes_eq;
use vstd::prelude::*;

verus! {

/// The numeric code of the welcome.
pub const WELCOME: usize = 1;

/// The numeric code that refuses a nickname as erroneous.
pub const ERRONEUS_NICKNAME: usize = 432;

/// The numeric code that refuses a nickname as in use.
pub const NICKNAME_IN_USE: usize = 433;

/// The numeric code that refuses a nickname as colliding.
pub const NICK_COLLISION: usize = 436;

/// The numeric code that refuses a nickname as unavailable.
pub const UNAVAIL_RESOURCE: usize = 437;

/// Whether `code` is one of the four that refuse a nickname.
pub open spec fn refuses_nick(code: nat) -> bool {
    ||| code == NICKNAME_IN_USE
    ||| code == ERRONEUS_NICKNAME
    ||| code == NICK_COLLISION
    ||| code == UNAVAIL_RESOURCE
}

impl LineView {
    /// Whether the line is a `PING`.
    pub open spec fn is_ping(self) -> bool {
        self.command == CommandView::IRCCmd(ping_verb())
    }

    /// Whether the line is the welcome.
    pub open spec fn is_welcome(self) -> bool {
        self.command == CommandView::IRCCode(WELCOME as nat)
    }
}

impl<'a> ConnView<'a> {
    /// The session after it has handled a line.
    ///
    /// A `PING` is answered in any state. Before the login the welcome
    /// logs the session in, and a reply that refuses the nickname has
    /// another one asked for. Nothing else changes the session.
    pub open spec fn handle(self, line: LineView) -> ConnView<'a> {
        if line.is_ping() {
            self.pong(line)
        } else if self.logged_in {
            self
        } else {
            match line.command {
                CommandView::IRCCode(code) => if code == WELCOME {
                    self.welcome(line)
                } else if refuses_nick(code) {
                    self.bad_nick(line)
                } else {
                    self
                },
                _ => self,
            }
        }
    }
}

/// The nickname of a session follows what was last said of it: a line
/// leaves it as it was, or it is the welcome and names it, or the session
/// has just asked for it. A session that is logged in stays so.
pub proof fn lemma_nick_follows(c: ConnView, line: LineView)
    ensures
        ({
            let next = c.handle(line);
            ||| next.nick == c.nick
            ||| !c.logged_in && line.is_welcome() && line.first_arg() == Some(next.nick)
            ||| next.outbox.len() > 0 && next.outbox.last() == frame(
                CommandView::IRCCmd(nick_verb()),
                next.nick,
            )
        }),
        c.logged_in ==> c.handle(line).logged_in,
{
}

/// Whether the line is a `PING`.
fn is_ping(line: &Line) -> (r: bool)
    ensures
        r == line@.is_ping(),
{
    match &line.command {
        Command::IRCCmd(name) => bytes_eq(name.as_str().as_bytes(), ping_bytes()),
        _ => false,
    }
}

/// The numeric code of the line, if its command is one.
fn code_of(line: &Line) -> (r: Option<usize>)
    ensures
        match r {
            Some(code) => line@.command == CommandView::IRCCode(code as nat),
            None => !(line@.command is IRCCode),
        },
{
    match &line.command {
        Command::IRCCode(code) => Some(*code),
        _ => None,
    }
}

/// Lets the session handle a line that was received.
pub fn handle_line(conn: &mut Conn, line: &Line)
    ensures
        final(conn)@ == old(conn)@.handle(line@),
{
    if is_ping(line) {
        normal::PING(conn, line);
    } else if !conn.logged_in() {
        match code_of(line) {
            Some(code) => {
                if code == WELCOME {
                    handshake::RPL_WELCOME(conn, line);
                } else if code == NICKNAME_IN_USE {
                    handshake::ERR_NICKNAMEINUSE(conn, line);
                } else if code == ERRONEUS_NICKNAME {
                    handshake::ERR_ERRONEUSNICKNAME(conn, line);
                } else if code == NICK_COLLISION {
                    handshake::ERR_NICKCOLLISION(conn, line);
                } else if code == UNAVAIL_RESOURCE {
                    handshake::ERR_UNAVAILRESOURCE(conn, line);
                }
            },
            None => {},
        }
    }
}

} // verus!
