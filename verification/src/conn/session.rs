//! The state of one connection, and what it has asked to be sent.
//!
//! A session does no I/O of its own. What it sends is framed and queued in
//! its outbox, in the order of the calls, for the owner of the transport to
//! write.

use crate::conn::command::{nick_command, nick_verb, quit_command, quit_verb};
use crate::conn::command::{Command, CommandView};
use crate::conn::frame::{frame, frame_command};
use crate::conn::line::{Line, LineView};
use crate::text::byte_strings;
use vstd::prelude::*;
use vstd::slice::slice_to_vec;
use vstd::utf8::encode_utf8;

verus! {

/// The port that IRC servers listen on by custom.
#[allow(non_upper_case_globals)]
pub const DefaultPort: u16 = 6667;

/// A literal network address.
#[derive(Clone, Copy, Debug, PartialEq, Eq)]
pub enum IpAddr {
    /// The four bytes of an IPv4 address.
    Ipv4Addr(u8, u8, u8, u8),
    /// The eight groups of an IPv6 address.
    Ipv6Addr(u16, u16, u16, u16, u16, u16, u16, u16),
}

/// OptionsHost allows for using an IP address or a host string.
#[derive(Clone, Copy, Debug, PartialEq, Eq)]
pub enum OptionsHost<'a> {
    /// A name to be resolved.
    Host(&'a str),
    /// A literal address.
    Addr(IpAddr),
}

/// Options used with Conn for connecting to the server.
#[derive(Clone, Copy, Debug)]
pub struct Options<'a> {
    pub host: OptionsHost<'a>,
    pub port: u16,
    pub nick: &'a str,
    pub user: &'a str,
}

impl<'a> Options<'a> {
    /// Returns a new Options struct with default values: the nickname
    /// `ircnick` and the user name `ircuser`.
    pub fn new(host: &'a str, port: u16) -> (opts: Options<'a>)
        ensures
            opts.host == OptionsHost::Host(host),
            opts.port == port,
            opts.nick@ == "ircnick"@,
            opts.user@ == "ircuser"@,
    {
        Options { host: OptionsHost::Host(host), port, nick: "ircnick", user: "ircuser" }
    }
}

/// Events that can be handled in the callback.
#[derive(Clone, Debug, PartialEq, Eq)]
pub enum Event {
    /// The connection was established.
    Connected,
    /// A line was received from the server. This event is not sent until
    /// the user has successfully logged in.
    LineReceived(Line),
    /// The connection has terminated.
    Disconnected,
}

/// An event as the bytes it stands for.
pub enum EventView {
    Connected,
    LineReceived(LineView),
    Disconnected,
}

impl View for Event {
    type V = EventView;

    open spec fn view(&self) -> EventView {
        match self {
            Event::Connected => EventView::Connected,
            Event::LineReceived(line) => EventView::LineReceived(line@),
            Event::Disconnected => EventView::Disconnected,
        }
    }
}

/// Conn represents a connection to a single IRC server.
pub struct Conn<'a> {
    host: OptionsHost<'a>,
    logged_in: bool,
    nick: Vec<u8>,
    user: &'a str,
    outbox: Vec<Vec<u8>>,
}

/// What a session holds.
pub struct ConnView<'a> {
    /// The host that the session was made for.
    pub host: OptionsHost<'a>,
    /// The user name that the session was made with.
    pub user: Seq<char>,
    /// Whether the server has welcomed the session.
    pub logged_in: bool,
    /// The nickname in use, or the one that was last asked for.
    pub nick: Seq<u8>,
    /// The lines that wait to be written, oldest first.
    pub outbox: Seq<Seq<u8>>,
}

impl<'a> ConnView<'a> {
    /// The session after it was asked to send a command: the framed line
    /// stands last in the outbox.
    pub open spec fn send(self, cmd: CommandView, args: Seq<u8>) -> ConnView<'a> {
        ConnView { outbox: self.outbox.push(frame(cmd, args)), ..self }
    }

    /// The session after it asked for the nickname `nick`.
    pub open spec fn set_nick(self, nick: Seq<u8>) -> ConnView<'a> {
        ConnView { nick, ..self.send(CommandView::IRCCmd(nick_verb()), nick) }
    }

    /// The session after it asked to quit.
    pub open spec fn quit(self) -> ConnView<'a> {
        self.send(CommandView::IRCCmd(quit_verb()), Seq::empty())
    }

    /// The session after the server welcomed it, under the nickname that
    /// the welcome names, if it names one.
    pub open spec fn welcomed(self, nick: Option<Seq<u8>>) -> ConnView<'a> {
        ConnView {
            logged_in: true,
            nick: match nick {
                Some(n) => n,
                None => self.nick,
            },
            ..self
        }
    }
}

impl<'a> View for Conn<'a> {
    type V = ConnView<'a>;

    closed spec fn view(&self) -> ConnView<'a> {
        ConnView {
            host: self.host,
            user: self.user@,
            logged_in: self.logged_in,
            nick: self.nick@,
            outbox: byte_strings(self.outbox@),
        }
    }
}

impl<'a> Conn<'a> {
    /// A session for a connection that was just established: not logged
    /// in, under the nickname of the options, with nothing to send.
    pub fn new(opts: Options<'a>) -> (conn: Conn<'a>)
        ensures
            conn@ == (ConnView {
                host: opts.host,
                user: opts.user@,
                logged_in: false,
                nick: encode_utf8(opts.nick@),
                outbox: Seq::empty(),
            }),
    {
        let conn = Conn {
            host: opts.host,
            logged_in: false,
            nick: slice_to_vec(opts.nick.as_bytes()),
            user: opts.user,
            outbox: Vec::new(),
        };
        assert(byte_strings(conn.outbox@) =~= Seq::empty());
        conn
    }

    /// Returns the host that was used to create this Conn.
    pub fn host(&self) -> (r: OptionsHost<'a>)
        ensures
            r == self@.host,
    {
        self.host
    }

    /// Returns the user's nickname. If the user hasn't logged in yet, it
    /// returns the nickname that will be used.
    pub fn nick(&self) -> (r: &[u8])
        ensures
            r@ == self@.nick,
    {
        self.nick.as_slice()
    }

    /// Returns the user name that the session was made with.
    pub fn user(&self) -> (r: &'a str)
        ensures
            r@ == self@.user,
    {
        self.user
    }

    /// Whether the server has welcomed the session.
    pub fn logged_in(&self) -> (r: bool)
        ensures
            r == self@.logged_in,
    {
        self.logged_in
    }

    /// Sends a command to the server.
    ///
    /// The argument bytes follow the command behind a space, as they are.
    /// The line is truncated to 510 bytes (not including the terminator)
    /// before it is queued; a command that is too long is cut, not
    /// refused.
    pub fn send_command(&mut self, cmd: Command, args: &[u8])
        ensures
            final(self)@ == old(self)@.send(cmd@, args@),
    {
        let line = frame_command(&cmd, args);
        self.outbox.push(line);
        assert(byte_strings(self.outbox@) =~= byte_strings(old(self).outbox@).push(line@));
    }

    /// Sets the user's nickname: asks the server for it, and keeps it.
    pub fn set_nick(&mut self, nick: Vec<u8>)
        ensures
            final(self)@ == old(self)@.set_nick(nick@),
    {
        self.send_command(nick_command(), nick.as_slice());
        self.nick = nick;
    }

    /// Quits the connection. The transport stays open until the server
    /// closes it.
    pub fn quit(&mut self)
        ensures
            final(self)@ == old(self)@.quit(),
    {
        let none: Vec<u8> = Vec::new();
        self.send_command(quit_command(), none.as_slice());
    }

    /// Marks the session as logged in, under `nick` where one is given.
    pub(crate) fn welcome(&mut self, nick: Option<Vec<u8>>)
        ensures
            final(self)@ == old(self)@.welcomed(
                match nick {
                    Some(n) => Some(n@),
                    None => None,
                },
            ),
    {
        self.logged_in = true;
        match nick {
            Some(n) => {
                self.nick = n;
            },
            None => {},
        }
    }

    /// Hands out the lines that wait to be written, oldest first, and
    /// leaves the outbox empty.
    pub fn take_outbox(&mut self) -> (lines: Vec<Vec<u8>>)
        ensures
            byte_strings(lines@) == old(self)@.outbox,
            final(self)@ == (ConnView { outbox: Seq::empty(), ..old(self)@ }),
    {
        let mut lines: Vec<Vec<u8>> = Vec::new();
        std::mem::swap(&mut lines, &mut self.outbox);
        assert(byte_strings(self.outbox@) =~= Seq::empty());
        lines
    }
}

} // verus!
