//! What a line asks for: a verb, a numeric code, or a CTCP message.

use crate::text::{fits, plus, push_all, CTCP_DELIM, COLON, SPACE};
use vstd::prelude::*;
use vstd::string::StringExecFns;
use vstd::utf8::encode_utf8;

verus! {

/// An IRC command.
#[derive(Clone, Debug, PartialEq, Eq)]
pub enum Command {
    /// A bare verb such as `PING`, `NICK` or `QUIT`.
    IRCCmd(String),
    /// A three-digit status or error code.
    IRCCode(usize),
    /// A CTCP action. The field is the destination.
    IRCAction(Vec<u8>),
    /// A CTCP request. The first field is the keyword, the second the
    /// destination.
    IRCCTCP(Vec<u8>, Vec<u8>),
    /// A CTCP reply, sent as a notice. The first field is the keyword, the
    /// second the destination.
    IRCCTCPReply(Vec<u8>, Vec<u8>),
}

/// A command as the bytes it stands for.
pub enum CommandView {
    /// A verb, as the bytes that spell it.
    IRCCmd(Seq<u8>),
    /// A numeric code.
    IRCCode(nat),
    /// A CTCP action and its destination.
    IRCAction(Seq<u8>),
    /// A CTCP request: keyword, destination.
    IRCCTCP(Seq<u8>, Seq<u8>),
    /// A CTCP reply: keyword, destination.
    IRCCTCPReply(Seq<u8>, Seq<u8>),
}

impl View for Command {
    type V = CommandView;

    open spec fn view(&self) -> CommandView {
        match self {
            Command::IRCCmd(name) => CommandView::IRCCmd(encode_utf8(name@)),
            Command::IRCCode(code) => CommandView::IRCCode(*code as nat),
            Command::IRCAction(dst) => CommandView::IRCAction(dst@),
            Command::IRCCTCP(keyword, dst) => CommandView::IRCCTCP(keyword@, dst@),
            Command::IRCCTCPReply(keyword, dst) => CommandView::IRCCTCPReply(keyword@, dst@),
        }
    }
}

/// The verb `PRIVMSG`.
pub open spec fn privmsg() -> Seq<u8> {
    seq![0x50u8, 0x52, 0x49, 0x56, 0x4d, 0x53, 0x47]
}

/// The verb `NOTICE`.
pub open spec fn notice() -> Seq<u8> {
    seq![0x4eu8, 0x4f, 0x54, 0x49, 0x43, 0x45]
}

/// The CTCP keyword `ACTION`.
pub open spec fn action() -> Seq<u8> {
    seq![0x41u8, 0x43, 0x54, 0x49, 0x4f, 0x4e]
}

/// The verb `NICK`.
pub open spec fn nick_verb() -> Seq<u8> {
    seq![0x4eu8, 0x49, 0x43, 0x4b]
}

/// The verb `QUIT`.
pub open spec fn quit_verb() -> Seq<u8> {
    seq![0x51u8, 0x55, 0x49, 0x54]
}

/// The verb `PING`.
pub open spec fn ping_verb() -> Seq<u8> {
    seq![0x50u8, 0x49, 0x4e, 0x47]
}

/// The verb `PONG`.
pub open spec fn pong_verb() -> Seq<u8> {
    seq![0x50u8, 0x4f, 0x4e, 0x47]
}

/// The ASCII digit for `d`, where `d` is below ten.
pub open spec fn digit(d: nat) -> u8 {
    (0x30 + d) as u8
}

/// `n` in decimal, without leading zeros.
pub open spec fn decimal(n: nat) -> Seq<u8>
    decreases n,
{
    if n < 10 {
        seq![digit(n)]
    } else {
        decimal(n / 10).push(digit(n % 10))
    }
}

/// A numeric code on the wire: decimal, padded with zeros to three digits.
pub open spec fn code_bytes(n: nat) -> Seq<u8> {
    if n < 10 {
        seq![0x30u8, 0x30u8] + decimal(n)
    } else if n < 100 {
        seq![0x30u8] + decimal(n)
    } else {
        decimal(n)
    }
}

/// The opening of a CTCP message: `verb`, the destination, and the keyword
/// behind the delimiter.
pub open spec fn ctcp_head(verb: Seq<u8>, dst: Seq<u8>, keyword: Seq<u8>) -> Seq<u8> {
    verb + seq![SPACE] + dst + seq![SPACE, COLON, CTCP_DELIM] + keyword
}

impl CommandView {
    /// Whether the command is one of the three CTCP forms.
    pub open spec fn is_ctcp(self) -> bool {
        self is IRCAction || self is IRCCTCP || self is IRCCTCPReply
    }

    /// The bytes that a line holds for the command itself, before any
    /// argument.
    pub open spec fn head(self) -> Seq<u8> {
        match self {
            CommandView::IRCCmd(name) => name,
            CommandView::IRCCode(code) => code_bytes(code),
            CommandView::IRCAction(dst) => ctcp_head(privmsg(), dst, action()),
            CommandView::IRCCTCP(keyword, dst) => ctcp_head(privmsg(), dst, keyword),
            CommandView::IRCCTCPReply(keyword, dst) => ctcp_head(notice(), dst, keyword),
        }
    }
}

/// A code below one thousand is written with exactly three digits: its
/// hundreds, its tens and its units.
pub proof fn lemma_code_bytes_three_digits(n: nat)
    requires
        n < 1000,
    ensures
        code_bytes(n) == seq![digit(n / 100), digit((n / 10) % 10), digit(n % 10)],
        code_bytes(n).len() == 3,
{
    reveal_with_fuel(decimal, 3);
    assert(code_bytes(n) =~= seq![digit(n / 100), digit((n / 10) % 10), digit(n % 10)]);
}

/// Appends `n` in decimal.
fn push_decimal(out: &mut Vec<u8>, n: usize)
    ensures
        final(out)@ == old(out)@ + decimal(n as nat),
    decreases n,
{
    if n >= 10 {
        push_decimal(out, n / 10);
    }
    out.push(0x30 + (n % 10) as u8);
    assert(out@ =~= old(out)@ + decimal(n as nat));
}

/// The number of digits of `n` in decimal.
fn decimal_len(n: usize) -> (r: usize)
    ensures
        r == decimal(n as nat).len(),
        1 <= r,
        n >= 10 ==> r <= n,
    decreases n,
{
    if n < 10 {
        1
    } else {
        decimal_len(n / 10) + 1
    }
}

/// Appends a numeric code, padded to three digits.
fn push_code(out: &mut Vec<u8>, code: usize)
    ensures
        final(out)@ == old(out)@ + code_bytes(code as nat),
{
    if code < 100 {
        out.push(0x30);
    }
    if code < 10 {
        out.push(0x30);
    }
    push_decimal(out, code);
    assert(out@ =~= old(out)@ + code_bytes(code as nat));
}

/// Appends the opening of a CTCP message.
fn push_ctcp_head(out: &mut Vec<u8>, verb: &[u8], dst: &[u8], keyword: &[u8])
    ensures
        final(out)@ == old(out)@ + ctcp_head(verb@, dst@, keyword@),
{
    push_all(out, verb);
    out.push(SPACE);
    push_all(out, dst);
    out.push(SPACE);
    out.push(COLON);
    out.push(CTCP_DELIM);
    push_all(out, keyword);
    assert(out@ =~= old(out)@ + ctcp_head(verb@, dst@, keyword@));
}

/// The length of the opening of a CTCP message.
fn ctcp_head_len(verb: &[u8], dst: &[u8], keyword: &[u8]) -> (r: Option<usize>)
    ensures
        fits(r, ctcp_head(verb@, dst@, keyword@).len() as int),
{
    let ghost v: int = verb@.len() as int;
    let ghost d: int = dst@.len() as int;
    let n = Some(verb.len());
    assert(fits(n, v));
    let n = plus(n, 1);
    assert(fits(n, v + 1));
    let n = plus(n, dst.len());
    assert(fits(n, v + 1 + d));
    let n = plus(n, 3);
    assert(fits(n, v + 1 + d + 3));
    plus(n, keyword.len())
}

/// The bytes of `PRIVMSG`.
pub fn privmsg_bytes() -> (r: &'static [u8])
    ensures
        r@ == privmsg(),
{
    let r = "PRIVMSG".as_bytes();
    proof {
        reveal_strlit("PRIVMSG");
        vstd::utf8::is_ascii_chars_encode_utf8("PRIVMSG"@);
        assert(r@ =~= privmsg());
    }
    r
}

/// The bytes of `NOTICE`.
pub fn notice_bytes() -> (r: &'static [u8])
    ensures
        r@ == notice(),
{
    let r = "NOTICE".as_bytes();
    proof {
        reveal_strlit("NOTICE");
        vstd::utf8::is_ascii_chars_encode_utf8("NOTICE"@);
        assert(r@ =~= notice());
    }
    r
}

/// The bytes of `ACTION`.
pub fn action_bytes() -> (r: &'static [u8])
    ensures
        r@ == action(),
{
    let r = "ACTION".as_bytes();
    proof {
        reveal_strlit("ACTION");
        vstd::utf8::is_ascii_chars_encode_utf8("ACTION"@);
        assert(r@ =~= action());
    }
    r
}

/// The bytes of `PING`.
pub fn ping_bytes() -> (r: &'static [u8])
    ensures
        r@ == ping_verb(),
{
    let r = "PING".as_bytes();
    proof {
        reveal_strlit("PING");
        vstd::utf8::is_ascii_chars_encode_utf8("PING"@);
        assert(r@ =~= ping_verb());
    }
    r
}

/// The command `NICK`.
pub fn nick_command() -> (c: Command)
    ensures
        c@ == CommandView::IRCCmd(nick_verb()),
{
    let name = String::from_str("NICK");
    proof {
        reveal_strlit("NICK");
        vstd::utf8::is_ascii_chars_encode_utf8("NICK"@);
        assert(encode_utf8(name@) =~= nick_verb());
    }
    Command::IRCCmd(name)
}

/// The command `QUIT`.
pub fn quit_command() -> (c: Command)
    ensures
        c@ == CommandView::IRCCmd(quit_verb()),
{
    let name = String::from_str("QUIT");
    proof {
        reveal_strlit("QUIT");
        vstd::utf8::is_ascii_chars_encode_utf8("QUIT"@);
        assert(encode_utf8(name@) =~= quit_verb());
    }
    Command::IRCCmd(name)
}

/// The command `PONG`.
pub fn pong_command() -> (c: Command)
    ensures
        c@ == CommandView::IRCCmd(pong_verb()),
{
    let name = String::from_str("PONG");
    proof {
        reveal_strlit("PONG");
        vstd::utf8::is_ascii_chars_encode_utf8("PONG"@);
        assert(encode_utf8(name@) =~= pong_verb());
    }
    Command::IRCCmd(name)
}

impl Command {
    /// Returns true if the command is a CTCP command.
    pub fn is_ctcp(&self) -> (r: bool)
        ensures
            r == self@.is_ctcp(),
    {
        match self {
            Command::IRCAction(_) | Command::IRCCTCP(_, _) | Command::IRCCTCPReply(_, _) => true,
            _ => false,
        }
    }

    /// The length of the bytes that a line holds for the command itself,
    /// or `None` where it does not fit a `usize`.
    pub fn head_len(&self) -> (r: Option<usize>)
        ensures
            fits(r, self@.head().len() as int),
    {
        match self {
            Command::IRCCmd(name) => Some(name.as_str().as_bytes().len()),
            Command::IRCCode(code) => {
                if *code < 1000 {
                    proof {
                        lemma_code_bytes_three_digits(*code as nat);
                    }
                    Some(3)
                } else {
                    Some(decimal_len(*code))
                }
            },
            Command::IRCAction(dst) => ctcp_head_len(privmsg_bytes(), dst.as_slice(), action_bytes()),
            Command::IRCCTCP(keyword, dst) => ctcp_head_len(
                privmsg_bytes(),
                dst.as_slice(),
                keyword.as_slice(),
            ),
            Command::IRCCTCPReply(keyword, dst) => ctcp_head_len(
                notice_bytes(),
                dst.as_slice(),
                keyword.as_slice(),
            ),
        }
    }

    /// Appends the bytes that a line holds for the command itself.
    pub fn push_head(&self, out: &mut Vec<u8>)
        ensures
            final(out)@ == old(out)@ + self@.head(),
    {
        match self {
            Command::IRCCmd(name) => push_all(out, name.as_str().as_bytes()),
            Command::IRCCode(code) => push_code(out, *code),
            Command::IRCAction(dst) => push_ctcp_head(
                out,
                privmsg_bytes(),
                dst.as_slice(),
                action_bytes(),
            ),
            Command::IRCCTCP(keyword, dst) => push_ctcp_head(
                out,
                privmsg_bytes(),
                dst.as_slice(),
                keyword.as_slice(),
            ),
            Command::IRCCTCPReply(keyword, dst) => push_ctcp_head(
                out,
                notice_bytes(),
                dst.as_slice(),
                keyword.as_slice(),
            ),
        }
    }
}

} // verus!
