//! Reading a line from its bytes.

use crate::conn::command::{action, action_bytes, notice, notice_bytes, privmsg, privmsg_bytes};
use crate::conn::command::{Command, CommandView};
use crate::conn::line::{Line, LineView};
use crate::text::{byte_strings, bytes_eq, find_byte, first_index, lemma_first_index, CTCP_DELIM, COLON, SPACE};
use vstd::prelude::*;
use vstd::slice::{slice_subrange, slice_to_vec};
use vstd::string::StringExecFns;
use vstd::utf8::{encode_utf8, valid_utf8};

verus! {

/// Whether `b` is an ASCII digit.
pub open spec fn is_digit(b: u8) -> bool {
    0x30 <= b <= 0x39
}

/// Whether `b` is an ASCII letter.
pub open spec fn is_alpha(b: u8) -> bool {
    (0x41 <= b <= 0x5a) || (0x61 <= b <= 0x7a)
}

/// Whether a command token is a numeric code: exactly three digits.
pub open spec fn is_code_token(t: Seq<u8>) -> bool {
    t.len() == 3 && is_digit(t[0]) && is_digit(t[1]) && is_digit(t[2])
}

/// The number that three digits spell.
pub open spec fn code_value(t: Seq<u8>) -> nat {
    ((t[0] - 0x30) * 100 + (t[1] - 0x30) * 10 + (t[2] - 0x30)) as nat
}

/// Whether a command token is a verb: at least one byte, all of them
/// letters.
pub open spec fn is_verb_token(t: Seq<u8>) -> bool {
    t.len() > 0 && forall|i: int| 0 <= i < t.len() ==> is_alpha(#[trigger] t[i])
}

/// What follows the first space of `s`: nothing where `s` holds no space.
pub open spec fn after_space(s: Seq<u8>) -> Seq<u8> {
    let k = first_index(s, SPACE);
    if k < s.len() {
        s.skip(k + 1)
    } else {
        Seq::empty()
    }
}

/// The arguments that `s` holds. They are separated by single spaces, but
/// one that begins with a colon takes the whole remainder, spaces
/// included, without the colon.
pub open spec fn split_args(s: Seq<u8>) -> Seq<Seq<u8>>
    decreases s.len(),
{
    if s.len() == 0 {
        Seq::empty()
    } else if s[0] == COLON {
        seq![s.skip(1)]
    } else {
        proof {
            lemma_first_index(s, SPACE);
        }
        seq![s.take(first_index(s, SPACE))] + split_args(after_space(s))
    }
}

/// Whether a line with this verb and these arguments carries CTCP: the
/// verb is `PRIVMSG` or `NOTICE`, there are at least two arguments, and
/// the last begins with the delimiter.
pub open spec fn carries_ctcp(verb: Seq<u8>, args: Seq<Seq<u8>>) -> bool {
    &&& verb == privmsg() || verb == notice()
    &&& args.len() >= 2
    &&& args.last().len() > 0
    &&& args.last()[0] == CTCP_DELIM
}

/// The payload inside a CTCP argument `t`, which begins with the
/// delimiter. A delimiter at the end is dropped too, but its absence is
/// tolerated.
pub open spec fn ctcp_payload(t: Seq<u8>) -> Seq<u8> {
    if t.len() > 1 && t.last() == CTCP_DELIM {
        t.subrange(1, t.len() - 1)
    } else {
        t.skip(1)
    }
}

/// The command of a CTCP line with this verb, destination and keyword.
pub open spec fn ctcp_command(verb: Seq<u8>, dst: Seq<u8>, keyword: Seq<u8>) -> CommandView {
    if verb == privmsg() {
        if keyword == action() {
            CommandView::IRCAction(dst)
        } else {
            CommandView::IRCCTCP(keyword, dst)
        }
    } else {
        CommandView::IRCCTCPReply(keyword, dst)
    }
}

/// The arguments of a CTCP line: what follows the keyword's space, as one
/// argument, or none where the payload holds no space.
pub open spec fn ctcp_args(payload: Seq<u8>) -> Seq<Seq<u8>> {
    if first_index(payload, SPACE) < payload.len() {
        seq![after_space(payload)]
    } else {
        Seq::empty()
    }
}

/// The line with the verb `verb` and the arguments `args`, told apart into
/// a plain command and the CTCP forms.
pub open spec fn verb_line(prefix: Option<Seq<u8>>, verb: Seq<u8>, args: Seq<Seq<u8>>) -> LineView {
    if carries_ctcp(verb, args) {
        let payload = ctcp_payload(args.last());
        let keyword = payload.take(first_index(payload, SPACE));
        LineView {
            prefix,
            command: ctcp_command(verb, args[0], keyword),
            args: ctcp_args(payload),
        }
    } else {
        LineView { prefix, command: CommandView::IRCCmd(verb), args }
    }
}

/// What `s`, a line without its prefix, parses to. The command token runs
/// to the first space; the arguments follow it.
pub open spec fn parse_message(prefix: Option<Seq<u8>>, s: Seq<u8>) -> Option<LineView> {
    let token = s.take(first_index(s, SPACE));
    let args = split_args(after_space(s));
    if is_code_token(token) {
        Some(LineView { prefix, command: CommandView::IRCCode(code_value(token)), args })
    } else if is_verb_token(token) {
        Some(verb_line(prefix, token, args))
    } else {
        None
    }
}

/// What a raw line parses to, or `None` where it is rejected. A line that
/// begins with a colon has a prefix, which runs to the first space and
/// must be followed by one.
pub open spec fn parse_spec(raw: Seq<u8>) -> Option<LineView> {
    if raw.len() > 0 && raw[0] == COLON {
        let k = first_index(raw, SPACE);
        if k < raw.len() {
            parse_message(Some(raw.subrange(1, k)), raw.skip(k + 1))
        } else {
            None
        }
    } else {
        parse_message(None, raw)
    }
}

/// The command token of a raw line: what stands behind the prefix, if
/// there is one, up to the next space. There is none where a prefix is
/// opened and never ended.
pub open spec fn command_token(raw: Seq<u8>) -> Option<Seq<u8>> {
    if raw.len() > 0 && raw[0] == COLON {
        let k = first_index(raw, SPACE);
        if k < raw.len() {
            let s = raw.skip(k + 1);
            Some(s.take(first_index(s, SPACE)))
        } else {
            None
        }
    } else {
        Some(raw.take(first_index(raw, SPACE)))
    }
}

/// A line is accepted exactly when it has a command token that is three
/// digits or all letters.
pub proof fn lemma_accepts(raw: Seq<u8>)
    ensures
        parse_spec(raw) is Some <==> (command_token(raw) matches Some(t) && (is_code_token(t)
            || is_verb_token(t))),
{
}

/// No command token is accepted that is empty, that holds a byte outside
/// ASCII, or that holds a letter beside a digit.
pub proof fn lemma_bad_token(t: Seq<u8>)
    requires
        ({
            ||| t.len() == 0
            ||| exists|i: int| 0 <= i < t.len() && t[i] >= 0x80
            ||| exists|i: int, j: int|
                0 <= i < t.len() && 0 <= j < t.len() && is_alpha(t[i]) && is_digit(t[j])
        }),
    ensures
        !is_code_token(t),
        !is_verb_token(t),
{
    if t.len() == 0 {
    } else if exists|i: int| 0 <= i < t.len() && t[i] >= 0x80 {
        let i = choose|i: int| 0 <= i < t.len() && t[i] >= 0x80;
        assert(!is_alpha(t[i]) && !is_digit(t[i]));
    } else {
        let (i, j) = choose|i: int, j: int|
            0 <= i < t.len() && 0 <= j < t.len() && is_alpha(t[i]) && is_digit(t[j]);
        assert(!is_digit(t[i]));
        assert(!is_alpha(t[j]));
    }
}

/// A line that begins with a space is rejected: its command token is
/// empty.
pub proof fn lemma_rejects_leading_space(raw: Seq<u8>)
    requires
        raw.len() > 0,
        raw[0] == SPACE,
    ensures
        parse_spec(raw) is None,
{
    assert(first_index(raw, SPACE) == 0);
}

/// A line with two spaces behind its prefix is rejected: its command
/// token is empty.
pub proof fn lemma_rejects_empty_token(prefix: Seq<u8>, rest: Seq<u8>)
    requires
        first_index(prefix, SPACE) >= prefix.len(),
    ensures
        parse_spec(seq![COLON] + prefix + seq![SPACE, SPACE] + rest) is None,
{
    let raw = seq![COLON] + prefix + seq![SPACE, SPACE] + rest;
    let lead = seq![COLON] + prefix;
    lemma_first_index(prefix, SPACE);
    lemma_first_index(lead, SPACE);
    let k = first_index(lead, SPACE);
    if k < lead.len() {
        assert(lead[k] == SPACE);
        assert(prefix[k - 1] == lead[k]);
    }
    assert(raw =~= lead + seq![SPACE] + (seq![SPACE] + rest));
    crate::text::lemma_first_index_behind(lead, SPACE, seq![SPACE] + rest);
    let s = raw.skip(lead.len() as int + 1);
    assert(s[0] == SPACE);
    assert(first_index(s, SPACE) == 0);
}

/// The view of an optional line.
pub open spec fn option_line_view(line: Option<Line>) -> Option<LineView> {
    match line {
        Some(l) => Some(l@),
        None => None,
    }
}

/// `std::str::from_utf8`: the bytes as a string slice, or `None` where
/// they are rejected. It accepts exactly the valid UTF-8 encodings, and
/// the slice that it returns is made of the bytes it was given.
#[verifier::external_body]
fn str_from_utf8(bytes: &[u8]) -> (r: Option<&str>)
    ensures
        r is Some <==> valid_utf8(bytes@),
        r matches Some(s) ==> encode_utf8(s@) == bytes@,
{
    match std::str::from_utf8(bytes) {
        Ok(s) => Some(s),
        Err(_) => None,
    }
}

/// Bytes below `0x80` are valid UTF-8.
proof fn lemma_ascii_is_utf8(t: Seq<u8>)
    requires
        forall|i: int| 0 <= i < t.len() ==> t[i] < 0x80,
    ensures
        valid_utf8(t),
{
    let chars = Seq::new(t.len(), |i: int| t[i] as char);
    assert(vstd::utf8::is_ascii_chars(chars));
    vstd::utf8::is_ascii_chars_encode_utf8(chars);
    assert(encode_utf8(chars) =~= t);
    vstd::utf8::encode_utf8_valid_utf8(chars);
}

/// What is left of `v` behind position `k`, or nothing where `k` is its
/// end.
fn rest_after<'a>(v: &'a [u8], k: usize) -> (r: &'a [u8])
    requires
        k == first_index(v@, SPACE),
    ensures
        r@ == after_space(v@),
{
    proof {
        lemma_first_index(v@, SPACE);
    }
    if k < v.len() {
        slice_subrange(v, k + 1, v.len())
    } else {
        slice_subrange(v, k, k)
    }
}

/// Splits `s` into its arguments.
fn split(s: &[u8]) -> (args: Vec<Vec<u8>>)
    ensures
        byte_strings(args@) == split_args(s@),
{
    let mut args: Vec<Vec<u8>> = Vec::new();
    let mut v: &[u8] = s;
    assert(byte_strings(args@) + split_args(v@) =~= split_args(s@));
    while v.len() > 0
        invariant
            byte_strings(args@) + split_args(v@) == split_args(s@),
        decreases v@.len(),
    {
        let ghost before = byte_strings(args@);
        if v[0] == COLON {
            let last = slice_subrange(v, 1, v.len());
            args.push(slice_to_vec(last));
            assert(byte_strings(args@) =~= before + split_args(v@));
            assert(byte_strings(args@) =~= split_args(s@));
            return args;
        }
        let k = find_byte(v, SPACE);
        proof {
            lemma_first_index(v@, SPACE);
        }
        args.push(slice_to_vec(slice_subrange(v, 0, k)));
        let next = rest_after(v, k);
        assert(byte_strings(args@) =~= before + seq![v@.take(k as int)]);
        assert(byte_strings(args@) + split_args(next@) =~= before + split_args(v@));
        v = next;
    }
    assert(byte_strings(args@) =~= split_args(s@));
    args
}

/// Whether every byte of `t` is a letter.
fn all_alpha(t: &[u8]) -> (r: bool)
    ensures
        r == (forall|i: int| 0 <= i < t@.len() ==> is_alpha(#[trigger] t@[i])),
{
    let mut i: usize = 0;
    while i < t.len()
        invariant
            i <= t@.len(),
            forall|j: int| 0 <= j < i ==> is_alpha(#[trigger] t@[j]),
        decreases t@.len() - i,
    {
        let b = t[i];
        if !((0x41 <= b && b <= 0x5a) || (0x61 <= b && b <= 0x7a)) {
            return false;
        }
        i += 1;
    }
    true
}

/// Whether `b` is an ASCII digit.
fn digit_byte(b: u8) -> (r: bool)
    ensures
        r == is_digit(b),
{
    0x30 <= b && b <= 0x39
}

/// The line that a verb and its arguments make, with CTCP told apart.
fn verb_to_line(prefix: Option<Vec<u8>>, verb: &[u8], name: String, args: Vec<Vec<u8>>) -> (line:
    Line)
    requires
        encode_utf8(name@) == verb@,
    ensures
        line@ == verb_line(
            match prefix {
                Some(p) => Some(p@),
                None => None,
            },
            verb@,
            byte_strings(args@),
        ),
{
    let is_privmsg = bytes_eq(verb, privmsg_bytes());
    let n = args.len();
    if (is_privmsg || bytes_eq(verb, notice_bytes())) && n > 1 && args[n - 1].len() > 0 && args[n
        - 1][0] == CTCP_DELIM {
        let text = args[n - 1].as_slice();
        let payload = if text.len() > 1 && text[text.len() - 1] == CTCP_DELIM {
            slice_subrange(text, 1, text.len() - 1)
        } else {
            slice_subrange(text, 1, text.len())
        };
        assert(payload@ == ctcp_payload(byte_strings(args@).last()));
        let dst = slice_to_vec(args[0].as_slice());
        let k = find_byte(payload, SPACE);
        let keyword = slice_subrange(payload, 0, k);
        let mut rest: Vec<Vec<u8>> = Vec::new();
        if k < payload.len() {
            rest.push(slice_to_vec(rest_after(payload, k)));
        }
        assert(byte_strings(rest@) =~= ctcp_args(payload@));
        let command = if is_privmsg {
            if bytes_eq(keyword, action_bytes()) {
                Command::IRCAction(dst)
            } else {
                Command::IRCCTCP(slice_to_vec(keyword), dst)
            }
        } else {
            Command::IRCCTCPReply(slice_to_vec(keyword), dst)
        };
        Line { prefix, command, args: rest }
    } else {
        Line { prefix, command: Command::IRCCmd(name), args }
    }
}

/// Parses a line without its prefix.
fn parse_rest(prefix: Option<Vec<u8>>, s: &[u8]) -> (r: Option<Line>)
    ensures
        option_line_view(r) == parse_message(
            match prefix {
                Some(p) => Some(p@),
                None => None,
            },
            s@,
        ),
{
    let k = find_byte(s, SPACE);
    let token = slice_subrange(s, 0, k);
    let tail = rest_after(s, k);
    if token.len() == 3 && digit_byte(token[0]) && digit_byte(token[1]) && digit_byte(token[2]) {
        let hundreds: usize = (token[0] - 0x30) as usize;
        let tens: usize = (token[1] - 0x30) as usize;
        let units: usize = (token[2] - 0x30) as usize;
        let code: usize = hundreds * 100 + tens * 10 + units;
        Some(Line { prefix, command: Command::IRCCode(code), args: split(tail) })
    } else if token.len() > 0 && all_alpha(token) {
        proof {
            lemma_ascii_is_utf8(token@);
        }
        match str_from_utf8(token) {
            Some(name) => Some(verb_to_line(prefix, token, String::from_str(name), split(tail))),
            None => None,
        }
    } else {
        None
    }
}

impl Line {
    /// Parse a line into a Line struct.
    ///
    /// The line is given without its terminator. `None` is returned for a
    /// line that opens a prefix and never ends it, and for one whose
    /// command token is neither three digits nor all letters.
    pub fn parse(v: &[u8]) -> (r: Option<Line>)
        ensures
            option_line_view(r) == parse_spec(v@),
    {
        if v.len() > 0 && v[0] == COLON {
            let k = find_byte(v, SPACE);
            proof {
                lemma_first_index(v@, SPACE);
            }
            if k < v.len() {
                let prefix = slice_to_vec(slice_subrange(v, 1, k));
                parse_rest(Some(prefix), slice_subrange(v, k + 1, v.len()))
            } else {
                None
            }
        } else {
            parse_rest(None, v)
        }
    }
}

} // verus!
