//! What parsing makes of a line that was written out.

use crate::conn::command::{action, code_bytes, ctcp_head, digit, notice, privmsg};
use crate::conn::command::{lemma_code_bytes_three_digits, CommandView};
use crate::conn::line::{args_bytes, joined, last_arg_bytes, prefix_bytes, LineView};
use crate::conn::parse::{
    after_space, carries_ctcp, code_value, ctcp_args, ctcp_command, ctcp_payload, is_alpha,
    is_code_token, is_digit, is_verb_token, parse_message, parse_spec, split_args, verb_line,
};
use crate::text::{
    first_index, has_byte, lemma_first_index, lemma_first_index_behind, CTCP_DELIM, COLON, SPACE,
};
use vstd::prelude::*;

verus! {

/// Whether `s` can stand as one word between spaces: it holds no space and
/// does not begin with a colon.
pub open spec fn is_word(s: Seq<u8>) -> bool {
    !has_byte(s, SPACE) && (s.len() > 0 ==> s[0] != COLON)
}

/// Whether `s` can stand as the last argument: it holds a space, and is
/// then written behind a colon, or it is a word that is not empty.
pub open spec fn is_last_arg(s: Seq<u8>) -> bool {
    has_byte(s, SPACE) || (s.len() > 0 && s[0] != COLON)
}

/// Whether the arguments of a plain line can be read back: all but the
/// last are words, and the last can stand last.
pub open spec fn plain_args(args: Seq<Seq<u8>>) -> bool {
    &&& forall|i: int| 0 <= i < args.len() - 1 ==> is_word(#[trigger] args[i])
    &&& args.len() > 0 ==> is_last_arg(args.last())
}

impl LineView {
    /// Whether the line is one that parsing gives back as it is.
    ///
    /// The prefix holds no space. A verb is made of letters, a code is
    /// below one thousand, and their arguments are as `plain_args` says.
    /// A plain `PRIVMSG` or `NOTICE` does not end in an argument that
    /// begins with the CTCP delimiter behind another one. A CTCP
    /// destination is a word, a CTCP keyword holds no space, the keyword
    /// of a request is not `ACTION`, and a CTCP line has at most one
    /// argument.
    pub open spec fn well_formed(self) -> bool {
        &&& self.prefix matches Some(p) ==> !has_byte(p, SPACE)
        &&& match self.command {
            CommandView::IRCCmd(name) => {
                &&& is_verb_token(name)
                &&& plain_args(self.args)
                &&& !carries_ctcp(name, self.args)
            },
            CommandView::IRCCode(code) => code < 1000 && plain_args(self.args),
            CommandView::IRCAction(dst) => is_word(dst) && self.args.len() <= 1,
            CommandView::IRCCTCP(keyword, dst) => {
                &&& is_word(dst)
                &&& !has_byte(keyword, SPACE)
                &&& keyword != action()
                &&& self.args.len() <= 1
            },
            CommandView::IRCCTCPReply(keyword, dst) => {
                &&& is_word(dst)
                &&& !has_byte(keyword, SPACE)
                &&& self.args.len() <= 1
            },
        }
    }
}

/// `joined` taken from the front: the first argument behind its space, then
/// the others.
pub proof fn lemma_joined_front(args: Seq<Seq<u8>>)
    requires
        args.len() > 0,
    ensures
        joined(args) == seq![SPACE] + args[0] + joined(args.drop_first()),
    decreases args.len(),
{
    if args.len() == 1 {
        assert(joined(args.drop_last()) =~= Seq::empty());
        assert(joined(args.drop_first()) =~= Seq::empty());
        assert(joined(args) =~= seq![SPACE] + args[0] + joined(args.drop_first()));
    } else {
        let front = args.drop_last();
        let back = args.drop_first();
        lemma_joined_front(front);
        assert(front.drop_first() =~= back.drop_last());
        assert(back.last() == args.last());
        assert(joined(args) =~= seq![SPACE] + args[0] + joined(back));
    }
}

/// The arguments of a plain line taken from the front: the first one behind
/// its space, then the others, where there are others.
proof fn lemma_args_bytes_front(args: Seq<Seq<u8>>)
    requires
        args.len() > 1,
    ensures
        args_bytes(false, args) == seq![SPACE] + args[0] + args_bytes(false, args.drop_first()),
{
    let front = args.drop_last();
    let back = args.drop_first();
    lemma_joined_front(front);
    assert(front.drop_first() =~= back.drop_last());
    assert(back.last() == args.last());
    assert(args_bytes(false, args) =~= seq![SPACE] + args[0] + args_bytes(false, back));
}

/// Splitting what was written for the arguments of a plain line gives the
/// arguments.
proof fn lemma_split_plain(args: Seq<Seq<u8>>)
    requires
        plain_args(args),
        args.len() > 0,
    ensures
        args_bytes(false, args).len() > 0,
        args_bytes(false, args)[0] == SPACE,
        split_args(args_bytes(false, args).skip(1)) == args,
    decreases args.len(),
{
    let whole = args_bytes(false, args);
    if args.len() == 1 {
        let a = args[0];
        assert(args.drop_last().len() == 0);
        assert(whole =~= last_arg_bytes(a));
        lemma_first_index(a, SPACE);
        if has_byte(a, SPACE) {
            let s = whole.skip(1);
            assert(s =~= seq![COLON] + a);
            assert(s.skip(1) =~= a);
            assert(split_args(s) =~= seq![a]);
        } else {
            let s = whole.skip(1);
            assert(s =~= a);
            assert(s.take(first_index(s, SPACE)) =~= a);
            assert(after_space(s).len() == 0);
            assert(split_args(s) =~= seq![a] + split_args(after_space(s)));
        }
        assert(split_args(whole.skip(1)) =~= args);
    } else {
        let a = args[0];
        let back = args.drop_first();
        lemma_args_bytes_front(args);
        assert(plain_args(back)) by {
            assert forall|i: int| 0 <= i < back.len() - 1 implies is_word(#[trigger] back[i]) by {
                assert(back[i] == args[i + 1]);
            }
            assert(back.last() == args.last());
        }
        lemma_split_plain(back);
        let tail = args_bytes(false, back);
        let s = whole.skip(1);
        assert(is_word(a));
        assert(tail =~= seq![SPACE] + tail.skip(1));
        assert(s =~= a + seq![SPACE] + tail.skip(1));
        lemma_first_index_behind(a, SPACE, tail.skip(1));
        assert(s[0] != COLON);
        assert(after_space(s) == tail.skip(1));
        assert(split_args(s) =~= seq![a] + back);
        assert(seq![a] + back =~= args);
    }
}

/// A message that begins with a token without a space, followed by
/// nothing or by a space and more, has that token as its command token.
proof fn lemma_token(token: Seq<u8>, tail: Seq<u8>)
    requires
        !has_byte(token, SPACE),
        tail.len() > 0 ==> tail[0] == SPACE,
    ensures
        (token + tail).take(first_index(token + tail, SPACE)) == token,
        after_space(token + tail) == if tail.len() > 0 {
            tail.skip(1)
        } else {
            Seq::empty()
        },
{
    let s = token + tail;
    lemma_first_index(token, SPACE);
    if tail.len() > 0 {
        assert(s =~= token + seq![SPACE] + tail.skip(1));
        lemma_first_index_behind(token, SPACE, tail.skip(1));
    } else {
        assert(s =~= token);
        assert(s.take(first_index(s, SPACE)) =~= token);
    }
}

/// A verb holds no space and is no numeric code.
proof fn lemma_verb_token(name: Seq<u8>)
    requires
        is_verb_token(name),
    ensures
        !has_byte(name, SPACE),
        !is_code_token(name),
        name[0] != COLON,
{
    lemma_first_index(name, SPACE);
    assert(is_alpha(name[0]));
    if has_byte(name, SPACE) {
        assert(is_alpha(name[first_index(name, SPACE)]));
    }
}

/// The three digits of a code below one thousand spell it.
proof fn lemma_code_token(code: nat)
    requires
        code < 1000,
    ensures
        is_code_token(code_bytes(code)),
        code_value(code_bytes(code)) == code,
        !has_byte(code_bytes(code), SPACE),
        code_bytes(code)[0] != COLON,
{
    lemma_code_bytes_three_digits(code);
    let t = code_bytes(code);
    assert(t[0] == digit(code / 100));
    assert(t[1] == digit((code / 10) % 10));
    assert(t[2] == digit(code % 10));
    lemma_first_index(t, SPACE);
}

/// Parsing the message of a plain line that was written out gives the
/// line.
proof fn lemma_parse_plain(prefix: Option<Seq<u8>>, l: LineView)
    requires
        l.well_formed(),
        !l.command.is_ctcp(),
        l.prefix == prefix,
    ensures
        parse_message(prefix, l.command.head() + args_bytes(false, l.args)) == Some(l),
        l.command.head().len() > 0,
        l.command.head()[0] != COLON,
{
    let head = l.command.head();
    let tail = args_bytes(false, l.args);
    match l.command {
        CommandView::IRCCmd(name) => {
            lemma_verb_token(name);
        },
        CommandView::IRCCode(code) => {
            lemma_code_token(code);
        },
        _ => {},
    }
    if l.args.len() > 0 {
        lemma_split_plain(l.args);
    } else {
        assert(tail.len() == 0);
    }
    lemma_token(head, tail);
    let args = split_args(after_space(head + tail));
    assert(args =~= l.args);
    match l.command {
        CommandView::IRCCmd(name) => {
            assert(verb_line(prefix, name, args) == l);
        },
        _ => {},
    }
}

/// `PRIVMSG` and `NOTICE` are verbs, and differ.
proof fn lemma_ctcp_verbs()
    ensures
        is_verb_token(privmsg()),
        is_verb_token(notice()),
        privmsg() != notice(),
{
    assert(privmsg().len() == 7);
    assert(notice().len() == 6);
    assert forall|i: int| 0 <= i < privmsg().len() implies is_alpha(#[trigger] privmsg()[i]) by {
        if i == 0 {
        } else if i == 1 {
        } else if i == 2 {
        } else if i == 3 {
        } else if i == 4 {
        } else if i == 5 {
        } else {
        }
    }
    assert forall|i: int| 0 <= i < notice().len() implies is_alpha(#[trigger] notice()[i]) by {
        if i == 0 {
        } else if i == 1 {
        } else if i == 2 {
        } else if i == 3 {
        } else if i == 4 {
        } else {
        }
    }
}

/// A destination and a CTCP argument behind its colon split into the two.
proof fn lemma_split_ctcp(dst: Seq<u8>, text: Seq<u8>)
    requires
        is_word(dst),
    ensures
        split_args(dst + seq![SPACE] + (seq![COLON] + text)) == seq![dst, text],
{
    let marked = seq![COLON] + text;
    let behind = dst + seq![SPACE] + marked;
    lemma_first_index_behind(dst, SPACE, marked);
    assert(behind[0] != COLON) by {
        if dst.len() > 0 {
            assert(behind[0] == dst[0]);
        } else {
            assert(behind[0] == SPACE);
        }
    }
    assert(after_space(behind) == marked);
    assert(marked.skip(1) =~= text);
    assert(split_args(marked) =~= seq![text]);
    assert(split_args(behind) =~= seq![dst, text]);
}

/// A keyword and at most one argument are read back from the payload that
/// they make between two delimiters.
proof fn lemma_read_payload(keyword: Seq<u8>, args: Seq<Seq<u8>>)
    requires
        !has_byte(keyword, SPACE),
        args.len() <= 1,
    ensures
        ({
            let payload = keyword + joined(args);
            let text = seq![CTCP_DELIM] + payload + seq![CTCP_DELIM];
            &&& text.len() > 0
            &&& text[0] == CTCP_DELIM
            &&& ctcp_payload(text) == payload
            &&& payload.take(first_index(payload, SPACE)) == keyword
            &&& ctcp_args(payload) == args
        }),
{
    let payload = keyword + joined(args);
    let text = seq![CTCP_DELIM] + payload + seq![CTCP_DELIM];
    assert(text.last() == CTCP_DELIM);
    assert(ctcp_payload(text) =~= payload);
    if args.len() == 0 {
        assert(payload =~= keyword);
        lemma_first_index(keyword, SPACE);
        assert(payload.take(first_index(payload, SPACE)) =~= keyword);
        assert(ctcp_args(payload) =~= args);
    } else {
        let a = args[0];
        assert(joined(args.drop_last()) =~= Seq::empty());
        assert(args.last() == a);
        assert(joined(args) =~= seq![SPACE] + a);
        assert(payload =~= keyword + seq![SPACE] + a);
        lemma_first_index_behind(keyword, SPACE, a);
        assert(after_space(payload) == a);
        assert(ctcp_args(payload) =~= args);
    }
}

/// Parsing the message of a CTCP line that was written out gives the line.
proof fn lemma_parse_ctcp(
    prefix: Option<Seq<u8>>,
    l: LineView,
    verb: Seq<u8>,
    dst: Seq<u8>,
    keyword: Seq<u8>,
)
    requires
        l.command.is_ctcp(),
        l.args.len() <= 1,
        l.prefix == prefix,
        is_verb_token(verb),
        verb == privmsg() || verb == notice(),
        l.command == ctcp_command(verb, dst, keyword),
        l.command.head() == ctcp_head(verb, dst, keyword),
        is_word(dst),
        !has_byte(keyword, SPACE),
    ensures
        parse_message(prefix, l.command.head() + args_bytes(true, l.args)) == Some(l),
        l.command.head().len() > 0,
        l.command.head()[0] != COLON,
{
    lemma_verb_token(verb);
    let payload = keyword + joined(l.args);
    let text = seq![CTCP_DELIM] + payload + seq![CTCP_DELIM];
    let behind = dst + seq![SPACE] + (seq![COLON] + text);
    let s = l.command.head() + args_bytes(true, l.args);
    assert(s =~= verb + (seq![SPACE] + behind));
    lemma_token(verb, seq![SPACE] + behind);
    assert((seq![SPACE] + behind).skip(1) =~= behind);
    assert(after_space(s) == behind);
    lemma_split_ctcp(dst, text);
    lemma_read_payload(keyword, l.args);
    let args = split_args(behind);
    assert(args.last() == text);
    assert(args[0] == dst);
    assert(carries_ctcp(verb, args));
    assert(verb_line(prefix, verb, args) == l);
    assert(l.command.head()[0] == verb[0]);
}

/// Parsing the message of a line that was written out gives the line.
proof fn lemma_parse_message(prefix: Option<Seq<u8>>, l: LineView)
    requires
        l.well_formed(),
        l.prefix == prefix,
    ensures
        parse_message(prefix, l.command.head() + args_bytes(l.command.is_ctcp(), l.args)) == Some(
            l,
        ),
        l.command.head().len() > 0,
        l.command.head()[0] != COLON,
{
    match l.command {
        CommandView::IRCAction(dst) => {
            lemma_ctcp_verbs();
            lemma_action_word();
            lemma_parse_ctcp(prefix, l, privmsg(), dst, action());
        },
        CommandView::IRCCTCP(keyword, dst) => {
            lemma_ctcp_verbs();
            lemma_parse_ctcp(prefix, l, privmsg(), dst, keyword);
        },
        CommandView::IRCCTCPReply(keyword, dst) => {
            lemma_ctcp_verbs();
            lemma_parse_ctcp(prefix, l, notice(), dst, keyword);
        },
        _ => {
            lemma_parse_plain(prefix, l);
        },
    }
}

/// `ACTION` holds no space.
proof fn lemma_action_word()
    ensures
        !has_byte(action(), SPACE),
{
    lemma_first_index(action(), SPACE);
    let k = first_index(action(), SPACE);
    assert(action().len() == 6);
    if k < 6 {
        if k == 0 {
        } else if k == 1 {
        } else if k == 2 {
        } else if k == 3 {
        } else if k == 4 {
        } else {
        }
    }
}

/// Parsing gives back every well-formed line that was written out.
pub proof fn lemma_parse_to_raw(l: LineView)
    requires
        l.well_formed(),
    ensures
        parse_spec(l.to_raw()) == Some(l),
{
    let message = l.command.head() + args_bytes(l.command.is_ctcp(), l.args);
    lemma_parse_message(l.prefix, l);
    let raw = l.to_raw();
    match l.prefix {
        Some(p) => {
            assert(raw =~= seq![COLON] + p + seq![SPACE] + message);
            let lead = seq![COLON] + p;
            lemma_first_index(p, SPACE);
            lemma_first_index(lead, SPACE);
            assert(!has_byte(lead, SPACE)) by {
                let k = first_index(lead, SPACE);
                if k < lead.len() {
                    assert(lead[k] == SPACE);
                    assert(k > 0);
                    assert(p[k - 1] == lead[k]);
                }
            }
            lemma_first_index_behind(lead, SPACE, message);
            assert(raw.subrange(1, lead.len() as int) =~= p);
        },
        None => {
            assert(raw =~= message);
            assert(raw[0] == l.command.head()[0]);
        },
    }
}

} // verus!
