//! The sender of a message: `nick!user@host`.

use crate::text::{
    bytes_eq, find_byte, first_index, has_byte, lemma_first_index, lemma_first_index_behind, push_all,
};
use vstd::prelude::*;
use vstd::slice::{slice_subrange, slice_to_vec};

verus! {

/// The mark before the user name.
pub const BANG: u8 = 0x21;

/// The mark before the host name.
pub const AT: u8 = 0x40;

/// Where the host mark stands in `raw`: at its first `@`, or at its end.
pub open spec fn at_index(raw: Seq<u8>) -> int {
    first_index(raw, AT)
}

/// Where the nickname ends in `raw`: at the first `!` before the host
/// mark, or at the host mark.
pub open spec fn bang_index(raw: Seq<u8>) -> int {
    first_index(raw.take(at_index(raw)), BANG)
}

/// The nickname in `raw`.
pub open spec fn nick_of(raw: Seq<u8>) -> Seq<u8> {
    raw.take(bang_index(raw))
}

/// The user name in `raw`: what stands between the `!` and the host mark.
pub open spec fn user_of(raw: Seq<u8>) -> Option<Seq<u8>> {
    if bang_index(raw) < at_index(raw) {
        Some(raw.subrange(bang_index(raw) + 1, at_index(raw)))
    } else {
        None
    }
}

/// The host name in `raw`: what follows the first `@`.
pub open spec fn host_of(raw: Seq<u8>) -> Option<Seq<u8>> {
    if at_index(raw) < raw.len() {
        Some(raw.skip(at_index(raw) + 1))
    } else {
        None
    }
}

/// A part behind its mark, or nothing.
pub open spec fn marked(mark: u8, part: Option<Seq<u8>>) -> Seq<u8> {
    match part {
        Some(p) => seq![mark] + p,
        None => Seq::empty(),
    }
}

/// `nick!user@host`, with the parts that are there.
pub open spec fn compose(nick: Seq<u8>, user: Option<Seq<u8>>, host: Option<Seq<u8>>) -> Seq<u8> {
    nick + marked(BANG, user) + marked(AT, host)
}

/// The view of an optional byte string.
pub open spec fn option_bytes(part: Option<&[u8]>) -> Option<Seq<u8>> {
    match part {
        Some(p) => Some(p@),
        None => None,
    }
}

/// The marks stay within `raw`, the `!` not behind the `@`.
pub proof fn lemma_marks(raw: Seq<u8>)
    ensures
        0 <= bang_index(raw) <= at_index(raw) <= raw.len(),
{
    lemma_first_index(raw, AT);
    lemma_first_index(raw.take(at_index(raw)), BANG);
}

/// The parts are read back from what was composed of them, where the
/// nickname holds neither mark and the user name no `@`.
pub proof fn lemma_compose_parts(nick: Seq<u8>, user: Option<Seq<u8>>, host: Option<Seq<u8>>)
    requires
        !has_byte(nick, BANG),
        !has_byte(nick, AT),
        user matches Some(u) ==> !has_byte(u, AT),
    ensures
        nick_of(compose(nick, user, host)) == nick,
        user_of(compose(nick, user, host)) == user,
        host_of(compose(nick, user, host)) == host,
{
    let raw = compose(nick, user, host);
    let lead = nick + marked(BANG, user);
    lemma_first_index(nick, AT);
    lemma_first_index(nick, BANG);
    lemma_first_index(lead, AT);
    assert(!has_byte(lead, AT)) by {
        let k = first_index(lead, AT);
        if k < lead.len() {
            if k < nick.len() {
                assert(lead[k] == nick[k]);
            } else {
                let u = user->0;
                lemma_first_index(u, AT);
                if k > nick.len() {
                    assert(lead[k] == u[k - nick.len() - 1]);
                }
            }
        }
    }
    // the host mark
    match host {
        Some(h) => {
            assert(raw =~= lead + seq![AT] + h);
            lemma_first_index_behind(lead, AT, h);
        },
        None => {
            assert(raw =~= lead);
        },
    }
    assert(at_index(raw) == lead.len());
    assert(raw.take(at_index(raw)) =~= lead);
    // the user mark
    match user {
        Some(u) => {
            assert(lead =~= nick + seq![BANG] + u);
            lemma_first_index_behind(nick, BANG, u);
            assert(raw.subrange(nick.len() as int + 1, lead.len() as int) =~= u);
        },
        None => {
            assert(lead =~= nick);
        },
    }
    assert(bang_index(raw) == nick.len());
    assert(raw.take(nick.len() as int) =~= nick);
}

/// A sender, kept as the bytes it was read from together with the places
/// of its parts.
#[derive(Debug)]
pub struct User {
    raw: Vec<u8>,
    nicklen: usize,
    user: Option<(usize, usize)>,
    host: Option<(usize, usize)>,
}

impl View for User {
    type V = Seq<u8>;

    /// The bytes `nick!user@host` that the sender was read from.
    closed spec fn view(&self) -> Seq<u8> {
        self.raw@
    }
}

impl User {
    /// The places of the parts are those of the marks in the bytes.
    #[verifier::type_invariant]
    spec fn places_agree(self) -> bool {
        let raw = self.raw@;
        &&& self.nicklen == bang_index(raw)
        &&& match self.user {
            Some((from, to)) => {
                &&& bang_index(raw) < at_index(raw)
                &&& from == bang_index(raw) + 1
                &&& to == at_index(raw)
            },
            None => bang_index(raw) >= at_index(raw),
        }
        &&& match self.host {
            Some((from, to)) => {
                &&& at_index(raw) < raw.len()
                &&& from == at_index(raw) + 1
                &&& to == raw.len()
            },
            None => at_index(raw) >= raw.len(),
        }
    }

    /// Reads a sender from `nick!user@host`, in which the user name and
    /// the host name may each be missing.
    pub fn parse(v: &[u8]) -> (r: User)
        ensures
            r@ == v@,
    {
        let raw = slice_to_vec(v);
        let at = find_byte(v, AT);
        let bang = find_byte(slice_subrange(v, 0, at), BANG);
        proof {
            lemma_marks(v@);
        }
        let user = if bang < at {
            Some((bang + 1, at))
        } else {
            None
        };
        let host = if at < v.len() {
            Some((at + 1, v.len()))
        } else {
            None
        };
        User { raw, nicklen: bang, user, host }
    }

    /// Makes a sender of its parts. The bytes composed of them are read
    /// anew, so that a mark inside the nickname counts as a mark.
    pub fn new(nick: &[u8], user: Option<&[u8]>, host: Option<&[u8]>) -> (r: User)
        ensures
            r@ == compose(nick@, option_bytes(user), option_bytes(host)),
    {
        let mut raw: Vec<u8> = Vec::new();
        push_all(&mut raw, nick);
        match user {
            Some(u) => {
                raw.push(BANG);
                push_all(&mut raw, u);
            },
            None => {},
        }
        assert(raw@ =~= nick@ + marked(BANG, option_bytes(user)));
        match host {
            Some(h) => {
                raw.push(AT);
                push_all(&mut raw, h);
            },
            None => {},
        }
        assert(raw@ =~= compose(nick@, option_bytes(user), option_bytes(host)));
        User::parse(raw.as_slice())
    }

    /// The bytes that the sender was read from.
    pub fn raw(&self) -> (r: &[u8])
        ensures
            r@ == self@,
    {
        self.raw.as_slice()
    }

    /// The nickname.
    pub fn nick(&self) -> (r: &[u8])
        ensures
            r@ == nick_of(self@),
    {
        proof {
            use_type_invariant(self);
            lemma_marks(self.raw@);
        }
        slice_subrange(self.raw.as_slice(), 0, self.nicklen)
    }

    /// The user name, if there is one.
    pub fn user(&self) -> (r: Option<&[u8]>)
        ensures
            option_bytes(r) == user_of(self@),
    {
        proof {
            use_type_invariant(self);
            lemma_marks(self.raw@);
        }
        match self.user {
            Some((a, b)) => Some(slice_subrange(self.raw.as_slice(), a, b)),
            None => None,
        }
    }

    /// The host name, if there is one.
    pub fn host(&self) -> (r: Option<&[u8]>)
        ensures
            option_bytes(r) == host_of(self@),
    {
        proof {
            use_type_invariant(self);
            lemma_marks(self.raw@);
        }
        match self.host {
            Some((a, b)) => Some(slice_subrange(self.raw.as_slice(), a, b)),
            None => None,
        }
    }

    /// The same sender under another nickname.
    pub fn with_nick(&self, nick: &[u8]) -> (r: User)
        ensures
            r@ == compose(nick@, user_of(self@), host_of(self@)),
    {
        User::new(nick, self.user(), self.host())
    }
}

impl Clone for User {
    fn clone(&self) -> (r: User)
        ensures
            r@ == self@,
    {
        User::parse(self.raw.as_slice())
    }
}

impl PartialEq for User {
    /// Two senders are equal when they were read from the same bytes.
    fn eq(&self, other: &User) -> (r: bool) {
        bytes_eq(self.raw.as_slice(), other.raw.as_slice())
    }
}

impl vstd::std_specs::cmp::PartialEqSpecImpl for User {
    open spec fn obeys_eq_spec() -> bool {
        true
    }

    open spec fn eq_spec(&self, other: &User) -> bool {
        self@ == other@
    }
}

impl Eq for User {

}

} // verus!
