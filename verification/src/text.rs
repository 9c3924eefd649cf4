//! Byte strings: searching, comparing and bounded appending.

use vstd::prelude::*;

verus! {

/// The space that separates the parts of a line.
pub const SPACE: u8 = 0x20;

/// The colon that introduces a prefix or a trailing argument.
pub const COLON: u8 = 0x3a;

/// The delimiter that encloses a CTCP payload.
pub const CTCP_DELIM: u8 = 0x01;

/// The byte strings that a list holds, in its order.
pub open spec fn byte_strings(list: Seq<Vec<u8>>) -> Seq<Seq<u8>> {
    Seq::new(list.len(), |i: int| list[i]@)
}

/// The position of the first `b` in `s`, or `s.len()` where `s` holds none.
pub open spec fn first_index(s: Seq<u8>, b: u8) -> int
    decreases s.len(),
{
    if s.len() == 0 || s[0] == b {
        0
    } else {
        1 + first_index(s.skip(1), b)
    }
}

/// Whether `b` occurs in `s`.
pub open spec fn has_byte(s: Seq<u8>, b: u8) -> bool {
    first_index(s, b) < s.len()
}

/// `first_index` stays within the sequence, nothing before it is `b`, and
/// the byte at it is `b` whenever it points into the sequence.
pub proof fn lemma_first_index(s: Seq<u8>, b: u8)
    ensures
        0 <= first_index(s, b) <= s.len(),
        forall|i: int| 0 <= i < first_index(s, b) ==> s[i] != b,
        first_index(s, b) < s.len() ==> s[first_index(s, b)] == b,
    decreases s.len(),
{
    if s.len() == 0 || s[0] == b {
    } else {
        let t = s.skip(1);
        lemma_first_index(t, b);
        assert forall|i: int| 0 <= i < first_index(s, b) implies s[i] != b by {
            if i > 0 {
                assert(t[i - 1] == s[i]);
            }
        }
    }
}

/// A position with the properties of `lemma_first_index` is `first_index`.
pub proof fn lemma_first_index_is(s: Seq<u8>, b: u8, k: int)
    requires
        0 <= k <= s.len(),
        forall|i: int| 0 <= i < k ==> s[i] != b,
        k < s.len() ==> s[k] == b,
    ensures
        first_index(s, b) == k,
{
    lemma_first_index(s, b);
    let f = first_index(s, b);
    if f < k {
        assert(s[f] == b);
    } else if k < f {
        assert(s[k] == b);
    }
}

/// `b` occurs in `s` exactly when some position of `s` holds it.
pub proof fn lemma_has_byte(s: Seq<u8>, b: u8)
    ensures
        has_byte(s, b) <==> exists|i: int| 0 <= i < s.len() && s[i] == b,
{
    lemma_first_index(s, b);
    if has_byte(s, b) {
        assert(s[first_index(s, b)] == b);
    }
}

/// In `a` followed by `b` and anything else, the first `b` is the one behind
/// `a`, where `a` holds none.
pub proof fn lemma_first_index_behind(a: Seq<u8>, b: u8, rest: Seq<u8>)
    requires
        !has_byte(a, b),
    ensures
        first_index(a + seq![b] + rest, b) == a.len(),
        (a + seq![b] + rest).take(a.len() as int) == a,
        (a + seq![b] + rest).skip(a.len() as int + 1) == rest,
{
    let s = a + seq![b] + rest;
    lemma_first_index(a, b);
    assert forall|i: int| 0 <= i < a.len() implies s[i] != b by {
        assert(s[i] == a[i]);
    }
    lemma_first_index_is(s, b, a.len() as int);
    assert(s.take(a.len() as int) =~= a);
    assert(s.skip(a.len() as int + 1) =~= rest);
}

/// Whether `r` stands for the length `n`: it holds `n`, or it is `None`
/// and `n` does not fit a `usize`.
pub open spec fn fits(r: Option<usize>, n: int) -> bool {
    match r {
        Some(k) => k == n,
        None => n > usize::MAX,
    }
}

/// The sum of `b` and a length that may not fit a `usize`.
pub open spec fn sum(a: Option<usize>, b: usize) -> Option<usize> {
    match a {
        Some(x) => if x + b > usize::MAX {
            None
        } else {
            Some((x + b) as usize)
        },
        None => None,
    }
}

/// Adds `b` to a length that may not fit a `usize`: where `a` stands for
/// `n`, the result stands for `n + b`.
pub fn plus(a: Option<usize>, b: usize) -> (r: Option<usize>)
    ensures
        r == sum(a, b),
{
    match a {
        Some(x) => x.checked_add(b),
        None => None,
    }
}

/// Adds two lengths of which either may not fit a `usize`.
pub fn plus_len(a: Option<usize>, b: Option<usize>) -> (r: Option<usize>)
    ensures
        r == match b {
            Some(n) => sum(a, n),
            None => None,
        },
{
    match b {
        Some(n) => plus(a, n),
        None => None,
    }
}

/// Finds the first `b` in `v`.
pub fn find_byte(v: &[u8], b: u8) -> (k: usize)
    ensures
        k == first_index(v@, b),
        k <= v@.len(),
{
    let mut i: usize = 0;
    while i < v.len() && v[i] != b
        invariant
            i <= v@.len(),
            forall|j: int| 0 <= j < i ==> v@[j] != b,
        decreases v@.len() - i,
    {
        i += 1;
    }
    proof {
        lemma_first_index_is(v@, b, i as int);
    }
    i
}

/// Compares two byte strings.
pub fn bytes_eq(a: &[u8], b: &[u8]) -> (r: bool)
    ensures
        r == (a@ == b@),
{
    if a.len() != b.len() {
        return false;
    }
    let mut i: usize = 0;
    while i < a.len()
        invariant
            i <= a@.len(),
            a@.len() == b@.len(),
            forall|j: int| 0 <= j < i ==> a@[j] == b@[j],
        decreases a@.len() - i,
    {
        if a[i] != b[i] {
            return false;
        }
        i += 1;
    }
    assert(a@ =~= b@);
    true
}

/// Appends all of `v` to `buf`.
pub fn push_all(buf: &mut Vec<u8>, v: &[u8])
    ensures
        final(buf)@ == old(buf)@ + v@,
{
    let ghost start = buf@;
    let mut i: usize = 0;
    while i < v.len()
        invariant
            i <= v@.len(),
            buf@ == start + v@.take(i as int),
        decreases v@.len() - i,
    {
        buf.push(v[i]);
        i += 1;
        assert(buf@ =~= start + v@.take(i as int));
    }
    assert(buf@ =~= start + v@);
}

/// Appends to `buf` as much of `v` as fits under `limit` bytes in all.
pub(crate) fn append_bounded(buf: &mut Vec<u8>, v: &[u8], limit: usize)
    requires
        old(buf)@.len() <= limit,
    ensures
        final(buf)@ == truncate(old(buf)@ + v@, limit as int),
{
    let ghost start = buf@;
    let mut i: usize = 0;
    while i < v.len() && buf.len() < limit
        invariant
            i <= v@.len(),
            buf@.len() <= limit,
            buf@ == start + v@.take(i as int),
        decreases v@.len() - i,
    {
        buf.push(v[i]);
        i += 1;
        assert(buf@ =~= start + v@.take(i as int));
    }
    assert(buf@ =~= truncate(start + v@, limit as int));
}

/// The first `limit` bytes of `s`, or all of `s` where it is shorter.
pub open spec fn truncate(s: Seq<u8>, limit: int) -> Seq<u8> {
    if s.len() <= limit {
        s
    } else {
        s.take(limit)
    }
}

/// Cutting after each part gives what cutting once at the end gives.
pub proof fn lemma_truncate_append(a: Seq<u8>, b: Seq<u8>, limit: int)
    requires
        0 <= limit,
    ensures
        truncate(truncate(a, limit) + b, limit) == truncate(a + b, limit),
{
    assert(truncate(truncate(a, limit) + b, limit) =~= truncate(a + b, limit));
}

} // verus!
