//! Channel identifiers: the full form `agent.segment.features` and the
//! 128-bit short form that keys channels in memory.
use vstd::prelude::*;
use crate::crypto::{md5_of, md5_text};
use crate::error::MegaphoneError;

verus! {

/// The length of the plaintext segment of a consumer address.
pub const SEGMENT_LEN: usize = 50;

/// The index of the first `c` at or after `from`, or the length of `s`.
pub open spec fn find_char(s: Seq<char>, c: char, from: int) -> int
    decreases s.len() - from,
{
    if from >= s.len() {
        s.len() as int
    } else if s[from] == c {
        from
    } else {
        find_char(s, c, from + 1)
    }
}

/// The text before the first dot.
pub open spec fn first_segment(s: Seq<char>) -> Seq<char> {
    s.subrange(0, find_char(s, '.', 0))
}

/// Whether the text has a second dot-separated segment.
pub open spec fn has_second_segment(s: Seq<char>) -> bool {
    find_char(s, '.', 0) < s.len()
}

/// The text between the first dot and the next one (or the end).
pub open spec fn second_segment(s: Seq<char>) -> Seq<char> {
    let d = find_char(s, '.', 0);
    s.subrange(d + 1, find_char(s, '.', d + 1))
}

/// The value of big-endian bytes, as a 128-bit integer.
pub open spec fn be_u128(s: Seq<u8>) -> u128
    decreases s.len(),
{
    if s.len() == 0 {
        0
    } else {
        ((be_u128(s.drop_last()) << 8u128) | (s.last() as u128)) as u128
    }
}

/// The sixteen big-endian bytes of a 128-bit integer.
pub open spec fn u128_bytes(v: u128) -> Seq<u8> {
    Seq::new(16, |i: int| ((v >> ((120 - 8 * i) as u128)) & 0xffu128) as u8)
}

/// The short form of a plaintext segment: its MD5 digest, read big-endian.
pub open spec fn short_of_segment(seg: Seq<char>) -> u128 {
    be_u128(md5_text(seg))
}

/// The key of a channel in memory.
#[derive(Clone, Copy, Debug, PartialEq, Eq, Structural, Hash)]
pub struct ChannelShortId(pub u128);

proof fn lemma_find_char_bounds(s: Seq<char>, c: char, from: int)
    requires
        0 <= from <= s.len(),
    ensures
        from <= find_char(s, c, from) <= s.len(),
        find_char(s, c, from) < s.len() ==> s[find_char(s, c, from)] == c,
        forall|j: int| from <= j < find_char(s, c, from) ==> s[j] != c,
    decreases s.len() - from,
{
    if from < s.len() && s[from] != c {
        lemma_find_char_bounds(s, c, from + 1);
    }
}

/// The index of the first `c` at or after `from` in `s`, or its length.
pub fn find_char_in(s: &str, c: char, from: usize) -> (r: usize)
    requires
        from <= s@.len(),
    ensures
        r == find_char(s@, c, from as int),
{
    let n = s.unicode_len();
    let mut i: usize = from;
    proof {
        lemma_find_char_bounds(s@, c, from as int);
    }
    while i < n && s.get_char(i) != c
        invariant
            from <= i <= n,
            n == s@.len(),
            find_char(s@, c, i as int) == find_char(s@, c, from as int),
        decreases n - i,
    {
        i = i + 1;
    }
    i
}

/// The text before the first dot.
pub fn first_segment_of(s: &str) -> (r: &str)
    ensures
        r@ == first_segment(s@),
{
    proof {
        lemma_find_char_bounds(s@, '.', 0);
    }
    let d = find_char_in(s, '.', 0);
    s.substring_char(0, d)
}

/// The second dot-separated segment, none when there is no dot.
pub fn second_segment_of(s: &str) -> (r: Option<&str>)
    ensures
        r is Some <==> has_second_segment(s@),
        r matches Some(t) ==> t@ == second_segment(s@),
{
    proof {
        lemma_find_char_bounds(s@, '.', 0);
    }
    let d = find_char_in(s, '.', 0);
    if d >= s.unicode_len() {
        return None;
    }
    proof {
        lemma_find_char_bounds(s@, '.', d + 1);
    }
    let e = find_char_in(s, '.', d + 1);
    Some(s.substring_char(d + 1, e))
}

proof fn lemma_be_step(v: u128, k: u128)
    requires
        k <= 120,
        k % 8 == 0,
    ensures
        ((((v >> (k + 8)) << 8u128) | ((v >> k) & 0xffu128)) as u128) == v >> k,
{
    assert(((((v >> (k + 8)) << 8u128) | ((v >> k) & 0xffu128)) as u128) == v >> k)
        by (bit_vector)
        requires
            k <= 120,
    ;
}

proof fn lemma_u128_prefix(v: u128, i: int)
    requires
        1 <= i <= 16,
    ensures
        be_u128(u128_bytes(v).subrange(0, i)) == v >> ((128 - 8 * i) as u128),
    decreases i,
{
    let b = u128_bytes(v);
    let p = b.subrange(0, i);
    assert(be_u128(p) == ((be_u128(p.drop_last()) << 8u128) | (p.last() as u128)) as u128);
    if i == 1 {
        assert(p.drop_last() =~= Seq::<u8>::empty());
        assert(be_u128(p.drop_last()) == 0);
        assert(p.last() == ((v >> 120u128) & 0xffu128) as u8);
        assert((((0u128 << 8u128) | (((v >> 120u128) & 0xffu128) as u8 as u128)) as u128) == v
            >> 120u128) by (bit_vector);
    } else {
        lemma_u128_prefix(v, i - 1);
        let k = (120 - 8 * (i - 1)) as u128;
        assert(b.subrange(0, i).drop_last() =~= b.subrange(0, i - 1));
        assert(b.subrange(0, i).last() == b[i - 1]);
        assert((((v >> k) & 0xffu128) as u8 as u128) == ((v >> k) & 0xffu128)) by (bit_vector);
        lemma_be_step(v, k);
        assert((k + 8) as u128 == (128 - 8 * (i - 1)) as u128);
        assert(p.last() == ((v >> k) & 0xffu128) as u8);
        assert(be_u128(p.drop_last()) == v >> ((k + 8) as u128));
    }
}

/// Reading the sixteen big-endian bytes of a value gives the value back.
pub proof fn lemma_u128_bytes_round_trip(v: u128)
    ensures
        be_u128(u128_bytes(v)) == v,
{
    lemma_u128_prefix(v, 16);
    assert(u128_bytes(v).subrange(0, 16) =~= u128_bytes(v));
    assert(v >> 0u128 == v) by (bit_vector);
}

proof fn lemma_shift_step(v: u128, b: u8, k: u128)
    requires
        v >> 120u128 == 0,
        k <= 112,
    ensures
        (((v << 8u128) | (b as u128)) >> (k + 8)) & 0xffu128 == (v >> k) & 0xffu128,
        ((v << 8u128) | (b as u128)) & 0xffu128 == b as u128,
{
    assert((((v << 8u128) | (b as u128)) >> (k + 8)) & 0xffu128 == (v >> k) & 0xffu128) by (bit_vector)
        requires
            v >> 120u128 == 0,
            k <= 112,
    ;
    assert(((v << 8u128) | (b as u128)) & 0xffu128 == b as u128) by (bit_vector);
}

proof fn lemma_bound_step(v: u128, b: u8, k: u128)
    requires
        k <= 112,
        v >> k == 0,
    ensures
        ((v << 8u128) | (b as u128)) >> (k + 8) == 0,
{
    assert(((v << 8u128) | (b as u128)) >> (k + 8) == 0) by (bit_vector)
        requires
            k <= 112,
            v >> k == 0,
    ;
}

proof fn lemma_be_prefix(p: Seq<u8>, i: int)
    requires
        0 <= i <= 16,
        p.len() == 16,
    ensures
        i < 16 ==> be_u128(p.subrange(0, i)) >> ((8 * i) as u128) == 0,
        forall|j: int|
            0 <= j < i ==> #[trigger] p[j] as u128 == (be_u128(p.subrange(0, i)) >> ((8 * (i - 1 - j)) as u128))
                & 0xffu128,
    decreases i,
{
    if i == 0 {
        assert(p.subrange(0, 0) =~= Seq::<u8>::empty());
        assert(0u128 >> 0u128 == 0) by (bit_vector);
    } else {
        lemma_be_prefix(p, i - 1);
        let q = p.subrange(0, i);
        assert(q.drop_last() =~= p.subrange(0, i - 1));
        assert(q.last() == p[i - 1]);
        let v = be_u128(p.subrange(0, i - 1));
        let w = be_u128(q);
        assert(w == ((v << 8u128) | (p[i - 1] as u128)) as u128);
        let k0 = (8 * (i - 1)) as u128;
        assert(v >> k0 == 0);
        assert(v >> 120u128 == 0) by (bit_vector)
            requires
                v >> k0 == 0,
                k0 <= 120,
        ;
        if i < 16 {
            lemma_bound_step(v, p[i - 1], k0);
            assert((k0 + 8) as u128 == (8 * i) as u128);
        }
        assert forall|j: int| 0 <= j < i implies #[trigger] p[j] as u128 == (w >> ((8 * (i - 1 - j)) as u128))
            & 0xffu128 by {
            if j < i - 1 {
                let k = (8 * (i - 2 - j)) as u128;
                lemma_shift_step(v, p[i - 1], k);
                assert((k + 8) as u128 == (8 * (i - 1 - j)) as u128);
            } else {
                lemma_shift_step(v, p[i - 1], 0);
                assert(w >> 0u128 == w) by (bit_vector);
            }
        }
    }
}

/// The sixteen bytes of the value of sixteen bytes are those bytes.
pub proof fn lemma_u128_be_round_trip(p: Seq<u8>)
    requires
        p.len() == 16,
    ensures
        u128_bytes(be_u128(p)) == p,
{
    lemma_be_prefix(p, 16);
    assert(p.subrange(0, 16) =~= p);
    let v = be_u128(p);
    assert forall|j: int| 0 <= j < 16 implies #[trigger] u128_bytes(v)[j] == p[j] by {
        assert(((8 * (16 - 1 - j)) as u128) == ((120 - 8 * j) as u128));
        let sh = (120 - 8 * j) as u128;
        let x = (v >> sh) & 0xffu128;
        assert(x < 256) by (bit_vector)
            requires
                x == (v >> sh) & 0xffu128,
        ;
    }
    assert(u128_bytes(v) =~= p);
}

/// The sixteen big-endian bytes of a 128-bit integer.
pub fn u128_to_be_bytes(v: u128) -> (r: Vec<u8>)
    ensures
        r@ == u128_bytes(v),
{
    let mut out: Vec<u8> = Vec::new();
    let mut i: u128 = 0;
    while i < 16
        invariant
            i <= 16,
            out@.len() == i,
            forall|j: int| 0 <= j < i ==> out@[j] == u128_bytes(v)[j],
        decreases 16 - i,
    {
        out.push(((v >> (120 - 8 * i)) & 0xffu128) as u8);
        i = i + 1;
    }
    assert(out@ =~= u128_bytes(v));
    out
}

/// The value of at most sixteen big-endian bytes.
pub fn u128_from_be_bytes(b: &[u8]) -> (r: u128)
    requires
        b@.len() <= 16,
    ensures
        r == be_u128(b@),
{
    let mut acc: u128 = 0;
    let mut i: usize = 0;
    while i < b.len()
        invariant
            i <= b@.len() <= 16,
            acc == be_u128(b@.subrange(0, i as int)),
        decreases b@.len() - i,
    {
        assert(b@.subrange(0, i + 1).drop_last() =~= b@.subrange(0, i as int));
        acc = (acc << 8u128) | (b[i] as u128);
        i = i + 1;
    }
    assert(b@.subrange(0, b@.len() as int) =~= b@);
    acc
}

impl ChannelShortId {
    /// The short form of a plaintext segment.
    pub fn from_id_segment(s: &str) -> (r: Self)
        ensures
            r.0 == short_of_segment(s@),
    {
        let digest = md5_of(s);
        ChannelShortId(u128_from_be_bytes(digest.as_slice()))
    }

    /// The short form of a consumer address: that of its second segment.
    pub fn from_full_id(id: &str) -> (r: Result<Self, MegaphoneError>)
        ensures
            r is Ok <==> has_second_segment(id@),
            r matches Ok(v) ==> v.0 == short_of_segment(second_segment(id@)),
            r matches Err(e) ==> e is BadRequest,
    {
        match second_segment_of(id) {
            Some(seg) => Ok(ChannelShortId::from_id_segment(seg)),
            None => Err(MegaphoneError::BadRequest(String::from_str("Malformed channel id"))),
        }
    }
}

} // verus!
