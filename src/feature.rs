//! The feature bitset carried, as hex, in channel identifiers.
use vstd::prelude::*;
use crate::hex_text::{
    hex_decode, hex_decoded, hex_digit, hex_encode, hex_lower, hex_value, is_hex_char, is_hex_text,
};

verus! {

/// Channels created by this broker stream their events in chunks.
pub const CHAN_CHUNKED_STREAM: u32 = 1;

/// A set of feature flags, one bit each.
pub struct Feature(pub u32);

/// The four big-endian bytes of a value.
pub open spec fn be_bytes(v: u32) -> Seq<u8> {
    seq![((v >> 24u32) & 0xffu32) as u8, ((v >> 16u32) & 0xffu32) as u8, ((v >> 8u32) & 0xffu32) as u8, (v & 0xffu32) as u8]
}

/// The value of four big-endian bytes.
pub open spec fn be_u32(s: Seq<u8>) -> u32 {
    ((s[0] as u32) << 24u32) | ((s[1] as u32) << 16u32) | ((s[2] as u32) << 8u32) | (s[3] as u32)
}

/// A sequence without its leading zero bytes.
pub open spec fn strip_zero_bytes(s: Seq<u8>) -> Seq<u8>
    decreases s.len(),
{
    if s.len() > 0 && s[0] == 0 {
        strip_zero_bytes(s.drop_first())
    } else {
        s
    }
}

/// A sequence of at most four bytes, left-padded with zeros to four.
pub open spec fn pad4(s: Seq<u8>) -> Seq<u8> {
    Seq::new((4 - s.len()) as nat, |i: int| 0u8) + s
}

/// A text without its leading `'0'` characters.
pub open spec fn strip_zero_chars(s: Seq<char>) -> Seq<char>
    decreases s.len(),
{
    if s.len() > 0 && s[0] == '0' {
        strip_zero_chars(s.drop_first())
    } else {
        s
    }
}

/// A text left-padded with `'0'` to a multiple of eight characters.
pub open spec fn pad8(s: Seq<char>) -> Seq<char> {
    let n: nat = if s.len() % 8 != 0 { (8 - s.len() % 8) as nat } else { 0 };
    Seq::new(n, |i: int| '0') + s
}

/// The hex form of a bitset: its significant bytes in hex, without leading zeros.
pub open spec fn serialized(v: u32) -> Seq<char> {
    strip_zero_chars(hex_lower(strip_zero_bytes(be_bytes(v))))
}

/// What decoding a hex form yields.
pub open spec fn deserialized(s: Seq<char>) -> Option<u32> {
    if is_hex_text(pad8(s)) && pad8(s).len() <= 8 {
        Some(be_u32(pad4(hex_decoded(pad8(s)))))
    } else {
        None
    }
}

proof fn lemma_strip_zero_bytes(s: Seq<u8>)
    ensures
        strip_zero_bytes(s).len() <= s.len(),
        strip_zero_bytes(s) == s.subrange(s.len() - strip_zero_bytes(s).len(), s.len() as int),
        forall|j: int| 0 <= j < s.len() - strip_zero_bytes(s).len() ==> s[j] == 0,
        strip_zero_bytes(s).len() > 0 ==> strip_zero_bytes(s)[0] != 0,
    decreases s.len(),
{
    if s.len() > 0 && s[0] == 0 {
        lemma_strip_zero_bytes(s.drop_first());
        assert(s.drop_first().subrange(
            s.drop_first().len() - strip_zero_bytes(s.drop_first()).len(),
            s.drop_first().len() as int,
        ) =~= s.subrange(s.len() - strip_zero_bytes(s).len(), s.len() as int));
        assert forall|j: int| 0 <= j < s.len() - strip_zero_bytes(s).len() implies s[j] == 0 by {
            if j > 0 {
                assert(s[j] == s.drop_first()[j - 1]);
            }
        }
    } else {
        assert(s.subrange(0, s.len() as int) =~= s);
    }
}

proof fn lemma_strip_zero_chars(s: Seq<char>, k: int)
    requires
        0 <= k <= s.len(),
        forall|j: int| 0 <= j < k ==> s[j] == '0',
        k == s.len() || s[k] != '0',
    ensures
        strip_zero_chars(s) == s.subrange(k, s.len() as int),
    decreases k,
{
    if k == 0 {
        if s.len() > 0 {
            assert(s[0] != '0');
        }
        assert(s.subrange(0, s.len() as int) =~= s);
    } else {
        assert(s[0] == '0');
        lemma_strip_zero_chars(s.drop_first(), k - 1);
        assert(s.drop_first().subrange(k - 1, s.drop_first().len() as int) =~= s.subrange(
            k,
            s.len() as int,
        ));
    }
}

proof fn lemma_be_round_trip(v: u32)
    ensures
        be_u32(be_bytes(v)) == v,
{
    let b0 = ((v >> 24u32) & 0xffu32) as u8;
    let b1 = ((v >> 16u32) & 0xffu32) as u8;
    let b2 = ((v >> 8u32) & 0xffu32) as u8;
    let b3 = (v & 0xffu32) as u8;
    assert(((b0 as u32) << 24u32) | ((b1 as u32) << 16u32) | ((b2 as u32) << 8u32) | (b3 as u32)
        == v) by (bit_vector)
        requires
            b0 == ((v >> 24u32) & 0xffu32) as u8,
            b1 == ((v >> 16u32) & 0xffu32) as u8,
            b2 == ((v >> 8u32) & 0xffu32) as u8,
            b3 == (v & 0xffu32) as u8,
    ;
}

/// Decoding the significant bytes of a bitset gives the bitset back.
pub proof fn lemma_bytes_round_trip(v: u32)
    ensures
        strip_zero_bytes(be_bytes(v)).len() <= 4,
        be_u32(pad4(strip_zero_bytes(be_bytes(v)))) == v,
{
    let s = be_bytes(v);
    lemma_strip_zero_bytes(s);
    assert(pad4(strip_zero_bytes(s)) =~= s);
    lemma_be_round_trip(v);
}

proof fn lemma_hex_digit_value(v: u8)
    requires
        v < 16,
    ensures
        is_hex_char(hex_digit(v)),
        hex_value(hex_digit(v)) == v,
        (hex_digit(v) == '0') <==> v == 0,
{
}

proof fn lemma_hex_lower_facts(b: Seq<u8>)
    ensures
        hex_lower(b).len() == 2 * b.len(),
        is_hex_text(hex_lower(b)),
        hex_decoded(hex_lower(b)) == b,
        forall|i: int|
            0 <= i < b.len() ==> hex_lower(b)[2 * i] == hex_digit(#[trigger] b[i] / 16) && hex_lower(
                b,
            )[2 * i + 1] == hex_digit(b[i] % 16),
    decreases b.len(),
{
    if b.len() > 0 {
        let p = b.drop_last();
        lemma_hex_lower_facts(p);
        let x = b.last();
        lemma_hex_digit_value(x / 16);
        lemma_hex_digit_value(x % 16);
        let h = hex_lower(b);
        assert(h == hex_lower(p) + seq![hex_digit(x / 16), hex_digit(x % 16)]);
        assert forall|i: int| 0 <= i < b.len() implies h[2 * i] == hex_digit(#[trigger] b[i] / 16)
            && h[2 * i + 1] == hex_digit(b[i] % 16) by {
            if i < p.len() {
                assert(b[i] == p[i]);
            }
        }
        assert forall|i: int| 0 <= i < h.len() implies is_hex_char(#[trigger] h[i]) by {
            let j = i / 2;
            if j < p.len() {
                assert(h[i] == hex_lower(p)[i]);
            } else {
                lemma_hex_digit_value(b[j] / 16);
                lemma_hex_digit_value(b[j] % 16);
            }
        }
        assert forall|i: int| 0 <= i < b.len() implies #[trigger] hex_decoded(h)[i] == b[i] by {
            lemma_hex_digit_value(b[i] / 16);
            lemma_hex_digit_value(b[i] % 16);
            assert(hex_value(h[2 * i]) * 16 + hex_value(h[2 * i + 1]) == b[i]);
        }
        assert(hex_decoded(h) =~= b);
    } else {
        assert(hex_decoded(hex_lower(b)) =~= b);
    }
}

proof fn lemma_hex_lower_concat(a: Seq<u8>, b: Seq<u8>)
    ensures
        hex_lower(a + b) == hex_lower(a) + hex_lower(b),
    decreases b.len(),
{
    if b.len() == 0 {
        assert(a + b =~= a);
        assert(hex_lower(a) + hex_lower(b) =~= hex_lower(a));
    } else {
        lemma_hex_lower_concat(a, b.drop_last());
        assert((a + b).drop_last() =~= a + b.drop_last());
        assert(hex_lower(a) + hex_lower(b) =~= hex_lower(a) + hex_lower(b.drop_last()) + seq![
            hex_digit(b.last() / 16),
            hex_digit(b.last() % 16),
        ]);
    }
}

proof fn lemma_zero_hex(n: nat)
    ensures
        hex_lower(Seq::new(n, |i: int| 0u8)) == Seq::new(2 * n, |i: int| '0'),
    decreases n,
{
    if n > 0 {
        lemma_zero_hex((n - 1) as nat);
        assert(Seq::new(n, |i: int| 0u8).drop_last() =~= Seq::new((n - 1) as nat, |i: int| 0u8));
        lemma_hex_digit_value(0);
        assert(Seq::new(2 * ((n - 1) as nat), |i: int| '0') + seq![hex_digit(0u8), hex_digit(0u8)]
            =~= Seq::new(2 * n, |i: int| '0'));
    }
}

proof fn lemma_pad_stripped(h: Seq<char>, z: int)
    requires
        0 < h.len() <= 8,
        0 <= z < h.len(),
        forall|j: int| 0 <= j < z ==> h[j] == '0',
    ensures
        pad8(h.subrange(z, h.len() as int)) == Seq::new((8 - h.len()) as nat, |i: int| '0') + h,
{
    let t = h.subrange(z, h.len() as int);
    let lhs = pad8(t);
    let rhs = Seq::new((8 - h.len()) as nat, |i: int| '0') + h;
    if t.len() % 8 == 0 {
        assert(z == 0 && h.len() == 8);
        assert(lhs =~= rhs);
    } else {
        let n = 8 - t.len();
        assert(lhs.len() == 8);
        assert forall|i: int| 0 <= i < 8 implies lhs[i] == rhs[i] by {
            if i < n {
                if i >= 8 - h.len() {
                    assert(rhs[i] == h[i - (8 - h.len())]);
                }
            } else {
                assert(lhs[i] == t[i - n]);
                assert(rhs[i] == h[i - (8 - h.len())]);
            }
        }
        assert(lhs =~= rhs);
    }
}

/// Reading the hex form of a bitset gives the bitset back.
#[verifier::spinoff_prover]
pub proof fn lemma_serialize_round_trip(v: u32)
    ensures
        deserialized(serialized(v)) == Some(v),
{
    let be = be_bytes(v);
    let st = strip_zero_bytes(be);
    lemma_strip_zero_bytes(be);
    let k = st.len();
    let zeros = Seq::new((4 - k) as nat, |i: int| 0u8);
    assert(be =~= zeros + st);
    lemma_hex_lower_concat(zeros, st);
    lemma_zero_hex((4 - k) as nat);
    let h = hex_lower(st);
    lemma_hex_lower_facts(st);
    lemma_hex_lower_facts(be);
    lemma_be_round_trip(v);
    assert(hex_lower(be) == Seq::new((8 - h.len()) as nat, |i: int| '0') + h);
    if k > 0 {
        let z: int = if st[0] / 16 == 0 { 1 } else { 0 };
        lemma_hex_digit_value(st[0] / 16);
        lemma_hex_digit_value(st[0] % 16);
        assert(h[0] == hex_digit(st[0] / 16));
        assert(h[1] == hex_digit(st[0] % 16));
        assert(z == 0 || h[1] != '0');
        lemma_strip_zero_chars(h, z);
        lemma_pad_stripped(h, z);
        assert(pad8(serialized(v)) == hex_lower(be));
        assert(pad4(hex_decoded(pad8(serialized(v)))) =~= be);
    } else {
        assert(h =~= Seq::<char>::empty());
        lemma_strip_zero_chars(h, 0);
        assert(pad8(serialized(v)) =~= Seq::<char>::empty());
        assert(hex_decoded(Seq::<char>::empty()) =~= Seq::<u8>::empty());
        assert(pad4(Seq::<u8>::empty()) =~= be);
    }
}

impl Feature {
    pub fn new(features: u32) -> (r: Self)
        ensures
            r.0 == features,
    {
        Feature(features)
    }

    pub fn has(&self, feature: u32) -> (r: bool)
        ensures
            r == (self.0 & feature != 0),
    {
        self.0 & feature != 0
    }

    pub fn set(&mut self, feature: u32)
        ensures
            final(self).0 == old(self).0 | feature,
    {
        self.0 = self.0 | feature;
    }

    pub fn unset(&mut self, feature: u32)
        ensures
            final(self).0 == old(self).0 & !feature,
    {
        self.0 = self.0 & !feature;
    }

    /// The big-endian bytes of the bitset, without leading zero bytes.
    pub fn bytes(&self) -> (r: Vec<u8>)
        ensures
            r@ == strip_zero_bytes(be_bytes(self.0)),
    {
        let v = self.0;
        let all: Vec<u8> = vec![
            ((v >> 24u32) & 0xffu32) as u8,
            ((v >> 16u32) & 0xffu32) as u8,
            ((v >> 8u32) & 0xffu32) as u8,
            (v & 0xffu32) as u8,
        ];
        assert(all@ =~= be_bytes(v));
        proof {
            lemma_strip_zero_bytes(all@);
        }
        let ghost stripped = strip_zero_bytes(all@);
        let mut k: usize = 0;
        while k < 4 && all[k] == 0
            invariant
                0 <= k <= 4,
                all@.len() == 4,
                all@ == be_bytes(v),
                forall|j: int| 0 <= j < k ==> all@[j] == 0,
            decreases 4 - k,
        {
            k = k + 1;
        }
        // `k` is the number of leading zeros, which is what stripping removes.
        assert(4 - stripped.len() == k) by {
            if 4 - stripped.len() < k {
                if stripped.len() > 0 {
                    assert(stripped[0] == all@[4 - stripped.len()]);
                }
            } else if 4 - stripped.len() > k {
                assert(all@[k as int] == 0);
            }
        }
        let mut out: Vec<u8> = Vec::new();
        let mut i: usize = k;
        while i < 4
            invariant
                k <= i <= 4,
                all@.len() == 4,
                out@ == all@.subrange(k as int, i as int),
            decreases 4 - i,
        {
            out.push(all[i]);
            assert(out@ =~= all@.subrange(k as int, i + 1));
            i = i + 1;
        }
        out
    }

    /// The bitset whose big-endian bytes, left-padded with zeros, are `bytes`;
    /// none when more than four bytes are given.
    pub fn from_bytes(bytes: &[u8]) -> (r: Option<Self>)
        ensures
            r == (if bytes@.len() > 4 {
                None::<Feature>
            } else {
                Some(Feature(be_u32(pad4(bytes@))))
            }),
    {
        if bytes.len() > 4 {
            return None;
        }
        let mut num: Vec<u8> = Vec::new();
        let pad: usize = 4 - bytes.len();
        while num.len() < pad
            invariant
                num.len() <= pad,
                pad == 4 - bytes@.len(),
                forall|j: int| 0 <= j < num.len() ==> num@[j] == 0,
            decreases pad - num.len(),
        {
            num.push(0u8);
        }
        let mut i: usize = 0;
        while i < bytes.len()
            invariant
                i <= bytes@.len() <= 4,
                pad == 4 - bytes@.len(),
                num@ == Seq::new(pad as nat, |j: int| 0u8) + bytes@.subrange(0, i as int),
            decreases bytes@.len() - i,
        {
            num.push(bytes[i]);
            assert(num@ =~= Seq::new(pad as nat, |j: int| 0u8) + bytes@.subrange(0, i + 1));
            i = i + 1;
        }
        assert(bytes@.subrange(0, bytes@.len() as int) =~= bytes@);
        assert(num@ =~= pad4(bytes@));
        let v: u32 = ((num[0] as u32) << 24u32) | ((num[1] as u32) << 16u32) | ((num[2] as u32)
            << 8u32) | (num[3] as u32);
        Some(Feature(v))
    }

    /// The hex form of the bitset, without leading zeros.
    pub fn serialize(&self) -> (r: String)
        ensures
            r@ == serialized(self.0),
    {
        let bytes = self.bytes();
        let text = hex_encode(bytes.as_slice());
        let n = text.as_str().unicode_len();
        let mut k: usize = 0;
        while k < n && text.as_str().get_char(k) == '0'
            invariant
                k <= n,
                n == text@.len(),
                forall|j: int| 0 <= j < k ==> text@[j] == '0',
            decreases n - k,
        {
            k = k + 1;
        }
        proof {
            lemma_strip_zero_chars(text@, k as int);
        }
        let rest = text.as_str().substring_char(k, n);
        String::from_str(rest)
    }

    /// Reads a hex form, accepting one left-padded to any length; none when
    /// it is not hex or stands for more than four bytes.
    pub fn deserialize(s: &str) -> (r: Option<Self>)
        ensures
            r == (match deserialized(s@) {
                Some(v) => Some(Feature(v)),
                None => None::<Feature>,
            }),
    {
        let n = s.unicode_len();
        let mut padded = String::new();
        if n % 8 != 0 {
            let count: usize = 8 - n % 8;
            let mut i: usize = 0;
            while i < count
                invariant
                    i <= count,
                    padded@ == Seq::new(i as nat, |j: int| '0'),
                decreases count - i,
            {
                proof {
                    reveal_strlit("0");
                }
                padded.append("0");
                assert(padded@ =~= Seq::new((i + 1) as nat, |j: int| '0'));
                i = i + 1;
            }
        }
        padded.append(s);
        assert(padded@ =~= pad8(s@));
        if !padded.is_ascii() {
            proof {
                // a character outside ASCII is no hex digit
                let p = padded@;
                let w = choose|i: int| 0 <= i < p.len() && !('\0' <= #[trigger] p[i] <= '\u{7f}');
                assert(!is_hex_char(p[w]));
            }
            return None;
        }
        if padded.as_str().unicode_len() > 8 {
            return None;
        }
        match hex_decode(padded.as_str()) {
            None => None,
            Some(bytes) => Feature::from_bytes(bytes.as_slice()),
        }
    }
}

} // verus!
