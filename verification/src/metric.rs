//! The mathematics of the XOR metric: byte strings read as big-endian
//! numbers, their bitwise XOR, and the position of the highest set bit.

use vstd::prelude::*;
use vstd::std_specs::cmp::PartialEqSpecImpl;

verus! {

/// The number that `s` denotes when read big-endian: the first byte is the
/// most significant.
pub open spec fn be_value(s: Seq<u8>) -> nat
    decreases s.len(),
{
    if s.len() == 0 {
        0
    } else {
        be_value(s.drop_last()) * 256 + s.last() as nat
    }
}

/// Byte-wise XOR of two strings, as long as the first.
pub open spec fn xor_bytes(a: Seq<u8>, b: Seq<u8>) -> Seq<u8> {
    Seq::new(a.len(), |i: int| a[i] ^ b[i])
}

/// Every byte of `s` is zero.
pub open spec fn all_zero(s: Seq<u8>) -> bool {
    forall|i: int| 0 <= i < s.len() ==> s[i] == 0
}

/// Position of the highest set bit of `v`, counting the least significant
/// bit as 0: the bit length of `v` minus one. Zero for `v == 0`.
pub open spec fn highest_bit(v: nat) -> nat
    decreases v,
{
    if v < 2 {
        0
    } else {
        1 + highest_bit(v / 2)
    }
}

/// The XOR distance of two digests as a number.
pub open spec fn xor_distance(a: Seq<u8>, b: Seq<u8>) -> nat {
    be_value(xor_bytes(a, b))
}

/// `a` comes before `b` in lexicographic order, for strings of one length.
pub open spec fn lex_less(a: Seq<u8>, b: Seq<u8>) -> bool {
    exists|i: int|
        0 <= i < a.len() && a[i] < b[i] && (forall|j: int| 0 <= j < i ==> a[j] == b[j])
}

/// XOR of two bytes does not depend on their order.
pub proof fn lemma_xor_byte_commutes(x: u8, y: u8)
    ensures
        x ^ y == y ^ x,
{
    assert(x ^ y == y ^ x) by (bit_vector);
}

/// Two bytes XOR to zero exactly when they are equal.
pub proof fn lemma_xor_byte_zero(x: u8, y: u8)
    ensures
        (x ^ y == 0) <==> x == y,
{
    assert((x ^ y == 0) <==> x == y) by (bit_vector);
}

/// XOR with a fixed byte is injective.
pub proof fn lemma_xor_byte_cancels(t: u8, x: u8, y: u8)
    ensures
        (t ^ x == t ^ y) <==> x == y,
{
    assert((t ^ x == t ^ y) <==> x == y) by (bit_vector);
}

/// XOR does not depend on the order of its arguments.
pub proof fn lemma_xor_bytes_commutes(a: Seq<u8>, b: Seq<u8>)
    requires
        a.len() == b.len(),
    ensures
        xor_bytes(a, b) == xor_bytes(b, a),
{
    assert forall|i: int| 0 <= i < a.len() implies (a[i] ^ b[i]) == (b[i] ^ a[i]) by {
        lemma_xor_byte_commutes(a[i], b[i]);
    }
    assert(xor_bytes(a, b) =~= xor_bytes(b, a));
}

/// The XOR of two strings of one length is all zero exactly when they are equal.
pub proof fn lemma_xor_bytes_zero(a: Seq<u8>, b: Seq<u8>)
    requires
        a.len() == b.len(),
    ensures
        all_zero(xor_bytes(a, b)) <==> a == b,
{
    if a == b {
        assert forall|i: int| 0 <= i < a.len() implies xor_bytes(a, b)[i] == 0 by {
            lemma_xor_byte_zero(a[i], b[i]);
        }
    }
    if all_zero(xor_bytes(a, b)) {
        assert forall|i: int| 0 <= i < a.len() implies a[i] == b[i] by {
            assert(xor_bytes(a, b)[i] == 0);
            lemma_xor_byte_zero(a[i], b[i]);
        }
        assert(a =~= b);
    }
}

/// XOR with a fixed string is injective.
pub proof fn lemma_xor_bytes_injective(t: Seq<u8>, a: Seq<u8>, b: Seq<u8>)
    requires
        t.len() == a.len(),
        t.len() == b.len(),
        xor_bytes(t, a) == xor_bytes(t, b),
    ensures
        a == b,
{
    assert forall|i: int| 0 <= i < a.len() implies a[i] == b[i] by {
        assert(xor_bytes(t, a)[i] == t[i] ^ a[i]);
        assert(xor_bytes(t, b)[i] == t[i] ^ b[i]);
        lemma_xor_byte_cancels(t[i], a[i], b[i]);
    }
    assert(a =~= b);
}

/// A string is all zero exactly when its value is zero.
pub proof fn lemma_be_value_zero(s: Seq<u8>)
    ensures
        all_zero(s) <==> be_value(s) == 0,
    decreases s.len(),
{
    if s.len() > 0 {
        let p = s.drop_last();
        lemma_be_value_zero(p);
        if all_zero(s) {
            assert forall|i: int| 0 <= i < p.len() implies p[i] == 0 by {
                assert(p[i] == s[i]);
            }
            assert(s.last() == 0);
        }
        if be_value(s) == 0 {
            assert(be_value(p) == 0 && s.last() == 0) by (nonlinear_arith)
                requires
                    be_value(p) * 256 + s.last() as nat == 0,
            ;
            assert forall|i: int| 0 <= i < s.len() implies s[i] == 0 by {
                if i < p.len() {
                    assert(p[i] == s[i]);
                }
            }
        }
    }
}

/// Two strings of one length that denote the same number are equal.
pub proof fn lemma_be_value_equal(a: Seq<u8>, b: Seq<u8>)
    requires
        a.len() == b.len(),
        be_value(a) == be_value(b),
    ensures
        a == b,
    decreases a.len(),
{
    if a.len() > 0 {
        let pa = a.drop_last();
        let pb = b.drop_last();
        assert(be_value(pa) == be_value(pb) && a.last() == b.last()) by (nonlinear_arith)
            requires
                be_value(pa) * 256 + a.last() as nat == be_value(pb) * 256 + b.last() as nat,
                a.last() < 256,
                b.last() < 256,
        ;
        lemma_be_value_equal(pa, pb);
        assert(a =~= pa.push(a.last()));
        assert(b =~= pb.push(b.last()));
    } else {
        assert(a =~= b);
    }
}

/// For strings of one length, lexicographic order is the order of the values.
pub proof fn lemma_lex_less_is_value_less(a: Seq<u8>, b: Seq<u8>)
    requires
        a.len() == b.len(),
    ensures
        lex_less(a, b) <==> be_value(a) < be_value(b),
    decreases a.len(),
{
    if a.len() == 0 {
        assert(!lex_less(a, b));
    } else {
        let pa = a.drop_last();
        let pb = b.drop_last();
        let n = a.len() - 1;
        let la: nat = a.last() as nat;
        let lb: nat = b.last() as nat;
        lemma_lex_less_is_value_less(pa, pb);
        if lex_less(a, b) {
            let i = choose|i: int|
                0 <= i < a.len() && a[i] < b[i] && (forall|j: int| 0 <= j < i ==> a[j] == b[j]);
            if i < n {
                assert(pa[i] < pb[i]);
                assert forall|j: int| 0 <= j < i implies pa[j] == pb[j] by {
                    assert(a[j] == b[j]);
                }
                assert(lex_less(pa, pb));
                assert(be_value(pa) * 256 + la < be_value(pb) * 256 + lb) by (nonlinear_arith)
                    requires
                        be_value(pa) < be_value(pb),
                        la < 256,
                ;
            } else {
                assert forall|j: int| 0 <= j < n implies pa[j] == pb[j] by {
                    assert(a[j] == b[j]);
                }
                assert(pa =~= pb);
            }
        }
        if be_value(a) < be_value(b) {
            if be_value(pa) < be_value(pb) {
                let i = choose|i: int|
                    0 <= i < pa.len() && pa[i] < pb[i] && (forall|j: int|
                        0 <= j < i ==> pa[j] == pb[j]);
                assert(a[i] < b[i]);
                assert forall|j: int| 0 <= j < i implies a[j] == b[j] by {
                    assert(pa[j] == pb[j]);
                }
                assert(lex_less(a, b));
            } else {
                if be_value(pa) > be_value(pb) {
                    assert(be_value(pa) * 256 + la > be_value(pb) * 256 + lb) by (nonlinear_arith)
                        requires
                            be_value(pa) > be_value(pb),
                            lb < 256,
                    ;
                }
                lemma_be_value_equal(pa, pb);
                assert(a[n] < b[n]);
                assert forall|j: int| 0 <= j < n implies a[j] == b[j] by {
                    assert(pa[j] == pb[j]);
                }
                assert(lex_less(a, b));
            }
        }
    }
}

/// The XOR of two bytes is at most their sum.
pub proof fn lemma_xor_byte_below_sum(x: u8, y: u8)
    ensures
        (x ^ y) <= x + y,
{
    assert((x ^ y) <= x + y) by (bit_vector);
}

/// XOR of bytes through a third byte.
pub proof fn lemma_xor_byte_through(x: u8, y: u8, z: u8)
    ensures
        x ^ z == (x ^ y) ^ (y ^ z),
{
    assert(x ^ z == (x ^ y) ^ (y ^ z)) by (bit_vector);
}

/// The value of the XOR of two strings of one length is at most the sum of
/// their values.
pub proof fn lemma_xor_value_below_sum(a: Seq<u8>, b: Seq<u8>)
    requires
        a.len() == b.len(),
    ensures
        be_value(xor_bytes(a, b)) <= be_value(a) + be_value(b),
    decreases a.len(),
{
    if a.len() > 0 {
        let pa = a.drop_last();
        let pb = b.drop_last();
        let x = xor_bytes(a, b);
        lemma_xor_value_below_sum(pa, pb);
        assert(x.drop_last() =~= xor_bytes(pa, pb));
        assert(x.last() == a.last() ^ b.last());
        lemma_xor_byte_below_sum(a.last(), b.last());
        assert(be_value(x.drop_last()) * 256 <= (be_value(pa) + be_value(pb)) * 256)
            by (nonlinear_arith)
            requires
                be_value(x.drop_last()) <= be_value(pa) + be_value(pb),
        ;
        assert((be_value(pa) + be_value(pb)) * 256 == be_value(pa) * 256 + be_value(pb) * 256)
            by (nonlinear_arith);
    } else {
        assert(xor_bytes(a, b).len() == 0);
    }
}

/// The XOR metric obeys the triangle inequality: the way from `a` to `c` is
/// no longer than the way through `b`.
pub proof fn lemma_xor_triangle(a: Seq<u8>, b: Seq<u8>, c: Seq<u8>)
    requires
        a.len() == b.len(),
        b.len() == c.len(),
    ensures
        xor_distance(a, c) <= xor_distance(a, b) + xor_distance(b, c),
{
    let ab = xor_bytes(a, b);
    let bc = xor_bytes(b, c);
    assert forall|i: int| 0 <= i < a.len() implies (a[i] ^ c[i]) == (ab[i] ^ bc[i]) by {
        lemma_xor_byte_through(a[i], b[i], c[i]);
    }
    assert(xor_bytes(a, c) =~= xor_bytes(ab, bc));
    lemma_xor_value_below_sum(ab, bc);
}

/// A larger number has its highest set bit at least as high.
pub proof fn lemma_highest_bit_monotone(v: nat, w: nat)
    requires
        v <= w,
    ensures
        highest_bit(v) <= highest_bit(w),
    decreases w,
{
    if v >= 2 {
        lemma_highest_bit_monotone(v / 2, w / 2);
    }
}

/// Appending one bit below a positive number raises its highest bit by one.
pub proof fn lemma_highest_bit_double(v: nat, bit: nat)
    requires
        v >= 1,
        bit <= 1,
    ensures
        highest_bit(2 * v + bit) == highest_bit(v) + 1,
{
    assert((2 * v + bit) / 2 == v);
}

/// Appending one byte below a positive number raises its highest bit by eight.
pub proof fn lemma_highest_bit_shift_byte(v: nat, low: nat)
    requires
        v >= 1,
        low < 256,
    ensures
        highest_bit(v * 256 + low) == highest_bit(v) + 8,
{
    let b0 = low % 2;
    let l1 = low / 2;
    let b1 = l1 % 2;
    let l2 = l1 / 2;
    let b2 = l2 % 2;
    let l3 = l2 / 2;
    let b3 = l3 % 2;
    let l4 = l3 / 2;
    let b4 = l4 % 2;
    let l5 = l4 / 2;
    let b5 = l5 % 2;
    let l6 = l5 / 2;
    let b6 = l6 % 2;
    let l7 = l6 / 2;
    let v1 = 2 * v + l7;
    let v2 = 2 * v1 + b6;
    let v3 = 2 * v2 + b5;
    let v4 = 2 * v3 + b4;
    let v5 = 2 * v4 + b3;
    let v6 = 2 * v5 + b2;
    let v7 = 2 * v6 + b1;
    let v8 = 2 * v7 + b0;
    assert(v8 == v * 256 + low);
    lemma_highest_bit_double(v, l7);
    lemma_highest_bit_double(v1, b6);
    lemma_highest_bit_double(v2, b5);
    lemma_highest_bit_double(v3, b4);
    lemma_highest_bit_double(v4, b3);
    lemma_highest_bit_double(v5, b2);
    lemma_highest_bit_double(v6, b1);
    lemma_highest_bit_double(v7, b0);
}

/// Where the first non-zero byte of `s` stands at `first`, the highest set
/// bit of the value lies in that byte.
pub proof fn lemma_highest_bit_of_bytes(s: Seq<u8>, first: int)
    requires
        0 <= first < s.len(),
        s[first] != 0,
        forall|j: int| 0 <= j < first ==> s[j] == 0,
    ensures
        highest_bit(be_value(s)) == 8 * (s.len() - 1 - first) + highest_bit(s[first] as nat),
        be_value(s) >= 1,
    decreases s.len(),
{
    let p = s.drop_last();
    if first == s.len() - 1 {
        assert forall|j: int| 0 <= j < p.len() implies p[j] == 0 by {
            assert(p[j] == s[j]);
        }
        assert(all_zero(p));
        lemma_be_value_zero(p);
    } else {
        assert(p[first] == s[first]);
        assert forall|j: int| 0 <= j < first implies p[j] == 0 by {
            assert(p[j] == s[j]);
        }
        lemma_highest_bit_of_bytes(p, first);
        lemma_highest_bit_shift_byte(be_value(p), s.last() as nat);
    }
}

/// Position of the highest set bit of a byte; zero for the zero byte.
pub fn top_bit(b: u8) -> (pos: u32)
    ensures
        pos == highest_bit(b as nat),
        pos < 8,
{
    proof {
        reveal_with_fuel(highest_bit, 9);
    }
    if b >= 128 {
        7
    } else if b >= 64 {
        6
    } else if b >= 32 {
        5
    } else if b >= 16 {
        4
    } else if b >= 8 {
        3
    } else if b >= 4 {
        2
    } else if b >= 2 {
        1
    } else {
        0
    }
}

/// Copies 32 bytes out of `src`, starting at `from`.
pub(crate) fn take32(src: &[u8], from: usize) -> (out: [u8; 32])
    requires
        from + 32 <= src@.len(),
    ensures
        out@ == src@.subrange(from as int, from + 32),
{
    let mut out: [u8; 32] = [0u8; 32];
    let mut i: usize = 0;
    assert(src@.len() == src.len());
    while i < 32
        invariant
            i <= 32,
            from + 32 <= src@.len(),
            from + 32 <= usize::MAX,
            forall|j: int| 0 <= j < i ==> out@[j] == src@[from + j],
        decreases 32 - i,
    {
        out[i] = src[from + i];
        i += 1;
    }
    assert(out@ =~= src@.subrange(from as int, from + 32));
    out
}

/// Whether two digests hold the same bytes.
pub fn bytes_equal(a: &[u8; 32], b: &[u8; 32]) -> (same: bool)
    ensures
        same == (a@ == b@),
{
    let mut i: usize = 0;
    while i < 32
        invariant
            i <= 32,
            forall|j: int| 0 <= j < i ==> a@[j] == b@[j],
        decreases 32 - i,
    {
        if a[i] != b[i] {
            return false;
        }
        i += 1;
    }
    assert(a@ =~= b@);
    true
}

/// Whether every byte of a digest is zero.
pub fn bytes_zero(a: &[u8; 32]) -> (zero: bool)
    ensures
        zero == all_zero(a@),
{
    let mut i: usize = 0;
    while i < 32
        invariant
            i <= 32,
            forall|j: int| 0 <= j < i ==> a@[j] == 0,
        decreases 32 - i,
    {
        if a[i] != 0 {
            assert(a@[i as int] != 0);
            return false;
        }
        i += 1;
    }
    true
}

/// Byte-wise XOR of two digests.
pub fn bytes_xor(a: &[u8; 32], b: &[u8; 32]) -> (x: [u8; 32])
    ensures
        x@ == xor_bytes(a@, b@),
{
    let mut x: [u8; 32] = [0u8; 32];
    let mut i: usize = 0;
    while i < 32
        invariant
            i <= 32,
            forall|j: int| 0 <= j < i ==> x@[j] == a@[j] ^ b@[j],
        decreases 32 - i,
    {
        x[i] = a[i] ^ b[i];
        i += 1;
    }
    assert(x@ =~= xor_bytes(a@, b@));
    x
}

/// Whether the first digest denotes the smaller number.
pub fn bytes_less(a: &[u8; 32], b: &[u8; 32]) -> (less: bool)
    ensures
        less == (be_value(a@) < be_value(b@)),
{
    let mut i: usize = 0;
    while i < 32
        invariant
            i <= 32,
            forall|j: int| 0 <= j < i ==> a@[j] == b@[j],
        decreases 32 - i,
    {
        if a[i] < b[i] {
            proof {
                assert(lex_less(a@, b@));
                lemma_lex_less_is_value_less(a@, b@);
            }
            return true;
        }
        if a[i] > b[i] {
            proof {
                assert(lex_less(b@, a@));
                lemma_lex_less_is_value_less(b@, a@);
            }
            return false;
        }
        i += 1;
    }
    assert(a@ =~= b@);
    false
}

/// Position of the highest set bit of a digest, read big-endian; zero for
/// the all-zero digest.
pub fn bytes_top_bit(a: &[u8; 32]) -> (pos: u32)
    ensures
        pos == highest_bit(be_value(a@)),
        pos < 256,
{
    let mut i: usize = 0;
    while i < 32
        invariant
            i <= 32,
            forall|j: int| 0 <= j < i ==> a@[j] == 0,
        decreases 32 - i,
    {
        if a[i] != 0 {
            proof {
                lemma_highest_bit_of_bytes(a@, i as int);
            }
            let within: u32 = top_bit(a[i]);
            let below: u32 = 8 * (31 - i as u32);
            return below + within;
        }
        i += 1;
    }
    proof {
        assert(all_zero(a@));
        lemma_be_value_zero(a@);
    }
    0
}

/// A non-zero XOR distance between two identifiers: a 256-bit number that
/// can be compared and ordered.
#[derive(Clone, Copy, Debug, Eq)]
pub struct Distance {
    bytes: [u8; 32],
}

impl View for Distance {
    type V = nat;

    /// The distance as a number.
    closed spec fn view(&self) -> nat {
        be_value(self.bytes@)
    }
}

impl Distance {
    #[verifier::type_invariant]
    spec fn nonzero(&self) -> bool {
        !all_zero(self.bytes@)
    }

    /// The distance between two different digests.
    pub fn between(a: &[u8; 32], b: &[u8; 32]) -> (d: Option<Distance>)
        ensures
            d.is_none() <==> a@ == b@,
            d matches Some(dist) ==> dist@ == xor_distance(a@, b@) && dist@ > 0,
    {
        let x = bytes_xor(a, b);
        proof {
            lemma_xor_bytes_zero(a@, b@);
            lemma_be_value_zero(x@);
        }
        if bytes_zero(&x) {
            None
        } else {
            Some(Distance { bytes: x })
        }
    }

    /// The 32 bytes of the distance, most significant first.
    pub fn to_bytes(&self) -> (bytes: [u8; 32])
        ensures
            be_value(bytes@) == self@,
            self@ > 0,
    {
        proof {
            use_type_invariant(self);
            lemma_be_value_zero(self.bytes@);
        }
        self.bytes
    }

    /// The number of bits needed to write the distance: the position of its
    /// highest set bit, plus one.
    pub fn bits(&self) -> (n: u32)
        ensures
            n == highest_bit(self@) + 1,
            1 <= n <= 256,
    {
        bytes_top_bit(&self.bytes) + 1
    }

    /// The number of zero bits above the highest set bit, out of 256.
    pub fn leading_zeros(&self) -> (n: u32)
        ensures
            n == 255 - highest_bit(self@),
            n <= 255,
    {
        255 - bytes_top_bit(&self.bytes)
    }

}

impl PartialEq for Distance {
    fn eq(&self, other: &Distance) -> (same: bool) {
        proof {
            if self.bytes@ != other.bytes@ && be_value(self.bytes@) == be_value(other.bytes@) {
                lemma_be_value_equal(self.bytes@, other.bytes@);
            }
        }
        bytes_equal(&self.bytes, &other.bytes)
    }
}

impl PartialEqSpecImpl for Distance {
    open spec fn obeys_eq_spec() -> bool {
        true
    }

    open spec fn eq_spec(&self, other: &Distance) -> bool {
        self@ == other@
    }
}

} // verus!
