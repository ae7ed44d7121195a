//! Fixed-size bit vector backed by an exact-length byte array.

use vstd::prelude::*;

verus! {

/// An opaque binary payload of exactly `N` bytes (`8 * N` bits),
/// addressable both as whole bytes and as individual bits.
///
/// Bit `i` lives in byte `i / 8`, at position `i % 8`, least-significant
/// bit first: bit 0 of the vector is the least-significant bit of byte 0.
#[derive(Clone, Copy, Eq, PartialEq, Hash, Debug)]
pub struct Bits<const N: usize>(pub [u8; N]);

impl<const N: usize> View for Bits<N> {
    type V = Seq<u8>;

    open spec fn view(&self) -> Seq<u8> {
        self.0@
    }
}

/// The all-zero byte sequence of length `n`.
pub open spec fn zero_seq(n: nat) -> Seq<u8> {
    Seq::new(n, |i: int| 0u8)
}

/// The bytewise XOR of two sequences; the length follows the left operand.
pub open spec fn xor_bytes(a: Seq<u8>, b: Seq<u8>) -> Seq<u8> {
    Seq::new(a.len(), |i: int| a[i] ^ b[i])
}

/// The value of bit `i` of the byte sequence `s`, least-significant first.
pub open spec fn bit_at(s: Seq<u8>, i: int) -> bool {
    (s[i / 8] >> ((i % 8) as u8)) & 1 == 1
}

/// The byte sequence `s` with bit `i` forced to `v` and all else kept.
pub open spec fn set_bit(s: Seq<u8>, i: int, v: bool) -> Seq<u8> {
    let b = s[i / 8];
    let m = 1u8 << ((i % 8) as u8);
    s.update(i / 8, if v { b | m } else { b & !m })
}

impl<const N: usize> Bits<N> {
    /// A new all-zero vector of the fixed size.
    pub fn zero() -> (r: Self)
        ensures
            r@ == zero_seq(N as nat),
    {
        let r = Bits([0u8; N]);
        proof {
            assert(r@ =~= zero_seq(N as nat));
        }
        r
    }

    /// Read-only view of the backing bytes.
    pub fn as_bytes(&self) -> (r: &[u8; N])
        ensures
            r@ == self@,
    {
        &self.0
    }

    /// Mutable view of the backing bytes, for bulk copy-in.
    pub fn as_bytes_mut(&mut self) -> (r: &mut [u8; N])
        ensures
            *r == old(self).0,
            final(self).0 == *final(r),
    {
        &mut self.0
    }

    /// The value of bit `i`.
    pub fn get(&self, i: usize) -> (r: bool)
        requires
            i < 8 * N,
        ensures
            r == bit_at(self@, i as int),
    {
        let byte: usize = i >> 3;
        let bit: u8 = (i & 7) as u8;
        proof {
            assert(i >> 3 == i / 8 && i & 7 == i % 8) by (bit_vector);
            assert(i / 8 < N) by (nonlinear_arith)
                requires
                    i < 8 * N,
            ;
        }
        (self.0[byte] >> bit) & 1 == 1
    }

    /// Force bit `i` to `val`, leaving every other bit as it was.
    pub fn set(&mut self, i: usize, val: bool)
        requires
            i < 8 * N,
        ensures
            final(self)@ == set_bit(old(self)@, i as int, val),
    {
        let byte: usize = i >> 3;
        let bit: u8 = (i & 7) as u8;
        proof {
            assert(i >> 3 == i / 8 && i & 7 == i % 8) by (bit_vector);
            assert(i / 8 < N) by (nonlinear_arith)
                requires
                    i < 8 * N,
            ;
        }
        let m: u8 = 1u8 << bit;
        let b = self.0[byte];
        if val {
            self.0[byte] = b | m;
        } else {
            self.0[byte] = b & !m;
        }
    }

    /// Replace `self` with the bytewise XOR of `self` and `rhs`.
    pub fn xor_in_place(&mut self, rhs: &Bits<N>)
        ensures
            final(self)@ == xor_bytes(old(self)@, rhs@),
    {
        let mut idx: usize = 0;
        while idx < N
            invariant
                idx <= N,
                self@.len() == N,
                forall|k: int| 0 <= k < idx ==> self@[k] == (old(self)@[k] ^ rhs@[k]),
                forall|k: int| idx <= k < N ==> self@[k] == old(self)@[k],
            decreases N - idx,
        {
            let a = self.0[idx];
            let b = rhs.0[idx];
            self.0[idx] = a ^ b;
            idx += 1;
        }
        proof {
            assert(self@ =~= xor_bytes(old(self)@, rhs@));
        }
    }

    /// The bytewise XOR of two vectors, by value.
    pub fn xor(self, rhs: &Bits<N>) -> (r: Bits<N>)
        ensures
            r@ == xor_bytes(self@, rhs@),
    {
        let mut r = self;
        r.xor_in_place(rhs);
        r
    }
}

proof fn lemma_u8_xor_basics()
    by (bit_vector)
    ensures
        forall|x: u8, y: u8| #[trigger] (x ^ y) == (y ^ x),
        forall|x: u8, y: u8, z: u8| #[trigger] ((x ^ y) ^ z) == x ^ (y ^ z),
        forall|x: u8| #[trigger] (x ^ x) == 0,
        forall|x: u8| #[trigger] (x ^ 0) == x,
{
}

proof fn lemma_u8_set_get(b: u8, ki: u8, kj: u8)
    by (bit_vector)
    requires
        ki < 8,
        kj < 8,
    ensures
        ((b | (1u8 << ki)) >> ki) & 1 == 1,
        ((b & !(1u8 << ki)) >> ki) & 1 == 0,
        ki != kj ==> ((b | (1u8 << ki)) >> kj) & 1 == (b >> kj) & 1,
        ki != kj ==> ((b & !(1u8 << ki)) >> kj) & 1 == (b >> kj) & 1,
{
}

/// Setting bit `i` yields exactly `v` at `i` and disturbs no other bit.
pub proof fn lemma_bit_round_trip(s: Seq<u8>, i: int, j: int, v: bool)
    requires
        0 <= i < 8 * s.len(),
        0 <= j < 8 * s.len(),
    ensures
        bit_at(set_bit(s, i, v), i) == v,
        j != i ==> bit_at(set_bit(s, i, v), j) == bit_at(s, j),
{
    assert(0 <= i / 8 < s.len() && 0 <= j / 8 < s.len()) by (nonlinear_arith)
        requires
            0 <= i < 8 * s.len(),
            0 <= j < 8 * s.len(),
    ;
    let b = s[i / 8];
    let ki = (i % 8) as u8;
    let kj = (j % 8) as u8;
    lemma_u8_set_get(b, ki, kj);
    if j != i && j / 8 == i / 8 {
        vstd::arithmetic::div_mod::lemma_fundamental_div_mod(i, 8);
        vstd::arithmetic::div_mod::lemma_fundamental_div_mod(j, 8);
        assert(ki != kj);
    }
}

/// XOR of equal-size vectors commutes.
pub proof fn lemma_xor_bytes_comm(a: Seq<u8>, b: Seq<u8>)
    requires
        a.len() == b.len(),
    ensures
        xor_bytes(a, b) == xor_bytes(b, a),
{
    lemma_u8_xor_basics();
    assert(xor_bytes(a, b) =~= xor_bytes(b, a));
}

/// XOR of equal-size vectors associates.
pub proof fn lemma_xor_bytes_assoc(a: Seq<u8>, b: Seq<u8>, c: Seq<u8>)
    requires
        a.len() == b.len(),
        b.len() == c.len(),
    ensures
        xor_bytes(xor_bytes(a, b), c) == xor_bytes(a, xor_bytes(b, c)),
{
    lemma_u8_xor_basics();
    assert(xor_bytes(xor_bytes(a, b), c) =~= xor_bytes(a, xor_bytes(b, c)));
}

/// XOR of a vector with itself is the all-zero vector.
pub proof fn lemma_xor_bytes_self(a: Seq<u8>)
    ensures
        xor_bytes(a, a) == zero_seq(a.len()),
{
    lemma_u8_xor_basics();
    assert(xor_bytes(a, a) =~= zero_seq(a.len()));
}

/// The all-zero vector is the identity of XOR, on either side.
pub proof fn lemma_xor_bytes_zero(a: Seq<u8>)
    ensures
        xor_bytes(a, zero_seq(a.len())) == a,
        xor_bytes(zero_seq(a.len()), a) == a,
{
    lemma_u8_xor_basics();
    assert(xor_bytes(a, zero_seq(a.len())) =~= a);
    assert(xor_bytes(zero_seq(a.len()), a) =~= a);
}

} // verus!
