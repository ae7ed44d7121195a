//! Single-parity stripe: `D` members of `N` bytes each, the last member
//! reserved for parity, parity kept equal to the XOR of all data members.

use crate::bits::{Bits, xor_bytes, zero_seq};
use crate::bits::{lemma_xor_bytes_assoc, lemma_xor_bytes_comm, lemma_xor_bytes_self,
    lemma_xor_bytes_zero};
use crate::stripe::{Restore, Stripe};
use vstd::prelude::*;

verus! {

/// XOR of the members `m[0], ..., m[k - 1]`, each `n` bytes wide;
/// the empty range gives the all-zero vector.
pub open spec fn xor_range(m: Seq<Seq<u8>>, k: int, n: nat) -> Seq<u8>
    decreases k,
{
    if k <= 0 {
        zero_seq(n)
    } else {
        xor_bytes(xor_range(m, k - 1, n), m[k - 1])
    }
}

/// XOR of the members `m[0], ..., m[k - 1]` with member `i` left out.
pub open spec fn xor_range_except(m: Seq<Seq<u8>>, i: int, k: int, n: nat) -> Seq<u8>
    decreases k,
{
    if k <= 0 {
        zero_seq(n)
    } else if k - 1 == i {
        xor_range_except(m, i, k - 1, n)
    } else {
        xor_bytes(xor_range_except(m, i, k - 1, n), m[k - 1])
    }
}

/// Every member of `m` is exactly `n` bytes wide.
pub open spec fn members_sized(m: Seq<Seq<u8>>, n: nat) -> bool {
    forall|j: int| 0 <= j < m.len() ==> (#[trigger] m[j]).len() == n
}

/// A stripe of `D` members, each an `N`-byte chunk; member `D - 1` is
/// the parity slot, members `0 .. D - 1` are data slots.
pub struct RAID3<const D: usize, const N: usize>(pub [Bits<N>; D]);

impl<const D: usize, const N: usize> RAID3<D, N> {
    /// The byte contents of all members, in slot order.
    pub open spec fn members(self) -> Seq<Seq<u8>> {
        Seq::new(D as nat, |j: int| self.0[j]@)
    }

    /// The parity slot holds the XOR of all data slots.
    pub open spec fn parity_ok(self) -> bool {
        self.members()[D - 1] == xor_range(self.members(), D - 1, N as nat)
    }

    /// A stripe with every member zeroed; the parity relation holds of
    /// it trivially.
    pub fn zero() -> (r: Self)
        ensures
            r.members() == Seq::new(D as nat, |j: int| zero_seq(N as nat)),
            D >= 1 ==> r.parity_ok(),
    {
        let z = Bits::<N>::zero();
        let r = RAID3([z; D]);
        proof {
            assert(r.members() =~= Seq::new(D as nat, |j: int| zero_seq(N as nat)));
            if D >= 1 {
                lemma_xor_range_zero_members(r.members(), D - 1, N as nat);
            }
        }
        r
    }

    /// Index of the parity slot.
    pub fn parity_index(&self) -> (r: usize)
        requires
            D >= 1,
        ensures
            r == D - 1,
    {
        D - 1
    }

    /// Recompute what data slot `i` must have held, as the XOR of the
    /// parity member with every other data member, and overwrite slot
    /// `i` with it.  Slot `i`'s current value is never read, so it may
    /// hold anything.
    pub fn reconstruct_data(&mut self, i: usize)
        requires
            D >= 1,
            i < D - 1,
        ensures
            final(self).members() == old(self).members().update(
                i as int,
                xor_bytes(
                    old(self).members()[D - 1],
                    xor_range_except(old(self).members(), i as int, D - 1, N as nat),
                ),
            ),
    {
        proof {
            lemma_xor_bytes_zero(old(self).members()[D - 1]);
        }
        let mut acc = self.0[D - 1];
        let mut j: usize = 0;
        while j < D - 1
            invariant
                D >= 1,
                i < D - 1,
                j <= D - 1,
                *self == *old(self),
                acc@ == xor_bytes(
                    old(self).members()[D - 1],
                    xor_range_except(old(self).members(), i as int, j as int, N as nat),
                ),
            decreases D - 1 - j,
        {
            if j != i {
                proof {
                    let m0 = old(self).members();
                    lemma_xor_range_except_len(m0, i as int, j as int, N as nat);
                    lemma_xor_bytes_assoc(
                        m0[D - 1],
                        xor_range_except(m0, i as int, j as int, N as nat),
                        m0[j as int],
                    );
                }
                acc.xor_in_place(&self.0[j]);
            }
            j += 1;
        }
        self.0[i] = acc;
        proof {
            let m0 = old(self).members();
            assert(self.members() =~= m0.update(
                i as int,
                xor_bytes(m0[D - 1], xor_range_except(m0, i as int, D - 1, N as nat)),
            ));
        }
    }

    /// Recompute the parity member as the XOR of all data members,
    /// discarding whatever the parity slot held.
    pub fn write_parity(&mut self)
        requires
            D >= 1,
        ensures
            final(self).members() == old(self).members().update(
                D - 1,
                xor_range(old(self).members(), D - 1, N as nat),
            ),
            final(self).parity_ok(),
    {
        let mut p = Bits::<N>::zero();
        let mut i: usize = 0;
        while i < D - 1
            invariant
                D >= 1,
                i <= D - 1,
                *self == *old(self),
                p@ == xor_range(old(self).members(), i as int, N as nat),
            decreases D - 1 - i,
        {
            p.xor_in_place(&self.0[i]);
            i += 1;
        }
        self.0[D - 1] = p;
        proof {
            let m0 = old(self).members();
            let q = xor_range(m0, D - 1, N as nat);
            assert(self.members() =~= m0.update(D - 1, q));
            lemma_xor_range_prefix_only(m0.update(D - 1, q), m0, D - 1, N as nat);
        }
    }
}

impl<const D: usize, const N: usize> Stripe<N> for RAID3<D, N> {
    open spec fn wf(&self) -> bool {
        D >= 1
    }

    open spec fn spec_data_slots(&self) -> nat {
        (D - 1) as nat
    }

    open spec fn data_at(&self, j: int) -> Seq<u8> {
        self.members()[j]
    }

    fn data_slots(&self) -> (r: usize) {
        D - 1
    }

    fn write(&mut self, data: &[Bits<N>])
        ensures
            final(self).parity_ok(),
    {
        let k = data.len();
        let mut i: usize = 0;
        while i < k
            invariant
                D >= 1,
                k == D - 1,
                data@.len() == k,
                i <= k,
                forall|j: int| 0 <= j < i ==> self.members()[j] == data@[j]@,
            decreases k - i,
        {
            let ghost prev = self.members();
            self.0[i] = data[i];
            proof {
                assert(self.members() =~= prev.update(i as int, data@[i as int]@));
            }
            i += 1;
        }
        self.write_parity();
    }

    fn read(&self, out: &mut [Bits<N>]) {
        let k = D - 1;
        let mut i: usize = 0;
        while i < k
            invariant
                D >= 1,
                k == D - 1,
                out@.len() == old(out)@.len(),
                old(out)@.len() == k,
                i <= k,
                forall|j: int| 0 <= j < i ==> out@[j]@ == self.members()[j],
            decreases k - i,
        {
            out[i] = self.0[i];
            i += 1;
        }
    }

    fn as_restore(&self) -> (r: Option<&dyn Restore>)
        ensures
            r is Some,
    {
        Some(self)
    }
}

impl<const D: usize, const N: usize> Restore for RAID3<D, N> {
    open spec fn member_count(&self) -> nat {
        D as nat
    }

    open spec fn member_at(&self, j: int) -> Seq<u8> {
        self.members()[j]
    }

    open spec fn restored_at(&self, i: int) -> Seq<u8> {
        if i == D - 1 {
            xor_range(self.members(), D - 1, N as nat)
        } else {
            xor_bytes(
                self.members()[D - 1],
                xor_range_except(self.members(), i, D - 1, N as nat),
            )
        }
    }

    fn restore(&mut self, i: usize) {
        if i == D - 1 {
            self.write_parity();
        } else {
            self.reconstruct_data(i);
        }
    }
}

/// An XOR over a range of members is as wide as the members.
proof fn lemma_xor_range_len(m: Seq<Seq<u8>>, k: int, n: nat)
    ensures
        xor_range(m, k, n).len() == n,
    decreases k,
{
    if k > 0 {
        lemma_xor_range_len(m, k - 1, n);
    }
}

/// An XOR over a range with one member left out is as wide as the members.
proof fn lemma_xor_range_except_len(m: Seq<Seq<u8>>, i: int, k: int, n: nat)
    ensures
        xor_range_except(m, i, k, n).len() == n,
    decreases k,
{
    if k > 0 {
        lemma_xor_range_except_len(m, i, k - 1, n);
    }
}

/// The XOR over any range of all-zero members is the all-zero vector.
proof fn lemma_xor_range_zero_members(m: Seq<Seq<u8>>, k: int, n: nat)
    requires
        forall|j: int| 0 <= j < k ==> m[j] == zero_seq(n),
    ensures
        xor_range(m, k, n) == zero_seq(n),
    decreases k,
{
    if k > 0 {
        lemma_xor_range_zero_members(m, k - 1, n);
        lemma_xor_bytes_zero(zero_seq(n));
    }
}

/// `xor_range(m, k, n)` reads members `0 .. k` only: two member
/// sequences that agree there give the same XOR.
proof fn lemma_xor_range_prefix_only(m1: Seq<Seq<u8>>, m2: Seq<Seq<u8>>, k: int, n: nat)
    requires
        forall|j: int| 0 <= j < k ==> m1[j] == m2[j],
    ensures
        xor_range(m1, k, n) == xor_range(m2, k, n),
    decreases k,
{
    if k > 0 {
        lemma_xor_range_prefix_only(m1, m2, k - 1, n);
    }
}

/// `xor_range_except(m, i, k, n)` reads members `0 .. k` other than `i`
/// only: two member sequences that agree there give the same XOR.
proof fn lemma_xor_range_except_unread(m1: Seq<Seq<u8>>, m2: Seq<Seq<u8>>, i: int, k: int, n: nat)
    requires
        forall|j: int| 0 <= j < k && j != i ==> m1[j] == m2[j],
    ensures
        xor_range_except(m1, i, k, n) == xor_range_except(m2, i, k, n),
    decreases k,
{
    if k > 0 {
        lemma_xor_range_except_unread(m1, m2, i, k - 1, n);
    }
}

/// Leaving out a member that the range does not cover leaves nothing out.
proof fn lemma_xor_range_except_above(m: Seq<Seq<u8>>, i: int, k: int, n: nat)
    requires
        i >= k,
    ensures
        xor_range_except(m, i, k, n) == xor_range(m, k, n),
    decreases k,
{
    if k > 0 {
        lemma_xor_range_except_above(m, i, k - 1, n);
    }
}

/// The XOR over `m[0 .. k]` splits into the XOR with member `i` left
/// out, XORed with member `i` itself.
proof fn lemma_xor_range_split(m: Seq<Seq<u8>>, i: int, k: int, n: nat)
    requires
        0 <= i < k,
        forall|j: int| 0 <= j < k ==> (#[trigger] m[j]).len() == n,
    ensures
        xor_range(m, k, n) == xor_bytes(xor_range_except(m, i, k, n), m[i]),
    decreases k,
{
    lemma_xor_range_except_len(m, i, k - 1, n);
    if i == k - 1 {
        lemma_xor_range_except_above(m, i, k - 1, n);
    } else {
        lemma_xor_range_split(m, i, k - 1, n);
        let e = xor_range_except(m, i, k - 1, n);
        lemma_xor_bytes_assoc(e, m[i], m[k - 1]);
        lemma_xor_bytes_comm(m[i], m[k - 1]);
        lemma_xor_bytes_assoc(e, m[k - 1], m[i]);
    }
}

/// Every member of a stripe is exactly `N` bytes wide.
proof fn lemma_members_sized<const D: usize, const N: usize>(r: RAID3<D, N>)
    ensures
        members_sized(r.members(), N as nat),
{
}

/// After the parity slot is made the XOR of the data slots — as `write`
/// and a parity `restore` leave it — XOR-accumulating all `D` members
/// yields the all-zero vector, whatever the data values.
pub proof fn lemma_parity_zero_sum<const D: usize, const N: usize>(r: RAID3<D, N>)
    requires
        D >= 1,
        r.parity_ok(),
    ensures
        xor_range(r.members(), D as int, N as nat) == zero_seq(N as nat),
{
    let m = r.members();
    let q = xor_range(m, D - 1, N as nat);
    lemma_xor_range_len(m, D - 1, N as nat);
    lemma_xor_bytes_self(q);
}

/// Recomputing parity on a stripe whose parity is already the XOR of
/// its data members changes nothing: recomputation is idempotent.
pub proof fn lemma_parity_recompute_idempotent<const D: usize, const N: usize>(r: RAID3<D, N>)
    requires
        D >= 1,
        r.parity_ok(),
    ensures
        r.members().update(D - 1, xor_range(r.members(), D - 1, N as nat)) == r.members(),
{
    assert(r.members().update(D - 1, xor_range(r.members(), D - 1, N as nat)) =~= r.members());
}

/// Corrupting the parity slot of `r` to anything and then regenerating
/// it — `rc` is the corrupted stripe — re-establishes the parity
/// relation and the zero-sum invariant.
pub proof fn lemma_restore_parity<const D: usize, const N: usize>(
    rc: RAID3<D, N>,
    r2: RAID3<D, N>,
)
    requires
        D >= 1,
        r2.members() == rc.members().update(D - 1, rc.restored_at(D - 1)),
    ensures
        r2.parity_ok(),
        xor_range(r2.members(), D as int, N as nat) == zero_seq(N as nat),
{
    lemma_xor_range_prefix_only(r2.members(), rc.members(), D - 1, N as nat);
    lemma_parity_zero_sum(r2);
}

/// Single-fault reconstruction: corrupt any one data slot `i` of a
/// stripe whose parity relation holds — `rc` is the corrupted stripe —
/// and the value regeneration computes for slot `i` is exactly the
/// original member.
pub proof fn lemma_restore_recovers_data<const D: usize, const N: usize>(
    r: RAID3<D, N>,
    rc: RAID3<D, N>,
    i: int,
)
    requires
        D >= 1,
        r.parity_ok(),
        0 <= i < D - 1,
        rc.members() == r.members().update(i, rc.members()[i]),
    ensures
        rc.restored_at(i) == r.members()[i],
{
    let m = r.members();
    let mc = rc.members();
    let n = N as nat;
    lemma_members_sized(r);
    lemma_xor_range_except_unread(mc, m, i, D - 1, n);
    lemma_xor_range_split(m, i, D - 1, n);
    let e = xor_range_except(m, i, D - 1, n);
    lemma_xor_range_except_len(m, i, D - 1, n);
    // parity == e XOR m[i]; XOR e back in to isolate m[i]
    lemma_xor_bytes_comm(e, m[i]);
    lemma_xor_bytes_assoc(m[i], e, e);
    lemma_xor_bytes_self(e);
    lemma_xor_bytes_zero(m[i]);
}

} // verus!
