//! Capability contracts for striped layouts: writing data with derived
//! redundancy, reading it back, and regenerating a lost member.

use crate::bits::Bits;
use vstd::prelude::*;

verus! {

/// A layout that can regenerate one member from the remaining ones.
///
/// The caller decides which member is missing or corrupted; `restore`
/// overwrites exactly that member with a value computed from the others.
pub trait Restore {
    /// Total number of members the layout holds.
    spec fn member_count(&self) -> nat;

    /// Bytes currently held by member `j`.
    spec fn member_at(&self, j: int) -> Seq<u8>;

    /// The value regeneration places at slot `i`: a function of the
    /// members other than `i` alone.
    spec fn restored_at(&self, i: int) -> Seq<u8>;

    /// Regenerate member `i` in place from the remaining members.
    fn restore(&mut self, i: usize)
        requires
            i < old(self).member_count(),
        ensures
            final(self).member_count() == old(self).member_count(),
            final(self).member_at(i as int) == old(self).restored_at(i as int),
            forall|j: int|
                0 <= j < old(self).member_count() && j != i ==> final(self).member_at(j) == old(
                    self,
                ).member_at(j),
    ;
}

/// A layout that holds a fixed count of data slots of `N`-byte chunks,
/// supports writing data (deriving any redundancy) and reading it back.
pub trait Stripe<const N: usize> {
    /// The layout is well formed (for instance, it has room for its
    /// redundancy members).  Unconstrained unless the layout says more.
    open spec fn wf(&self) -> bool {
        true
    }

    /// Number of data slots the layout stores.
    open spec fn spec_data_slots(&self) -> nat {
        0
    }

    /// Bytes currently held by data slot `j`.
    open spec fn data_at(&self, j: int) -> Seq<u8> {
        Seq::empty()
    }

    /// Number of data chunks `write` expects and `read` returns.
    fn data_slots(&self) -> (r: usize)
        requires
            self.wf(),
        ensures
            r == self.spec_data_slots(),
    ;

    /// Store the given chunks as the data members and derive any
    /// redundancy members from them.
    fn write(&mut self, data: &[Bits<N>])
        requires
            old(self).wf(),
            data@.len() == old(self).spec_data_slots(),
        ensures
            final(self).wf(),
            final(self).spec_data_slots() == old(self).spec_data_slots(),
            forall|j: int| 0 <= j < data@.len() ==> final(self).data_at(j) == data@[j]@,
    ;

    /// Copy the current data members into the caller's buffer, verbatim
    /// and without mutating the stripe.
    fn read(&self, out: &mut [Bits<N>])
        requires
            self.wf(),
            old(out)@.len() == self.spec_data_slots(),
        ensures
            final(out)@.len() == old(out)@.len(),
            forall|j: int| 0 <= j < final(out)@.len() ==> final(out)@[j]@ == self.data_at(j),
    ;

    /// The same object viewed through the [`Restore`] capability, if the
    /// layout supports reconstruction; absent otherwise.
    fn as_restore(&self) -> (r: Option<&dyn Restore>) {
        None
    }
}

} // verus!
