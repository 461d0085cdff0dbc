//! Identity-tagged reactive cells.
//!
//! The real router stores its retained values in reactive signals; what the
//! state machine's contracts need of a signal is its current value and its
//! identity. Updating a signal in place keeps the identity; a full route
//! transition allocates fresh identities. Descendant views locate a signal
//! through owner-scoped context by that identity.

use vstd::prelude::*;

verus! {

/// Mathematical value of a [`Sig`].
#[verifier::ext_equal]
pub ghost struct SigModel<V> {
    pub id: int,
    pub value: V,
}

/// A reactive cell: a value together with a stable identity. Setting the
/// value never changes the identity.
pub struct Sig<T> {
    pub id: u64,
    pub value: T,
}

impl<T: View> Sig<T> {
    pub open spec fn model(&self) -> SigModel<T::V> {
        SigModel { id: self.id as int, value: self.value@ }
    }

    pub fn new(id: u64, value: T) -> (r: Sig<T>)
        ensures
            r.model() == (SigModel { id: id as int, value: value@ }),
    {
        Sig { id, value }
    }

    /// Replace the held value, keeping the identity: change notification with
    /// no reallocation.
    pub fn set(&mut self, value: T)
        ensures
            final(self).model() == (SigModel { id: old(self).model().id, value: value@ }),
    {
        self.value = value;
    }
}

} // verus!
