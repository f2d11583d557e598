//! Equality and order of Ion Hashes: two hashes are equal where their buffers
//! are, and they are ordered by the reverse-lexicographic signed-byte order
//! of their buffers.

use crate::hasher::Hasher;
use crate::ion_hash::{bytes_equal, bytes_precede, precedes, IonHash};
use std::cmp::Ordering;
use vstd::prelude::*;
use vstd::std_specs::cmp::{PartialEqSpecImpl, PartialOrdSpecImpl};

verus! {

impl<D: Hasher> PartialEq for IonHash<D> {
    fn eq(&self, other: &IonHash<D>) -> (r: bool) {
        bytes_equal(self.get(), other.get())
    }
}

impl<D: Hasher> PartialEqSpecImpl for IonHash<D> {
    open spec fn obeys_eq_spec() -> bool {
        true
    }

    open spec fn eq_spec(&self, other: &IonHash<D>) -> bool {
        self@ == other@
    }
}

impl<D: Hasher> PartialOrd for IonHash<D> {
    fn partial_cmp(&self, other: &IonHash<D>) -> (r: Option<Ordering>) {
        if bytes_precede(self.get(), other.get()) {
            Some(Ordering::Less)
        } else if bytes_precede(other.get(), self.get()) {
            Some(Ordering::Greater)
        } else {
            Some(Ordering::Equal)
        }
    }
}

impl<D: Hasher> PartialOrdSpecImpl for IonHash<D> {
    open spec fn obeys_partial_cmp_spec() -> bool {
        true
    }

    open spec fn partial_cmp_spec(&self, other: &IonHash<D>) -> Option<Ordering> {
        if precedes(self@, other@) {
            Some(Ordering::Less)
        } else if precedes(other@, self@) {
            Some(Ordering::Greater)
        } else {
            Some(Ordering::Equal)
        }
    }
}

} // verus!
