//! Blobs compare by size alone.

use vstd::prelude::*;

use core::cmp::Ordering;

use crate::blob::BlobItem;

verus! {

impl PartialEq for BlobItem {
    fn eq(&self, other: &Self) -> (r: bool) {
        self.size == other.size
    }
}

impl vstd::std_specs::cmp::PartialEqSpecImpl for BlobItem {
    open spec fn obeys_eq_spec() -> bool {
        true
    }

    open spec fn eq_spec(&self, other: &Self) -> bool {
        self.size == other.size
    }
}

impl Eq for BlobItem {

}

impl PartialOrd for BlobItem {
    fn partial_cmp(&self, other: &Self) -> (r: Option<Ordering>) {
        if self.size < other.size {
            Some(Ordering::Less)
        } else if self.size == other.size {
            Some(Ordering::Equal)
        } else {
            Some(Ordering::Greater)
        }
    }
}

impl vstd::std_specs::cmp::PartialOrdSpecImpl for BlobItem {
    open spec fn obeys_partial_cmp_spec() -> bool {
        true
    }

    open spec fn partial_cmp_spec(&self, other: &Self) -> Option<Ordering> {
        if self.size < other.size {
            Some(Ordering::Less)
        } else if self.size == other.size {
            Some(Ordering::Equal)
        } else {
            Some(Ordering::Greater)
        }
    }
}

} // verus!
