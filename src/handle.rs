//! Typed handles: a `u64` branded with the value type it was issued for.
use std::marker::PhantomData;
use vstd::prelude::*;

verus! {

/// The handle to an item of a `RandMap<V>`: an opaque `u64`, typed by `V` so
/// that a handle issued by one map is not silently used with a map of
/// another value type.
#[derive(Debug, Hash, Ord)]
pub struct Handle<V> {
    pub raw: u64,
    pub brand: PhantomData<V>,
}

impl<V> Handle<V> {
    /// The handle whose raw value is `u`.
    pub fn from_u64(u: u64) -> (h: Self)
        ensures
            h.raw == u,
    {
        Handle { raw: u, brand: PhantomData }
    }

    /// The raw value of this handle.
    pub fn as_u64(&self) -> (u: u64)
        ensures
            u == self.raw,
    {
        self.raw
    }
}

impl<V> Clone for Handle<V> {
    fn clone(&self) -> (h: Self)
        ensures
            h.raw == self.raw,
    {
        Handle { raw: self.raw, brand: PhantomData }
    }
}

impl<V> Copy for Handle<V> {

}

impl<V> PartialEq for Handle<V> {
    fn eq(&self, other: &Self) -> (r: bool)
        ensures
            r == (self.raw == other.raw),
    {
        self.raw == other.raw
    }
}

impl<V> vstd::std_specs::cmp::PartialEqSpecImpl for Handle<V> {
    open spec fn obeys_eq_spec() -> bool {
        true
    }

    open spec fn eq_spec(&self, other: &Self) -> bool {
        self.raw == other.raw
    }
}

impl<V> Eq for Handle<V> {

}

impl<V> PartialOrd for Handle<V> {
    fn partial_cmp(&self, other: &Self) -> (r: Option<std::cmp::Ordering>) {
        if self.raw < other.raw {
            Some(std::cmp::Ordering::Less)
        } else if self.raw == other.raw {
            Some(std::cmp::Ordering::Equal)
        } else {
            Some(std::cmp::Ordering::Greater)
        }
    }
}

impl<V> vstd::std_specs::cmp::PartialOrdSpecImpl for Handle<V> {
    open spec fn obeys_partial_cmp_spec() -> bool {
        true
    }

    open spec fn partial_cmp_spec(&self, other: &Self) -> Option<std::cmp::Ordering> {
        if self.raw < other.raw {
            Some(std::cmp::Ordering::Less)
        } else if self.raw == other.raw {
            Some(std::cmp::Ordering::Equal)
        } else {
            Some(std::cmp::Ordering::Greater)
        }
    }
}

impl<V> From<u64> for Handle<V> {
    fn from(u: u64) -> (h: Self) {
        Handle { raw: u, brand: PhantomData }
    }
}

impl<V> vstd::std_specs::convert::FromSpecImpl<u64> for Handle<V> {
    open spec fn obeys_from_spec() -> bool {
        true
    }

    open spec fn from_spec(u: u64) -> Self {
        Handle { raw: u, brand: PhantomData }
    }
}

impl<V> From<Handle<V>> for u64 {
    fn from(h: Handle<V>) -> (u: u64) {
        h.raw
    }
}

impl<V> vstd::std_specs::convert::FromSpecImpl<Handle<V>> for u64 {
    open spec fn obeys_from_spec() -> bool {
        true
    }

    open spec fn from_spec(h: Handle<V>) -> u64 {
        h.raw
    }
}

} // verus!
