//! Names under which the network finds its objects.

use vstd::prelude::*;
use crate::bytes::{bytes_copy, bytes_eq};

verus! {

/// The identifier under which a blob or a record can be fetched. The
/// overlay never looks inside one: it only compares and carries them.
#[derive(Debug)]
pub struct NetworkName {
    pub bytes: Vec<u8>,
}

impl View for NetworkName {
    type V = Seq<u8>;

    open spec fn view(&self) -> Seq<u8> {
        self.bytes@
    }
}

impl Clone for NetworkName {
    fn clone(&self) -> (r: Self)
        ensures
            r@ == self@,
    {
        NetworkName { bytes: bytes_copy(&self.bytes) }
    }
}

impl NetworkName {
    /// The name made of the given bytes.
    pub fn new(bytes: Vec<u8>) -> (r: NetworkName)
        ensures
            r@ == bytes@,
    {
        NetworkName { bytes }
    }

    /// Whether two names are the same name.
    pub fn same(&self, other: &NetworkName) -> (r: bool)
        ensures
            r == (self@ == other@),
    {
        bytes_eq(&self.bytes, &other.bytes)
    }
}

/// The view of a key: a name and a type tag.
pub type KeyView = (Seq<u8>, u64);

/// The view of an optional key.
pub open spec fn key_option_view(key: Option<(NetworkName, u64)>) -> Option<KeyView> {
    match key {
        Some(k) => Some((k.0@, k.1)),
        None => None,
    }
}

/// A copy of an optional key.
pub fn key_option_clone(key: &Option<(NetworkName, u64)>) -> (r: Option<(NetworkName, u64)>)
    ensures
        key_option_view(r) == key_option_view(*key),
{
    match key {
        Some(k) => Some((k.0.clone(), k.1)),
        None => None,
    }
}

/// Whether two optional keys are the same.
pub fn key_option_same(a: &Option<(NetworkName, u64)>, b: &Option<(NetworkName, u64)>) -> (r: bool)
    ensures
        r == (key_option_view(*a) == key_option_view(*b)),
{
    match (a, b) {
        (Some(x), Some(y)) => x.0.same(&y.0) && x.1 == y.1,
        (None, None) => true,
        _ => false,
    }
}

} // verus!
