//! Fixed-width identifiers: 256-bit hashes and 160-bit contract addresses.
//!
//! Both are held as byte arrays, most significant byte first, and are viewed
//! as the sequence of their bytes.

use vstd::prelude::*;
use vstd::std_specs::cmp::PartialEqSpecImpl;

verus! {

/// Compares two byte arrays of one length position by position.
fn same_bytes<const N: usize>(a: &[u8; N], b: &[u8; N]) -> (same: bool)
    ensures
        same == (a@ == b@),
{
    let mut i: usize = 0;
    while i < N
        invariant
            i <= N,
            forall|k: int| 0 <= k < i ==> a@[k] == b@[k],
        decreases N - i,
    {
        if a[i] != b[i] {
            return false;
        }
        i = i + 1;
    }
    assert(a@ =~= b@);
    true
}

/// A 256-bit identifier: a block hash, a transaction hash or a log topic.
#[derive(Clone, Copy, Debug, Eq)]
pub struct Hash256 {
    pub bytes: [u8; 32],
}

impl View for Hash256 {
    type V = Seq<u8>;

    open spec fn view(&self) -> Seq<u8> {
        self.bytes@
    }
}

impl PartialEq for Hash256 {
    fn eq(&self, other: &Hash256) -> (same: bool) {
        same_bytes(&self.bytes, &other.bytes)
    }
}

impl PartialEqSpecImpl for Hash256 {
    open spec fn obeys_eq_spec() -> bool {
        true
    }

    open spec fn eq_spec(&self, other: &Hash256) -> bool {
        self@ == other@
    }
}

impl Hash256 {
    /// The identifier with the given bytes.
    pub fn new(bytes: [u8; 32]) -> (h: Hash256)
        ensures
            h@ == bytes@,
            h.bytes == bytes,
    {
        Hash256 { bytes }
    }

    /// The identifier whose bytes are all zero.
    pub fn zero() -> (h: Hash256)
        ensures
            h@ == Seq::new(32, |i: int| 0u8),
    {
        let h = Hash256 { bytes: [0u8; 32] };
        assert(h@ =~= Seq::new(32, |i: int| 0u8));
        h
    }

    /// The bytes of the identifier, most significant first.
    pub fn to_bytes(&self) -> (bytes: [u8; 32])
        ensures
            bytes@ == self@,
    {
        self.bytes
    }
}

/// A 160-bit contract or account address.
#[derive(Clone, Copy, Debug, Eq)]
pub struct Address {
    pub bytes: [u8; 20],
}

impl View for Address {
    type V = Seq<u8>;

    open spec fn view(&self) -> Seq<u8> {
        self.bytes@
    }
}

impl PartialEq for Address {
    fn eq(&self, other: &Address) -> (same: bool) {
        same_bytes(&self.bytes, &other.bytes)
    }
}

impl PartialEqSpecImpl for Address {
    open spec fn obeys_eq_spec() -> bool {
        true
    }

    open spec fn eq_spec(&self, other: &Address) -> bool {
        self@ == other@
    }
}

impl Address {
    /// The address with the given bytes.
    pub fn new(bytes: [u8; 20]) -> (a: Address)
        ensures
            a@ == bytes@,
            a.bytes == bytes,
    {
        Address { bytes }
    }

    /// The bytes of the address, most significant first.
    pub fn to_bytes(&self) -> (bytes: [u8; 20])
        ensures
            bytes@ == self@,
    {
        self.bytes
    }
}

} // verus!
