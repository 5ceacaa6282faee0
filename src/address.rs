//! Byte addresses in a virtual or physical address space.

use vstd::prelude::*;
use crate::hex::{lower_hex, lower_hex_bytes};
use crate::length::Length;

verus! {

/// A 64-bit byte address. The same type serves virtual and physical
/// addresses; which space a value belongs to is known from context.
#[derive(Debug, Copy, Clone, PartialEq, Eq, Structural, PartialOrd, Ord)]
pub struct Address(u64);

impl View for Address {
    type V = nat;

    closed spec fn view(&self) -> nat {
        self.0 as nat
    }
}

impl Address {
    /// The address with the given numeric value.
    pub closed spec fn from_nat(n: nat) -> Address
        recommends
            n <= u64::MAX,
    {
        Address(n as u64)
    }

    /// The address built from a value in range holds that value; callers
    /// bring it in with `broadcast use` to read the `From` conversions.
    pub broadcast proof fn lemma_from_nat(n: nat)
        requires
            n <= u64::MAX,
        ensures
            (#[trigger] Address::from_nat(n))@ == n,
    {
    }

    pub fn null() -> (r: Self)
        ensures
            r@ == 0,
    {
        Address(0)
    }

    pub fn is_null(&self) -> (r: bool)
        ensures
            r == (self@ == 0),
    {
        self.0 == 0
    }

    /// The value in lower-case hexadecimal, as ASCII digits without a
    /// prefix.
    pub fn to_lower_hex(&self) -> (r: Vec<u8>)
        ensures
            r@ == lower_hex(self@),
    {
        lower_hex_bytes(self.0)
    }

    pub fn as_u64(&self) -> (r: u64)
        ensures
            r as nat == self@,
    {
        self.0
    }

    /// The address as a platform-size integer, truncated where `usize` is
    /// narrower than 64 bits.
    pub fn as_usize(&self) -> (r: usize)
        ensures
            r == self@ as usize,
            self@ <= usize::MAX ==> r as nat == self@,
    {
        self.0 as usize
    }

    /// The address `len` bytes further on, or `None` past the top of the
    /// 64-bit space.
    pub fn checked_add(&self, len: Length) -> (r: Option<Address>)
        ensures
            r is Some <==> self@ + len@ <= u64::MAX,
            r is Some ==> r->Some_0@ == self@ + len@,
    {
        let n = len.as_u64();
        if n <= u64::MAX - self.0 {
            Some(Address(self.0 + n))
        } else {
            None
        }
    }

    /// The address `len` bytes back, or `None` below zero.
    pub fn checked_sub(&self, len: Length) -> (r: Option<Address>)
        ensures
            r is Some <==> len@ <= self@,
            r is Some ==> r->Some_0@ == self@ - len@,
    {
        let n = len.as_u64();
        if n <= self.0 {
            Some(Address(self.0 - n))
        } else {
            None
        }
    }

    /// The distance from `other` up to this address.
    pub fn distance_from(&self, other: Address) -> (r: Option<Length>)
        ensures
            r is Some <==> other@ <= self@,
            r is Some ==> r->Some_0@ == self@ - other@,
    {
        if other.0 <= self.0 {
            Some(Length::from_b(self.0 - other.0))
        } else {
            None
        }
    }
}

impl From<u64> for Address {
    fn from(item: u64) -> (r: Self) {
        Address(item)
    }
}

impl vstd::std_specs::convert::FromSpecImpl<u64> for Address {
    open spec fn obeys_from_spec() -> bool {
        true
    }

    open spec fn from_spec(v: u64) -> Address {
        Address::from_nat(v as nat)
    }
}

impl From<usize> for Address {
    fn from(item: usize) -> (r: Self) {
        Address(item as u64)
    }
}

impl vstd::std_specs::convert::FromSpecImpl<usize> for Address {
    open spec fn obeys_from_spec() -> bool {
        true
    }

    open spec fn from_spec(v: usize) -> Address {
        Address::from_nat(v as nat)
    }
}

/// A negative `i32` is taken as its two's-complement bit pattern widened
/// to 64 bits.
impl From<i32> for Address {
    fn from(item: i32) -> (r: Self) {
        Address(item as u64)
    }
}

impl vstd::std_specs::convert::FromSpecImpl<i32> for Address {
    open spec fn obeys_from_spec() -> bool {
        true
    }

    open spec fn from_spec(v: i32) -> Address {
        Address::from_nat((v as u64) as nat)
    }
}

/// Checked: the result must not pass the top of the 64-bit space.
impl core::ops::Add<Length> for Address {
    type Output = Address;

    fn add(self, other: Length) -> (r: Address) {
        Address(self.0 + other.as_u64())
    }
}

impl vstd::std_specs::ops::AddSpecImpl<Length> for Address {
    open spec fn obeys_add_spec() -> bool {
        true
    }

    open spec fn add_req(self, other: Length) -> bool {
        self@ + other@ <= u64::MAX
    }

    open spec fn add_spec(self, other: Length) -> Address {
        Address::from_nat(self@ + other@)
    }
}

/// Checked: the result must not go below zero.
impl core::ops::Sub<Length> for Address {
    type Output = Address;

    fn sub(self, other: Length) -> (r: Address) {
        Address(self.0 - other.as_u64())
    }
}

impl vstd::std_specs::ops::SubSpecImpl<Length> for Address {
    open spec fn obeys_sub_spec() -> bool {
        true
    }

    open spec fn sub_req(self, other: Length) -> bool {
        other@ <= self@
    }

    open spec fn sub_spec(self, other: Length) -> Address {
        Address::from_nat((self@ - other@) as nat)
    }
}

} // verus!
