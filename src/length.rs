//! Byte counts with unit constructors and checked arithmetic.

use vstd::prelude::*;
use crate::hex::{lower_hex, lower_hex_bytes};
use vstd::std_specs::ops::AddSpec;
use vstd::std_specs::ops::SubSpec;

verus! {

/// The largest value a `Length` can hold.
pub open spec fn max_len() -> nat {
    u64::MAX as nat
}

/// One kibibyte: the base of every unit constructor.
pub const KIB: u64 = 1024;

/// A number of bytes.
#[derive(Debug, Copy, Clone, PartialEq, Eq, Structural, PartialOrd, Ord)]
pub struct Length(u64);

impl View for Length {
    type V = nat;

    /// The byte count as a mathematical number.
    closed spec fn view(&self) -> nat {
        self.0 as nat
    }
}

impl Length {
    /// The length with the given byte count.
    pub closed spec fn from_nat(n: nat) -> Length
        recommends
            n <= max_len(),
    {
        Length(n as u64)
    }

    /// The length built from a count in range holds that count; callers
    /// bring it in with `broadcast use` to read the `From` conversions.
    pub broadcast proof fn lemma_from_nat(n: nat)
        requires
            n <= max_len(),
        ensures
            (#[trigger] Length::from_nat(n))@ == n,
    {
    }

    /// Adding a length and then subtracting it again gives back the
    /// original length, whenever the sum fits in 64 bits.
    pub proof fn lemma_add_sub_cancel(a: Length, b: Length)
        requires
            a@ + b@ <= max_len(),
        ensures
            a.add_req(b),
            a.add_spec(b).sub_req(b),
            a.add_spec(b).sub_spec(b) == a,
    {
    }

    /// The zero length is a left identity of addition.
    pub proof fn lemma_zero_add(x: Length)
        ensures
            Length::from_nat(0).add_req(x),
            Length::from_nat(0).add_spec(x) == x,
    {
    }

    /// The additive identity.
    pub fn zero() -> (r: Self)
        ensures
            r == Length::from_nat(0),
            r@ == 0,
    {
        Length::from_b(0)
    }

    /// The value in lower-case hexadecimal, as ASCII digits without a
    /// prefix.
    pub fn to_lower_hex(&self) -> (r: Vec<u8>)
        ensures
            r@ == lower_hex(self@),
    {
        lower_hex_bytes(self.0)
    }

    pub fn as_u64(&self) -> (r: u64)
        ensures
            r as nat == self@,
    {
        self.0
    }

    /// The byte count as a platform-size integer, truncated where `usize`
    /// is narrower than 64 bits.
    pub fn as_usize(&self) -> (r: usize)
        ensures
            r == self@ as usize,
            self@ <= usize::MAX ==> r as nat == self@,
    {
        self.0 as usize
    }

    pub fn from_b(len: u64) -> (r: Self)
        ensures
            r == Length::from_nat(len as nat),
            r@ == len,
    {
        Length(len)
    }

    pub fn from_kb(len: u64) -> (r: Self)
        requires
            len * 1024 <= max_len(),
        ensures
            r@ == len * 1024,
    {
        Length(len * KIB)
    }

    pub fn from_kib(len: u64) -> (r: Self)
        requires
            len * 1024 <= max_len(),
        ensures
            r@ == len * 1024,
    {
        Length(len * KIB)
    }

    pub fn from_mb(len: u64) -> (r: Self)
        requires
            len * 1024 * 1024 <= max_len(),
        ensures
            r@ == len * 1024 * 1024,
    {
        Length(len * KIB * KIB)
    }

    pub fn from_mib(len: u64) -> (r: Self)
        requires
            len * 1024 * 1024 <= max_len(),
        ensures
            r@ == len * 1024 * 1024,
    {
        Length(len * KIB * KIB)
    }

    pub fn from_gb(len: u64) -> (r: Self)
        requires
            len * 1024 * 1024 * 1024 <= max_len(),
        ensures
            r@ == len * 1024 * 1024 * 1024,
    {
        Length(len * KIB * KIB * KIB)
    }

    pub fn from_gib(len: u64) -> (r: Self)
        requires
            len * 1024 * 1024 * 1024 <= max_len(),
        ensures
            r@ == len * 1024 * 1024 * 1024,
    {
        Length(len * KIB * KIB * KIB)
    }
}

impl From<u64> for Length {
    fn from(item: u64) -> (r: Self) {
        Length(item)
    }
}

impl vstd::std_specs::convert::FromSpecImpl<u64> for Length {
    open spec fn obeys_from_spec() -> bool {
        true
    }

    open spec fn from_spec(v: u64) -> Length {
        Length::from_nat(v as nat)
    }
}

impl From<usize> for Length {
    fn from(item: usize) -> (r: Self) {
        Length(item as u64)
    }
}

impl vstd::std_specs::convert::FromSpecImpl<usize> for Length {
    open spec fn obeys_from_spec() -> bool {
        true
    }

    open spec fn from_spec(v: usize) -> Length {
        Length::from_nat(v as nat)
    }
}

/// A negative `i32` is taken as its two's-complement bit pattern widened
/// to 64 bits.
impl From<i32> for Length {
    fn from(item: i32) -> (r: Self) {
        Length(item as u64)
    }
}

impl vstd::std_specs::convert::FromSpecImpl<i32> for Length {
    open spec fn obeys_from_spec() -> bool {
        true
    }

    open spec fn from_spec(v: i32) -> Length {
        Length::from_nat((v as u64) as nat)
    }
}

/// Checked: the sum must fit in 64 bits.
impl core::ops::Add<Length> for Length {
    type Output = Length;

    fn add(self, other: Length) -> (r: Length) {
        Length(self.0 + other.0)
    }
}

impl vstd::std_specs::ops::AddSpecImpl<Length> for Length {
    open spec fn obeys_add_spec() -> bool {
        true
    }

    open spec fn add_req(self, other: Length) -> bool {
        self@ + other@ <= max_len()
    }

    open spec fn add_spec(self, other: Length) -> Length {
        Length::from_nat(self@ + other@)
    }
}

/// Checked: the subtrahend must not exceed the minuend.
impl core::ops::Sub<Length> for Length {
    type Output = Length;

    fn sub(self, other: Length) -> (r: Length) {
        Length(self.0 - other.0)
    }
}

impl vstd::std_specs::ops::SubSpecImpl<Length> for Length {
    open spec fn obeys_sub_spec() -> bool {
        true
    }

    open spec fn sub_req(self, other: Length) -> bool {
        other@ <= self@
    }

    open spec fn sub_spec(self, other: Length) -> Length {
        Length::from_nat((self@ - other@) as nat)
    }
}

impl core::ops::Add<u32> for Length {
    type Output = Length;

    fn add(self, other: u32) -> (r: Length) {
        Length(self.0 + other as u64)
    }
}

impl vstd::std_specs::ops::AddSpecImpl<u32> for Length {
    open spec fn obeys_add_spec() -> bool {
        true
    }

    open spec fn add_req(self, other: u32) -> bool {
        self@ + other <= max_len()
    }

    open spec fn add_spec(self, other: u32) -> Length {
        Length::from_nat((self@ + other) as nat)
    }
}

impl core::ops::Sub<u32> for Length {
    type Output = Length;

    fn sub(self, other: u32) -> (r: Length) {
        Length(self.0 - other as u64)
    }
}

impl vstd::std_specs::ops::SubSpecImpl<u32> for Length {
    open spec fn obeys_sub_spec() -> bool {
        true
    }

    open spec fn sub_req(self, other: u32) -> bool {
        other <= self@
    }

    open spec fn sub_spec(self, other: u32) -> Length {
        Length::from_nat((self@ - other) as nat)
    }
}

impl core::ops::Add<u64> for Length {
    type Output = Length;

    fn add(self, other: u64) -> (r: Length) {
        Length(self.0 + other as u64)
    }
}

impl vstd::std_specs::ops::AddSpecImpl<u64> for Length {
    open spec fn obeys_add_spec() -> bool {
        true
    }

    open spec fn add_req(self, other: u64) -> bool {
        self@ + other <= max_len()
    }

    open spec fn add_spec(self, other: u64) -> Length {
        Length::from_nat((self@ + other) as nat)
    }
}

impl core::ops::Sub<u64> for Length {
    type Output = Length;

    fn sub(self, other: u64) -> (r: Length) {
        Length(self.0 - other as u64)
    }
}

impl vstd::std_specs::ops::SubSpecImpl<u64> for Length {
    open spec fn obeys_sub_spec() -> bool {
        true
    }

    open spec fn sub_req(self, other: u64) -> bool {
        other <= self@
    }

    open spec fn sub_spec(self, other: u64) -> Length {
        Length::from_nat((self@ - other) as nat)
    }
}

impl core::ops::Add<usize> for Length {
    type Output = Length;

    fn add(self, other: usize) -> (r: Length) {
        Length(self.0 + other as u64)
    }
}

impl vstd::std_specs::ops::AddSpecImpl<usize> for Length {
    open spec fn obeys_add_spec() -> bool {
        true
    }

    open spec fn add_req(self, other: usize) -> bool {
        self@ + other <= max_len()
    }

    open spec fn add_spec(self, other: usize) -> Length {
        Length::from_nat((self@ + other) as nat)
    }
}

impl core::ops::Sub<usize> for Length {
    type Output = Length;

    fn sub(self, other: usize) -> (r: Length) {
        Length(self.0 - other as u64)
    }
}

impl vstd::std_specs::ops::SubSpecImpl<usize> for Length {
    open spec fn obeys_sub_spec() -> bool {
        true
    }

    open spec fn sub_req(self, other: usize) -> bool {
        other <= self@
    }

    open spec fn sub_spec(self, other: usize) -> Length {
        Length::from_nat((self@ - other) as nat)
    }
}

/// A negative operand moves the count down; the result must stay in range.
impl core::ops::Add<i32> for Length {
    type Output = Length;

    fn add(self, other: i32) -> (r: Length) {
        if other >= 0 {
            Length(self.0 + other as u64)
        } else {
            Length(self.0 - ((0i32 - (other + 1)) as u64 + 1))
        }
    }
}

impl vstd::std_specs::ops::AddSpecImpl<i32> for Length {
    open spec fn obeys_add_spec() -> bool {
        true
    }

    open spec fn add_req(self, other: i32) -> bool {
        0 <= self@ + other <= max_len()
    }

    open spec fn add_spec(self, other: i32) -> Length {
        Length::from_nat((self@ + other) as nat)
    }
}

/// A negative operand moves the count up; the result must stay in range.
impl core::ops::Sub<i32> for Length {
    type Output = Length;

    fn sub(self, other: i32) -> (r: Length) {
        if other >= 0 {
            Length(self.0 - other as u64)
        } else {
            Length(self.0 + ((0i32 - (other + 1)) as u64 + 1))
        }
    }
}

impl vstd::std_specs::ops::SubSpecImpl<i32> for Length {
    open spec fn obeys_sub_spec() -> bool {
        true
    }

    open spec fn sub_req(self, other: i32) -> bool {
        0 <= self@ - other <= max_len()
    }

    open spec fn sub_spec(self, other: i32) -> Length {
        Length::from_nat((self@ - other) as nat)
    }
}

/// A negative operand moves the count down; the result must stay in range.
impl core::ops::Add<i64> for Length {
    type Output = Length;

    fn add(self, other: i64) -> (r: Length) {
        if other >= 0 {
            Length(self.0 + other as u64)
        } else {
            Length(self.0 - ((0i64 - (other + 1)) as u64 + 1))
        }
    }
}

impl vstd::std_specs::ops::AddSpecImpl<i64> for Length {
    open spec fn obeys_add_spec() -> bool {
        true
    }

    open spec fn add_req(self, other: i64) -> bool {
        0 <= self@ + other <= max_len()
    }

    open spec fn add_spec(self, other: i64) -> Length {
        Length::from_nat((self@ + other) as nat)
    }
}

/// A negative operand moves the count up; the result must stay in range.
impl core::ops::Sub<i64> for Length {
    type Output = Length;

    fn sub(self, other: i64) -> (r: Length) {
        if other >= 0 {
            Length(self.0 - other as u64)
        } else {
            Length(self.0 + ((0i64 - (other + 1)) as u64 + 1))
        }
    }
}

impl vstd::std_specs::ops::SubSpecImpl<i64> for Length {
    open spec fn obeys_sub_spec() -> bool {
        true
    }

    open spec fn sub_req(self, other: i64) -> bool {
        0 <= self@ - other <= max_len()
    }

    open spec fn sub_spec(self, other: i64) -> Length {
        Length::from_nat((self@ - other) as nat)
    }
}

impl core::ops::AddAssign<Length> for Length {
    fn add_assign(&mut self, other: Length)
        requires
            0 <= old(self)@ + other@ <= max_len(),
        ensures
            final(self)@ == old(self)@ + other@,
    {
        *self = *self + other;
    }
}

impl core::ops::SubAssign<Length> for Length {
    fn sub_assign(&mut self, other: Length)
        requires
            0 <= old(self)@ - other@ <= max_len(),
        ensures
            final(self)@ == old(self)@ - other@,
    {
        *self = *self - other;
    }
}

impl core::ops::AddAssign<i32> for Length {
    fn add_assign(&mut self, other: i32)
        requires
            0 <= old(self)@ + other <= max_len(),
        ensures
            final(self)@ == old(self)@ + other,
    {
        *self = *self + other;
    }
}

impl core::ops::SubAssign<i32> for Length {
    fn sub_assign(&mut self, other: i32)
        requires
            0 <= old(self)@ - other <= max_len(),
        ensures
            final(self)@ == old(self)@ - other,
    {
        *self = *self - other;
    }
}

impl core::ops::AddAssign<u32> for Length {
    fn add_assign(&mut self, other: u32)
        requires
            0 <= old(self)@ + other <= max_len(),
        ensures
            final(self)@ == old(self)@ + other,
    {
        *self = *self + other;
    }
}

impl core::ops::SubAssign<u32> for Length {
    fn sub_assign(&mut self, other: u32)
        requires
            0 <= old(self)@ - other <= max_len(),
        ensures
            final(self)@ == old(self)@ - other,
    {
        *self = *self - other;
    }
}

impl core::ops::AddAssign<i64> for Length {
    fn add_assign(&mut self, other: i64)
        requires
            0 <= old(self)@ + other <= max_len(),
        ensures
            final(self)@ == old(self)@ + other,
    {
        *self = *self + other;
    }
}

impl core::ops::SubAssign<i64> for Length {
    fn sub_assign(&mut self, other: i64)
        requires
            0 <= old(self)@ - other <= max_len(),
        ensures
            final(self)@ == old(self)@ - other,
    {
        *self = *self - other;
    }
}

impl core::ops::AddAssign<u64> for Length {
    fn add_assign(&mut self, other: u64)
        requires
            0 <= old(self)@ + other <= max_len(),
        ensures
            final(self)@ == old(self)@ + other,
    {
        *self = *self + other;
    }
}

impl core::ops::SubAssign<u64> for Length {
    fn sub_assign(&mut self, other: u64)
        requires
            0 <= old(self)@ - other <= max_len(),
        ensures
            final(self)@ == old(self)@ - other,
    {
        *self = *self - other;
    }
}

impl core::ops::AddAssign<usize> for Length {
    fn add_assign(&mut self, other: usize)
        requires
            0 <= old(self)@ + other <= max_len(),
        ensures
            final(self)@ == old(self)@ + other,
    {
        *self = *self + other;
    }
}

impl core::ops::SubAssign<usize> for Length {
    fn sub_assign(&mut self, other: usize)
        requires
            0 <= old(self)@ - other <= max_len(),
        ensures
            final(self)@ == old(self)@ - other,
    {
        *self = *self - other;
    }
}

} // verus!
