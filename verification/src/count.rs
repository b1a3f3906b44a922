//! The element type of the counts array: an unsigned integer of 8, 16, 32 or
//! 64 bits.

use vstd::prelude::*;

verus! {

/// An unsigned integer that can hold the count of one slot.
pub trait HistogramCount: Copy + Sized {
    /// The number that the count stands for.
    spec fn value(self) -> nat;

    /// The largest number that a count of this type can stand for.
    spec fn spec_max_value() -> nat;

    /// The number of bytes of one count.
    spec fn spec_word_size() -> nat;

    /// Every count lies within the range of its type, which lies within 64 bits.
    proof fn lemma_value_in_range(self)
        ensures
            self.value() <= Self::spec_max_value(),
            Self::spec_max_value() <= u64::MAX,
            Self::spec_max_value() >= 1,
    ;

    /// The count of an empty slot.
    fn zero() -> (r: Self)
        ensures
            r.value() == 0,
    ;

    /// The count of a slot that one value was recorded in.
    fn one() -> (r: Self)
        ensures
            r.value() == 1,
    ;

    /// The count as a 64-bit number.
    fn as_u64(self) -> (r: u64)
        ensures
            r == self.value(),
    ;

    /// The count that stands for `v`, if the type can hold it.
    fn from_u64(v: u64) -> (r: Option<Self>)
        ensures
            v <= Self::spec_max_value() ==> r.is_some() && r.unwrap().value() == v,
            v > Self::spec_max_value() ==> r.is_none(),
    ;

    /// The count plus one, if the type can hold it.
    fn checked_increment(self) -> (r: Option<Self>)
        ensures
            self.value() < Self::spec_max_value() ==> r.is_some() && r.unwrap().value()
                == self.value() + 1,
            self.value() >= Self::spec_max_value() ==> r.is_none(),
    ;

    /// The number of bytes of one count.
    fn word_size() -> (r: u8)
        ensures
            r == Self::spec_word_size(),
            r == 1 || r == 2 || r == 4 || r == 8,
    ;
}

/// `num::Zero::zero` for `u8`: the number 0.
#[verifier::external_body]
fn zero_u8() -> (r: u8)
    ensures
        r == 0,
{
    <u8 as num::Zero>::zero()
}

/// `num::One::one` for `u8`: the number 1.
#[verifier::external_body]
fn one_u8() -> (r: u8)
    ensures
        r == 1,
{
    <u8 as num::One>::one()
}

/// `num::ToPrimitive::to_u64` for `u8`: always `Some`, holding the same number.
#[verifier::external_body]
fn to_u64_u8(v: u8) -> (r: Option<u64>)
    ensures
        r == Some(v as u64),
{
    num::ToPrimitive::to_u64(&v)
}

impl HistogramCount for u8 {
    open spec fn value(self) -> nat {
        self as nat
    }

    open spec fn spec_max_value() -> nat {
        0xff
    }

    open spec fn spec_word_size() -> nat {
        1
    }

    proof fn lemma_value_in_range(self) {
    }

    fn zero() -> (r: Self) {
        zero_u8()
    }

    fn one() -> (r: Self) {
        one_u8()
    }

    fn as_u64(self) -> (r: u64) {
        match to_u64_u8(self) {
            Some(v) => v,
            None => 0,
        }
    }

    fn from_u64(v: u64) -> (r: Option<Self>) {
        if v <= 0xff {
            Some(v as u8)
        } else {
            None
        }
    }

    fn checked_increment(self) -> (r: Option<Self>) {
        if self < u8::MAX {
            Some(self + one_u8())
        } else {
            None
        }
    }

    fn word_size() -> (r: u8) {
        1
    }
}

/// `num::Zero::zero` for `u16`: the number 0.
#[verifier::external_body]
fn zero_u16() -> (r: u16)
    ensures
        r == 0,
{
    <u16 as num::Zero>::zero()
}

/// `num::One::one` for `u16`: the number 1.
#[verifier::external_body]
fn one_u16() -> (r: u16)
    ensures
        r == 1,
{
    <u16 as num::One>::one()
}

/// `num::ToPrimitive::to_u64` for `u16`: always `Some`, holding the same number.
#[verifier::external_body]
fn to_u64_u16(v: u16) -> (r: Option<u64>)
    ensures
        r == Some(v as u64),
{
    num::ToPrimitive::to_u64(&v)
}

impl HistogramCount for u16 {
    open spec fn value(self) -> nat {
        self as nat
    }

    open spec fn spec_max_value() -> nat {
        0xffff
    }

    open spec fn spec_word_size() -> nat {
        2
    }

    proof fn lemma_value_in_range(self) {
    }

    fn zero() -> (r: Self) {
        zero_u16()
    }

    fn one() -> (r: Self) {
        one_u16()
    }

    fn as_u64(self) -> (r: u64) {
        match to_u64_u16(self) {
            Some(v) => v,
            None => 0,
        }
    }

    fn from_u64(v: u64) -> (r: Option<Self>) {
        if v <= 0xffff {
            Some(v as u16)
        } else {
            None
        }
    }

    fn checked_increment(self) -> (r: Option<Self>) {
        if self < u16::MAX {
            Some(self + one_u16())
        } else {
            None
        }
    }

    fn word_size() -> (r: u8) {
        2
    }
}

/// `num::Zero::zero` for `u32`: the number 0.
#[verifier::external_body]
fn zero_u32() -> (r: u32)
    ensures
        r == 0,
{
    <u32 as num::Zero>::zero()
}

/// `num::One::one` for `u32`: the number 1.
#[verifier::external_body]
fn one_u32() -> (r: u32)
    ensures
        r == 1,
{
    <u32 as num::One>::one()
}

/// `num::ToPrimitive::to_u64` for `u32`: always `Some`, holding the same number.
#[verifier::external_body]
fn to_u64_u32(v: u32) -> (r: Option<u64>)
    ensures
        r == Some(v as u64),
{
    num::ToPrimitive::to_u64(&v)
}

impl HistogramCount for u32 {
    open spec fn value(self) -> nat {
        self as nat
    }

    open spec fn spec_max_value() -> nat {
        0xffff_ffff
    }

    open spec fn spec_word_size() -> nat {
        4
    }

    proof fn lemma_value_in_range(self) {
    }

    fn zero() -> (r: Self) {
        zero_u32()
    }

    fn one() -> (r: Self) {
        one_u32()
    }

    fn as_u64(self) -> (r: u64) {
        match to_u64_u32(self) {
            Some(v) => v,
            None => 0,
        }
    }

    fn from_u64(v: u64) -> (r: Option<Self>) {
        if v <= 0xffff_ffff {
            Some(v as u32)
        } else {
            None
        }
    }

    fn checked_increment(self) -> (r: Option<Self>) {
        if self < u32::MAX {
            Some(self + one_u32())
        } else {
            None
        }
    }

    fn word_size() -> (r: u8) {
        4
    }
}

/// `num::Zero::zero` for `u64`: the number 0.
#[verifier::external_body]
fn zero_u64() -> (r: u64)
    ensures
        r == 0,
{
    <u64 as num::Zero>::zero()
}

/// `num::One::one` for `u64`: the number 1.
#[verifier::external_body]
fn one_u64() -> (r: u64)
    ensures
        r == 1,
{
    <u64 as num::One>::one()
}

/// `num::ToPrimitive::to_u64` for `u64`: always `Some`, holding the same number.
#[verifier::external_body]
fn to_u64_u64(v: u64) -> (r: Option<u64>)
    ensures
        r == Some(v as u64),
{
    num::ToPrimitive::to_u64(&v)
}

impl HistogramCount for u64 {
    open spec fn value(self) -> nat {
        self as nat
    }

    open spec fn spec_max_value() -> nat {
        0xffff_ffff_ffff_ffff
    }

    open spec fn spec_word_size() -> nat {
        8
    }

    proof fn lemma_value_in_range(self) {
    }

    fn zero() -> (r: Self) {
        zero_u64()
    }

    fn one() -> (r: Self) {
        one_u64()
    }

    fn as_u64(self) -> (r: u64) {
        match to_u64_u64(self) {
            Some(v) => v,
            None => 0,
        }
    }

    fn from_u64(v: u64) -> (r: Option<Self>) {
        Some(v)
    }

    fn checked_increment(self) -> (r: Option<Self>) {
        if self < u64::MAX {
            Some(self + one_u64())
        } else {
            None
        }
    }

    fn word_size() -> (r: u8) {
        8
    }
}

} // verus!
