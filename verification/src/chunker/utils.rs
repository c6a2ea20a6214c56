//! Utility fns.

use vstd::prelude::*;
use vstd::std_specs::cmp::{PartialOrdIs, PartialOrdSpec};

verus! {

/// Two-way conversion to the usize.
///
/// Implemented for the unsigned integer types; `as_int` is the value of the number.
pub trait UsizeInterop: Sized + Copy {
    /// The value of `self` as a mathematical integer.
    spec fn as_int(self) -> int;

    /// The largest value of the type.
    spec fn max_int() -> int;

    /// The value lies within the type's range, and determines the number.
    proof fn lemma_as_int(self, other: Self)
        ensures
            0 <= self.as_int() <= Self::max_int(),
            self.as_int() == other.as_int() ==> self == other,
    ;

    /// The type can hold at least the values of a byte.
    proof fn lemma_max_int()
        ensures
            Self::max_int() >= 255,
    ;

    /// Convert the value to usize, if it fits.
    fn try_into_usize(self) -> (r: Option<usize>)
        ensures
            r is Some <==> self.as_int() <= usize::MAX,
            r matches Some(v) ==> v == self.as_int(),
    ;

    /// Convert the value from usize, if it fits.
    fn try_from_usize(value: usize) -> (r: Option<Self>)
        ensures
            r is Some <==> value <= Self::max_int(),
            r matches Some(v) ==> v.as_int() == value,
    ;
}

impl UsizeInterop for u8 {
    open spec fn as_int(self) -> int {
        self as int
    }

    open spec fn max_int() -> int {
        u8::MAX as int
    }

    proof fn lemma_as_int(self, other: Self) {
    }

    proof fn lemma_max_int() {
    }

    fn try_into_usize(self) -> (r: Option<usize>) {
        Some(self as usize)
    }

    fn try_from_usize(value: usize) -> (r: Option<Self>) {
        if value <= u8::MAX as usize {
            Some(value as u8)
        } else {
            None
        }
    }
}

impl UsizeInterop for u16 {
    open spec fn as_int(self) -> int {
        self as int
    }

    open spec fn max_int() -> int {
        u16::MAX as int
    }

    proof fn lemma_as_int(self, other: Self) {
    }

    proof fn lemma_max_int() {
    }

    fn try_into_usize(self) -> (r: Option<usize>) {
        Some(self as usize)
    }

    fn try_from_usize(value: usize) -> (r: Option<Self>) {
        if value <= u16::MAX as usize {
            Some(value as u16)
        } else {
            None
        }
    }
}

impl UsizeInterop for u32 {
    open spec fn as_int(self) -> int {
        self as int
    }

    open spec fn max_int() -> int {
        u32::MAX as int
    }

    proof fn lemma_as_int(self, other: Self) {
    }

    proof fn lemma_max_int() {
    }

    fn try_into_usize(self) -> (r: Option<usize>) {
        Some(self as usize)
    }

    fn try_from_usize(value: usize) -> (r: Option<Self>) {
        if value as u64 <= u32::MAX as u64 {
            Some(value as u32)
        } else {
            None
        }
    }
}

impl UsizeInterop for u64 {
    open spec fn as_int(self) -> int {
        self as int
    }

    open spec fn max_int() -> int {
        u64::MAX as int
    }

    proof fn lemma_as_int(self, other: Self) {
    }

    proof fn lemma_max_int() {
    }

    fn try_into_usize(self) -> (r: Option<usize>) {
        if self <= usize::MAX as u64 {
            Some(self as usize)
        } else {
            None
        }
    }

    fn try_from_usize(value: usize) -> (r: Option<Self>) {
        Some(value as u64)
    }
}

impl UsizeInterop for usize {
    open spec fn as_int(self) -> int {
        self as int
    }

    open spec fn max_int() -> int {
        usize::MAX as int
    }

    proof fn lemma_as_int(self, other: Self) {
    }

    proof fn lemma_max_int() {
    }

    fn try_into_usize(self) -> (r: Option<usize>) {
        Some(self)
    }

    fn try_from_usize(value: usize) -> (r: Option<Self>) {
        Some(value)
    }
}

/// Convert the value to usize; the value must fit.
pub fn to_usize<T: UsizeInterop>(val: T) -> (r: usize)
    requires
        val.as_int() <= usize::MAX,
    ensures
        r == val.as_int(),
{
    val.try_into_usize().unwrap()
}

/// Convert the value from usize; the value must fit.
pub fn from_usize<T: UsizeInterop>(val: usize) -> (r: T)
    requires
        val <= T::max_int(),
    ensures
        r.as_int() == val,
{
    T::try_from_usize(val).unwrap()
}

/// Check if the value is within the bound (less or equal).
pub fn is_within_bound<T: PartialOrd>(what: T, bound: T) -> (r: bool)
    ensures
        T::obeys_partial_cmp_spec() ==> r == what.is_le(&bound),
{
    what <= bound
}

/// Return the value if it is bounded by the bound.
pub fn bounded<T: PartialOrd + Copy>(what: T, bound: T) -> (r: Option<T>)
    ensures
        r matches Some(v) ==> v == what,
        T::obeys_partial_cmp_spec() ==> (r is Some <==> what.is_le(&bound)),
{
    if is_within_bound(what, bound) {
        return Some(what);
    }
    None
}

/// Get the last valid offset in the space of the given size.
pub fn last_valid_offset(size: usize) -> (r: Option<usize>)
    ensures
        r == (if size == 0 {
            None
        } else {
            Some((size - 1) as usize)
        }),
{
    size.checked_sub(1)
}

/// Get last byte of the chunk from the first byte of the chunk and the chunk size.
pub fn first_to_last_byte_of_chunk(first_byte_offset: usize, chunk_size: usize) -> (r: usize)
    requires
        chunk_size >= 1,
        first_byte_offset + chunk_size - 1 <= usize::MAX,
    ensures
        r == first_byte_offset + chunk_size - 1,
{
    first_byte_offset + (chunk_size - 1)
}

} // verus!
