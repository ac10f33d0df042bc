//! Sizes in bytes, as the graphics device wants them.

use vstd::prelude::*;

verus! {

/// The size of a slice's contents in bytes, as a signed integer.
pub fn byte_size_of_array<T>(val: &[T]) -> (bytes: isize)
    ensures
        bytes == vstd::layout::spec_size_of_val::<[T]>(val) as isize,
{
    #[verifier::truncate]
    (core::mem::size_of_val(val) as isize)
}

/// The size of a type in bytes, as a 32-bit signed integer.
pub fn size_of<T>() -> (bytes: i32)
    ensures
        bytes == vstd::layout::size_of::<T>() as i32,
{
    #[verifier::truncate]
    (core::mem::size_of::<T>() as i32)
}

} // verus!
