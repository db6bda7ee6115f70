//! The supertrait that keeps [`crate::value::Sealed`] closed to other crates: it is public,
//! but its module is private, so no code outside this crate can implement it.

use vstd::prelude::*;

verus! {

pub trait Sealing {}

impl Sealing for u32 {}

impl Sealing for i32 {}

impl Sealing for i64 {}

impl Sealing for () {}

} // verus!
