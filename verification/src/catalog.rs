//! The closed catalog of named wire types.
//!
//! Pure naming over the two primitives — the allocator adapter and the
//! typed handle: scalar integers of four widths, signed and unsigned,
//! fixed-size vectors of two, three or four elements, boolean vectors, a
//! UTF-8 string and an opaque binary blob. Every shape here is plain bytes
//! with no resources of its own, which is what lets a handle release its
//! block without running any per-element cleanup. Floating-point element
//! shapes are not part of this verified catalog.

use vstd::prelude::*;
use crate::handle::{WRef, VariableArray, Utf8String};

verus! {

pub type WSByte = i8;

pub type WShort = i16;

pub type WInt = i32;

pub type WLong = i64;

pub type WByte = u8;

pub type WUShort = u16;

pub type WUInt = u32;

pub type WULong = u64;

pub type WIntVec<const N: usize> = WRef<[i32; N]>;

pub type WInt2 = WIntVec<2>;

pub type WInt3 = WIntVec<3>;

pub type WInt4 = WIntVec<4>;

pub type WLongVec<const N: usize> = WRef<[i64; N]>;

pub type WLong2 = WLongVec<2>;

pub type WLong3 = WLongVec<3>;

pub type WLong4 = WLongVec<4>;

pub type WUIntVec<const N: usize> = WRef<[u32; N]>;

pub type WUInt2 = WUIntVec<2>;

pub type WUInt3 = WUIntVec<3>;

pub type WUInt4 = WUIntVec<4>;

pub type WULongVec<const N: usize> = WRef<[u64; N]>;

pub type WULong2 = WULongVec<2>;

pub type WULong3 = WULongVec<3>;

pub type WULong4 = WULongVec<4>;

pub type WBoolVec<const N: usize> = WRef<[bool; N]>;

pub type WBool2 = WBoolVec<2>;

pub type WBool3 = WBoolVec<3>;

pub type WBool4 = WBoolVec<4>;

pub type WStr = WRef<Utf8String>;

pub type WBinary = WRef<VariableArray<u8>>;

} // verus!
