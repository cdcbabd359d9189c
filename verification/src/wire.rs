//! The closed catalog of element types that may cross the boundary.
//!
//! Every payload shape is built from elements that are plain little-endian
//! bytes on the wire and carry no resources of their own, so that releasing
//! a block never has to run any per-element cleanup. [`Wire`] is that
//! interface-level constraint: a type in the catalog says how wide one
//! element is and what value a run of that many bytes spells.

use vstd::prelude::*;

verus! {

/// An element type of the catalog: a fixed number of little-endian bytes on
/// the wire, decodable from any run of that many bytes.
pub trait Wire: Sized {
    /// Number of bytes one element occupies on the wire.
    spec fn width() -> int;

    /// The value spelled by `width()` little-endian bytes.
    spec fn decode_spec(b: Seq<u8>) -> Self;

    /// Elements are between one and eight bytes wide.
    proof fn width_bounds()
        ensures
            1 <= Self::width() <= 8,
    ;

    /// Executable counterpart of [`Wire::width`].
    fn width_exec() -> (r: usize)
        ensures
            r == Self::width(),
    ;

    /// Reads one element from `bytes` starting at `address`.
    fn decode_at(bytes: &Vec<u8>, address: usize) -> (r: Self)
        requires
            address + Self::width() <= bytes@.len(),
        ensures
            r == Self::decode_spec(
                bytes@.subrange(address as int, address as int + Self::width()),
            ),
    ;
}

impl Wire for u8 {
    open spec fn width() -> int {
        1
    }

    open spec fn decode_spec(b: Seq<u8>) -> Self {
        b[0]
    }

    proof fn width_bounds() {
    }

    fn width_exec() -> usize {
        1
    }

    fn decode_at(bytes: &Vec<u8>, address: usize) -> Self {
        bytes[address]
    }
}

impl Wire for i8 {
    open spec fn width() -> int {
        1
    }

    open spec fn decode_spec(b: Seq<u8>) -> Self {
        (if b[0] < 0x80 {
            b[0] as int
        } else {
            b[0] - 0x100
        }) as i8
    }

    proof fn width_bounds() {
    }

    fn width_exec() -> usize {
        1
    }

    fn decode_at(bytes: &Vec<u8>, address: usize) -> Self {
        let b = bytes[address];
        if b < 0x80 {
            b as i8
        } else {
            ((b as i16) - 0x100i16) as i8
        }
    }
}

impl Wire for bool {
    open spec fn width() -> int {
        1
    }

    open spec fn decode_spec(b: Seq<u8>) -> Self {
        b[0] != 0
    }

    proof fn width_bounds() {
    }

    fn width_exec() -> usize {
        1
    }

    fn decode_at(bytes: &Vec<u8>, address: usize) -> Self {
        bytes[address] != 0
    }
}

impl Wire for u16 {
    open spec fn width() -> int {
        2
    }

    open spec fn decode_spec(b: Seq<u8>) -> Self {
        (b[0] + 0x100 * b[1]) as u16
    }

    proof fn width_bounds() {
    }

    fn width_exec() -> usize {
        2
    }

    fn decode_at(bytes: &Vec<u8>, address: usize) -> Self {
        let n = bytes.len();
        assert(address + 2 <= n);
        let b0 = bytes[address];
        let b1 = bytes[address + 1];
        b0 as u16 + (b1 as u16) * 0x100
    }
}

impl Wire for i16 {
    open spec fn width() -> int {
        2
    }

    open spec fn decode_spec(b: Seq<u8>) -> Self {
        ({
            let u = b[0] + 0x100 * b[1];
            if u < 0x8000 {
                u
            } else {
                u - 0x1_0000
            }
        }) as i16
    }

    proof fn width_bounds() {
    }

    fn width_exec() -> usize {
        2
    }

    fn decode_at(bytes: &Vec<u8>, address: usize) -> Self {
        let n = bytes.len();
        assert(address + 2 <= n);
        let b0 = bytes[address];
        let b1 = bytes[address + 1];
        let u: u16 = b0 as u16 + (b1 as u16) * 0x100;
        if u < 0x8000 {
            u as i16
        } else {
            ((u as i32) - 0x1_0000i32) as i16
        }
    }
}

impl Wire for u32 {
    open spec fn width() -> int {
        4
    }

    open spec fn decode_spec(b: Seq<u8>) -> Self {
        (b[0] + 0x100 * b[1] + 0x1_0000 * b[2] + 0x100_0000 * b[3]) as u32
    }

    proof fn width_bounds() {
    }

    fn width_exec() -> usize {
        4
    }

    fn decode_at(bytes: &Vec<u8>, address: usize) -> Self {
        let n = bytes.len();
        assert(address + 4 <= n);
        let b0 = bytes[address];
        let b1 = bytes[address + 1];
        let b2 = bytes[address + 2];
        let b3 = bytes[address + 3];
        b0 as u32 + (b1 as u32) * 0x100 + (b2 as u32) * 0x1_0000 + (b3 as u32) * 0x100_0000
    }
}

impl Wire for i32 {
    open spec fn width() -> int {
        4
    }

    open spec fn decode_spec(b: Seq<u8>) -> Self {
        ({
            let u = b[0] + 0x100 * b[1] + 0x1_0000 * b[2] + 0x100_0000 * b[3];
            if u < 0x8000_0000 {
                u
            } else {
                u - 0x1_0000_0000
            }
        }) as i32
    }

    proof fn width_bounds() {
    }

    fn width_exec() -> usize {
        4
    }

    fn decode_at(bytes: &Vec<u8>, address: usize) -> Self {
        let n = bytes.len();
        assert(address + 4 <= n);
        let b0 = bytes[address];
        let b1 = bytes[address + 1];
        let b2 = bytes[address + 2];
        let b3 = bytes[address + 3];
        let u: u32 = b0 as u32 + (b1 as u32) * 0x100 + (b2 as u32) * 0x1_0000 + (b3 as u32)
            * 0x100_0000;
        if u < 0x8000_0000 {
            u as i32
        } else {
            ((u as i64) - 0x1_0000_0000i64) as i32
        }
    }
}

impl Wire for u64 {
    open spec fn width() -> int {
        8
    }

    open spec fn decode_spec(b: Seq<u8>) -> Self {
        (b[0] + 0x100 * b[1] + 0x1_0000 * b[2] + 0x100_0000 * b[3] + 0x1_0000_0000 * b[4]
            + 0x100_0000_0000 * b[5] + 0x1_0000_0000_0000 * b[6] + 0x100_0000_0000_0000
            * b[7]) as u64
    }

    proof fn width_bounds() {
    }

    fn width_exec() -> usize {
        8
    }

    fn decode_at(bytes: &Vec<u8>, address: usize) -> Self {
        let n = bytes.len();
        assert(address + 8 <= n);
        let b0 = bytes[address];
        let b1 = bytes[address + 1];
        let b2 = bytes[address + 2];
        let b3 = bytes[address + 3];
        let b4 = bytes[address + 4];
        let b5 = bytes[address + 5];
        let b6 = bytes[address + 6];
        let b7 = bytes[address + 7];
        b0 as u64 + (b1 as u64) * 0x100 + (b2 as u64) * 0x1_0000 + (b3 as u64) * 0x100_0000 + (
        b4 as u64) * 0x1_0000_0000 + (b5 as u64) * 0x100_0000_0000 + (b6 as u64)
            * 0x1_0000_0000_0000 + (b7 as u64) * 0x100_0000_0000_0000
    }
}

impl Wire for i64 {
    open spec fn width() -> int {
        8
    }

    open spec fn decode_spec(b: Seq<u8>) -> Self {
        ({
            let u = b[0] + 0x100 * b[1] + 0x1_0000 * b[2] + 0x100_0000 * b[3] + 0x1_0000_0000
                * b[4] + 0x100_0000_0000 * b[5] + 0x1_0000_0000_0000 * b[6]
                + 0x100_0000_0000_0000 * b[7];
            if u < 0x8000_0000_0000_0000 {
                u
            } else {
                u - 0x1_0000_0000_0000_0000
            }
        }) as i64
    }

    proof fn width_bounds() {
    }

    fn width_exec() -> usize {
        8
    }

    fn decode_at(bytes: &Vec<u8>, address: usize) -> Self {
        let n = bytes.len();
        assert(address + 8 <= n);
        let b0 = bytes[address];
        let b1 = bytes[address + 1];
        let b2 = bytes[address + 2];
        let b3 = bytes[address + 3];
        let b4 = bytes[address + 4];
        let b5 = bytes[address + 5];
        let b6 = bytes[address + 6];
        let b7 = bytes[address + 7];
        let u: u64 = b0 as u64 + (b1 as u64) * 0x100 + (b2 as u64) * 0x1_0000 + (b3 as u64)
            * 0x100_0000 + (b4 as u64) * 0x1_0000_0000 + (b5 as u64) * 0x100_0000_0000 + (
        b6 as u64) * 0x1_0000_0000_0000 + (b7 as u64) * 0x100_0000_0000_0000;
        if u < 0x8000_0000_0000_0000 {
            u as i64
        } else {
            ((u as i128) - 0x1_0000_0000_0000_0000i128) as i64
        }
    }
}

} // verus!
