//! The typed reference handle over a raw offset.
//!
//! A [`WRef`] is a pointer-sized handle holding a raw offset into the shared
//! address space, tagged at compile time with the logical shape it is read
//! as: a scalar `T`, a fixed-length array `[T; N]`, a [`VariableArray<T>`]
//! whose element count is stored in a word just before the element data, or
//! a [`Utf8String`], byte-identical to a variable array of bytes.
//!
//! Ownership rides on the sign bit of the offset: a handle whose offset is
//! negative when read as a signed 32-bit integer is a borrowed view of
//! host-owned memory and must never free it; any other handle exclusively
//! owns its block and returns it to the allocator exactly once, when it is
//! released. The handle is not copyable — a copy would create two owners —
//! and no validation is performed at construction: the offset is trusted to
//! have been produced by the counterparty under the wire contract, and the
//! view preconditions record exactly what that trust assumes.
//!
//! The sign-bit sentinel puts a ceiling on the ownable range: a block whose
//! address reached the sign bit would be indistinguishable from a borrowed
//! view. [`crate::memory::Memory`] caps its capacity below that ceiling.

use vstd::prelude::*;
use core::marker::PhantomData;
use crate::memory::{Memory, spec_deallocate};
use crate::wire::Wire;
use crate::word::le_word_signed;

verus! {

/// Shape tag: a run of elements of `T` whose count is stored as a signed
/// word immediately before the element data. The count word is always
/// present for this shape, for host-owned blocks too; it mirrors the
/// allocation header in width but is logically distinct from it.
pub struct VariableArray<T> {
    element: PhantomData<T>,
}

/// Shape tag: a variable array of bytes whose content is UTF-8 text. The
/// validity of the bytes is assumed from the producer, never checked at the
/// type level; [`WRef::<Utf8String>::text`] reports a malformed payload
/// rather than reading it as text.
pub struct Utf8String {}

/// The sequence of `n` elements of `T` spelled by the bytes of `b` starting
/// at `base`, each element `T::width()` bytes wide.
pub open spec fn elements_spec<T: Wire>(b: Seq<u8>, base: int, n: int) -> Seq<T>
    recommends
        0 <= base,
        0 <= n,
        base + n * T::width() <= b.len(),
{
    Seq::new(
        n as nat,
        |i: int|
            T::decode_spec(b.subrange(base + i * T::width(), base + (i + 1) * T::width())),
    )
}

/// A decoded run depends on the element bytes alone: two byte stores that
/// agree on the `n * T::width()` bytes at `base` — whatever stands before
/// them, length prefix or not, and whatever follows — spell the same
/// elements.
pub proof fn lemma_elements_depend_on_element_bytes_only<T: Wire>(
    b1: Seq<u8>,
    b2: Seq<u8>,
    base: int,
    n: int,
)
    requires
        0 <= base,
        0 <= n,
        base + n * T::width() <= b1.len(),
        base + n * T::width() <= b2.len(),
        forall|a: int| base <= a < base + n * T::width() ==> b1[a] == b2[a],
    ensures
        elements_spec::<T>(b1, base, n) == elements_spec::<T>(b2, base, n),
{
    T::width_bounds();
    let w = T::width();
    assert forall|i: int| 0 <= i < n implies elements_spec::<T>(b1, base, n)[i]
        == elements_spec::<T>(b2, base, n)[i] by {
        assert(0 <= i * w && i * w + w == (i + 1) * w && (i + 1) * w <= n * w)
            by (nonlinear_arith)
            requires
                0 <= i < n,
                1 <= w,
        ;
        assert(b1.subrange(base + i * w, base + (i + 1) * w) =~= b2.subrange(
            base + i * w,
            base + (i + 1) * w,
        ));
    }
    assert(elements_spec::<T>(b1, base, n) =~= elements_spec::<T>(b2, base, n));
}

/// For byte elements the decoded run is the byte run itself.
pub proof fn lemma_byte_elements(b: Seq<u8>, base: int, n: int)
    requires
        0 <= base,
        0 <= n,
        base + n <= b.len(),
    ensures
        elements_spec::<u8>(b, base, n) == b.subrange(base, base + n),
{
    assert(elements_spec::<u8>(b, base, n) =~= b.subrange(base, base + n));
}

/// Reads `n` elements of `T` from `bytes` starting at `base`.
fn decode_run<T: Wire>(bytes: &Vec<u8>, base: usize, n: usize) -> (r: Vec<T>)
    requires
        base + n * T::width() <= bytes@.len(),
    ensures
        r@ == elements_spec::<T>(bytes@, base as int, n as int),
        r@.len() == n,
{
    proof {
        T::width_bounds();
    }
    let w = T::width_exec();
    let len = bytes.len();
    let mut out: Vec<T> = Vec::new();
    let mut i: usize = 0;
    while i < n
        invariant
            i <= n,
            w == T::width(),
            1 <= w <= 8,
            len == bytes@.len(),
            base + n * T::width() <= len,
            out@.len() == i,
            forall|j: int|
                0 <= j < i ==> out@[j] == elements_spec::<T>(bytes@, base as int, n as int)[j],
        decreases n - i,
    {
        proof {
            assert(0 <= i * (w as int) && i * (w as int) + w == (i + 1) * (w as int) && (i
                + 1) * (w as int) <= n * (w as int)) by (nonlinear_arith)
                requires
                    0 <= i < n,
                    1 <= w,
            ;
        }
        let address = base + i * w;
        let e = T::decode_at(bytes, address);
        out.push(e);
        proof {
            let ghost idx = i as int;
            assert(out@[idx] == elements_spec::<T>(bytes@, base as int, n as int)[idx]);
        }
        i = i + 1;
    }
    proof {
        assert(out@ =~= elements_spec::<T>(bytes@, base as int, n as int));
    }
    out
}

/// A typed, ownership-aware reference to an offset in the shared address
/// space, read as values of shape `T`.
pub struct WRef<T> {
    inner: i32,
    shape: PhantomData<T>,
}

impl<T> WRef<T> {
    /// The raw offset the handle holds.
    pub closed spec fn raw(self) -> int {
        self.inner as int
    }

    /// Whether the handle owns its block. The sign bit of the offset is the
    /// sentinel: a negative offset means "host-owned, do not free".
    pub open spec fn owned(self) -> bool {
        self.raw() >= 0
    }

    /// Wraps a raw offset. No validation is performed: the offset is
    /// trusted to point at a block laid out for shape `T` by the
    /// counterparty.
    pub fn new(offset: i32) -> (h: WRef<T>)
        ensures
            h.raw() == offset,
    {
        WRef { inner: offset, shape: PhantomData }
    }

    /// The raw offset, as the host would see it.
    pub fn offset(&self) -> (r: i32)
        ensures
            r == self.raw(),
    {
        self.inner
    }

    /// Rereads the same offset as another shape, passing ownership along.
    /// This is the unchecked shape cast of the wire contract; in particular
    /// a UTF-8 string is by definition a variable array of bytes reread as
    /// text.
    pub fn reinterpret<U>(self) -> (h: WRef<U>)
        ensures
            h.raw() == self.raw(),
            h.owned() == self.owned(),
    {
        WRef { inner: self.inner, shape: PhantomData }
    }

    /// Ends the handle's scope. An owning handle returns its block to the
    /// allocator — exactly once, with the offset it holds, reading the size
    /// back from the allocation header; the payload bytes are released
    /// without any per-element cleanup, which is sound because every shape
    /// in the catalog is plain bytes. A non-owning (sentinel) handle leaves
    /// the memory exactly as it was and triggers no deallocation.
    pub fn release(self, mem: &mut Memory)
        requires
            old(mem)@.wf(),
            self.owned() ==> old(mem)@.live.contains(self.raw()),
        ensures
            final(mem)@.wf(),
            !self.owned() ==> final(mem)@ == old(mem)@,
            !self.owned() ==> final(mem)@.deallocs == old(mem)@.deallocs,
            self.owned() ==> final(mem)@ == spec_deallocate(old(mem)@, self.raw()),
            self.owned() ==> final(mem)@.deallocs == old(mem)@.deallocs + 1,
            self.owned() ==> final(mem)@.live == old(mem)@.live.remove(self.raw()),
            final(mem)@.bytes == old(mem)@.bytes,
            final(mem)@.len() == old(mem)@.len(),
    {
        if self.inner >= 0 {
            mem.deallocate(self.inner);
        }
    }
}

impl<T: Wire> WRef<T> {
    /// Reads the offset as one value of `T`.
    pub fn value(&self, mem: &Memory) -> (r: T)
        requires
            0 <= self.raw(),
            self.raw() + T::width() <= mem@.len(),
        ensures
            r == T::decode_spec(mem@.bytes.subrange(self.raw(), self.raw() + T::width())),
    {
        proof {
            T::width_bounds();
        }
        T::decode_at(mem.bytes(), self.inner as usize)
    }
}

impl<T: Wire, const N: usize> WRef<[T; N]> {
    /// Reads the offset as `N` elements of `T`. The count is a static
    /// property of the shape: no length prefix is read or depended on, the
    /// first element starts at the offset itself.
    pub fn elements(&self, mem: &Memory) -> (r: Vec<T>)
        requires
            0 <= self.raw(),
            self.raw() + N * T::width() <= mem@.len(),
        ensures
            r@ == elements_spec::<T>(mem@.bytes, self.raw(), N as int),
            r@.len() == N,
    {
        decode_run(mem.bytes(), self.inner as usize, N)
    }
}

/// The element count of a variable array at `base`: the signed word stored
/// immediately before the element data.
pub open spec fn count_of(b: Seq<u8>, base: int) -> int
    recommends
        0 <= base,
        base + 4 <= b.len(),
{
    le_word_signed(b, base)
}

impl<T: Wire> WRef<VariableArray<T>> {
    /// The element count stored at the offset.
    pub fn count(&self, mem: &Memory) -> (r: i32)
        requires
            0 <= self.raw(),
            self.raw() + 4 <= mem@.len(),
        ensures
            r == count_of(mem@.bytes, self.raw()),
    {
        mem.word_at(self.inner as usize)
    }

    /// Reads the offset as a variable array: the count word at the offset,
    /// then that many elements of `T` immediately after it. A zero count
    /// yields the empty view.
    pub fn elements(&self, mem: &Memory) -> (r: Vec<T>)
        requires
            0 <= self.raw(),
            self.raw() + 4 <= mem@.len(),
            0 <= count_of(mem@.bytes, self.raw()),
            self.raw() + 4 + count_of(mem@.bytes, self.raw()) * T::width() <= mem@.len(),
        ensures
            r@ == elements_spec::<T>(
                mem@.bytes,
                self.raw() + 4,
                count_of(mem@.bytes, self.raw()),
            ),
            r@.len() == count_of(mem@.bytes, self.raw()),
    {
        let cap = mem.capacity();
        assert(self.inner + 4 <= cap);
        let c = mem.word_at(self.inner as usize);
        let n = c as usize;
        decode_run(mem.bytes(), self.inner as usize + 4, n)
    }
}

/// What reading a run of bytes as UTF-8 yields: the text when the bytes are
/// valid UTF-8, nothing otherwise. The relation takes pages to write out, so
/// it stands here only as a name; it is a function of the bytes alone.
pub uninterp spec fn utf8_text_of(b: Seq<u8>) -> Option<Seq<char>>;

/// Relies on `alloc::string::String::from_utf8`: returns the text the bytes
/// spell when they are valid UTF-8, and an error — mapped to `None` here —
/// exactly otherwise; the outcome depends on the bytes alone.
#[verifier::external_body]
fn decode_utf8(bytes: Vec<u8>) -> (r: Option<String>)
    ensures
        (match r {
            Some(s) => utf8_text_of(bytes@) == Some(s@),
            None => utf8_text_of(bytes@) is None,
        }),
        bytes@.len() == 0 ==> r is Some,
{
    match String::from_utf8(bytes) {
        Ok(s) => Some(s),
        Err(_) => None,
    }
}

impl WRef<Utf8String> {
    /// The raw byte content: the handle read as a variable array of bytes,
    /// to which this shape is byte-identical.
    pub fn content_bytes(&self, mem: &Memory) -> (r: Vec<u8>)
        requires
            0 <= self.raw(),
            self.raw() + 4 <= mem@.len(),
            0 <= count_of(mem@.bytes, self.raw()),
            self.raw() + 4 + count_of(mem@.bytes, self.raw()) <= mem@.len(),
        ensures
            r@ == mem@.bytes.subrange(
                self.raw() + 4,
                self.raw() + 4 + count_of(mem@.bytes, self.raw()),
            ),
            r@.len() == count_of(mem@.bytes, self.raw()),
    {
        let cap = mem.capacity();
        assert(self.inner + 4 <= cap);
        let c = mem.word_at(self.inner as usize);
        let n = c as usize;
        let r = decode_run::<u8>(mem.bytes(), self.inner as usize + 4, n);
        proof {
            lemma_byte_elements(mem@.bytes, self.raw() + 4, n as int);
        }
        r
    }

    /// Reads the offset as text: the byte content reread as UTF-8. The wire
    /// contract assumes the producer wrote valid UTF-8; a payload that is
    /// not yields `None` rather than text.
    pub fn text(&self, mem: &Memory) -> (r: Option<String>)
        requires
            0 <= self.raw(),
            self.raw() + 4 <= mem@.len(),
            0 <= count_of(mem@.bytes, self.raw()),
            self.raw() + 4 + count_of(mem@.bytes, self.raw()) <= mem@.len(),
        ensures
            (match r {
                Some(s) => utf8_text_of(
                    mem@.bytes.subrange(
                        self.raw() + 4,
                        self.raw() + 4 + count_of(mem@.bytes, self.raw()),
                    ),
                ) == Some(s@),
                None => utf8_text_of(
                    mem@.bytes.subrange(
                        self.raw() + 4,
                        self.raw() + 4 + count_of(mem@.bytes, self.raw()),
                    ),
                ) is None,
            }),
            count_of(mem@.bytes, self.raw()) == 0 ==> r is Some,
    {
        let content = self.content_bytes(mem);
        decode_utf8(content)
    }
}

} // verus!
