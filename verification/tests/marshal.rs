use resonite_bindings::handle::{Utf8String, VariableArray, WRef};
use resonite_bindings::memory::Memory;

// Writes the bytes of `data` into the payload of the block at `offset`,
// starting at payload position `at`.
fn write_all(mem: &mut Memory, offset: i32, at: usize, data: &[u8]) {
    let mut i = 0;
    while i < data.len() {
        mem.write_byte(offset, at + i, data[i]);
        i += 1;
    }
}

#[test]
fn allocate_deallocate_round_trip() {
    let mut mem = Memory::new(4096);
    let offset = mem.allocate(40);
    mem.deallocate(offset);
    // The allocator stands where it stood: the same request is satisfied
    // again, at the same place.
    let again = mem.allocate(40);
    assert_eq!(offset, again);
    assert_eq!(mem.alloc_count(), 2);
    assert_eq!(mem.dealloc_count(), 1);
}

#[test]
fn round_trip_of_size_zero() {
    let mut mem = Memory::new(4096);
    let offset = mem.allocate(0);
    mem.deallocate(offset);
    let again = mem.allocate(0);
    assert_eq!(offset, again);
}

#[test]
fn header_records_exact_size() {
    let mut mem = Memory::new(65536);
    for size in [0i32, 1, 4, 31, 32, 33, 1000] {
        let offset = mem.allocate(size);
        assert_eq!(mem.header(offset), size);
    }
}

#[test]
fn header_bytes_are_little_endian() {
    let mut mem = Memory::new(4096);
    let offset = mem.allocate(0x0102_0304);
    let start = (offset - 4) as usize;
    assert_eq!(mem.read_byte(start), 0x04);
    assert_eq!(mem.read_byte(start + 1), 0x03);
    assert_eq!(mem.read_byte(start + 2), 0x02);
    assert_eq!(mem.read_byte(start + 3), 0x01);
}

#[test]
fn blocks_start_aligned() {
    let mut mem = Memory::new(4096);
    let first = mem.allocate(1);
    let second = mem.allocate(100);
    let third = mem.allocate(32);
    for offset in [first, second, third] {
        assert_eq!((offset - 4) % 32, 0);
    }
    assert_ne!(first, second);
    assert_ne!(second, third);
}

#[test]
fn empty_variable_array_of_every_element_type() {
    let mut mem = Memory::new(4096);
    let offset = mem.allocate(4);
    mem.write_word(offset, 0, 0);
    assert!(WRef::<VariableArray<u8>>::new(offset).elements(&mem).is_empty());
    assert!(WRef::<VariableArray<i8>>::new(offset).elements(&mem).is_empty());
    assert!(WRef::<VariableArray<u16>>::new(offset).elements(&mem).is_empty());
    assert!(WRef::<VariableArray<i16>>::new(offset).elements(&mem).is_empty());
    assert!(WRef::<VariableArray<u32>>::new(offset).elements(&mem).is_empty());
    assert!(WRef::<VariableArray<i32>>::new(offset).elements(&mem).is_empty());
    assert!(WRef::<VariableArray<u64>>::new(offset).elements(&mem).is_empty());
    assert!(WRef::<VariableArray<i64>>::new(offset).elements(&mem).is_empty());
    assert!(WRef::<VariableArray<bool>>::new(offset).elements(&mem).is_empty());
    let text = WRef::<Utf8String>::new(offset).text(&mem);
    assert_eq!(text.as_deref(), Some(""));
}

#[test]
fn utf8_string_spells_hello() {
    let mut mem = Memory::new(4096);
    let offset = mem.allocate(9);
    mem.write_word(offset, 0, 5);
    write_all(&mut mem, offset, 4, b"hello");
    let handle = WRef::<Utf8String>::new(offset);
    assert_eq!(handle.content_bytes(&mem), b"hello".to_vec());
    assert_eq!(handle.text(&mem).as_deref(), Some("hello"));
}

#[test]
fn malformed_utf8_is_reported_not_read() {
    let mut mem = Memory::new(4096);
    let offset = mem.allocate(6);
    mem.write_word(offset, 0, 2);
    write_all(&mut mem, offset, 4, &[0xff, 0xfe]);
    assert_eq!(WRef::<Utf8String>::new(offset).text(&mem), None);
}

#[test]
fn negative_handle_never_deallocates() {
    let mut mem = Memory::new(4096);
    let block = mem.allocate(8);
    let borrowed = WRef::<i32>::new(-1);
    borrowed.release(&mut mem);
    let far = WRef::<Utf8String>::new(i32::MIN);
    far.release(&mut mem);
    assert_eq!(mem.dealloc_count(), 0);
    // The allocated block is untouched.
    assert_eq!(mem.header(block), 8);
}

#[test]
fn owned_handle_deallocates_exactly_once() {
    let mut mem = Memory::new(4096);
    let offset = mem.allocate(8);
    assert_eq!(mem.dealloc_count(), 0);
    let owned = WRef::<i32>::new(offset);
    owned.release(&mut mem);
    assert_eq!(mem.dealloc_count(), 1);
    // The block really went back to the allocator: its space is handed out
    // again.
    assert_eq!(mem.allocate(8), offset);
}

#[test]
fn fixed_array_reads_no_length_prefix() {
    let mut mem = Memory::new(4096);
    let offset = mem.allocate(16);
    // Only the four raw elements, no count word ahead of them.
    write_all(&mut mem, offset, 0, &[0x0a, 0, 0, 0]);
    write_all(&mut mem, offset, 4, &[0x0b, 0, 0, 0]);
    write_all(&mut mem, offset, 8, &[0x0c, 0, 0, 0]);
    write_all(&mut mem, offset, 12, &[0x0d, 0, 0, 0]);
    let handle = WRef::<[i32; 4]>::new(offset);
    assert_eq!(handle.elements(&mem), vec![10, 11, 12, 13]);
}

#[test]
fn scalar_views_decode_little_endian() {
    let mut mem = Memory::new(4096);
    let offset = mem.allocate(8);
    write_all(&mut mem, offset, 0, &[0x78, 0x56, 0x34, 0x12, 0, 0, 0, 0]);
    assert_eq!(WRef::<i32>::new(offset).value(&mem), 0x1234_5678);
    assert_eq!(WRef::<u32>::new(offset).value(&mem), 0x1234_5678);
    assert_eq!(WRef::<u16>::new(offset).value(&mem), 0x5678);
    assert_eq!(WRef::<u8>::new(offset).value(&mem), 0x78);
    assert_eq!(WRef::<u64>::new(offset).value(&mem), 0x1234_5678u64);
}

#[test]
fn signed_views_decode_twos_complement() {
    let mut mem = Memory::new(4096);
    let offset = mem.allocate(8);
    write_all(&mut mem, offset, 0, &[0xff; 8]);
    assert_eq!(WRef::<i8>::new(offset).value(&mem), -1);
    assert_eq!(WRef::<i16>::new(offset).value(&mem), -1);
    assert_eq!(WRef::<i32>::new(offset).value(&mem), -1);
    assert_eq!(WRef::<i64>::new(offset).value(&mem), -1);
    write_all(&mut mem, offset, 0, &[0x80, 0x80, 0, 0, 0, 0, 0, 0]);
    assert_eq!(WRef::<i8>::new(offset).value(&mem), -128);
    assert_eq!(WRef::<i16>::new(offset).value(&mem), -32640);
}

#[test]
fn write_word_round_trips_negative_values() {
    let mut mem = Memory::new(4096);
    let offset = mem.allocate(4);
    mem.write_word(offset, 0, -123_456);
    assert_eq!(WRef::<i32>::new(offset).value(&mem), -123_456);
    mem.write_word(offset, 0, i32::MIN);
    assert_eq!(WRef::<i32>::new(offset).value(&mem), i32::MIN);
}

#[test]
fn variable_array_of_shorts() {
    let mut mem = Memory::new(4096);
    let offset = mem.allocate(10);
    mem.write_word(offset, 0, 3);
    write_all(&mut mem, offset, 4, &[0x01, 0x00, 0x02, 0x00, 0xff, 0xff]);
    let handle = WRef::<VariableArray<i16>>::new(offset);
    assert_eq!(handle.count(&mem), 3);
    assert_eq!(handle.elements(&mem), vec![1, 2, -1]);
}

#[test]
fn bool_vector_reads_raw_bytes() {
    let mut mem = Memory::new(4096);
    let offset = mem.allocate(3);
    write_all(&mut mem, offset, 0, &[1, 0, 1]);
    let handle: resonite_bindings::catalog::WBool3 = WRef::new(offset);
    assert_eq!(handle.elements(&mem), vec![true, false, true]);
}

#[test]
fn string_is_byte_identical_to_byte_array() {
    let mut mem = Memory::new(4096);
    let offset = mem.allocate(8);
    mem.write_word(offset, 0, 4);
    write_all(&mut mem, offset, 4, b"text");
    let binary: resonite_bindings::catalog::WBinary = WRef::new(offset);
    let bytes = binary.elements(&mem);
    let string = binary.reinterpret::<Utf8String>();
    assert_eq!(string.content_bytes(&mem), bytes);
    assert_eq!(string.text(&mem).as_deref(), Some("text"));
}

#[test]
fn handle_reports_its_offset() {
    let owned = WRef::<u8>::new(36);
    assert_eq!(owned.offset(), 36);
    let borrowed = WRef::<u8>::new(-7);
    assert_eq!(borrowed.offset(), -7);
}

#[test]
fn capacity_and_counters() {
    let mut mem = Memory::new(1024);
    assert_eq!(mem.capacity(), 1024);
    assert_eq!(mem.alloc_count(), 0);
    assert_eq!(mem.dealloc_count(), 0);
    let a = mem.allocate(1);
    let b = mem.allocate(1);
    assert_eq!(mem.alloc_count(), 2);
    mem.deallocate(b);
    mem.deallocate(a);
    assert_eq!(mem.dealloc_count(), 2);
}
