use delay_effects::ring_buffer::RingBuffer;

// Splits a fractional offset from the read cursor into the slot it falls in
// and the weight of the slot after it.
fn split(ring_buffer: &RingBuffer<f32>, offset: f32) -> (usize, f32) {
    let index = ring_buffer.get_read_index() as f32 + offset;
    let rounded = index.floor() as usize;
    (rounded, index - rounded as f32)
}

fn get_frac(ring_buffer: &RingBuffer<f32>, offset: f32) -> f32 {
    let (index, frac) = split(ring_buffer, offset);
    ring_buffer.get_frac(index, frac)
}

#[test]
fn test_get_frac_exact_offset() {
    let mut ring_buffer = RingBuffer::new(5);
    for i in 1..6 {
        ring_buffer.push(i as f32);
    }

    assert_eq!(get_frac(&ring_buffer, 2.0), 3.0);
    assert_eq!(get_frac(&ring_buffer, 4.0), 5.0);
    assert_eq!(get_frac(&ring_buffer, 3.5), 4.5);
    assert_eq!(get_frac(&ring_buffer, 2.2), 3.2);
}

#[test]
fn test_wrapping() {
    // Test that ring buffer is a ring (wraps after more than `length` elements have entered).
    let capacity = 17;
    let delay = 5;
    let mut ring_buffer: RingBuffer<f32> = RingBuffer::new(capacity);

    for i in 0..delay {
        ring_buffer.push(i as f32);
    }

    for i in delay..capacity + 13 {
        assert_eq!(ring_buffer.len(), delay);
        assert_eq!(ring_buffer.pop(), (i - delay) as f32);
        ring_buffer.push(i as f32)
    }
}

#[test]
fn test_api() {
    // Basic test of all API functions.
    let capacity = 3;
    let mut ring_buffer = RingBuffer::new(capacity);
    assert_eq!(ring_buffer.capacity(), capacity);

    ring_buffer.put(3);
    assert_eq!(ring_buffer.peek(), 3);

    ring_buffer.set_write_index(1);
    assert_eq!(ring_buffer.get_write_index(), 1);

    ring_buffer.push(17);
    assert_eq!(ring_buffer.get_write_index(), 2);

    assert_eq!(ring_buffer.get_read_index(), 0);
    assert_eq!(ring_buffer.get(1), 17);
    assert_eq!(ring_buffer.pop(), 3);
    assert_eq!(ring_buffer.get_read_index(), 1);

    assert_eq!(ring_buffer.len(), 1);
    ring_buffer.push(42);
    assert_eq!(ring_buffer.len(), 2);

    assert_eq!(ring_buffer.get_write_index(), 0);

    // Should be unchanged.
    assert_eq!(ring_buffer.capacity(), capacity);
}

#[test]
fn test_capacity() {
    // Tricky: does `capacity` mean "size of internal buffer" or "number of elements before this is full"?
    let capacity = 3;
    let mut ring_buffer = RingBuffer::new(3);
    for i in 0..(capacity - 1) {
        ring_buffer.push(i);
        println!("{}", ring_buffer.len());
        assert_eq!(ring_buffer.len(), i + 1);
    }
}

#[test]
fn test_reset() {
    // Test state after initialization and reset.
    let mut ring_buffer = RingBuffer::new(512);

    // Check initial state.
    assert_eq!(ring_buffer.get_read_index(), 0);
    assert_eq!(ring_buffer.get_write_index(), 0);
    for i in 0..ring_buffer.capacity() {
        assert_eq!(ring_buffer.get(i), 0.0);
    }

    // Fill ring buffer, mess with indices.
    let fill = 123.456;
    for i in 0..ring_buffer.capacity() {
        ring_buffer.push(fill);
        assert_eq!(ring_buffer.get(i), fill);
    }

    ring_buffer.set_write_index(17);
    ring_buffer.set_read_index(42);

    // Check state after reset.
    ring_buffer.reset();
    assert_eq!(ring_buffer.get_read_index(), 0);
    assert_eq!(ring_buffer.get_write_index(), 0);
    for i in 0..ring_buffer.capacity() {
        assert_eq!(ring_buffer.get(i), 0.0);
    }
}

#[test]
fn test_weird_inputs() {
    let capacity = 5;
    let mut ring_buffer = RingBuffer::<f32>::new(capacity);

    ring_buffer.set_write_index(capacity);
    assert_eq!(ring_buffer.get_write_index(), 0);
    ring_buffer.set_write_index(capacity * 2 + 3);
    assert_eq!(ring_buffer.get_write_index(), 3);

    ring_buffer.set_read_index(capacity);
    assert_eq!(ring_buffer.get_read_index(), 0);
    ring_buffer.set_read_index(capacity * 2 + 3);
    assert_eq!(ring_buffer.get_read_index(), 3);

    // NOTE: Negative indices are also weird, but we can't even pass them due to type checking!
}

#[test]
fn new_buffer_is_empty_and_zeroed() {
    let ring_buffer = RingBuffer::<i32>::new(4);
    assert_eq!(ring_buffer.capacity(), 4);
    assert_eq!(ring_buffer.len(), 0);
    assert_eq!(ring_buffer.peek(), 0);
    for offset in 0..4 {
        assert_eq!(ring_buffer.get(offset), 0);
    }
}

#[test]
fn len_is_the_distance_between_the_cursors() {
    let mut ring_buffer = RingBuffer::<i32>::new(5);
    ring_buffer.set_write_index(1);
    ring_buffer.set_read_index(3);
    assert_eq!(ring_buffer.len(), 3);
    ring_buffer.set_read_index(1);
    assert_eq!(ring_buffer.len(), 0);
    ring_buffer.set_write_index(0);
    assert_eq!(ring_buffer.len(), 4);
}

#[test]
fn full_buffer_reads_as_empty() {
    let mut ring_buffer = RingBuffer::<i32>::new(3);
    for value in 1..=3 {
        ring_buffer.push(value);
    }
    assert_eq!(ring_buffer.len(), 0);
    assert_eq!(ring_buffer.get_write_index(), 0);
    assert_eq!(ring_buffer.pop(), 1);
}

#[test]
fn get_wraps_its_offset() {
    let mut ring_buffer = RingBuffer::<i32>::new(3);
    for value in [10, 20, 30] {
        ring_buffer.push(value);
    }
    ring_buffer.set_read_index(2);
    assert_eq!(ring_buffer.get(0), 30);
    assert_eq!(ring_buffer.get(1), 10);
    assert_eq!(ring_buffer.get(5), 20);
    assert_eq!(ring_buffer.get(usize::MAX), ring_buffer.get(usize::MAX % 3));
    // Reading does not move the cursor.
    assert_eq!(ring_buffer.get_read_index(), 2);
}

#[test]
fn put_and_peek_leave_the_cursors() {
    let mut ring_buffer = RingBuffer::<i32>::new(2);
    ring_buffer.put(5);
    ring_buffer.put(6);
    assert_eq!(ring_buffer.peek(), 6);
    assert_eq!(ring_buffer.peek(), 6);
    assert_eq!(ring_buffer.get_write_index(), 0);
    assert_eq!(ring_buffer.get_read_index(), 0);
    assert_eq!(ring_buffer.len(), 0);
}

#[test]
fn pop_returns_zero_where_nothing_was_written() {
    let mut ring_buffer = RingBuffer::<f32>::new(2);
    assert_eq!(ring_buffer.pop(), 0.0);
    assert_eq!(ring_buffer.get_read_index(), 1);
    assert_eq!(ring_buffer.pop(), 0.0);
    assert_eq!(ring_buffer.get_read_index(), 0);
}

#[test]
fn get_frac_blends_across_the_end_of_the_storage() {
    let mut ring_buffer = RingBuffer::<f32>::new(4);
    for value in [1.0, 2.0, 4.0, 8.0] {
        ring_buffer.push(value);
    }
    assert_eq!(ring_buffer.get_frac(3, 0.25), 8.0 * 0.75 + 0.25 * 1.0);
    assert_eq!(ring_buffer.get_frac(7, 0.5), 4.5);
    assert_eq!(ring_buffer.get_frac(usize::MAX, 0.0), ring_buffer.get_frac(usize::MAX % 4, 0.0));
    ring_buffer.set_read_index(2);
    assert_eq!(get_frac(&ring_buffer, 1.5), 4.5);
}

#[test]
fn capacity_of_one_keeps_both_cursors_at_zero() {
    let mut ring_buffer = RingBuffer::<i32>::new(1);
    ring_buffer.push(9);
    assert_eq!(ring_buffer.get_write_index(), 0);
    assert_eq!(ring_buffer.pop(), 9);
    assert_eq!(ring_buffer.get_read_index(), 0);
    ring_buffer.set_read_index(17);
    assert_eq!(ring_buffer.get_read_index(), 0);
    assert_eq!(ring_buffer.len(), 0);
}
