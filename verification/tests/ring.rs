use diag_transport::ring::OverflowPolicy;
use diag_transport::ring::RingBuffer;

#[test]
fn new_buffer_is_empty() {
    let rb = RingBuffer::new(8, OverflowPolicy::NoBlockTrim);
    assert_eq!(rb.used_len(), 0);
    assert_eq!(rb.free_space(), 7);
    assert_eq!(rb.capacity_len(), 7);
    assert_eq!(rb.size_len(), 8);
    assert_eq!(rb.read_offset_val(), 0);
    assert_eq!(rb.write_offset_val(), 0);
}

#[test]
fn full_and_empty_are_distinguishable() {
    let mut rb = RingBuffer::new(4, OverflowPolicy::NoBlockTrim);
    assert_eq!(rb.used_len(), 0);
    assert_eq!(rb.free_space(), 3);
    let accepted = rb.write(&vec![1, 2, 3]);
    assert_eq!(accepted, 3);
    assert_eq!(rb.used_len(), 3);
    assert_eq!(rb.free_space(), 0);
    let out = rb.read(3);
    assert_eq!(out, vec![1, 2, 3]);
    assert_eq!(rb.used_len(), 0);
    assert_eq!(rb.free_space(), 3);
}

#[test]
fn write_read_round_trip_single() {
    let mut rb = RingBuffer::new(9, OverflowPolicy::Blocking);
    let accepted = rb.write(&vec![10, 20, 30]);
    assert_eq!(accepted, 3);
    let out = rb.read(3);
    assert_eq!(out, vec![10, 20, 30]);
}

fn drain_between_writes(policy: OverflowPolicy) {
    // Writes smaller than the capacity, with a consumer draining between
    // them: every byte comes back, in order, under every policy.
    let mut rb = RingBuffer::new(8, policy);
    let chunks: Vec<Vec<u8>> = vec![
        vec![1, 2, 3],
        vec![4, 5, 6, 7],
        vec![8],
        vec![9, 10, 11, 12, 13],
        vec![],
        vec![14, 15],
    ];
    let mut replayed: Vec<u8> = Vec::new();
    for chunk in &chunks {
        let accepted = rb.write(chunk);
        assert_eq!(accepted, chunk.len());
        let out = rb.read(chunk.len());
        assert_eq!(&out, chunk);
        replayed.extend_from_slice(&out);
    }
    let all: Vec<u8> = chunks.iter().flatten().copied().collect();
    assert_eq!(replayed, all);
    assert_eq!(rb.used_len(), 0);
}

#[test]
fn no_bytes_lost_when_writes_fit_blocking() {
    drain_between_writes(OverflowPolicy::Blocking);
}

#[test]
fn no_bytes_lost_when_writes_fit_trim() {
    drain_between_writes(OverflowPolicy::NoBlockTrim);
}

#[test]
fn no_bytes_lost_when_writes_fit_skip() {
    drain_between_writes(OverflowPolicy::NoBlockSkip);
}

#[test]
fn wrap_around_keeps_order() {
    // Repeated small writes and drains run the cursors around the end of
    // the buffer several times.
    let mut rb = RingBuffer::new(5, OverflowPolicy::Blocking);
    for round in 0u8..20 {
        let bytes = vec![round, round.wrapping_add(100)];
        let accepted = rb.write(&bytes);
        assert_eq!(accepted, 2);
        let out = rb.read(2);
        assert_eq!(out, bytes);
    }
}

#[test]
fn trim_rejects_oversized_write_entirely() {
    let mut rb = RingBuffer::new(8, OverflowPolicy::NoBlockTrim);
    let accepted = rb.write(&vec![1, 2, 3, 4, 5]);
    assert_eq!(accepted, 5);
    // Free space is 2; a 4-byte write must be dropped as a whole.
    let accepted = rb.write(&vec![6, 7, 8, 9]);
    assert_eq!(accepted, 0);
    // The unread contents are unmodified.
    let out = rb.read(8);
    assert_eq!(out, vec![1, 2, 3, 4, 5]);
}

#[test]
fn skip_overwrites_exactly_the_oldest_bytes() {
    let mut rb = RingBuffer::new(8, OverflowPolicy::NoBlockSkip);
    let accepted = rb.write(&vec![1, 2, 3, 4, 5]);
    assert_eq!(accepted, 5);
    assert_eq!(rb.read_offset_val(), 0);
    // Free space is 2; the 4-byte write needs 2 more, taken from the two
    // oldest unread bytes, and the read cursor advances by exactly 2.
    let accepted = rb.write(&vec![6, 7, 8, 9]);
    assert_eq!(accepted, 4);
    assert_eq!(rb.read_offset_val(), 2);
    let out = rb.read(8);
    assert_eq!(out, vec![3, 4, 5, 6, 7, 8, 9]);
}

#[test]
fn blocking_write_completes_after_consumer_drains() {
    let mut rb = RingBuffer::new(8, OverflowPolicy::Blocking);
    assert_eq!(rb.write(&vec![1, 2, 3, 4, 5]), 5);
    // Free space is 2; the first attempt accepts what fits and the caller
    // must keep the remainder pending.
    let request = vec![10, 11, 12, 13, 14, 15];
    let first = rb.write(&request);
    assert_eq!(first, 2);
    assert!(first < request.len());
    // A simulated consumer drains; the retried remainder then completes,
    // so the whole request was accepted.
    let drained_bytes = rb.read(4);
    assert_eq!(drained_bytes, vec![1, 2, 3, 4]);
    let second = rb.write(&request[first..].to_vec());
    assert_eq!(second, request.len() - first);
    assert_eq!(first + second, request.len());
    // Nothing was dropped: the stream continues where it left off.
    let out = rb.read(8);
    assert_eq!(out, vec![5, 10, 11, 12, 13, 14, 15]);
}

#[test]
fn blocking_write_that_fits_completes_at_once() {
    let mut rb = RingBuffer::new(8, OverflowPolicy::Blocking);
    let accepted = rb.write(&vec![1, 2, 3, 4, 5, 6, 7]);
    assert_eq!(accepted, 7);
    assert_eq!(rb.free_space(), 0);
}

#[test]
fn size_one_buffer_has_no_capacity() {
    let mut rb = RingBuffer::new(1, OverflowPolicy::NoBlockSkip);
    assert_eq!(rb.capacity_len(), 0);
    assert_eq!(rb.write(&vec![1]), 0);
    assert_eq!(rb.read(4), Vec::<u8>::new());
}

#[test]
fn skip_write_larger_than_capacity_keeps_prefix() {
    let mut rb = RingBuffer::new(4, OverflowPolicy::NoBlockSkip);
    assert_eq!(rb.write(&vec![1, 2]), 2);
    // A 5-byte request into a capacity of 3: everything old is evicted and
    // the first 3 bytes of the request are kept.
    let accepted = rb.write(&vec![10, 11, 12, 13, 14]);
    assert_eq!(accepted, 3);
    let out = rb.read(4);
    assert_eq!(out, vec![10, 11, 12]);
}

#[test]
fn read_caps_at_available_bytes() {
    let mut rb = RingBuffer::new(8, OverflowPolicy::NoBlockTrim);
    rb.write(&vec![1, 2, 3]);
    let out = rb.read(100);
    assert_eq!(out, vec![1, 2, 3]);
    let out = rb.read(100);
    assert_eq!(out, Vec::<u8>::new());
}

#[test]
fn policy_is_recorded() {
    let rb = RingBuffer::new(8, OverflowPolicy::NoBlockSkip);
    assert_eq!(rb.policy_of(), OverflowPolicy::NoBlockSkip);
}
