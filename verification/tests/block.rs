use diag_transport::block::ChannelConfig;
use diag_transport::block::ControlBlock;
use diag_transport::block::InitError;
use diag_transport::ring::OverflowPolicy;

fn cfg(name: &str, size: usize, policy: OverflowPolicy) -> ChannelConfig {
    ChannelConfig { name: String::from(name), size, policy }
}

#[test]
fn initialize_two_up_two_down_round_trip() {
    // Two up-channels of 1024 bytes and two down-channels of 16 bytes: the
    // descriptor table's count fields are 2 and 2 and the buffer sizes match
    // the requested sizes exactly.
    let up = vec![
        cfg("String RTT Channel", 1024, OverflowPolicy::NoBlockTrim),
        cfg("BinaryLE RTT Channel", 1024, OverflowPolicy::NoBlockSkip),
    ];
    let down = vec![
        cfg("String RTT Channel", 16, OverflowPolicy::Blocking),
        cfg("BinaryLE RTT Channel", 16, OverflowPolicy::Blocking),
    ];
    let cb = ControlBlock::initialize(up, down, 4096).unwrap();
    assert_eq!(cb.up_count(), 2);
    assert_eq!(cb.down_count(), 2);
    assert_eq!(cb.up_buffer_size(0), 1024);
    assert_eq!(cb.up_buffer_size(1), 1024);
    assert_eq!(cb.down_buffer_size(0), 16);
    assert_eq!(cb.down_buffer_size(1), 16);
    assert_eq!(cb.up_name(0).as_str(), "String RTT Channel");
    assert_eq!(cb.up_name(1).as_str(), "BinaryLE RTT Channel");
    assert_eq!(cb.down_name(0).as_str(), "String RTT Channel");
    assert_eq!(cb.down_name(1).as_str(), "BinaryLE RTT Channel");
}

#[test]
fn initialize_rejects_zero_buffer_size() {
    let up = vec![cfg("a", 8, OverflowPolicy::NoBlockTrim), cfg("b", 0, OverflowPolicy::NoBlockTrim)];
    let down = vec![];
    let r = ControlBlock::initialize(up, down, 4096);
    assert_eq!(r.err(), Some(InitError::ZeroBufferSize));
}

#[test]
fn initialize_rejects_storage_overrun() {
    // 1024 + 1024 + 16 + 16 = 2080 bytes requested out of 2079 reserved.
    let up = vec![
        cfg("a", 1024, OverflowPolicy::NoBlockTrim),
        cfg("b", 1024, OverflowPolicy::NoBlockTrim),
    ];
    let down = vec![cfg("c", 16, OverflowPolicy::Blocking), cfg("d", 16, OverflowPolicy::Blocking)];
    let r = ControlBlock::initialize(up, down, 2079);
    assert_eq!(r.err(), Some(InitError::StorageExceeded));
}

#[test]
fn initialize_accepts_exact_fit() {
    let up = vec![cfg("a", 100, OverflowPolicy::NoBlockTrim)];
    let down = vec![cfg("b", 28, OverflowPolicy::Blocking)];
    assert!(ControlBlock::initialize(up, down, 128).is_ok());
}

#[test]
fn zero_size_reported_before_storage_overrun() {
    let up = vec![cfg("a", 0, OverflowPolicy::NoBlockTrim)];
    let down = vec![cfg("b", 1000, OverflowPolicy::Blocking)];
    let r = ControlBlock::initialize(up, down, 10);
    assert_eq!(r.err(), Some(InitError::ZeroBufferSize));
}

fn expected_signature() -> Vec<u8> {
    vec![
        0x53, 0x45, 0x47, 0x47, 0x45, 0x52, 0x20, 0x52, 0x54, 0x54, 0, 0, 0, 0, 0, 0,
    ]
}

#[test]
fn signature_is_byte_exact_at_block_start() {
    let up = vec![
        cfg("text", 64, OverflowPolicy::NoBlockTrim),
        cfg("binary", 32, OverflowPolicy::NoBlockSkip),
    ];
    let down = vec![cfg("input", 16, OverflowPolicy::Blocking)];
    let cb = ControlBlock::initialize(up, down, 1024).unwrap();
    let header = cb.encode_header();
    assert_eq!(header.len(), 24);
    assert_eq!(&header[0..16], &expected_signature()[..]);
    // Counts follow as little-endian 32-bit fields.
    assert_eq!(&header[16..20], &[2, 0, 0, 0]);
    assert_eq!(&header[20..24], &[1, 0, 0, 0]);
}

#[test]
fn signature_does_not_depend_on_configuration() {
    let first = ControlBlock::initialize(
        vec![cfg("only", 8, OverflowPolicy::Blocking)],
        vec![],
        64,
    )
    .unwrap();
    let second = ControlBlock::initialize(
        vec![
            cfg("a", 16, OverflowPolicy::NoBlockSkip),
            cfg("b", 16, OverflowPolicy::NoBlockTrim),
            cfg("c", 16, OverflowPolicy::Blocking),
        ],
        vec![cfg("d", 16, OverflowPolicy::Blocking), cfg("e", 16, OverflowPolicy::Blocking)],
        256,
    )
    .unwrap();
    let h1 = first.encode_header();
    let h2 = second.encode_header();
    assert_eq!(&h1[0..16], &expected_signature()[..]);
    assert_eq!(&h2[0..16], &expected_signature()[..]);
}

#[test]
fn up_channel_write_and_probe_read() {
    let up = vec![cfg("text", 8, OverflowPolicy::NoBlockTrim)];
    let mut cb = ControlBlock::initialize(up, vec![], 64).unwrap();
    let accepted = cb.write_up(0, &vec![1, 2, 3]);
    assert_eq!(accepted, 3);
    let out = cb.read_up(0, 8);
    assert_eq!(out, vec![1, 2, 3]);
}

#[test]
fn down_channel_host_write_and_target_read() {
    let down = vec![cfg("input", 16, OverflowPolicy::Blocking)];
    let mut cb = ControlBlock::initialize(vec![], down, 64).unwrap();
    let accepted = cb.write_down(0, &vec![9, 8, 7, 6]);
    assert_eq!(accepted, 4);
    let out = cb.read_down(0, 2);
    assert_eq!(out, vec![9, 8]);
    let out = cb.read_down(0, 16);
    assert_eq!(out, vec![7, 6]);
}

#[test]
fn channels_keep_their_policies() {
    let up = vec![
        cfg("trim", 8, OverflowPolicy::NoBlockTrim),
        cfg("skip", 8, OverflowPolicy::NoBlockSkip),
    ];
    let mut cb = ControlBlock::initialize(up, vec![], 64).unwrap();
    // Fill both to one byte below capacity, then write two more bytes.
    assert_eq!(cb.write_up(0, &vec![1, 2, 3, 4, 5, 6]), 6);
    assert_eq!(cb.write_up(1, &vec![1, 2, 3, 4, 5, 6]), 6);
    assert_eq!(cb.write_up(0, &vec![7, 8]), 0);
    assert_eq!(cb.write_up(1, &vec![7, 8]), 2);
    assert_eq!(cb.read_up(0, 8), vec![1, 2, 3, 4, 5, 6]);
    assert_eq!(cb.read_up(1, 8), vec![2, 3, 4, 5, 6, 7, 8]);
}
