use unicorn_gdbserver::dispatch::{
    dispatch_command, memory_reply, parse_hex_num, parse_mem_args_bytes, registers_reply, Action,
};
use unicorn_gdbserver::frame::{decode_packet, encode_packet};
use unicorn_gdbserver::hex::hex_encode;
use unicorn_gdbserver::parser::{FeedOutcome, PacketParser, ProtocolUnit};
use unicorn_gdbserver::query::handle_query;
use unicorn_gdbserver::ToHex;

#[test]
fn checksum_of_ok_payload() {
    // Sum of 'O' (0x4f) and 'K' (0x4b) mod 256 is 0x9a.
    let frame = encode_packet(b"OK");
    assert_eq!(frame, b"$OK#9a".to_vec());
}

#[test]
fn checksum_wraps_mod_256() {
    // Four 'z' bytes sum to 0x1e8; only the low byte is kept.
    let frame = encode_packet(b"zzzz");
    assert_eq!(frame, b"$zzzz#e8".to_vec());
}

#[test]
fn empty_payload_frames_to_empty_body() {
    let frame = encode_packet(b"");
    assert_eq!(frame, b"$#00".to_vec());
    let back = decode_packet(&frame).expect("empty frame decodes");
    assert_eq!(back, Vec::<u8>::new());
}

#[test]
fn round_trip_plain_payload() {
    let payload = b"m1000,4".to_vec();
    let frame = encode_packet(&payload);
    let back = decode_packet(&frame).expect("frame decodes");
    assert_eq!(back, payload);
}

#[test]
fn reserved_bytes_are_escaped_on_the_wire() {
    let payload = vec![b'$', b'#', b'*', b'}'];
    let frame = encode_packet(&payload);
    // Each reserved byte becomes `}` plus the byte XOR 0x20.
    let body = &frame[1..frame.len() - 3];
    assert_eq!(
        body,
        &[0x7d, 0x04, 0x7d, 0x03, 0x7d, 0x0a, 0x7d, 0x5d][..]
    );
    let back = decode_packet(&frame).expect("escaped frame decodes");
    assert_eq!(back, payload);
}

#[test]
fn round_trip_mixed_payload() {
    let payload = b"abc}def$#*xyz".to_vec();
    let frame = encode_packet(&payload);
    let back = decode_packet(&frame).expect("frame decodes");
    assert_eq!(back, payload);
}

#[test]
fn decode_rejects_bad_checksum() {
    let mut frame = encode_packet(b"OK");
    let n = frame.len();
    frame[n - 1] = b'b'; // was 'a'
    assert!(decode_packet(&frame).is_none());
}

#[test]
fn decode_rejects_malformed_frames() {
    assert!(decode_packet(b"").is_none());
    assert!(decode_packet(b"OK#9a").is_none());
    assert!(decode_packet(b"$OK9a").is_none());
    assert!(decode_packet(b"$OK#9").is_none());
    assert!(decode_packet(b"$OK#9az").is_none());
    assert!(decode_packet(b"$OK#ZZ").is_none());
}

#[test]
fn hex_encoding_is_lowercase_two_digits_per_byte() {
    assert_eq!(hex_encode(&[0xde, 0xad, 0xbe, 0xef]), b"deadbeef".to_vec());
    assert_eq!(hex_encode(&[]), Vec::<u8>::new());
    assert_eq!([0xde_u8, 0xad, 0xbe, 0xef].as_slice().to_hex(), "deadbeef");
    assert_eq!([].as_slice().to_hex(), "");
}

#[test]
fn register_reply_encodes_eax_first_little_endian() {
    // EAX = 1, all other registers zero: 128 hex characters, the first
    // eight encoding EAX in target byte order.
    let mut regs = [0u32; 16];
    regs[0] = 0x0000_0001;
    let reply = registers_reply(&regs);
    assert_eq!(reply.len(), 128);
    assert_eq!(&reply[..8], b"01000000");
    assert!(reply[8..].iter().all(|&b| b == b'0'));
}

#[test]
fn register_reply_orders_values() {
    let regs = [0x11223344u32, 0xaabbccdd];
    let reply = registers_reply(&regs);
    assert_eq!(reply, b"44332211ddccbbaa".to_vec());
}

#[test]
fn memory_read_success_is_hexed() {
    let data = vec![0x10, 0x20, 0x30, 0x40];
    assert_eq!(memory_reply(Some(&data)), b"10203040".to_vec());
}

#[test]
fn memory_read_failure_is_e01() {
    assert_eq!(memory_reply(None), b"E01".to_vec());
}

#[test]
fn memory_command_parses_addr_and_length() {
    match dispatch_command(b"m1000,4") {
        Action::ReadMemory(addr, len) => {
            assert_eq!(addr, 0x1000);
            assert_eq!(len, 4);
        }
        _ => panic!("expected a memory read"),
    }
    match dispatch_command(b"m9999,4") {
        Action::ReadMemory(addr, len) => {
            assert_eq!(addr, 0x9999);
            assert_eq!(len, 4);
        }
        _ => panic!("expected a memory read"),
    }
}

#[test]
fn memory_command_with_bad_arguments_is_e01() {
    for bad in [&b"m1000"[..], b"m,4", b"m1000,", b"mzz,4", b"m"] {
        match dispatch_command(bad) {
            Action::Reply(v) => assert_eq!(v, b"E01".to_vec()),
            _ => panic!("expected an error reply"),
        }
    }
}

#[test]
fn memory_command_ignores_extra_fields() {
    match dispatch_command(b"m10,4,tail") {
        Action::ReadMemory(addr, len) => {
            assert_eq!(addr, 0x10);
            assert_eq!(len, 4);
        }
        _ => panic!("expected a memory read"),
    }
}

#[test]
fn hex_numbers_accept_both_cases_and_reject_overflow() {
    assert_eq!(parse_hex_num(b"FF"), Some(255));
    assert_eq!(parse_hex_num(b"ff"), Some(255));
    assert_eq!(parse_hex_num(b"0"), Some(0));
    assert_eq!(parse_hex_num(b"ffffffffffffffff"), Some(u64::MAX));
    assert_eq!(parse_hex_num(b"10000000000000000"), None);
    assert_eq!(parse_hex_num(b""), None);
    assert_eq!(parse_hex_num(b"12g4"), None);
}

#[test]
fn parse_mem_args_requires_a_comma() {
    assert_eq!(parse_mem_args_bytes(b"1000,4"), Some((0x1000, 4)));
    assert_eq!(parse_mem_args_bytes(b"1000"), None);
}

#[test]
fn halt_reason_continue_and_step_reply_s05() {
    for cmd in [&b"?"[..], b"c", b"s"] {
        match dispatch_command(cmd) {
            Action::Reply(v) => assert_eq!(v, b"S05".to_vec()),
            _ => panic!("expected the fixed stop reply"),
        }
    }
}

#[test]
fn set_thread_replies_ok() {
    match dispatch_command(b"Hg0") {
        Action::Reply(v) => assert_eq!(v, b"OK".to_vec()),
        _ => panic!("expected OK"),
    }
}

#[test]
fn read_registers_consults_the_target() {
    match dispatch_command(b"g") {
        Action::ReadRegisters => {}
        _ => panic!("expected a register read"),
    }
}

#[test]
fn detach_terminates_the_session() {
    match dispatch_command(b"D") {
        Action::Detach => {}
        _ => panic!("expected detach"),
    }
}

#[test]
fn unknown_commands_draw_an_empty_reply() {
    match dispatch_command(b"X123") {
        Action::Reply(v) => assert!(v.is_empty()),
        _ => panic!("expected an empty reply"),
    }
}

#[test]
fn query_defaults() {
    assert_eq!(handle_query(b"qXYZ"), Vec::<u8>::new());
    assert_eq!(handle_query(b"qfThreadInfo"), b"m1".to_vec());
    assert_eq!(handle_query(b"qsThreadInfo"), b"l".to_vec());
}

#[test]
fn query_table_is_matched_in_order() {
    assert_eq!(handle_query(b"qSupported:xmlRegisters=i386"), b"PacketSize=f0".to_vec());
    assert_eq!(handle_query(b"qSupported:"), b"PacketSize=f0".to_vec());
    assert_eq!(handle_query(b"qAttached"), Vec::<u8>::new());
    assert_eq!(handle_query(b"qC"), Vec::<u8>::new());
    assert_eq!(handle_query(b"qL:something"), b"qM001".to_vec());
    assert_eq!(handle_query(b"qTStatus"), Vec::<u8>::new());
    // Exact matches do not fire on mere prefixes of longer strings.
    assert_eq!(handle_query(b"qAttachedX"), Vec::<u8>::new());
    assert_eq!(handle_query(b"qCX"), Vec::<u8>::new());
}

#[test]
fn query_dispatch_goes_through_commands() {
    match dispatch_command(b"qfThreadInfo") {
        Action::Reply(v) => assert_eq!(v, b"m1".to_vec()),
        _ => panic!("expected the thread list"),
    }
}

#[test]
fn parser_emits_a_command_and_needs_the_trailer() {
    let mut p = PacketParser::new();
    let mut units = Vec::new();
    for &b in b"$m1000,4#f1" {
        match p.feed(b) {
            FeedOutcome::Pending => {}
            FeedOutcome::Unit(u) => units.push(u),
            FeedOutcome::Violation => panic!("unexpected violation"),
        }
    }
    assert_eq!(units.len(), 1);
    match &units[0] {
        ProtocolUnit::Command(payload) => assert_eq!(payload, &b"m1000,4".to_vec()),
        _ => panic!("expected a command"),
    }
}

#[test]
fn parser_recognizes_out_of_band_bytes() {
    let mut p = PacketParser::new();
    assert!(matches!(p.feed(0x03), FeedOutcome::Unit(ProtocolUnit::Interrupt)));
    assert!(matches!(p.feed(b'+'), FeedOutcome::Unit(ProtocolUnit::Acknowledge)));
    assert!(matches!(p.feed(b'-'), FeedOutcome::Unit(ProtocolUnit::NotAcknowledge)));
}

#[test]
fn parser_flags_unexpected_bytes() {
    let mut p = PacketParser::new();
    assert!(matches!(p.feed(b'x'), FeedOutcome::Violation));
    // Inside a frame, a byte with the high bit set is a violation.
    let mut q = PacketParser::new();
    assert!(matches!(q.feed(b'$'), FeedOutcome::Pending));
    assert!(matches!(q.feed(0x80), FeedOutcome::Violation));
}

#[test]
fn parser_handles_back_to_back_frames() {
    let mut p = PacketParser::new();
    let mut payloads = Vec::new();
    for &b in b"+$g#67$D#44" {
        match p.feed(b) {
            FeedOutcome::Unit(ProtocolUnit::Command(c)) => payloads.push(c),
            FeedOutcome::Unit(_) => {}
            FeedOutcome::Pending => {}
            FeedOutcome::Violation => panic!("unexpected violation"),
        }
    }
    assert_eq!(payloads, vec![b"g".to_vec(), b"D".to_vec()]);
}
