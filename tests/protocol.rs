use m1saka::protocol::{
    checksum, command_word, decode_request, handle_packet, respond, CommandId, FrameReader,
    ProxyReply, ProxyRequest, Status, UartReply, UartRequest,
};

fn reference_checksum(bytes: &[u8]) -> u32 {
    let mut sum: u32 = 0xDEADBEEF;
    for b in bytes {
        sum = sum.wrapping_mul(31337).wrapping_add((*b ^ 0x5A) as u32);
    }
    sum ^ 0xADDEDBAD
}

fn request(command: u8, payload: &[u8]) -> [u8; 64] {
    let mut frame = [0u8; 64];
    frame[0] = 0xFF;
    frame[1] = 0x55;
    frame[2] = 0xAA;
    frame[3] = command;
    frame[4..4 + payload.len()].copy_from_slice(payload);
    let sum = reference_checksum(&frame[..60]);
    frame[60..].copy_from_slice(&sum.to_le_bytes());
    frame
}

fn expected_simple_reply(command: u8, status: i32) -> [u8; 36] {
    let mut reply = [0u8; 36];
    reply[0] = 0xFF;
    reply[1] = 0x55;
    reply[2] = 0xAA;
    reply[3] = command;
    reply[4..8].copy_from_slice(&status.to_le_bytes());
    let sum = reference_checksum(&reply[..32]);
    reply[32..].copy_from_slice(&sum.to_le_bytes());
    reply
}

#[test]
fn checksum_of_empty_buffer() {
    assert_eq!(checksum(&[]), 0xDEADBEEF ^ 0xADDEDBAD);
}

#[test]
fn checksum_of_single_zero_byte() {
    let expected = 0xDEADBEEFu32.wrapping_mul(31337).wrapping_add(0x5A) ^ 0xADDEDBAD;
    assert_eq!(checksum(&[0x00]), expected);
}

#[test]
fn checksum_matches_reference_formula() {
    let data: Vec<u8> = (0..=255u8).collect();
    assert_eq!(checksum(&data), reference_checksum(&data));
    assert_eq!(checksum(&data), checksum(&data));
    assert_ne!(checksum(&[1, 2, 3]), checksum(&[3, 2, 1]));
}

#[test]
fn no_operation_round_trip() {
    let frame = request(0x00, &[]);
    let reply = respond(&frame);
    assert_eq!(reply, UartReply::Simple { command: 0, status: Status::Success });
    let raw = reply.to_raw_packet();
    assert_eq!(&raw[..8], &[0xFF, 0x55, 0xAA, 0x00, 0x00, 0x00, 0x00, 0x00]);
    assert_eq!(&raw[8..32], &[0u8; 24]);
    assert_eq!(raw, expected_simple_reply(0x00, 0));
    assert_eq!(u32::from_le_bytes([raw[0], raw[1], raw[2], raw[3]]), 0x00AA55FF);
}

#[test]
fn checksum_mismatch_reply() {
    let mut frame = request(0x00, &[]);
    let sum = u32::from_le_bytes([frame[60], frame[61], frame[62], frame[63]]).wrapping_add(1);
    frame[60..].copy_from_slice(&sum.to_le_bytes());
    let reply = respond(&frame);
    assert_eq!(reply, UartReply::Simple { command: 0, status: Status::ChecksumMismatch });
    let raw = reply.to_raw_packet();
    assert_eq!(&raw[0..4], &[0xFF, 0x55, 0xAA, 0x00]);
    assert_eq!(&raw[4..8], &[0xFC, 0xFF, 0xFF, 0xFF]);
    assert_eq!(&raw[8..32], &[0u8; 24]);
    assert_eq!(raw, expected_simple_reply(0x00, -4));
}

#[test]
fn unknown_command_reply() {
    let frame = request(0x09, &[]);
    let reply = respond(&frame);
    assert_eq!(reply, UartReply::Simple { command: 0x09, status: Status::BadCommand });
    let raw = reply.to_raw_packet();
    assert_eq!(&raw[0..4], &[0xFF, 0x55, 0xAA, 0x09]);
    assert_eq!(&raw[4..8], &[0xFF, 0xFF, 0xFF, 0xFF]);
    assert_eq!(raw, expected_simple_reply(0x09, -1));
}

#[test]
fn preamble_resync() {
    let frame = request(0x00, &[]);
    let mut stream = vec![0x55, 0xAA];
    stream.extend_from_slice(&frame);
    let mut reader = FrameReader::new();
    let mut frames = Vec::new();
    for b in stream {
        if let Some(f) = reader.push(b) {
            frames.push(f);
        }
    }
    assert_eq!(frames.len(), 1);
    assert_eq!(frames[0], frame);
    assert_eq!(respond(&frames[0]).to_raw_packet(), expected_simple_reply(0x00, 0));
}

#[test]
fn reader_drops_byte_that_breaks_preamble() {
    let frame = request(0x00, &[]);
    let mut stream = vec![0xFF, 0x55, 0x00];
    stream.extend_from_slice(&frame);
    stream.extend_from_slice(&frame);
    let mut reader = FrameReader::new();
    let frames: Vec<[u8; 64]> = stream.into_iter().filter_map(|b| reader.push(b)).collect();
    assert_eq!(frames, vec![frame, frame]);
}

#[test]
fn valid_request_reply_echoes_command_and_closes_with_checksum() {
    for command in [0u8, 1, 2, 3, 4, 7, 0x80, 0xFF] {
        let frame = request(command, &[0x11, 0x22, 0x33]);
        let raw = respond(&frame).to_raw_packet();
        assert_eq!(&raw[0..4], &[0xFF, 0x55, 0xAA, command]);
        assert_eq!(&raw[32..36], &reference_checksum(&raw[..32]).to_le_bytes());
    }
}

#[test]
fn bad_checksum_is_reported_for_any_command() {
    for command in [0u8, 1, 4, 0x42] {
        let mut frame = request(command, &[9, 8, 7]);
        frame[10] ^= 0x01;
        let reply = respond(&frame);
        assert_eq!(reply, UartReply::Simple { command, status: Status::ChecksumMismatch });
        assert_eq!(decode_request(&frame), Err(reply));
    }
}

#[test]
fn proxy_request_is_decoded() {
    let mut payload = Vec::new();
    payload.extend_from_slice(&0x1122_3344_5566_7788u64.to_le_bytes());
    for i in 0..6u64 {
        payload.extend_from_slice(&(0x100 + i).to_le_bytes());
    }
    let frame = request(0x01, &payload);
    let decoded = decode_request(&frame);
    assert_eq!(
        decoded,
        Ok(UartRequest::Proxy {
            command_id: CommandId::Proxy,
            request: ProxyRequest {
                opcode: 0x1122_3344_5566_7788,
                args: [0x100, 0x101, 0x102, 0x103, 0x104, 0x105],
            },
        })
    );
    let reply = handle_packet(decoded.unwrap());
    assert_eq!(reply, UartReply::Simple { command: 1, status: Status::BadCommand });
}

#[test]
fn memory_and_boot_requests_are_bad_commands() {
    for command in [2u8, 3, 4] {
        let frame = request(command, &[]);
        assert_eq!(
            decode_request(&frame),
            Err(UartReply::Simple { command, status: Status::BadCommand })
        );
    }
}

#[test]
fn handle_packet_serves_no_operation_only() {
    let noop = UartRequest::Simple { command_id: CommandId::NoOperation };
    assert_eq!(handle_packet(noop), UartReply::no_operation());
    let boot = UartRequest::Simple { command_id: CommandId::Boot };
    assert_eq!(handle_packet(boot), UartReply::Simple { command: 4, status: Status::BadCommand });
    let mem = UartRequest::Memory { command_id: CommandId::MemoryRead };
    assert_eq!(mem.get_command_id(), CommandId::MemoryRead);
    assert_eq!(handle_packet(mem), UartReply::Simple { command: 2, status: Status::BadCommand });
}

#[test]
fn proxy_reply_layout() {
    let reply = UartReply::proxy(ProxyReply { opcode: 7, status: -2, return_value: 0xABCD });
    let raw = reply.to_raw_packet();
    assert_eq!(&raw[0..4], &[0xFF, 0x55, 0xAA, 0x01]);
    assert_eq!(&raw[4..8], &[0, 0, 0, 0]);
    assert_eq!(&raw[8..16], &7u64.to_le_bytes());
    assert_eq!(&raw[16..24], &(-2i64).to_le_bytes());
    assert_eq!(&raw[24..32], &0xABCDu64.to_le_bytes());
    assert_eq!(&raw[32..36], &reference_checksum(&raw[..32]).to_le_bytes());
}

#[test]
fn boot_handshake_reply() {
    let raw = UartReply::boot().to_raw_packet();
    assert_eq!(raw, expected_simple_reply(0x04, 0));
}

#[test]
fn simple_error_replies() {
    assert_eq!(
        UartReply::simple_error(CommandId::MemoryWrite, Status::TransferError),
        UartReply::Simple { command: 3, status: Status::TransferError }
    );
    let req = UartRequest::Simple { command_id: CommandId::Boot };
    assert_eq!(
        UartReply::simple_error_from_request(req, Status::Invalid),
        UartReply::Simple { command: 4, status: Status::Invalid }
    );
    assert_eq!(
        UartReply::simple_error(CommandId::Boot, Status::Invalid).to_raw_packet()[4..8],
        [0xFE, 0xFF, 0xFF, 0xFF]
    );
}

#[test]
fn command_and_status_codes() {
    assert_eq!(CommandId::from_code(0), Some(CommandId::NoOperation));
    assert_eq!(CommandId::from_code(4), Some(CommandId::Boot));
    assert_eq!(CommandId::from_code(5), None);
    assert_eq!(CommandId::Proxy.code(), 1);
    assert_eq!(CommandId::from_word(0x01AA55FF), Some(CommandId::Proxy));
    assert_eq!(CommandId::from_word(0x01AA55FE), None);
    assert_eq!(CommandId::from_word(0x09AA55FF), None);
    assert_eq!(CommandId::Boot.word(), 0x04AA55FF);
    assert_eq!(command_word(0x09), 0x09AA55FF);
    assert_eq!(Status::ChecksumMismatch.code(), -4);
    assert_eq!(Status::from_code(-3), Some(Status::TransferError));
    assert_eq!(Status::from_code(0), Some(Status::Success));
    assert_eq!(Status::from_code(1), None);
    assert_eq!(Status::from_code(-5), None);
}

#[test]
fn stray_ff_starts_a_new_preamble() {
    let frame = request(0x00, &[]);
    for junk in [vec![0xFFu8], vec![0xFF, 0x55], vec![0x55, 0xAA, 0xFF, 0x55]] {
        let mut stream = junk.clone();
        stream.extend_from_slice(&frame);
        let mut reader = FrameReader::new();
        let frames: Vec<[u8; 64]> = stream.into_iter().filter_map(|b| reader.push(b)).collect();
        assert_eq!(frames, vec![frame]);
        assert_eq!(respond(&frames[0]).to_raw_packet(), expected_simple_reply(0x00, 0));
    }
}

#[test]
fn back_to_back_requests_get_one_reply_each() {
    let frames = [request(0x00, &[]), request(0x01, &[1, 2]), request(0x09, &[]), request(0x04, &[7])];
    let stream: Vec<u8> = frames.iter().flat_map(|f| f.iter().copied()).collect();
    let mut reader = FrameReader::new();
    let got: Vec<[u8; 64]> = stream.into_iter().filter_map(|b| reader.push(b)).collect();
    assert_eq!(got, frames.to_vec());
    for f in &got {
        let raw = respond(f).to_raw_packet();
        assert_eq!(&raw[0..4], &[0xFF, 0x55, 0xAA, f[3]]);
        assert_eq!(&raw[32..36], &reference_checksum(&raw[..32]).to_le_bytes());
    }
}
