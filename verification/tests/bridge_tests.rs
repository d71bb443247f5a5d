use mcbridge::{Bridge, Error, Id, PacketDirection, RawPacket, State};
use mcbridge::cfb8::MinecraftCipher;
use mcbridge::reader::ReadBridge;
use mcbridge::varint::{decode_varint_at, encode_varint};
use mcbridge::writer::WriteBridge;

/// Drive the reader over an in-memory byte stream, as the transport loop
/// does: length bytes one at a time, then one bounded frame read.
fn read_packet(
    reader: &mut ReadBridge,
    input: &Vec<u8>,
    pos: &mut usize,
) -> Result<Option<RawPacket>, Error> {
    let frame_len: u32 = loop {
        if *pos >= input.len() {
            return if reader.at_frame_boundary() {
                Ok(None)
            } else {
                Err(Error::UnexpectedEof)
            };
        }
        let b = input[*pos];
        *pos += 1;
        match reader.accept_length_byte(b)? {
            Some(v) => break v,
            None => {}
        }
    };
    let n = frame_len as usize;
    if *pos + n > input.len() {
        return Err(Error::UnexpectedEof);
    }
    let start = *pos;
    *pos += n;
    reader.decode_frame(input, start, start + n).map(Some)
}

fn roundtrip_varint(v: i32) -> (Vec<u8>, i32) {
    let bytes = encode_varint(v);
    let (decoded, n) = decode_varint_at(&bytes, 0, bytes.len()).expect("decode");
    assert_eq!(n, bytes.len());
    (bytes, decoded as i32)
}

#[test]
fn varint_round_trip_and_lengths() {
    let cases: Vec<(i32, usize)> = vec![
        (0, 1),
        (1, 1),
        (127, 1),
        (128, 2),
        (300, 2),
        (16383, 2),
        (16384, 3),
        (2097151, 3),
        (2097152, 4),
        (268435455, 4),
        (268435456, 5),
        (i32::MAX, 5),
        (-1, 5),
        (i32::MIN, 5),
    ];
    for (v, len) in cases {
        let (bytes, back) = roundtrip_varint(v);
        assert_eq!(back, v, "value {v}");
        assert_eq!(bytes.len(), len, "length of {v}");
    }
}

#[test]
fn varint_300_is_ac02() {
    assert_eq!(encode_varint(300), vec![0xAC, 0x02]);
}

#[test]
fn varint_overflow_on_six_continuation_bytes() {
    let wire = vec![0x80u8; 6];
    assert_eq!(
        decode_varint_at(&wire, 0, wire.len()),
        Err(Error::VarIntOverflow)
    );
}

#[test]
fn reader_overflow_before_any_body_read() {
    let mut reader = ReadBridge::initial(PacketDirection::ServerBound);
    let input = vec![0x80u8; 6];
    let mut pos = 0usize;
    assert!(matches!(
        read_packet(&mut reader, &input, &mut pos),
        Err(Error::VarIntOverflow)
    ));
    // the error came from the fifth length byte: no body byte was consumed
    assert_eq!(pos, 5);
}

#[test]
fn cfb8_round_trip() {
    let key: Vec<u8> = (0..16u8).collect();
    let iv: Vec<u8> = (100..116u8).collect();
    let plain: Vec<u8> = (0..40u8).collect();
    let mut enc = MinecraftCipher::new(&key, &iv).expect("cipher");
    let mut data = plain.clone();
    enc.encrypt(&mut data);
    assert_ne!(data, plain);
    let mut dec = MinecraftCipher::new(&key, &iv).expect("cipher");
    dec.decrypt(&mut data);
    assert_eq!(data, plain);
}

#[test]
fn cfb8_byte_slicing_matches_one_call() {
    let key = vec![7u8; 16];
    let iv = vec![9u8; 16];
    let plain: Vec<u8> = (0..30u8).collect();
    let mut whole = MinecraftCipher::new(&key, &iv).expect("cipher");
    let mut one = plain.clone();
    whole.encrypt(&mut one);
    let mut sliced = MinecraftCipher::new(&key, &iv).expect("cipher");
    let mut parts: Vec<u8> = Vec::new();
    for chunk in [&plain[0..3], &plain[3..4], &plain[4..17], &plain[17..30]] {
        let mut piece = chunk.to_vec();
        sliced.encrypt(&mut piece);
        parts.extend_from_slice(&piece);
    }
    assert_eq!(parts, one);
}

#[test]
fn cfb8_bad_key_material() {
    let short = vec![0u8; 15];
    let good = vec![0u8; 16];
    assert!(matches!(
        MinecraftCipher::new(&short, &good),
        Err(Error::InvalidKeyMaterial)
    ));
    assert!(matches!(
        MinecraftCipher::new(&good, &short),
        Err(Error::InvalidKeyMaterial)
    ));
}

#[test]
fn s1_plain_frame() {
    let mut writer = WriteBridge::initial(PacketDirection::ServerBound);
    writer.set_state(State::Play);
    let packet = RawPacket {
        id: Id { state: State::Play, direction: PacketDirection::ServerBound, id: 0x2A },
        body: vec![0x01, 0x02, 0x03],
    };
    let out = writer.write_raw_packet(&packet).expect("write");
    assert_eq!(out, vec![0x04, 0x2A, 0x01, 0x02, 0x03]);

    let mut reader = ReadBridge::initial(PacketDirection::ServerBound);
    reader.set_state(State::Play);
    let mut pos = 0usize;
    let got = read_packet(&mut reader, &out, &mut pos).expect("read").expect("packet");
    assert_eq!(got.id.id, 0x2A);
    assert_eq!(got.id.state, State::Play);
    assert_eq!(got.id.direction, PacketDirection::ServerBound);
    assert_eq!(got.body, vec![0x01, 0x02, 0x03]);
    assert_eq!(pos, out.len());
}

#[test]
fn s2_compressed_below_threshold() {
    let mut writer = WriteBridge::initial(PacketDirection::ServerBound);
    writer.set_compression_threshold(Some(256));
    let packet = RawPacket {
        id: Id { state: State::Handshaking, direction: PacketDirection::ServerBound, id: 0x00 },
        body: vec![0xAA, 0xBB],
    };
    let out = writer.write_raw_packet(&packet).expect("write");
    assert_eq!(out, vec![0x04, 0x00, 0x00, 0xAA, 0xBB]);

    let mut reader = ReadBridge::initial(PacketDirection::ServerBound);
    reader.set_compression_threshold(Some(256));
    let mut pos = 0usize;
    let got = read_packet(&mut reader, &out, &mut pos).expect("read").expect("packet");
    assert_eq!(got.id.id, 0x00);
    assert_eq!(got.body, vec![0xAA, 0xBB]);
}

#[test]
fn s3_compressed_at_threshold() {
    let mut writer = WriteBridge::initial(PacketDirection::ServerBound);
    writer.set_compression_threshold(Some(4));
    let packet = RawPacket {
        id: Id { state: State::Handshaking, direction: PacketDirection::ServerBound, id: 0x00 },
        body: vec![0x00, 0x00, 0x00, 0x00],
    };
    let out = writer.write_raw_packet(&packet).expect("write");
    // frame: VarInt(1 + payload_len) || 0x05 || payload
    let frame_len = out[0] as usize;
    assert_eq!(frame_len, out.len() - 1);
    assert_eq!(out[1], 0x05);
    // inflating the payload yields id || body = five zero bytes
    let payload = &out[2..];
    let mut d = flate2::Decompress::new(true);
    let mut inflated = Vec::with_capacity(16);
    let status = d
        .decompress_vec(payload, &mut inflated, flate2::FlushDecompress::Finish)
        .expect("inflate");
    assert_eq!(status, flate2::Status::StreamEnd);
    assert_eq!(inflated, vec![0x00u8; 5]);

    let mut reader = ReadBridge::initial(PacketDirection::ServerBound);
    reader.set_compression_threshold(Some(4));
    let mut pos = 0usize;
    let got = read_packet(&mut reader, &out, &mut pos).expect("read").expect("packet");
    assert_eq!(got.id.id, 0x00);
    assert_eq!(got.body, vec![0x00, 0x00, 0x00, 0x00]);
}

#[test]
fn s4_encrypted_frame() {
    let key = vec![0u8; 16];
    let iv = vec![0u8; 16];
    let mut writer = WriteBridge::initial(PacketDirection::ServerBound);
    writer.set_state(State::Play);
    writer.enable_encryption(&key, &iv).expect("enable");
    let packet = RawPacket {
        id: Id { state: State::Play, direction: PacketDirection::ServerBound, id: 0x2A },
        body: vec![0x01, 0x02, 0x03],
    };
    let out = writer.write_raw_packet(&packet).expect("write");
    assert_eq!(out.len(), 5);
    assert_ne!(out, vec![0x04, 0x2A, 0x01, 0x02, 0x03]);

    let mut reader = ReadBridge::initial(PacketDirection::ServerBound);
    reader.set_state(State::Play);
    reader.enable_encryption(&key, &iv).expect("enable");
    let mut pos = 0usize;
    let got = read_packet(&mut reader, &out, &mut pos).expect("read").expect("packet");
    assert_eq!(got.id.id, 0x2A);
    assert_eq!(got.body, vec![0x01, 0x02, 0x03]);
}

#[test]
fn frames_round_trip_across_sizes_and_settings() {
    let key = vec![3u8; 16];
    let iv = vec![5u8; 16];
    let mut writer = WriteBridge::initial(PacketDirection::ClientBound);
    writer.set_state(State::Login);
    writer.set_compression_threshold(Some(64));
    writer.enable_encryption(&key, &iv).expect("enable");
    let mut reader = ReadBridge::initial(PacketDirection::ClientBound);
    reader.set_state(State::Login);
    reader.set_compression_threshold(Some(64));
    reader.enable_encryption(&key, &iv).expect("enable");

    let mut wire: Vec<u8> = Vec::new();
    let bodies: Vec<Vec<u8>> = vec![
        vec![],
        vec![0x11],
        (0..200).map(|i| (i % 251) as u8).collect(),
        vec![0x42; 5000],
    ];
    for (k, body) in bodies.iter().enumerate() {
        let packet = RawPacket {
            id: Id { state: State::Login, direction: PacketDirection::ClientBound, id: k as i32 },
            body: body.clone(),
        };
        let out = writer.write_raw_packet(&packet).expect("write");
        wire.extend_from_slice(&out);
    }
    let mut pos = 0usize;
    for (k, body) in bodies.iter().enumerate() {
        let got = read_packet(&mut reader, &wire, &mut pos).expect("read").expect("packet");
        assert_eq!(got.id.id, k as i32);
        assert_eq!(&got.body, body);
    }
    assert!(matches!(read_packet(&mut reader, &wire, &mut pos), Ok(None)));
}

#[test]
fn s5_varint_boundary_frame_of_300() {
    let mut writer = WriteBridge::initial(PacketDirection::ServerBound);
    let packet = RawPacket {
        id: Id { state: State::Handshaking, direction: PacketDirection::ServerBound, id: 0x00 },
        body: vec![0x77; 299],
    };
    let out = writer.write_raw_packet(&packet).expect("write");
    assert_eq!(&out[0..2], &[0xAC, 0x02]);
    assert_eq!(out.len(), 302);
}

#[test]
fn s6_clean_eof_and_truncated_frame() {
    let mut reader = ReadBridge::initial(PacketDirection::ServerBound);
    let empty: Vec<u8> = Vec::new();
    let mut pos = 0usize;
    assert!(matches!(read_packet(&mut reader, &empty, &mut pos), Ok(None)));

    let truncated = vec![0x04u8];
    let mut pos = 0usize;
    assert!(matches!(
        read_packet(&mut reader, &truncated, &mut pos),
        Err(Error::UnexpectedEof)
    ));
}

#[test]
fn direction_and_state_guard() {
    let mut writer = WriteBridge::initial(PacketDirection::ServerBound);
    writer.set_state(State::Play);
    let wrong_dir = RawPacket {
        id: Id { state: State::Play, direction: PacketDirection::ClientBound, id: 1 },
        body: vec![],
    };
    assert!(matches!(
        writer.write_raw_packet(&wrong_dir),
        Err(Error::DirectionMismatch)
    ));
    let wrong_state = RawPacket {
        id: Id { state: State::Login, direction: PacketDirection::ServerBound, id: 1 },
        body: vec![],
    };
    assert!(matches!(
        writer.write_raw_packet(&wrong_state),
        Err(Error::StateMismatch)
    ));
}

#[test]
fn double_enable_encryption() {
    let key = vec![1u8; 16];
    let iv = vec![2u8; 16];
    let mut writer = WriteBridge::initial(PacketDirection::ServerBound);
    writer.enable_encryption(&key, &iv).expect("first enable");
    assert!(matches!(
        writer.enable_encryption(&key, &iv),
        Err(Error::DoubleEnableEncryption)
    ));
    let mut reader = ReadBridge::initial(PacketDirection::ClientBound);
    reader.enable_encryption(&key, &iv).expect("first enable");
    assert!(matches!(
        reader.enable_encryption(&key, &iv),
        Err(Error::DoubleEnableEncryption)
    ));
    // the installed cipher still works: a frame written before the failed
    // second enable still decrypts
    writer.set_state(State::Play);
    reader.set_state(State::Play);
    let packet = RawPacket {
        id: Id { state: State::Play, direction: PacketDirection::ClientBound, id: 9 },
        body: vec![0xEE],
    };
    let mut w2 = WriteBridge::initial(PacketDirection::ClientBound);
    w2.set_state(State::Play);
    w2.enable_encryption(&key, &iv).expect("enable");
    let _ = w2.enable_encryption(&key, &iv);
    let out = w2.write_raw_packet(&packet).expect("write");
    let mut pos = 0usize;
    let got = read_packet(&mut reader, &out, &mut pos).expect("read").expect("packet");
    assert_eq!(got.body, vec![0xEE]);
}

#[test]
fn buffers_do_not_shrink() {
    let mut writer = WriteBridge::initial(PacketDirection::ServerBound);
    let big = RawPacket {
        id: Id { state: State::Handshaking, direction: PacketDirection::ServerBound, id: 0 },
        body: vec![0x55; 10 * 1024],
    };
    let small = RawPacket {
        id: Id { state: State::Handshaking, direction: PacketDirection::ServerBound, id: 0 },
        body: vec![0x66; 100],
    };
    let big_frame = writer.write_raw_packet(&big).expect("write");
    assert!(writer.raw_buf_len() >= 10 * 1024);
    let small_frame = writer.write_raw_packet(&small).expect("write");
    assert!(writer.raw_buf_len() >= 10 * 1024);

    let mut reader = ReadBridge::initial(PacketDirection::ServerBound);
    let mut wire = big_frame.clone();
    wire.extend_from_slice(&small_frame);
    let mut pos = 0usize;
    let got = read_packet(&mut reader, &wire, &mut pos).expect("read").expect("packet");
    assert_eq!(got.body.len(), 10 * 1024);
    assert!(reader.raw_buf_len() >= 10 * 1024);
    let got = read_packet(&mut reader, &wire, &mut pos).expect("read").expect("packet");
    assert_eq!(got.body.len(), 100);
    assert!(reader.raw_buf_len() >= 10 * 1024);
}

#[test]
fn inflate_error_on_bad_compressed_payload() {
    let mut reader = ReadBridge::initial(PacketDirection::ServerBound);
    reader.set_compression_threshold(Some(4));
    // frame of 4 bytes: data-length 5, then bytes that are no zlib stream
    let wire = vec![0x04u8, 0x05, 0x01, 0x02, 0x03];
    let mut pos = 0usize;
    assert!(matches!(
        read_packet(&mut reader, &wire, &mut pos),
        Err(Error::InflateError)
    ));
}

#[test]
fn inflate_error_on_data_length_shorter_than_payload() {
    // a valid zlib stream of ten bytes, advertised as three
    let mut enc = flate2::write::ZlibEncoder::new(Vec::new(), flate2::Compression::fast());
    std::io::Write::write_all(&mut enc, &[0x11u8; 10]).expect("write");
    let compressed = enc.finish().expect("finish");

    let mut frame = vec![0x03u8];
    frame.extend_from_slice(&compressed);
    let mut wire = encode_varint(frame.len() as i32);
    wire.extend_from_slice(&frame);

    let mut reader = ReadBridge::initial(PacketDirection::ServerBound);
    reader.set_compression_threshold(Some(4));
    let mut pos = 0usize;
    assert!(matches!(
        read_packet(&mut reader, &wire, &mut pos),
        Err(Error::InflateError)
    ));
}

#[test]
fn opposite_direction() {
    assert_eq!(
        PacketDirection::ServerBound.opposite(),
        PacketDirection::ClientBound
    );
    assert_eq!(
        PacketDirection::ClientBound.opposite(),
        PacketDirection::ServerBound
    );
}
