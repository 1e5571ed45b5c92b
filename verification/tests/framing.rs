use airi_protocol::error::ReadingError;
use airi_protocol::frame::{
    check_frame_length, frame_compressed_packet, frame_packet, parse_packet, plan_frame,
    read_varint_stream, split_frame_body, FrameBody, FramePlan, PacketDecodeError,
    PacketEncodeError,
};
use airi_protocol::network::{
    handle_client_packet, handle_server_packet, set_compression, set_encryption, ClientAction,
    CompressionInfo, CompressionLevelError, ConnectionState, DecoderState, EncoderState,
    ServerPacket, WorldTime, COMPRESSION,
};
use airi_protocol::network::{encryption_steps, EncryptionStep};
use airi_protocol::varint::VarInt;
use airi_protocol::{RawPacket, MAX_PACKET_DATA_SIZE, MAX_PACKET_SIZE};

#[test]
fn plan_follows_compression() {
    assert_eq!(plan_frame(None, 10).unwrap(), FramePlan::Plain);
    assert_eq!(plan_frame(Some((256, 9)), 300).unwrap(), FramePlan::Compress(9));
    assert_eq!(plan_frame(Some((256, 9)), 257).unwrap(), FramePlan::Compress(9));
    assert_eq!(plan_frame(Some((256, 9)), 256).unwrap(), FramePlan::Compress(9));
    assert_eq!(plan_frame(Some((256, 9)), 255).unwrap(), FramePlan::Uncompressed);
    match plan_frame(None, MAX_PACKET_DATA_SIZE + 1) {
        Err(PacketEncodeError::TooLong(n)) => assert_eq!(n, MAX_PACKET_DATA_SIZE + 1),
        other => panic!("unexpected {:?}", other),
    }
    assert!(plan_frame(None, MAX_PACKET_DATA_SIZE).is_ok());
}

#[test]
fn plain_frame_is_length_then_data() {
    assert_eq!(frame_packet(false, &[0x00, 0xaa]).unwrap(), vec![2, 0x00, 0xaa]);
    assert_eq!(frame_packet(false, &[]).unwrap(), vec![0]);
}

#[test]
fn uncompressed_frame_on_compressing_connection_has_zero_length() {
    assert_eq!(frame_packet(true, &[0x05, 0x01]).unwrap(), vec![3, 0, 0x05, 0x01]);
}

#[test]
fn frame_longer_than_the_largest_is_refused() {
    let data = vec![0u8; MAX_PACKET_SIZE as usize];
    match frame_packet(false, &data) {
        Err(PacketEncodeError::TooLong(n)) => assert_eq!(n, MAX_PACKET_SIZE as usize + 4),
        other => panic!("unexpected {:?}", other.map(|v| v.len())),
    }
    let data = vec![0u8; MAX_PACKET_SIZE as usize - 4];
    let frame = frame_packet(false, &data).unwrap();
    assert_eq!(frame.len(), MAX_PACKET_SIZE as usize - 1);
}

#[test]
fn compressed_frame_carries_both_lengths() {
    let frame = frame_compressed_packet(300, &[1, 2, 3]).unwrap();
    assert_eq!(frame, vec![5, 0xac, 0x02, 1, 2, 3]);
}

#[test]
fn stream_varint_errors() {
    assert!(matches!(read_varint_stream(&[]), Err(ReadingError::CleanEOF(_))));
    match read_varint_stream(&[0x80]) {
        Err(ReadingError::Incomplete(m)) => assert_eq!(m, "early eof"),
        other => panic!("unexpected {:?}", other),
    }
    let (v, n) = read_varint_stream(&[5, 9]).unwrap();
    assert_eq!((v.0, n), (5, 1));
}

#[test]
fn frame_length_bounds() {
    assert_eq!(check_frame_length(VarInt(10)).unwrap(), 10);
    assert_eq!(check_frame_length(VarInt(MAX_PACKET_SIZE as i32)).unwrap(), MAX_PACKET_SIZE);
    assert!(matches!(
        check_frame_length(VarInt(MAX_PACKET_SIZE as i32 + 1)),
        Err(PacketDecodeError::OutOfBounds)
    ));
    assert!(matches!(check_frame_length(VarInt(-1)), Err(PacketDecodeError::OutOfBounds)));
}

#[test]
fn body_without_compression_is_the_packet() {
    match split_frame_body(&[1, 2, 3], 3, None).unwrap() {
        FrameBody::Uncompressed(d) => assert_eq!(d, vec![1, 2, 3]),
        other => panic!("unexpected {:?}", other),
    }
}

#[test]
fn body_with_zero_length_is_uncompressed() {
    match split_frame_body(&[0, 7, 8], 3, Some(256)).unwrap() {
        FrameBody::Uncompressed(d) => assert_eq!(d, vec![7, 8]),
        other => panic!("unexpected {:?}", other),
    }
}

#[test]
fn uncompressed_body_above_threshold_is_refused() {
    let mut body = vec![0u8];
    body.extend(vec![1u8; 5]);
    assert!(matches!(
        split_frame_body(&body, 6, Some(4)),
        Err(PacketDecodeError::NotCompressed)
    ));
    assert!(split_frame_body(&body, 6, Some(5)).is_ok());
}

#[test]
fn compressed_body_gives_its_length() {
    match split_frame_body(&[0xac, 0x02, 9, 9], 4, Some(256)).unwrap() {
        FrameBody::Compressed { data_length, data } => {
            assert_eq!(data_length, 300);
            assert_eq!(data, vec![9, 9]);
        }
        other => panic!("unexpected {:?}", other),
    }
}

#[test]
fn short_frame_is_refused() {
    assert!(matches!(
        split_frame_body(&[0xaa], 5, None),
        Err(PacketDecodeError::Truncated)
    ));
    assert!(matches!(
        split_frame_body(&[0, 1], 3, Some(256)),
        Err(PacketDecodeError::Truncated)
    ));
}

#[test]
fn body_errors() {
    assert!(matches!(
        split_frame_body(&[], 0, Some(256)),
        Err(PacketDecodeError::ConnectionClosed)
    ));
    assert!(matches!(
        split_frame_body(&[0x80], 1, Some(256)),
        Err(PacketDecodeError::MalformedLength(ReadingError::Incomplete(_)))
    ));
    assert!(matches!(
        split_frame_body(&[0x81, 0x80, 0x80, 0x04], 4, Some(256)),
        Err(PacketDecodeError::TooLong)
    ));
}

#[test]
fn packet_is_id_then_payload() {
    let p: RawPacket = parse_packet(&[0x2b, 1, 2]).unwrap();
    assert_eq!(p.id, 0x2b);
    assert_eq!(p.payload, vec![1, 2]);
    assert!(matches!(parse_packet(&[]), Err(PacketDecodeError::DecodeID)));
    assert!(matches!(parse_packet(&[0xff; 6]), Err(PacketDecodeError::DecodeID)));
}

#[test]
fn frame_reads_back() {
    let packet = [0x10, 0xde, 0xad];
    let frame = frame_packet(false, &packet).unwrap();
    let (len, n) = read_varint_stream(&frame).unwrap();
    let len = check_frame_length(len).unwrap();
    match split_frame_body(&frame[n..], len, None).unwrap() {
        FrameBody::Uncompressed(d) => {
            let p = parse_packet(&d).unwrap();
            assert_eq!(p.id, 0x10);
            assert_eq!(p.payload, vec![0xde, 0xad]);
        }
        other => panic!("unexpected {:?}", other),
    }
    let frame = frame_packet(true, &packet).unwrap();
    let (len, n) = read_varint_stream(&frame).unwrap();
    match split_frame_body(&frame[n..], len.0 as u64, Some(256)).unwrap() {
        FrameBody::Uncompressed(d) => assert_eq!(d, packet.to_vec()),
        other => panic!("unexpected {:?}", other),
    }
}

#[test]
fn packet_encode_error_from_reading_error() {
    let e: PacketDecodeError = ReadingError::CleanEOF("x".to_string()).into();
    assert!(matches!(e, PacketDecodeError::ConnectionClosed));
    let e: PacketDecodeError = ReadingError::TooLarge("x".to_string()).into();
    assert!(matches!(e, PacketDecodeError::MalformedLength(ReadingError::TooLarge(_))));
}

#[test]
fn connection_state_changes() {
    let mut dec = DecoderState::new();
    let mut enc = EncoderState::new();
    assert!(!dec.is_encrypted() && !enc.is_encrypted());
    assert!(!enc.has_compression());
    set_compression(&mut dec, &mut enc, CompressionInfo { threshold: 256, level: 9 });
    assert_eq!(dec.compression(), Some(256));
    assert_eq!(enc.compression(), Some((256, 9)));
    assert!(enc.has_compression());
    set_encryption(&mut dec, &mut enc);
    assert!(dec.is_encrypted() && enc.is_encrypted());
    assert_eq!(enc.compression(), Some((256, 9)));
    assert_eq!(enc.plan(300).unwrap(), FramePlan::Compress(9));
    assert_eq!(enc.plan(10).unwrap(), FramePlan::Uncompressed);
}

#[test]
fn server_packets_get_answers() {
    let s = ConnectionState::Login;
    assert_eq!(
        handle_server_packet(s, ServerPacket::EncryptionRequest { should_authenticate: true }, false),
        (s, ClientAction::BeginEncryption { authenticate: false })
    );
    assert_eq!(
        handle_server_packet(s, ServerPacket::EncryptionRequest { should_authenticate: true }, true),
        (s, ClientAction::BeginEncryption { authenticate: true })
    );
    assert_eq!(
        handle_server_packet(s, ServerPacket::SetCompression { threshold: 256 }, false),
        (
            s,
            ClientAction::EnableCompression(CompressionInfo { threshold: 256, level: COMPRESSION })
        )
    );
    assert_eq!(
        handle_server_packet(s, ServerPacket::LoginSuccess, false),
        (ConnectionState::Configuration, ClientAction::SendLoginAcknowledged)
    );
    let c = ConnectionState::Configuration;
    assert_eq!(
        handle_server_packet(c, ServerPacket::FinishConfiguration, false),
        (ConnectionState::Play, ClientAction::SendAcknowledgeFinishConfiguration)
    );
    assert_eq!(
        handle_server_packet(c, ServerPacket::ClientboundKnownPacks, false),
        (c, ClientAction::SendKnownPacks)
    );
    assert_eq!(
        handle_server_packet(c, ServerPacket::PingConfiguration { id: 7 }, false),
        (c, ClientAction::SendPongConfiguration { id: 7 })
    );
    assert_eq!(
        handle_server_packet(c, ServerPacket::ClientboundKeepAliveConfiguration { keep_alive_id: -5 }, false),
        (c, ClientAction::SendKeepAliveConfiguration { keep_alive_id: -5 })
    );
    let p = ConnectionState::Play;
    assert_eq!(
        handle_server_packet(p, ServerPacket::PingPlay { id: 3 }, false),
        (p, ClientAction::SendPongPlay { id: 3 })
    );
    assert_eq!(
        handle_server_packet(p, ServerPacket::ClientboundKeepAlivePlay { keep_alive_id: 99 }, false),
        (p, ClientAction::SendKeepAlivePlay { keep_alive_id: 99 })
    );
    assert_eq!(handle_server_packet(p, ServerPacket::Other, true), (p, ClientAction::Nothing));
}

#[test]
fn negative_threshold_wraps() {
    assert_eq!(
        handle_server_packet(ConnectionState::Login, ServerPacket::SetCompression { threshold: -1 }, false).1,
        ClientAction::EnableCompression(CompressionInfo { threshold: u32::MAX, level: 9 })
    );
}

#[test]
fn handshake_moves_to_its_intent() {
    assert_eq!(
        handle_client_packet(ConnectionState::Handshake, Some(ConnectionState::Login)),
        ConnectionState::Login
    );
    assert_eq!(handle_client_packet(ConnectionState::Play, None), ConnectionState::Play);
}

#[test]
fn compression_level_error_message() {
    assert_eq!(CompressionLevelError.message(), "Invalid compression Level");
}

#[test]
fn world_time_starts_at_zero() {
    let t = WorldTime::default();
    assert_eq!(t.world_age, 0);
    assert_eq!(t.time_of_day, 0);
    assert!(!t.daylight_cycle);
}

#[test]
fn encryption_steps_send_the_response_before_encrypting() {
    assert_eq!(
        encryption_steps(true),
        vec![
            EncryptionStep::JoinSession,
            EncryptionStep::SendEncryptionResponse,
            EncryptionStep::EncryptBothSides
        ]
    );
    assert_eq!(
        encryption_steps(false),
        vec![EncryptionStep::SendEncryptionResponse, EncryptionStep::EncryptBothSides]
    );
}

#[test]
fn framed_packets_read_back_through_the_decoder_steps() {
    for (compressing, threshold) in [(false, 0usize), (true, 256usize)] {
        let mut data = vec![0x2a];
        data.extend_from_slice(b"payload");
        let mut stream = frame_packet(compressing, &data).unwrap();
        let frame_len = stream.len();
        stream.extend_from_slice(&[0xde, 0xad]);
        let (len, n) = read_varint_stream(&stream).unwrap();
        let packet_len = check_frame_length(len).unwrap();
        let body = &stream[n..n + packet_len as usize];
        assert_eq!(n + packet_len as usize, frame_len);
        let compression = if compressing { Some(threshold) } else { None };
        match split_frame_body(body, packet_len, compression).unwrap() {
            FrameBody::Uncompressed(d) => {
                let p = parse_packet(&d).unwrap();
                assert_eq!(p.id, 0x2a);
                assert_eq!(p.payload, b"payload".to_vec());
            }
            other => panic!("unexpected {:?}", other),
        }
    }
}
