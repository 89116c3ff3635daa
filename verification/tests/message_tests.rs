use rtmp_demux::amf0::{Amf0Value, DecodeError};
use rtmp_demux::message::{
    decode_message, PeerBandwidthLimitType, ProtocolEvent, UserControlEventType,
};

#[test]
fn amf0_data_with_number() {
    // the concrete pipeline scenario: a type-18 message whose payload is one
    // object-notation Number 3.14
    let mut payload = vec![0x00u8];
    payload.extend_from_slice(&3.14f64.to_bits().to_be_bytes());
    let event = decode_message(18, &payload).unwrap();
    match event {
        ProtocolEvent::Amf0Data { values } => {
            assert_eq!(values.len(), 1);
            match &values[0] {
                Amf0Value::Number { bits } => assert_eq!(f64::from_bits(*bits), 3.14),
                other => panic!("expected a number, got {:?}", other),
            }
        }
        other => panic!("expected data, got {:?}", other),
    }
}

#[test]
fn set_peer_bandwidth_dynamic() {
    let mut payload = 2_500_000u32.to_be_bytes().to_vec();
    payload.push(0x02);
    let event = decode_message(6, &payload).unwrap();
    match event {
        ProtocolEvent::SetPeerBandwidth { size, limit_type } => {
            assert_eq!(size, 2_500_000);
            assert_eq!(limit_type, PeerBandwidthLimitType::Dynamic);
        }
        other => panic!("expected peer bandwidth, got {:?}", other),
    }
}

#[test]
fn set_peer_bandwidth_bad_limit_byte() {
    let mut payload = 2_500_000u32.to_be_bytes().to_vec();
    payload.push(0x03);
    let err = decode_message(6, &payload).unwrap_err();
    assert_eq!(err, DecodeError::InvalidPeerBandwidthLimit { value: 0x03 });
}

#[test]
fn set_chunk_size_and_friends() {
    let payload = 4096u32.to_be_bytes().to_vec();
    match decode_message(1, &payload).unwrap() {
        ProtocolEvent::SetChunkSize { size } => assert_eq!(size, 4096),
        other => panic!("unexpected {:?}", other),
    }
    match decode_message(2, &payload).unwrap() {
        ProtocolEvent::Abort { stream_id } => assert_eq!(stream_id, 4096),
        other => panic!("unexpected {:?}", other),
    }
    match decode_message(3, &payload).unwrap() {
        ProtocolEvent::Acknowledgement { sequence_number } => assert_eq!(sequence_number, 4096),
        other => panic!("unexpected {:?}", other),
    }
    match decode_message(5, &payload).unwrap() {
        ProtocolEvent::WindowAcknowledgement { size } => assert_eq!(size, 4096),
        other => panic!("unexpected {:?}", other),
    }
}

#[test]
fn truncated_control_message() {
    let err = decode_message(1, &[0, 0]).unwrap_err();
    assert_eq!(err, DecodeError::Truncated { offset: 0 });
}

#[test]
fn user_control_events() {
    let mut payload = vec![0u8, 3u8]; // set buffer length
    payload.extend_from_slice(&9u32.to_be_bytes());
    payload.extend_from_slice(&5000u32.to_be_bytes());
    match decode_message(4, &payload).unwrap() {
        ProtocolEvent::UserControl {
            event_type,
            stream_id,
            buffer_length,
            timestamp,
        } => {
            assert_eq!(event_type, UserControlEventType::SetBufferLength);
            assert_eq!(stream_id, Some(9));
            assert_eq!(buffer_length, Some(5000));
            assert_eq!(timestamp, None);
        }
        other => panic!("unexpected {:?}", other),
    }

    let mut ping = vec![0u8, 6u8];
    ping.extend_from_slice(&123u32.to_be_bytes());
    match decode_message(4, &ping).unwrap() {
        ProtocolEvent::UserControl {
            event_type,
            stream_id,
            timestamp,
            ..
        } => {
            assert_eq!(event_type, UserControlEventType::PingRequest);
            assert_eq!(stream_id, None);
            assert_eq!(timestamp, Some(123));
        }
        other => panic!("unexpected {:?}", other),
    }

    let mut begin = vec![0u8, 0u8];
    begin.extend_from_slice(&1u32.to_be_bytes());
    match decode_message(4, &begin).unwrap() {
        ProtocolEvent::UserControl {
            event_type,
            stream_id,
            ..
        } => {
            assert_eq!(event_type, UserControlEventType::StreamBegin);
            assert_eq!(stream_id, Some(1));
        }
        other => panic!("unexpected {:?}", other),
    }
}

#[test]
fn unknown_user_control_event_is_error() {
    let mut payload = vec![0u8, 99u8];
    payload.extend_from_slice(&1u32.to_be_bytes());
    let err = decode_message(4, &payload).unwrap_err();
    assert_eq!(err, DecodeError::UnknownUserControlEvent { event_type: 99 });
}

#[test]
fn audio_video_and_unknown_pass_through() {
    let payload = vec![1u8, 2, 3];
    match decode_message(8, &payload).unwrap() {
        ProtocolEvent::AudioData { data } => assert_eq!(data, payload),
        other => panic!("unexpected {:?}", other),
    }
    match decode_message(9, &payload).unwrap() {
        ProtocolEvent::VideoData { data } => assert_eq!(data, payload),
        other => panic!("unexpected {:?}", other),
    }
    match decode_message(42, &payload).unwrap() {
        ProtocolEvent::Unknown { type_id, data } => {
            assert_eq!(type_id, 42);
            assert_eq!(data, payload);
        }
        other => panic!("unexpected {:?}", other),
    }
}

#[test]
fn amf0_command_connect_shape() {
    // "connect", transaction id 1.0, a command object, one extra argument
    let mut payload = vec![0x02u8, 0, 7];
    payload.extend_from_slice(b"connect");
    payload.push(0x00);
    payload.extend_from_slice(&1.0f64.to_bits().to_be_bytes());
    // command object { app: "live" }
    payload.push(0x03);
    payload.extend_from_slice(&[0, 3]);
    payload.extend_from_slice(b"app");
    payload.push(0x02);
    payload.extend_from_slice(&[0, 4]);
    payload.extend_from_slice(b"live");
    payload.extend_from_slice(&[0, 0, 0x09]);
    // one additional argument
    payload.push(0x05);
    match decode_message(20, &payload).unwrap() {
        ProtocolEvent::Amf0Command {
            command_name,
            transaction_id_bits,
            command_object,
            additional_arguments,
        } => {
            assert_eq!(command_name, b"connect".to_vec());
            assert_eq!(f64::from_bits(transaction_id_bits), 1.0);
            match command_object {
                Amf0Value::Object { pairs } => {
                    assert_eq!(pairs.len(), 1);
                    assert_eq!(pairs[0].0, b"app".to_vec());
                    match &pairs[0].1 {
                        Amf0Value::Str { text } => assert_eq!(text, &b"live".to_vec()),
                        other => panic!("unexpected {:?}", other),
                    }
                }
                other => panic!("unexpected {:?}", other),
            }
            assert_eq!(additional_arguments.len(), 1);
            assert!(matches!(additional_arguments[0], Amf0Value::Null));
        }
        other => panic!("unexpected {:?}", other),
    }
}

#[test]
fn amf0_command_name_must_be_string() {
    let mut payload = vec![0x00u8];
    payload.extend_from_slice(&1.0f64.to_bits().to_be_bytes());
    let err = decode_message(20, &payload).unwrap_err();
    assert_eq!(err, DecodeError::CommandNameNotAString { offset: 0 });
}

#[test]
fn amf0_command_transaction_id_must_be_number() {
    let mut payload = vec![0x02u8, 0, 1];
    payload.push(b'x');
    payload.push(0x05); // null instead of a number
    let err = decode_message(20, &payload).unwrap_err();
    assert_eq!(err, DecodeError::TransactionIdNotANumber { offset: 4 });
}
