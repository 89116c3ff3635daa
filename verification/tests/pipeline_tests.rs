use rtmp_demux::amf0::Amf0Value;
use rtmp_demux::demux::Demultiplexer;
use rtmp_demux::message::{decode, ProtocolEvent};

/// One format-0 chunk on channel 3 (timestamp 0, stream id 1) carrying a
/// data message whose payload is a single object-notation Number 3.14. The
/// marker byte plus the eight-byte double make a nine-byte payload.
#[test]
fn chunk_to_data_event() {
    let mut amf = vec![0x00u8];
    amf.extend_from_slice(&3.14f64.to_bits().to_be_bytes());

    let mut bytes = vec![3u8]; // format 0, channel 3
    bytes.extend_from_slice(&[0, 0, 0]); // timestamp 0
    bytes.extend_from_slice(&[0, 0, amf.len() as u8]); // payload length
    bytes.push(18); // data message
    bytes.extend_from_slice(&1u32.to_le_bytes()); // stream id 1
    bytes.extend_from_slice(&amf);

    let mut d = Demultiplexer::new();
    let msgs = d.feed(&bytes);
    assert_eq!(msgs.len(), 1);
    let msg = &msgs[0];
    assert_eq!(msg.type_id, 18);
    assert_eq!(msg.timestamp, 0);
    assert_eq!(msg.stream_id, 1);
    assert_eq!(msg.payload.len(), 9);

    match decode(msg).unwrap() {
        ProtocolEvent::Amf0Data { values } => {
            assert_eq!(values.len(), 1);
            match &values[0] {
                Amf0Value::Number { bits } => assert_eq!(f64::from_bits(*bits), 3.14),
                other => panic!("expected a number, got {:?}", other),
            }
        }
        other => panic!("expected a data event, got {:?}", other),
    }
}

/// A decoded SetChunkSize, applied by the caller, governs chunks begun
/// afterwards.
#[test]
fn set_chunk_size_event_drives_the_demultiplexer() {
    let mut bytes = vec![2u8]; // format 0, channel 2 (control)
    bytes.extend_from_slice(&[0, 0, 0]);
    bytes.extend_from_slice(&[0, 0, 4]);
    bytes.push(1); // set chunk size
    bytes.extend_from_slice(&0u32.to_le_bytes());
    bytes.extend_from_slice(&300u32.to_be_bytes());

    let mut d = Demultiplexer::new();
    let msgs = d.feed(&bytes);
    assert_eq!(msgs.len(), 1);
    let size = match decode(&msgs[0]).unwrap() {
        ProtocolEvent::SetChunkSize { size } => size,
        other => panic!("unexpected {:?}", other),
    };
    assert_eq!(size, 300);
    assert!(d.set_max_chunk_size(size));

    // a 300-byte message now fits one chunk
    let payload = vec![9u8; 300];
    let mut av = vec![4u8];
    av.extend_from_slice(&[0, 0, 0]);
    av.extend_from_slice(&[0, 1, 44]); // 300
    av.push(8);
    av.extend_from_slice(&1u32.to_le_bytes());
    av.extend_from_slice(&payload);
    let msgs = d.feed(&av);
    assert_eq!(msgs.len(), 1);
    assert_eq!(msgs[0].payload, payload);
}

/// Fragmentation never changes the output: the same capture cut at every
/// third byte gives the same messages as fed whole.
#[test]
fn arbitrary_fragmentation() {
    let mut bytes = Vec::new();
    for n in 0..5u8 {
        let mut chunk = vec![3u8];
        chunk.extend_from_slice(&[0, 0, n]);
        chunk.extend_from_slice(&[0, 0, 3]);
        chunk.push(8);
        chunk.extend_from_slice(&1u32.to_le_bytes());
        chunk.extend_from_slice(&[n, n, n]);
        bytes.extend(chunk);
    }

    let mut whole = Demultiplexer::new();
    let expected = whole.feed(&bytes);
    assert_eq!(expected.len(), 5);

    let mut pieces = Demultiplexer::new();
    let mut got = Vec::new();
    for part in bytes.chunks(3) {
        got.extend(pieces.feed(part));
    }
    assert_eq!(expected.len(), got.len());
    for (a, b) in expected.iter().zip(got.iter()) {
        assert_eq!(a.timestamp, b.timestamp);
        assert_eq!(a.payload, b.payload);
    }
}
