use rtmp_demux::demux::Demultiplexer;

/// A format-0 chunk header on channel `csid` (2..=63).
fn fmt0_header(csid: u8, timestamp: u32, length: u32, type_id: u8, stream_id: u32) -> Vec<u8> {
    let mut h = vec![csid & 0x3F];
    h.extend_from_slice(&[
        (timestamp >> 16) as u8,
        (timestamp >> 8) as u8,
        timestamp as u8,
    ]);
    h.extend_from_slice(&[(length >> 16) as u8, (length >> 8) as u8, length as u8]);
    h.push(type_id);
    h.extend_from_slice(&stream_id.to_le_bytes());
    h
}

#[test]
fn single_chunk_message() {
    let mut d = Demultiplexer::new();
    let mut bytes = fmt0_header(3, 7, 4, 18, 1);
    bytes.extend_from_slice(&[10, 20, 30, 40]);
    let msgs = d.feed(&bytes);
    assert_eq!(msgs.len(), 1);
    assert_eq!(msgs[0].type_id, 18);
    assert_eq!(msgs[0].timestamp, 7);
    assert_eq!(msgs[0].stream_id, 1);
    assert_eq!(msgs[0].payload, vec![10, 20, 30, 40]);
    assert!(d.failed_channel().is_none());
}

#[test]
fn one_byte_at_a_time_equals_all_at_once() {
    let mut bytes = fmt0_header(4, 100, 6, 9, 5);
    bytes.extend_from_slice(&[1, 2, 3, 4, 5, 6]);
    // a second message via a format-3 continuation header
    bytes.push(0xC0 | 4);
    bytes.extend_from_slice(&[9, 8, 7, 6, 5, 4]);

    let mut all = Demultiplexer::new();
    let whole = all.feed(&bytes);

    let mut one = Demultiplexer::new();
    let mut single: Vec<rtmp_demux::demux::Message> = Vec::new();
    for b in &bytes {
        single.extend(one.feed(&[*b]));
    }

    assert_eq!(whole.len(), 2);
    assert_eq!(whole.len(), single.len());
    for (a, b) in whole.iter().zip(single.iter()) {
        assert_eq!(a.type_id, b.type_id);
        assert_eq!(a.timestamp, b.timestamp);
        assert_eq!(a.stream_id, b.stream_id);
        assert_eq!(a.payload, b.payload);
    }
    // the format-3 repeat applies the format-0 timestamp as the delta
    assert_eq!(whole[0].timestamp, 100);
    assert_eq!(whole[1].timestamp, 200);
}

#[test]
fn message_split_across_chunks() {
    // payload of 200 bytes crosses the default 128-byte chunk size
    let payload: Vec<u8> = (0..200u8).collect();
    let mut bytes = fmt0_header(5, 0, 200, 8, 1);
    bytes.extend_from_slice(&payload[..128]);
    bytes.push(0xC0 | 5); // format-3 continuation
    bytes.extend_from_slice(&payload[128..]);
    let mut d = Demultiplexer::new();
    let msgs = d.feed(&bytes);
    assert_eq!(msgs.len(), 1);
    assert_eq!(msgs[0].payload, payload);
}

#[test]
fn interleaved_channels() {
    let mut bytes = fmt0_header(3, 0, 130, 8, 1);
    bytes.extend_from_slice(&vec![0xAA; 128]);
    let mut other = fmt0_header(4, 0, 2, 9, 1);
    other.extend_from_slice(&[1, 2]);
    bytes.extend_from_slice(&other);
    bytes.push(0xC0 | 3);
    bytes.extend_from_slice(&[0xAA, 0xAA]);
    let mut d = Demultiplexer::new();
    let msgs = d.feed(&bytes);
    assert_eq!(msgs.len(), 2);
    assert_eq!(msgs[0].type_id, 9);
    assert_eq!(msgs[1].type_id, 8);
    assert_eq!(msgs[1].payload.len(), 130);
}

#[test]
fn truncated_input_yields_no_message_and_no_framing_error() {
    // a header declaring 100 payload bytes followed by only 40
    let mut bytes = fmt0_header(6, 0, 100, 8, 1);
    bytes.extend_from_slice(&vec![0x55; 40]);
    let mut d = Demultiplexer::new();
    let msgs = d.feed(&bytes);
    assert_eq!(msgs.len(), 0);
    // an incomplete trailing message is truncation, not a framing error
    assert!(d.failed_channel().is_none());
    assert!(d.has_incomplete_message());
}

#[test]
fn complete_input_leaves_nothing_incomplete() {
    let mut bytes = fmt0_header(3, 0, 2, 8, 1);
    bytes.extend_from_slice(&[1, 2]);
    let mut d = Demultiplexer::new();
    let msgs = d.feed(&bytes);
    assert_eq!(msgs.len(), 1);
    assert!(!d.has_incomplete_message());
}

#[test]
fn mid_header_input_is_incomplete() {
    let mut d = Demultiplexer::new();
    let msgs = d.feed(&[3, 0, 0]); // a format-0 header cut short
    assert!(msgs.is_empty());
    assert!(d.has_incomplete_message());
    assert!(d.failed_channel().is_none());
}

#[test]
fn continuation_without_header_is_framing_error() {
    let mut d = Demultiplexer::new();
    let msgs = d.feed(&[0xC0 | 9]); // format 3 on a channel never seen
    assert_eq!(msgs.len(), 0);
    assert_eq!(d.failed_channel(), Some(9));
    // the demultiplexer stays failed
    let more = d.feed(&[0, 0, 0]);
    assert_eq!(more.len(), 0);
    assert_eq!(d.failed_channel(), Some(9));
}

#[test]
fn chunk_size_change_is_not_retroactive() {
    let payload: Vec<u8> = (0..150u8).map(|x| x.wrapping_mul(3)).collect();
    let mut bytes = fmt0_header(3, 0, 150, 8, 1);
    bytes.extend_from_slice(&payload[..128]);

    let mut d = Demultiplexer::new();
    let first = d.feed(&bytes);
    assert_eq!(first.len(), 0);
    // a chunk-size change arriving mid-message must not re-chunk it
    assert!(d.set_max_chunk_size(64));
    let mut tail = vec![0xC0 | 3];
    tail.extend_from_slice(&payload[128..]);
    let msgs = d.feed(&tail);
    assert_eq!(msgs.len(), 1);
    assert_eq!(msgs[0].payload, payload);
}

#[test]
fn larger_chunk_size_takes_effect_for_new_chunks() {
    let payload: Vec<u8> = vec![7; 300];
    let mut d = Demultiplexer::new();
    assert!(d.set_max_chunk_size(4096));
    let mut bytes = fmt0_header(3, 0, 300, 9, 1);
    bytes.extend_from_slice(&payload);
    let msgs = d.feed(&bytes);
    assert_eq!(msgs.len(), 1);
    assert_eq!(msgs[0].payload, payload);
}

#[test]
fn set_chunk_size_zero_is_refused() {
    let mut d = Demultiplexer::new();
    assert!(!d.set_max_chunk_size(0));
    assert!(d.set_max_chunk_size(128));
}

#[test]
fn format1_and_format2_inherit_fields() {
    let mut bytes = fmt0_header(3, 1000, 2, 8, 77);
    bytes.extend_from_slice(&[1, 2]);
    // format 1: delta 10, new length 3, new type 9; stream id inherited
    bytes.push(0x40 | 3);
    bytes.extend_from_slice(&[0, 0, 10, 0, 0, 3, 9]);
    bytes.extend_from_slice(&[4, 5, 6]);
    // format 2: delta 5 only; length, type, stream id inherited
    bytes.push(0x80 | 3);
    bytes.extend_from_slice(&[0, 0, 5]);
    bytes.extend_from_slice(&[7, 8, 9]);
    let mut d = Demultiplexer::new();
    let msgs = d.feed(&bytes);
    assert_eq!(msgs.len(), 3);
    assert_eq!(
        (msgs[0].timestamp, msgs[0].type_id, msgs[0].stream_id),
        (1000, 8, 77)
    );
    assert_eq!(
        (msgs[1].timestamp, msgs[1].type_id, msgs[1].stream_id),
        (1010, 9, 77)
    );
    assert_eq!(
        (msgs[2].timestamp, msgs[2].type_id, msgs[2].stream_id),
        (1015, 9, 77)
    );
    assert_eq!(msgs[2].payload, vec![7, 8, 9]);
}

#[test]
fn extended_timestamp() {
    let big: u32 = 0x0100_0000; // needs the extended field
    let mut bytes = vec![3u8]; // format 0, channel 3
    bytes.extend_from_slice(&[0xFF, 0xFF, 0xFF]); // sentinel
    bytes.extend_from_slice(&[0, 0, 1]); // length 1
    bytes.push(8);
    bytes.extend_from_slice(&1u32.to_le_bytes());
    bytes.extend_from_slice(&big.to_be_bytes()); // extended timestamp
    bytes.push(0x42);
    let mut d = Demultiplexer::new();
    let msgs = d.feed(&bytes);
    assert_eq!(msgs.len(), 1);
    assert_eq!(msgs[0].timestamp, big);
    assert_eq!(msgs[0].payload, vec![0x42]);
}

#[test]
fn two_byte_and_three_byte_channel_ids() {
    // channel id 0 in the basic header: one extra byte, id 64 + b
    let mut bytes = vec![0u8, 10u8]; // channel 74, format 0
    bytes.extend_from_slice(&[0, 0, 0, 0, 0, 1, 8]);
    bytes.extend_from_slice(&1u32.to_le_bytes());
    bytes.push(0x11);
    // channel id 1: two extra bytes, id 64 + b2 + 256 * b3
    bytes.push(1u8);
    bytes.extend_from_slice(&[2, 1]); // 64 + 2 + 256 = 322
    bytes.extend_from_slice(&[0, 0, 0, 0, 0, 1, 9]);
    bytes.extend_from_slice(&1u32.to_le_bytes());
    bytes.push(0x22);
    let mut d = Demultiplexer::new();
    let msgs = d.feed(&bytes);
    assert_eq!(msgs.len(), 2);
    assert_eq!(msgs[0].payload, vec![0x11]);
    assert_eq!(msgs[1].payload, vec![0x22]);
}

#[test]
fn zero_length_message_is_immediately_empty() {
    let bytes = fmt0_header(3, 5, 0, 8, 1);
    let mut d = Demultiplexer::new();
    let msgs = d.feed(&bytes);
    assert_eq!(msgs.len(), 1);
    assert!(msgs[0].payload.is_empty());
    assert_eq!(msgs[0].timestamp, 5);
}

#[test]
fn empty_feed_is_harmless() {
    let mut d = Demultiplexer::new();
    let msgs = d.feed(&[]);
    assert!(msgs.is_empty());
}
