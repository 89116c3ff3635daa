use rtmp_demux::flv::{write_file_header, write_tag, TagKind};

#[test]
fn file_header_bytes() {
    let header = write_file_header(true, true);
    assert_eq!(
        header,
        vec![0x46, 0x4C, 0x56, 0x01, 0x05, 0, 0, 0, 9, 0, 0, 0, 0]
    );
    let audio_only = write_file_header(true, false);
    assert_eq!(audio_only[4], 0x04);
    let video_only = write_file_header(false, true);
    assert_eq!(video_only[4], 0x01);
}

#[test]
fn tag_layout() {
    let payload = vec![0xDE, 0xAD, 0xBE, 0xEF];
    let tag = write_tag(TagKind::Video, 0x01020304, &payload);
    assert_eq!(tag.len(), 11 + 4 + 4);
    assert_eq!(tag[0], 9); // video
    assert_eq!(&tag[1..4], &[0, 0, 4]); // payload length
    assert_eq!(&tag[4..7], &[0x02, 0x03, 0x04]); // low timestamp bytes
    assert_eq!(tag[7], 0x01); // extended timestamp byte
    assert_eq!(&tag[8..11], &[0, 0, 0]); // stream id 0
    assert_eq!(&tag[11..15], &payload[..]);
    assert_eq!(&tag[15..19], &(11u32 + 4).to_be_bytes()); // trailer

    let audio = write_tag(TagKind::Audio, 0, &payload);
    assert_eq!(audio[0], 8);
}

#[test]
fn previous_tag_sizes_chain() {
    // the trailer after tag N is the previous-tag size before tag N + 1,
    // and the very first previous-tag size, in the header, is zero
    let first_payload = vec![1u8; 10];
    let second_payload = vec![2u8; 3];
    let mut file = write_file_header(true, false);
    file.extend(write_tag(TagKind::Audio, 0, &first_payload));
    file.extend(write_tag(TagKind::Audio, 40, &second_payload));

    // first previous-tag size: bytes 9..13 of the header
    assert_eq!(&file[9..13], &[0, 0, 0, 0]);
    // second tag starts after header (13) + first tag (11 + 10 + 4)
    let second_start = 13 + 11 + 10 + 4;
    assert_eq!(
        &file[second_start - 4..second_start],
        &(11u32 + 10).to_be_bytes()
    );
    // and the file ends with the second tag's own total size
    assert_eq!(&file[file.len() - 4..], &(11u32 + 3).to_be_bytes());
}
