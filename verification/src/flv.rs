//! The tagged-container muxer: pure serializers for the file header and for
//! one audio or video tag, with the framing the container format requires.

use vstd::prelude::*;

use crate::bytes::{be3_of, be4_of, push_be3, push_be4};

verus! {

/// The kind of a container tag.
#[derive(Debug, Clone, Copy, PartialEq, Eq, Structural)]
pub enum TagKind {
    Audio,
    Video,
}

/// The header byte of a tag kind: 8 for audio, 9 for video.
pub open spec fn tag_kind_byte(kind: TagKind) -> u8 {
    match kind {
        TagKind::Audio => 8,
        TagKind::Video => 9,
    }
}

/// The thirteen bytes that open the container file: the three-byte
/// signature, version 1, a flags byte (bit 0 video present, bit 2 audio
/// present), the big-endian header size 9, and then the zero that stands as
/// the previous-tag size before the first real tag.
pub open spec fn spec_file_header(has_audio: bool, has_video: bool) -> Seq<u8> {
    let flags = ((if has_audio {
        4int
    } else {
        0int
    }) + (if has_video {
        1int
    } else {
        0int
    })) as u8;
    seq![0x46u8, 0x4Cu8, 0x56u8, 1u8, flags, 0u8, 0u8, 0u8, 9u8] + be4_of(0)
}

/// The on-disk bytes of one tag: one kind byte, the three-byte payload
/// length, the three low timestamp bytes plus the extended timestamp byte,
/// the owning-stream id fixed at zero, the payload, and the four-byte
/// trailer `11 + payload length` — the total size of this tag's header and
/// payload, which a reader seeking backward uses, and which stands as the
/// previous-tag size of whatever tag follows.
pub open spec fn spec_tag(kind: TagKind, timestamp: u32, payload: Seq<u8>) -> Seq<u8> {
    seq![tag_kind_byte(kind)] + be3_of(payload.len() as u32) + be3_of(timestamp) + seq![
        (timestamp / 0x1000000) as u8,
        0u8,
        0u8,
        0u8,
    ] + payload + be4_of((11 + payload.len()) as u32)
}

/// Serializes the file header.
pub fn write_file_header(has_audio: bool, has_video: bool) -> (r: Vec<u8>)
    ensures
        r@ == spec_file_header(has_audio, has_video),
{
    let mut out: Vec<u8> = Vec::new();
    out.push(0x46);
    out.push(0x4C);
    out.push(0x56);
    out.push(1);
    let flags: u8 = (if has_audio {
        4
    } else {
        0
    }) + (if has_video {
        1
    } else {
        0
    });
    out.push(flags);
    out.push(0);
    out.push(0);
    out.push(0);
    out.push(9);
    push_be4(&mut out, 0);
    proof {
        assert(out@ =~= spec_file_header(has_audio, has_video));
    }
    out
}

/// Serializes one tag. The payload must fit the three-byte length field.
pub fn write_tag(kind: TagKind, timestamp: u32, payload: &[u8]) -> (r: Vec<u8>)
    requires
        payload@.len() < 0x1000000,
    ensures
        r@ == spec_tag(kind, timestamp, payload@),
{
    let mut out: Vec<u8> = Vec::new();
    let kind_byte: u8 = match kind {
        TagKind::Audio => 8,
        TagKind::Video => 9,
    };
    out.push(kind_byte);
    push_be3(&mut out, payload.len() as u32);
    push_be3(&mut out, timestamp);
    out.push((timestamp / 0x1000000) as u8);
    out.push(0);
    out.push(0);
    out.push(0);
    let mut i: usize = 0;
    let ghost before = out@;
    while i < payload.len()
        invariant
            i <= payload@.len(),
            out@ == before + payload@.subrange(0, i as int),
        decreases payload@.len() - i,
    {
        out.push(payload[i]);
        i = i + 1;
        proof {
            assert(out@ =~= before + payload@.subrange(0, i as int));
        }
    }
    proof {
        assert(payload@.subrange(0, payload@.len() as int) =~= payload@);
    }
    push_be4(&mut out, 11 + payload.len() as u32);
    proof {
        assert(out@ =~= spec_tag(kind, timestamp, payload@));
    }
    out
}

/// A muxed file: the header, then each tag in order.
pub open spec fn spec_file(has_audio: bool, has_video: bool, tags: Seq<(TagKind, u32, Seq<u8>)>) -> Seq<u8>
    decreases tags.len(),
{
    if tags.len() == 0 {
        spec_file_header(has_audio, has_video)
    } else {
        spec_file(has_audio, has_video, tags.drop_last()) + spec_tag(
            tags.last().0,
            tags.last().1,
            tags.last().2,
        )
    }
}

/// Container framing correctness: in a muxed file, the four bytes standing
/// immediately before each tag are the previous-tag size it needs — zero
/// before the first tag, from the header, and `11 + payload length` of tag
/// `n` before tag `n + 1`, from that tag's trailer.
#[verifier::rlimit(60)]
pub proof fn lemma_container_framing(
    has_audio: bool,
    has_video: bool,
    tags: Seq<(TagKind, u32, Seq<u8>)>,
    n: int,
)
    requires
        0 <= n < tags.len(),
    ensures
        ({
            let file = spec_file(has_audio, has_video, tags);
            let start = spec_file(has_audio, has_video, tags.take(n)).len();
            &&& spec_file_header(has_audio, has_video).len() == 13
            &&& spec_file_header(has_audio, has_video).subrange(9, 13) == be4_of(0)
            &&& file.subrange(start - 4, start as int) == (if n == 0 {
                be4_of(0)
            } else {
                be4_of((11 + tags[n - 1].2.len()) as u32)
            })
        }),
    decreases tags.len(),
{
    let header = spec_file_header(has_audio, has_video);
    if n == tags.len() - 1 {
        let prefix = spec_file(has_audio, has_video, tags.take(n));
        assert(tags.drop_last() =~= tags.take(n));
        let file = spec_file(has_audio, has_video, tags);
        assert(file == prefix + spec_tag(tags[n].0, tags[n].1, tags[n].2));
        if n == 0 {
            assert(tags.take(0) =~= Seq::<(TagKind, u32, Seq<u8>)>::empty());
            assert(prefix == header);
            assert(file.subrange(prefix.len() - 4, prefix.len() as int) =~= header.subrange(
                9,
                13,
            ));
            assert(header.subrange(9, 13) =~= be4_of(0));
        } else {
            let sub = tags.take(n);
            assert(sub.drop_last() =~= tags.take(n - 1));
            let prev_tag = spec_tag(sub.last().0, sub.last().1, sub.last().2);
            assert(prefix == spec_file(has_audio, has_video, tags.take(n - 1)) + prev_tag);
            assert(sub.last() == tags[n - 1]);
            let trailer = be4_of((11 + tags[n - 1].2.len()) as u32);
            assert(prev_tag =~= prev_tag.subrange(0, prev_tag.len() - 4) + trailer);
            assert(file.subrange(prefix.len() - 4, prefix.len() as int) =~= trailer);
        }
    } else {
        lemma_container_framing(has_audio, has_video, tags.drop_last(), n);
        assert(tags.drop_last().take(n) =~= tags.take(n));
        let shorter = spec_file(has_audio, has_video, tags.drop_last());
        let file = spec_file(has_audio, has_video, tags);
        let start = spec_file(has_audio, has_video, tags.take(n)).len();
        if n > 0 {
            assert(tags.drop_last()[n - 1] == tags[n - 1]);
        }
        assert(start >= 13) by {
            lemma_file_len_lower(has_audio, has_video, tags.take(n));
        }
        assert(start <= shorter.len()) by {
            lemma_file_prefix_len(has_audio, has_video, tags.drop_last(), n);
        }
        assert(file.subrange(start - 4, start as int) =~= shorter.subrange(
            start - 4,
            start as int,
        ));
    }
}

/// Every muxed file begins with the thirteen header bytes.
proof fn lemma_file_len_lower(has_audio: bool, has_video: bool, tags: Seq<(TagKind, u32, Seq<u8>)>)
    ensures
        spec_file(has_audio, has_video, tags).len() >= 13,
    decreases tags.len(),
{
    if tags.len() > 0 {
        lemma_file_len_lower(has_audio, has_video, tags.drop_last());
    }
}

/// A prefix of the tag list serializes to a prefix of the file.
proof fn lemma_file_prefix_len(
    has_audio: bool,
    has_video: bool,
    tags: Seq<(TagKind, u32, Seq<u8>)>,
    n: int,
)
    requires
        0 <= n <= tags.len(),
    ensures
        spec_file(has_audio, has_video, tags.take(n)).len() <= spec_file(
            has_audio,
            has_video,
            tags,
        ).len(),
    decreases tags.len() - n,
{
    if n == tags.len() {
        assert(tags.take(n) =~= tags);
    } else {
        lemma_file_prefix_len(has_audio, has_video, tags.drop_last(), n);
        assert(tags.drop_last().take(n) =~= tags.take(n));
    }
}

} // verus!
