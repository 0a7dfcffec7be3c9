//! One container record: a type byte, a 24-bit payload size, a split
//! 32-bit timestamp, a 24-bit stream id, and the payload itself — raw bytes
//! for audio and video, a decoded value sequence for metadata.

use vstd::prelude::*;
use crate::FlvError;
use crate::bytes::{
    be_of, be24_bytes, be_bytes_to_u32, push_be24, lemma_be_of_bound, lemma_be_of_be24,
    lemma_be24_of_be_of,
};
use crate::meta::{
    MetaValue, meta_of, meta_seq_bytes, meta_values_ok, decode_meta, encode_meta_values,
};
use vstd::slice::{slice_subrange, slice_to_vec};

verus! {

/// The fixed byte count of a tag's header fields.
pub const TAG_HEADER_SIZE: u32 = 11;

/// The type byte of an audio tag.
pub const TAG_TYPE_AUDIO: u8 = 0x08;

/// The type byte of a video tag.
pub const TAG_TYPE_VIDEO: u8 = 0x09;

/// The type byte of a metadata tag.
pub const TAG_TYPE_SCRIPT: u8 = 0x12;

/// A tag's payload, classified by the tag's type byte.
#[derive(Debug, PartialEq)]
pub enum TagData {
    /// An audio payload, kept verbatim.
    Audio(Vec<u8>),
    /// A video payload, kept verbatim.
    Video(Vec<u8>),
    /// A metadata payload, decoded into its value sequence.
    Script(Vec<MetaValue>),
}

/// A tag's payload, as contracts see it.
#[verifier::ext_equal]
pub enum TagDataView {
    /// An audio payload.
    Audio(Seq<u8>),
    /// A video payload.
    Video(Seq<u8>),
    /// A metadata value sequence.
    Script(Seq<MetaValue>),
}

/// One container record.
#[derive(Debug, PartialEq)]
pub struct Tag {
    /// The declared payload byte count, below 2^24.
    pub data_size: u32,
    /// The low 24 bits of the timestamp, below 2^24.
    pub timestamp: u32,
    /// The high-order timestamp extension byte.
    pub timestamp_ex: u8,
    /// The reserved stream id, below 2^24, preserved verbatim.
    pub stream_id: u32,
    /// The payload.
    pub data: TagData,
}

/// A tag as contracts see it.
#[verifier::ext_equal]
pub struct TagView {
    /// The declared payload byte count.
    pub data_size: u32,
    /// The low 24 bits of the timestamp.
    pub timestamp: u32,
    /// The high-order timestamp extension byte.
    pub timestamp_ex: u8,
    /// The reserved stream id.
    pub stream_id: u32,
    /// The payload.
    pub data: TagDataView,
}

impl View for TagData {
    type V = TagDataView;

    open spec fn view(&self) -> TagDataView {
        match self {
            TagData::Audio(d) => TagDataView::Audio(d@),
            TagData::Video(d) => TagDataView::Video(d@),
            TagData::Script(vs) => TagDataView::Script(vs@),
        }
    }
}

impl View for Tag {
    type V = TagView;

    open spec fn view(&self) -> TagView {
        TagView {
            data_size: self.data_size,
            timestamp: self.timestamp,
            timestamp_ex: self.timestamp_ex,
            stream_id: self.stream_id,
            data: self.data@,
        }
    }
}

/// The type byte a payload serializes under.
pub open spec fn spec_type_byte(d: TagDataView) -> u8 {
    match d {
        TagDataView::Audio(_) => TAG_TYPE_AUDIO,
        TagDataView::Video(_) => TAG_TYPE_VIDEO,
        TagDataView::Script(_) => TAG_TYPE_SCRIPT,
    }
}

/// The bytes a payload serializes to: audio and video verbatim, metadata
/// value by value.
pub open spec fn spec_payload_bytes(d: TagDataView) -> Seq<u8> {
    match d {
        TagDataView::Audio(b) => b,
        TagDataView::Video(b) => b,
        TagDataView::Script(vs) => meta_seq_bytes(vs),
    }
}

/// The payload size declared inside a tag's first four bytes.
pub open spec fn spec_tag_data_size(b: Seq<u8>) -> nat {
    be_of(b.subrange(1, 4))
}

/// The tag described by a byte sequence holding exactly the eleven header
/// bytes and the declared payload; nothing if the type byte is unknown or a
/// metadata payload is malformed.
pub open spec fn spec_tag_of(b: Seq<u8>) -> Option<TagView> {
    let ds = spec_tag_data_size(b) as int;
    let payload = b.subrange(11, 11 + ds);
    let base = TagView {
        data_size: be_of(b.subrange(1, 4)) as u32,
        timestamp: be_of(b.subrange(4, 7)) as u32,
        timestamp_ex: b[7],
        stream_id: be_of(b.subrange(8, 11)) as u32,
        data: TagDataView::Audio(payload),
    };
    if b[0] == TAG_TYPE_AUDIO {
        Some(TagView { data: TagDataView::Audio(payload), ..base })
    } else if b[0] == TAG_TYPE_VIDEO {
        Some(TagView { data: TagDataView::Video(payload), ..base })
    } else if b[0] == TAG_TYPE_SCRIPT {
        match meta_of(payload) {
            Some(vs) => Some(TagView { data: TagDataView::Script(vs), ..base }),
            None => None,
        }
    } else {
        None
    }
}

/// The bytes that serialize a tag: the type byte, three size fields and the
/// timestamp split across its two fields, then the payload.
pub open spec fn spec_tag_bytes(t: TagView) -> Seq<u8> {
    seq![spec_type_byte(t.data)] + be24_bytes(t.data_size) + be24_bytes(t.timestamp) + seq![
        t.timestamp_ex,
    ] + be24_bytes(t.stream_id) + spec_payload_bytes(t.data)
}

impl TagView {
    /// Every 24-bit field is in range; an audio or video payload has
    /// exactly the declared size; a metadata payload re-serializes without
    /// failing.
    pub open spec fn wf(self) -> bool {
        &&& self.data_size < 0x1000000
        &&& self.timestamp < 0x1000000
        &&& self.stream_id < 0x1000000
        &&& match self.data {
            TagDataView::Audio(d) => d.len() == self.data_size,
            TagDataView::Video(d) => d.len() == self.data_size,
            TagDataView::Script(vs) => meta_values_ok(vs),
        }
    }
}

impl Tag {
    /// The view's well-formedness, on the executable tag.
    pub open spec fn wf(self) -> bool {
        self@.wf()
    }

    /// Decodes a tag from exactly its eleven header bytes plus the declared
    /// payload. The caller supplies a buffer already sized to the whole
    /// tag; the incremental parser discovers that size.
    pub fn from_bytes(bytes: &[u8]) -> (r: Result<Tag, FlvError>)
        requires
            bytes@.len() >= 11,
            bytes@.len() == 11 + spec_tag_data_size(bytes@),
        ensures
            match r {
                Ok(t) => spec_tag_of(bytes@) == Some(t@) && t.wf(),
                Err(FlvError::UnknownTagType) => !(bytes@[0] == TAG_TYPE_AUDIO || bytes@[0]
                    == TAG_TYPE_VIDEO || bytes@[0] == TAG_TYPE_SCRIPT),
                Err(FlvError::MalformedMetadata) => bytes@[0] == TAG_TYPE_SCRIPT && meta_of(
                    bytes@.subrange(11, bytes@.len() as int),
                ) is None,
                Err(_) => false,
            },
    {
        proof {
            lemma_be_of_bound(bytes@.subrange(1, 4));
            lemma_be_of_bound(bytes@.subrange(4, 7));
            lemma_be_of_bound(bytes@.subrange(8, 11));
        }
        let tp = *vstd::slice::slice_index_get(bytes, 0);
        let data_size = be_bytes_to_u32(slice_subrange(bytes, 1, 4));
        let timestamp = be_bytes_to_u32(slice_subrange(bytes, 4, 7));
        let timestamp_ex = *vstd::slice::slice_index_get(bytes, 7);
        let stream_id = be_bytes_to_u32(slice_subrange(bytes, 8, 11));
        if tp != TAG_TYPE_AUDIO && tp != TAG_TYPE_VIDEO && tp != TAG_TYPE_SCRIPT {
            return Err(FlvError::UnknownTagType);
        }
        let payload = slice_subrange(bytes, 11, bytes.len());
        let data = if tp == TAG_TYPE_AUDIO {
            TagData::Audio(slice_to_vec(payload))
        } else if tp == TAG_TYPE_VIDEO {
            TagData::Video(slice_to_vec(payload))
        } else {
            match decode_meta(payload) {
                Ok(vs) => TagData::Script(vs),
                Err(e) => {
                    return Err(e);
                },
            }
        };
        let t = Tag { data_size, timestamp, timestamp_ex, stream_id, data };
        proof {
            assert(spec_tag_of(bytes@).unwrap() =~= t@);
        }
        Ok(t)
    }

    /// Serializes the tag; the declared size field is written as stored,
    /// and a metadata payload is re-serialized value by value in original
    /// order.
    pub fn into_bytes(&self) -> (r: Vec<u8>)
        requires
            self.wf(),
        ensures
            r@ == spec_tag_bytes(self@),
    {
        let mut out = Vec::<u8>::new();
        let tp: u8 = match &self.data {
            TagData::Audio(_) => TAG_TYPE_AUDIO,
            TagData::Video(_) => TAG_TYPE_VIDEO,
            TagData::Script(_) => TAG_TYPE_SCRIPT,
        };
        out.push(tp);
        push_be24(&mut out, self.data_size);
        push_be24(&mut out, self.timestamp);
        out.push(self.timestamp_ex);
        push_be24(&mut out, self.stream_id);
        match &self.data {
            TagData::Audio(d) => out.extend_from_slice(d.as_slice()),
            TagData::Video(d) => out.extend_from_slice(d.as_slice()),
            TagData::Script(vs) => encode_meta_values(vs, &mut out),
        }
        proof {
            assert(out@ =~= spec_tag_bytes(self@));
        }
        out
    }

    /// Whether the payload is video.
    pub fn is_video_tag(&self) -> (r: bool)
        ensures
            r == (self@.data is Video),
    {
        match &self.data {
            TagData::Video(_) => true,
            _ => false,
        }
    }

    /// Whether the payload is audio.
    pub fn is_audio_tag(&self) -> (r: bool)
        ensures
            r == (self@.data is Audio),
    {
        match &self.data {
            TagData::Audio(_) => true,
            _ => false,
        }
    }

    /// Whether the payload is metadata.
    pub fn is_script_tag(&self) -> (r: bool)
        ensures
            r == (self@.data is Script),
    {
        match &self.data {
            TagData::Script(_) => true,
            _ => false,
        }
    }

    /// The tag's size on the wire: the eleven header bytes plus the
    /// declared payload size.
    pub fn tag_size(&self) -> (r: u32)
        requires
            self.data_size < 0x1000000,
        ensures
            r == TAG_HEADER_SIZE + self.data_size,
    {
        self.data_size + TAG_HEADER_SIZE
    }

    /// The logical 32-bit timestamp: the extension byte is its high-order
    /// byte above the 24-bit field.
    pub fn timestamp(&self) -> (r: u32)
        requires
            self.timestamp < 0x1000000,
        ensures
            r == self.timestamp_ex * 0x1000000 + self.timestamp,
    {
        self.timestamp + (self.timestamp_ex as u32) * 0x1000000
    }

    /// Splits a logical 32-bit timestamp into the 24-bit field and the
    /// extension byte; no other field changes.
    pub fn set_timestamp(&mut self, timestamp: u32)
        ensures
            final(self).timestamp == timestamp % 0x1000000,
            final(self).timestamp_ex == timestamp / 0x1000000,
            final(self).timestamp_ex * 0x1000000 + final(self).timestamp == timestamp,
            final(self).data_size == old(self).data_size,
            final(self).stream_id == old(self).stream_id,
            final(self).data == old(self).data,
    {
        self.timestamp_ex = (timestamp / 0x1000000) as u8;
        self.timestamp = timestamp % 0x1000000;
    }

    /// The payload.
    pub fn data(&self) -> (r: &TagData)
        ensures
            r == &self.data,
    {
        &self.data
    }
}

/// Round trip: decoding the bytes that serialize a well-formed audio or
/// video tag yields the tag back.
pub proof fn lemma_tag_round_trip(t: TagView)
    requires
        t.wf(),
        !(t.data is Script),
    ensures
        spec_tag_of(spec_tag_bytes(t)) == Some(t),
{
    let b = spec_tag_bytes(t);
    assert(b.subrange(1, 4) =~= be24_bytes(t.data_size));
    assert(b.subrange(4, 7) =~= be24_bytes(t.timestamp));
    assert(b.subrange(8, 11) =~= be24_bytes(t.stream_id));
    lemma_be_of_be24(t.data_size);
    lemma_be_of_be24(t.timestamp);
    lemma_be_of_be24(t.stream_id);
    assert(b.subrange(11, 11 + spec_tag_data_size(b) as int) =~= spec_payload_bytes(t.data));
    assert(spec_tag_of(b).unwrap() =~= t);
}

/// Round trip for a metadata tag, conditional on the value serialization:
/// when the re-serialized payload decodes back to the same values and the
/// stored size field matches it, decoding the serialized tag yields the tag
/// back.
pub proof fn lemma_script_tag_round_trip(t: TagView)
    requires
        t.wf(),
        t.data matches TagDataView::Script(vs) && meta_of(meta_seq_bytes(vs)) == Some(vs)
            && meta_seq_bytes(vs).len() == t.data_size,
    ensures
        spec_tag_of(spec_tag_bytes(t)) == Some(t),
{
    let b = spec_tag_bytes(t);
    assert(b.subrange(1, 4) =~= be24_bytes(t.data_size));
    assert(b.subrange(4, 7) =~= be24_bytes(t.timestamp));
    assert(b.subrange(8, 11) =~= be24_bytes(t.stream_id));
    lemma_be_of_be24(t.data_size);
    lemma_be_of_be24(t.timestamp);
    lemma_be_of_be24(t.stream_id);
    assert(b.subrange(11, 11 + spec_tag_data_size(b) as int) =~= spec_payload_bytes(t.data));
    assert(spec_tag_of(b).unwrap() =~= t);
}

/// Serializing the tag decoded from metadata tag bytes reproduces those
/// bytes exactly, whenever the decoded values re-serialize to the very
/// payload they came from.
pub proof fn lemma_script_tag_bytes_identity(b: Seq<u8>)
    requires
        b.len() >= 11,
        b.len() == 11 + spec_tag_data_size(b),
        b[0] == TAG_TYPE_SCRIPT,
        meta_of(b.subrange(11, b.len() as int)) matches Some(vs) && meta_seq_bytes(vs)
            == b.subrange(11, b.len() as int),
    ensures
        spec_tag_of(b) is Some,
        spec_tag_bytes(spec_tag_of(b).unwrap()) == b,
{
    let t = spec_tag_of(b).unwrap();
    lemma_be24_of_be_of(b.subrange(1, 4));
    lemma_be24_of_be_of(b.subrange(4, 7));
    lemma_be24_of_be_of(b.subrange(8, 11));
    assert(b.subrange(11, 11 + spec_tag_data_size(b) as int) =~= b.subrange(
        11,
        b.len() as int,
    ));
    assert(spec_tag_bytes(t) =~= b);
}

/// Serializing the tag decoded from well-formed audio or video tag bytes
/// reproduces those bytes exactly.
pub proof fn lemma_av_tag_bytes_identity(b: Seq<u8>)
    requires
        b.len() >= 11,
        b.len() == 11 + spec_tag_data_size(b),
        b[0] == TAG_TYPE_AUDIO || b[0] == TAG_TYPE_VIDEO,
    ensures
        spec_tag_of(b) is Some,
        spec_tag_bytes(spec_tag_of(b).unwrap()) == b,
{
    let t = spec_tag_of(b).unwrap();
    lemma_be24_of_be_of(b.subrange(1, 4));
    lemma_be24_of_be_of(b.subrange(4, 7));
    lemma_be24_of_be_of(b.subrange(8, 11));
    assert(spec_tag_bytes(t) =~= b);
}

} // verus!
