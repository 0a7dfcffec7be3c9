//! The fixed nine-byte container header: a three-byte magic, a version
//! byte, a capability flag byte and a 32-bit declared size that must equal
//! nine.

use vstd::prelude::*;
use crate::FlvError;
use crate::bytes::{be_of, be32_bytes, be_bytes_to_u32, push_be32, lemma_be_of_be32};

verus! {

/// The canonical header length in bytes.
pub const HEADER_SIZE: u32 = 9;

/// Bit 0 of the flag byte: the stream carries video.
pub const HEADER_VIDEO_FLAG: u8 = 0x01;

/// Bit 2 of the flag byte: the stream carries audio.
pub const HEADER_AUDIO_FLAG: u8 = 0x04;

/// The container header. The signature is not stored: decoding rejects any
/// stream whose first three bytes differ from the magic, so every header
/// value stands for the magic followed by the fields below.
#[derive(Debug, Clone, Copy, PartialEq, Eq, Structural)]
pub struct Header {
    /// The version byte.
    pub version: u8,
    /// The capability flag byte; bit 0 is video, bit 2 is audio, the rest
    /// is reserved and preserved verbatim.
    pub flags: u8,
    /// The declared header size; nine on every decoded header.
    pub header_size: u32,
}

/// The first three bytes of a well-formed stream: the magic.
pub open spec fn spec_sig_ok(b: Seq<u8>) -> bool {
    b[0] == 0x46u8 && b[1] == 0x4cu8 && b[2] == 0x56u8
}

/// The header described by nine bytes whose signature already matched.
pub open spec fn spec_header_of(b: Seq<u8>) -> Header {
    Header { version: b[3], flags: b[4], header_size: be_of(b.subrange(5, 9)) as u32 }
}

/// The nine bytes that serialize a header.
pub open spec fn spec_header_bytes(h: Header) -> Seq<u8> {
    seq![0x46u8, 0x4cu8, 0x56u8, h.version, h.flags] + be32_bytes(h.header_size)
}

impl Header {
    /// A decoded header always declares the canonical size.
    pub open spec fn wf(self) -> bool {
        self.header_size == HEADER_SIZE
    }

    /// The video capability bit of the flag byte.
    pub open spec fn spec_has_video(self) -> bool {
        self.flags & HEADER_VIDEO_FLAG == HEADER_VIDEO_FLAG
    }

    /// The audio capability bit of the flag byte.
    pub open spec fn spec_has_audio(self) -> bool {
        self.flags & HEADER_AUDIO_FLAG == HEADER_AUDIO_FLAG
    }

    /// Decodes the nine header bytes, rejecting a wrong magic and then a
    /// declared size other than nine.
    pub fn from_bytes(bytes: &[u8]) -> (r: Result<Header, FlvError>)
        requires
            bytes@.len() == 9,
        ensures
            match r {
                Ok(h) => spec_sig_ok(bytes@) && be_of(bytes@.subrange(5, 9)) == HEADER_SIZE
                    && h == spec_header_of(bytes@) && h.wf(),
                Err(FlvError::MalformedSignature) => !spec_sig_ok(bytes@),
                Err(FlvError::UnexpectedHeaderSize) => spec_sig_ok(bytes@)
                    && be_of(bytes@.subrange(5, 9)) != HEADER_SIZE,
                Err(_) => false,
            },
    {
        if bytes[0] != 0x46 || bytes[1] != 0x4c || bytes[2] != 0x56 {
            return Err(FlvError::MalformedSignature);
        }
        let size_field = vstd::slice::slice_subrange(bytes, 5, 9);
        let header_size = be_bytes_to_u32(size_field);
        if header_size != HEADER_SIZE {
            return Err(FlvError::UnexpectedHeaderSize);
        }
        Ok(Header { version: bytes[3], flags: bytes[4], header_size })
    }

    /// The container version byte.
    pub fn version(&self) -> (r: u8)
        ensures
            r == self.version,
    {
        self.version
    }

    /// The declared header size.
    pub fn size(&self) -> (r: u32)
        ensures
            r == self.header_size,
    {
        self.header_size
    }

    /// Whether the flag byte has the video bit set.
    pub fn has_video(&self) -> (r: bool)
        ensures
            r == self.spec_has_video(),
    {
        self.flags & HEADER_VIDEO_FLAG == HEADER_VIDEO_FLAG
    }

    /// Whether the flag byte has the audio bit set.
    pub fn has_audio(&self) -> (r: bool)
        ensures
            r == self.spec_has_audio(),
    {
        self.flags & HEADER_AUDIO_FLAG == HEADER_AUDIO_FLAG
    }

    /// Clears the video bit when given `false`; leaves the flag byte
    /// untouched when given `true`. No other bit changes either way.
    pub fn set_has_video(&mut self, has_video: bool)
        ensures
            final(self).flags == old(self).flags & (if has_video { 0xffu8 } else { 0xfeu8 }),
            final(self).spec_has_video() == (has_video && old(self).spec_has_video()),
            final(self).spec_has_audio() == old(self).spec_has_audio(),
            final(self).flags & 0xfeu8 == old(self).flags & 0xfeu8,
            final(self).version == old(self).version,
            final(self).header_size == old(self).header_size,
    {
        let flag: u8 = if has_video { 0xff } else { 0xfe };
        self.flags = self.flags & flag;
        proof {
            let f = old(self).flags;
            assert((f & 0xffu8) == f && ((f & 0xfeu8) & 0x01u8) != 0x01u8
                && ((f & 0xfeu8) & 0x04u8) == (f & 0x04u8)
                && ((f & 0xfeu8) & 0xfeu8) == (f & 0xfeu8)) by (bit_vector);
        }
    }

    /// Clears the audio bit when given `false`; leaves the flag byte
    /// untouched when given `true`. No other bit changes either way.
    pub fn set_has_audio(&mut self, has_audio: bool)
        ensures
            final(self).flags == old(self).flags & (if has_audio { 0xffu8 } else { 0xfbu8 }),
            final(self).spec_has_audio() == (has_audio && old(self).spec_has_audio()),
            final(self).spec_has_video() == old(self).spec_has_video(),
            final(self).flags & 0xfbu8 == old(self).flags & 0xfbu8,
            final(self).version == old(self).version,
            final(self).header_size == old(self).header_size,
    {
        let flag: u8 = if has_audio { 0xff } else { 0xfb };
        self.flags = self.flags & flag;
        proof {
            let f = old(self).flags;
            assert((f & 0xffu8) == f && ((f & 0xfbu8) & 0x04u8) != 0x04u8
                && ((f & 0xfbu8) & 0x01u8) == (f & 0x01u8)
                && ((f & 0xfbu8) & 0xfbu8) == (f & 0xfbu8)) by (bit_vector);
        }
    }

    /// The signature as text; it is the magic on every decoded header.
    pub fn signature(&self) -> (r: String)
        ensures
            r@ == seq!['F', 'L', 'V'],
    {
        let s = String::from_str("FLV");
        proof {
            reveal_strlit("FLV");
            assert(s@ =~= seq!['F', 'L', 'V']);
        }
        s
    }

    /// Serializes the header: the magic, the version and flag bytes, and
    /// the declared size big-endian.
    pub fn into_bytes(&self) -> (r: Vec<u8>)
        ensures
            r@ == spec_header_bytes(*self),
            r@.len() == 9,
    {
        let mut bytes = Vec::<u8>::new();
        bytes.push(0x46);
        bytes.push(0x4c);
        bytes.push(0x56);
        bytes.push(self.version);
        bytes.push(self.flags);
        push_be32(&mut bytes, self.header_size);
        proof {
            assert(bytes@ =~= spec_header_bytes(*self));
        }
        bytes
    }
}

/// Round trip: decoding the nine bytes that serialize a well-formed header
/// yields the header back.
pub proof fn lemma_header_round_trip(h: Header)
    requires
        h.wf(),
    ensures
        spec_sig_ok(spec_header_bytes(h)),
        be_of(spec_header_bytes(h).subrange(5, 9)) == HEADER_SIZE,
        spec_header_of(spec_header_bytes(h)) == h,
{
    let b = spec_header_bytes(h);
    assert(b.subrange(5, 9) =~= be32_bytes(h.header_size));
    lemma_be_of_be32(h.header_size);
}

} // verus!
