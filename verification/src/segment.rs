//! The on-wire unit before each tag: a 32-bit previous-tag-size field and
//! then zero or one tag — absence of the tag marks the end of the stream,
//! told apart from a corrupt tag by whether bytes merely ran out.

use vstd::prelude::*;
use crate::FlvError;
use crate::bytes::{be_of, be32_bytes, be_bytes_to_u32, push_be32, lemma_be_of_bound};
use crate::header::{Header, spec_sig_ok, spec_header_of};
use crate::tag::{Tag, spec_tag_of, spec_tag_bytes, spec_tag_data_size};
use vstd::slice::slice_subrange;

verus! {

/// A previous-tag-size field and the tag that follows it, if one does.
#[derive(Debug, PartialEq)]
pub struct Segment {
    /// The 32-bit linkage field.
    pub pre_tag_size: u32,
    /// The tag, absent at the end of the stream.
    pub tag: Option<Tag>,
}

/// Whether the bytes after the linkage field run out before the tag they
/// begin: fewer than the eleven header bytes, or fewer than the declared
/// whole tag.
pub open spec fn spec_tag_truncated(rest: Seq<u8>) -> bool {
    rest.len() < 11 || rest.len() < 11 + spec_tag_data_size(rest)
}

impl Segment {
    /// The tag, if any, is well-formed.
    pub open spec fn wf(self) -> bool {
        match self.tag {
            Some(t) => t.wf(),
            None => true,
        }
    }

    /// Decodes one segment at the given offset: the four-byte linkage
    /// field, then the tag. Bytes running out mid-tag yield a tag-less
    /// segment consuming everything, as a reader would; a structural
    /// violation is an error.
    pub fn from_bytes(bytes: &[u8], start: usize) -> (r: Result<(Segment, usize), FlvError>)
        requires
            start + 4 <= bytes@.len(),
        ensures
            ({
                let rest = bytes@.skip(start + 4);
                let full = 11 + spec_tag_data_size(rest);
                match r {
                    Ok((seg, next)) => seg.pre_tag_size == be_of(
                        bytes@.subrange(start as int, start + 4),
                    ) && if spec_tag_truncated(rest) {
                        seg.tag is None && next == bytes@.len() && seg.wf()
                    } else {
                        seg.tag matches Some(t) && spec_tag_of(rest.subrange(0, full as int))
                            == Some(t@) && t.wf() && next == start + 4 + full
                    },
                    Err(e) => !spec_tag_truncated(rest) && spec_tag_of(
                        rest.subrange(0, full as int),
                    ) is None && (e == FlvError::UnknownTagType || e
                        == FlvError::MalformedMetadata),
                }
            }),
    {
        let len = bytes.len();
        let pre_tag_size = be_bytes_to_u32(slice_subrange(bytes, start, start + 4));
        let rest_start = start + 4;
        let remaining = len - rest_start;
        if remaining < 11 {
            return Ok((Segment { pre_tag_size, tag: None }, len));
        }
        let ds = be_bytes_to_u32(slice_subrange(bytes, rest_start + 1, rest_start + 4));
        proof {
            lemma_be_of_bound(bytes@.subrange(rest_start + 1, rest_start + 4));
            assert(bytes@.skip(rest_start as int).subrange(1, 4) =~= bytes@.subrange(
                rest_start + 1,
                rest_start + 4,
            ));
        }
        let full = 11 + ds as usize;
        if remaining < full {
            return Ok((Segment { pre_tag_size, tag: None }, len));
        }
        let tb = slice_subrange(bytes, rest_start, rest_start + full);
        proof {
            assert(tb@ =~= bytes@.skip(rest_start as int).subrange(
                0,
                11 + spec_tag_data_size(bytes@.skip(rest_start as int)) as int,
            ));
            assert(tb@.subrange(1, 4) =~= bytes@.skip(rest_start as int).subrange(1, 4));
        }
        match Tag::from_bytes(tb) {
            Ok(t) => Ok((Segment { pre_tag_size, tag: Some(t) }, rest_start + full)),
            Err(e) => Err(e),
        }
    }

    /// The tag, if one followed the linkage field.
    pub fn tag(&self) -> (r: &Option<Tag>)
        ensures
            r == &self.tag,
    {
        &self.tag
    }

    /// Whether a tag followed the linkage field.
    pub fn has_tag(&self) -> (r: bool)
        ensures
            r == (self.tag is Some),
    {
        self.tag.is_some()
    }

    /// Whether the segment carries a video tag.
    pub fn has_video_tag(&self) -> (r: bool)
        ensures
            r == (self.tag matches Some(t) && t@.data is Video),
    {
        match &self.tag {
            Some(t) => t.is_video_tag(),
            None => false,
        }
    }

    /// Whether the segment carries a metadata tag.
    pub fn has_script_tag(&self) -> (r: bool)
        ensures
            r == (self.tag matches Some(t) && t@.data is Script),
    {
        match &self.tag {
            Some(t) => t.is_script_tag(),
            None => false,
        }
    }

    /// Whether the segment carries an audio tag.
    pub fn has_audio_tag(&self) -> (r: bool)
        ensures
            r == (self.tag matches Some(t) && t@.data is Audio),
    {
        match &self.tag {
            Some(t) => t.is_audio_tag(),
            None => false,
        }
    }

    /// The tag, mutably.
    pub fn tag_mut(&mut self) -> (r: &mut Option<Tag>)
        ensures
            *r == old(self).tag,
            final(self).tag == *final(r),
            final(self).pre_tag_size == old(self).pre_tag_size,
    {
        &mut self.tag
    }

    /// The linkage field.
    pub fn pre_tag_size(&self) -> (r: u32)
        ensures
            r == self.pre_tag_size,
    {
        self.pre_tag_size
    }

    /// Replaces the linkage field.
    pub fn set_pre_tag_size(&mut self, size: u32)
        ensures
            final(self).pre_tag_size == size,
            final(self).tag == old(self).tag,
    {
        self.pre_tag_size = size;
    }

    /// Serializes the segment: the linkage field big-endian, then the tag's
    /// bytes if one is present.
    pub fn into_bytes(&self) -> (r: Vec<u8>)
        requires
            self.wf(),
        ensures
            r@ == be32_bytes(self.pre_tag_size) + match self.tag {
                Some(t) => spec_tag_bytes(t@),
                None => Seq::<u8>::empty(),
            },
    {
        let mut out = Vec::<u8>::new();
        push_be32(&mut out, self.pre_tag_size);
        match &self.tag {
            Some(t) => {
                let tb = t.into_bytes();
                out.extend_from_slice(tb.as_slice());
            },
            None => {},
        }
        proof {
            assert(out@ =~= be32_bytes(self.pre_tag_size) + match self.tag {
                Some(t) => spec_tag_bytes(t@),
                None => Seq::<u8>::empty(),
            });
        }
        out
    }
}

/// A segment as contracts see it.
#[verifier::ext_equal]
pub struct SegmentView {
    /// The 32-bit linkage field.
    pub pre_tag_size: u32,
    /// The tag, absent at the end of the stream.
    pub tag: Option<crate::tag::TagView>,
}

impl View for Segment {
    type V = SegmentView;

    open spec fn view(&self) -> SegmentView {
        SegmentView {
            pre_tag_size: self.pre_tag_size,
            tag: match self.tag {
                Some(t) => Some(t@),
                None => None,
            },
        }
    }
}

/// The segments the whole-file scan reads from a byte sequence, starting at
/// the given offset: it stops before a linkage field that does not fit, a
/// truncated tag ends the scan as one tag-less segment, and a rejected tag
/// ends it with nothing more.
pub open spec fn spec_scan(b: Seq<u8>, off: int) -> Seq<SegmentView>
    decreases b.len() - off,
    when 0 <= off <= b.len()
{
    if off + 4 > b.len() {
        Seq::empty()
    } else {
        let pre = be_of(b.subrange(off, off + 4)) as u32;
        let rest = b.skip(off + 4);
        if spec_tag_truncated(rest) {
            seq![SegmentView { pre_tag_size: pre, tag: None }]
        } else {
            let full = 11 + spec_tag_data_size(rest);
            match spec_tag_of(rest.subrange(0, full as int)) {
                None => Seq::empty(),
                Some(t) => seq![SegmentView { pre_tag_size: pre, tag: Some(t) }] + spec_scan(
                    b,
                    off + 4 + full,
                ),
            }
        }
    }
}

/// The index of the first segment at or after position `i` that carries a
/// metadata tag.
pub open spec fn first_script_from(body: Seq<Segment>, i: int) -> Option<int>
    decreases body.len() - i,
    when 0 <= i <= body.len()
{
    if i >= body.len() {
        None
    } else if body[i].tag matches Some(t) && t@.data is Script {
        Some(i)
    } else {
        first_script_from(body, i + 1)
    }
}

/// The whole-file read path: the header and every segment until the bytes
/// run out or a segment is rejected.
#[derive(Debug, PartialEq)]
pub struct Container {
    /// The stream header.
    pub header: Header,
    /// The segments, in stream order.
    pub body: Vec<Segment>,
}

impl Container {
    /// Reads a whole container from bytes: the header, then segments until
    /// fewer than a linkage field's four bytes remain or a segment is
    /// rejected — a rejected segment ends the scan, as the streaming reader
    /// it mirrors stops on any failure.
    pub fn from_bytes(bytes: &[u8]) -> (r: Result<Container, FlvError>)
        requires
            bytes@.len() >= 9,
        ensures
            match r {
                Ok(c) => spec_sig_ok(bytes@.subrange(0, 9)) && c.header == spec_header_of(
                    bytes@.subrange(0, 9),
                ) && c.header.wf() && c.body@.map_values(|s: Segment| s@) == spec_scan(bytes@, 9)
                    && (forall|i: int| 0 <= i < c.body@.len() ==> (#[trigger] c.body@[i]).wf()),
                Err(FlvError::MalformedSignature) => !spec_sig_ok(bytes@.subrange(0, 9)),
                Err(FlvError::UnexpectedHeaderSize) => spec_sig_ok(bytes@.subrange(0, 9))
                    && be_of(bytes@.subrange(0, 9).subrange(5, 9)) != 9,
                Err(_) => false,
            },
    {
        let hb = slice_subrange(bytes, 0, 9);
        let header = match Header::from_bytes(hb) {
            Ok(h) => h,
            Err(e) => {
                return Err(e);
            },
        };
        let mut body: Vec<Segment> = Vec::new();
        let len = bytes.len();
        let mut off: usize = 9;
        while off <= len - 4
            invariant
                9 <= off <= bytes@.len(),
                len == bytes@.len(),
                bytes@.len() >= 9,
                forall|i: int| 0 <= i < body@.len() ==> (#[trigger] body@[i]).wf(),
                spec_scan(bytes@, 9) == body@.map_values(|s: Segment| s@) + spec_scan(
                    bytes@,
                    off as int,
                ),
            ensures
                9 <= off <= bytes@.len(),
                forall|i: int| 0 <= i < body@.len() ==> (#[trigger] body@[i]).wf(),
                spec_scan(bytes@, 9) == body@.map_values(|s: Segment| s@) + spec_scan(
                    bytes@,
                    off as int,
                ),
                spec_scan(bytes@, off as int) == Seq::<SegmentView>::empty(),
            decreases bytes@.len() - off,
        {
            let ghost body0 = body@;
            let ghost off0 = off as int;
            match Segment::from_bytes(bytes, off) {
                Ok((seg, next)) => {
                    proof {
                        let rest = bytes@.skip(off + 4);
                        if !spec_tag_truncated(rest) {
                            lemma_be_of_bound(rest.subrange(1, 4));
                        }
                    }
                    body.push(seg);
                    off = next;
                    proof {
                        assert(body@.map_values(|s: Segment| s@) =~= body0.map_values(
                            |s: Segment| s@,
                        ).push(seg@));
                        assert(spec_scan(bytes@, off0) =~= seq![seg@] + spec_scan(
                            bytes@,
                            off as int,
                        ));
                        assert(body0.map_values(|s: Segment| s@) + (seq![seg@] + spec_scan(
                            bytes@,
                            off as int,
                        )) =~= body@.map_values(|s: Segment| s@) + spec_scan(bytes@, off as int));
                    }
                },
                Err(_) => {
                    proof {
                        assert(spec_scan(bytes@, off0) =~= Seq::<SegmentView>::empty());
                        assert(body@.map_values(|s: Segment| s@) + Seq::<SegmentView>::empty()
                            =~= body@.map_values(|s: Segment| s@));
                    }
                    break;
                },
            }
        }
        proof {
            assert(body@.map_values(|s: Segment| s@) + Seq::<SegmentView>::empty()
                =~= body@.map_values(|s: Segment| s@));
        }
        Ok(Container { header, body })
    }

    /// The first metadata tag of the stream, if one was read: the summary
    /// fields live in its value sequence.
    pub fn first_script_tag(&self) -> (r: Option<&Tag>)
        ensures
            match first_script_from(self.body@, 0) {
                Some(i) => r matches Some(t) && self.body@[i].tag == Some(*t),
                None => r is None,
            },
    {
        let mut i: usize = 0;
        while i < self.body.len()
            invariant
                i <= self.body@.len(),
                first_script_from(self.body@, 0) == first_script_from(self.body@, i as int),
            decreases self.body@.len() - i,
        {
            match &self.body[i].tag {
                Some(t) => {
                    if t.is_script_tag() {
                        return Some(t);
                    }
                },
                None => {},
            }
            i = i + 1;
        }
        None
    }
}

} // verus!
