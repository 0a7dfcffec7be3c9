//! The remuxer: drives the incremental parser over fed chunks, keeps the
//! tags a media filter accepts (metadata always passes), rewrites the
//! header's capability bits to match, and recomputes every previous-tag-size
//! field so that it names the previous *retained* tag, never a dropped one.

use vstd::prelude::*;
use crate::FlvError;
use crate::bytes::{be_of, be32_bytes, push_be32};
use crate::header::{Header, spec_sig_ok, spec_header_of, spec_header_bytes, HEADER_SIZE};
use crate::tag::{
    spec_tag_of, spec_tag_bytes, spec_tag_data_size, TagDataView, TAG_TYPE_AUDIO, TAG_TYPE_VIDEO,
    TAG_TYPE_SCRIPT, lemma_av_tag_bytes_identity, lemma_script_tag_bytes_identity,
};
use crate::meta::{meta_of, meta_seq_bytes};
use crate::parser::{Parser, ParserState, ParseResult, spec_need, spec_state_wf};

verus! {

/// Which media kinds an extraction keeps; metadata tags always pass.
#[derive(Debug, Clone, Copy, PartialEq, Eq, Structural)]
pub enum MediaFilter {
    /// Keep audio tags only.
    Audio,
    /// Keep video tags only.
    Video,
    /// Keep every tag.
    All,
}

/// Whether a tag of this payload kind is retained under the filter.
pub open spec fn spec_keeps(f: MediaFilter, d: TagDataView) -> bool {
    match d {
        TagDataView::Script(_) => true,
        TagDataView::Audio(_) => f == MediaFilter::Audio || f == MediaFilter::All,
        TagDataView::Video(_) => f == MediaFilter::Video || f == MediaFilter::All,
    }
}

/// The flag byte after the rewrite: each capability bit survives only if
/// the filter keeps its kind and the input had it; all other bits are
/// preserved.
pub open spec fn spec_rewrite_flags(h: Header, f: MediaFilter) -> u8 {
    (h.flags & (if (f == MediaFilter::Video || f == MediaFilter::All) && h.spec_has_video() {
        0xffu8
    } else {
        0xfeu8
    })) & (if (f == MediaFilter::Audio || f == MediaFilter::All) && h.spec_has_audio() {
        0xffu8
    } else {
        0xfbu8
    })
}

/// The header after the rewrite.
pub open spec fn spec_rewrite_header(h: Header, f: MediaFilter) -> Header {
    Header { flags: spec_rewrite_flags(h, f), ..h }
}

/// Rewrites the header's capability bits in place to match the filter.
pub fn rewrite_header(h: &mut Header, filter: MediaFilter)
    ensures
        *final(h) == spec_rewrite_header(*old(h), filter),
        final(h).spec_has_video() == ((filter == MediaFilter::Video || filter == MediaFilter::All)
            && old(h).spec_has_video()),
        final(h).spec_has_audio() == ((filter == MediaFilter::Audio || filter == MediaFilter::All)
            && old(h).spec_has_audio()),
{
    let keep_video = (filter == MediaFilter::Video || filter == MediaFilter::All)
        && h.has_video();
    let keep_audio = (filter == MediaFilter::Audio || filter == MediaFilter::All)
        && h.has_audio();
    h.set_has_video(keep_video);
    h.set_has_audio(keep_audio);
}

/// What the remuxer writes for a decoded header: the rewritten header's
/// bytes, then a zero previous-tag-size field — there is no tag yet.
pub open spec fn spec_header_out(h: Header, f: MediaFilter) -> Seq<u8> {
    spec_header_bytes(spec_rewrite_header(h, f)) + be32_bytes(0)
}

/// What the remuxer writes for a decoded tag: nothing if the filter drops
/// it, else the tag's bytes followed by the tag's own wire size as the
/// linkage field for whatever is written next.
pub open spec fn spec_tag_out(t: crate::tag::TagView, f: MediaFilter) -> Seq<u8> {
    if spec_keeps(f, t.data) {
        spec_tag_bytes(t) + be32_bytes((11 + t.data_size) as u32)
    } else {
        Seq::empty()
    }
}

/// The parser state, unconsumed bytes, output bytes and terminal error of
/// running the remuxer until the buffered bytes run short.
#[verifier::ext_equal]
pub struct RunResult {
    /// The state the parser is left in.
    pub state: ParserState,
    /// The bytes fed but not consumed.
    pub buf: Seq<u8>,
    /// The bytes written to the output.
    pub out: Seq<u8>,
    /// The structural violation that stopped the run, if one did.
    pub err: Option<FlvError>,
}

/// Runs the remuxer's loop on buffered bytes: decode one unit, write its
/// output, continue on the rest; stop at a byte deficit or a structural
/// violation. The whole run is a function of the state, the bytes and the
/// filter alone.
pub open spec fn spec_run(st: ParserState, b: Seq<u8>, f: MediaFilter) -> RunResult
    decreases b.len(),
    when match st {
        ParserState::Header(n) => n == 9,
        ParserState::PreTagSize(n) => n == 4,
        ParserState::Tag(_) => true,
    }
{
    if b.len() < spec_need(st) {
        RunResult { state: st, buf: b, out: Seq::empty(), err: None }
    } else {
        match st {
            ParserState::Header(_) => {
                let hb = b.subrange(0, 9);
                if !spec_sig_ok(hb) {
                    RunResult { state: st, buf: b, out: Seq::empty(), err: Some(
                        FlvError::MalformedSignature,
                    ) }
                } else if be_of(hb.subrange(5, 9)) != HEADER_SIZE {
                    RunResult { state: st, buf: b, out: Seq::empty(), err: Some(
                        FlvError::UnexpectedHeaderSize,
                    ) }
                } else {
                    let rec = spec_run(ParserState::PreTagSize(4), b.skip(9), f);
                    RunResult { out: spec_header_out(spec_header_of(hb), f) + rec.out, ..rec }
                }
            },
            ParserState::PreTagSize(_) => spec_run(ParserState::Tag(11), b.skip(4), f),
            ParserState::Tag(_) => {
                let ds = spec_tag_data_size(b);
                let full = 11 + ds;
                if ds == 0 {
                    RunResult { state: st, buf: b, out: Seq::empty(), err: Some(
                        FlvError::ZeroLengthTagData,
                    ) }
                } else if full > b.len() {
                    RunResult { state: ParserState::Tag(full as usize), buf: b, out: Seq::empty(),
                        err: None }
                } else {
                    let tb = b.subrange(0, full as int);
                    match spec_tag_of(tb) {
                        None => RunResult { state: st, buf: b, out: Seq::empty(), err: Some(
                            if !(tb[0] == TAG_TYPE_AUDIO || tb[0] == TAG_TYPE_VIDEO || tb[0]
                                == TAG_TYPE_SCRIPT) {
                                FlvError::UnknownTagType
                            } else {
                                FlvError::MalformedMetadata
                            },
                        ) },
                        Some(t) => {
                            let rec = spec_run(ParserState::PreTagSize(4), b.skip(full as int), f);
                            RunResult { out: spec_tag_out(t, f) + rec.out, ..rec }
                        },
                    }
                }
            },
        }
    }
}

/// The remuxer: an incremental parser and the filter it extracts with.
pub struct Remuxer {
    /// The parser driven over the fed input.
    pub parser: Parser,
    /// The media kinds kept.
    pub filter: MediaFilter,
}

impl Remuxer {
    /// A fresh remuxer over a fresh parser.
    pub fn new(filter: MediaFilter) -> (r: Remuxer)
        ensures
            r.parser.wf(),
            r.parser.state_spec() == ParserState::Header(9),
            r.parser.buf_spec() == Seq::<u8>::empty(),
            r.filter == filter,
    {
        Remuxer { parser: Parser::new(), filter }
    }

    /// Feeds one input chunk and appends to the output everything the
    /// buffered bytes now determine, exactly as the run spec says: kept
    /// tags' bytes each followed by their own wire size, dropped tags
    /// contributing nothing. Returns the structural violation that stopped
    /// the run, if one did; more input may be pushed after an Ok.
    #[verifier::loop_isolation(false)]
    #[verifier::rlimit(60)]
    pub fn push(&mut self, chunk: &[u8], out: &mut Vec<u8>) -> (r: Result<(), FlvError>)
        requires
            old(self).parser.wf(),
        ensures
            final(self).parser.wf(),
            final(self).filter == old(self).filter,
            ({
                let run = spec_run(
                    old(self).parser.state_spec(),
                    old(self).parser.buf_spec() + chunk@,
                    old(self).filter,
                );
                &&& final(self).parser.state_spec() == run.state
                &&& final(self).parser.buf_spec() == run.buf
                &&& final(out)@ == old(out)@ + run.out
                &&& (r is Ok <==> run.err is None)
                &&& (r matches Err(e) ==> run.err == Some(e))
            }),
    {
        let ghost run0 = spec_run(
            old(self).parser.state_spec(),
            old(self).parser.buf_spec() + chunk@,
            old(self).filter,
        );
        let ghost out0 = out@;
        self.parser.feed(chunk);
        proof {
            if old(self).parser.buf_spec().len() >= 4 {
                assert(self.parser.buf_spec().subrange(1, 4) =~= old(
                    self,
                ).parser.buf_spec().subrange(1, 4));
            }
        }
        loop
            invariant
                self.parser.wf(),
                self.filter == old(self).filter,
                run0 == spec_run(
                    old(self).parser.state_spec(),
                    old(self).parser.buf_spec() + chunk@,
                    old(self).filter,
                ),
                ({
                    let rc = spec_run(self.parser.state_spec(), self.parser.buf_spec(),
                        self.filter);
                    &&& rc.state == run0.state
                    &&& rc.buf == run0.buf
                    &&& rc.err == run0.err
                    &&& out@ + rc.out == out0 + run0.out
                }),
            decreases self.parser.buf_spec().len(),
        {
            let ghost st_cur = self.parser.state_spec();
            let ghost b_cur = self.parser.buf_spec();
            let ghost rc = spec_run(st_cur, b_cur, self.filter);
            match self.parser.parse() {
                Ok(ParseResult::MoreDataRequired(_)) => {
                    proof {
                        assert(out@ + Seq::<u8>::empty() =~= out@);
                    }
                    return Ok(());
                },
                Ok(ParseResult::Header(h)) => {
                    let mut rewritten = h;
                    rewrite_header(&mut rewritten, self.filter);
                    let hb = rewritten.into_bytes();
                    out.extend_from_slice(hb.as_slice());
                    push_be32(out, 0);
                    proof {
                        let unit = spec_header_out(spec_header_of(b_cur.subrange(0, 9)),
                            self.filter);
                        assert(rc.out == unit + spec_run(ParserState::PreTagSize(4),
                            b_cur.skip(9), self.filter).out);
                        assert(out@ =~= (out0 + run0.out).subrange(0, out@.len() as int)) by {
                            assert(out@ + spec_run(ParserState::PreTagSize(4), b_cur.skip(9),
                                self.filter).out =~= out0 + run0.out);
                        }
                        assert(out@ + spec_run(self.parser.state_spec(), self.parser.buf_spec(),
                            self.filter).out =~= out0 + run0.out);
                    }
                },
                Ok(ParseResult::PreTagSize(_)) => {
                },
                Ok(ParseResult::Tag(t)) => {
                    let keep = t.is_script_tag() || ((self.filter == MediaFilter::Video
                        || self.filter == MediaFilter::All) && t.is_video_tag()) || ((self.filter
                        == MediaFilter::Audio || self.filter == MediaFilter::All)
                        && t.is_audio_tag());
                    proof {
                        assert(keep == spec_keeps(self.filter, t@.data));
                    }
                    if keep {
                        let tb = t.into_bytes();
                        out.extend_from_slice(tb.as_slice());
                        push_be32(out, t.tag_size());
                    }
                    proof {
                        let ghost full = 11 + spec_tag_data_size(b_cur);
                        assert(rc.out == spec_tag_out(t@, self.filter) + spec_run(
                            ParserState::PreTagSize(4), b_cur.skip(full as int),
                            self.filter).out);
                        assert(out@ + spec_run(self.parser.state_spec(), self.parser.buf_spec(),
                            self.filter).out =~= out0 + run0.out);
                    }
                },
                Err(e) => {
                    proof {
                        assert(out@ + Seq::<u8>::empty() =~= out@);
                    }
                    return Err(e);
                },
            }
        }
    }
}

/// The retained-adjacency law of remuxing: a kept, well-formed audio or
/// video tag contributes its input bytes unchanged, immediately followed by
/// its own wire size as the linkage field that precedes whatever the output
/// retains next — the size of a dropped tag in between never appears.
pub proof fn lemma_remux_tag_unchanged(b: Seq<u8>, f: MediaFilter)
    requires
        b.len() >= 11,
        b.len() == 11 + spec_tag_data_size(b),
        b[0] == TAG_TYPE_AUDIO || b[0] == TAG_TYPE_VIDEO,
        spec_keeps(f, spec_tag_of(b).unwrap().data),
    ensures
        spec_tag_of(b) is Some,
        spec_tag_out(spec_tag_of(b).unwrap(), f) == b + be32_bytes(b.len() as u32),
{
    crate::bytes::lemma_be_of_bound(b.subrange(1, 4));
    lemma_av_tag_bytes_identity(b);
    assert(spec_tag_out(spec_tag_of(b).unwrap(), f) =~= b + be32_bytes(b.len() as u32));
}

/// The metadata half of the retained-adjacency law, which rests on the
/// value serialization: a metadata tag whose decoded values re-serialize to
/// the very payload they came from contributes its input bytes unchanged,
/// followed by its own wire size.
pub proof fn lemma_remux_script_tag_unchanged(b: Seq<u8>, f: MediaFilter)
    requires
        b.len() >= 11,
        b.len() == 11 + spec_tag_data_size(b),
        b[0] == TAG_TYPE_SCRIPT,
        meta_of(b.subrange(11, b.len() as int)) matches Some(vs) && meta_seq_bytes(vs)
            == b.subrange(11, b.len() as int),
    ensures
        spec_tag_of(b) is Some,
        spec_tag_out(spec_tag_of(b).unwrap(), f) == b + be32_bytes(b.len() as u32),
{
    crate::bytes::lemma_be_of_bound(b.subrange(1, 4));
    lemma_script_tag_bytes_identity(b);
    assert(spec_tag_out(spec_tag_of(b).unwrap(), f) =~= b + be32_bytes(b.len() as u32));
}

/// Under the all filter every tag is retained.
pub proof fn lemma_all_filter_keeps(d: TagDataView)
    ensures
        spec_keeps(MediaFilter::All, d),
{
}

/// Chunk-boundary independence: running on some bytes and then continuing
/// the run once more bytes arrive writes the same output — the first run's
/// bytes then the rest — leaves the same bytes, ends in the same verdict,
/// and, as long as no structural violation ends the stream, reaches the
/// same state as one run over all the bytes at once.
#[verifier::rlimit(80)]
pub proof fn lemma_run_chunking(st: ParserState, b: Seq<u8>, extra: Seq<u8>, f: MediaFilter)
    requires
        spec_state_wf(st, b),
    ensures
        ({
            let r1 = spec_run(st, b, f);
            let r2 = spec_run(r1.state, r1.buf + extra, f);
            let whole = spec_run(st, b + extra, f);
            &&& whole.buf == r2.buf
            &&& whole.err == r2.err
            &&& whole.out == r1.out + r2.out
            &&& (whole.err is None ==> whole.state == r2.state)
        }),
    decreases b.len(),
{
    let r1 = spec_run(st, b, f);
    let r2 = spec_run(r1.state, r1.buf + extra, f);
    let whole = spec_run(st, b + extra, f);
    let w = b + extra;
    let n = spec_need(st);
    assert(w.len() == b.len() + extra.len());
    if b.len() < n {
        assert(r1 == RunResult { state: st, buf: b, out: Seq::<u8>::empty(), err: None });
        assert(Seq::<u8>::empty() + r2.out =~= r2.out);
    } else {
        if b.len() >= 4 {
            assert(w.subrange(1, 4) =~= b.subrange(1, 4));
        }
        if b.len() >= 9 {
            assert(w.subrange(0, 9) =~= b.subrange(0, 9));
        }
        match st {
            ParserState::Header(_) => {
                let hb = b.subrange(0, 9);
                if !spec_sig_ok(hb) || be_of(hb.subrange(5, 9)) != HEADER_SIZE {
                    assert(r1.out =~= Seq::<u8>::empty() + Seq::<u8>::empty());
                    assert(whole.out =~= Seq::<u8>::empty() + Seq::<u8>::empty());
                    assert(r2.out == Seq::<u8>::empty());
                    assert(Seq::<u8>::empty() + Seq::<u8>::empty() =~= Seq::<u8>::empty());
                } else {
                    assert(w.skip(9) =~= b.skip(9) + extra);
                    lemma_run_chunking(ParserState::PreTagSize(4), b.skip(9), extra, f);
                    let unit = spec_header_out(spec_header_of(hb), f);
                    let rec1 = spec_run(ParserState::PreTagSize(4), b.skip(9), f);
                    let rec2 = spec_run(rec1.state, rec1.buf + extra, f);
                    assert(unit + (rec1.out + rec2.out) =~= (unit + rec1.out) + rec2.out);
                }
            },
            ParserState::PreTagSize(_) => {
                assert(w.skip(4) =~= b.skip(4) + extra);
                lemma_run_chunking(ParserState::Tag(11), b.skip(4), extra, f);
            },
            ParserState::Tag(_) => {
                let ds = spec_tag_data_size(b);
                let full = 11 + ds;
                crate::bytes::lemma_be_of_bound(b.subrange(1, 4));
                assert(spec_tag_data_size(w) == ds);
                if ds == 0 {
                    assert(r2.out == Seq::<u8>::empty());
                    assert(Seq::<u8>::empty() + Seq::<u8>::empty() =~= Seq::<u8>::empty());
                } else if full > b.len() {
                    assert(r1 == RunResult { state: ParserState::Tag(full as usize), buf: b,
                        out: Seq::<u8>::empty(), err: None });
                    assert(spec_need(ParserState::Tag(full as usize)) == full);
                    if full > w.len() {
                        assert(r2 == RunResult { state: ParserState::Tag(full as usize), buf: w,
                            out: Seq::<u8>::empty(), err: None });
                        assert(whole == r2);
                    } else {
                        let tbw = w.subrange(0, full as int);
                        match spec_tag_of(tbw) {
                            None => {
                                assert(whole.err == r2.err);
                                assert(whole.out == Seq::<u8>::empty() && r2.out
                                    == Seq::<u8>::empty());
                                assert(whole.buf == w && r2.buf == w);
                            },
                            Some(t) => {
                                let rec = spec_run(ParserState::PreTagSize(4),
                                    w.skip(full as int), f);
                                assert(whole.out == spec_tag_out(t, f) + rec.out);
                                assert(r2.out == spec_tag_out(t, f) + rec.out);
                                assert(whole.state == rec.state && r2.state == rec.state);
                                assert(whole.buf == rec.buf && r2.buf == rec.buf);
                                assert(whole.err == rec.err && r2.err == rec.err);
                            },
                        }
                    }
                    assert(Seq::<u8>::empty() + r2.out =~= r2.out);
                } else {
                    let tb = b.subrange(0, full as int);
                    assert(w.subrange(0, full as int) =~= tb);
                    match spec_tag_of(tb) {
                        None => {
                            assert(r2.out == Seq::<u8>::empty());
                            assert(Seq::<u8>::empty() + Seq::<u8>::empty()
                                =~= Seq::<u8>::empty());
                        },
                        Some(t) => {
                            assert(w.skip(full as int) =~= b.skip(full as int) + extra);
                            lemma_run_chunking(ParserState::PreTagSize(4), b.skip(full as int),
                                extra, f);
                            let unit = spec_tag_out(t, f);
                            let rec1 = spec_run(ParserState::PreTagSize(4), b.skip(full as int),
                                f);
                            let rec2 = spec_run(rec1.state, rec1.buf + extra, f);
                            assert(unit + (rec1.out + rec2.out) =~= (unit + rec1.out)
                                + rec2.out);
                        },
                    }
                }
            },
        }
    }
}

} // verus!
