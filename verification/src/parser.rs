//! The incremental stream parser: a pull-based state machine over an
//! internal byte buffer. Feeding appends bytes and never parses; each parse
//! call yields at most one structural unit — header, previous-tag-size
//! field or tag — or reports how many bytes are still missing, consuming
//! exactly the bytes of what it decoded.

use vstd::prelude::*;
use crate::FlvError;
use crate::bytes::{be_of, be_bytes_to_u32, lemma_be_of_bound};
use crate::header::{Header, spec_sig_ok, spec_header_of, HEADER_SIZE};
use crate::tag::{Tag, spec_tag_of, spec_tag_data_size, TAG_HEADER_SIZE, TAG_TYPE_AUDIO,
    TAG_TYPE_VIDEO, TAG_TYPE_SCRIPT};
use crate::meta::meta_of;
use vstd::slice::slice_subrange;

verus! {

/// What the parser is waiting for, with the byte count the pending unit is
/// known to need so far.
#[derive(Debug, Clone, Copy, PartialEq, Eq, Structural)]
pub enum ParserState {
    /// The nine header bytes.
    Header(usize),
    /// The four bytes of a previous-tag-size field.
    PreTagSize(usize),
    /// A tag: eleven bytes until its size field is seen, the whole tag
    /// after that.
    Tag(usize),
}

/// One outcome of a parse call.
#[derive(Debug, PartialEq)]
pub enum ParseResult {
    /// The buffered bytes fall short of the pending unit by this count.
    MoreDataRequired(usize),
    /// The stream header was decoded.
    Header(Header),
    /// A previous-tag-size field was read.
    PreTagSize(u32),
    /// A whole tag was decoded.
    Tag(Tag),
}

/// The byte count a state waits for.
pub open spec fn spec_need(st: ParserState) -> nat {
    match st {
        ParserState::Header(n) => n as nat,
        ParserState::PreTagSize(n) => n as nat,
        ParserState::Tag(n) => n as nat,
    }
}

/// The states the machine reaches over a given buffer: the fixed needs
/// are nine, four and eleven bytes, and a widened tag need records the
/// pending tag's size field, already buffered and positive.
pub open spec fn spec_state_wf(st: ParserState, b: Seq<u8>) -> bool {
    match st {
        ParserState::Header(n) => n == 9,
        ParserState::PreTagSize(n) => n == 4,
        ParserState::Tag(n) => n == 11 || (n > 11 && b.len() >= 11 && spec_tag_data_size(b) > 0
            && 11 + spec_tag_data_size(b) == n),
    }
}

/// The incremental parser: the state it waits in and the bytes fed but not
/// yet consumed.
pub struct Parser {
    state: ParserState,
    buffer: Vec<u8>,
}

impl Parser {
    /// The state the parser waits in.
    pub closed spec fn state_spec(&self) -> ParserState {
        self.state
    }

    /// The bytes fed but not yet consumed.
    pub closed spec fn buf_spec(&self) -> Seq<u8> {
        self.buffer@
    }

    /// The parser only reaches well-formed states over its buffer.
    pub open spec fn wf(&self) -> bool {
        spec_state_wf(self.state_spec(), self.buf_spec())
    }

    /// A fresh parser: waiting for the header, nothing buffered.
    pub fn new() -> (p: Parser)
        ensures
            p.wf(),
            p.state_spec() == ParserState::Header(9),
            p.buf_spec() == Seq::<u8>::empty(),
    {
        Parser { state: ParserState::Header(HEADER_SIZE as usize), buffer: Vec::new() }
    }

    /// Appends bytes to the buffer; nothing is parsed and the state does
    /// not move, so feeding two chunks in turn equals feeding their
    /// concatenation.
    pub fn feed(&mut self, data: &[u8])
        ensures
            final(self).state_spec() == old(self).state_spec(),
            final(self).buf_spec() == old(self).buf_spec() + data@,
    {
        self.buffer.extend_from_slice(data);
    }

    /// Drops the consumed prefix of the buffer.
    fn drain(&mut self, n: usize)
        requires
            n <= old(self).buffer@.len(),
        ensures
            final(self).buffer@ == old(self).buffer@.skip(n as int),
            final(self).state == old(self).state,
    {
        let rest = self.buffer.split_off(n);
        self.buffer = rest;
        proof {
            assert(self.buffer@ =~= old(self).buffer@.skip(n as int));
        }
    }

    /// Decodes the pending tag from the first `required` buffered bytes,
    /// draining them on success; a structural error leaves the parser
    /// untouched.
    fn parse_tag(&mut self, required: usize) -> (r: Result<ParseResult, FlvError>)
        requires
            11 <= required <= old(self).buffer@.len(),
            required == 11 + spec_tag_data_size(old(self).buffer@),
        ensures
            ({
                let b = old(self).buf_spec();
                let tb = b.subrange(0, required as int);
                &&& (r matches Ok(pr) ==> pr matches ParseResult::Tag(t) && spec_tag_of(tb)
                    == Some(t@) && t.wf() && final(self).buf_spec() == b.skip(required as int)
                    && final(self).state_spec() == ParserState::PreTagSize(4))
                &&& (spec_tag_of(tb) is Some ==> r is Ok)
                &&& (r matches Err(e) ==> final(self).buf_spec() == b && final(self).state_spec()
                    == old(self).state_spec() && match e {
                    FlvError::UnknownTagType => !(tb[0] == TAG_TYPE_AUDIO || tb[0]
                        == TAG_TYPE_VIDEO || tb[0] == TAG_TYPE_SCRIPT),
                    FlvError::MalformedMetadata => tb[0] == TAG_TYPE_SCRIPT && meta_of(
                        tb.subrange(11, required as int),
                    ) is None,
                    _ => false,
                })
            }),
    {
        let tb = slice_subrange(self.buffer.as_slice(), 0, required);
        proof {
            assert(tb@.subrange(1, 4) =~= old(self).buffer@.subrange(1, 4));
        }
        match Tag::from_bytes(tb) {
            Ok(t) => {
                self.drain(required);
                self.state = ParserState::PreTagSize(4);
                Ok(ParseResult::Tag(t))
            },
            Err(e) => Err(e),
        }
    }

    /// Attempts one step of the state machine on the buffered bytes:
    /// either reports the byte deficit of the pending unit, or decodes one
    /// unit, drains exactly its bytes and moves to the next state. Every
    /// outcome, the bytes consumed and the state reached are functions of
    /// the state and buffer alone, so any chunking of the input yields the
    /// same units. A structural violation leaves the parser unchanged and
    /// is fatal: retrying yields the same error.
    pub fn parse(&mut self) -> (r: Result<ParseResult, FlvError>)
        requires
            old(self).wf(),
        ensures
            final(self).wf(),
            ({
                let st = old(self).state_spec();
                let b = old(self).buf_spec();
                let n = spec_need(st);
                &&& (b.len() < n ==> r == Ok::<ParseResult, FlvError>(
                    ParseResult::MoreDataRequired((n - b.len()) as usize),
                ) && final(self).state_spec() == st && final(self).buf_spec() == b)
                &&& (b.len() >= n ==> match st {
                    ParserState::Header(_) => {
                        let hb = b.subrange(0, 9);
                        if !spec_sig_ok(hb) {
                            r == Err::<ParseResult, FlvError>(FlvError::MalformedSignature)
                                && final(self).state_spec() == st && final(self).buf_spec() == b
                        } else if be_of(hb.subrange(5, 9)) != HEADER_SIZE {
                            r == Err::<ParseResult, FlvError>(FlvError::UnexpectedHeaderSize)
                                && final(self).state_spec() == st && final(self).buf_spec() == b
                        } else {
                            r == Ok::<ParseResult, FlvError>(ParseResult::Header(
                                spec_header_of(hb),
                            )) && final(self).state_spec() == ParserState::PreTagSize(4)
                                && final(self).buf_spec() == b.skip(9)
                        }
                    },
                    ParserState::PreTagSize(_) => r == Ok::<ParseResult, FlvError>(
                        ParseResult::PreTagSize(be_of(b.subrange(0, 4)) as u32),
                    ) && final(self).state_spec() == ParserState::Tag(11) && final(self).buf_spec() == b.skip(4),
                    ParserState::Tag(_) => {
                        let ds = spec_tag_data_size(b);
                        let full = 11 + ds;
                        if ds == 0 {
                            r == Err::<ParseResult, FlvError>(FlvError::ZeroLengthTagData)
                                && final(self).state_spec() == st && final(self).buf_spec() == b
                        } else if full > b.len() {
                            r == Ok::<ParseResult, FlvError>(ParseResult::MoreDataRequired(
                                (full - b.len()) as usize,
                            )) && final(self).state_spec() == ParserState::Tag(full as usize)
                                && final(self).buf_spec() == b
                        } else {
                            let tb = b.subrange(0, full as int);
                            &&& (r matches Ok(pr) ==> pr matches ParseResult::Tag(t)
                                && spec_tag_of(tb) == Some(t@) && t.wf() && final(self).buf_spec() == b.skip(full as int) && final(self).state_spec()
                                == ParserState::PreTagSize(4))
                            &&& (spec_tag_of(tb) is Some ==> r is Ok)
                            &&& (r matches Err(e) ==> final(self).buf_spec() == b && final(self).state_spec() == st && match e {
                                FlvError::UnknownTagType => !(tb[0] == TAG_TYPE_AUDIO || tb[0]
                                    == TAG_TYPE_VIDEO || tb[0] == TAG_TYPE_SCRIPT),
                                FlvError::MalformedMetadata => tb[0] == TAG_TYPE_SCRIPT
                                    && meta_of(tb.subrange(11, full as int)) is None,
                                _ => false,
                            })
                        }
                    },
                })
            }),
    {
        match self.state {
            ParserState::Header(required) => {
                if required > self.buffer.len() {
                    return Ok(ParseResult::MoreDataRequired(required - self.buffer.len()));
                }
                let hb = slice_subrange(self.buffer.as_slice(), 0, required);
                match Header::from_bytes(hb) {
                    Ok(h) => {
                        self.drain(required);
                        self.state = ParserState::PreTagSize(4);
                        Ok(ParseResult::Header(h))
                    },
                    Err(e) => Err(e),
                }
            },
            ParserState::PreTagSize(required) => {
                if required > self.buffer.len() {
                    return Ok(ParseResult::MoreDataRequired(required - self.buffer.len()));
                }
                let v = be_bytes_to_u32(slice_subrange(self.buffer.as_slice(), 0, 4));
                self.drain(4);
                self.state = ParserState::Tag(TAG_HEADER_SIZE as usize);
                Ok(ParseResult::PreTagSize(v))
            },
            ParserState::Tag(required) => {
                if required > self.buffer.len() {
                    return Ok(ParseResult::MoreDataRequired(required - self.buffer.len()));
                }
                if required == TAG_HEADER_SIZE as usize {
                    let ds = be_bytes_to_u32(slice_subrange(self.buffer.as_slice(), 1, 4));
                    proof {
                        lemma_be_of_bound(self.buffer@.subrange(1, 4));
                    }
                    if ds == 0 {
                        return Err(FlvError::ZeroLengthTagData);
                    }
                    let tag_size = required + ds as usize;
                    if tag_size > self.buffer.len() {
                        self.state = ParserState::Tag(tag_size);
                        return Ok(ParseResult::MoreDataRequired(tag_size - self.buffer.len()));
                    }
                    self.parse_tag(tag_size)
                } else {
                    self.parse_tag(required)
                }
            },
        }
    }
}

/// The deficit the parser reports for one pending unit shrinks by exactly
/// the bytes fed toward it, strictly decreasing to zero; the unit's total
/// need never shrinks.
pub proof fn lemma_deficit_decreases(st: ParserState, b: Seq<u8>, extra: Seq<u8>)
    requires
        b.len() < spec_need(st),
        extra.len() > 0,
    ensures
        (b + extra).len() < spec_need(st) ==> spec_need(st) - (b + extra).len() < spec_need(st)
            - b.len(),
        (b + extra).len() < spec_need(st) ==> spec_need(st) - (b + extra).len() == spec_need(st)
            - b.len() - extra.len(),
        (b + extra).len() >= spec_need(st) ==> spec_need(st) - (b + extra).len() <= 0,
{
}

/// Feeding two chunks in turn leaves the buffer exactly as feeding their
/// concatenation: parsing depends only on the state and buffer, so the
/// units decoded are independent of chunk boundaries.
pub proof fn lemma_feed_chunking(b: Seq<u8>, c1: Seq<u8>, c2: Seq<u8>)
    ensures
        (b + c1) + c2 == b + (c1 + c2),
{
    assert((b + c1) + c2 =~= b + (c1 + c2));
}

} // verus!
