//! Metadata payloads: a sequence of typed values in the AMF0 serialization.
//! The serialization itself is the amf crate's work and stays behind trusted
//! items; the value model, the decode and encode loops and the key lookups
//! are verified.

use vstd::prelude::*;
use crate::FlvError;

verus! {

broadcast use vstd::std_specs::vec::axiom_vec_index_decreases;

/// One metadata value. A value whose shape the library does not model
/// (a boolean, a date, an object) is carried through as its undecoded
/// bytes, so that re-serialization reproduces it verbatim.
#[derive(Debug, PartialEq)]
pub enum MetaValue {
    /// A number, held as the IEEE-754 bit pattern of the 64-bit value.
    Number(u64),
    /// A text value.
    Text(String),
    /// An ordered associative array.
    Array(Vec<MetaEntry>),
    /// Any other value, as the bytes that encoded it.
    Opaque(Vec<u8>),
}

/// One key/value pair of an associative array.
#[derive(Debug, PartialEq)]
pub struct MetaEntry {
    /// The entry's key.
    pub key: String,
    /// The entry's value.
    pub value: MetaValue,
}

/// The UTF-8 byte length of a text value.
pub open spec fn utf8_len(s: Seq<char>) -> nat {
    vstd::utf8::encode_utf8(s).len()
}

/// A value that the AMF0 encoder serializes without failing: every key fits
/// a 16-bit length, every text and entry count fits a 32-bit length, and no
/// opaque bytes hide inside an array.
pub open spec fn meta_wf(v: MetaValue) -> bool
    decreases v,
{
    match v {
        MetaValue::Number(_) => true,
        MetaValue::Text(s) => utf8_len(s@) <= 0xFFFF_FFFF,
        MetaValue::Array(entries) => entries@.len() <= 0xFFFF_FFFF && forall|i: int|
            0 <= i < entries@.len() ==> utf8_len((#[trigger] entries@[i]).key@) <= 0xFFFF
                && meta_wf(entries@[i].value),
        MetaValue::Opaque(_) => false,
    }
}

/// A value as the decoder hands it out: either fully modelled and
/// well-formed, or one undecoded top-level value.
pub open spec fn meta_value_ok(v: MetaValue) -> bool {
    v matches MetaValue::Opaque(_) || meta_wf(v)
}

/// Every value of a decoded sequence is as the decoder hands it out.
pub open spec fn meta_values_ok(vs: Seq<MetaValue>) -> bool {
    forall|i: int| 0 <= i < vs.len() ==> meta_value_ok(#[trigger] vs[i])
}

/// What reading one AMF0 value from the front of a byte sequence yields:
/// a value and the count of bytes it occupied, a clean end of input, or a
/// malformed encoding.
#[derive(Debug, PartialEq)]
pub enum Amf0Step {
    /// One decoded value and the bytes it consumed.
    Value(MetaValue, usize),
    /// The input ended before a value began.
    End,
    /// The input is not a value encoding.
    Bad,
}

/// Names what the amf crate's AMF0 decoder yields on the front of the given
/// bytes; it depends on those bytes alone.
pub uninterp spec fn amf0_step(data: Seq<u8>) -> Amf0Step;

/// Names the bytes the amf crate's AMF0 encoder writes for a well-formed
/// value; they depend on the value alone.
pub uninterp spec fn amf0_bytes(v: MetaValue) -> Seq<u8>;

/// The bytes that re-serialize one decoded value: an opaque value keeps the
/// bytes it came from, the rest is the encoder's work.
pub open spec fn meta_bytes(v: MetaValue) -> Seq<u8> {
    match v {
        MetaValue::Opaque(b) => b@,
        _ => amf0_bytes(v),
    }
}

/// The bytes that re-serialize a value sequence, value by value in order.
pub open spec fn meta_seq_bytes(vs: Seq<MetaValue>) -> Seq<u8>
    decreases vs.len(),
{
    if vs.len() == 0 {
        Seq::empty()
    } else {
        meta_bytes(vs[0]) + meta_seq_bytes(vs.skip(1))
    }
}

/// The value sequence a byte sequence decodes to: values read from the
/// front until a clean end of input, or nothing if a value is malformed.
pub open spec fn meta_of(data: Seq<u8>) -> Option<Seq<MetaValue>>
    decreases data.len(),
{
    match amf0_step(data) {
        Amf0Step::End => Some(Seq::empty()),
        Amf0Step::Bad => None,
        Amf0Step::Value(v, n) => if 1 <= n <= data.len() {
            match meta_of(data.skip(n as int)) {
                Some(rest) => Some(seq![v] + rest),
                None => None,
            }
        } else {
            None
        },
    }
}

/// Declares the amf crate's AMF0 value type, so that the converters below
/// may name it in their signatures; the library sees nothing inside it.
#[verifier::external_type_specification]
#[verifier::external_body]
pub struct ExAmf0Value(amf::Amf0Value);

/// Rebuilds the amf crate's value from one of the library's. Relies on
/// amf::Amf0Value's variants carrying exactly the modelled fields; an
/// opaque value is rebuilt through amf::Amf0Value::read_from on the bytes
/// it came from. Serves the encoding wrapper below.
#[verifier::external_body]
fn to_amf(v: &MetaValue) -> amf::Amf0Value {
    let entry = |e: &MetaEntry| amf::Pair { key: e.key.clone(), value: to_amf(&e.value) };
    match v {
        MetaValue::Number(bits) => {
            let b = [vec![0x00u8], bits.to_be_bytes().to_vec()].concat();
            amf::Amf0Value::read_from(&mut &b[..]).unwrap_or(amf::Amf0Value::Null)
        },
        MetaValue::Text(s) => amf::Amf0Value::String(s.clone()),
        MetaValue::Array(es) => amf::Amf0Value::EcmaArray { entries: es.iter().map(entry).collect() },
        MetaValue::Opaque(b) => amf::Amf0Value::read_from(&mut &b[..]).unwrap_or(amf::Amf0Value::Null),
    }
}

/// Takes apart one of the amf crate's values, variant by variant; a shape
/// the library does not model yields nothing. Serves the decoding wrapper
/// below.
#[verifier::external_body]
fn from_amf(v: amf::Amf0Value) -> Option<MetaValue> {
    match v {
        amf::Amf0Value::Number(n) => Some(MetaValue::Number(n.to_bits())),
        amf::Amf0Value::String(s) => Some(MetaValue::Text(s)),
        amf::Amf0Value::EcmaArray { entries } => Some(MetaValue::Array(
            entries.into_iter().map(
                |p| match from_amf(p.value) {
                    Some(value) => Some(MetaEntry { key: p.key, value }),
                    None => None,
                },
            ).collect::<Option<Vec<MetaEntry>>>()?,
        )),
        _ => None,
    }
}

/// Relies on amf::amf0::Decoder::decode: reads one value from the front of
/// the input, consuming exactly the bytes of its encoding; an I/O error on
/// a byte slice means the input ended. A value whose shape the library does
/// not model, or that holds one, is returned as the bytes it occupied.
#[verifier::external_body]
fn amf0_read_one(data: &[u8], start: usize) -> (r: Amf0Step)
    requires
        start <= data@.len(),
    ensures
        r == amf0_step(data@.skip(start as int)),
        r matches Amf0Step::Value(v, n) ==> 1 <= n && start + n <= data@.len() && (
        n <= 0xFFFF_FFFF ==> meta_value_ok(v)),
{
    let mut cur: &[u8] = &data[start..];
    let mut decoder = amf::amf0::Decoder::new(&mut cur);
    match decoder.decode() {
        Ok(av) => {
            let used = data.len() - start - decoder.inner().len();
            let raw = || MetaValue::Opaque(data[start..start + used].to_vec());
            Amf0Step::Value(from_amf(av).unwrap_or_else(raw), used)
        },
        Err(amf::error::DecodeError::Io(_)) => Amf0Step::End,
        Err(_) => Amf0Step::Bad,
    }
}

/// Relies on amf::Amf0Value::write_to: appends the value's AMF0 encoding to
/// the output; writing to a byte vector cannot fail, and a well-formed
/// value stays within every length the encoder checks.
#[verifier::external_body]
fn amf0_append(v: &MetaValue, out: &mut Vec<u8>)
    requires
        meta_wf(*v),
    ensures
        final(out)@ == old(out)@ + amf0_bytes(*v),
{
    let value = to_amf(v);
    let _ = value.write_to(&mut *out);
}

/// Decodes a metadata payload into its value sequence, reading values from
/// the front until the input ends cleanly; a malformed value rejects the
/// whole payload.
pub fn decode_meta(data: &[u8]) -> (r: Result<Vec<MetaValue>, FlvError>)
    requires
        data@.len() <= 0xFFFF_FFFF,
    ensures
        match r {
            Ok(vs) => meta_of(data@) == Some(vs@) && meta_values_ok(vs@),
            Err(e) => e == FlvError::MalformedMetadata && meta_of(data@) is None,
        },
{
    let mut out: Vec<MetaValue> = Vec::new();
    let mut off: usize = 0;
    proof {
        assert(data@.skip(0) =~= data@);
    }
    loop
        invariant
            off <= data@.len() <= 0xFFFF_FFFF,
            meta_values_ok(out@),
            meta_of(data@) == match meta_of(data@.skip(off as int)) {
                Some(rest) => Some(out@ + rest),
                None => None::<Seq<MetaValue>>,
            },
        decreases data@.len() - off,
    {
        let ghost suffix = data@.skip(off as int);
        match amf0_read_one(data, off) {
            Amf0Step::End => {
                proof {
                    assert(out@ + Seq::<MetaValue>::empty() =~= out@);
                }
                return Ok(out);
            },
            Amf0Step::Bad => {
                return Err(FlvError::MalformedMetadata);
            },
            Amf0Step::Value(v, n) => {
                proof {
                    assert(suffix.skip(n as int) =~= data@.skip(off + n));
                    if meta_of(data@.skip(off + n)) is Some {
                        let rest = meta_of(data@.skip(off + n)).unwrap();
                        assert(out@ + (seq![v] + rest) =~= out@.push(v) + rest);
                    }
                }
                out.push(v);
                off = off + n;
            },
        }
    }
}

/// The first numeric value under the given key among an array's entries at
/// or after position `j`: an entry whose key differs, or whose value is not
/// a number, is passed over.
pub open spec fn lookup_entries_from(es: Seq<MetaEntry>, key: Seq<char>, j: int) -> Option<u64>
    decreases es.len() - j,
    when 0 <= j <= es.len()
{
    if j >= es.len() {
        None
    } else {
        match es[j].value {
            MetaValue::Number(b) => if es[j].key@ == key {
                Some(b)
            } else {
                lookup_entries_from(es, key, j + 1)
            },
            _ => lookup_entries_from(es, key, j + 1),
        }
    }
}

/// The first numeric value under the given key, scanning the associative
/// arrays of a value sequence at or after position `i`, in sequence order
/// and then entry order.
pub open spec fn lookup_from(vs: Seq<MetaValue>, key: Seq<char>, i: int) -> Option<u64>
    decreases vs.len() - i,
    when 0 <= i <= vs.len()
{
    if i >= vs.len() {
        None
    } else {
        let here = match vs[i] {
            MetaValue::Array(es) => lookup_entries_from(es@, key, 0),
            _ => None,
        };
        if here is Some {
            here
        } else {
            lookup_from(vs, key, i + 1)
        }
    }
}

/// The first numeric value under the given key in a metadata value
/// sequence; the first match wins.
pub open spec fn spec_lookup(vs: Seq<MetaValue>, key: Seq<char>) -> Option<u64> {
    lookup_from(vs, key, 0)
}

/// Scans every associative array of the sequence, in order, for the first
/// numeric value under the given key; the bit pattern of that number, or
/// nothing when no entry carries one.
pub fn read_number(values: &Vec<MetaValue>, key: &str) -> (r: Option<u64>)
    ensures
        r == spec_lookup(values@, key@),
{
    let k = String::from_str(key);
    let mut i: usize = 0;
    while i < values.len()
        invariant
            i <= values@.len(),
            k@ == key@,
            spec_lookup(values@, key@) == lookup_from(values@, key@, i as int),
        decreases values@.len() - i,
    {
        match &values[i] {
            MetaValue::Array(entries) => {
                let mut j: usize = 0;
                while j < entries.len()
                    invariant
                        j <= entries@.len(),
                        i < values@.len(),
                        k@ == key@,
                        values@[i as int] matches MetaValue::Array(es) && es@ == entries@,
                        spec_lookup(values@, key@) == lookup_from(values@, key@, i as int),
                        lookup_entries_from(entries@, key@, 0) == lookup_entries_from(
                            entries@,
                            key@,
                            j as int,
                        ),
                    decreases entries@.len() - j,
                {
                    if entries[j].key == k {
                        match &entries[j].value {
                            MetaValue::Number(b) => {
                                return Some(*b);
                            },
                            _ => {},
                        }
                    }
                    j = j + 1;
                }
            },
            _ => {},
        }
        i = i + 1;
    }
    None
}

/// The duration field's bit pattern, if the metadata carries one.
pub fn duration(values: &Vec<MetaValue>) -> (r: Option<u64>)
    ensures
        r == spec_lookup(values@, "duration"@),
{
    read_number(values, "duration")
}

/// The width field's bit pattern, if the metadata carries one.
pub fn width(values: &Vec<MetaValue>) -> (r: Option<u64>)
    ensures
        r == spec_lookup(values@, "width"@),
{
    read_number(values, "width")
}

/// The height field's bit pattern, if the metadata carries one.
pub fn height(values: &Vec<MetaValue>) -> (r: Option<u64>)
    ensures
        r == spec_lookup(values@, "height"@),
{
    read_number(values, "height")
}

/// The frame rate field's bit pattern, if the metadata carries one.
pub fn framerate(values: &Vec<MetaValue>) -> (r: Option<u64>)
    ensures
        r == spec_lookup(values@, "framerate"@),
{
    read_number(values, "framerate")
}

/// The video codec id field's bit pattern, if the metadata carries one.
pub fn video_codec_id(values: &Vec<MetaValue>) -> (r: Option<u64>)
    ensures
        r == spec_lookup(values@, "videocodecid"@),
{
    read_number(values, "videocodecid")
}

/// The audio codec id field's bit pattern, if the metadata carries one.
pub fn audio_codec_id(values: &Vec<MetaValue>) -> (r: Option<u64>)
    ensures
        r == spec_lookup(values@, "audiocodecid"@),
{
    read_number(values, "audiocodecid")
}

/// The index of the first associative array at or after position `i`.
pub open spec fn first_array_from(vs: Seq<MetaValue>, i: int) -> Option<int>
    decreases vs.len() - i,
    when 0 <= i <= vs.len()
{
    if i >= vs.len() {
        None
    } else if vs[i] is Array {
        Some(i)
    } else {
        first_array_from(vs, i + 1)
    }
}

/// The index of the first entry under the given key at or after position
/// `j`.
pub open spec fn first_key_from(es: Seq<MetaEntry>, key: Seq<char>, j: int) -> Option<int>
    decreases es.len() - j,
    when 0 <= j <= es.len()
{
    if j >= es.len() {
        None
    } else if es[j].key@ == key {
        Some(j)
    } else {
        first_key_from(es, key, j + 1)
    }
}

/// An array value's entries; empty on any other value.
pub open spec fn arr_entries(v: MetaValue) -> Seq<MetaEntry> {
    match v {
        MetaValue::Array(es) => es@,
        _ => Seq::empty(),
    }
}

/// The index of the first associative array, if the sequence has one.
fn find_first_array(values: &Vec<MetaValue>) -> (r: Option<usize>)
    ensures
        match r {
            Some(i) => first_array_from(values@, 0) == Some(i as int) && i < values@.len()
                && values@[i as int] is Array,
            None => first_array_from(values@, 0) is None,
        },
{
    let mut i: usize = 0;
    while i < values.len()
        invariant
            i <= values@.len(),
            first_array_from(values@, 0) == first_array_from(values@, i as int),
        decreases values@.len() - i,
    {
        match &values[i] {
            MetaValue::Array(_) => {
                return Some(i);
            },
            _ => {},
        }
        i = i + 1;
    }
    None
}

/// The index of the first entry under the given key, if one exists.
fn find_key(entries: &Vec<MetaEntry>, key: &String) -> (r: Option<usize>)
    ensures
        match r {
            Some(j) => first_key_from(entries@, key@, 0) == Some(j as int) && j < entries@.len()
                && entries@[j as int].key@ == key@,
            None => first_key_from(entries@, key@, 0) is None,
        },
{
    let mut j: usize = 0;
    while j < entries.len()
        invariant
            j <= entries@.len(),
            first_key_from(entries@, key@, 0) == first_key_from(entries@, key@, j as int),
        decreases entries@.len() - j,
    {
        if entries[j].key == *key {
            return Some(j);
        }
        j = j + 1;
    }
    None
}

/// Sets or inserts the duration entry in the first associative array: the
/// first entry keyed `duration` there is given the number, a missing entry
/// is appended, and when no array exists at all a one-entry array is
/// appended to the sequence. The number is given as its IEEE-754 bit
/// pattern.
pub fn set_duration(values: &mut Vec<MetaValue>, bits: u64)
    requires
        old(values)@.len() < 0xFFFF_FFFF,
    ensures
        ({
            let vs = old(values)@;
            let dur = "duration"@;
            match first_array_from(vs, 0) {
                None => {
                    &&& final(values)@.len() == vs.len() + 1
                    &&& (forall|m: int| 0 <= m < vs.len() ==> final(values)@[m] == vs[m])
                    &&& final(values)@[vs.len() as int] is Array
                    &&& arr_entries(final(values)@[vs.len() as int]).len() == 1
                    &&& arr_entries(final(values)@[vs.len() as int])[0].key@ == dur
                    &&& arr_entries(final(values)@[vs.len() as int])[0].value
                        == MetaValue::Number(bits)
                },
                Some(i) => {
                    let es = arr_entries(vs[i]);
                    let es2 = arr_entries(final(values)@[i]);
                    &&& final(values)@.len() == vs.len()
                    &&& (forall|m: int| 0 <= m < vs.len() && m != i ==> final(values)@[m]
                        == vs[m])
                    &&& final(values)@[i] is Array
                    &&& match first_key_from(es, dur, 0) {
                        Some(j) => es2.len() == es.len() && (forall|m: int|
                            0 <= m < es.len() && m != j ==> es2[m] == es[m]) && es2[j].key
                            == es[j].key && es2[j].value == MetaValue::Number(bits),
                        None => es2.len() == es.len() + 1 && (forall|m: int|
                            0 <= m < es.len() ==> es2[m] == es[m]) && es2[es.len() as int].key@
                            == dur && es2[es.len() as int].value == MetaValue::Number(bits),
                    }
                },
            }
        }),
        meta_values_ok(old(values)@) && (match first_array_from(old(values)@, 0) {
            Some(i) => arr_entries(old(values)@[i]).len() < 0xFFFF_FFFF,
            None => true,
        }) ==> meta_values_ok(final(values)@),
{
    let dkey = String::from_str("duration");
    proof {
        reveal_strlit("duration");
        assert(vstd::utf8::is_ascii_chars("duration"@));
        vstd::utf8::is_ascii_chars_encode_utf8("duration"@);
        assert(utf8_len("duration"@) == 8);
    }
    match find_first_array(values) {
        None => {
            let mut es: Vec<MetaEntry> = Vec::new();
            es.push(MetaEntry { key: dkey, value: MetaValue::Number(bits) });
            values.push(MetaValue::Array(es));
        },
        Some(i) => {
            let v = vstd::std_specs::vec::vec_index_mut(values, i);
            match v {
                MetaValue::Array(entries) => {
                    match find_key(entries, &dkey) {
                        Some(j) => {
                            let e = vstd::std_specs::vec::vec_index_mut(entries, j);
                            e.value = MetaValue::Number(bits);
                        },
                        None => {
                            entries.push(MetaEntry { key: dkey, value: MetaValue::Number(bits) });
                        },
                    }
                },
                _ => {
                    proof {
                        assert(false);
                    }
                },
            }
        },
    }
    proof {
        let vs = old(values)@;
        let dur = "duration"@;
        if meta_values_ok(vs) && (match first_array_from(vs, 0) {
            Some(i) => arr_entries(vs[i]).len() < 0xFFFF_FFFF,
            None => true,
        }) {
            match first_array_from(vs, 0) {
                None => {
                    assert(meta_wf(MetaValue::Number(bits)));
                    assert(meta_wf(values@[vs.len() as int]));
                    assert forall|m: int| 0 <= m < values@.len() implies meta_value_ok(
                        #[trigger] values@[m],
                    ) by {
                        if m < vs.len() {
                            assert(values@[m] == vs[m]);
                        }
                    }
                },
                Some(i) => {
                    assert(meta_wf(vs[i]));
                    let es = arr_entries(vs[i]);
                    let es2 = arr_entries(values@[i]);
                    assert(meta_wf(MetaValue::Number(bits)));
                    assert forall|m: int| 0 <= m < es2.len() implies utf8_len(
                        (#[trigger] es2[m]).key@,
                    ) <= 0xFFFF && meta_wf(es2[m].value) by {
                        match first_key_from(es, dur, 0) {
                            Some(j) => {
                                if m != j {
                                    assert(es2[m] == es[m]);
                                    assert(utf8_len(es[m].key@) <= 0xFFFF && meta_wf(es[m].value));
                                } else {
                                    assert(es2[m].key == es[m].key);
                                    assert(utf8_len(es[m].key@) <= 0xFFFF);
                                }
                            },
                            None => {
                                if m < es.len() {
                                    assert(es2[m] == es[m]);
                                    assert(utf8_len(es[m].key@) <= 0xFFFF && meta_wf(es[m].value));
                                } else {
                                    assert(es2[m].key@ == dur);
                                }
                            },
                        }
                    }
                    assert(meta_wf(values@[i]));
                    assert forall|m: int| 0 <= m < values@.len() implies meta_value_ok(
                        #[trigger] values@[m],
                    ) by {
                        if m != i {
                            assert(values@[m] == vs[m]);
                        }
                    }
                },
            }
        }
    }
}

/// Appending a value's bytes extends a sequence serialization by one value.
proof fn lemma_meta_seq_bytes_push(vs: Seq<MetaValue>, v: MetaValue)
    ensures
        meta_seq_bytes(vs.push(v)) == meta_seq_bytes(vs) + meta_bytes(v),
    decreases vs.len(),
{
    if vs.len() == 0 {
        assert(vs.push(v).skip(1) =~= Seq::<MetaValue>::empty());
        assert(meta_seq_bytes(Seq::<MetaValue>::empty()) == Seq::<u8>::empty());
        assert(vs.push(v)[0] == v);
        assert(meta_seq_bytes(vs.push(v)) == meta_bytes(v) + Seq::<u8>::empty());
        assert(meta_bytes(v) + Seq::<u8>::empty() =~= meta_bytes(v));
        assert(meta_seq_bytes(vs) == Seq::<u8>::empty());
        assert(Seq::<u8>::empty() + meta_bytes(v) =~= meta_bytes(v));
    } else {
        lemma_meta_seq_bytes_push(vs.skip(1), v);
        assert(vs.push(v).skip(1) =~= vs.skip(1).push(v));
        assert(meta_bytes(vs[0]) + (meta_seq_bytes(vs.skip(1)) + meta_bytes(v)) =~= (meta_bytes(
            vs[0],
        ) + meta_seq_bytes(vs.skip(1))) + meta_bytes(v));
    }
}

/// Re-serializes a value sequence, value by value in original order,
/// appending the bytes to the output.
pub fn encode_meta_values(values: &Vec<MetaValue>, out: &mut Vec<u8>)
    requires
        meta_values_ok(values@),
    ensures
        final(out)@ == old(out)@ + meta_seq_bytes(values@),
{
    let ghost out0 = out@;
    let mut i: usize = 0;
    proof {
        assert(values@.subrange(0, 0) =~= Seq::<MetaValue>::empty());
        assert(out@ =~= out0 + meta_seq_bytes(values@.subrange(0, 0)));
    }
    while i < values.len()
        invariant
            i <= values@.len(),
            meta_values_ok(values@),
            out@ == out0 + meta_seq_bytes(values@.subrange(0, i as int)),
        decreases values@.len() - i,
    {
        let ghost prefix = values@.subrange(0, i as int);
        match &values[i] {
            MetaValue::Opaque(b) => {
                out.extend_from_slice(b.as_slice());
            },
            other => {
                amf0_append(other, out);
            },
        }
        proof {
            assert(values@.subrange(0, i + 1) =~= prefix.push(values@[i as int]));
            lemma_meta_seq_bytes_push(prefix, values@[i as int]);
            assert(out@ =~= out0 + meta_seq_bytes(values@.subrange(0, i + 1)));
        }
        i = i + 1;
    }
    proof {
        assert(values@.subrange(0, values@.len() as int) =~= values@);
    }
}

} // verus!
