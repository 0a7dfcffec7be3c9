use flv_parser::FlvError;
use flv_parser::bytes::be_bytes_to_u32;
use flv_parser::header::Header;
use flv_parser::meta::{MetaValue, MetaEntry, decode_meta, read_number, duration, width, height,
    set_duration};
use flv_parser::tag::{Tag, TagData};
use flv_parser::parser::{Parser, ParseResult};
use flv_parser::segment::{Segment, Container};
use flv_parser::remux::{Remuxer, MediaFilter};

fn header_bytes(flags: u8) -> Vec<u8> {
    vec![0x46, 0x4c, 0x56, 0x01, flags, 0x00, 0x00, 0x00, 0x09]
}

fn tag_bytes(tp: u8, payload: &[u8], timestamp: u32, ts_ex: u8) -> Vec<u8> {
    let mut out = vec![tp];
    let ds = payload.len() as u32;
    out.extend_from_slice(&[(ds >> 16) as u8, (ds >> 8) as u8, ds as u8]);
    out.extend_from_slice(&[(timestamp >> 16) as u8, (timestamp >> 8) as u8, timestamp as u8]);
    out.push(ts_ex);
    out.extend_from_slice(&[0x00, 0x00, 0x00]);
    out.extend_from_slice(payload);
    out
}

fn amf_number_bytes(n: f64) -> Vec<u8> {
    let mut out = Vec::new();
    amf::Amf0Value::Number(n).write_to(&mut out).unwrap();
    out
}

fn amf_meta_payload() -> Vec<u8> {
    let mut out = Vec::new();
    amf::Amf0Value::String("onMetaData".to_string()).write_to(&mut out).unwrap();
    amf::Amf0Value::EcmaArray {
        entries: vec![
            amf::Pair { key: "duration".to_string(), value: amf::Amf0Value::Number(12.5) },
            amf::Pair { key: "width".to_string(), value: amf::Amf0Value::Number(640.0) },
        ],
    }.write_to(&mut out).unwrap();
    out
}

#[test]
fn be_bytes_value() {
    assert_eq!(be_bytes_to_u32(&[]), 0);
    assert_eq!(be_bytes_to_u32(&[0x12]), 0x12);
    assert_eq!(be_bytes_to_u32(&[0x00, 0x01, 0x00]), 256);
    assert_eq!(be_bytes_to_u32(&[0xde, 0xad, 0xbe, 0xef]), 0xdeadbeef);
}

#[test]
fn header_decodes_fields() {
    let h = Header::from_bytes(&header_bytes(0x05)).unwrap();
    assert_eq!(h.version(), 1);
    assert_eq!(h.size(), 9);
    assert!(h.has_video());
    assert!(h.has_audio());
    assert_eq!(h.signature(), "FLV");
}

#[test]
fn header_round_trips() {
    let bytes = header_bytes(0xa5);
    let h = Header::from_bytes(&bytes).unwrap();
    assert_eq!(h.into_bytes(), bytes);
    let again = Header::from_bytes(&h.into_bytes()).unwrap();
    assert_eq!(again, h);
}

#[test]
fn header_rejects_bad_signature() {
    let mut bytes = header_bytes(0x05);
    bytes[0] = 0x47;
    assert_eq!(Header::from_bytes(&bytes), Err(FlvError::MalformedSignature));
}

#[test]
fn header_rejects_bad_size() {
    let mut bytes = header_bytes(0x05);
    bytes[8] = 0x0a;
    assert_eq!(Header::from_bytes(&bytes), Err(FlvError::UnexpectedHeaderSize));
}

#[test]
fn header_flag_setters_touch_only_their_bit() {
    let mut h = Header::from_bytes(&header_bytes(0xff)).unwrap();
    h.set_has_video(false);
    assert_eq!(h.into_bytes()[4], 0xfe);
    h.set_has_audio(false);
    assert_eq!(h.into_bytes()[4], 0xfa);
    h.set_has_video(true);
    h.set_has_audio(true);
    assert_eq!(h.into_bytes()[4], 0xfa);
}

#[test]
fn audio_tag_round_trips() {
    let bytes = tag_bytes(0x08, &[0xaa, 0xbb, 0xcc], 0x000010, 0x00);
    let t = Tag::from_bytes(&bytes).unwrap();
    assert!(t.is_audio_tag());
    assert!(!t.is_video_tag());
    assert!(!t.is_script_tag());
    assert_eq!(t.tag_size(), 14);
    assert_eq!(t.timestamp(), 0x10);
    assert_eq!(t.into_bytes(), bytes);
}

#[test]
fn video_tag_round_trips() {
    let bytes = tag_bytes(0x09, &[0x17, 0x00], 0xffffff, 0x01);
    let t = Tag::from_bytes(&bytes).unwrap();
    assert!(t.is_video_tag());
    assert_eq!(t.timestamp(), (0x01 << 24) | 0xffffff);
    assert_eq!(t.into_bytes(), bytes);
}

#[test]
fn timestamp_splits_and_reassembles() {
    let bytes = tag_bytes(0x08, &[0x00], 0, 0);
    let mut t = Tag::from_bytes(&bytes).unwrap();
    t.set_timestamp(0xdeadbeef);
    assert_eq!(t.timestamp(), 0xdeadbeef);
    let out = t.into_bytes();
    assert_eq!(&out[4..8], &[0xad, 0xbe, 0xef, 0xde]);
}

#[test]
fn tag_rejects_unknown_type() {
    let bytes = tag_bytes(0x01, &[0xaa], 0, 0);
    assert_eq!(Tag::from_bytes(&bytes), Err(FlvError::UnknownTagType));
}

#[test]
fn script_tag_round_trips_values() {
    let payload = amf_meta_payload();
    let bytes = tag_bytes(0x12, &payload, 0, 0);
    let t = Tag::from_bytes(&bytes).unwrap();
    assert!(t.is_script_tag());
    match t.data() {
        TagData::Script(values) => {
            assert_eq!(values.len(), 2);
            assert_eq!(values[0], MetaValue::Text("onMetaData".to_string()));
            match &values[1] {
                MetaValue::Array(entries) => {
                    assert_eq!(entries.len(), 2);
                    assert_eq!(entries[0].key, "duration");
                    assert_eq!(entries[0].value, MetaValue::Number(12.5f64.to_bits()));
                },
                other => panic!("unexpected value: {:?}", other),
            }
        },
        other => panic!("unexpected payload: {:?}", other),
    }
    assert_eq!(t.into_bytes(), bytes);
}

#[test]
fn unmodelled_metadata_value_passes_through() {
    let mut payload = vec![0x01, 0x01];
    payload.extend_from_slice(&amf_number_bytes(2.0));
    let values = decode_meta(&payload).unwrap();
    assert_eq!(values.len(), 2);
    assert_eq!(values[0], MetaValue::Opaque(vec![0x01, 0x01]));
    assert_eq!(values[1], MetaValue::Number(2.0f64.to_bits()));
    let bytes = tag_bytes(0x12, &payload, 0, 0);
    let t = Tag::from_bytes(&bytes).unwrap();
    assert_eq!(t.into_bytes(), bytes);
}

#[test]
fn malformed_metadata_is_rejected() {
    let payload = vec![0xf3];
    assert_eq!(decode_meta(&payload), Err(FlvError::MalformedMetadata));
    let bytes = tag_bytes(0x12, &payload, 0, 0);
    assert_eq!(Tag::from_bytes(&bytes), Err(FlvError::MalformedMetadata));
}

#[test]
fn accessor_finds_first_numeric_match() {
    let values = vec![
        MetaValue::Text("onMetaData".to_string()),
        MetaValue::Array(vec![
            MetaEntry { key: "duration".to_string(), value: MetaValue::Number(12.5f64.to_bits()) },
            MetaEntry { key: "width".to_string(), value: MetaValue::Number(640.0f64.to_bits()) },
        ]),
    ];
    assert_eq!(duration(&values), Some(12.5f64.to_bits()));
    assert_eq!(width(&values), Some(640.0f64.to_bits()));
    assert_eq!(height(&values), None);
    assert_eq!(read_number(&values, "duration"), Some(12.5f64.to_bits()));
}

#[test]
fn accessor_skips_non_numeric_entries() {
    let values = vec![MetaValue::Array(vec![
        MetaEntry { key: "duration".to_string(), value: MetaValue::Text("n/a".to_string()) },
        MetaEntry { key: "duration".to_string(), value: MetaValue::Number(3.0f64.to_bits()) },
    ])];
    assert_eq!(duration(&values), Some(3.0f64.to_bits()));
}

#[test]
fn set_duration_replaces_existing_entry() {
    let mut values = vec![MetaValue::Array(vec![
        MetaEntry { key: "duration".to_string(), value: MetaValue::Number(1.0f64.to_bits()) },
        MetaEntry { key: "width".to_string(), value: MetaValue::Number(640.0f64.to_bits()) },
    ])];
    set_duration(&mut values, 9.5f64.to_bits());
    assert_eq!(duration(&values), Some(9.5f64.to_bits()));
    assert_eq!(width(&values), Some(640.0f64.to_bits()));
}

#[test]
fn set_duration_appends_missing_entry() {
    let mut values = vec![MetaValue::Array(vec![
        MetaEntry { key: "width".to_string(), value: MetaValue::Number(640.0f64.to_bits()) },
    ])];
    set_duration(&mut values, 2.0f64.to_bits());
    assert_eq!(duration(&values), Some(2.0f64.to_bits()));
    match &values[0] {
        MetaValue::Array(entries) => assert_eq!(entries.len(), 2),
        other => panic!("unexpected value: {:?}", other),
    }
}

#[test]
fn set_duration_creates_array_when_none_exists() {
    let mut values = vec![MetaValue::Text("onMetaData".to_string())];
    set_duration(&mut values, 4.25f64.to_bits());
    assert_eq!(values.len(), 2);
    assert_eq!(duration(&values), Some(4.25f64.to_bits()));
}

fn sample_stream() -> Vec<u8> {
    let meta = tag_bytes(0x12, &amf_meta_payload(), 0, 0);
    let audio1 = tag_bytes(0x08, &[0xa1, 0xa2], 10, 0);
    let video1 = tag_bytes(0x09, &[0x17, 0x01, 0x02, 0x03], 20, 0);
    let audio2 = tag_bytes(0x08, &[0xa3], 30, 0);
    let video2 = tag_bytes(0x09, &[0x27], 40, 0);
    let mut stream = header_bytes(0x05);
    stream.extend_from_slice(&0u32.to_be_bytes());
    stream.extend_from_slice(&meta);
    stream.extend_from_slice(&(meta.len() as u32).to_be_bytes());
    stream.extend_from_slice(&audio1);
    stream.extend_from_slice(&(audio1.len() as u32).to_be_bytes());
    stream.extend_from_slice(&video1);
    stream.extend_from_slice(&(video1.len() as u32).to_be_bytes());
    stream.extend_from_slice(&audio2);
    stream.extend_from_slice(&(audio2.len() as u32).to_be_bytes());
    stream.extend_from_slice(&video2);
    stream.extend_from_slice(&(video2.len() as u32).to_be_bytes());
    stream
}

fn run_parser_to_end(parser: &mut Parser) -> Vec<ParseResult> {
    let mut units = Vec::new();
    loop {
        match parser.parse().unwrap() {
            ParseResult::MoreDataRequired(_) => break,
            unit => units.push(unit),
        }
    }
    units
}

#[test]
fn parser_yields_units_in_order() {
    let stream = sample_stream();
    let mut parser = Parser::new();
    parser.feed(&stream);
    let units = run_parser_to_end(&mut parser);
    assert_eq!(units.len(), 12);
    assert!(matches!(units[11], ParseResult::PreTagSize(12)));
    assert!(matches!(units[0], ParseResult::Header(_)));
    assert!(matches!(units[1], ParseResult::PreTagSize(0)));
    match &units[2] {
        ParseResult::Tag(t) => assert!(t.is_script_tag()),
        other => panic!("unexpected unit: {:?}", other),
    }
    match &units[4] {
        ParseResult::Tag(t) => assert!(t.is_audio_tag()),
        other => panic!("unexpected unit: {:?}", other),
    }
    match &units[6] {
        ParseResult::Tag(t) => {
            assert!(t.is_video_tag());
            assert_eq!(t.timestamp(), 20);
        },
        other => panic!("unexpected unit: {:?}", other),
    }
}

#[test]
fn parser_is_chunk_boundary_independent() {
    let stream = sample_stream();
    let mut whole = Parser::new();
    whole.feed(&stream);
    let expected = run_parser_to_end(&mut whole);

    let mut units = Vec::new();
    let mut bytewise = Parser::new();
    for b in stream.iter() {
        bytewise.feed(&[*b]);
        loop {
            match bytewise.parse().unwrap() {
                ParseResult::MoreDataRequired(_) => break,
                unit => units.push(unit),
            }
        }
    }
    assert_eq!(units, expected);
}

#[test]
fn deficits_shrink_by_exactly_the_bytes_fed() {
    let stream = sample_stream();
    let mut parser = Parser::new();
    match parser.parse().unwrap() {
        ParseResult::MoreDataRequired(n) => assert_eq!(n, 9),
        other => panic!("unexpected unit: {:?}", other),
    }
    parser.feed(&stream[..4]);
    match parser.parse().unwrap() {
        ParseResult::MoreDataRequired(n) => assert_eq!(n, 5),
        other => panic!("unexpected unit: {:?}", other),
    }
    parser.feed(&stream[4..8]);
    match parser.parse().unwrap() {
        ParseResult::MoreDataRequired(n) => assert_eq!(n, 1),
        other => panic!("unexpected unit: {:?}", other),
    }
    parser.feed(&stream[8..9]);
    assert!(matches!(parser.parse().unwrap(), ParseResult::Header(_)));
}

#[test]
fn zero_length_tag_data_fails_whole_feed() {
    let mut stream = header_bytes(0x05);
    stream.extend_from_slice(&0u32.to_be_bytes());
    stream.extend_from_slice(&tag_bytes(0x08, &[], 0, 0));
    let mut parser = Parser::new();
    parser.feed(&stream);
    assert!(matches!(parser.parse().unwrap(), ParseResult::Header(_)));
    assert!(matches!(parser.parse().unwrap(), ParseResult::PreTagSize(0)));
    assert_eq!(parser.parse(), Err(FlvError::ZeroLengthTagData));
}

#[test]
fn zero_length_tag_data_fails_bytewise_feed() {
    let mut stream = header_bytes(0x05);
    stream.extend_from_slice(&0u32.to_be_bytes());
    stream.extend_from_slice(&tag_bytes(0x08, &[], 0, 0));
    let mut parser = Parser::new();
    let mut result = Ok(());
    for b in stream.iter() {
        parser.feed(&[*b]);
        loop {
            match parser.parse() {
                Ok(ParseResult::MoreDataRequired(_)) => break,
                Ok(_) => {},
                Err(e) => {
                    result = Err(e);
                    break;
                },
            }
        }
        if result.is_err() {
            break;
        }
    }
    assert_eq!(result, Err(FlvError::ZeroLengthTagData));
}

#[test]
fn unknown_tag_type_aborts_parsing() {
    let mut stream = header_bytes(0x05);
    stream.extend_from_slice(&0u32.to_be_bytes());
    stream.extend_from_slice(&tag_bytes(0x01, &[0xaa], 0, 0));
    let mut parser = Parser::new();
    parser.feed(&stream);
    assert!(matches!(parser.parse().unwrap(), ParseResult::Header(_)));
    assert!(matches!(parser.parse().unwrap(), ParseResult::PreTagSize(0)));
    assert_eq!(parser.parse(), Err(FlvError::UnknownTagType));
}

#[test]
fn parser_rejects_bad_header() {
    let mut parser = Parser::new();
    parser.feed(&[0x46, 0x4c, 0x57, 0x01, 0x05, 0x00, 0x00, 0x00, 0x09]);
    assert_eq!(parser.parse(), Err(FlvError::MalformedSignature));
}

fn expected_remux(header_flags: u8, kept: &[Vec<u8>]) -> Vec<u8> {
    let mut out = header_bytes(header_flags);
    out.extend_from_slice(&0u32.to_be_bytes());
    for tag in kept {
        out.extend_from_slice(tag);
        out.extend_from_slice(&(tag.len() as u32).to_be_bytes());
    }
    out
}

#[test]
fn remux_all_keeps_every_tag_and_relinks() {
    let stream = sample_stream();
    let mut remuxer = Remuxer::new(MediaFilter::All);
    let mut out = Vec::new();
    remuxer.push(&stream, &mut out).unwrap();
    let expected = expected_remux(0x05, &[
        tag_bytes(0x12, &amf_meta_payload(), 0, 0),
        tag_bytes(0x08, &[0xa1, 0xa2], 10, 0),
        tag_bytes(0x09, &[0x17, 0x01, 0x02, 0x03], 20, 0),
        tag_bytes(0x08, &[0xa3], 30, 0),
        tag_bytes(0x09, &[0x27], 40, 0),
    ]);
    assert_eq!(out, expected);
}

#[test]
fn remux_video_drops_audio_and_links_across_it() {
    let stream = sample_stream();
    let mut remuxer = Remuxer::new(MediaFilter::Video);
    let mut out = Vec::new();
    remuxer.push(&stream, &mut out).unwrap();
    let expected = expected_remux(0x01, &[
        tag_bytes(0x12, &amf_meta_payload(), 0, 0),
        tag_bytes(0x09, &[0x17, 0x01, 0x02, 0x03], 20, 0),
        tag_bytes(0x09, &[0x27], 40, 0),
    ]);
    assert_eq!(out, expected);
    let video1 = tag_bytes(0x09, &[0x17, 0x01, 0x02, 0x03], 20, 0);
    let video2 = tag_bytes(0x09, &[0x27], 40, 0);
    let second_video_at = out.len() - 4 - video2.len();
    let linkage = &out[second_video_at - 4..second_video_at];
    assert_eq!(linkage, &(video1.len() as u32).to_be_bytes());
}

#[test]
fn remux_audio_keeps_metadata_and_audio() {
    let stream = sample_stream();
    let mut remuxer = Remuxer::new(MediaFilter::Audio);
    let mut out = Vec::new();
    remuxer.push(&stream, &mut out).unwrap();
    let expected = expected_remux(0x04, &[
        tag_bytes(0x12, &amf_meta_payload(), 0, 0),
        tag_bytes(0x08, &[0xa1, 0xa2], 10, 0),
        tag_bytes(0x08, &[0xa3], 30, 0),
    ]);
    assert_eq!(out, expected);
}

#[test]
fn remux_accepts_chunked_input() {
    let stream = sample_stream();
    let mut whole = Remuxer::new(MediaFilter::Video);
    let mut expected = Vec::new();
    whole.push(&stream, &mut expected).unwrap();

    let mut remuxer = Remuxer::new(MediaFilter::Video);
    let mut out = Vec::new();
    for chunk in stream.chunks(7) {
        remuxer.push(chunk, &mut out).unwrap();
    }
    assert_eq!(out, expected);
}

#[test]
fn segment_decodes_and_reencodes() {
    let audio = tag_bytes(0x08, &[0xa1, 0xa2], 10, 0);
    let mut bytes = 14u32.to_be_bytes().to_vec();
    bytes.extend_from_slice(&audio);
    let (seg, next) = Segment::from_bytes(&bytes, 0).unwrap();
    assert_eq!(next, bytes.len());
    assert!(seg.has_tag());
    assert!(seg.has_audio_tag());
    assert!(!seg.has_video_tag());
    assert!(!seg.has_script_tag());
    assert_eq!(seg.pre_tag_size(), 14);
    assert_eq!(seg.into_bytes(), bytes);
}

#[test]
fn segment_without_tag_marks_stream_end() {
    let bytes = 14u32.to_be_bytes().to_vec();
    let (seg, next) = Segment::from_bytes(&bytes, 0).unwrap();
    assert_eq!(next, 4);
    assert!(!seg.has_tag());
    assert_eq!(seg.into_bytes(), bytes);
}

#[test]
fn segment_set_pre_tag_size_overwrites_field() {
    let bytes = 14u32.to_be_bytes().to_vec();
    let (mut seg, _) = Segment::from_bytes(&bytes, 0).unwrap();
    seg.set_pre_tag_size(99);
    assert_eq!(seg.pre_tag_size(), 99);
    assert_eq!(seg.into_bytes(), 99u32.to_be_bytes().to_vec());
}

#[test]
fn container_reads_whole_stream() {
    let stream = sample_stream();
    let c = Container::from_bytes(&stream).unwrap();
    assert_eq!(c.header.version(), 1);
    assert!(c.header.has_video());
    assert_eq!(c.body.len(), 6);
    assert!(!c.body[5].has_tag());
    assert_eq!(c.body[0].pre_tag_size(), 0);
    let meta_len = tag_bytes(0x12, &amf_meta_payload(), 0, 0).len() as u32;
    assert_eq!(c.body[1].pre_tag_size(), meta_len);
    assert_eq!(c.body[5].pre_tag_size(), 12);
    assert!(c.body[0].has_script_tag());
    assert!(c.body[1].has_audio_tag());
    assert!(c.body[2].has_video_tag());
    assert_eq!(c.body[4].tag().as_ref().unwrap().timestamp(), 40);
    let script = c.first_script_tag().unwrap();
    assert!(script.is_script_tag());
    match script.data() {
        TagData::Script(values) => {
            assert_eq!(duration(values), Some(12.5f64.to_bits()));
        },
        other => panic!("unexpected payload: {:?}", other),
    }
}
