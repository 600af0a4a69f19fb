use fireflow::dataplan::int_column_plan;
use fireflow::kwstate::Measurement;
use fireflow::values::{NumType, OptionalKw};
use fireflow::config::{DataReadConfig, HeaderConfig, OffsetCorrection, RawTextReadConfig, StdTextReadConfig};
use fireflow::dataplan::{
    build_data_plan, cut_fields, decode_int, narrow_column, range_to_bitmask, read_int_columns,
    shape_columns, tokenize_ascii, total_events, AnyIntColumn, DataPlan,
};
use fireflow::decimal::{parse_u32, parse_u64, u64_to_string, DecError};
use fireflow::error::{Failure, PureErrorBuf, PureErrorLevel, PureSuccess};
use fireflow::fields::{join_fields, split_fields};
use fireflow::header::{parse_header, parse_header_offset, Version};
use fireflow::kwstate::{KeyFate, KwState};
use fireflow::rawtext::{choose_segment, pad_zeros, parse_segment, split_raw_pairs, split_raw_text, verify_delim, RawTEXT};
use fireflow::segment::{Segment, SegmentErrorKind, SegmentId};
use fireflow::values::{
    AlphaNumType, ByteOrd, Bytes, BytesError, Endian, Feature, Mode, Originality, Range, Shortname,
    Trigger, Wavelengths,
};

fn header_bytes(v: &str, t0: u32, t1: u32, d0: u32, d1: u32, a0: &str, a1: &str) -> Vec<u8> {
    let s = format!("{v}    {t0:>8}{t1:>8}{d0:>8}{d1:>8}{a0:>8}{a1:>8}");
    s.into_bytes()
}

fn s1_text() -> Vec<u8> {
    b"|$PAR|2|$TOT|8|$MODE|L|$DATATYPE|I|$BYTEORD|1,2,3,4|$P1B|16|$P2B|16|$P1R|1024|$P2R|65536|$P1E|0,0|$P2E|0,0|".to_vec()
}

#[test]
fn segment_bounds_and_size() {
    let s = Segment::try_new(10, 20, SegmentId::Data).ok().unwrap();
    assert_eq!(s.begin(), 10);
    assert_eq!(s.end(), 20);
    assert_eq!(s.len(), 10);
    assert_eq!(s.num_bytes(), 11);
    assert!(!s.is_unset());
    assert!(Segment::unset().is_unset());
}

#[test]
fn segment_errors() {
    let e = Segment::try_new(20, 10, SegmentId::Data).err().unwrap();
    assert_eq!(e.kind, SegmentErrorKind::Inverted);
    let e = Segment::try_new_adjusted(0, 10, -1, 0, SegmentId::Analysis).err().unwrap();
    assert_eq!(e.kind, SegmentErrorKind::Range);
    let e = Segment::try_new_adjusted(0, u32::MAX, 0, 1, SegmentId::Analysis).err().unwrap();
    assert_eq!(e.kind, SegmentErrorKind::Range);
    assert_eq!(e.message(), "Offset out of range for ANALYSIS segment; begin=0, end=4294967295 (1)");
    let s = Segment::try_new_adjusted(5, 10, -5, 2, SegmentId::Data).ok().unwrap();
    assert_eq!((s.begin(), s.end()), (0, 12));
    assert_eq!(s.num_bytes(), 13);
    let full = Segment::try_new(0, u32::MAX, SegmentId::Data).ok().unwrap();
    assert_eq!(full.num_bytes(), 1u64 << 32);
}

#[test]
fn header_s1() {
    let xs = header_bytes("FCS2.0", 58, 257, 258, 321, "0", "0");
    assert_eq!(xs.len(), 58);
    let h = parse_header(&xs, &HeaderConfig::default()).ok().unwrap();
    assert_eq!(h.data.version, Version::FCS2_0);
    assert_eq!((h.data.text.begin(), h.data.text.end()), (58, 257));
    assert_eq!((h.data.data.begin(), h.data.data.end()), (258, 321));
    assert!(h.data.analysis.is_unset());
    assert_eq!(h.deferred.errors.len(), 0);
}

#[test]
fn header_blank_analysis_is_unset() {
    let xs = header_bytes("FCS3.1", 58, 257, 258, 321, "", "");
    let h = parse_header(&xs, &HeaderConfig::default()).ok().unwrap();
    assert_eq!(h.data.version, Version::FCS3_1);
    assert!(h.data.analysis.is_unset());
}

#[test]
fn header_blank_text_is_refused() {
    let mut xs = header_bytes("FCS3.0", 58, 257, 258, 321, "0", "0");
    for b in xs[10..18].iter_mut() {
        *b = b' ';
    }
    let f = parse_header(&xs, &HeaderConfig::default()).err().unwrap();
    assert_eq!(f.reason, "could not parse HEADER fields");
    assert!(f.deferred.has_errors());
}

#[test]
fn header_bad_version_and_override() {
    let xs = header_bytes("FCS9.9", 58, 257, 258, 321, "0", "0");
    assert!(parse_header(&xs, &HeaderConfig::default()).is_err());
    let conf = HeaderConfig { version_override: Some(Version::FCS3_2), ..HeaderConfig::default() };
    let h = parse_header(&xs, &conf).ok().unwrap();
    assert_eq!(h.data.version, Version::FCS3_2);
}

#[test]
fn header_corrections_apply() {
    let xs = header_bytes("FCS3.0", 58, 257, 258, 321, "0", "0");
    let conf = HeaderConfig { text: OffsetCorrection { begin: 0, end: -1 }, ..HeaderConfig::default() };
    let h = parse_header(&xs, &conf).ok().unwrap();
    assert_eq!(h.data.text.end(), 256);
}

#[test]
fn header_wrong_length() {
    assert!(parse_header(b"FCS3.0", &HeaderConfig::default()).is_err());
}

#[test]
fn header_offset_fields() {
    assert_eq!(parse_header_offset(b"     123", false), Some(123));
    assert_eq!(parse_header_offset(b"        ", true), Some(0));
    assert_eq!(parse_header_offset(b"        ", false), None);
    assert_eq!(parse_header_offset(b"  12 3  ", false), None);
    assert_eq!(parse_header_offset(b"99999999", false), Some(99999999));
}

#[test]
fn version_tokens() {
    for v in [Version::FCS2_0, Version::FCS3_0, Version::FCS3_1, Version::FCS3_2] {
        assert_eq!(Version::from_str(&v.to_string()).ok(), Some(v));
    }
    assert!(Version::from_str("FCS4.0").is_err());
    assert!(Version::FCS2_0.is_before(&Version::FCS3_2));
    assert!(!Version::FCS3_1.is_before(&Version::FCS3_0));
}

#[test]
fn decimal_reading() {
    assert_eq!(parse_u64("0"), Ok(0));
    assert_eq!(parse_u64("18446744073709551615"), Ok(u64::MAX));
    assert_eq!(parse_u64("18446744073709551616"), Err(DecError::Overflow));
    assert_eq!(parse_u64(""), Err(DecError::InvalidDigit));
    assert_eq!(parse_u64("1a"), Err(DecError::InvalidDigit));
    assert_eq!(parse_u32("4294967296"), None);
    assert_eq!(u64_to_string(1234567890), "1234567890");
}

#[test]
fn fields_round_trip() {
    let parts = split_fields("a,,b");
    assert_eq!(parts, vec!["a".to_string(), "".to_string(), "b".to_string()]);
    assert_eq!(join_fields(&parts), "a,,b");
    assert_eq!(split_fields(""), vec!["".to_string()]);
}

#[test]
fn delimiter_checks() {
    let conf = RawTextReadConfig::default();
    assert_eq!(verify_delim(b'|', &conf).deferred.errors.len(), 0);
    let r = verify_delim(0, &conf);
    assert!(!r.deferred.has_errors());
    assert_eq!(r.deferred.errors.len(), 1);
    let strict = RawTextReadConfig { force_ascii_delim: true, ..RawTextReadConfig::default() };
    assert!(verify_delim(127, &strict).deferred.has_errors());
    assert!(verify_delim(200, &conf).deferred.has_errors());
}

#[test]
fn text_split_s1() {
    let conf = RawTextReadConfig::default();
    let r = split_raw_text(&s1_text(), &conf);
    assert_eq!(r.data.len(), 11);
    assert_eq!(r.data[0], ("$PAR".to_string(), "2".to_string()));
    assert_eq!(r.data[4], ("$BYTEORD".to_string(), "1,2,3,4".to_string()));
    assert_eq!(r.deferred.errors.len(), 0);
}

#[test]
fn text_keys_are_upper_cased() {
    let conf = RawTextReadConfig::default();
    let r = split_raw_text(b"/$par/2/name/Value/", &conf);
    assert_eq!(r.data[0], ("$PAR".to_string(), "2".to_string()));
    assert_eq!(r.data[1], ("NAME".to_string(), "Value".to_string()));
}

#[test]
fn text_escape_s5() {
    let conf = RawTextReadConfig::default();
    let r = split_raw_text(b",$CYT,Acme,, Inc,", &conf);
    assert_eq!(r.data, vec![("$CYT".to_string(), "Acme, Inc".to_string())]);
    assert_eq!(r.deferred.errors.len(), 0);
    let literal = RawTextReadConfig { no_delim_escape: true, ..RawTextReadConfig::default() };
    let r = split_raw_text(b",$CYT,Acme,, Inc,", &literal);
    assert_ne!(r.data, vec![("$CYT".to_string(), "Acme, Inc".to_string())]);
    assert!(r.deferred.errors.len() > 0);
}

#[test]
fn text_delimiter_runs() {
    let conf = RawTextReadConfig::default();
    // a run of three: one literal delimiter and a boundary
    let r = split_raw_text(b"|K|||V|", &conf);
    assert_eq!(r.data, vec![("K|".to_string(), "V".to_string())]);
    assert!(r.deferred.has_errors());
    // a run of four: two literal delimiters, no boundary
    let r = split_raw_text(b"|K|A||||B|", &conf);
    assert_eq!(r.data, vec![("K".to_string(), "A||B".to_string())]);
}

#[test]
fn text_odd_words_and_final_delimiter() {
    let conf = RawTextReadConfig { enforce_even: true, ..RawTextReadConfig::default() };
    let r = split_raw_text(b"|A|1|B|", &conf);
    assert_eq!(r.data.len(), 1);
    assert!(r.deferred.has_errors());
    let conf = RawTextReadConfig { enforce_final_delim: true, ..RawTextReadConfig::default() };
    let r = split_raw_text(b"|A|1", &conf);
    assert_eq!(r.data, vec![("A".to_string(), "1".to_string())]);
    assert!(r.deferred.has_errors());
}

#[test]
fn text_invalid_utf8_drops_pair() {
    let conf = RawTextReadConfig::default();
    let r = split_raw_text(&[b'|', b'A', b'|', 0xff, b'|', b'B', b'|', b'2', b'|'], &conf);
    assert_eq!(r.data, vec![("B".to_string(), "2".to_string())]);
    assert!(!r.deferred.has_errors());
    let conf = RawTextReadConfig { error_on_invalid_utf8: true, ..RawTextReadConfig::default() };
    let r = split_raw_text(&[b'|', b'A', b'|', 0xff, b'|'], &conf);
    assert!(r.deferred.has_errors());
}

#[test]
fn text_blank_value_without_escape() {
    let conf = RawTextReadConfig { no_delim_escape: true, enforce_nonempty: true, ..RawTextReadConfig::default() };
    let r = split_raw_text(b"|A||B|2|", &conf);
    assert_eq!(r.data, vec![("B".to_string(), "2".to_string())]);
    assert!(r.deferred.has_errors());
}

#[test]
fn pairs_are_classified_and_deduplicated() {
    let conf = RawTextReadConfig { enforce_unique: true, ..RawTextReadConfig::default() };
    let pairs = vec![
        ("$PAR".to_string(), "2".to_string()),
        ("FOO".to_string(), "x".to_string()),
        ("$PAR".to_string(), "3".to_string()),
    ];
    let r = split_raw_pairs(pairs, &conf);
    assert_eq!(r.data.0, vec![("$PAR".to_string(), "2".to_string())]);
    assert_eq!(r.data.1, vec![("FOO".to_string(), "x".to_string())]);
    assert!(r.deferred.has_errors());
}

#[test]
fn offsets_are_repaired_and_parsed() {
    assert_eq!(pad_zeros("  12"), "0012");
    assert_eq!(pad_zeros("12"), "12");
    let s = parse_segment(Some("256"), Some("600"), OffsetCorrection::default(), SegmentId::Data, PureErrorLevel::Error)
        .ok()
        .unwrap();
    assert_eq!((s.begin(), s.end()), (256, 600));
    let e = parse_segment(None, Some("x"), OffsetCorrection::default(), SegmentId::Data, PureErrorLevel::Error)
        .err()
        .unwrap();
    assert_eq!(e.errors.len(), 2);
}

#[test]
fn header_and_text_offsets_disagree_s6() {
    let h = Segment::try_new(256, 511, SegmentId::Data).ok().unwrap();
    let t = Segment::try_new(256, 600, SegmentId::Data).ok().unwrap();
    let r = choose_segment(h, Some(t), SegmentId::Data);
    let chosen = r.data.unwrap();
    assert_eq!((chosen.begin(), chosen.end()), (256, 511));
    assert_eq!(r.deferred.errors.len(), 1);
    assert_eq!(r.deferred.errors[0].level, PureErrorLevel::Warning);
    assert!(r.deferred.errors[0].msg.contains("256,511"));
    assert!(r.deferred.errors[0].msg.contains("256,600"));
    let r = choose_segment(Segment::unset(), Some(t), SegmentId::Data);
    assert_eq!(r.data.unwrap().end(), 600);
    assert_eq!(r.deferred.errors.len(), 0);
    assert!(choose_segment(Segment::unset(), None, SegmentId::Analysis).data.is_none());
}

#[test]
fn typed_enums() {
    assert_eq!(AlphaNumType::from_str("I").ok(), Some(AlphaNumType::Integer));
    assert!(AlphaNumType::from_str("X").is_err());
    assert_eq!(AlphaNumType::Double.to_string(), "D");
    assert_eq!(Mode::from_str("L").ok(), Some(Mode::List));
    assert_eq!(Feature::from_str("Height").ok(), Some(Feature::Height));
    assert_eq!(Feature::Width.to_string(), "Width");
    assert!(Feature::from_str("height").is_err());
    assert_eq!(Originality::from_str("DataModified").ok(), Some(Originality::DataModified));
    assert_eq!(Originality::Appended.to_string(), "Appended");
}

#[test]
fn bytes_values() {
    assert_eq!(Bytes::from_str("*").ok(), Some(Bytes::Variable));
    assert_eq!(Bytes::from_str("16").ok(), Some(Bytes::Fixed(2)));
    assert_eq!(Bytes::from_str("72"), Err(BytesError::Range));
    assert_eq!(Bytes::from_str("0"), Err(BytesError::Range));
    assert_eq!(Bytes::from_str("12"), Err(BytesError::NotOctet));
    assert_eq!(Bytes::from_str("x"), Err(BytesError::Int));
    assert_eq!(Bytes::Fixed(4).to_string(), "32");
    assert_eq!(Bytes::from_str(&Bytes::Fixed(3).to_string()).ok(), Some(Bytes::Fixed(3)));
}

#[test]
fn range_values() {
    assert_eq!(Range::from_str("1024").ok(), Some(Range::Int(1023)));
    assert_eq!(Range::from_str("18446744073709551616").ok(), Some(Range::Int(u64::MAX)));
    assert_eq!(Range::from_str("1.5e3").ok(), Some(Range::Float("1.5e3".to_string())));
    assert!(Range::from_str("abc").is_err());
    assert_eq!(Range::Int(u64::MAX).to_string(), "18446744073709551616");
    assert_eq!(Range::Int(1023).to_string(), "1024");
}

#[test]
fn byteord_values() {
    assert_eq!(ByteOrd::from_str("1,2,3,4").ok(), Some(ByteOrd::Endian(Endian::Little)));
    assert_eq!(ByteOrd::from_str("4,3,2,1").ok(), Some(ByteOrd::Endian(Endian::Big)));
    assert_eq!(ByteOrd::from_str("2,1").ok(), Some(ByteOrd::Mixed(vec![1, 0])));
    assert_eq!(ByteOrd::from_str("3,1,2,4,5,6").ok(), Some(ByteOrd::Mixed(vec![2, 0, 1, 3, 4, 5])));
    assert!(ByteOrd::from_str("1,1").is_err());
    assert!(ByteOrd::from_str("1,3").is_err());
    assert!(ByteOrd::from_str("a,b").is_err());
    assert_eq!(ByteOrd::Mixed(vec![1, 0]).to_string(), "2,1");
    assert_eq!(Endian::Big.to_string(), "4,3,2,1");
    assert_eq!(Endian::from_str("1,2,3,4").ok(), Some(Endian::Little));
    assert!(Endian::from_str("2,1").is_err());
}

#[test]
fn trigger_and_names() {
    let t = Trigger::from_str("FSC,100").ok().unwrap();
    assert_eq!(t.measurement, "FSC");
    assert_eq!(t.threshold, 100);
    assert_eq!(t.to_string(), "FSC,100");
    assert!(Trigger::from_str("FSC").is_err());
    assert!(Trigger::from_str("FSC,x").is_err());
    assert!(Shortname::from_str("a,b").is_err());
    assert_eq!(Shortname::from_index(7).0, "M7");
    let w = Wavelengths::from_str("488,640").ok().unwrap();
    assert_eq!(w.0, vec![488, 640]);
    assert_eq!(w.to_string(), "488,640");
}

fn state_of(pairs: Vec<(String, String)>) -> KwState {
    let r = split_raw_pairs(pairs, &RawTextReadConfig::default());
    let raw = RawTEXT { delimiter: b'|', standard: r.data.0, nonstandard: r.data.1 };
    raw.to_state()
}

fn s1_state() -> KwState {
    let r = split_raw_text(&s1_text(), &RawTextReadConfig::default());
    state_of(r.data)
}

#[test]
fn lookups_mark_statuses() {
    let mut st = state_of(vec![
        ("$PAR".to_string(), "2".to_string()),
        ("$MODE".to_string(), "Q".to_string()),
        ("$FOO".to_string(), "1".to_string()),
    ]);
    assert_eq!(st.lookup_required::<usize>("$PAR", false), Some(2));
    assert_eq!(st.lookup_required::<usize>("$PAR", false), None);
    assert_eq!(st.lookup_required::<Mode>("$MODE", false), None);
    assert_eq!(st.lookup_required::<u32>("$TOT", false), None);
    assert_eq!(st.missing, vec!["$TOT".to_string()]);
    let fates = st.classify();
    assert_eq!(fates[0].1, KeyFate::Used);
    assert!(matches!(fates[1].1, KeyFate::Error(_)));
    assert_eq!(fates[2].1, KeyFate::Deviant("1".to_string()));
    let errs = st.into_errors();
    assert_eq!(errs.deviant_keywords, vec![("$FOO".to_string(), "1".to_string())]);
    assert_eq!(errs.keyword_errors.len(), 1);
    assert_eq!(errs.into_lines().len(), 2);
}

#[test]
fn optional_lookup_warns() {
    let mut st = state_of(vec![("$CYT".to_string(), "x".to_string()), ("$PAR".to_string(), "x".to_string())]);
    assert!(matches!(st.lookup_optional::<String>("$CYT", false), fireflow::values::OptionalKw::Present(_)));
    assert!(matches!(st.lookup_optional::<usize>("$PAR", false), fireflow::values::OptionalKw::Absent));
    assert!(matches!(st.lookup_optional::<usize>("$TOT", false), fireflow::values::OptionalKw::Absent));
    assert!(st.missing.is_empty());
    let fates = st.classify();
    assert!(matches!(fates[1].1, KeyFate::Warning(_)));
}

#[test]
fn measurements_match_par() {
    let mut st = s1_state();
    let par = st.lookup_required::<usize>("$PAR", false).unwrap();
    let ms = st.lookup_measurements(par, Version::FCS2_0).unwrap();
    assert_eq!(ms.len(), 2);
    assert_eq!(ms[0].bytes, Bytes::Fixed(2));
    assert_eq!(ms[1].range, Range::Int(65535));
}

#[test]
fn measurements_need_unique_names() {
    let mut st = state_of(vec![
        ("$P1B".to_string(), "8".to_string()),
        ("$P1R".to_string(), "8".to_string()),
        ("$P1N".to_string(), "A".to_string()),
        ("$P2B".to_string(), "8".to_string()),
        ("$P2R".to_string(), "8".to_string()),
        ("$P2N".to_string(), "A".to_string()),
    ]);
    assert!(st.lookup_measurements(2, Version::FCS3_1).is_none());
    assert_eq!(st.meta_errors.len(), 1);
}

#[test]
fn trigger_must_name_a_measurement() {
    let mut st = state_of(vec![]);
    let names = vec![Shortname::from_index(1)];
    let t = Trigger { measurement: "M1".to_string(), threshold: 3 };
    assert!(st.check_trigger(&t, &names));
    let t = Trigger { measurement: "FSC".to_string(), threshold: 3 };
    assert!(!st.check_trigger(&t, &names));
    assert_eq!(st.meta_errors.len(), 1);
}

#[test]
fn errors_prune_by_policy() {
    let mut st = state_of(vec![("$FOO".to_string(), "1".to_string()), ("BAR".to_string(), "2".to_string())]);
    let mut errs = std::mem::replace(&mut st, state_of(vec![])).into_errors();
    let conf = StdTextReadConfig::default();
    assert!(!errs.fails(&conf, false));
    let strict = StdTextReadConfig { disallow_deviant: true, ..StdTextReadConfig::default() };
    assert!(errs.fails(&strict, false));
    errs.prune_errors(&conf, false);
    assert!(errs.deviant_keywords.is_empty());
    assert!(errs.nonstandard_keywords.is_empty());
}

#[test]
fn bitmask_values() {
    assert_eq!(range_to_bitmask(&Range::Int(1023), 2), Some(1023));
    assert_eq!(range_to_bitmask(&Range::Int(65535), 2), Some(65535));
    assert_eq!(range_to_bitmask(&Range::Int(1000), 2), Some(1023));
    assert_eq!(range_to_bitmask(&Range::Int(u64::MAX), 1), Some(255));
    assert_eq!(range_to_bitmask(&Range::Int(u64::MAX), 8), Some(u64::MAX));
    assert_eq!(range_to_bitmask(&Range::Int(0), 4), Some(0));
    assert_eq!(range_to_bitmask(&Range::Float("1.5".to_string()), 4), None);
}

#[test]
fn integer_decoding() {
    assert_eq!(decode_int(&[0x01, 0x02], &vec![0, 1], u64::MAX), 0x0201);
    assert_eq!(decode_int(&[0x01, 0x02], &vec![1, 0], u64::MAX), 0x0102);
    assert_eq!(decode_int(&[0x01, 0x02, 0x03], &vec![2, 0, 1], u64::MAX), 0x010302);
    assert_eq!(decode_int(&[0xff, 0xff], &vec![0, 1], 1023), 1023);
}

#[test]
fn event_count() {
    let r = total_events(32, &vec![2, 2], Some(8), true, true).ok().unwrap();
    assert_eq!(r.data, 8);
    assert_eq!(r.deferred.errors.len(), 0);
    let r = total_events(33, &vec![2, 2], Some(9), true, false).ok().unwrap();
    assert_eq!(r.data, 8);
    assert_eq!(r.deferred.errors.len(), 2);
    assert_eq!(r.deferred.errors[1].level, PureErrorLevel::Warning);
    assert!(total_events(10, &vec![], None, false, false).is_err());
}

#[test]
fn integer_data_s1() {
    let mut st = s1_state();
    let par = st.lookup_required::<usize>("$PAR", false).unwrap();
    let tot = st.lookup_required::<u32>("$TOT", false).map(|t| t as u64);
    let datatype = st.lookup_required::<AlphaNumType>("$DATATYPE", false).unwrap();
    let byteord = st.lookup_required::<ByteOrd>("$BYTEORD", false).unwrap();
    let ms = st.lookup_measurements(par, Version::FCS2_0).unwrap();
    let mut data = vec![];
    for i in 0..8u16 {
        data.extend_from_slice(&(i * 300).to_le_bytes());
        data.extend_from_slice(&(65535 - i).to_le_bytes());
    }
    let plan = build_data_plan(datatype, &byteord, &ms, data.len() as u64, tot, &DataReadConfig::default())
        .ok()
        .unwrap();
    let (columns, nrows) = match plan.data {
        DataPlan::Integer { columns, nrows } => (columns, nrows),
        _ => panic!("expected an integer plan"),
    };
    assert_eq!(nrows, 8);
    let cols = read_int_columns(&data, &columns, nrows);
    assert_eq!(cols[0], vec![0, 300, 600, 900, 1023, 1023, 1023, 1023]);
    assert_eq!(cols[1][0], 65535);
    assert_eq!(cols[1][7], 65528);
    match narrow_column(cols[0].clone(), 2) {
        AnyIntColumn::Uint16(v) => assert_eq!(v.len(), 8),
        _ => panic!("expected u16"),
    }
}

#[test]
fn variable_width_needs_ascii() {
    let mut st = state_of(vec![
        ("$P1B".to_string(), "*".to_string()),
        ("$P1R".to_string(), "10".to_string()),
    ]);
    let ms = st.lookup_measurements(1, Version::FCS3_0).unwrap();
    let conf = DataReadConfig::default();
    let bo = ByteOrd::Endian(Endian::Little);
    assert!(build_data_plan(AlphaNumType::Integer, &bo, &ms, 10, None, &conf).is_err());
    let ok = build_data_plan(AlphaNumType::Ascii, &bo, &ms, 10, Some(2), &conf).ok().unwrap();
    assert!(matches!(ok.data, DataPlan::DelimitedAscii { ncols: 1, nrows: Some(2), nbytes: 10 }));
}

#[test]
fn delimited_ascii_s2() {
    let tokens = tokenize_ascii(b"1,2,3 4,5,6 ");
    assert_eq!(tokens.len(), 6);
    let cols = shape_columns(&tokens, 3, Some(2)).ok().unwrap();
    assert_eq!(cols[0], vec![b"1".to_vec(), b"4".to_vec()]);
    assert_eq!(cols[1], vec![b"2".to_vec(), b"5".to_vec()]);
    assert_eq!(cols[2], vec![b"3".to_vec(), b"6".to_vec()]);
    assert!(shape_columns(&tokens, 3, Some(3)).is_err());
    assert!(shape_columns(&tokens, 4, None).is_err());
    assert!(shape_columns(&tokens, 2, None).is_ok());
}

#[test]
fn fixed_ascii_fields() {
    let cols = cut_fields(b"12345678", &vec![1, 3], 2);
    assert_eq!(cols[0], vec![b"1".to_vec(), b"5".to_vec()]);
    assert_eq!(cols[1], vec![b"234".to_vec(), b"678".to_vec()]);
}

#[test]
fn accumulator_combinators() {
    let mut a = PureSuccess::from(1);
    a.push_warning("w".to_string());
    let mut b = PureSuccess::from(2);
    b.push_error("e".to_string());
    let c = a.combine(b, |x, y| x + y);
    assert_eq!(c.data, 3);
    assert_eq!(c.deferred.errors.len(), 2);
    let (errs, warns) = c.deferred.split();
    assert_eq!(errs, vec!["e".to_string()]);
    assert_eq!(warns, vec!["w".to_string()]);
    let s = PureSuccess::sequence(vec![PureSuccess::from(1), PureSuccess::from(2)]);
    assert_eq!(s.data, vec![1, 2]);
    let m = PureErrorBuf::mconcat(vec![PureErrorBuf::from("a".to_string(), PureErrorLevel::Error), PureErrorBuf::new()]);
    assert_eq!(m.errors.len(), 1);
    let f: Failure<String> = Failure::from_many_errors("r".to_string(), vec!["x".to_string()]);
    assert!(f.deferred.has_errors());
    let maybe = PureSuccess::<Option<i32>>::from_result_1(Err("bad".to_string()), PureErrorLevel::Warning);
    assert!(maybe.data.is_none());
    assert!(maybe.into_result("none".to_string()).is_err());
}

#[test]
fn segment_adjust() {
    let s = Segment::try_new(10, 20, SegmentId::Data).ok().unwrap();
    let t = s.try_adjust(1, -1, SegmentId::Data).ok().unwrap();
    assert_eq!((t.begin(), t.end()), (11, 19));
    assert_eq!(s.try_adjust(0, -11, SegmentId::Data).err().unwrap().kind, SegmentErrorKind::Inverted);
}

#[test]
fn more_combinators() {
    let a = PureSuccess::from(1);
    let b = PureSuccess::from(2);
    let mut c = PureSuccess::from(3);
    c.push_warning("late".to_string());
    let t = a.combine3(b, c, |x, y, z| x + y + z);
    assert_eq!(t.data, 6);
    assert_eq!(t.deferred.into_warnings(), vec!["late".to_string()]);
    let ok: Result<PureSuccess<i32>, Failure<String>> = Ok(PureSuccess::from(4));
    let r = PureSuccess::from(1).combine_result(ok, |x, y| x * y).ok().unwrap();
    assert_eq!(r.data, 4);
    let bad: Result<PureSuccess<i32>, Failure<String>> = Err(Failure::new("no".to_string()));
    let mut first = PureSuccess::from(1);
    first.push_error("earlier".to_string());
    let f = first.combine_result(bad, |x, y| x * y).err().unwrap();
    assert_eq!(f.reason, "no");
    assert_eq!(f.deferred.errors.len(), 1);
    let m = PureSuccess::from(Some(5)).map_maybe(|x| x + 1);
    assert_eq!(m.data, Some(6));
    let n = PureSuccess::from(Some(5)).and_then_opt(|x| PureSuccess::from(if x > 3 { Some(x) } else { None }));
    assert_eq!(n.data, Some(5));
    let e: PureSuccess<Option<i32>> = PureSuccess::from(None).and_then_opt(|x: i32| PureSuccess::from(Some(x)));
    assert!(e.data.is_none());
    let tm: Result<PureSuccess<i32>, Failure<String>> = PureSuccess::from(2).try_map(|x| Ok(PureSuccess::from(x + 1)));
    assert_eq!(tm.ok().unwrap().data, 3);
    let s = PureSuccess::from(1).combine_some_result(Ok::<i32, Failure<String>>(2), |x, y| x + y).ok().unwrap();
    assert_eq!(s.data, 3);
    let q = PureSuccess::from(1).combine4(PureSuccess::from(2), PureSuccess::from(3), PureSuccess::from(4), |a, b, c, d| a + b + c + d);
    assert_eq!(q.data, 10);
    let errs = PureSuccess::<Option<i32>>::from_result_errors(Err(vec!["x".to_string(), "y".to_string()]));
    assert_eq!(errs.deferred.into_errors(), vec!["x".to_string(), "y".to_string()]);
}

#[test]
fn header_segments_must_be_set() {
    let xs = header_bytes("FCS3.0", 0, 0, 0, 0, "0", "0");
    assert_eq!(parse_header(&xs, &HeaderConfig::default()).err().unwrap().reason, "TEXT segment is unset");
    let xs = header_bytes("FCS2.0", 58, 257, 0, 0, "0", "0");
    assert!(parse_header(&xs, &HeaderConfig::default()).is_err());
    let xs = header_bytes("FCS3.0", 58, 257, 0, 0, "0", "0");
    assert!(parse_header(&xs, &HeaderConfig::default()).ok().unwrap().data.data.is_unset());
}

#[test]
fn plan_variants() {
    let meas = |b: u8, dt: Option<NumType>| Measurement {
        bytes: Bytes::Fixed(b),
        range: Range::Int(255),
        shortname: None,
        longname: OptionalKw::Absent,
        datatype: dt,
        scale: OptionalKw::Absent,
        gain: OptionalKw::Absent,
        voltage: OptionalKw::Absent,
        filter: OptionalKw::Absent,
        power: OptionalKw::Absent,
        detector_type: OptionalKw::Absent,
        percent_emitted: OptionalKw::Absent,
        wavelengths: OptionalKw::Absent,
        calibration: OptionalKw::Absent,
        display: OptionalKw::Absent,
        feature: OptionalKw::Absent,
        measurement_type: OptionalKw::Absent,
        analyte: OptionalKw::Absent,
        tag: OptionalKw::Absent,
        detector_name: OptionalKw::Absent,
    };
    let conf = DataReadConfig::default();
    let le = ByteOrd::Endian(Endian::Little);
    let ms = vec![meas(4, None), meas(4, None)];
    let p = build_data_plan(AlphaNumType::Single, &le, &ms, 24, Some(3), &conf).ok().unwrap();
    assert!(matches!(p.data, DataPlan::Float32 { ncols: 2, nrows: 3, .. }));
    let ms2 = vec![meas(4, None), meas(2, None)];
    assert!(build_data_plan(AlphaNumType::Single, &le, &ms2, 24, None, &conf).is_err());
    let mixed = vec![meas(2, None), meas(4, Some(NumType::Single))];
    let p = build_data_plan(AlphaNumType::Integer, &le, &mixed, 24, Some(4), &conf).ok().unwrap();
    match p.data {
        DataPlan::Mixed { columns, nrows } => {
            assert_eq!(nrows, 4);
            assert_eq!(columns.len(), 2);
        }
        _ => panic!("expected a mixed plan"),
    }
    let c = int_column_plan(&meas(3, None), &ByteOrd::Mixed(vec![2, 0, 1])).ok().unwrap();
    assert_eq!((c.width, c.bitmask, c.order.clone()), (3, 255, vec![2, 0, 1]));
    assert!(int_column_plan(&meas(3, None), &ByteOrd::Mixed(vec![1, 0])).is_err());
}
