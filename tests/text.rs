use fireflow::values::{parse_compensation, parse_spillover, parse_unstained_centers};
use fireflow::config::{OffsetCorrection, RawTextReadConfig, StdTextReader, StdTextReadConfig, TimeConfig};
use fireflow::values::{linear_scale_text, one_text, zero_text};
use fireflow::rawtext::{find_raw_segments, repair_keywords};
use fireflow::segment::{Segment, SegmentId};
use fireflow::dataplan::{compute_data_offsets, decimal_len, make_data_offset_keywords, range_to_bitmask};
use fireflow::datetime::{not_after, FCSDate, FCSDateTime, FCSTime, FCSTime100, FCSTime60, ModifiedDateTime};
use fireflow::error::{Failure, ImpureError};
use fireflow::header::Version;
use fireflow::kwstate::KeyFate;
use fireflow::metadata::{std_text, VersionedMetadata};
use fireflow::nonstandard::{group_nonstandard, substitute_index};
use fireflow::rawtext::{split_raw_pairs, split_raw_text, RawTEXT};
use fireflow::values::{ByteOrd, MeasurementType, Range, Shortname, Unicode, Wavelengths};

fn raw_of(text: &[u8]) -> RawTEXT {
    let conf = RawTextReadConfig::default();
    let pairs = split_raw_text(text, &conf);
    let split = split_raw_pairs(pairs.data, &conf);
    RawTEXT { delimiter: text[0], standard: split.data.0, nonstandard: split.data.1 }
}

#[test]
fn std_text_s1() {
    let raw = raw_of(b"|$PAR|2|$TOT|8|$MODE|L|$DATATYPE|I|$BYTEORD|1,2,3,4|$P1B|16|$P2B|16|$P1R|1024|$P2R|65536|$P1E|0,0|$P2E|0,0|");
    let p = std_text(&raw, Version::FCS2_0, &StdTextReadConfig::default(), false).ok().unwrap();
    assert_eq!(p.par, 2);
    assert_eq!(p.measurements.len(), p.par);
    assert_eq!(p.tot, Some(8));
    assert!(matches!(p.metadata.specific, VersionedMetadata::V2_0 { .. }));
    assert!(p.errors.deviant_keywords.is_empty());
    assert!(matches!(p.measurements[0].scale, fireflow::values::OptionalKw::Present(ref e) if e == "0,0"));
}

#[test]
fn std_text_requires_cyt_in_3_2() {
    let raw = raw_of(b"|$PAR|1|$TOT|1|$DATATYPE|I|$BYTEORD|1,2,3,4|$P1B|8|$P1R|256|$P1N|FSC|");
    let e = std_text(&raw, Version::FCS3_2, &StdTextReadConfig::default(), false).err().unwrap();
    assert_eq!(e.missing_keywords, vec!["$CYT".to_string()]);
    let raw = raw_of(b"|$PAR|1|$TOT|1|$DATATYPE|I|$BYTEORD|1,2,3,4|$P1B|8|$P1R|256|$P1N|FSC|$CYT|Acme|");
    let p = std_text(&raw, Version::FCS3_2, &StdTextReadConfig::default(), false).ok().unwrap();
    assert_eq!(p.measurements[0].shortname.as_ref().unwrap().0, "FSC");
}

#[test]
fn std_text_par_must_match_measurements() {
    let raw = raw_of(b"|$PAR|3|$TOT|1|$MODE|L|$DATATYPE|I|$BYTEORD|1,2,3,4|$P1B|8|$P1R|256|$P2B|8|$P2R|256|");
    let e = std_text(&raw, Version::FCS3_0, &StdTextReadConfig::default(), false).err().unwrap();
    assert!(e.missing_keywords.contains(&"$P3B".to_string()));
}

#[test]
fn std_text_trigger_must_exist() {
    let raw = raw_of(b"|$PAR|1|$TOT|1|$MODE|L|$DATATYPE|I|$BYTEORD|1,2,3,4|$P1B|8|$P1R|256|$P1N|FSC|$TR|SSC,10|");
    let e = std_text(&raw, Version::FCS3_1, &StdTextReadConfig::default(), false).err().unwrap();
    assert_eq!(e.meta_errors.len(), 1);
}

#[test]
fn std_text_deviant_policy() {
    let raw = raw_of(b"|$PAR|1|$TOT|1|$MODE|L|$DATATYPE|I|$BYTEORD|1,2,3,4|$P1B|8|$P1R|256|$ODD|1|");
    let strict = StdTextReadConfig { disallow_deviant: true, ..StdTextReadConfig::default() };
    let e = std_text(&raw, Version::FCS3_0, &strict, false).err().unwrap();
    assert_eq!(e.deviant_keywords, vec![("$ODD".to_string(), "1".to_string())]);
    assert!(std_text(&raw, Version::FCS3_0, &StdTextReadConfig::default(), false).is_ok());
}

#[test]
fn every_key_has_a_fate() {
    let raw = raw_of(b"|$PAR|x|$MODE|L|$ODD|1|");
    let mut st = raw.to_state();
    assert_eq!(st.lookup_required::<usize>("$PAR", false), None);
    assert!(st.lookup_required::<fireflow::values::Mode>("$MODE", false).is_some());
    let fates = st.classify();
    assert_eq!(fates.len(), 3);
    assert!(matches!(fates[0].1, KeyFate::Error(_)));
    assert_eq!(fates[1].1, KeyFate::Used);
    assert_eq!(fates[2].1, KeyFate::Deviant("1".to_string()));
}

#[test]
fn timestamps_are_read() {
    let raw = raw_of(b"|$PAR|1|$TOT|1|$MODE|L|$DATATYPE|I|$BYTEORD|1,2,3,4|$P1B|8|$P1R|256|$P1N|A|$BTIM|10:11:12.50|$DATE|01-JAN-2020|");
    let p = std_text(&raw, Version::FCS3_1, &StdTextReadConfig::default(), false).ok().unwrap();
    match p.metadata.specific {
        VersionedMetadata::V3_1 { timestamps, .. } => {
            match timestamps.btim {
                fireflow::values::OptionalKw::Present(t) => assert_eq!(t.centis, 50),
                _ => panic!("expected $BTIM"),
            }
            match timestamps.date {
                fireflow::values::OptionalKw::Present(d) => assert_eq!((d.year, d.month, d.day), (2020, 1, 1)),
                _ => panic!("expected $DATE"),
            }
        }
        _ => panic!("expected 3.1 metadata"),
    }
}

#[test]
fn pattern_substitution() {
    assert_eq!(substitute_index("^P%nX%n", 12), "^P12X12");
    assert_eq!(substitute_index("%", 1), "%");
    assert_eq!(substitute_index("a%nb", 7), "a7b");
}

#[test]
fn nonstandard_grouping() {
    let pool = vec![
        ("P1FOO".to_string(), "a".to_string()),
        ("P2BAR".to_string(), "b".to_string()),
        ("OTHER".to_string(), "c".to_string()),
    ];
    let g = group_nonstandard("^P%n[A-Z]+$", 2, pool).ok().unwrap();
    assert_eq!(g.groups[0], vec![("P1FOO".to_string(), "a".to_string())]);
    assert_eq!(g.groups[1], vec![("P2BAR".to_string(), "b".to_string())]);
    assert_eq!(g.rest, vec![("OTHER".to_string(), "c".to_string())]);
    assert!(group_nonstandard("P%n(", 1, vec![("P1".to_string(), "x".to_string())]).is_err());
}

#[test]
fn dates_and_times() {
    let d = FCSDate::from_str("05-mar-2021").ok().unwrap();
    assert_eq!((d.year, d.month, d.day), (2021, 3, 5));
    assert_eq!(d.to_string(), "05-Mar-2021");
    assert!(FCSDate::from_str("2021-03-05").is_err());
    let t = FCSTime::from_str("01:02:03").ok().unwrap();
    assert_eq!(t.to_string(), "01:02:03");
    let t60 = FCSTime60::from_str("01:02:03:30").ok().unwrap();
    assert_eq!(t60.jiffies, 30);
    assert_eq!(t60.to_string(), "01:02:03:30");
    assert!(FCSTime60::from_str("01:02:03:60").is_err());
    assert_eq!(FCSTime60::from_str(&t60.to_string()).ok(), Some(t60));
    let t100 = FCSTime100::from_str("23:59:59.99").ok().unwrap();
    assert_eq!(t100.centis, 99);
    assert_eq!(FCSTime100::from_str(&t100.to_string()).ok(), Some(t100));
    assert!(FCSTime100::from_str("23:59:59.9").is_err());
    let m = ModifiedDateTime::from_str("10-Feb-2019 12:00:01.25").ok().unwrap();
    assert_eq!(m.time.centis, 25);
    assert_eq!(m.to_string(), "10-Feb-2019 12:00:01.25");
    assert!(ModifiedDateTime::from_str("10-Feb-2019 12:00:01.2").is_err());
    let dt = FCSDateTime::from_str("2020-01-02T03:04:05+01:00").ok().unwrap();
    assert_eq!(dt.offset, 3600);
    assert_eq!(dt.to_string(), "2020-01-02T03:04:05+01:00");
    assert!(FCSDateTime::from_str("2020-01-02").is_err());
}

#[test]
fn more_round_trips() {
    for s in ["Forward Scatter", "Side Scatter", "Mass", "Custom Thing"] {
        assert_eq!(MeasurementType::from_str(s).to_string(), s);
    }
    assert_eq!(MeasurementType::from_str("Time"), MeasurementType::Time);
    let u = Unicode::from_str("3,$CYT,$SYS").ok().unwrap();
    assert_eq!(u.page, 3);
    assert_eq!(u.kws, vec!["$CYT".to_string(), "$SYS".to_string()]);
    assert_eq!(u.to_string(), "3,$CYT,$SYS");
    assert!(Unicode::from_str("3").is_err());
    assert!(Unicode::from_str("x,$CYT").is_err());
    let w = Wavelengths::from_str("1").ok().unwrap();
    assert_eq!(Wavelengths::from_str(&w.to_string()).ok(), Some(w));
    let b = ByteOrd::from_str("2,3,1").ok().unwrap();
    assert_eq!(b, ByteOrd::Mixed(vec![1, 2, 0]));
    assert_eq!(ByteOrd::from_str(&b.to_string()).ok(), Some(b));
    for r in [Range::Int(0), Range::Int(41), Range::Int(u64::MAX), Range::Float("2.5".to_string())] {
        assert_eq!(Range::from_str(&r.to_string()).ok(), Some(r));
    }
}

#[test]
fn bitmask_fits_width() {
    for b in 1..=8u8 {
        for x in [0u64, 1, 255, 256, 65535, 1 << 40, u64::MAX] {
            let m = range_to_bitmask(&Range::Int(x), b).unwrap();
            if b < 8 {
                assert!(u128::from(m) < (1u128 << (8 * b)));
            }
            assert!(m >= x || u128::from(m) == (1u128 << (8 * b)) - 1);
        }
    }
}

#[test]
fn data_offsets_fixed_point() {
    assert_eq!(decimal_len(0), 1);
    assert_eq!(decimal_len(999), 3);
    let (s, e) = compute_data_offsets(1000, 500).unwrap();
    assert_eq!(s, 1000 + decimal_len(s) as u64 + decimal_len(e) as u64);
    assert_eq!(e, s + 500);
    assert_eq!((s, e), (1008, 1508));
    let kws = make_data_offset_keywords(100, 50).unwrap();
    assert_eq!(kws[0].0, "$BEGINDATA");
    assert_eq!(kws[1].0, "$ENDDATA");
}

#[test]
fn time_channel_name() {
    let conf = StdTextReader { time_shortname: Some("Time".to_string()), ..StdTextReader::default() };
    assert!(conf.time_name_matches(&Shortname::new_unchecked("Time")));
    assert!(!conf.time_name_matches(&Shortname::new_unchecked("FSC")));
    assert!(!StdTextReader::default().time_name_matches(&Shortname::new_unchecked("Time")));
}

#[test]
fn impure_failures() {
    let f = Failure::new("bad".to_string()).into_impure();
    assert!(matches!(f.reason, ImpureError::Pure(ref m) if m == "bad"));
    let g = Failure::from_io(std::io::Error::new(std::io::ErrorKind::Other, "x"));
    assert!(matches!(g.reason, ImpureError::IO(_)));
}

#[test]
fn offsets_found_in_text() {
    let pairs = vec![
        ("$BEGINDATA".to_string(), "  256".to_string()),
        ("$ENDDATA".to_string(), "600".to_string()),
        ("$CYT".to_string(), "x".to_string()),
        ("$BEGINSTEXT".to_string(), "0".to_string()),
        ("$ENDSTEXT".to_string(), "0".to_string()),
    ];
    let z = OffsetCorrection::default();
    let r = find_raw_segments(&pairs, true, z, z, z, Segment::unset(), Segment::unset());
    assert_eq!(r.pairs, vec![("$CYT".to_string(), "x".to_string())]);
    let d = r.data.ok().unwrap().data;
    assert_eq!((d.begin(), d.end()), (256, 600));
    assert!(r.stext.data.unwrap().is_unset());
    assert!(r.analysis.data.is_none());
    // without repair the padded value cannot be read, and HEADER gives nothing
    let r = find_raw_segments(&pairs, false, z, z, z, Segment::unset(), Segment::unset());
    assert!(r.data.is_err());
    // HEADER wins when set
    let h = Segment::try_new(256, 511, SegmentId::Data).ok().unwrap();
    let r = find_raw_segments(&pairs, true, z, z, z, h, Segment::unset());
    let s = r.data.ok().unwrap();
    assert_eq!(s.data.end(), 511);
    assert_eq!(s.deferred.errors.len(), 1);
}

#[test]
fn date_repair() {
    let mut pairs = vec![
        ("$DATE".to_string(), "2021-03-05".to_string()),
        ("$CYT".to_string(), "2021-03-05".to_string()),
    ];
    repair_keywords(&mut pairs, Some("%Y-%m-%d"));
    assert_eq!(pairs[0].1, "05-Mar-2021");
    assert_eq!(pairs[1].1, "2021-03-05");
    let mut same = vec![("$DATE".to_string(), "junk".to_string())];
    repair_keywords(&mut same, Some("%Y-%m-%d"));
    assert_eq!(same[0].1, "junk");
}

#[test]
fn number_texts() {
    assert!(zero_text("0"));
    assert!(zero_text("-0.000e5"));
    assert!(!zero_text("0.1"));
    assert!(!zero_text("abc"));
    assert!(linear_scale_text("0,0"));
    assert!(linear_scale_text("0.0,0"));
    assert!(!linear_scale_text("4,1"));
    assert!(one_text("1"));
    assert!(one_text("1.00"));
    assert!(one_text("+01."));
    assert!(!one_text("10"));
    assert!(!one_text("1.5"));
}

#[test]
fn time_channel_checks() {
    let text = b"|$PAR|1|$TOT|1|$MODE|L|$DATATYPE|I|$BYTEORD|1,2,3,4|$P1B|8|$P1R|256|$P1N|Time|$P1E|4,1|";
    let raw = raw_of(text);
    let lenient = StdTextReadConfig {
        time: TimeConfig { shortname: Some("Time".to_string()), ..TimeConfig::default() },
        ..StdTextReadConfig::default()
    };
    let p = std_text(&raw, Version::FCS3_1, &lenient, false).ok().unwrap();
    assert_eq!(p.errors.meta_warnings.len(), 2);
    let strict = StdTextReadConfig {
        time: TimeConfig {
            shortname: Some("Time".to_string()),
            ensure_timestep: true,
            ensure_linear: true,
            ..TimeConfig::default()
        },
        ..StdTextReadConfig::default()
    };
    let e = std_text(&raw, Version::FCS3_1, &strict, false).err().unwrap();
    assert_eq!(e.meta_errors.len(), 2);
}

#[test]
fn datetime_order() {
    let a = FCSDateTime::from_str("2020-01-02T03:00:00+01:00").ok().unwrap();
    let b = FCSDateTime::from_str("2020-01-02T02:30:00+00:00").ok().unwrap();
    assert!(not_after(&a, &b));
    assert!(!not_after(&b, &a));
    let c = FCSDateTime::from_str("1969-12-31T23:59:59+00:00").ok().unwrap();
    let d = FCSDateTime::from_str("1970-01-01T00:00:00+00:00").ok().unwrap();
    assert!(not_after(&c, &d));
    assert!(!not_after(&d, &c));
    let early = FCSDateTime::from_str("0001-03-01T00:00:00+00:00").ok().unwrap();
    assert!(not_after(&early, &c));
}

#[test]
fn begin_after_end_warns_in_3_2() {
    let raw = raw_of(b"|$PAR|1|$TOT|1|$DATATYPE|I|$BYTEORD|1,2,3,4|$P1B|8|$P1R|256|$P1N|A|$CYT|C|$BEGINDATETIME|2020-01-02T00:00:00+00:00|$ENDDATETIME|2020-01-01T00:00:00+00:00|");
    let p = std_text(&raw, Version::FCS3_2, &StdTextReadConfig::default(), false).ok().unwrap();
    assert_eq!(p.errors.meta_warnings.len(), 1);
    assert!(std_text(&raw, Version::FCS3_2, &StdTextReadConfig::default(), true).is_err());
}

#[test]
fn matrix_values() {
    let s = parse_spillover("2,FSC,SSC,1,0.1,0.2,1").ok().unwrap();
    assert_eq!(s.measurements, vec!["FSC".to_string(), "SSC".to_string()]);
    assert_eq!(s.matrix, vec!["1".to_string(), "0.1".to_string(), "0.2".to_string(), "1".to_string()]);
    assert!(parse_spillover("2,FSC,FSC,1,0,0,1").is_err());
    assert!(parse_spillover("2,FSC,SSC,1,0,0").is_err());
    assert!(parse_spillover("2,FSC,SSC,1,x,0,1").is_err());
    let c = parse_compensation("1,0.5").ok().unwrap();
    assert_eq!(c.matrix, vec!["0.5".to_string()]);
    assert!(parse_compensation("2,1,0,0").is_err());
    let u = parse_unstained_centers("2,A,B,1.5,-2").ok().unwrap();
    assert_eq!(u.names, vec!["A".to_string(), "B".to_string()]);
    assert!(parse_unstained_centers("2,A,A,1,2").is_err());
}

#[test]
fn spillover_names_must_exist() {
    let ok = raw_of(b"|$PAR|1|$TOT|1|$MODE|L|$DATATYPE|I|$BYTEORD|1,2,3,4|$P1B|8|$P1R|256|$P1N|FSC|$SPILLOVER|1,FSC,1|");
    let p = std_text(&ok, Version::FCS3_1, &StdTextReadConfig::default(), false).ok().unwrap();
    assert!(matches!(p.metadata.spillover, fireflow::values::OptionalKw::Present(_)));
    let bad = raw_of(b"|$PAR|1|$TOT|1|$MODE|L|$DATATYPE|I|$BYTEORD|1,2,3,4|$P1B|8|$P1R|256|$P1N|FSC|$SPILLOVER|1,SSC,1|");
    let e = std_text(&bad, Version::FCS3_1, &StdTextReadConfig::default(), false).err().unwrap();
    assert_eq!(e.meta_errors.len(), 1);
}

#[test]
fn nonstandard_grouped_in_text() {
    let raw = raw_of(b"|$PAR|1|$TOT|1|$MODE|L|$DATATYPE|I|$BYTEORD|1,2,3,4|$P1B|8|$P1R|256|P1COLOR|red|OTHER|x|");
    let conf = StdTextReadConfig { nonstandard_measurement_pattern: Some("^P%n".to_string()), ..StdTextReadConfig::default() };
    let p = std_text(&raw, Version::FCS3_0, &conf, false).ok().unwrap();
    assert_eq!(p.measurement_nonstandard, vec![vec![("P1COLOR".to_string(), "red".to_string())]]);
    assert_eq!(p.errors.nonstandard_keywords, vec![("OTHER".to_string(), "x".to_string())]);
}

#[test]
fn lookup_returns_value_and_marks_deprecated() {
    let raw = raw_of(b"|$TOT|42|");
    let mut st = raw.to_state();
    assert_eq!(st.lookup_required::<u32>("$TOT", true), Some(42));
    assert_eq!(st.deprecated_keys, vec!["$TOT".to_string()]);
}
