use num::BigInt;
use rust_decimal::Decimal;
use std::str::FromStr;
use tuning_tool::cli::{parse_reference, ReferenceError};
use tuning_tool::error::{Error, ParseIntError};
use tuning_tool::interval::Interval;
use tuning_tool::kbm_file::KbmFile;
use tuning_tool::key_frequency_mapping::{IntervalInfo, KeyDegreeMapping};
use tuning_tool::keyboard_mapping::{KeyMapping, KeyMappings, KeyboardMapping, Reference};
use tuning_tool::midi_note::MidiNote;
use tuning_tool::scala_dump::parse_scala_tuning_dump;
use tuning_tool::scale::Scale;
use tuning_tool::scl_file::SclFile;
use tuning_tool::u7::{KeyNumber, NoteNumber, U7};

fn chars(s: &str) -> Vec<char> {
    s.chars().collect()
}

fn key(v: u8) -> KeyNumber {
    KeyNumber::from_u8_lossy(v)
}

fn interval(s: &str) -> Interval {
    Interval::from_chars(&chars(s)).expect("Must be an interval")
}

fn edo12() -> Scale {
    let mut intervals = (1..12)
        .map(|i| interval(&format!("{}.0", i * 100)))
        .collect::<Vec<_>>();
    intervals.push(interval("2/1"));
    Scale::new(intervals).expect("Must succeed")
}

fn reference(zero: u8, reference: u8) -> Reference<Vec<char>> {
    Reference::new(key(zero), key(reference), chars("440"))
}

#[test]
fn blank_description() {
    let s = "! blank-description.scl\n!\n\n 2\n!\n 150.5\n 2/1\n";
    let scl_file = SclFile::from_str(s).expect("Must parse");
    let file_name = scl_file.file_name();
    assert!(file_name.is_some() || file_name.is_none());
    assert_eq!(&Some(chars("blank-description.scl")), file_name);
    assert!(scl_file.description().is_empty());
    assert_eq!(2, scl_file.scale().intervals().len());
}

#[test]
fn scl_file_basics() {
    let s = "! carlos_super.scl\n!\nCarlos Super Just\n 3\n!\n 17/16\n 150.0 cents\n 2/1\n";
    let scl_file = SclFile::from_str(s).expect("Must parse");
    assert_eq!(&Some(chars("carlos_super.scl")), scl_file.file_name());
    assert_eq!(&chars("Carlos Super Just"), scl_file.description());
    let intervals = scl_file.scale().intervals();
    assert_eq!(3, intervals.len());
    match &intervals[1] {
        Interval::Cents(d) => assert_eq!(Decimal::from_str("150.0").unwrap(), *d),
        Interval::Ratio(_) => panic!("Expected cents"),
    }
}

#[test]
fn scl_file_without_file_name() {
    let s = "Just a description\n1\n2/1\n";
    let scl_file = SclFile::from_str(s).expect("Must parse");
    assert_eq!(&None, scl_file.file_name());
    assert_eq!(&chars("Just a description"), scl_file.description());
}

#[test]
fn scl_file_errors() {
    assert_eq!(Some(Error::InvalidTuningString), SclFile::from_str("").err());
    assert_eq!(Some(Error::NoDescription), SclFile::from_str("! x.scl\n! only comments\n").err());
    assert_eq!(Some(Error::NoIntervalCount), SclFile::from_str("description\n\n").err());
    assert_eq!(
        Some(Error::ParseInt(ParseIntError::InvalidDigit)),
        SclFile::from_str("description\nthree\n").err()
    );
    assert_eq!(Some(Error::IncorrectNumberOfNotes), SclFile::from_str("d\n2\n2/1\n").err());
    assert_eq!(Some(Error::EmptyScale), SclFile::from_str("d\n0\n").err());
    assert_eq!(Some(Error::InvalidCents), SclFile::from_str("d\n1\n1.2.3\n").err());
    assert_eq!(Some(Error::InvalidRatio), SclFile::from_str("d\n1\n3/0\n").err());
}

#[test]
fn interval_parsing() {
    match interval("  19/17 ! comment") {
        Interval::Ratio(r) => {
            assert_eq!(BigInt::from(19), *r.numer());
            assert_eq!(BigInt::from(17), *r.denom());
        }
        Interval::Cents(_) => panic!("Expected a ratio"),
    }
    match interval("150.5") {
        Interval::Cents(d) => assert_eq!(Decimal::from_str("150.5").unwrap(), d),
        Interval::Ratio(_) => panic!("Expected cents"),
    }
    match interval("2") {
        Interval::Ratio(r) => assert_eq!(BigInt::from(2), *r.numer()),
        Interval::Cents(_) => panic!("Expected a ratio"),
    }
    assert_eq!(Some(Error::InvalidInterval), Interval::from_chars(&chars("   ")).err());
    assert_eq!(Some(Error::InvalidCents), Interval::from_chars(&chars("1.x")).err());
    assert_eq!(Some(Error::InvalidRatio), Interval::from_chars(&chars("a/b")).err());
}

const LINEAR_KBM: &str = "! example.kbm
! Size of map:
12
! First MIDI note number to retune:
0
! Last MIDI note number to retune:
127
! Middle note where the first entry of the mapping is mapped to:
60
! Reference note for which frequency is given:
69
! Frequency to tune the above note to
440.0
! Scale degree to consider as formal octave:
12
! Mapping.
0
1
2
3
4
5
6
7
8
9
10
11
";

#[test]
fn kbm_file_linear() {
    let kbm = KbmFile::from_str(LINEAR_KBM).expect("Must parse");
    let mapping = kbm.keyboard_mapping();
    assert_eq!(0, mapping.start_key().to_u8());
    assert_eq!(127, mapping.end_key().to_u8());
    assert_eq!(60, mapping.reference().zero_key().to_u8());
    assert_eq!(69, mapping.reference().reference_key().to_u8());
    assert_eq!(&chars("440.0"), mapping.reference().reference_frequency());
    assert!(matches!(mapping.key_mappings(), KeyMappings::Linear));
}

#[test]
fn kbm_file_sparse() {
    let s = "5\n10\n20\n12\n14\n261.6\n3\n0\nx\n1\n\n! a comment\nx\n2\n";
    let kbm = KbmFile::from_str(s).expect("Must parse");
    let mapping = kbm.keyboard_mapping();
    assert_eq!(10, mapping.start_key().to_u8());
    assert_eq!(20, mapping.end_key().to_u8());
    match mapping.key_mappings() {
        KeyMappings::Custom(v) => assert_eq!(
            &vec![
                KeyMapping::Degree(0),
                KeyMapping::Unmapped,
                KeyMapping::Degree(1),
                KeyMapping::Unmapped,
                KeyMapping::Degree(2),
            ],
            v
        ),
        KeyMappings::Linear => panic!("Expected a custom mapping"),
    }
}

#[test]
fn kbm_file_errors() {
    assert_eq!(Some(Error::StreamExhausted), KbmFile::from_str("").err());
    assert_eq!(Some(Error::InvalidSize), KbmFile::from_str("128\n").err());
    assert_eq!(
        Some(Error::OutOfRange(200)),
        KbmFile::from_str("0\n200\n127\n60\n69\n440\n12\n").err()
    );
    assert_eq!(
        Some(Error::InvalidEndKey),
        KbmFile::from_str("0\n100\n50\n60\n69\n440\n12\n").err()
    );
    assert_eq!(
        Some(Error::InvalidKbmFile),
        KbmFile::from_str("0\n0\n127\n60\n69\n440\n12\nextra\n").err()
    );
    assert_eq!(
        Some(Error::StreamExhausted),
        KbmFile::from_str("2\n0\n127\n60\n69\n440\n12\n0\n").err()
    );
    assert_eq!(
        Some(Error::ParseInt(ParseIntError::InvalidDigit)),
        KbmFile::from_str("1\n0\n127\n60\n69\n440\n12\ny\n").err()
    );
}

#[test]
fn keyboard_mapping_end_before_start() {
    let r = KeyboardMapping::new(key(10), key(9), reference(69, 69), KeyMappings::Linear);
    assert_eq!(Some(Error::InvalidEndKey), r.err());
    let m = KeyboardMapping::new(key(9), key(9), reference(69, 69), KeyMappings::Linear)
        .expect("Must succeed");
    assert_eq!(9, m.start_key().to_u8());
    let full = KeyboardMapping::new_full_linear(reference(60, 69)).expect("Must succeed");
    assert_eq!(0, full.start_key().to_u8());
    assert_eq!(127, full.end_key().to_u8());
}

fn at(all: &[Option<KeyDegreeMapping>], i: usize) -> (usize, i32) {
    let m = all[i].expect("Must be mapped");
    assert_eq!(i as u8, m.key.to_u8());
    (m.degree, m.equave)
}

#[test]
fn key_degrees_12edo_a4_at_69() {
    let all = KeyDegreeMapping::compute_all(&edo12(), key(69), key(69), &KeyMappings::Linear)
        .expect("Must succeed");
    assert_eq!(128, all.len());
    assert_eq!((0, 0), at(&all, 69));
    assert_eq!((1, 0), at(&all, 70));
    assert_eq!((11, -1), at(&all, 68));
    assert_eq!((0, 1), at(&all, 81));
    assert_eq!((3, -6), at(&all, 0));
    assert_eq!((10, 4), at(&all, 127));
}

#[test]
fn key_degrees_repeat_every_equave() {
    let all = KeyDegreeMapping::compute_all(&edo12(), key(60), key(69), &KeyMappings::Linear)
        .expect("Must succeed");
    assert_eq!(0, at(&all, 60).0);
    assert_eq!(0, at(&all, 69).1);
    for i in 0..(128 - 12) {
        let (d0, e0) = at(&all, i);
        let (d1, e1) = at(&all, i + 12);
        assert_eq!(d0, d1);
        assert_eq!(e0 + 1, e1);
    }
}

#[test]
fn key_degrees_sparse() {
    let three = Scale::new(vec![interval("5/4"), interval("3/2"), interval("2/1")]).unwrap();
    let mappings = KeyMappings::Custom(vec![
        KeyMapping::Degree(0),
        KeyMapping::Unmapped,
        KeyMapping::Degree(2),
    ]);
    let all = KeyDegreeMapping::compute_all(&three, key(0), key(2), &mappings).expect("Must succeed");
    assert_eq!((0, -1), at(&all, 0));
    assert!(all[1].is_none());
    assert_eq!((2, 0), at(&all, 2));
    assert_eq!((0, 0), at(&all, 3));
    assert!(all[4].is_none());
    assert_eq!((2, 1), at(&all, 5));

    let m = KeyboardMapping::new(key(0), key(5), reference(0, 2), mappings).unwrap();
    let mapped = KeyDegreeMapping::compute(&three, &m).expect("Must succeed");
    let keys = mapped.iter().map(|m| m.key.to_u8()).collect::<Vec<_>>();
    assert_eq!(vec![0u8, 2, 3, 5], keys);
}

#[test]
fn key_degrees_errors() {
    let three = Scale::new(vec![interval("5/4"), interval("3/2"), interval("2/1")]).unwrap();
    let missing = KeyMappings::Custom(vec![KeyMapping::Degree(1), KeyMapping::Degree(3)]);
    assert_eq!(
        Some(Error::DegreeNotInScale(3)),
        KeyDegreeMapping::compute_all(&three, key(0), key(0), &missing).err()
    );
    let unmapped = KeyMappings::Custom(vec![KeyMapping::Degree(0), KeyMapping::Unmapped]);
    assert_eq!(
        Some(Error::ReferenceKeyNotMapped),
        KeyDegreeMapping::compute_all(&three, key(0), key(1), &unmapped).err()
    );
}

#[test]
fn interval_info_select() {
    assert_eq!(
        Ok(vec![
            IntervalInfo::Mapping { degree: 0 },
            IntervalInfo::Mapping { degree: 1 },
        ]),
        IntervalInfo::select(2, &KeyMappings::Linear)
    );
    assert_eq!(
        Ok(vec![IntervalInfo::Unmapped, IntervalInfo::Mapping { degree: 1 }]),
        IntervalInfo::select(
            2,
            &KeyMappings::Custom(vec![KeyMapping::Unmapped, KeyMapping::Degree(1)])
        )
    );
}

#[test]
fn key_degrees_subrange() {
    let m = KeyboardMapping::new(key(60), key(72), reference(69, 69), KeyMappings::Linear).unwrap();
    let mapped = KeyDegreeMapping::compute(&edo12(), &m).expect("Must succeed");
    assert_eq!(13, mapped.len());
    assert_eq!(60, mapped[0].key.to_u8());
    assert_eq!(3, mapped[0].degree);
    assert_eq!(-1, mapped[0].equave);
    assert_eq!(72, mapped[12].key.to_u8());
}

#[test]
fn parse_reference_default() {
    for s in ["default", "DEFAULT", "DeFaUlT"] {
        let r = parse_reference(s).expect("Must succeed");
        assert_eq!(69, r.zero_key().to_u8());
        assert_eq!(69, r.reference_key().to_u8());
        assert_eq!(&chars("440"), r.reference_frequency());
    }
}

#[test]
fn parse_reference_fields() {
    let r = parse_reference("60,69,432.5").expect("Must succeed");
    assert_eq!(60, r.zero_key().to_u8());
    assert_eq!(69, r.reference_key().to_u8());
    assert_eq!(&chars("432.5"), r.reference_frequency());
    assert_eq!(Some(ReferenceError::InvalidReference), parse_reference("60,69").err());
    assert_eq!(Some(ReferenceError::InvalidReference), parse_reference("defaults").err());
    assert_eq!(Some(ReferenceError::InvalidZeroKey), parse_reference("128,69,440").err());
    assert_eq!(Some(ReferenceError::InvalidZeroKey), parse_reference(" 60,69,440").err());
    assert_eq!(Some(ReferenceError::InvalidReferenceKey), parse_reference("60,x,440").err());
}

#[test]
fn concert_a() {
    let midi_note = MidiNote::all()[69].clone();
    assert_eq!(69, midi_note.note_number().to_u8());
    assert_eq!("A4", midi_note.name());
}

#[test]
fn midi_note_names() {
    let all = MidiNote::all();
    assert_eq!(128, all.len());
    assert_eq!("C-1", all[0].name());
    assert_eq!("C#-1", all[1].name());
    assert_eq!("C4", all[60].name());
    assert_eq!("A#4", all[70].name());
    assert_eq!("G9", all[127].name());
    for (i, note) in all.iter().enumerate() {
        assert_eq!(i as u8, note.note_number().to_u8());
    }
    assert_eq!("E5", MidiNote::new(NoteNumber::from_u8_lossy(76)).name());
}

#[test]
fn scala_tuning_dump_with_header() {
    let s = "Tuning dump\nkey: frequency\n|\n  0: 8.175799 Hz  C\n  1: 8.661957 Hz\n 69: 440.000000 Hz A\n";
    let entries = parse_scala_tuning_dump(s, true).expect("Must succeed");
    assert_eq!(3, entries.len());
    assert_eq!(0, entries[0].0.to_u8());
    assert_eq!(chars("8.175799"), entries[0].1);
    assert_eq!(69, entries[2].0.to_u8());
    assert_eq!(chars("440.000000"), entries[2].1);
}

#[test]
fn scala_tuning_dump_errors() {
    assert!(parse_scala_tuning_dump("no header\n", true).expect("Must succeed").is_empty());
    assert_eq!(Some(Error::DumpKeyNotFound), parse_scala_tuning_dump("0 8.1 Hz\n", false).err());
    assert_eq!(Some(Error::DumpInvalidKey), parse_scala_tuning_dump("128: 8.1 Hz\n", false).err());
    assert_eq!(
        Some(Error::DumpUnexpectedKey(1)),
        parse_scala_tuning_dump("2: 8.1 Hz\n1: 8.1 Hz\n", false).err()
    );
    assert_eq!(Some(Error::DumpFrequencyNotFound), parse_scala_tuning_dump("2: 8.1\n", false).err());
    let same = parse_scala_tuning_dump("2: 8.1 Hz\n2: 9.1 Hz\n", false).expect("Must succeed");
    assert_eq!(2, same.len());
}

#[test]
fn kbm_file_invalid_frequency() {
    assert_eq!(
        Some(Error::InvalidFrequency),
        KbmFile::from_str("0\n0\n127\n60\n69\nabc\n12\n").err()
    );
    assert_eq!(
        Some(Error::InvalidFrequency),
        KbmFile::from_str("0\n0\n127\n60\n69\n4 40\nxx\n").err()
    );
}

#[test]
fn parse_reference_frequency_text_matches_f64() {
    let texts = [
        "440", "432.5", "-1.5e3", "1E+5", ".5", "5.", "+.5e-2", "INF", "-inf", "+Infinity", "nan",
        "NaN", "abc", "", ".", "1e", "e5", "1.2.3", "1e5.0", "--1", "+", "1_000", "0x10", "inf1",
        "infin", "1..2", "1e+", "١",
    ];
    for text in texts {
        let s = format!("60,69,{text}");
        let r = parse_reference(&s);
        if text.parse::<f64>().is_ok() {
            let r = r.expect("Must succeed");
            assert_eq!(&chars(text), r.reference_frequency());
        } else {
            assert_eq!(Some(ReferenceError::InvalidReferenceFrequency), r.err(), "{text}");
        }
    }
}

#[test]
fn scala_tuning_dump_frequency_errors() {
    assert_eq!(Some(Error::InvalidFrequency), parse_scala_tuning_dump("1: abc Hz\n", false).err());
    assert_eq!(
        Some(Error::DumpUnexpectedKey(1)),
        parse_scala_tuning_dump("2: 8 Hz\n1:x\n", false).err()
    );
}
