use troll_names::data_processing::{
    generate_data, parse_gender, sort_by_start, split, DataError, Gender, Name, NameRecord, NameSegment,
    OutputRecord, PartEntry, Position, SegmentKind, UNIT,
};
use troll_names::tally::gender_ratio;

fn record(name: &str, syllables: &str, first_part: Option<usize>, gender: &str) -> NameRecord {
    NameRecord {
        name: name.to_string(),
        clean_name: name.to_lowercase(),
        syllables: syllables.to_string(),
        count: 1,
        first_part,
        gender: gender.to_string(),
    }
}

fn find<'a>(rows: &'a [OutputRecord], text: &str) -> &'a OutputRecord {
    rows.iter().find(|r| r.str == text).unwrap()
}

#[test]
fn part_entry_constructors_tag_the_position() {
    assert_eq!(
        PartEntry::first("zan".to_string(), 1),
        PartEntry { value: "zan".to_string(), len: 1, position: Position::First }
    );
    assert_eq!(
        PartEntry::second("gar".to_string(), 2),
        PartEntry { value: "gar".to_string(), len: 2, position: Position::Second }
    );
    assert_eq!(
        PartEntry::lone("zul".to_string(), 1),
        PartEntry { value: "zul".to_string(), len: 1, position: Position::Lone }
    );
}

#[test]
fn split_cuts_at_every_separator() {
    assert_eq!(split("zan.gar", '.'), vec!["zan".to_string(), "gar".to_string()]);
    assert_eq!(split("zul", '.'), vec!["zul".to_string()]);
    assert_eq!(split("", '.'), vec!["".to_string()]);
    assert_eq!(split("a..b.", '.'), vec!["a", "", "b", ""]);
}

#[test]
fn single_syllable_name_is_one_lone_hypothesis() {
    let n = Name::from_record(record("Zul", "zul", None, "m")).unwrap();
    assert_eq!(n.syllables, vec!["zul".to_string()]);
    assert!(n.guaranteed_parts.is_empty());
    assert_eq!(n.possible_parts, vec![PartEntry::lone("zul".to_string(), 1)]);
    assert_eq!(n.gender, Gender::Male);
}

#[test]
fn declared_boundary_gives_two_guaranteed_parts() {
    let n = Name::from_record(record("Zan'gar", "zan.gar", Some(1), "m")).unwrap();
    assert_eq!(
        n.guaranteed_parts,
        vec![PartEntry::first("zan".to_string(), 1), PartEntry::second("gar".to_string(), 1)]
    );
    assert!(n.possible_parts.is_empty());
    let whole = format!("{}{}", n.guaranteed_parts[0].value, n.guaranteed_parts[1].value);
    assert_eq!(whole, n.syllables.concat());
}

#[test]
fn declared_boundary_splits_longer_names() {
    let n = Name::from_record(record("Vol'jamba", "vol.jam.ba", Some(1), "f")).unwrap();
    assert_eq!(
        n.guaranteed_parts,
        vec![PartEntry::first("vol".to_string(), 1), PartEntry::second("jamba".to_string(), 2)]
    );
    assert_eq!(n.gender, Gender::Female);
}

#[test]
fn undeclared_boundary_enumerates_every_split() {
    let n = Name::from_record(record("Rastakhan", "ras.ta.khan", None, "x")).unwrap();
    assert!(n.guaranteed_parts.is_empty());
    assert_eq!(
        n.possible_parts,
        vec![
            PartEntry::first("ras".to_string(), 1),
            PartEntry::second("takhan".to_string(), 2),
            PartEntry::first("rasta".to_string(), 2),
            PartEntry::second("khan".to_string(), 1),
        ]
    );
    assert_eq!(n.gender, Gender::Unknown);
}

#[test]
fn hypothesis_count_is_twice_the_boundaries() {
    for n in 2usize..9 {
        let syllables = vec!["ka"; n].join(".");
        let name = Name::from_record(record("K", &syllables, None, "m")).unwrap();
        assert_eq!(name.possible_parts.len(), 2 * (n - 1));
    }
}

#[test]
fn boundary_out_of_range_is_rejected() {
    assert_eq!(
        Name::from_record(record("Zan'gar", "zan.gar", Some(0), "m")),
        Err(DataError::BoundaryOutOfRange)
    );
    assert_eq!(
        Name::from_record(record("Zan'gar", "zan.gar", Some(2), "m")),
        Err(DataError::BoundaryOutOfRange)
    );
    assert_eq!(
        Name::from_record(record("Zan'gar", "zan.gar", Some(7), "m")),
        Err(DataError::BoundaryOutOfRange)
    );
    assert_eq!(
        Name::from_record(record("Zul", "zul", Some(1), "m")),
        Err(DataError::BoundaryOutOfRange)
    );
}

#[test]
fn gender_codes() {
    assert_eq!(parse_gender("m"), Some(Gender::Male));
    assert_eq!(parse_gender("f"), Some(Gender::Female));
    assert_eq!(parse_gender("x"), Some(Gender::Unknown));
    assert_eq!(parse_gender("M"), Some(Gender::Unknown));
    assert_eq!(parse_gender(""), Some(Gender::Unknown));
    assert_eq!(parse_gender("male"), None);
}

#[test]
fn unreadable_gender_is_rejected() {
    assert_eq!(
        Name::from_record(record("Zan'gar", "zan.gar", Some(1), "male")),
        Err(DataError::UnreadableGender)
    );
    assert_eq!(
        Name::from_record(record("Zan'gar", "zan.gar", Some(2), "male")),
        Err(DataError::BoundaryOutOfRange)
    );
    assert_eq!(Name::from_record(record("Zul", "zul", None, "")).unwrap().gender, Gender::Unknown);
}

#[test]
fn first_bad_record_names_the_error() {
    let records = vec![
        record("Zan'gar", "zan.gar", Some(1), "m"),
        record("Zul", "zul", None, "fm"),
        record("Mok", "mok", Some(1), "m"),
    ];
    assert_eq!(generate_data(&records), Err(DataError::UnreadableGender));
}

#[test]
fn one_bad_record_fails_the_whole_load() {
    let records = vec![
        record("Zan'gar", "zan.gar", Some(1), "m"),
        record("Zul", "zul", Some(3), "m"),
    ];
    assert_eq!(generate_data(&records), Err(DataError::BoundaryOutOfRange));
}

#[test]
fn large_corpora_are_analysed() {
    let one = record("A", "a", None, "m");
    let mut records = vec![one; 300_000];
    records.push(record("B", "b.a", Some(1), "f"));
    let (s, p, names) = generate_data(&records).unwrap();
    assert_eq!(names.len(), 300_001);
    assert_eq!(s[0].str, "a");
    assert_eq!(s[0].start_val, 300_000 * UNIT);
    assert_eq!(s[0].end_val, UNIT);
    assert_eq!(find(&p, "a").overall_val, 600_001 * UNIT);
}

#[test]
fn syllable_rows_come_by_start_score() {
    let records = vec![
        record("A", "a", None, "m"),
        record("B", "b", None, "m"),
        record("B", "b", None, "f"),
    ];
    let (s, p, _) = generate_data(&records).unwrap();
    let order: Vec<(&str, u64)> = s.iter().map(|r| (r.str.as_str(), r.start_val)).collect();
    assert_eq!(order, vec![("b", 2 * UNIT), ("a", UNIT)]);
    let parts: Vec<&str> = p.iter().map(|r| r.str.as_str()).collect();
    assert_eq!(parts, vec!["a", "b"]);
}

#[test]
fn sorting_keeps_every_row() {
    let mut rows = Vec::new();
    for (text, start) in [("a", 3), ("b", 9), ("c", 0), ("d", 9), ("e", 4), ("f", 1)] {
        rows.push(OutputRecord {
            segment_kind: SegmentKind::Syllable,
            str: text.to_string(),
            overall_val: start,
            start_val: start,
            middle_val: 0,
            end_val: 0,
            names: text.to_string(),
            gender_ratio: 7,
        });
    }
    let sorted = sort_by_start(rows.clone());
    let starts: Vec<u64> = sorted.iter().map(|r| r.start_val).collect();
    assert_eq!(starts, vec![9, 9, 4, 3, 1, 0]);
    for row in &rows {
        assert_eq!(sorted.iter().filter(|r| *r == row).count(), 1);
    }
    assert_eq!(sort_by_start(Vec::new()), Vec::new());
}

#[test]
fn part_rows_have_no_middle_score() {
    let records = vec![
        record("Rastakhan", "ras.ta.khan", None, "m"),
        record("Zan'gar", "zan.gar", Some(1), "f"),
        record("Zul", "zul", None, "m"),
    ];
    let (_, p, _) = generate_data(&records).unwrap();
    for row in &p {
        assert_eq!(row.middle_val, 0);
        assert_eq!(row.overall_val, row.start_val + row.end_val);
    }
}

#[test]
fn empty_corpus_gives_empty_tables() {
    let (s, p, n) = generate_data(&Vec::new()).unwrap();
    assert!(s.is_empty() && p.is_empty() && n.is_empty());
}

#[test]
fn syllables_are_tallied_by_role() {
    let records = vec![
        record("Rastakhan", "ras.ta.khan", None, "m"),
        record("Takhan", "ta.khan", None, "f"),
        record("Zul", "zul", None, "m"),
    ];
    let (s, _, names) = generate_data(&records).unwrap();
    assert_eq!(names.len(), 3);
    let mut order: Vec<&str> = s.iter().map(|r| r.str.as_str()).collect();
    assert_eq!(order[3], "khan");
    order.sort();
    assert_eq!(order, vec!["khan", "ras", "ta", "zul"]);
    assert!(s.windows(2).all(|w| w[0].start_val >= w[1].start_val));
    let ta = find(&s, "ta");
    assert_eq!(ta.segment_kind, SegmentKind::Syllable);
    assert_eq!(ta.start_val, UNIT);
    assert_eq!(ta.middle_val, UNIT);
    assert_eq!(ta.end_val, 0);
    assert_eq!(ta.overall_val, 2 * UNIT);
    assert_eq!(ta.names, "Takhan;Rastakhan");
    let khan = find(&s, "khan");
    assert_eq!((khan.start_val, khan.middle_val, khan.end_val), (0, 0, 2 * UNIT));
    assert_eq!(khan.names, "Rastakhan;Takhan");
    let zul = find(&s, "zul");
    assert_eq!((zul.start_val, zul.middle_val, zul.end_val), (UNIT, 0, 0));
}

#[test]
fn guaranteed_parts_carry_whole_credit() {
    let records = vec![record("Zan'gar", "zan.gar", Some(1), "m")];
    let (_, p, _) = generate_data(&records).unwrap();
    assert_eq!(p.len(), 2);
    assert_eq!(p[0].str, "zan");
    assert_eq!(p[0].segment_kind, SegmentKind::Part);
    assert_eq!((p[0].start_val, p[0].middle_val, p[0].end_val, p[0].overall_val), (UNIT, 0, 0, UNIT));
    assert_eq!(p[1].str, "gar");
    assert_eq!((p[1].start_val, p[1].middle_val, p[1].end_val, p[1].overall_val), (0, 0, UNIT, UNIT));
    assert_eq!(p[0].names, "Zan'gar");
}

#[test]
fn hypotheses_of_one_name_share_two_credits() {
    let records = vec![record("Rastakhan", "ras.ta.khan", None, "m")];
    let (_, p, _) = generate_data(&records).unwrap();
    assert_eq!(p.len(), 4);
    for row in &p {
        assert_eq!(row.overall_val, UNIT / 2);
    }
    let total: u64 = p.iter().map(|r| r.overall_val).sum();
    assert_eq!(total, 2 * UNIT);
    let records = vec![record("Ka", "ka.la", None, "m")];
    let (_, p, _) = generate_data(&records).unwrap();
    let total: u64 = p.iter().map(|r| r.overall_val).sum();
    assert_eq!(total, 2 * UNIT);
}

#[test]
fn lone_name_splits_its_credit_between_start_and_end() {
    let records = vec![record("Zul", "zul", None, "m")];
    let (_, p, _) = generate_data(&records).unwrap();
    assert_eq!(p.len(), 1);
    assert_eq!((p[0].start_val, p[0].end_val, p[0].overall_val), (UNIT, UNIT, 2 * UNIT));
    assert_eq!(p[0].names, "Zul;Zul");
}

#[test]
fn credits_are_rounded_down_to_the_fixed_point() {
    let records = vec![record("Kalimazo", "ka.li.ma.zo", None, "m")];
    let (_, p, _) = generate_data(&records).unwrap();
    assert_eq!(p.len(), 6);
    for row in &p {
        assert_eq!(row.overall_val, 333_333);
    }
}

#[test]
fn parts_with_equal_text_and_different_length_are_kept_apart() {
    let records = vec![
        record("Aaka", "a.a.ka", None, "m"),
        record("Aaka", "aa.ka", None, "m"),
    ];
    let (_, p, _) = generate_data(&records).unwrap();
    let aa: Vec<&OutputRecord> = p.iter().filter(|r| r.str == "aa").collect();
    assert_eq!(aa.len(), 2);
    assert_eq!(aa[0].start_val, UNIT / 2);
    assert_eq!(aa[1].start_val, UNIT);
    let ka: Vec<&OutputRecord> = p.iter().filter(|r| r.str == "ka").collect();
    assert_eq!(ka.len(), 1);
    assert_eq!(ka[0].end_val, UNIT + UNIT / 2);
    assert_eq!(ka[0].names, "Aaka;Aaka");
}

#[test]
fn gender_ratio_formula() {
    assert_eq!(gender_ratio(2, 2, 2, 1), Some(333_333));
    assert_eq!(gender_ratio(4, 2, 2, 1), Some(500_000));
    assert_eq!(gender_ratio(2, 2, 1, 1), Some(500_000));
    assert_eq!(gender_ratio(1, 1, 3, 1), Some(250_000));
}

#[test]
fn gender_ratio_saturates_for_one_sided_segments() {
    assert_eq!(gender_ratio(6, 0, 3, 2), Some(UNIT));
    assert_eq!(gender_ratio(0, 6, 3, 2), Some(0));
}

#[test]
fn gender_ratio_is_neutral_without_counts() {
    assert_eq!(gender_ratio(0, 0, 3, 2), Some(UNIT / 2));
    assert_eq!(gender_ratio(4, 2, 0, 2), Some(UNIT / 2));
    assert_eq!(gender_ratio(4, 2, 3, 0), Some(UNIT / 2));
    assert_eq!(gender_ratio(0, 0, 0, 0), Some(UNIT / 2));
}

#[test]
fn gender_ratio_that_does_not_fit_is_refused() {
    assert_eq!(gender_ratio(u128::MAX, 1, 2, 1), None);
    assert_eq!(gender_ratio(u128::MAX / 1_000_000 + 1, 0, 1, 1), None);
    assert_eq!(gender_ratio(u128::MAX / 1_000_000, 0, 1, 1), Some(UNIT));
    assert_eq!(gender_ratio(1, u128::MAX, 2, 1), None);
    assert_eq!(gender_ratio(u128::MAX, u128::MAX, 0, 1), Some(UNIT / 2));
}

#[test]
fn gender_ratio_stays_in_range() {
    for male in 0u128..12 {
        for female in 0u128..12 {
            for males in 0usize..5 {
                for females in 0usize..5 {
                    assert!(gender_ratio(male, female, males, females).unwrap() <= UNIT);
                }
            }
        }
    }
}

#[test]
fn records_carry_the_rescaled_gender_ratio() {
    let records = vec![
        record("Zan'gar", "zan.gar", Some(1), "m"),
        record("Zan'jin", "zan.jin", Some(1), "m"),
        record("Zan'ja", "zan.ja", Some(1), "f"),
        record("Mok", "mok", None, "?"),
    ];
    let (s, p, _) = generate_data(&records).unwrap();
    assert_eq!(find(&s, "zan").gender_ratio, 500_000);
    assert_eq!(find(&p, "zan").gender_ratio, 500_000);
    assert_eq!(find(&s, "gar").gender_ratio, UNIT);
    assert_eq!(find(&s, "ja").gender_ratio, 0);
    assert_eq!(find(&s, "mok").gender_ratio, 333_333);
}

#[test]
fn corpus_of_one_gender_is_neutral_everywhere() {
    let records = vec![
        record("Zan'gar", "zan.gar", Some(1), "m"),
        record("Zul", "zul", None, "m"),
    ];
    let (s, p, _) = generate_data(&records).unwrap();
    for row in s.iter().chain(p.iter()) {
        assert_eq!(row.gender_ratio, UNIT / 2);
    }
}

#[test]
fn segment_keeps_kind_text_and_scores() {
    let row = OutputRecord {
        segment_kind: SegmentKind::Part,
        str: "zan".to_string(),
        overall_val: 7_500_000,
        start_val: 4_000_000,
        middle_val: 1_250_000,
        end_val: 2_250_000,
        names: "Zan'gar;Zan'jin".to_string(),
        gender_ratio: 640_000,
    };
    let seg = NameSegment::from_record(&row);
    assert_eq!(seg.segment_kind, SegmentKind::Part);
    assert_eq!(seg.str, "zan");
    assert_eq!(seg.positional_data.overall, 7_500_000);
    assert_eq!(seg.positional_data.start, 4_000_000);
    assert_eq!(seg.positional_data.middle, 1_250_000);
    assert_eq!(seg.positional_data.end, 2_250_000);
    assert_eq!(seg.gender_ratio, 640_000);
    assert_eq!(seg.derived_names, vec!["Zan'gar".to_string(), "Zan'jin".to_string()]);
    assert_eq!(seg.duplicate(), seg);
}

#[test]
fn apostrophe_segment_is_the_separator() {
    let a = NameSegment::apostrophe();
    assert_eq!(a.segment_kind, SegmentKind::Apostrophe);
    assert_eq!(a.str, "'");
    assert!(a.derived_names.is_empty());
}
