use rand::rngs::StdRng;
use rand::SeedableRng;
use troll_names::data_processing::{
    generate_data, segments_from, NameRecord, NameSegment, PositionalData, SegmentKind, UNIT,
};
use troll_names::name_gen::{
    allows_cluster, build_weights, choose_shape, choose_side, compose, compose_all, first_chance,
    generate_names_from_parts, insertion_at, insertion_pool, materialize, pool_total, reserved,
    shrink, GenError, GeneratedName, Insertion, NameDraws, NameGenOptions, PoolKind, Shape, Side,
    StepDraws,
};

fn record(name: &str, syllables: &str, first_part: Option<usize>, gender: &str) -> NameRecord {
    NameRecord {
        name: name.to_string(),
        clean_name: name.to_lowercase(),
        syllables: syllables.to_string(),
        count: 1,
        first_part,
        gender: gender.to_string(),
    }
}

fn part(text: &str, start: u64, end: u64) -> NameSegment {
    NameSegment {
        segment_kind: SegmentKind::Part,
        str: text.to_string(),
        derived_names: vec![text.to_string()],
        positional_data: PositionalData { start, middle: 0, end, overall: start + end },
        gender_ratio: UNIT / 2,
    }
}

fn syllable(text: &str, middle: u64) -> NameSegment {
    NameSegment {
        segment_kind: SegmentKind::Syllable,
        str: text.to_string(),
        derived_names: vec![text.to_string()],
        positional_data: PositionalData { start: 0, middle, end: 0, overall: middle },
        gender_ratio: UNIT / 4,
    }
}

fn options(length: u64, amount: usize, omit_reserved: bool) -> NameGenOptions {
    NameGenOptions { length, amount, gender_ratio: UNIT / 2, omit_reserved }
}

fn pools() -> (Vec<NameSegment>, Vec<NameSegment>) {
    let parts = vec![
        part("zan", 5 * UNIT, UNIT),
        part("gar", UNIT, 4 * UNIT),
        part("jin", 9 * UNIT, 9 * UNIT),
        part("zul", 9 * UNIT, 9 * UNIT),
        part("fon", 9 * UNIT, 9 * UNIT),
        part("zen", 9 * UNIT, 9 * UNIT),
        part("ako", 3 * UNIT, 3 * UNIT),
    ];
    let syllables = vec![
        syllable("ta", 3 * UNIT),
        syllable("ra", 2 * UNIT),
        syllable("kal", UNIT),
        syllable("a", UNIT),
        syllable("el", UNIT),
        syllable("xx", 0),
    ];
    (parts, syllables)
}

#[test]
fn default_options() {
    let o = NameGenOptions::default();
    assert_eq!(o.length, 2 * UNIT);
    assert_eq!(o.amount, 10);
    assert_eq!(o.gender_ratio, UNIT / 2);
    assert!(!o.omit_reserved);
}

#[test]
fn reserved_parts_are_the_four_titles() {
    for r in ["jin", "fon", "zen", "zul"] {
        assert!(reserved(r));
    }
    for r in ["", "ji", "jina", "Jin", "zan", "zu"] {
        assert!(!reserved(r));
    }
}

#[test]
fn weights_follow_the_scores() {
    let (parts, syllables) = pools();
    assert_eq!(
        build_weights(PoolKind::Part, &parts, true),
        vec![3 * UNIT, 2 * UNIT + UNIT / 2, 0, 0, 0, 0, 3 * UNIT]
    );
    assert_eq!(
        build_weights(PoolKind::First, &parts, false),
        vec![5 * UNIT, 0, 9 * UNIT, 9 * UNIT, 9 * UNIT, 9 * UNIT, 3 * UNIT]
    );
    assert_eq!(
        build_weights(PoolKind::Second, &parts, true),
        vec![0, 4 * UNIT, 0, 0, 0, 0, 3 * UNIT]
    );
    assert_eq!(
        build_weights(PoolKind::Middle, &syllables, true),
        vec![3 * UNIT, 2 * UNIT, UNIT, UNIT, UNIT, 0]
    );
    assert_eq!(build_weights(PoolKind::OpenStart, &syllables, true), vec![0, 0, 0, UNIT, UNIT, 0]);
    assert_eq!(
        build_weights(PoolKind::OpenEnd, &syllables, true),
        vec![3 * UNIT, 2 * UNIT, 0, UNIT, 0, 0]
    );
    assert_eq!(build_weights(PoolKind::Middle, &parts, false), vec![0; 7]);
    assert_eq!(build_weights(PoolKind::Part, &syllables, false), vec![0; 6]);
}

#[test]
fn cutoff_is_exclusive() {
    let parts = vec![part("zan", 2 * UNIT, 2 * UNIT + 1)];
    assert_eq!(build_weights(PoolKind::First, &parts, false), vec![0]);
    assert_eq!(build_weights(PoolKind::Second, &parts, false), vec![2 * UNIT + 1]);
}

#[test]
fn pool_total_adds_without_overflow() {
    assert_eq!(pool_total(&vec![]), 0);
    assert_eq!(pool_total(&vec![1, 2, 3]), 6);
    assert_eq!(pool_total(&vec![u64::MAX, u64::MAX]), 2 * (u64::MAX as u128));
}

#[test]
fn shape_decision() {
    assert_eq!(choose_shape(UNIT, 1), Shape::Atomic);
    assert_eq!(choose_shape(UNIT, UNIT), Shape::Atomic);
    assert_eq!(choose_shape(UNIT + UNIT / 2, UNIT / 2), Shape::Compound);
    assert_eq!(choose_shape(UNIT + UNIT / 2, UNIT / 2 + 1), Shape::Atomic);
    assert_eq!(choose_shape(2 * UNIT, UNIT), Shape::Compound);
    assert_eq!(choose_shape(0, 1), Shape::Atomic);
    assert_eq!(choose_shape(u64::MAX, u64::MAX), Shape::Compound);
}

#[test]
fn insertion_chance_and_decay() {
    assert_eq!(first_chance(UNIT), 0);
    assert_eq!(first_chance(2 * UNIT), 0);
    assert_eq!(first_chance(3 * UNIT + 7), UNIT + 7);
    assert_eq!(shrink(UNIT, UNIT), UNIT / 2);
    assert_eq!(shrink(UNIT, UNIT / 2), 666_666);
    assert_eq!(shrink(2 * UNIT, 1), 1_999_998);
    assert_eq!(shrink(1, 1), 0);
    assert_eq!(shrink(0, 5), 0);
    assert_eq!(shrink(u64::MAX, 0), u64::MAX);
}

#[test]
fn insertion_pool_guards_consonant_contact() {
    assert_eq!(insertion_pool(Side::AfterFirst, false, true, true), PoolKind::OpenStart);
    assert_eq!(insertion_pool(Side::AfterFirst, false, false, true), PoolKind::Middle);
    assert_eq!(insertion_pool(Side::BeforeSecond, false, true, true), PoolKind::OpenEnd);
    assert_eq!(insertion_pool(Side::BeforeSecond, false, true, false), PoolKind::Middle);
    assert_eq!(insertion_pool(Side::AfterFirst, true, true, true), PoolKind::Middle);
    assert_eq!(insertion_pool(Side::BeforeSecond, true, true, true), PoolKind::Middle);
}

#[test]
fn zero_amount_returns_nothing_and_no_error() {
    let mut rng = StdRng::seed_from_u64(1);
    let r = generate_names_from_parts(&vec![], &vec![], &options(2 * UNIT, 0, true), &mut rng);
    assert_eq!(r, Ok(vec![]));
}

#[test]
fn empty_pools_are_reported() {
    let mut rng = StdRng::seed_from_u64(1);
    let (parts, syllables) = pools();
    let none: Vec<NameSegment> = Vec::new();
    assert_eq!(
        generate_names_from_parts(&none, &syllables, &options(UNIT, 1, false), &mut rng),
        Err(GenError::EmptyPool(PoolKind::Part))
    );
    assert_eq!(
        generate_names_from_parts(&none, &syllables, &options(2 * UNIT, 1, false), &mut rng),
        Err(GenError::EmptyPool(PoolKind::First))
    );
    let only_first = vec![part("zan", 5 * UNIT, 0)];
    assert_eq!(
        generate_names_from_parts(&only_first, &syllables, &options(2 * UNIT, 1, false), &mut rng),
        Err(GenError::EmptyPool(PoolKind::Second))
    );
    assert_eq!(
        generate_names_from_parts(&parts, &none, &options(3 * UNIT, 1, false), &mut rng),
        Err(GenError::EmptyPool(PoolKind::Middle))
    );
    let closed = vec![syllable("kal", UNIT)];
    assert_eq!(
        generate_names_from_parts(&parts, &closed, &options(3 * UNIT, 1, false), &mut rng),
        Err(GenError::EmptyPool(PoolKind::OpenStart))
    );
    let closed_end = vec![syllable("al", UNIT)];
    assert_eq!(
        generate_names_from_parts(&parts, &closed_end, &options(3 * UNIT, 1, false), &mut rng),
        Err(GenError::EmptyPool(PoolKind::OpenEnd))
    );
    assert!(generate_names_from_parts(&parts, &none, &options(2 * UNIT, 1, false), &mut rng).is_ok());
}

#[test]
fn reserved_filter_can_empty_a_pool() {
    let mut rng = StdRng::seed_from_u64(1);
    let parts = vec![part("jin", 5 * UNIT, 5 * UNIT), part("zul", 5 * UNIT, 5 * UNIT)];
    assert_eq!(
        generate_names_from_parts(&parts, &vec![], &options(2 * UNIT, 3, true), &mut rng),
        Err(GenError::EmptyPool(PoolKind::First))
    );
    assert_eq!(
        generate_names_from_parts(&parts, &vec![], &options(2 * UNIT, 3, false), &mut rng).unwrap().len(),
        3
    );
}

#[test]
fn overflowing_weights_are_reported() {
    let mut rng = StdRng::seed_from_u64(1);
    let parts = vec![part("zan", u64::MAX, 5 * UNIT), part("gar", u64::MAX, 5 * UNIT)];
    assert_eq!(
        generate_names_from_parts(&parts, &vec![], &options(2 * UNIT, 1, false), &mut rng),
        Err(GenError::WeightOverflow(PoolKind::First))
    );
}

#[test]
fn single_backbone_is_the_only_result() {
    let records = vec![
        NameRecord {
            name: "Zan'gar".to_string(),
            clean_name: "zangar".to_string(),
            syllables: "zan.gar".to_string(),
            count: 1,
            first_part: Some(1),
            gender: "m".to_string(),
        };
        3
    ];
    let (s, p, _) = generate_data(&records).unwrap();
    let parts = segments_from(&p);
    let syllables = segments_from(&s);
    assert_eq!(parts.len(), 2);
    assert_eq!(parts[0].str, "zan");
    assert_eq!(parts[0].positional_data.start, 3 * UNIT);
    assert_eq!(parts[1].str, "gar");
    assert_eq!(parts[1].positional_data.end, 3 * UNIT);
    let mut rng = StdRng::seed_from_u64(42);
    let names =
        generate_names_from_parts(&parts, &syllables, &options(2 * UNIT, 1, false), &mut rng).unwrap();
    assert_eq!(names.len(), 1);
    assert_eq!(names[0].to_string(), "Zan'gar");
    let kinds: Vec<SegmentKind> = names[0].elements.iter().map(|e| e.segment_kind).collect();
    assert_eq!(kinds, vec![SegmentKind::Part, SegmentKind::Apostrophe, SegmentKind::Part]);
}

#[test]
fn one_record_stays_below_the_cutoff() {
    let records = vec![record("Zan'gar", "zan.gar", Some(1), "m")];
    let (s, p, names) = generate_data(&records).unwrap();
    assert_eq!(names[0].guaranteed_parts.len(), 2);
    let parts = segments_from(&p);
    let syllables = segments_from(&s);
    let mut rng = StdRng::seed_from_u64(42);
    assert_eq!(
        generate_names_from_parts(&parts, &syllables, &options(2 * UNIT, 1, false), &mut rng),
        Err(GenError::EmptyPool(PoolKind::First))
    );
}

#[test]
fn length_one_never_makes_a_compound() {
    let (parts, syllables) = pools();
    let mut rng = StdRng::seed_from_u64(2024);
    let names =
        generate_names_from_parts(&parts, &syllables, &options(UNIT, 2000, false), &mut rng).unwrap();
    assert_eq!(names.len(), 2000);
    for n in &names {
        assert_eq!(n.elements.len(), 1);
        assert!(n.elements.iter().all(|e| e.segment_kind != SegmentKind::Apostrophe));
        assert!(!n.to_string().contains('\''));
    }
}

#[test]
fn length_two_makes_bare_backbones() {
    let (parts, syllables) = pools();
    let mut rng = StdRng::seed_from_u64(5);
    let names =
        generate_names_from_parts(&parts, &syllables, &options(2 * UNIT, 500, false), &mut rng).unwrap();
    for n in &names {
        assert_eq!(n.elements.len(), 3);
        assert_eq!(n.elements[1].segment_kind, SegmentKind::Apostrophe);
        assert!(n.elements[0].positional_data.start > 2 * UNIT);
        assert!(n.elements[2].positional_data.end > 2 * UNIT);
    }
}

#[test]
fn mixed_lengths_make_both_shapes() {
    let (parts, syllables) = pools();
    let mut rng = StdRng::seed_from_u64(9);
    let names = generate_names_from_parts(
        &parts,
        &syllables,
        &options(UNIT + UNIT / 2, 400, false),
        &mut rng,
    )
    .unwrap();
    let atomic = names.iter().filter(|n| n.elements.len() == 1).count();
    let compound = names.iter().filter(|n| n.elements.len() == 3).count();
    assert_eq!(atomic + compound, 400);
    assert!(atomic > 100 && compound > 100);
}

#[test]
fn zero_weight_members_are_never_drawn() {
    let parts = vec![
        part("low", UNIT, UNIT),
        part("zan", 5 * UNIT, 0),
        part("mid", 2 * UNIT, 2 * UNIT),
        part("gar", 0, 5 * UNIT),
    ];
    let mut rng = StdRng::seed_from_u64(77);
    let names =
        generate_names_from_parts(&parts, &vec![], &options(2 * UNIT, 300, false), &mut rng).unwrap();
    for n in &names {
        assert_eq!(n.to_string(), "Zan'gar");
    }
}

#[test]
fn reserved_parts_are_left_out() {
    let (parts, syllables) = pools();
    let mut rng = StdRng::seed_from_u64(11);
    for length in [UNIT, UNIT + UNIT / 2, 2 * UNIT, 3 * UNIT] {
        let names =
            generate_names_from_parts(&parts, &syllables, &options(length, 500, true), &mut rng)
                .unwrap();
        for n in &names {
            for e in &n.elements {
                if e.segment_kind == SegmentKind::Part {
                    assert!(!["jin", "fon", "zen", "zul"].contains(&e.str.as_str()));
                }
            }
        }
    }
    let names =
        generate_names_from_parts(&parts, &syllables, &options(2 * UNIT, 500, false), &mut rng).unwrap();
    assert!(names.iter().any(|n| n.elements.iter().any(|e| e.str == "jin")));
}

#[test]
fn same_seed_gives_the_same_names() {
    let (parts, syllables) = pools();
    let o = options(3 * UNIT, 200, true);
    let mut a = StdRng::seed_from_u64(123);
    let mut b = StdRng::seed_from_u64(123);
    let first = generate_names_from_parts(&parts, &syllables, &o, &mut a).unwrap();
    let second = generate_names_from_parts(&parts, &syllables, &o, &mut b).unwrap();
    assert_eq!(first, second);
    let mut c = StdRng::seed_from_u64(124);
    let third = generate_names_from_parts(&parts, &syllables, &o, &mut c).unwrap();
    assert_ne!(first, third);
}

#[test]
fn long_names_get_insertions_from_the_middle_pool() {
    let (parts, syllables) = pools();
    let mut rng = StdRng::seed_from_u64(31);
    let names =
        generate_names_from_parts(&parts, &syllables, &options(4 * UNIT, 300, false), &mut rng).unwrap();
    let mut inserted = 0;
    for n in &names {
        let len = n.elements.len();
        assert!(len >= 4);
        assert_eq!(n.elements[0].segment_kind, SegmentKind::Part);
        assert_eq!(n.elements[len - 1].segment_kind, SegmentKind::Part);
        let apostrophes =
            n.elements.iter().filter(|e| e.segment_kind == SegmentKind::Apostrophe).count();
        assert_eq!(apostrophes, 1);
        for e in &n.elements[1..len - 1] {
            if e.segment_kind != SegmentKind::Apostrophe {
                assert_eq!(e.segment_kind, SegmentKind::Syllable);
                assert!(e.positional_data.middle > 0);
                inserted += 1;
            }
        }
        let joined: String = n.elements.iter().map(|e| e.str.as_str()).collect();
        let mut shown = n.to_string();
        assert_eq!(shown.len(), joined.len());
        let head = shown.remove(0);
        assert_eq!(head.to_lowercase().to_string(), joined[..1].to_string());
        assert_eq!(shown, joined[1..]);
    }
    assert!(inserted >= 300);
}

#[test]
fn insertions_go_after_the_first_or_before_the_second_part() {
    let plan = vec![
        Insertion { side: Side::AfterFirst, segment: syllable("a", UNIT) },
        Insertion { side: Side::AfterFirst, segment: syllable("b", UNIT) },
        Insertion { side: Side::BeforeSecond, segment: syllable("c", UNIT) },
        Insertion { side: Side::BeforeSecond, segment: syllable("d", UNIT) },
        Insertion { side: Side::AfterFirst, segment: syllable("e", UNIT) },
    ];
    let els = materialize(part("zan", 0, 0), part("gar", 0, 0), &plan);
    let texts: Vec<&str> = els.iter().map(|e| e.str.as_str()).collect();
    assert_eq!(texts, vec!["zan", "e", "b", "a", "'", "c", "d", "gar"]);
    let bare = materialize(part("zan", 0, 0), part("gar", 0, 0), &vec![]);
    assert_eq!(GeneratedName::bake(bare).to_string(), "Zan'gar");
    assert_eq!(insertion_at(Side::AfterFirst, 3), 1);
    assert_eq!(insertion_at(Side::BeforeSecond, 3), 2);
    assert_eq!(choose_side(0), Side::AfterFirst);
    assert_eq!(choose_side(1), Side::BeforeSecond);
    assert!(allows_cluster(1) && allows_cluster(5) && !allows_cluster(6) && !allows_cluster(100));
}

fn step(side: u64, pick: usize) -> StepDraws {
    StepDraws { go: 1, side, cluster: 50, pick, decay: UNIT }
}

#[test]
fn given_draws_give_the_name() {
    let (parts, syllables) = pools();
    let o = options(4 * UNIT, 1, false);
    let draws = NameDraws {
        shape: UNIT,
        whole: 6,
        first: 0,
        second: 1,
        steps: vec![step(0, 3), step(1, 0), step(0, 4), step(1, 1)],
        stop: UNIT,
    };
    let name = compose(&parts, &syllables, &o, &draws);
    let texts: Vec<&str> = name.elements.iter().map(|e| e.str.as_str()).collect();
    assert_eq!(texts, vec!["zan", "el", "a", "'", "ta", "ra", "gar"]);
    assert_eq!(name.to_string(), "Zanela'taragar");
    let short = compose(&parts, &syllables, &options(UNIT, 1, false), &draws);
    assert_eq!(short.to_string(), "Ako");
    assert_eq!(short.elements.len(), 1);
}

#[test]
fn same_draws_give_the_same_batch() {
    let (parts, syllables) = pools();
    let o = options(3 * UNIT, 2, false);
    let draws = vec![
        NameDraws { shape: 7, whole: 0, first: 2, second: 6, steps: vec![step(1, 1)], stop: UNIT },
        NameDraws { shape: 9, whole: 0, first: 6, second: 1, steps: vec![], stop: UNIT },
    ];
    let a = compose_all(&parts, &syllables, &o, &draws);
    let b = compose_all(&parts, &syllables, &o, &draws);
    assert_eq!(a, b);
    assert_eq!(a[0].to_string(), "Jin'raako");
    assert_eq!(a[1].to_string(), "Ako'gar");
}

#[test]
fn consonants_rarely_meet_at_the_parts() {
    let parts = vec![part("zan", 5 * UNIT, 0), part("gar", 0, 5 * UNIT)];
    let syllables = vec![syllable("tak", 50 * UNIT), syllable("a", UNIT)];
    let mut rng = StdRng::seed_from_u64(8);
    let names =
        generate_names_from_parts(&parts, &syllables, &options(4 * UNIT, 1000, false), &mut rng).unwrap();
    let mut contacts = 0;
    for n in &names {
        let len = n.elements.len();
        if n.elements[1].str == "tak" {
            contacts += 1;
        }
        if n.elements[len - 2].str == "tak" {
            contacts += 1;
        }
    }
    assert!(contacts < 400);
}

#[test]
fn bake_joins_and_capitalizes() {
    let name = GeneratedName::bake(vec![
        part("zan", 0, 0),
        syllable("ta", 0),
        NameSegment::apostrophe(),
        part("gar", 0, 0),
    ]);
    assert_eq!(name.to_string(), "Zanta'gar");
    assert_eq!(name.display, "Zanta'gar");
    assert_eq!(GeneratedName::bake(vec![]).to_string(), "");
}

#[test]
fn gender_is_the_mean_over_voiced_segments() {
    let mut a = part("zan", 0, 0);
    a.gender_ratio = UNIT;
    let mut b = part("gar", 0, 0);
    b.gender_ratio = 250_000;
    let mut c = syllable("ta", 0);
    c.gender_ratio = 0;
    let name = GeneratedName::bake(vec![a.clone(), NameSegment::apostrophe(), b.clone()]);
    assert_eq!(name.gender(), 625_000);
    let name = GeneratedName::bake(vec![a, c, NameSegment::apostrophe(), b]);
    assert_eq!(name.gender(), 416_666);
    assert_eq!(GeneratedName::bake(vec![NameSegment::apostrophe()]).gender(), UNIT / 2);
    assert_eq!(GeneratedName::bake(vec![]).gender(), UNIT / 2);
}
