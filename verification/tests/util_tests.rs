use troll_names::util::{capitalize, ends_with_consonant, replace_head, starts_with_consonant};

#[test]
fn capitalize_raises_first_letter() {
    assert_eq!(capitalize("zan"), "Zan");
    assert_eq!(capitalize("zan'gar"), "Zan'gar");
}

#[test]
fn capitalize_empty_is_empty() {
    assert_eq!(capitalize(""), "");
}

#[test]
fn capitalize_expands_to_several_letters() {
    assert_eq!(capitalize("\u{df}a"), "SSa");
}

#[test]
fn consonant_at_start() {
    assert!(starts_with_consonant("zan"));
    assert!(!starts_with_consonant("aki"));
    assert!(!starts_with_consonant(""));
    assert!(starts_with_consonant("Aki"));
}

#[test]
fn consonant_at_end() {
    assert!(ends_with_consonant("zan"));
    assert!(!ends_with_consonant("zo"));
    assert!(!ends_with_consonant(""));
}

#[test]
fn head_is_replaced() {
    assert_eq!(replace_head("Z", "zan"), "Zan");
    assert_eq!(replace_head("SS", "\u{df}a"), "SSa");
    assert_eq!(replace_head("", "zan"), "an");
    assert_eq!(replace_head("Z", ""), "");
}
