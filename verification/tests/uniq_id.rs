use broadcast_node::uniq_id::{generated, well_formed, Generated, Handler, Step};

const SAMPLE: &str = "01809424-3e59-7c05-9219-566f82fff672";

fn with_char_at(text: &str, at: usize, c: char) -> String {
    text.chars().enumerate().map(|(i, old)| if i == at { c } else { old }).collect()
}

#[test]
fn generate_is_due_an_identifier() {
    assert_eq!(Handler::default().process("generate"), Step::Generate);
}

#[test]
fn other_types_are_left_to_the_runtime() {
    let node = Handler {};
    for tag in ["init", "read", "", "generate_ok", "Generate", "generat", "generate "] {
        assert_eq!(node.process(tag), Step::Unhandled, "{}", tag);
    }
}

#[test]
fn canonical_identifiers_are_well_formed() {
    assert!(well_formed(SAMPLE));
    assert!(well_formed("00000000-0000-7000-8000-000000000000"));
    assert!(well_formed("ffffffff-ffff-7fff-bfff-ffffffffffff"));
    assert!(well_formed("0123456a-89ab-7cde-9f01-23456789abcd"));
    assert!(well_formed("0123456a-89ab-7cde-af01-23456789abcd"));
}

#[test]
fn wrong_length_is_ill_formed() {
    assert!(!well_formed(""));
    assert!(!well_formed(&SAMPLE[..35]));
    assert!(!well_formed(&format!("{}0", SAMPLE)));
    assert!(!well_formed("018094243e597c059219566f82fff672"));
}

#[test]
fn wrong_version_or_variant_is_ill_formed() {
    assert!(!well_formed("2ca4b2ce-6c13-40d4-bccf-37d222820f6f"));
    for c in ['0', '6', '8', 'a', 'f'] {
        assert!(!well_formed(&with_char_at(SAMPLE, 14, c)), "{}", c);
    }
    for c in ['0', '7', 'c', 'f'] {
        assert!(!well_formed(&with_char_at(SAMPLE, 19, c)), "{}", c);
    }
    for c in ['8', '9', 'a', 'b'] {
        assert!(well_formed(&with_char_at(SAMPLE, 19, c)), "{}", c);
    }
}

#[test]
fn hyphens_must_stand_in_their_places() {
    for at in [8, 13, 18, 23] {
        assert!(!well_formed(&with_char_at(SAMPLE, at, '0')), "{}", at);
        assert!(!well_formed(&with_char_at(SAMPLE, at, '_')), "{}", at);
    }
    for at in [0, 7, 9, 12, 17, 22, 24, 35] {
        assert!(!well_formed(&with_char_at(SAMPLE, at, '-')), "{}", at);
    }
}

#[test]
fn digits_must_be_lower_case_hexadecimal() {
    for c in ['A', 'F', 'g', 'z', '/', ':', '`', ' ', 'é', '７'] {
        for at in [0, 7, 9, 15, 20, 24, 35] {
            assert!(!well_formed(&with_char_at(SAMPLE, at, c)), "{} at {}", c, at);
        }
    }
    for c in ['0', '9', 'a', 'f'] {
        for at in [0, 7, 9, 15, 20, 24, 35] {
            assert!(well_formed(&with_char_at(SAMPLE, at, c)), "{} at {}", c, at);
        }
    }
}

#[test]
fn generated_hands_out_a_well_formed_identifier() {
    assert_eq!(
        generated(SAMPLE.to_string()),
        Some(Generated { typ: "generate_ok".to_string(), id: SAMPLE.to_string() })
    );
}

#[test]
fn generated_hands_out_nothing_else() {
    assert_eq!(generated(String::new()), None);
    assert_eq!(generated("2ca4b2ce-6c13-40d4-bccf-37d222820f6f".to_string()), None);
    assert_eq!(generated(SAMPLE.to_uppercase()), None);
}

#[test]
fn drawn_identifiers_are_handed_out() {
    for _ in 0..500 {
        let id = uuid7::uuid7().to_string();
        let body = generated(id.clone()).unwrap();
        assert_eq!(body, Generated { typ: "generate_ok".to_string(), id });
    }
}
