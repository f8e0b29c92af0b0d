use hashmoji::{
    filter, filterable, fixed, identifier_of_lowered, iter, length_in, one, to_feature_name, variable, Catalog,
    Collection, PolicyError, SelectError, SelectionPolicy, SourceError,
};
use unicode_segmentation::UnicodeSegmentation;

const SAMPLE: &str = "\
# emoji-test.txt sample
# Version: 15.1

# group: Smileys & Emotion

# subgroup: face-smiling
1F600                                                  ; fully-qualified     # \u{1F600} E1.0 grinning face
1F603                                                  ; fully-qualified     # \u{1F603} E0.6 grinning face with big eyes

# subgroup: face-affection
263A FE0F                                              ; fully-qualified     # \u{263A}\u{FE0F} E0.6 smiling face
263A                                                   ; unqualified         # \u{263A} E0.6 smiling face

# group: People & Body

# subgroup: hand-fingers-open
1F44B                                                  ; fully-qualified     # \u{1F44B} E0.6 waving hand
1F44B 1F3FB                                            ; fully-qualified     # \u{1F44B}\u{1F3FB} E1.0 waving hand: light skin tone

# subgroup: person
1F468 200D 1F9B0                                       ; fully-qualified     # \u{1F468}\u{200D}\u{1F9B0} E11.0 man: red hair

# group: Component

# subgroup: skin-tone
1F3FB                                                  ; component           # \u{1F3FB} E1.0 light skin tone

# group: Flags

# subgroup: flag
1F3C1                                                  ; fully-qualified     # \u{1F3C1} E0.6 chequered flag
1F1FA 1F1F8                                            ; fully-qualified     # \u{1F1FA}\u{1F1F8} E2.0 flag: United States
";

fn no_policy() -> SelectionPolicy {
    SelectionPolicy {
        additive: false,
        groups: vec![],
        subgroups: vec![],
        versions: vec![],
        skin_tones: false,
        genders: false,
        hair_styles: false,
    }
}

fn sample_catalog() -> Catalog {
    let collection = Collection::all(SAMPLE).unwrap();
    let glyphs = filter(&collection, &no_policy()).unwrap();
    Catalog::new(glyphs).unwrap()
}

fn len(s: &str) -> usize {
    UnicodeSegmentation::graphemes(s, true).count()
}

/// The bytes that `Hash` writes for an `i32`.
fn int_bytes(a: i32) -> [u8; 4] {
    a.to_ne_bytes()
}

/// The bytes that `Hash` writes for a `str`.
fn str_bytes(s: &str) -> Vec<u8> {
    let mut v = s.as_bytes().to_vec();
    v.push(0xff);
    v
}

#[test]
fn test_one() {
    let catalog = sample_catalog();
    for a in 0..1000 {
        let s = one(&catalog, &int_bytes(a));
        assert_eq!(len(s), 1, "{}", s);
    }
}

#[test]
fn test_variable_length() {
    let catalog = sample_catalog();
    for a in 0..1000 {
        let s = variable(&catalog, &int_bytes(a), 1..10).unwrap();
        assert!(len(&s) >= 1, "{}", s);
        assert!(len(&s) <= 10, "{}", s);
    }
}

#[test]
fn test_fixed_length() {
    let catalog = sample_catalog();
    for a in 0..1000 {
        let s = fixed(&catalog, &int_bytes(a), 10);
        assert_eq!(len(&s), 10, "{}", s);
    }
}

#[test]
fn reads_one_record_with_its_taxonomy() {
    let text = "# group: Smileys & Emotion\n# subgroup: face-smiling\n1F600 ; fully-qualified # \u{1F600} E1.0 grinning face\n";
    let c = Collection::all(text).unwrap();
    assert_eq!(c.group_features, vec!["smileys-and-emotion".to_string()]);
    assert_eq!(c.subgroup_features, vec!["face-smiling".to_string()]);
    assert_eq!(c.versions, vec![100]);
    assert_eq!(c.emojis.len(), 1);
    let e = &c.emojis[0];
    assert_eq!(e.emoji, "\u{1F600}");
    assert_eq!(e.group, "smileys-and-emotion");
    assert_eq!(e.subgroup, "face-smiling");
    assert_eq!(e.version, 100);
    assert!(!e.has_gender && !e.has_skin_tone && !e.has_hair_style);
}

#[test]
fn reads_sample_in_order_without_components() {
    let c = Collection::all(SAMPLE).unwrap();
    let glyphs: Vec<&str> = c.emojis.iter().map(|e| e.emoji.as_str()).collect();
    assert_eq!(
        glyphs,
        vec![
            "\u{1F600}",
            "\u{1F603}",
            "\u{263A}\u{FE0F}",
            "\u{1F44B}",
            "\u{1F44B}\u{1F3FB}",
            "\u{1F468}\u{200D}\u{1F9B0}",
            "\u{1F3C1}",
            "\u{1F1FA}\u{1F1F8}",
        ]
    );
    assert_eq!(
        c.group_features,
        vec!["smileys-and-emotion", "people-and-body", "flags"]
    );
    assert_eq!(
        c.subgroup_features,
        vec!["face-smiling", "face-affection", "hand-fingers-open", "person", "flag"]
    );
    assert_eq!(c.versions, vec![100, 6, 1100, 200]);
    assert_eq!(c.emojis[4].version, 100);
    assert!(c.emojis[4].has_skin_tone && !c.emojis[4].has_gender);
    assert!(c.emojis[5].has_gender && c.emojis[5].has_hair_style);
    assert_eq!(c.emojis[7].group, "flags");
    assert_eq!(c.emojis[7].subgroup, "flag");
}

#[test]
fn data_line_before_context_is_refused() {
    let text = "1F600 ; fully-qualified # \u{1F600} E1.0 grinning face\n";
    assert!(matches!(Collection::all(text), Err(SourceError::MissingContext)));
    let text = "# group: Smileys & Emotion\n1F600 ; fully-qualified # \u{1F600} E1.0 grinning face\n";
    assert!(matches!(Collection::all(text), Err(SourceError::MissingContext)));
}

#[test]
fn missing_tokens_are_refused() {
    let text = "# group:\n";
    assert!(matches!(Collection::all(text), Err(SourceError::MissingToken)));
    let text = "# group: A\n# subgroup: b\n1F600 ; fully-qualified #\u{1F600}\n";
    assert!(matches!(Collection::all(text), Err(SourceError::MissingToken)));
    let text = "# group: A\n# subgroup: b\n1F600 ; fully-qualified # \u{1F600}\n";
    assert!(matches!(Collection::all(text), Err(SourceError::MissingToken)));
}

#[test]
fn bad_versions_are_refused() {
    let text = "# group: A\n# subgroup: b\n1F600 ; fully-qualified # \u{1F600} E15 face\n";
    assert!(matches!(Collection::all(text), Err(SourceError::BadVersion)));
    let text = "# group: A\n# subgroup: b\n1F600 ; fully-qualified # \u{1F600} Ex.1 face\n";
    assert!(matches!(Collection::all(text), Err(SourceError::BadVersion)));
    let text = "# group: A\n# subgroup: b\n1F600 ; fully-qualified # \u{1F600} E700.0 face\n";
    assert!(matches!(Collection::all(text), Err(SourceError::BadVersion)));
}

#[test]
fn versions_encode_major_and_minor() {
    let text = "# group: A\n# subgroup: b\nX ; fully-qualified # x E15.1 x\nY ; fully-qualified # y E0.7 y\n";
    let c = Collection::all(text).unwrap();
    assert_eq!(c.emojis[0].version, 1501);
    assert_eq!(c.emojis[1].version, 7);
    assert_eq!(c.versions, vec![1501, 7]);
}

#[test]
fn feature_names_are_normalised() {
    assert_eq!(to_feature_name("Smileys & Emotion"), "smileys-and-emotion");
    assert_eq!(to_feature_name("Food & Drink"), "food-and-drink");
    assert_eq!(to_feature_name("face-smiling"), "face-smiling");
    assert_eq!(to_feature_name("Travel Places"), "travel-places");
}

#[test]
fn modifier_filter_table() {
    assert!(filterable(false, false, false));
    assert!(filterable(false, true, false));
    assert!(filterable(true, false, false));
    assert!(filterable(true, true, false));
    assert!(filterable(false, false, true));
    assert!(!filterable(false, true, true));
    assert!(!filterable(true, false, true));
    assert!(filterable(true, true, true));
}

#[test]
fn additive_flags_keeps_only_flags() {
    let c = Collection::all(SAMPLE).unwrap();
    let mut p = no_policy();
    p.additive = true;
    p.groups = vec!["flags".to_string()];
    p.skin_tones = true;
    p.genders = true;
    p.hair_styles = true;
    let kept = filter(&c, &p).unwrap();
    assert_eq!(kept, vec!["\u{1F3C1}", "\u{1F1FA}\u{1F1F8}"]);
}

#[test]
fn subtractive_flags_drops_only_flags() {
    let c = Collection::all(SAMPLE).unwrap();
    let mut p = no_policy();
    p.groups = vec!["flags".to_string()];
    let kept = filter(&c, &p).unwrap();
    let expected: Vec<String> = c
        .emojis
        .iter()
        .filter(|e| e.group != "flags")
        .map(|e| e.emoji.clone())
        .collect();
    assert_eq!(kept.len(), 6);
    assert_eq!(kept, expected);
}

#[test]
fn subgroups_select_too() {
    let c = Collection::all(SAMPLE).unwrap();
    let mut p = no_policy();
    p.additive = true;
    p.subgroups = vec!["face-affection".to_string()];
    assert_eq!(filter(&c, &p).unwrap(), vec!["\u{263A}\u{FE0F}"]);
}

#[test]
fn modifiers_are_stripped_in_subtractive_mode() {
    let c = Collection::all(SAMPLE).unwrap();
    let mut p = no_policy();
    p.skin_tones = true;
    p.genders = true;
    p.hair_styles = true;
    let kept = filter(&c, &p).unwrap();
    assert_eq!(kept.len(), 6);
    assert!(!kept.contains(&"\u{1F44B}\u{1F3FB}".to_string()));
    assert!(!kept.contains(&"\u{1F468}\u{200D}\u{1F9B0}".to_string()));
}

#[test]
fn additive_mode_without_toggles_drops_modified_records() {
    let c = Collection::all(SAMPLE).unwrap();
    let mut p = no_policy();
    p.additive = true;
    p.groups = vec!["people-and-body".to_string()];
    assert_eq!(filter(&c, &p).unwrap(), vec!["\u{1F44B}"]);
    p.skin_tones = true;
    assert_eq!(
        filter(&c, &p).unwrap(),
        vec!["\u{1F44B}", "\u{1F44B}\u{1F3FB}"]
    );
}

#[test]
fn plain_records_pass_every_toggle() {
    let c = Collection::all(SAMPLE).unwrap();
    for bits in 0..8u8 {
        let mut p = no_policy();
        p.skin_tones = bits & 1 != 0;
        p.genders = bits & 2 != 0;
        p.hair_styles = bits & 4 != 0;
        let kept = filter(&c, &p).unwrap();
        assert!(kept.contains(&"\u{1F600}".to_string()));
        assert!(kept.contains(&"\u{1F1FA}\u{1F1F8}".to_string()));
    }
}

#[test]
fn version_ceiling_is_monotone() {
    let c = Collection::all(SAMPLE).unwrap();
    let mut low = no_policy();
    low.versions = vec![6];
    let mut high = no_policy();
    high.versions = vec![100];
    let low_kept = filter(&c, &low).unwrap();
    let high_kept = filter(&c, &high).unwrap();
    assert_eq!(low_kept, vec!["\u{1F603}", "\u{263A}\u{FE0F}", "\u{1F44B}", "\u{1F3C1}"]);
    assert_eq!(high_kept.len(), 6);
    for g in &low_kept {
        assert!(high_kept.contains(g));
    }
}

#[test]
fn two_version_ceilings_conflict() {
    let c = Collection::all(SAMPLE).unwrap();
    let mut p = no_policy();
    p.versions = vec![100, 600];
    assert!(matches!(filter(&c, &p), Err(PolicyError::ConflictingVersions)));
}

#[test]
fn empty_catalog_is_refused() {
    assert!(matches!(Catalog::new(vec![]), Err(SelectError::EmptyCatalog)));
    let c = Collection::all(SAMPLE).unwrap();
    let mut p = no_policy();
    p.additive = true;
    let kept = filter(&c, &p).unwrap();
    assert!(kept.is_empty());
    assert!(matches!(Catalog::new(kept), Err(SelectError::EmptyCatalog)));
}

#[test]
fn empty_or_inverted_range_is_refused() {
    let catalog = sample_catalog();
    assert!(matches!(variable(&catalog, b"x", 3..3), Err(SelectError::InvalidRange)));
    #[allow(clippy::reversed_empty_ranges)]
    let inverted = 5..2;
    assert!(matches!(variable(&catalog, b"x", inverted), Err(SelectError::InvalidRange)));
}

#[test]
fn fixed_is_repeatable() {
    let catalog = sample_catalog();
    let a = fixed(&catalog, &str_bytes("hashmoji"), 5);
    let b = fixed(&catalog, &str_bytes("hashmoji"), 5);
    assert_eq!(a, b);
    assert_eq!(len(&a), 5);
}

#[test]
fn one_is_repeatable() {
    let catalog = sample_catalog();
    for a in 0..100 {
        assert_eq!(one(&catalog, &int_bytes(a)), one(&catalog, &int_bytes(a)));
    }
}

#[test]
fn fixed_of_zero_is_empty() {
    let catalog = sample_catalog();
    assert_eq!(fixed(&catalog, b"abc", 0), "");
}

#[test]
fn one_picks_by_xxhash_of_the_bytes() {
    let catalog = sample_catalog();
    let all = iter(&catalog);
    let n = all.len() as u64;
    // xxh64 with seed 0 of the empty input and of "abc".
    let empty: u64 = 0xEF46DB3751D8E999;
    let abc: u64 = 0x44BC2CF5AD770999;
    assert_eq!(one(&catalog, b""), all[(empty % n) as usize]);
    assert_eq!(one(&catalog, b"abc"), all[(abc % n) as usize]);
    assert_eq!(catalog.pick(empty), all[(empty % n) as usize]);
}

#[test]
fn fixed_starts_with_one() {
    let catalog = sample_catalog();
    for a in 0..50 {
        let first = one(&catalog, &int_bytes(a));
        assert!(fixed(&catalog, &int_bytes(a), 3).starts_with(first));
        assert_eq!(fixed(&catalog, &int_bytes(a), 1), first);
    }
}

#[test]
fn pick_all_joins_in_order() {
    let catalog = Catalog::new(vec!["a".to_string(), "b".to_string(), "c".to_string()]).unwrap();
    assert_eq!(catalog.pick_all(&[0, 4, 2, 9]), "abca");
    assert_eq!(catalog.pick(5), "c");
    assert_eq!(catalog.len(), 3);
}

#[test]
fn lengths_stay_in_range() {
    assert_eq!(length_in(0, 3, 7), 3);
    assert_eq!(length_in(5, 3, 7), 4);
    assert_eq!(length_in(u64::MAX, 1, 10), 1 + (u64::MAX % 9) as usize);
}

#[test]
fn iter_yields_catalog_in_order_again_and_again() {
    let catalog = Catalog::new(vec!["x".to_string(), "y".to_string()]).unwrap();
    let first: Vec<&String> = iter(&catalog).iter().collect();
    let second: Vec<&String> = iter(&catalog).iter().collect();
    assert_eq!(first, vec!["x", "y"]);
    assert_eq!(first, second);
    let sample = sample_catalog();
    assert_eq!(iter(&sample).len(), 8);
}

#[test]
fn repeated_labels_are_listed_once() {
    let text = "# group: X\n# subgroup: s\n# group: x\n# subgroup: s\n# subgroup: t\n# group: X\n";
    let c = Collection::all(text).unwrap();
    assert_eq!(c.group_features, vec!["x"]);
    assert_eq!(c.subgroup_features, vec!["s", "t"]);
}

#[test]
fn version_tokens_need_one_leading_e_and_two_parts() {
    for token in ["1.0", "1E.0", "E1.0.5", "E+1.0", "EE1.0", "E.1", "E1."] {
        let text = format!("# group: A\n# subgroup: b\nX ; fully-qualified # x {} x\n", token);
        assert!(
            matches!(Collection::all(&text), Err(SourceError::BadVersion)),
            "{}",
            token
        );
    }
}

#[test]
fn empty_glyph_is_refused() {
    let text = "# group: A\n# subgroup: b\n1F600 ; fully-qualified #  E1.0 face\n";
    assert!(matches!(Collection::all(text), Err(SourceError::MissingToken)));
}

#[test]
fn unicode_white_space_is_trimmed() {
    let text = "\u{3000}# group: A\u{A0}\n\u{2003}# subgroup: b\u{85}\n X ; fully-qualified # x E1.0 x\u{202F}\n";
    let c = Collection::all(text).unwrap();
    assert_eq!(c.group_features, vec!["a"]);
    assert_eq!(c.subgroup_features, vec!["b"]);
    assert_eq!(c.emojis.len(), 1);
    assert_eq!(c.emojis[0].emoji, "x");
}

#[test]
fn lowered_labels_become_identifiers() {
    assert_eq!(identifier_of_lowered("smileys & emotion"), "smileys-and-emotion");
    assert_eq!(identifier_of_lowered("A & B"), "A-and-B");
    assert_eq!(identifier_of_lowered("&&"), "andand");
    assert_eq!(identifier_of_lowered(""), "");
}
