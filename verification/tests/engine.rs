use novatype::engine::fuzzy::{fuzzy_eq, fuzzy_variants, normalize_input};
use novatype::engine::lexicon::{seed_table, Engine, LexiconEntry};

fn reading(items: &[&str]) -> Vec<String> {
    items.iter().map(|item| (*item).to_string()).collect()
}

#[test]
fn segments_into_known_syllables() {
    let engine = Engine::new();
    let splits = engine.segment("zhongguoren");
    assert!(splits.contains(&reading(&["zhong", "guo", "ren"])));
    for split in &splits {
        assert_eq!(split.concat(), "zhongguoren");
    }
    assert!(engine.segment("qqq").is_empty());
}

#[test]
fn normalizes_letters_only() {
    assert_eq!(normalize_input("Shu'ru Fa"), "shurufa");
    assert_eq!(normalize_input("123 !"), "");
}

#[test]
fn finds_words_at_a_position() {
    let engine = Engine::new();
    let texts: Vec<String> = engine
        .entries_at(&reading(&["zhong", "guo", "ren"]), 0)
        .into_iter()
        .map(|entry| entry.text)
        .collect();
    assert_eq!(texts, vec!["中", "中国", "中国人"]);
    assert!(engine.entries_at(&reading(&["zhong"]), 1).is_empty());
}

#[test]
fn fuzzy_matching_is_opt_in() {
    let mut engine = Engine::new();
    assert!(!engine.fuzzy());
    assert!(!engine.segment("zongguo").contains(&reading(&["zong", "guo"])));
    assert!(engine.entries_at(&reading(&["zong", "guo"]), 0).is_empty());

    engine.set_fuzzy(true);
    assert!(engine.fuzzy());
    assert!(engine.segment("zongguo").contains(&reading(&["zong", "guo"])));
    let found = engine.entries_at(&reading(&["zong", "guo"]), 0);
    assert!(found.iter().any(|entry| entry.text == "中国"));

    engine.set_fuzzy(false);
    assert!(!engine.segment("zongguo").contains(&reading(&["zong", "guo"])));
}

#[test]
fn fuzzy_variants_cover_initials_and_finals() {
    assert_eq!(fuzzy_variants("zhang"), vec!["zang", "zhan", "zan"]);
    assert_eq!(fuzzy_variants("sin"), vec!["shin", "sing", "shing"]);
    assert!(fuzzy_variants("a").is_empty());
    for syllable in ["zhang", "sin", "cheng", "ang"] {
        assert!(!fuzzy_variants(syllable).contains(&syllable.to_string()));
    }
    assert!(fuzzy_eq("zhong", "zong"));
    assert!(fuzzy_eq("zong", "zhong"));
    assert!(!fuzzy_eq("ni", "hao"));
}

#[test]
fn add_word_makes_new_syllables_findable() {
    let mut engine = Engine::new();
    engine.add_word(reading(&["ce", "shi"]), "测试", 9_000);

    assert!(engine.segment("ceshi").contains(&reading(&["ce", "shi"])));
    let found = engine.entries_at(&reading(&["ce", "shi"]), 0);
    assert_eq!(found.len(), 1);
    assert_eq!(
        found[0],
        LexiconEntry {
            reading: reading(&["ce", "shi"]),
            text: "测试".to_string(),
            frequency: 9_000,
        }
    );
}

#[test]
fn duplicate_and_empty_words_are_ignored() {
    let mut engine = Engine::new();
    engine.add_word(reading(&["ce", "shi"]), "测试", 9_000);
    engine.add_word(reading(&["ce", "shi"]), "测试", 1);
    engine.add_word(Vec::new(), "空", 1);
    engine.add_word(reading(&["kong"]), "", 1);
    let found = engine.entries_at(&reading(&["ce", "shi"]), 0);
    assert_eq!(found.len(), 1);
    assert_eq!(found[0].frequency, 9_000);
    assert!(engine.segment("kong").is_empty());
}

#[test]
fn seed_table_builds_lexicon_entries() {
    let table = seed_table();
    assert_eq!(table.len(), 25);
    let entry = LexiconEntry::from_seed(&table[2]);
    assert_eq!(entry.text, "你好");
    assert_eq!(entry.reading, reading(&["ni", "hao"]));
    assert_eq!(entry.frequency, 18_000);
}

#[test]
fn segment_lists_each_split_once_in_found_order() {
    let syllables = reading(&["xi", "an", "xian"]);
    assert_eq!(
        novatype::engine::segment::segment("xian", &syllables),
        vec![reading(&["xian"]), reading(&["xi", "an"])]
    );
    let syllables = reading(&["a", "ab", "b", "ba"]);
    assert_eq!(
        novatype::engine::segment::segment("aba", &syllables),
        vec![
            reading(&["a", "ba"]),
            reading(&["ab", "a"]),
            reading(&["a", "b", "a"])
        ]
    );
}
