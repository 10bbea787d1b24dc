use novatype::model::{
    bigram_key, encode_word, next_word, parse_word, prediction_range, word_candidate,
    CommitRecord, LearnedWord, ModelError, FIELD_SEP, LEARNED_WORD_FREQUENCY, SEP,
};

fn record(text: &str, reading: &[&str]) -> CommitRecord {
    CommitRecord {
        text: text.to_string(),
        reading: reading.iter().map(|item| (*item).to_string()).collect(),
    }
}

#[test]
fn joins_adjacent_commits_into_a_word() {
    let first = record("智能", &["zhi", "neng"]);
    let second = record("输入", &["shu", "ru"]);

    let word = word_candidate(&first, &second).expect("word");
    assert_eq!(word.text, "智能输入");
    assert_eq!(word.reading, vec!["zhi", "neng", "shu", "ru"]);
    assert_eq!(word.frequency, LEARNED_WORD_FREQUENCY);
}

#[test]
fn word_needs_readings_and_at_most_six_characters() {
    let long = record("一二三四", &["yi", "er", "san", "si"]);
    let short = record("五六", &["wu", "liu"]);
    assert!(word_candidate(&long, &short).is_some());
    let longer = record("五六七", &["wu", "liu", "qi"]);
    assert!(word_candidate(&long, &longer).is_none());
    assert!(word_candidate(&record("你", &[]), &short).is_none());
    assert!(word_candidate(&short, &record("好", &[])).is_none());
}

#[test]
fn stored_word_reads_back() {
    let reading = vec!["zhi".to_string(), "neng".to_string()];
    let encoded = encode_word(&reading, 6_000);
    assert_eq!(encoded, format!("zhi{SEP}neng{FIELD_SEP}6000"));
    assert_eq!(
        parse_word("智能", &encoded),
        Some(LearnedWord {
            text: "智能".to_string(),
            reading,
            frequency: 6_000,
        })
    );
}

#[test]
fn malformed_stored_words_are_skipped() {
    assert_eq!(parse_word("x", "no separator"), None);
    assert_eq!(parse_word("x", &format!("a{FIELD_SEP}many")), None);
    let word = parse_word("x", &format!("a{FIELD_SEP}7")).expect("word");
    assert_eq!(word.reading, vec!["a"]);
}

#[test]
fn bigram_keys_split_back() {
    let key = bigram_key("我们", "学习");
    assert_eq!(key, format!("我们{SEP}学习"));
    assert_eq!(next_word(&key), Some("学习".to_string()));
    assert_eq!(next_word("我们"), None);
    let (start, end) = prediction_range("我们");
    assert!(start.as_str() <= key.as_str() && key.as_str() < end.as_str());
}

#[test]
fn model_error_displays_message() {
    let error = ModelError::new("disk full".to_string());
    assert_eq!(error.to_string(), "user model error: disk full");
}
