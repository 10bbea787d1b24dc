use novatype::dict::{entries_to_tsv, load_tsv, parse_rime_dict, parse_tsv, DictEntry};
use novatype::engine::lexicon::Engine;

const SAMPLE: &str = "\
# comment line
你好\tni hao\t18000
测试\tce shi\t9000
";

#[test]
fn parses_tsv_entries() {
    let entries = parse_tsv(SAMPLE).expect("parse");

    assert_eq!(entries.len(), 2);
    assert_eq!(entries[1].text, "测试");
    assert_eq!(entries[1].reading, vec!["ce", "shi"]);
    assert_eq!(entries[1].frequency, 9_000);
}

#[test]
fn rejects_malformed_line() {
    let error = parse_tsv("你好 ni hao 18000").expect_err("should fail");
    assert!(error.to_string().contains("line 1"));
}

#[test]
fn parses_rime_dict_body() {
    let source = "---\nname: demo\n...\n你好\tni hao\t18000\n测试\tce shi\t9000 # comment\n默认\tmo ren\n";
    let entries = parse_rime_dict(source).expect("parse rime");

    assert_eq!(entries.len(), 3);
    assert_eq!(entries[0].text, "你好");
    assert_eq!(entries[1].reading, vec!["ce", "shi"]);
    assert_eq!(entries[2].frequency, 1);
}

#[test]
fn writes_tsv() {
    let entries = parse_tsv(SAMPLE).expect("parse");
    let tsv = entries_to_tsv(&entries);

    assert!(tsv.contains("你好\tni hao\t18000"));
    assert!(tsv.contains("测试\tce shi\t9000"));
}

#[test]
fn tsv_errors_name_line_and_reason() {
    let error = parse_tsv("你好\tni hao\t18000\n\n好\thao\tmany\n").expect_err("bad frequency");
    assert_eq!(error.to_string(), "dictionary line 3: invalid frequency `many`");

    let error = parse_tsv("# header\nx\t \t5\n").expect_err("empty word");
    assert_eq!(error.to_string(), "dictionary line 2: empty word or reading");

    let error = parse_tsv("a\tb\t1\tx\n").expect_err("four fields");
    assert_eq!(error.to_string(), "dictionary line 1: expected 3 tab-separated fields");

    let error = parse_tsv("字\tzi\n").expect_err("two fields");
    assert_eq!(error.to_string(), "dictionary line 1: expected 3 tab-separated fields");
}

#[test]
fn tsv_accepts_padding_and_crlf() {
    let entries = parse_tsv("  你好\tni  hao\t 18000 \r\n# note\r\n").expect("parse");
    assert_eq!(
        entries,
        vec![DictEntry {
            text: "你好".to_string(),
            reading: vec!["ni".to_string(), "hao".to_string()],
            frequency: 18_000,
        }]
    );
}

#[test]
fn tsv_frequency_must_fit_u32() {
    let error = parse_tsv("你\tni\t4294967296\n").expect_err("overflow");
    assert_eq!(error.to_string(), "dictionary line 1: invalid frequency `4294967296`");
    let entries = parse_tsv("你\tni\t4294967295\n").expect("max");
    assert_eq!(entries[0].frequency, u32::MAX);
}

#[test]
fn rime_ignores_header_and_rejects_single_field() {
    assert!(parse_rime_dict("你好\tni hao\t1\n").expect("no body").is_empty());
    let error = parse_rime_dict("...\n# only comment\n孤\n").expect_err("one field");
    assert_eq!(
        error.to_string(),
        "dictionary line 3: expected at least word and reading fields"
    );
    let error = parse_rime_dict("...\n字\tzi\tx\n").expect_err("bad frequency");
    assert_eq!(error.to_string(), "dictionary line 2: invalid frequency `x`");
    let entries = parse_rime_dict("...\n字\tzi\t\n").expect("empty frequency");
    assert_eq!(entries[0].frequency, 1);
}

#[test]
fn tsv_round_trips_through_text() {
    let entries = parse_tsv(SAMPLE).expect("parse");
    let again = parse_tsv(&entries_to_tsv(&entries)).expect("parse again");
    assert_eq!(again, entries);
    assert_eq!(entries_to_tsv(&[]), "");
}

#[test]
fn load_tsv_adds_words_to_the_lexicon() {
    let mut engine = Engine::new();
    let count = load_tsv(&mut engine, SAMPLE).expect("load");
    assert_eq!(count, 2);

    let reading = vec!["ce".to_string(), "shi".to_string()];
    let found = engine.entries_at(&reading, 0);
    assert!(found.iter().any(|entry| entry.text == "测试"));
    assert!(engine.segment("ceshi").contains(&reading));

    let mut untouched = Engine::new();
    assert!(load_tsv(&mut untouched, "坏").is_err());
    assert!(untouched.segment("ceshi").is_empty());
}
