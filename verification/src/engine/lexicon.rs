//! The engine's lexicon: built-in syllables and words, words learned at run
//! time, and the syllables that segmentation works with.
use crate::engine::fuzzy::{fuzzy_eq, fuzzy_eq_spec, fuzzy_variants, fuzzy_variants_spec};
use crate::engine::segment::{
    clone_path, concat_all, distinct_syllables, is_split, nonempty_parts, paths_ordered,
};
use vstd::prelude::*;

verus! {

/// A built-in lexicon row.
#[derive(Debug, Clone, Copy)]
pub struct SeedEntry {
    pub reading: &'static [&'static str],
    pub text: &'static str,
    pub frequency: u32,
}

/// A lexicon entry as plain values: its reading, text and frequency.
pub type EntryView = (Seq<Seq<char>>, Seq<char>, u32);

/// A built-in row as plain values.
pub open spec fn seed_view(s: SeedEntry) -> EntryView {
    (s.reading@.map_values(|r: &str| r@), s.text@, s.frequency)
}

/// A word of the lexicon with the syllables it is typed with.
#[derive(Debug, PartialEq, Eq)]
pub struct LexiconEntry {
    pub reading: Vec<String>,
    pub text: String,
    pub frequency: u32,
}

impl DeepView for LexiconEntry {
    type V = EntryView;

    open spec fn deep_view(&self) -> EntryView {
        (self.reading.deep_view(), self.text@, self.frequency)
    }
}

impl Clone for LexiconEntry {
    fn clone(&self) -> (r: Self)
        ensures
            r.deep_view() == self.deep_view(),
    {
        LexiconEntry {
            reading: clone_path(&self.reading),
            text: self.text.clone(),
            frequency: self.frequency,
        }
    }
}

impl LexiconEntry {
    /// The entry for a built-in row.
    pub fn from_seed(seed: &SeedEntry) -> (r: LexiconEntry)
        ensures
            r.deep_view() == seed_view(*seed),
    {
        let mut reading: Vec<String> = Vec::new();
        let mut i: usize = 0;
        while i < seed.reading.len()
            invariant
                i <= seed.reading@.len(),
                reading.deep_view() == seed_view(*seed).0.subrange(0, i as int),
            decreases seed.reading@.len() - i,
        {
            let ghost before = reading.deep_view();
            reading.push(String::from_str(seed.reading[i]));
            assert(reading.deep_view() =~= before.push(seed.reading@[i as int]@));
            assert(seed_view(*seed).0.subrange(0, i + 1) =~= seed_view(*seed).0.subrange(
                0,
                i as int,
            ).push(seed.reading@[i as int]@));
            i += 1;
        }
        assert(seed_view(*seed).0.subrange(0, i as int) =~= seed_view(*seed).0);
        LexiconEntry { reading, text: String::from_str(seed.text), frequency: seed.frequency }
    }
}

/// The built-in syllables.
pub open spec fn seed_syllables_spec() -> Seq<Seq<char>> {
    seq![
        "ai"@, "de"@, "fa"@, "guo"@, "hao"@, "jie"@, "jin"@, "men"@, "ming"@, "neng"@, "ni"@,
        "ren"@, "ru"@, "shi"@, "shu"@, "wo"@, "xi"@, "xian"@, "xin"@, "xing"@, "xue"@, "yi"@,
        "you"@, "zhi"@, "zhong"@,
    ]
}

fn seed_syllables() -> (r: Vec<String>)
    ensures
        r.deep_view() == seed_syllables_spec(),
{
    let names: &[&str] = &[
        "ai",
        "de",
        "fa",
        "guo",
        "hao",
        "jie",
        "jin",
        "men",
        "ming",
        "neng",
        "ni",
        "ren",
        "ru",
        "shi",
        "shu",
        "wo",
        "xi",
        "xian",
        "xin",
        "xing",
        "xue",
        "yi",
        "you",
        "zhi",
        "zhong",
    ];
    let ghost all = names@.map_values(|s: &str| s@);
    assert(all =~= seed_syllables_spec());
    let mut r: Vec<String> = Vec::new();
    let mut i: usize = 0;
    while i < names.len()
        invariant
            i <= names@.len(),
            all == names@.map_values(|s: &str| s@),
            r.deep_view() == all.subrange(0, i as int),
        decreases names@.len() - i,
    {
        let ghost before = r.deep_view();
        r.push(String::from_str(names[i]));
        assert(r.deep_view() =~= before.push(all[i as int]));
        assert(all.subrange(0, i + 1) =~= all.subrange(0, i as int).push(all[i as int]));
        i += 1;
    }
    assert(all.subrange(0, i as int) =~= all);
    r
}

/// The built-in words.
pub open spec fn seed_table_spec() -> Seq<SeedEntry> {
    seq![
        SeedEntry { reading: &["ni"], text: "你", frequency: 8_000 },
        SeedEntry { reading: &["hao"], text: "好", frequency: 7_500 },
        SeedEntry { reading: &["ni", "hao"], text: "你好", frequency: 18_000 },
        SeedEntry { reading: &["wo"], text: "我", frequency: 12_000 },
        SeedEntry { reading: &["men"], text: "们", frequency: 6_000 },
        SeedEntry { reading: &["wo", "men"], text: "我们", frequency: 16_000 },
        SeedEntry { reading: &["shi"], text: "是", frequency: 15_000 },
        SeedEntry { reading: &["de"], text: "的", frequency: 20_000 },
        SeedEntry { reading: &["zhong"], text: "中", frequency: 7_000 },
        SeedEntry { reading: &["guo"], text: "国", frequency: 6_500 },
        SeedEntry { reading: &["ren"], text: "人", frequency: 9_000 },
        SeedEntry { reading: &["zhong", "guo"], text: "中国", frequency: 17_000 },
        SeedEntry { reading: &["zhong", "guo", "ren"], text: "中国人", frequency: 13_000 },
        SeedEntry { reading: &["shu"], text: "输", frequency: 3_000 },
        SeedEntry { reading: &["ru"], text: "入", frequency: 3_000 },
        SeedEntry { reading: &["fa"], text: "法", frequency: 4_000 },
        SeedEntry { reading: &["shu", "ru"], text: "输入", frequency: 12_000 },
        SeedEntry { reading: &["shu", "ru", "fa"], text: "输入法", frequency: 15_000 },
        SeedEntry { reading: &["xue"], text: "学", frequency: 4_000 },
        SeedEntry { reading: &["xi"], text: "习", frequency: 3_600 },
        SeedEntry { reading: &["xue", "xi"], text: "学习", frequency: 11_000 },
        SeedEntry { reading: &["xin"], text: "新", frequency: 3_500 },
        SeedEntry { reading: &["xing"], text: "星", frequency: 2_700 },
        SeedEntry { reading: &["xin", "xing"], text: "新星", frequency: 7_000 },
        SeedEntry { reading: &["zhi", "neng"], text: "智能", frequency: 10_000 },
    ]
}

/// The built-in lexicon as plain values.
pub open spec fn seed_lexicon_spec() -> Seq<EntryView> {
    seed_table_spec().map_values(|s: SeedEntry| seed_view(s))
}

/// The built-in words, in table order.
pub fn seed_table() -> (r: Vec<SeedEntry>)
    ensures
        r@ == seed_table_spec(),
{
    let table: &[SeedEntry] = &[
        SeedEntry { reading: &["ni"], text: "你", frequency: 8_000 },
        SeedEntry { reading: &["hao"], text: "好", frequency: 7_500 },
        SeedEntry { reading: &["ni", "hao"], text: "你好", frequency: 18_000 },
        SeedEntry { reading: &["wo"], text: "我", frequency: 12_000 },
        SeedEntry { reading: &["men"], text: "们", frequency: 6_000 },
        SeedEntry { reading: &["wo", "men"], text: "我们", frequency: 16_000 },
        SeedEntry { reading: &["shi"], text: "是", frequency: 15_000 },
        SeedEntry { reading: &["de"], text: "的", frequency: 20_000 },
        SeedEntry { reading: &["zhong"], text: "中", frequency: 7_000 },
        SeedEntry { reading: &["guo"], text: "国", frequency: 6_500 },
        SeedEntry { reading: &["ren"], text: "人", frequency: 9_000 },
        SeedEntry { reading: &["zhong", "guo"], text: "中国", frequency: 17_000 },
        SeedEntry { reading: &["zhong", "guo", "ren"], text: "中国人", frequency: 13_000 },
        SeedEntry { reading: &["shu"], text: "输", frequency: 3_000 },
        SeedEntry { reading: &["ru"], text: "入", frequency: 3_000 },
        SeedEntry { reading: &["fa"], text: "法", frequency: 4_000 },
        SeedEntry { reading: &["shu", "ru"], text: "输入", frequency: 12_000 },
        SeedEntry { reading: &["shu", "ru", "fa"], text: "输入法", frequency: 15_000 },
        SeedEntry { reading: &["xue"], text: "学", frequency: 4_000 },
        SeedEntry { reading: &["xi"], text: "习", frequency: 3_600 },
        SeedEntry { reading: &["xue", "xi"], text: "学习", frequency: 11_000 },
        SeedEntry { reading: &["xin"], text: "新", frequency: 3_500 },
        SeedEntry { reading: &["xing"], text: "星", frequency: 2_700 },
        SeedEntry { reading: &["xin", "xing"], text: "新星", frequency: 7_000 },
        SeedEntry { reading: &["zhi", "neng"], text: "智能", frequency: 10_000 },
    ];
    assert(table@ =~= seed_table_spec());
    let mut r: Vec<SeedEntry> = Vec::new();
    let mut i: usize = 0;
    while i < table.len()
        invariant
            i <= table@.len(),
            r@ == table@.subrange(0, i as int),
        decreases table@.len() - i,
    {
        r.push(table[i]);
        assert(r@ =~= table@.subrange(0, i + 1));
        i += 1;
    }
    assert(table@.subrange(0, i as int) =~= table@);
    r
}

fn seed_lexicon() -> (r: Vec<LexiconEntry>)
    ensures
        r.deep_view() == seed_lexicon_spec(),
{
    let table = seed_table();
    let ghost all = seed_lexicon_spec();
    let mut r: Vec<LexiconEntry> = Vec::new();
    let mut i: usize = 0;
    while i < table.len()
        invariant
            i <= table@.len(),
            table@ == seed_table_spec(),
            all == seed_lexicon_spec(),
            r.deep_view() == all.subrange(0, i as int),
        decreases table@.len() - i,
    {
        let ghost before = r.deep_view();
        r.push(LexiconEntry::from_seed(&table[i]));
        assert(r.deep_view() =~= before.push(all[i as int]));
        assert(all.subrange(0, i + 1) =~= all.subrange(0, i as int).push(all[i as int]));
        i += 1;
    }
    assert(all.subrange(0, i as int) =~= all);
    r
}

/// Every syllable of every word of `lex` is one of `syls`.
pub open spec fn readings_known(syls: Seq<Seq<char>>, lex: Seq<EntryView>) -> bool {
    forall|i: int, j: int|
        0 <= i < lex.len() && 0 <= j < lex[i].0.len() ==> syls.contains(#[trigger] lex[i].0[j])
}

/// The built-in words are spelled with the built-in syllables.
#[verifier::rlimit(50)]
proof fn lemma_seed_readings_known()
    ensures
        readings_known(seed_syllables_spec(), seed_lexicon_spec()),
{
    let syls = seed_syllables_spec();
    let table = seed_table_spec();
    let lex = seed_lexicon_spec();
    assert(syls[1] == "de"@);
    assert(syls[2] == "fa"@);
    assert(syls[3] == "guo"@);
    assert(syls[4] == "hao"@);
    assert(syls[7] == "men"@);
    assert(syls[9] == "neng"@);
    assert(syls[10] == "ni"@);
    assert(syls[11] == "ren"@);
    assert(syls[12] == "ru"@);
    assert(syls[13] == "shi"@);
    assert(syls[14] == "shu"@);
    assert(syls[15] == "wo"@);
    assert(syls[16] == "xi"@);
    assert(syls[18] == "xin"@);
    assert(syls[19] == "xing"@);
    assert(syls[20] == "xue"@);
    assert(syls[23] == "zhi"@);
    assert(syls[24] == "zhong"@);
    assert forall|i: int, j: int|
        0 <= i < lex.len() && 0 <= j < lex[i].0.len() implies syls.contains(#[trigger] lex[i].0[j]) by {
        if i == 0 {
            assert(table[0].reading@ =~= seq!["ni"]);
            assert(lex[0].0 =~= seq!["ni"@]);
        } else if i == 1 {
            assert(table[1].reading@ =~= seq!["hao"]);
            assert(lex[1].0 =~= seq!["hao"@]);
        } else if i == 2 {
            assert(table[2].reading@ =~= seq!["ni", "hao"]);
            assert(lex[2].0 =~= seq!["ni"@, "hao"@]);
        } else if i == 3 {
            assert(table[3].reading@ =~= seq!["wo"]);
            assert(lex[3].0 =~= seq!["wo"@]);
        } else if i == 4 {
            assert(table[4].reading@ =~= seq!["men"]);
            assert(lex[4].0 =~= seq!["men"@]);
        } else if i == 5 {
            assert(table[5].reading@ =~= seq!["wo", "men"]);
            assert(lex[5].0 =~= seq!["wo"@, "men"@]);
        } else if i == 6 {
            assert(table[6].reading@ =~= seq!["shi"]);
            assert(lex[6].0 =~= seq!["shi"@]);
        } else if i == 7 {
            assert(table[7].reading@ =~= seq!["de"]);
            assert(lex[7].0 =~= seq!["de"@]);
        } else if i == 8 {
            assert(table[8].reading@ =~= seq!["zhong"]);
            assert(lex[8].0 =~= seq!["zhong"@]);
        } else if i == 9 {
            assert(table[9].reading@ =~= seq!["guo"]);
            assert(lex[9].0 =~= seq!["guo"@]);
        } else if i == 10 {
            assert(table[10].reading@ =~= seq!["ren"]);
            assert(lex[10].0 =~= seq!["ren"@]);
        } else if i == 11 {
            assert(table[11].reading@ =~= seq!["zhong", "guo"]);
            assert(lex[11].0 =~= seq!["zhong"@, "guo"@]);
        } else if i == 12 {
            assert(table[12].reading@ =~= seq!["zhong", "guo", "ren"]);
            assert(lex[12].0 =~= seq!["zhong"@, "guo"@, "ren"@]);
        } else if i == 13 {
            assert(table[13].reading@ =~= seq!["shu"]);
            assert(lex[13].0 =~= seq!["shu"@]);
        } else if i == 14 {
            assert(table[14].reading@ =~= seq!["ru"]);
            assert(lex[14].0 =~= seq!["ru"@]);
        } else if i == 15 {
            assert(table[15].reading@ =~= seq!["fa"]);
            assert(lex[15].0 =~= seq!["fa"@]);
        } else if i == 16 {
            assert(table[16].reading@ =~= seq!["shu", "ru"]);
            assert(lex[16].0 =~= seq!["shu"@, "ru"@]);
        } else if i == 17 {
            assert(table[17].reading@ =~= seq!["shu", "ru", "fa"]);
            assert(lex[17].0 =~= seq!["shu"@, "ru"@, "fa"@]);
        } else if i == 18 {
            assert(table[18].reading@ =~= seq!["xue"]);
            assert(lex[18].0 =~= seq!["xue"@]);
        } else if i == 19 {
            assert(table[19].reading@ =~= seq!["xi"]);
            assert(lex[19].0 =~= seq!["xi"@]);
        } else if i == 20 {
            assert(table[20].reading@ =~= seq!["xue", "xi"]);
            assert(lex[20].0 =~= seq!["xue"@, "xi"@]);
        } else if i == 21 {
            assert(table[21].reading@ =~= seq!["xin"]);
            assert(lex[21].0 =~= seq!["xin"@]);
        } else if i == 22 {
            assert(table[22].reading@ =~= seq!["xing"]);
            assert(lex[22].0 =~= seq!["xing"@]);
        } else if i == 23 {
            assert(table[23].reading@ =~= seq!["xin", "xing"]);
            assert(lex[23].0 =~= seq!["xin"@, "xing"@]);
        } else if i == 24 {
            assert(table[24].reading@ =~= seq!["zhi", "neng"]);
            assert(lex[24].0 =~= seq!["zhi"@, "neng"@]);
        }
    }
}

/// `acc` followed by the elements of `vs` that are not yet in it, in order.
pub open spec fn add_new(acc: Seq<Seq<char>>, vs: Seq<Seq<char>>) -> Seq<Seq<char>>
    decreases vs.len(),
{
    if vs.len() == 0 {
        acc
    } else {
        let a = add_new(acc, vs.drop_last());
        if a.contains(vs.last()) {
            a
        } else {
            a.push(vs.last())
        }
    }
}

/// `acc` followed by the fuzzy spellings of each of `syls`, in order, each
/// spelling once.
pub open spec fn fuzzy_closure(acc: Seq<Seq<char>>, syls: Seq<Seq<char>>) -> Seq<Seq<char>>
    decreases syls.len(),
{
    if syls.len() == 0 {
        acc
    } else {
        add_new(fuzzy_closure(acc, syls.drop_last()), fuzzy_variants_spec(syls.last()))
    }
}

/// The syllables that segmentation uses: the known syllables, and with fuzzy
/// matching their fuzzy spellings after them.
pub open spec fn seg_syllables_spec(syls: Seq<Seq<char>>, fuzzy: bool) -> Seq<Seq<char>> {
    if fuzzy {
        fuzzy_closure(syls, syls)
    } else {
        syls
    }
}

/// Whether the lexicon holds a word with this reading and text.
pub open spec fn has_word(lex: Seq<EntryView>, reading: Seq<Seq<char>>, text: Seq<char>) -> bool {
    exists|i: int| 0 <= i < lex.len() && (#[trigger] lex[i]).0 == reading && lex[i].1 == text
}

/// Whether `add_word` takes the word in: a non-empty reading and text that
/// the lexicon does not hold yet.
pub open spec fn accepts_word(lex: Seq<EntryView>, reading: Seq<Seq<char>>, text: Seq<char>) -> bool {
    reading.len() > 0 && text.len() > 0 && !has_word(lex, reading, text)
}

/// The lexicon after `add_word`.
pub open spec fn added_lexicon(
    lex: Seq<EntryView>,
    reading: Seq<Seq<char>>,
    text: Seq<char>,
    frequency: u32,
) -> Seq<EntryView> {
    if accepts_word(lex, reading, text) {
        lex.push((reading, text, frequency))
    } else {
        lex
    }
}

/// The known syllables after `add_word`.
pub open spec fn added_syllables(
    syls: Seq<Seq<char>>,
    lex: Seq<EntryView>,
    reading: Seq<Seq<char>>,
    text: Seq<char>,
) -> Seq<Seq<char>> {
    if accepts_word(lex, reading, text) {
        add_new(syls, reading)
    } else {
        syls
    }
}

/// Whether two syllables match, exactly or, with fuzzy matching on, under
/// the fuzzy rules.
pub open spec fn syllable_matches(left: Seq<char>, right: Seq<char>, fuzzy: bool) -> bool {
    left == right || (fuzzy && fuzzy_eq_spec(left, right))
}

/// Whether entry `e` can be read from `reading` at `start`.
pub open spec fn entry_matches(e: EntryView, reading: Seq<Seq<char>>, start: int, fuzzy: bool) -> bool {
    &&& start + e.0.len() <= reading.len()
    &&& forall|j: int|
        0 <= j < e.0.len() ==> syllable_matches(#[trigger] e.0[j], reading[start + j], fuzzy)
}

/// The test that `entries_at` applies to each word.
pub open spec fn matches_at(reading: Seq<Seq<char>>, start: int, fuzzy: bool) -> spec_fn(EntryView) -> bool {
    |e: EntryView| entry_matches(e, reading, start, fuzzy)
}

proof fn lemma_add_new_prefix(acc: Seq<Seq<char>>, vs: Seq<Seq<char>>)
    ensures
        add_new(acc, vs).len() >= acc.len(),
        add_new(acc, vs).subrange(0, acc.len() as int) == acc,
        forall|i: int| 0 <= i < vs.len() ==> add_new(acc, vs).contains(#[trigger] vs[i]),
    decreases vs.len(),
{
    if vs.len() > 0 {
        lemma_add_new_prefix(acc, vs.drop_last());
        let a = add_new(acc, vs.drop_last());
        assert forall|i: int| 0 <= i < vs.len() implies add_new(acc, vs).contains(#[trigger] vs[i]) by {
            if i < vs.len() - 1 {
                assert(vs.drop_last()[i] == vs[i]);
                assert(a.contains(vs[i]));
                if !a.contains(vs.last()) {
                    let k = choose|k: int| 0 <= k < a.len() && a[k] == vs[i];
                    assert(a.push(vs.last())[k] == vs[i]);
                }
            } else {
                if !a.contains(vs.last()) {
                    assert(a.push(vs.last())[a.len() as int] == vs.last());
                }
            }
        }
        assert(add_new(acc, vs).subrange(0, acc.len() as int) =~= acc) by {
            assert(a.subrange(0, acc.len() as int) == acc);
            assert(a.push(vs.last()).subrange(0, acc.len() as int) =~= a.subrange(
                0,
                acc.len() as int,
            ));
        }
    } else {
        assert(acc.subrange(0, acc.len() as int) =~= acc);
    }
}

proof fn lemma_fuzzy_closure_prefix(acc: Seq<Seq<char>>, syls: Seq<Seq<char>>)
    ensures
        fuzzy_closure(acc, syls).len() >= acc.len(),
        fuzzy_closure(acc, syls).subrange(0, acc.len() as int) == acc,
    decreases syls.len(),
{
    if syls.len() > 0 {
        lemma_fuzzy_closure_prefix(acc, syls.drop_last());
        let f = fuzzy_closure(acc, syls.drop_last());
        lemma_add_new_prefix(f, fuzzy_variants_spec(syls.last()));
        let g = add_new(f, fuzzy_variants_spec(syls.last()));
        assert(g.subrange(0, acc.len() as int) =~= g.subrange(0, f.len() as int).subrange(
            0,
            acc.len() as int,
        ));
    } else {
        assert(acc.subrange(0, acc.len() as int) =~= acc);
    }
}

/// The segmentation syllables hold every known syllable.
proof fn lemma_seg_holds_syllables(syls: Seq<Seq<char>>, fuzzy: bool)
    ensures
        forall|i: int|
            0 <= i < syls.len() ==> seg_syllables_spec(syls, fuzzy).contains(#[trigger] syls[i]),
{
    if fuzzy {
        lemma_fuzzy_closure_prefix(syls, syls);
        let f = fuzzy_closure(syls, syls);
        assert forall|i: int| 0 <= i < syls.len() implies f.contains(#[trigger] syls[i]) by {
            assert(f.subrange(0, syls.len() as int)[i] == syls[i]);
            assert(f[i] == syls[i]);
        }
    }
}

fn contains_string(v: &Vec<String>, s: &String) -> (r: bool)
    ensures
        r == v.deep_view().contains(s@),
{
    let mut i: usize = 0;
    while i < v.len()
        invariant
            i <= v@.len(),
            forall|j: int| 0 <= j < i ==> v.deep_view()[j] != s@,
        decreases v@.len() - i,
    {
        if v[i] == *s {
            assert(v.deep_view()[i as int] == s@);
            return true;
        }
        i += 1;
    }
    false
}

fn same_strings(a: &Vec<String>, b: &Vec<String>) -> (r: bool)
    ensures
        r == (a.deep_view() == b.deep_view()),
{
    if a.len() != b.len() {
        assert(a.deep_view().len() != b.deep_view().len());
        return false;
    }
    let mut i: usize = 0;
    while i < a.len()
        invariant
            a@.len() == b@.len(),
            i <= a@.len(),
            forall|j: int| 0 <= j < i ==> a.deep_view()[j] == b.deep_view()[j],
        decreases a@.len() - i,
    {
        if a[i] != b[i] {
            assert(a.deep_view()[i as int] != b.deep_view()[i as int]);
            return false;
        }
        i += 1;
    }
    assert(a.deep_view() =~= b.deep_view());
    true
}

/// The pinyin engine's lexicon state: the known syllables, the syllables
/// segmentation uses, the words, and whether fuzzy matching is on.
#[derive(Debug)]
pub struct Engine {
    syllables: Vec<String>,
    seg_syllables: Vec<String>,
    lexicon: Vec<LexiconEntry>,
    fuzzy: bool,
}

impl Engine {
    /// The known syllables.
    pub closed spec fn syllables_view(&self) -> Seq<Seq<char>> {
        self.syllables.deep_view()
    }

    /// The syllables segmentation uses.
    pub closed spec fn seg_view(&self) -> Seq<Seq<char>> {
        self.seg_syllables.deep_view()
    }

    /// The words, in the order they were added.
    pub closed spec fn lexicon_view(&self) -> Seq<EntryView> {
        self.lexicon.deep_view()
    }

    /// Whether fuzzy matching is on.
    pub closed spec fn fuzzy_view(&self) -> bool {
        self.fuzzy
    }

    /// The engine's invariant: every word is spelled with known syllables,
    /// and segmentation uses the known syllables and, with fuzzy matching on,
    /// their fuzzy spellings.
    pub open spec fn wf(&self) -> bool {
        &&& readings_known(self.syllables_view(), self.lexicon_view())
        &&& self.seg_view() == seg_syllables_spec(self.syllables_view(), self.fuzzy_view())
    }

    /// An engine with the built-in syllables and words and fuzzy matching
    /// off.
    pub fn new() -> (r: Engine)
        ensures
            r.wf(),
            r.syllables_view() == seed_syllables_spec(),
            r.lexicon_view() == seed_lexicon_spec(),
            !r.fuzzy_view(),
    {
        let syllables = seed_syllables();
        let seg_syllables = clone_path(&syllables);
        proof {
            lemma_seed_readings_known();
        }
        Engine { syllables, seg_syllables, lexicon: seed_lexicon(), fuzzy: false }
    }

    /// Enables or disables fuzzy pinyin matching
    /// (`zh↔z`, `ch↔c`, `sh↔s`, `ang↔an`, `eng↔en`, `ing↔in`).
    pub fn set_fuzzy(&mut self, enabled: bool)
        requires
            old(self).wf(),
        ensures
            final(self).wf(),
            final(self).fuzzy_view() == enabled,
            final(self).syllables_view() == old(self).syllables_view(),
            final(self).lexicon_view() == old(self).lexicon_view(),
    {
        self.fuzzy = enabled;
        self.rebuild_seg_syllables();
    }

    /// Returns whether fuzzy pinyin matching is enabled.
    pub fn fuzzy(&self) -> (r: bool)
        ensures
            r == self.fuzzy_view(),
    {
        self.fuzzy
    }

    fn rebuild_seg_syllables(&mut self)
        ensures
            final(self).seg_view() == seg_syllables_spec(
                old(self).syllables_view(),
                old(self).fuzzy_view(),
            ),
            final(self).syllables_view() == old(self).syllables_view(),
            final(self).lexicon_view() == old(self).lexicon_view(),
            final(self).fuzzy_view() == old(self).fuzzy_view(),
    {
        let ghost syls = self.syllables.deep_view();
        self.seg_syllables = clone_path(&self.syllables);
        if self.fuzzy {
            let mut i: usize = 0;
            while i < self.syllables.len()
                invariant
                    self.fuzzy,
                    i <= self.syllables@.len(),
                    self.syllables.deep_view() == syls,
                    self.lexicon.deep_view() == old(self).lexicon.deep_view(),
                    self.seg_syllables.deep_view() == fuzzy_closure(syls, syls.subrange(0, i as int)),
                decreases self.syllables@.len() - i,
            {
                let variants = fuzzy_variants(self.syllables[i].as_str());
                let ghost vs = variants.deep_view();
                let ghost base = self.seg_syllables.deep_view();
                let mut j: usize = 0;
                while j < variants.len()
                    invariant
                        self.fuzzy,
                        i < self.syllables@.len(),
                        self.syllables.deep_view() == syls,
                        self.lexicon.deep_view() == old(self).lexicon.deep_view(),
                        j <= variants@.len(),
                        vs == variants.deep_view(),
                        self.seg_syllables.deep_view() == add_new(base, vs.subrange(0, j as int)),
                    decreases variants@.len() - j,
                {
                    assert(vs.subrange(0, j + 1).drop_last() =~= vs.subrange(0, j as int));
                    if !contains_string(&self.seg_syllables, &variants[j]) {
                        let ghost before = self.seg_syllables.deep_view();
                        self.seg_syllables.push(variants[j].clone());
                        assert(self.seg_syllables.deep_view() =~= before.push(vs[j as int]));
                    }
                    j += 1;
                }
                assert(vs.subrange(0, j as int) =~= vs);
                assert(syls.subrange(0, i + 1).drop_last() =~= syls.subrange(0, i as int));
                i += 1;
            }
            assert(syls.subrange(0, i as int) =~= syls);
        }
    }

    /// Adds a word to the lexicon at runtime (e.g. user-learned words).
    ///
    /// Unknown syllables in `reading` are registered so segmentation can
    /// find the word. Duplicate entries are ignored.
    pub fn add_word(&mut self, reading: Vec<String>, text: &str, frequency: u32)
        requires
            old(self).wf(),
        ensures
            final(self).wf(),
            final(self).fuzzy_view() == old(self).fuzzy_view(),
            final(self).lexicon_view() == added_lexicon(
                old(self).lexicon_view(),
                reading.deep_view(),
                text@,
                frequency,
            ),
            final(self).syllables_view() == added_syllables(
                old(self).syllables_view(),
                old(self).lexicon_view(),
                reading.deep_view(),
                text@,
            ),
    {
        let ghost rv = reading.deep_view();
        if reading.len() == 0 || text.is_empty() {
            assert(rv.len() == reading@.len());
            return;
        }
        let text_s = String::from_str(text);
        let mut i: usize = 0;
        while i < self.lexicon.len()
            invariant
                i <= self.lexicon@.len(),
                rv == reading.deep_view(),
                text_s@ == text@,
                self.wf(),
                self.lexicon.deep_view() == old(self).lexicon.deep_view(),
                self.syllables.deep_view() == old(self).syllables.deep_view(),
                self.fuzzy == old(self).fuzzy,
                forall|k: int|
                    0 <= k < i ==> !((#[trigger] self.lexicon.deep_view()[k]).0 == rv
                        && self.lexicon.deep_view()[k].1 == text@),
            decreases self.lexicon@.len() - i,
        {
            if self.lexicon[i].text == text_s && same_strings(&self.lexicon[i].reading, &reading) {
                assert(self.lexicon.deep_view()[i as int].0 == rv);
                assert(has_word(self.lexicon.deep_view(), rv, text@));
                return;
            }
            i += 1;
        }
        let ghost syls = self.syllables.deep_view();
        let mut k: usize = 0;
        while k < reading.len()
            invariant
                k <= reading@.len(),
                rv == reading.deep_view(),
                self.syllables.deep_view() == add_new(syls, rv.subrange(0, k as int)),
                syls == old(self).syllables.deep_view(),
                readings_known(syls, old(self).lexicon.deep_view()),
                !has_word(old(self).lexicon.deep_view(), rv, text@),
                rv.len() > 0 && text@.len() > 0,
                self.lexicon.deep_view() == old(self).lexicon.deep_view(),
                self.fuzzy == old(self).fuzzy,
            decreases reading@.len() - k,
        {
            assert(rv.subrange(0, k + 1).drop_last() =~= rv.subrange(0, k as int));
            if !contains_string(&self.syllables, &reading[k]) {
                let ghost before = self.syllables.deep_view();
                self.syllables.push(reading[k].clone());
                assert(self.syllables.deep_view() =~= before.push(rv[k as int]));
            }
            k += 1;
        }
        assert(rv.subrange(0, k as int) =~= rv);
        let ghost lex = self.lexicon.deep_view();
        self.lexicon.push(LexiconEntry { reading, text: text_s, frequency });
        assert(self.lexicon.deep_view() =~= lex.push((rv, text@, frequency)));
        proof {
            lemma_added_readings_known(syls, lex, rv, text@, frequency);
        }
        self.rebuild_seg_syllables();
    }

    /// Every way to write `input` as a sequence of the syllables that
    /// segmentation uses; when those are distinct and non-empty, each split
    /// comes once, in the order in which splits are found.
    pub fn segment(&self, input: &str) -> (r: Vec<Vec<String>>)
        ensures
            forall|k: int|
                0 <= k < r@.len() ==> is_split(#[trigger] r.deep_view()[k], input@, self.seg_view()),
            forall|p: Seq<Seq<char>>|
                is_split(p, input@, self.seg_view()) && nonempty_parts(p)
                    ==> #[trigger] r.deep_view().contains(p),
            distinct_syllables(self.seg_view()) ==> paths_ordered(r.deep_view(), self.seg_view())
                && r.deep_view().no_duplicates(),
    {
        crate::engine::segment::segment(input, &self.seg_syllables)
    }

    fn entry_matches_exec(&self, entry: &LexiconEntry, reading: &Vec<String>, start: usize) -> (r: bool)
        ensures
            r == entry_matches(entry.deep_view(), reading.deep_view(), start as int, self.fuzzy_view()),
    {
        let n = entry.reading.len();
        if n > reading.len() || start > reading.len() - n {
            return false;
        }
        let mut j: usize = 0;
        while j < n
            invariant
                n == entry.reading@.len(),
                n <= reading.len(),
                start <= reading.len() - n,
                j <= n,
                forall|t: int|
                    0 <= t < j ==> syllable_matches(
                        #[trigger] entry.reading.deep_view()[t],
                        reading.deep_view()[start + t],
                        self.fuzzy,
                    ),
            decreases n - j,
        {
            let same = entry.reading[j] == reading[start + j];
            if !same && !(self.fuzzy && fuzzy_eq(entry.reading[j].as_str(), reading[start + j].as_str())) {
                assert(!syllable_matches(
                    entry.reading.deep_view()[j as int],
                    reading.deep_view()[start + j],
                    self.fuzzy,
                ));
                return false;
            }
            j += 1;
        }
        true
    }

    /// The words whose reading can be read from `reading` at `start`, in
    /// lexicon order.
    pub fn entries_at(&self, reading: &Vec<String>, start: usize) -> (r: Vec<LexiconEntry>)
        ensures
            r.deep_view() == self.lexicon_view().filter(
                matches_at(reading.deep_view(), start as int, self.fuzzy_view()),
            ),
    {
        let ghost pred = matches_at(reading.deep_view(), start as int, self.fuzzy_view());
        let ghost lex = self.lexicon.deep_view();
        let mut r: Vec<LexiconEntry> = Vec::new();
        let mut i: usize = 0;
        while i < self.lexicon.len()
            invariant
                i <= self.lexicon@.len(),
                lex == self.lexicon.deep_view(),
                pred == matches_at(reading.deep_view(), start as int, self.fuzzy_view()),
                r.deep_view() == lex.subrange(0, i as int).filter(pred),
            decreases self.lexicon@.len() - i,
        {
            assert(lex.subrange(0, i + 1) =~= lex.subrange(0, i as int).push(lex[i as int]));
            proof {
                lex.subrange(0, i as int).lemma_filter_push(lex[i as int], pred);
            }
            if self.entry_matches_exec(&self.lexicon[i], reading, start) {
                let ghost before = r.deep_view();
                r.push(self.lexicon[i].clone());
                assert(r.deep_view() =~= before.push(lex[i as int]));
            }
            i += 1;
        }
        assert(lex.subrange(0, i as int) =~= lex);
        r
    }
}

impl Default for Engine {
    fn default() -> (r: Engine)
        ensures
            r.wf(),
            r.syllables_view() == seed_syllables_spec(),
            r.lexicon_view() == seed_lexicon_spec(),
            !r.fuzzy_view(),
    {
        Engine::new()
    }
}

proof fn lemma_added_readings_known(
    syls: Seq<Seq<char>>,
    lex: Seq<EntryView>,
    reading: Seq<Seq<char>>,
    text: Seq<char>,
    frequency: u32,
)
    requires
        readings_known(syls, lex),
    ensures
        readings_known(
            added_syllables(syls, lex, reading, text),
            added_lexicon(lex, reading, text, frequency),
        ),
{
    if accepts_word(lex, reading, text) {
        let s2 = add_new(syls, reading);
        let l2 = lex.push((reading, text, frequency));
        lemma_add_new_prefix(syls, reading);
        assert forall|i: int, j: int|
            0 <= i < l2.len() && 0 <= j < l2[i].0.len() implies s2.contains(#[trigger] l2[i].0[j]) by {
            if i < lex.len() {
                assert(l2[i] == lex[i]);
                assert(syls.contains(lex[i].0[j]));
                let k = choose|k: int| 0 <= k < syls.len() && syls[k] == lex[i].0[j];
                assert(s2.subrange(0, syls.len() as int)[k] == s2[k]);
            } else {
                assert(l2[i].0 == reading);
            }
        }
    }
}

/// Every word of the lexicon can be found again by segmentation: its
/// reading is a split of its spelling into the syllables segmentation uses,
/// with fuzzy matching on or off.
pub proof fn lemma_lexicon_words_segment(
    syls: Seq<Seq<char>>,
    lex: Seq<EntryView>,
    fuzzy: bool,
    i: int,
)
    requires
        readings_known(syls, lex),
        0 <= i < lex.len(),
    ensures
        is_split(lex[i].0, concat_all(lex[i].0), seg_syllables_spec(syls, fuzzy)),
{
    lemma_seg_holds_syllables(syls, fuzzy);
    assert forall|j: int| 0 <= j < lex[i].0.len() implies seg_syllables_spec(syls, fuzzy).contains(
        #[trigger] lex[i].0[j],
    ) by {
        assert(syls.contains(lex[i].0[j]));
        let k = choose|k: int| 0 <= k < syls.len() && syls[k] == lex[i].0[j];
        assert(seg_syllables_spec(syls, fuzzy).contains(syls[k]));
    }
}

/// After `add_word` with a non-empty reading and text, the lexicon holds
/// the word, whether it was new or already there.
pub proof fn lemma_added_word_held(
    lex: Seq<EntryView>,
    reading: Seq<Seq<char>>,
    text: Seq<char>,
    frequency: u32,
)
    requires
        reading.len() > 0,
        text.len() > 0,
    ensures
        has_word(added_lexicon(lex, reading, text, frequency), reading, text),
{
    if accepts_word(lex, reading, text) {
        let l2 = lex.push((reading, text, frequency));
        assert(l2[lex.len() as int].0 == reading);
    }
}

/// Adding the same word twice, with any frequency the second time, leaves
/// the lexicon and the known syllables as adding it once does.
pub proof fn lemma_add_word_idempotent(
    syls: Seq<Seq<char>>,
    lex: Seq<EntryView>,
    reading: Seq<Seq<char>>,
    text: Seq<char>,
    frequency: u32,
    again: u32,
)
    ensures
        added_lexicon(added_lexicon(lex, reading, text, frequency), reading, text, again)
            == added_lexicon(lex, reading, text, frequency),
        added_syllables(
            added_syllables(syls, lex, reading, text),
            added_lexicon(lex, reading, text, frequency),
            reading,
            text,
        ) == added_syllables(syls, lex, reading, text),
{
    if accepts_word(lex, reading, text) {
        let l2 = lex.push((reading, text, frequency));
        assert(l2[lex.len() as int].0 == reading);
        assert(has_word(l2, reading, text));
    }
}

/// A word that `add_word` takes in can be found again by segmentation: its
/// reading, made of non-empty syllables, is a split of its spelling into
/// the syllables that segmentation uses, with fuzzy matching on or off.
pub proof fn lemma_added_word_segments(
    syls: Seq<Seq<char>>,
    lex: Seq<EntryView>,
    reading: Seq<Seq<char>>,
    text: Seq<char>,
    fuzzy: bool,
)
    requires
        accepts_word(lex, reading, text),
    ensures
        is_split(
            reading,
            concat_all(reading),
            seg_syllables_spec(added_syllables(syls, lex, reading, text), fuzzy),
        ),
{
    let s2 = added_syllables(syls, lex, reading, text);
    lemma_add_new_prefix(syls, reading);
    lemma_seg_holds_syllables(s2, fuzzy);
    assert forall|i: int| 0 <= i < reading.len() implies seg_syllables_spec(s2, fuzzy).contains(
        #[trigger] reading[i],
    ) by {
        assert(s2.contains(reading[i]));
        let k = choose|k: int| 0 <= k < s2.len() && s2[k] == reading[i];
        assert(seg_syllables_spec(s2, fuzzy).contains(s2[k]));
    }
}

/// With fuzzy matching off, segmentation uses exactly the known syllables
/// and a word matches at `start` exactly when its reading is the next
/// syllables of the input reading.
pub proof fn lemma_exact_without_fuzzy(
    syls: Seq<Seq<char>>,
    e: EntryView,
    reading: Seq<Seq<char>>,
    start: int,
)
    requires
        0 <= start,
    ensures
        seg_syllables_spec(syls, false) == syls,
        entry_matches(e, reading, start, false) <==> (start + e.0.len() <= reading.len()
            && reading.subrange(start, start + e.0.len()) == e.0),
{
    if start + e.0.len() <= reading.len() {
        if entry_matches(e, reading, start, false) {
            assert(reading.subrange(start, start + e.0.len()) =~= e.0);
        }
        if reading.subrange(start, start + e.0.len()) == e.0 {
            assert forall|j: int| 0 <= j < e.0.len() implies syllable_matches(
                #[trigger] e.0[j],
                reading[start + j],
                false,
            ) by {
                assert(reading.subrange(start, start + e.0.len())[j] == reading[start + j]);
            }
        }
    }
}

/// Fuzzy matching of two syllables does not depend on their order.
pub proof fn lemma_syllable_matches_symmetric(left: Seq<char>, right: Seq<char>, fuzzy: bool)
    ensures
        syllable_matches(left, right, fuzzy) == syllable_matches(right, left, fuzzy),
{
}

/// Adding a word with a non-empty reading and text leaves the lexicon with
/// an entry of that reading and text. When no entry had both that reading
/// and that text, the word is appended at the given frequency and its
/// syllables become known; otherwise lexicon and syllables stay as they
/// were. An entry with the same text under another reading, or the same
/// reading with another text, does not stop the word.
pub proof fn lemma_add_word_appends_new(
    syls: Seq<Seq<char>>,
    lex: Seq<EntryView>,
    reading: Seq<Seq<char>>,
    text: Seq<char>,
    frequency: u32,
)
    requires
        reading.len() > 0,
        text.len() > 0,
    ensures
        exists|i: int|
            0 <= i < added_lexicon(lex, reading, text, frequency).len() && (#[trigger] added_lexicon(
                lex,
                reading,
                text,
                frequency,
            )[i]).0 == reading && added_lexicon(lex, reading, text, frequency)[i].1 == text,
        (forall|i: int| 0 <= i < lex.len() ==> !((#[trigger] lex[i]).0 == reading && lex[i].1 == text))
            ==> {
            &&& added_lexicon(lex, reading, text, frequency) == lex.push((reading, text, frequency))
            &&& forall|j: int|
                0 <= j < reading.len() ==> added_syllables(syls, lex, reading, text).contains(
                    #[trigger] reading[j],
                )
            &&& added_syllables(syls, lex, reading, text).subrange(0, syls.len() as int) == syls
        },
        (exists|i: int| 0 <= i < lex.len() && (#[trigger] lex[i]).0 == reading && lex[i].1 == text)
            ==> {
            &&& added_lexicon(lex, reading, text, frequency) == lex
            &&& added_syllables(syls, lex, reading, text) == syls
        },
{
    let l2 = added_lexicon(lex, reading, text, frequency);
    if exists|i: int| 0 <= i < lex.len() && (#[trigger] lex[i]).0 == reading && lex[i].1 == text {
        let i = choose|i: int| 0 <= i < lex.len() && (#[trigger] lex[i]).0 == reading && lex[i].1 == text;
        assert(has_word(lex, reading, text));
        assert(l2[i].0 == reading && l2[i].1 == text);
    } else {
        assert(!has_word(lex, reading, text));
        assert(l2[lex.len() as int].0 == reading && l2[lex.len() as int].1 == text);
        lemma_add_new_prefix(syls, reading);
    }
}

} // verus!
