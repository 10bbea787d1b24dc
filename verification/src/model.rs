//! The user habit model's records and their storage formats: committed and
//! learned words, the keys of adjacent-word statistics, and the decision to
//! create a word from two adjacent commits.
use crate::engine::segment::clone_path;
use crate::text::{
    chars_of, decimal, join, lacks, lemma_parse_decimal, lemma_split_on_append,
    lemma_split_on_push_sep, lemma_split_on_single, parse_u32, parse_u32_spec, pieces, push_all,
    push_char, push_decimal, ranges_within, split_bounds, split_on, string_from,
};
use vstd::prelude::*;

verus! {

/// Separates the syllables of a stored reading, and the two words of an
/// adjacent-word key.
pub const SEP: char = '\u{1F}';

/// Separates a stored reading from its frequency.
pub const FIELD_SEP: char = '\u{1E}';

/// The longest word, in characters, that is created automatically.
pub const AUTO_WORD_MAX_CHARS: usize = 6;

/// The frequency given to automatically created words.
pub const LEARNED_WORD_FREQUENCY: u32 = 6_000;

/// Error of the user model, carrying a human-readable message.
#[derive(Debug)]
pub struct ModelError(String);

impl ModelError {
    /// An error with the given message.
    pub fn new(message: String) -> (r: ModelError)
        ensures
            r.message_view() == message@,
    {
        ModelError(message)
    }

    /// The message, as a sequence of characters.
    pub closed spec fn message_view(&self) -> Seq<char> {
        self.0@
    }

    /// `user model error: <message>`, the error's display text.
    pub fn to_string(&self) -> (r: String)
        ensures
            r@ == "user model error: "@ + self.message_view(),
    {
        let mut s = String::from_str("user model error: ");
        push_all(&mut s, self.0.as_str());
        s
    }
}

/// Result of a user model operation.
pub type ModelResult<T> = Result<T, ModelError>;

/// A committed word together with the pinyin reading it was typed with.
#[derive(Debug, PartialEq, Eq)]
pub struct CommitRecord {
    pub text: String,
    pub reading: Vec<String>,
}

/// A commit as plain values: its text and reading.
pub type CommitView = (Seq<char>, Seq<Seq<char>>);

impl DeepView for CommitRecord {
    type V = CommitView;

    open spec fn deep_view(&self) -> CommitView {
        (self.text@, self.reading.deep_view())
    }
}

impl Clone for CommitRecord {
    fn clone(&self) -> (r: Self)
        ensures
            r.deep_view() == self.deep_view(),
    {
        CommitRecord { text: self.text.clone(), reading: clone_path(&self.reading) }
    }
}

/// A word the model created automatically from repeated adjacent commits.
#[derive(Debug, PartialEq, Eq)]
pub struct LearnedWord {
    pub text: String,
    pub reading: Vec<String>,
    pub frequency: u32,
}

/// A learned word as plain values: its text, reading and frequency.
pub type WordView = (Seq<char>, Seq<Seq<char>>, u32);

impl DeepView for LearnedWord {
    type V = WordView;

    open spec fn deep_view(&self) -> WordView {
        (self.text@, self.reading.deep_view(), self.frequency)
    }
}

impl Clone for LearnedWord {
    fn clone(&self) -> (r: Self)
        ensures
            r.deep_view() == self.deep_view(),
    {
        LearnedWord {
            text: self.text.clone(),
            reading: clone_path(&self.reading),
            frequency: self.frequency,
        }
    }
}

/// The key under which the pair `prev`, `current` is counted.
pub open spec fn bigram_key_spec(prev: Seq<char>, current: Seq<char>) -> Seq<char> {
    prev.push(SEP) + current
}

/// The key under which the pair `prev`, `current` is counted.
pub fn bigram_key(prev: &str, current: &str) -> (r: String)
    ensures
        r@ == bigram_key_spec(prev@, current@),
{
    let mut s = String::new();
    push_all(&mut s, prev);
    push_char(&mut s, SEP);
    push_all(&mut s, current);
    s
}

/// The bounds of the keys of the pairs that start with `prev`: every such
/// key `k` has `start <= k < end`.
pub fn prediction_range(prev: &str) -> (r: (String, String))
    ensures
        r.0@ == prev@.push(SEP),
        r.1@ == prev@.push(SEP).push('\u{10FFFF}'),
{
    let mut start = String::new();
    push_all(&mut start, prev);
    push_char(&mut start, SEP);
    let mut end = String::new();
    push_all(&mut end, prev);
    push_char(&mut end, SEP);
    push_char(&mut end, '\u{10FFFF}');
    (start, end)
}

/// The second word of a pair key, if the key has one.
pub open spec fn next_word_spec(key: Seq<char>) -> Option<Seq<char>> {
    let parts = split_on(key, SEP);
    if parts.len() >= 2 {
        Some(parts[1])
    } else {
        None
    }
}

/// The second word of a pair key (the piece after the first separator, up
/// to the next one), if the key has one.
pub fn next_word(key: &str) -> (r: Option<String>)
    ensures
        match r {
            Some(s) => next_word_spec(key@) == Some(s@),
            None => next_word_spec(key@) is None,
        },
{
    let v = chars_of(key);
    let parts = split_bounds(&v, 0, v.len(), SEP);
    assert(v@.subrange(0, v@.len() as int) =~= v@);
    if parts.len() >= 2 {
        let p = parts[1];
        assert(0 <= parts@[1].0 <= parts@[1].1 <= v@.len());
        assert(pieces(v@, parts@)[1] == v@.subrange(p.0 as int, p.1 as int));
        Some(string_from(&v, p.0, p.1))
    } else {
        None
    }
}

/// The word two adjacent commits would make: none when either has no
/// reading or the joined text is longer than `AUTO_WORD_MAX_CHARS`.
pub open spec fn word_candidate_spec(prev: CommitView, current: CommitView) -> Option<WordView> {
    if prev.1.len() == 0 || current.1.len() == 0 || prev.0.len() + current.0.len()
        > AUTO_WORD_MAX_CHARS {
        None
    } else {
        Some((prev.0 + current.0, prev.1 + current.1, LEARNED_WORD_FREQUENCY))
    }
}

/// The word two adjacent commits would make, before the store is asked
/// whether it already holds it.
pub fn word_candidate(prev: &CommitRecord, current: &CommitRecord) -> (r: Option<LearnedWord>)
    ensures
        match r {
            Some(w) => word_candidate_spec(prev.deep_view(), current.deep_view()) == Some(
                w.deep_view(),
            ),
            None => word_candidate_spec(prev.deep_view(), current.deep_view()) is None,
        },
{
    if prev.reading.len() == 0 || current.reading.len() == 0 {
        return None;
    }
    let a = chars_of(prev.text.as_str());
    let b = chars_of(current.text.as_str());
    if a.len() > AUTO_WORD_MAX_CHARS || b.len() > AUTO_WORD_MAX_CHARS - a.len() {
        return None;
    }
    let mut text = String::new();
    push_all(&mut text, prev.text.as_str());
    push_all(&mut text, current.text.as_str());
    let mut reading = clone_path(&prev.reading);
    let ghost first = reading.deep_view();
    let mut i: usize = 0;
    while i < current.reading.len()
        invariant
            i <= current.reading@.len(),
            first == prev.reading.deep_view(),
            reading.deep_view() == first + current.reading.deep_view().subrange(0, i as int),
        decreases current.reading@.len() - i,
    {
        let ghost before = reading.deep_view();
        reading.push(current.reading[i].clone());
        assert(reading.deep_view() =~= before.push(current.reading.deep_view()[i as int]));
        assert(reading.deep_view() =~= first + current.reading.deep_view().subrange(0, i + 1));
        i += 1;
    }
    assert(current.reading.deep_view().subrange(0, i as int) =~= current.reading.deep_view());
    Some(LearnedWord { text, reading, frequency: LEARNED_WORD_FREQUENCY })
}

/// How a learned word's reading and frequency are stored.
pub open spec fn encode_word_spec(reading: Seq<Seq<char>>, frequency: u32) -> Seq<char> {
    join(reading, seq![SEP]).push(FIELD_SEP) + decimal(frequency as nat)
}

/// Stores a learned word's reading and frequency as
/// `syllable<SEP>syllable...<FIELD_SEP>frequency`.
pub fn encode_word(reading: &Vec<String>, frequency: u32) -> (r: String)
    ensures
        r@ == encode_word_spec(reading.deep_view(), frequency),
{
    let mut s = String::new();
    let mut k: usize = 0;
    while k < reading.len()
        invariant
            k <= reading@.len(),
            s@ == join(reading.deep_view().subrange(0, k as int), seq![SEP]),
        decreases reading@.len() - k,
    {
        let ghost parts = reading.deep_view().subrange(0, k + 1);
        assert(parts.drop_last() =~= reading.deep_view().subrange(0, k as int));
        if k > 0 {
            push_char(&mut s, SEP);
        }
        push_all(&mut s, reading[k].as_str());
        assert(s@ =~= join(parts, seq![SEP]));
        k += 1;
    }
    assert(reading.deep_view().subrange(0, k as int) =~= reading.deep_view());
    push_char(&mut s, FIELD_SEP);
    push_decimal(&mut s, frequency as u64);
    s
}

/// Where `c` first occurs in `s`.
pub open spec fn first_index(s: Seq<char>, c: char) -> int {
    choose|i: int| 0 <= i < s.len() && s[i] == c && lacks(s.subrange(0, i), c)
}

/// `str::split_once` on a character: the text before the first `c` and the
/// text after it.
pub open spec fn split_once(s: Seq<char>, c: char) -> Option<(Seq<char>, Seq<char>)> {
    if lacks(s, c) {
        None
    } else {
        let i = first_index(s, c);
        Some((s.subrange(0, i), s.subrange(i + 1, s.len() as int)))
    }
}

/// The learned word stored under `text` as `encoded`.
pub open spec fn parse_word_spec(text: Seq<char>, encoded: Seq<char>) -> Option<WordView> {
    match split_once(encoded, FIELD_SEP) {
        None => None,
        Some((reading, frequency)) => match parse_u32_spec(frequency) {
            None => None,
            Some(q) => Some((text, split_on(reading, SEP), q)),
        },
    }
}

/// Reads back a learned word stored under `text` as `encoded`; `None` when
/// the stored value is malformed.
pub fn parse_word(text: &str, encoded: &str) -> (r: Option<LearnedWord>)
    ensures
        match r {
            Some(w) => parse_word_spec(text@, encoded@) == Some(w.deep_view()),
            None => parse_word_spec(text@, encoded@) is None,
        },
{
    let v = chars_of(encoded);
    let mut i: usize = 0;
    while i < v.len() && v[i] != FIELD_SEP
        invariant
            i <= v@.len(),
            v@ == encoded@,
            lacks(v@.subrange(0, i as int), FIELD_SEP),
        decreases v@.len() - i,
    {
        assert(v@.subrange(0, i + 1) =~= v@.subrange(0, i as int).push(v@[i as int]));
        i += 1;
    }
    if i == v.len() {
        assert(v@.subrange(0, i as int) =~= v@);
        return None;
    }
    proof {
        let j = first_index(v@, FIELD_SEP);
        assert(lacks(v@.subrange(0, i as int), FIELD_SEP));
        assert(exists|k: int| 0 <= k < v@.len() && v@[k] == FIELD_SEP && lacks(v@.subrange(0, k), FIELD_SEP));
        assert(v@[j] == FIELD_SEP && lacks(v@.subrange(0, j), FIELD_SEP));
        if j < i {
            assert(v@.subrange(0, i as int)[j] == v@[j]);
        }
        if i < j {
            assert(v@.subrange(0, j)[i as int] == v@[i as int]);
        }
        assert(j == i);
        assert(!lacks(v@, FIELD_SEP));
    }
    let frequency = match parse_u32(&v, i + 1, v.len()) {
        None => {
            return None;
        },
        Some(q) => q,
    };
    let parts = split_bounds(&v, 0, i, SEP);
    let mut reading: Vec<String> = Vec::new();
    let mut k: usize = 0;
    while k < parts.len()
        invariant
            k <= parts@.len(),
            i < v@.len(),
            ranges_within(parts@, 0, i as int),
            reading.deep_view() == pieces(v@, parts@).subrange(0, k as int),
        decreases parts@.len() - k,
    {
        let (a, b) = parts[k];
        assert(0 <= parts@[k as int].0 <= parts@[k as int].1 <= i);
        let ghost before = reading.deep_view();
        reading.push(string_from(&v, a, b));
        assert(pieces(v@, parts@)[k as int] == v@.subrange(a as int, b as int));
        assert(reading.deep_view() =~= before.push(v@.subrange(a as int, b as int)));
        assert(reading.deep_view() =~= pieces(v@, parts@).subrange(0, k + 1));
        k += 1;
    }
    assert(pieces(v@, parts@).subrange(0, k as int) =~= pieces(v@, parts@));
    let mut t = String::new();
    push_all(&mut t, text);
    Some(LearnedWord { text: t, reading, frequency })
}

proof fn lemma_join_split(parts: Seq<Seq<char>>, sep: char)
    requires
        parts.len() > 0,
        forall|i: int| 0 <= i < parts.len() ==> lacks(#[trigger] parts[i], sep),
    ensures
        split_on(join(parts, seq![sep]), sep) == parts,
        lacks(join(parts, seq![sep]), FIELD_SEP) <== (sep != FIELD_SEP && forall|i: int|
            0 <= i < parts.len() ==> lacks(#[trigger] parts[i], FIELD_SEP)),
    decreases parts.len(),
{
    if parts.len() == 1 {
        lemma_split_on_single(parts[0], sep);
        assert(seq![parts[0]] =~= parts);
    } else {
        let init = parts.drop_last();
        assert forall|i: int| 0 <= i < init.len() implies lacks(#[trigger] init[i], sep) by {
            assert(init[i] == parts[i]);
        }
        lemma_join_split(init, sep);
        let j = join(init, seq![sep]);
        let last = parts.last();
        assert(lacks(parts[parts.len() - 1], sep));
        lemma_split_on_push_sep(j, sep);
        lemma_split_on_append(j.push(sep), last, sep);
        assert(j + seq![sep] + last =~= j.push(sep) + last);
        assert(init.push(Seq::<char>::empty()).drop_last().push(Seq::<char>::empty() + last)
            =~= parts);
        if sep != FIELD_SEP && forall|i: int|
            0 <= i < parts.len() ==> lacks(#[trigger] parts[i], FIELD_SEP) {
            assert forall|i: int| 0 <= i < init.len() implies lacks(#[trigger] init[i], FIELD_SEP) by {
                assert(init[i] == parts[i]);
            }
            assert(lacks(parts[parts.len() - 1], FIELD_SEP));
            let x = j + seq![sep] + last;
            assert forall|k: int| 0 <= k < x.len() implies x[k] != FIELD_SEP by {
                if k < j.len() {
                    assert(x[k] == j[k]);
                } else if k > j.len() {
                    assert(x[k] == last[k - j.len() - 1]);
                }
            }
        }
    }
}

/// A stored learned word reads back as the word that was stored, when its
/// reading is non-empty and no syllable holds either separator.
pub proof fn lemma_word_round_trip(text: Seq<char>, reading: Seq<Seq<char>>, frequency: u32)
    requires
        reading.len() > 0,
        forall|i: int|
            0 <= i < reading.len() ==> lacks(#[trigger] reading[i], SEP) && lacks(
                reading[i],
                FIELD_SEP,
            ),
    ensures
        parse_word_spec(text, encode_word_spec(reading, frequency)) == Some(
            (text, reading, frequency),
        ),
{
    let j = join(reading, seq![SEP]);
    lemma_join_split(reading, SEP);
    crate::text::lemma_decimal_parses(frequency as nat);
    let d = decimal(frequency as nat);
    let e = encode_word_spec(reading, frequency);
    assert(e[j.len() as int] == FIELD_SEP);
    assert(e.subrange(0, j.len() as int) =~= j);
    assert(!lacks(e, FIELD_SEP));
    let k = first_index(e, FIELD_SEP);
    assert(lacks(e.subrange(0, j.len() as int), FIELD_SEP));
    assert(k == j.len()) by {
        if k < j.len() {
            assert(e.subrange(0, j.len() as int)[k] == e[k]);
        }
        if k > j.len() {
            assert(e.subrange(0, k)[j.len() as int] == e[j.len() as int]);
        }
    }
    assert(e.subrange(k + 1, e.len() as int) =~= d);
    lemma_parse_decimal(frequency);
}

/// The second word of the key of a pair reads back as that word, when
/// neither word holds the separator.
pub proof fn lemma_bigram_key_round_trip(prev: Seq<char>, current: Seq<char>)
    requires
        lacks(prev, SEP),
        lacks(current, SEP),
    ensures
        next_word_spec(bigram_key_spec(prev, current)) == Some(current),
{
    lemma_split_on_single(prev, SEP);
    lemma_split_on_push_sep(prev, SEP);
    lemma_split_on_append(prev.push(SEP), current, SEP);
    assert(seq![prev, Seq::<char>::empty()].drop_last().push(Seq::<char>::empty() + current)
        =~= seq![prev, current]);
}

/// Two adjacent commits make a word exactly when both have a reading and
/// their texts together have at most six characters; the word is the two
/// texts one after the other, read as the two readings one after the other,
/// at frequency 6000. Single-syllable commits make words like any others.
pub proof fn lemma_word_candidate_joins(prev: CommitView, current: CommitView)
    ensures
        prev.1.len() > 0 && current.1.len() > 0 && prev.0.len() + current.0.len() <= 6
            ==> word_candidate_spec(prev, current) == Some(
            (prev.0 + current.0, prev.1 + current.1, 6000u32),
        ),
        prev.1.len() > 0 && current.1.len() > 0 && prev.0.len() + current.0.len() <= 6 ==> {
            let w = word_candidate_spec(prev, current)->0;
            &&& w.0.subrange(0, prev.0.len() as int) == prev.0
            &&& w.0.subrange(prev.0.len() as int, w.0.len() as int) == current.0
            &&& w.1.len() == prev.1.len() + current.1.len()
            &&& forall|i: int| 0 <= i < prev.1.len() ==> w.1[i] == prev.1[i]
            &&& forall|i: int| 0 <= i < current.1.len() ==> w.1[prev.1.len() + i] == current.1[i]
        },
        prev.1.len() == 0 || current.1.len() == 0 || prev.0.len() + current.0.len() > 6
            ==> word_candidate_spec(prev, current) is None,
{
    let j = prev.0 + current.0;
    assert(j.subrange(0, prev.0.len() as int) =~= prev.0);
    assert(j.subrange(prev.0.len() as int, j.len() as int) =~= current.0);
}

} // verus!
