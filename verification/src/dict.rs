//! Dictionary sources: TSV lexicons
//! (`word<TAB>pinyin syllables<TAB>frequency`) and the bodies of Rime
//! `.dict.yaml` files, parsed into entries, written back as TSV, and loaded
//! into the engine.
use crate::engine::lexicon::{added_lexicon, added_syllables, Engine, EntryView};
use crate::engine::segment::clone_path;
use crate::text::{
    chars_of, decimal, join, line_bounds, lines, parse_u32, parse_u32_spec, pieces, push_all,
    push_char, push_decimal, ranges_within, split_bounds, split_on, string_from, trim,
    lemma_split_on_nonempty, is_ws, lacks, no_ws, lemma_split_on_append, lemma_split_on_push_sep,
    lemma_split_on_single, lemma_words_join, lemma_parse_decimal, lemma_decimal_parses, trim_start,
    trim_end, strip_cr, is_digit,
    trim_bounds, word_bounds, words,
};
use vstd::prelude::*;

verus! {

/// One parsed dictionary entry.
#[derive(Debug, PartialEq, Eq)]
pub struct DictEntry {
    pub text: String,
    pub reading: Vec<String>,
    pub frequency: u32,
}

/// A dictionary entry as plain values: its text, reading and frequency.
pub type DictView = (Seq<char>, Seq<Seq<char>>, u32);

impl DeepView for DictEntry {
    type V = DictView;

    open spec fn deep_view(&self) -> DictView {
        (self.text@, self.reading.deep_view(), self.frequency)
    }
}

impl Clone for DictEntry {
    fn clone(&self) -> (r: Self)
        ensures
            r.deep_view() == self.deep_view(),
    {
        DictEntry {
            text: self.text.clone(),
            reading: clone_path(&self.reading),
            frequency: self.frequency,
        }
    }
}

/// Errors produced while parsing a dictionary source.
#[derive(Debug)]
pub struct DictError {
    line: usize,
    message: String,
}

/// A parse error as plain values: the 1-based line and the message.
pub type ErrorView = (nat, Seq<char>);

impl View for DictError {
    type V = ErrorView;

    closed spec fn view(&self) -> ErrorView {
        (self.line as nat, self.message@)
    }
}

impl DictError {
    fn new(line: usize, message: String) -> (r: DictError)
        ensures
            r@ == (line as nat, message@),
    {
        DictError { line, message }
    }

    /// `dictionary line <n>: <message>`, the error's display text.
    pub fn to_string(&self) -> (r: String)
        ensures
            r@ == "dictionary line "@ + decimal(self@.0) + ": "@ + self@.1,
    {
        let mut s = String::from_str("dictionary line ");
        push_decimal(&mut s, self.line as u64);
        push_all(&mut s, ": ");
        push_all(&mut s, self.message.as_str());
        s
    }
}

/// The message for a line without enough TSV fields.
pub open spec fn fields_message() -> Seq<char> {
    "expected 3 tab-separated fields"@
}

/// The message for a Rime line without word and reading.
pub open spec fn rime_fields_message() -> Seq<char> {
    "expected at least word and reading fields"@
}

/// The message for an empty word or reading.
pub open spec fn empty_message() -> Seq<char> {
    "empty word or reading"@
}

/// The message for a frequency field that is not a `u32`.
pub open spec fn frequency_message(field: Seq<char>) -> Seq<char> {
    "invalid frequency `"@ + field + "`"@
}

/// What one TSV line gives: nothing (blank or `#` comment), an entry, or an
/// error message.
pub open spec fn tsv_line(line: Seq<char>) -> Option<Result<DictView, Seq<char>>> {
    let t = trim(line);
    if t.len() == 0 || t[0] == '#' {
        None
    } else {
        let f = split_on(t, '\t');
        if f.len() != 3 {
            Some(Err(fields_message()))
        } else {
            match parse_u32_spec(trim(f[2])) {
                None => Some(Err(frequency_message(f[2]))),
                Some(frequency) => if f[0].len() == 0 || words(f[1]).len() == 0 {
                    Some(Err(empty_message()))
                } else {
                    Some(Ok((f[0], words(f[1]), frequency)))
                },
            }
        }
    }
}

/// The result of parsing the first `k` TSV lines: the entries so far, or
/// the first error with its 1-based line.
pub open spec fn tsv_upto(ls: Seq<Seq<char>>, k: nat) -> Result<Seq<DictView>, ErrorView>
    decreases k,
{
    if k == 0 {
        Ok(Seq::empty())
    } else {
        match tsv_upto(ls, (k - 1) as nat) {
            Err(e) => Err(e),
            Ok(es) => match tsv_line(ls[k - 1]) {
                None => Ok(es),
                Some(Ok(e)) => Ok(es.push(e)),
                Some(Err(m)) => Err((k, m)),
            },
        }
    }
}

/// What `parse_tsv` gives for `source`.
pub open spec fn parse_tsv_spec(source: Seq<char>) -> Result<Seq<DictView>, ErrorView> {
    tsv_upto(lines(source), lines(source).len())
}

proof fn lemma_tsv_error_sticks(ls: Seq<Seq<char>>, k: nat, n: nat)
    requires
        k <= n,
        tsv_upto(ls, k) is Err,
    ensures
        tsv_upto(ls, n) == tsv_upto(ls, k),
    decreases n - k,
{
    if k < n {
        lemma_tsv_error_sticks(ls, k, (n - 1) as nat);
    }
}

/// The line that opens the body of a Rime dictionary.
pub open spec fn body_marker() -> Seq<char> {
    seq!['.', '.', '.']
}

/// Each part, trimmed.
pub open spec fn trimmed(parts: Seq<Seq<char>>) -> Seq<Seq<char>> {
    parts.map_values(|p: Seq<char>| trim(p))
}

/// What one line of a Rime dictionary body gives: nothing (blank once the
/// `#` comment is cut), an entry, or an error message.
pub open spec fn rime_line(line: Seq<char>) -> Option<Result<DictView, Seq<char>>> {
    let s = trim(split_on(trim(line), '#')[0]);
    if s.len() == 0 {
        None
    } else {
        let f = trimmed(split_on(s, '\t'));
        if f.len() < 2 {
            Some(Err(rime_fields_message()))
        } else {
            let frequency = if f.len() > 2 && f[2].len() > 0 {
                parse_u32_spec(f[2])
            } else {
                Some(1u32)
            };
            match frequency {
                None => Some(Err(frequency_message(f[2]))),
                Some(q) => if f[0].len() == 0 || words(f[1]).len() == 0 {
                    Some(Err(empty_message()))
                } else {
                    Some(Ok((f[0], words(f[1]), q)))
                },
            }
        }
    }
}

/// The state after the first `k` lines of a Rime dictionary: whether the
/// body has begun, and the entries so far or the first error.
pub open spec fn rime_upto(ls: Seq<Seq<char>>, k: nat) -> (bool, Result<Seq<DictView>, ErrorView>)
    decreases k,
{
    if k == 0 {
        (false, Ok(Seq::empty()))
    } else {
        let (in_body, res) = rime_upto(ls, (k - 1) as nat);
        match res {
            Err(e) => (in_body, Err(e)),
            Ok(es) => if !in_body {
                (trim(ls[k - 1]) == body_marker(), Ok(es))
            } else {
                match rime_line(ls[k - 1]) {
                    None => (true, Ok(es)),
                    Some(Ok(e)) => (true, Ok(es.push(e))),
                    Some(Err(m)) => (true, Err((k, m))),
                }
            },
        }
    }
}

/// What `parse_rime_dict` gives for `source`.
pub open spec fn parse_rime_spec(source: Seq<char>) -> Result<Seq<DictView>, ErrorView> {
    rime_upto(lines(source), lines(source).len()).1
}

/// One entry as a TSV row.
pub open spec fn tsv_row(e: DictView) -> Seq<char> {
    e.0 + seq!['\t'] + join(e.1, seq![' ']) + seq!['\t'] + decimal(e.2 as nat) + seq!['\n']
}

/// The entries as TSV text, one row each.
pub open spec fn tsv_text(es: Seq<DictView>) -> Seq<char>
    decreases es.len(),
{
    if es.len() == 0 {
        Seq::empty()
    } else {
        tsv_text(es.drop_last()) + tsv_row(es.last())
    }
}

/// The strings named by `ranges` into `v`.
fn strings_of(v: &Vec<char>, ranges: &Vec<(usize, usize)>) -> (r: Vec<String>)
    requires
        ranges_within(ranges@, 0, v@.len() as int),
    ensures
        r.deep_view() == pieces(v@, ranges@),
{
    let mut r: Vec<String> = Vec::new();
    let mut i: usize = 0;
    while i < ranges.len()
        invariant
            i <= ranges@.len(),
            ranges_within(ranges@, 0, v@.len() as int),
            r.deep_view() == pieces(v@, ranges@).subrange(0, i as int),
        decreases ranges@.len() - i,
    {
        let (a, b) = ranges[i];
        assert(0 <= ranges@[i as int].0 <= ranges@[i as int].1 <= v@.len());
        let ghost before = r.deep_view();
        r.push(string_from(v, a, b));
        assert(pieces(v@, ranges@)[i as int] == v@.subrange(a as int, b as int));
        assert(r.deep_view() =~= before.push(v@.subrange(a as int, b as int)));
        assert(r.deep_view() =~= pieces(v@, ranges@).subrange(0, i + 1));
        i += 1;
    }
    assert(pieces(v@, ranges@).subrange(0, i as int) =~= pieces(v@, ranges@));
    r
}

/// The message for the frequency field `v[lo..hi]`.
fn frequency_text(v: &Vec<char>, lo: usize, hi: usize) -> (r: String)
    requires
        lo <= hi <= v@.len(),
    ensures
        r@ == frequency_message(v@.subrange(lo as int, hi as int)),
{
    let mut m = String::from_str("invalid frequency `");
    let field = string_from(v, lo, hi);
    push_all(&mut m, field.as_str());
    push_all(&mut m, "`");
    m
}

/// A line outcome as plain values.
pub open spec fn outcome_view(o: Option<Result<DictEntry, String>>) -> Option<
    Result<DictView, Seq<char>>,
> {
    match o {
        None => None,
        Some(Ok(e)) => Some(Ok(e.deep_view())),
        Some(Err(m)) => Some(Err(m@)),
    }
}

fn tsv_line_exec(v: &Vec<char>, a: usize, b: usize) -> (r: Option<Result<DictEntry, String>>)
    requires
        a <= b <= v@.len(),
    ensures
        outcome_view(r) == tsv_line(v@.subrange(a as int, b as int)),
{
    let (ta, tb) = trim_bounds(v, a, b);
    let ghost t = v@.subrange(ta as int, tb as int);
    if ta == tb || v[ta] == '#' {
        return None;
    }
    let fs = split_bounds(v, ta, tb, '\t');
    let ghost f = split_on(t, '\t');
    if fs.len() != 3 {
        return Some(Err(String::from_str("expected 3 tab-separated fields")));
    }
    let f0 = fs[0];
    let f1 = fs[1];
    let f2 = fs[2];
    assert(pieces(v@, fs@)[0] == f[0]);
    assert(pieces(v@, fs@)[1] == f[1]);
    assert(pieces(v@, fs@)[2] == f[2]);
    assert(ta <= fs@[0].0 <= fs@[0].1 <= tb);
    assert(ta <= fs@[1].0 <= fs@[1].1 <= tb);
    assert(ta <= fs@[2].0 <= fs@[2].1 <= tb);
    let (pa, pb) = trim_bounds(v, f2.0, f2.1);
    let frequency = match parse_u32(v, pa, pb) {
        None => {
            return Some(Err(frequency_text(v, f2.0, f2.1)));
        },
        Some(q) => q,
    };
    let ws = word_bounds(v, f1.0, f1.1);
    if f0.0 == f0.1 || ws.len() == 0 {
        return Some(Err(String::from_str("empty word or reading")));
    }
    let text = string_from(v, f0.0, f0.1);
    let reading = strings_of(v, &ws);
    Some(Ok(DictEntry { text, reading, frequency }))
}

/// Parses TSV dictionary text.
///
/// Empty lines and lines starting with `#` are skipped. Each data line must
/// be `word<TAB>syllable[ syllable...]<TAB>frequency`: exactly three
/// tab-separated fields.
///
/// Returns an error naming the first malformed line.
pub fn parse_tsv(source: &str) -> (r: Result<Vec<DictEntry>, DictError>)
    ensures
        match r {
            Ok(es) => parse_tsv_spec(source@) == Ok::<Seq<DictView>, ErrorView>(es.deep_view()),
            Err(e) => parse_tsv_spec(source@) == Err::<Seq<DictView>, ErrorView>(e@),
        },
{
    let v = chars_of(source);
    let ls = line_bounds(&v, 0, v.len());
    assert(v@.subrange(0, v@.len() as int) =~= v@);
    let ghost lsv = lines(source@);
    let mut entries: Vec<DictEntry> = Vec::new();
    assert(entries.deep_view() =~= Seq::<DictView>::empty());
    assert(lsv.len() == ls@.len());
    let mut i: usize = 0;
    while i < ls.len()
        invariant
            i <= ls@.len(),
            v@ == source@,
            lsv == lines(source@),
            pieces(v@, ls@) == lsv,
            ranges_within(ls@, 0, v@.len() as int),
            tsv_upto(lsv, i as nat) == Ok::<Seq<DictView>, ErrorView>(entries.deep_view()),
        decreases ls@.len() - i,
    {
        let (a, b) = ls[i];
        assert(0 <= ls@[i as int].0 <= ls@[i as int].1 <= v@.len());
        assert(pieces(v@, ls@)[i as int] == v@.subrange(a as int, b as int));
        let outcome = tsv_line_exec(&v, a, b);
        match outcome {
            None => {},
            Some(Ok(e)) => {
                let ghost before = entries.deep_view();
                entries.push(e);
                assert(entries.deep_view() =~= before.push(e.deep_view()));
            },
            Some(Err(m)) => {
                proof {
                    lemma_tsv_error_sticks(lsv, (i + 1) as nat, lsv.len());
                }
                return Err(DictError::new(i + 1, m));
            },
        }
        i += 1;
    }
    Ok(entries)
}

/// Serializes dictionary entries as TSV, one
/// `word<TAB>syllables<TAB>frequency` row per entry.
pub fn entries_to_tsv(entries: &[DictEntry]) -> (r: String)
    ensures
        r@ == tsv_text(entries.deep_view()),
{
    let mut output = String::new();
    let mut i: usize = 0;
    while i < entries.len()
        invariant
            i <= entries@.len(),
            output@ == tsv_text(entries.deep_view().subrange(0, i as int)),
        decreases entries@.len() - i,
    {
        let e = &entries[i];
        let ghost before = output@;
        push_all(&mut output, e.text.as_str());
        push_char(&mut output, '\t');
        let ghost mid = output@;
        let mut k: usize = 0;
        while k < e.reading.len()
            invariant
                k <= e.reading@.len(),
                output@ == mid + join(e.reading.deep_view().subrange(0, k as int), seq![' ']),
            decreases e.reading@.len() - k,
        {
            let ghost parts = e.reading.deep_view().subrange(0, k + 1);
            assert(parts.drop_last() =~= e.reading.deep_view().subrange(0, k as int));
            if k > 0 {
                push_char(&mut output, ' ');
            }
            push_all(&mut output, e.reading[k].as_str());
            assert(output@ =~= mid + join(parts, seq![' ']));
            k += 1;
        }
        assert(e.reading.deep_view().subrange(0, k as int) =~= e.reading.deep_view());
        push_char(&mut output, '\t');
        push_decimal(&mut output, e.frequency as u64);
        push_char(&mut output, '\n');
        let ghost es = entries.deep_view().subrange(0, i + 1);
        assert(es.drop_last() =~= entries.deep_view().subrange(0, i as int));
        assert(es.last() == e.deep_view());
        assert(output@ =~= before + tsv_row(e.deep_view()));
        i += 1;
    }
    assert(entries.deep_view().subrange(0, i as int) =~= entries.deep_view());
    output
}

/// The trimmed bounds of each of `ranges`.
fn trim_all(v: &Vec<char>, ranges: &Vec<(usize, usize)>) -> (r: Vec<(usize, usize)>)
    requires
        ranges_within(ranges@, 0, v@.len() as int),
    ensures
        ranges_within(r@, 0, v@.len() as int),
        pieces(v@, r@) == trimmed(pieces(v@, ranges@)),
{
    let mut r: Vec<(usize, usize)> = Vec::new();
    let mut i: usize = 0;
    while i < ranges.len()
        invariant
            i <= ranges@.len(),
            ranges_within(ranges@, 0, v@.len() as int),
            ranges_within(r@, 0, v@.len() as int),
            pieces(v@, r@) == trimmed(pieces(v@, ranges@)).subrange(0, i as int),
        decreases ranges@.len() - i,
    {
        let (a, b) = ranges[i];
        assert(0 <= ranges@[i as int].0 <= ranges@[i as int].1 <= v@.len());
        let t = trim_bounds(v, a, b);
        let ghost before = r@;
        r.push(t);
        assert(pieces(v@, r@) =~= pieces(v@, before).push(v@.subrange(t.0 as int, t.1 as int)));
        assert(trimmed(pieces(v@, ranges@))[i as int] == trim(v@.subrange(a as int, b as int)));
        assert(pieces(v@, r@) =~= trimmed(pieces(v@, ranges@)).subrange(0, i + 1));
        assert forall|k: int| 0 <= k < r@.len() implies 0 <= #[trigger] r@[k].0 <= r@[k].1
            <= v@.len() by {
            if k < i {
                assert(r@[k] == before[k]);
            }
        }
        i += 1;
    }
    assert(trimmed(pieces(v@, ranges@)).subrange(0, i as int) =~= trimmed(pieces(v@, ranges@)));
    r
}

fn rime_line_exec(v: &Vec<char>, a: usize, b: usize) -> (r: Option<Result<DictEntry, String>>)
    requires
        a <= b <= v@.len(),
    ensures
        outcome_view(r) == rime_line(v@.subrange(a as int, b as int)),
{
    let (ta, tb) = trim_bounds(v, a, b);
    let hs = split_bounds(v, ta, tb, '#');
    proof {
        lemma_split_on_nonempty(v@.subrange(ta as int, tb as int), '#');
    }
    let h = hs[0];
    assert(pieces(v@, hs@)[0] == v@.subrange(h.0 as int, h.1 as int));
    assert(ta <= hs@[0].0 <= hs@[0].1 <= tb);
    let (sa, sb) = trim_bounds(v, h.0, h.1);
    if sa == sb {
        return None;
    }
    let fs = split_bounds(v, sa, sb, '\t');
    assert forall|k: int| 0 <= k < fs@.len() implies 0 <= #[trigger] fs@[k].0 <= fs@[k].1
        <= v@.len() by {
        assert(sa <= fs@[k].0 <= fs@[k].1 <= sb);
    }
    let tf = trim_all(v, &fs);
    let ghost f = trimmed(split_on(v@.subrange(sa as int, sb as int), '\t'));
    assert(pieces(v@, tf@) == f);
    if tf.len() < 2 {
        return Some(Err(String::from_str("expected at least word and reading fields")));
    }
    let f0 = tf[0];
    let f1 = tf[1];
    assert(pieces(v@, tf@)[0] == f[0]);
    assert(pieces(v@, tf@)[1] == f[1]);
    assert(0 <= tf@[0].0 <= tf@[0].1 <= v@.len());
    assert(0 <= tf@[1].0 <= tf@[1].1 <= v@.len());
    let mut frequency: u32 = 1;
    if tf.len() > 2 && tf[2].0 < tf[2].1 {
        let f2 = tf[2];
        assert(pieces(v@, tf@)[2] == f[2]);
        assert(0 <= tf@[2].0 <= tf@[2].1 <= v@.len());
        match parse_u32(v, f2.0, f2.1) {
            None => {
                return Some(Err(frequency_text(v, f2.0, f2.1)));
            },
            Some(q) => {
                frequency = q;
            },
        }
    } else {
        assert(tf.len() > 2 ==> pieces(v@, tf@)[2] == v@.subrange(tf@[2].0 as int, tf@[2].1 as int));
    }
    let ws = word_bounds(v, f1.0, f1.1);
    if f0.0 == f0.1 || ws.len() == 0 {
        return Some(Err(String::from_str("empty word or reading")));
    }
    let text = string_from(v, f0.0, f0.1);
    let reading = strings_of(v, &ws);
    Some(Ok(DictEntry { text, reading, frequency }))
}

fn is_body_marker(v: &Vec<char>, a: usize, b: usize) -> (r: bool)
    requires
        a <= b <= v@.len(),
    ensures
        r == (trim(v@.subrange(a as int, b as int)) == body_marker()),
{
    let (ta, tb) = trim_bounds(v, a, b);
    let ghost t = v@.subrange(ta as int, tb as int);
    if tb - ta != 3 {
        assert(body_marker().len() == 3);
        return false;
    }
    assert(t[0] == v@[ta as int]);
    assert(t[1] == v@[ta + 1]);
    assert(t[2] == v@[ta + 2]);
    if v[ta] == '.' && v[ta + 1] == '.' && v[ta + 2] == '.' {
        assert(t =~= body_marker());
        true
    } else {
        assert(t != body_marker()) by {
            if t == body_marker() {
                assert(body_marker()[0] == '.');
                assert(body_marker()[1] == '.');
                assert(body_marker()[2] == '.');
            }
        }
        false
    }
}

proof fn lemma_rime_error_sticks(ls: Seq<Seq<char>>, k: nat, n: nat)
    requires
        k <= n,
        rime_upto(ls, k).1 is Err,
    ensures
        rime_upto(ls, n).1 == rime_upto(ls, k).1,
    decreases n - k,
{
    if k < n {
        lemma_rime_error_sticks(ls, k, (n - 1) as nat);
    }
}

/// Parses a Rime `.dict.yaml` dictionary into normalized entries.
///
/// The parser consumes lines after the `...` marker. Supported data rows are:
/// `word<TAB>syllables<TAB>frequency`; frequency is optional and defaults to 1.
/// Inline comments beginning with `#` are ignored.
///
/// Returns an error naming the first malformed data line.
pub fn parse_rime_dict(source: &str) -> (r: Result<Vec<DictEntry>, DictError>)
    ensures
        match r {
            Ok(es) => parse_rime_spec(source@) == Ok::<Seq<DictView>, ErrorView>(es.deep_view()),
            Err(e) => parse_rime_spec(source@) == Err::<Seq<DictView>, ErrorView>(e@),
        },
{
    let v = chars_of(source);
    let ls = line_bounds(&v, 0, v.len());
    assert(v@.subrange(0, v@.len() as int) =~= v@);
    let ghost lsv = lines(source@);
    let mut entries: Vec<DictEntry> = Vec::new();
    assert(entries.deep_view() =~= Seq::<DictView>::empty());
    assert(lsv.len() == ls@.len());
    let mut in_body = false;
    let mut i: usize = 0;
    while i < ls.len()
        invariant
            i <= ls@.len(),
            v@ == source@,
            lsv == lines(source@),
            pieces(v@, ls@) == lsv,
            ranges_within(ls@, 0, v@.len() as int),
            rime_upto(lsv, i as nat) == (in_body, Ok::<Seq<DictView>, ErrorView>(entries.deep_view())),
        decreases ls@.len() - i,
    {
        let (a, b) = ls[i];
        assert(0 <= ls@[i as int].0 <= ls@[i as int].1 <= v@.len());
        assert(pieces(v@, ls@)[i as int] == v@.subrange(a as int, b as int));
        if !in_body {
            in_body = is_body_marker(&v, a, b);
        } else {
            let outcome = rime_line_exec(&v, a, b);
            match outcome {
                None => {},
                Some(Ok(e)) => {
                    let ghost before = entries.deep_view();
                    entries.push(e);
                    assert(entries.deep_view() =~= before.push(e.deep_view()));
                },
                Some(Err(m)) => {
                    proof {
                        lemma_rime_error_sticks(lsv, (i + 1) as nat, lsv.len());
                    }
                    return Err(DictError::new(i + 1, m));
                },
            }
        }
        i += 1;
    }
    Ok(entries)
}

/// The known syllables and the lexicon after adding each of `es` in order.
pub open spec fn added_all(
    syls: Seq<Seq<char>>,
    lex: Seq<EntryView>,
    es: Seq<DictView>,
) -> (Seq<Seq<char>>, Seq<EntryView>)
    decreases es.len(),
{
    if es.len() == 0 {
        (syls, lex)
    } else {
        let (s, l) = added_all(syls, lex, es.drop_last());
        let e = es.last();
        (added_syllables(s, l, e.1, e.0), added_lexicon(l, e.1, e.0, e.2))
    }
}

/// Loads TSV dictionary text into the engine and returns the number of
/// entries loaded; malformed text leaves the engine unchanged.
pub fn load_tsv(engine: &mut Engine, source: &str) -> (r: Result<usize, DictError>)
    requires
        old(engine).wf(),
    ensures
        final(engine).wf(),
        final(engine).fuzzy_view() == old(engine).fuzzy_view(),
        match parse_tsv_spec(source@) {
            Ok(es) => r == Ok::<usize, DictError>(es.len() as usize) && (
                final(engine).syllables_view(),
                final(engine).lexicon_view(),
            ) == added_all(old(engine).syllables_view(), old(engine).lexicon_view(), es),
            Err(e) => r matches Err(x) && x@ == e && final(engine).syllables_view()
                == old(engine).syllables_view() && final(engine).lexicon_view()
                == old(engine).lexicon_view(),
        },
{
    let entries = match parse_tsv(source) {
        Ok(es) => es,
        Err(e) => {
            return Err(e);
        },
    };
    let ghost es = entries.deep_view();
    let ghost syls = engine.syllables_view();
    let ghost lex = engine.lexicon_view();
    let count = entries.len();
    let mut i: usize = 0;
    while i < entries.len()
        invariant
            i <= entries@.len(),
            es == entries.deep_view(),
            engine.wf(),
            engine.fuzzy_view() == old(engine).fuzzy_view(),
            (engine.syllables_view(), engine.lexicon_view()) == added_all(
                syls,
                lex,
                es.subrange(0, i as int),
            ),
        decreases entries@.len() - i,
    {
        let e = &entries[i];
        let reading = clone_path(&e.reading);
        engine.add_word(reading, e.text.as_str(), e.frequency);
        assert(es.subrange(0, i + 1).drop_last() =~= es.subrange(0, i as int));
        i += 1;
    }
    assert(es.subrange(0, i as int) =~= es);
    Ok(count)
}

/// Whether an entry comes back unchanged from writing it as TSV and parsing
/// that: a non-empty text that starts with neither white space nor `#` and
/// holds no tab or line feed, and a non-empty reading of non-empty syllables
/// without white space.
pub open spec fn tsv_safe(e: DictView) -> bool {
    &&& e.0.len() > 0
    &&& !is_ws(e.0[0])
    &&& e.0[0] != '#'
    &&& lacks(e.0, '\t')
    &&& lacks(e.0, '\n')
    &&& e.1.len() > 0
    &&& forall|i: int| 0 <= i < e.1.len() ==> (#[trigger] e.1[i]).len() > 0 && no_ws(e.1[i])
}

/// A TSV row without its line feed.
pub open spec fn row_body(e: DictView) -> Seq<char> {
    e.0 + seq!['\t'] + join(e.1, seq![' ']) + seq!['\t'] + decimal(e.2 as nat)
}

proof fn lemma_join_lacks(parts: Seq<Seq<char>>, c: char)
    requires
        c != ' ',
        forall|i: int| 0 <= i < parts.len() ==> lacks(#[trigger] parts[i], c),
    ensures
        lacks(join(parts, seq![' ']), c),
    decreases parts.len(),
{
    if parts.len() > 1 {
        let init = parts.drop_last();
        assert forall|i: int| 0 <= i < init.len() implies lacks(#[trigger] init[i], c) by {
            assert(init[i] == parts[i]);
        }
        lemma_join_lacks(init, c);
        let j = join(init, seq![' ']);
        let x = j + seq![' '] + parts.last();
        assert(lacks(parts[parts.len() - 1], c));
        assert forall|i: int| 0 <= i < x.len() implies x[i] != c by {
            if i < j.len() {
                assert(x[i] == j[i]);
            } else if i > j.len() {
                assert(x[i] == parts.last()[i - j.len() - 1]);
            }
        }
    } else if parts.len() == 1 {
        assert(lacks(parts[0], c));
    }
}

proof fn lemma_no_ws_lacks(s: Seq<char>, c: char)
    requires
        no_ws(s),
        is_ws(c),
    ensures
        lacks(s, c),
{
    assert forall|i: int| 0 <= i < s.len() implies s[i] != c by {
        assert(!is_ws(s[i]));
    }
}

proof fn lemma_digits_lack(d: Seq<char>, c: char)
    requires
        forall|i: int| 0 <= i < d.len() ==> is_digit(#[trigger] d[i]),
        !is_digit(c),
    ensures
        lacks(d, c),
{
}

proof fn lemma_row_body_facts(e: DictView)
    requires
        tsv_safe(e),
    ensures
        row_body(e).len() > 0,
        !is_ws(row_body(e).last()),
        row_body(e).last() != '\r',
        lacks(row_body(e), '\n'),
        split_on(row_body(e), '\t') == seq![e.0, join(e.1, seq![' ']), decimal(e.2 as nat)],
        trim(row_body(e)) == row_body(e),
        row_body(e)[0] == e.0[0],
{
    let t = e.0;
    let j = join(e.1, seq![' ']);
    let d = decimal(e.2 as nat);
    lemma_decimal_parses(e.2 as nat);
    let b = row_body(e);
    assert forall|i: int| 0 <= i < e.1.len() implies lacks(#[trigger] e.1[i], '\t') by {
        lemma_no_ws_lacks(e.1[i], '\t');
    }
    assert forall|i: int| 0 <= i < e.1.len() implies lacks(#[trigger] e.1[i], '\n') by {
        lemma_no_ws_lacks(e.1[i], '\n');
    }
    lemma_join_lacks(e.1, '\t');
    lemma_join_lacks(e.1, '\n');
    lemma_digits_lack(d, '\t');
    lemma_digits_lack(d, '\n');
    assert(d.last() == d[d.len() - 1]);
    assert(b.last() == d.last());
    assert(b[0] == t[0]);
    // the split at tabs
    lemma_split_on_single(t, '\t');
    lemma_split_on_push_sep(t, '\t');
    lemma_split_on_append(t.push('\t'), j, '\t');
    assert(seq![t, Seq::<char>::empty()].drop_last().push(Seq::<char>::empty() + j) =~= seq![t, j]);
    let tj = t.push('\t') + j;
    lemma_split_on_push_sep(tj, '\t');
    lemma_split_on_append(tj.push('\t'), d, '\t');
    assert(seq![t, j, Seq::<char>::empty()].drop_last().push(Seq::<char>::empty() + d) =~= seq![
        t,
        j,
        d,
    ]);
    assert(tj.push('\t') + d =~= b);
    assert(t + seq!['\t'] =~= t.push('\t'));
    // no line feed
    assert forall|i: int| 0 <= i < b.len() implies b[i] != '\n' by {
        if i < t.len() {
            assert(b[i] == t[i]);
        } else if i == t.len() {
        } else if i < t.len() + 1 + j.len() {
            assert(b[i] == j[i - t.len() - 1]);
        } else if i == t.len() + 1 + j.len() {
        } else {
            assert(b[i] == d[i - t.len() - 2 - j.len()]);
        }
    }
    // trimming keeps the row
    assert(trim_start(b) == b);
    assert(trim_end(b) == b);
}

proof fn lemma_tsv_line_row(e: DictView)
    requires
        tsv_safe(e),
    ensures
        tsv_line(row_body(e)) == Some(Ok::<DictView, Seq<char>>(e)),
{
    lemma_row_body_facts(e);
    let d = decimal(e.2 as nat);
    lemma_decimal_parses(e.2 as nat);
    assert(d.last() == d[d.len() - 1]);
    assert(trim_start(d) == d);
    assert(trim_end(d) == d);
    lemma_parse_decimal(e.2);
    lemma_words_join(e.1);
}

proof fn lemma_tsv_text_split(es: Seq<DictView>)
    requires
        forall|i: int| 0 <= i < es.len() ==> tsv_safe(#[trigger] es[i]),
    ensures
        split_on(tsv_text(es), '\n') == es.map_values(|e: DictView| row_body(e)).push(
            Seq::<char>::empty(),
        ),
    decreases es.len(),
{
    if es.len() > 0 {
        let init = es.drop_last();
        assert forall|i: int| 0 <= i < init.len() implies tsv_safe(#[trigger] init[i]) by {
            assert(init[i] == es[i]);
        }
        lemma_tsv_text_split(init);
        let e = es.last();
        assert(tsv_safe(es[es.len() - 1]));
        lemma_row_body_facts(e);
        let p = tsv_text(init);
        lemma_split_on_append(p, row_body(e), '\n');
        lemma_split_on_push_sep(p + row_body(e), '\n');
        assert(tsv_row(e) =~= row_body(e).push('\n'));
        assert(tsv_text(es) =~= (p + row_body(e)).push('\n'));
        let bodies = init.map_values(|x: DictView| row_body(x));
        assert(bodies.push(Seq::<char>::empty()).drop_last().push(
            Seq::<char>::empty() + row_body(e),
        ).push(Seq::<char>::empty()) =~= es.map_values(|x: DictView| row_body(x)).push(
            Seq::<char>::empty(),
        ));
    } else {
        assert(es.map_values(|e: DictView| row_body(e)).push(Seq::<char>::empty()) =~= seq![
            Seq::<char>::empty(),
        ]);
    }
}

proof fn lemma_tsv_upto_rows(es: Seq<DictView>, k: nat)
    requires
        k <= es.len(),
        forall|i: int| 0 <= i < es.len() ==> tsv_safe(#[trigger] es[i]),
    ensures
        tsv_upto(es.map_values(|e: DictView| row_body(e)), k) == Ok::<Seq<DictView>, ErrorView>(
            es.subrange(0, k as int),
        ),
    decreases k,
{
    if k == 0 {
        assert(es.subrange(0, 0) =~= Seq::<DictView>::empty());
    } else {
        lemma_tsv_upto_rows(es, (k - 1) as nat);
        assert(tsv_safe(es[k - 1]));
        lemma_tsv_line_row(es[k - 1]);
        assert(es.subrange(0, k as int) =~= es.subrange(0, k - 1).push(es[k - 1]));
    }
}

/// Entries written by `entries_to_tsv` parse back, by `parse_tsv`, to the
/// same entries, when each one is safe to write as TSV.
pub proof fn lemma_tsv_round_trip(es: Seq<DictView>)
    requires
        forall|i: int| 0 <= i < es.len() ==> tsv_safe(#[trigger] es[i]),
    ensures
        parse_tsv_spec(tsv_text(es)) == Ok::<Seq<DictView>, ErrorView>(es),
{
    let bodies = es.map_values(|e: DictView| row_body(e));
    lemma_tsv_text_split(es);
    let parts = split_on(tsv_text(es), '\n');
    assert(parts.last().len() == 0);
    assert(parts.drop_last() =~= bodies);
    assert forall|i: int| 0 <= i < bodies.len() implies strip_cr(#[trigger] bodies[i]) == bodies[i] by {
        assert(tsv_safe(es[i]));
        lemma_row_body_facts(es[i]);
    }
    assert(lines(tsv_text(es)) =~= bodies);
    lemma_tsv_upto_rows(es, es.len());
    assert(es.subrange(0, es.len() as int) =~= es);
}

/// Whether an entry comes back unchanged from a Rime body row written like
/// a TSV row: safe as TSV, with no `#` anywhere (it would start a comment)
/// and no white space at the end of its text.
pub open spec fn rime_safe(e: DictView) -> bool {
    &&& tsv_safe(e)
    &&& !is_ws(e.0.last())
    &&& lacks(e.0, '#')
    &&& forall|i: int| 0 <= i < e.1.len() ==> lacks(#[trigger] e.1[i], '#')
}

proof fn lemma_join_ends(parts: Seq<Seq<char>>)
    requires
        parts.len() > 0,
        forall|i: int| 0 <= i < parts.len() ==> (#[trigger] parts[i]).len() > 0,
    ensures
        join(parts, seq![' ']).len() > 0,
        join(parts, seq![' '])[0] == parts[0][0],
        join(parts, seq![' ']).last() == parts.last().last(),
    decreases parts.len(),
{
    if parts.len() > 1 {
        let init = parts.drop_last();
        assert forall|i: int| 0 <= i < init.len() implies (#[trigger] init[i]).len() > 0 by {
            assert(init[i] == parts[i]);
        }
        lemma_join_ends(init);
        assert(parts[parts.len() - 1].len() > 0);
        let j = join(init, seq![' ']);
        let x = j + seq![' '] + parts.last();
        assert(x[0] == j[0]);
        assert(x.last() == parts.last().last());
    } else {
        assert(parts[0].len() > 0);
    }
}

proof fn lemma_rime_line_row(e: DictView)
    requires
        rime_safe(e),
    ensures
        rime_line(row_body(e)) == Some(Ok::<DictView, Seq<char>>(e)),
{
    lemma_row_body_facts(e);
    let b = row_body(e);
    let j = join(e.1, seq![' ']);
    let d = decimal(e.2 as nat);
    lemma_decimal_parses(e.2 as nat);
    lemma_parse_decimal(e.2);
    lemma_words_join(e.1);
    // no comment
    lemma_join_lacks(e.1, '#');
    lemma_digits_lack(d, '#');
    assert forall|i: int| 0 <= i < b.len() implies b[i] != '#' by {
        if i < e.0.len() {
            assert(b[i] == e.0[i]);
        } else if i == e.0.len() {
        } else if i < e.0.len() + 1 + j.len() {
            assert(b[i] == j[i - e.0.len() - 1]);
        } else if i == e.0.len() + 1 + j.len() {
        } else {
            assert(b[i] == d[i - e.0.len() - 2 - j.len()]);
        }
    }
    lemma_split_on_single(b, '#');
    assert(split_on(trim(b), '#')[0] == b);
    // the fields are already trimmed
    assert(trim_start(e.0) == e.0);
    assert(trim_end(e.0) == e.0);
    assert forall|i: int| 0 <= i < e.1.len() implies (#[trigger] e.1[i]).len() > 0 by {}
    lemma_join_ends(e.1);
    assert(e.1[0].len() > 0 && !is_ws(e.1[0][0]));
    assert(e.1[e.1.len() - 1].len() > 0 && no_ws(e.1[e.1.len() - 1]));
    assert(e.1.last().last() == e.1.last()[e.1.last().len() - 1]);
    assert(!is_ws(j[0]));
    assert(!is_ws(j.last()));
    assert(trim_start(j) == j);
    assert(trim_end(j) == j);
    assert(d.last() == d[d.len() - 1]);
    assert(trim_start(d) == d);
    assert(trim_end(d) == d);
    let f = trimmed(split_on(b, '\t'));
    assert(f =~= seq![e.0, j, d]);
}

proof fn lemma_marker_text_split(es: Seq<DictView>)
    requires
        forall|i: int| 0 <= i < es.len() ==> tsv_safe(#[trigger] es[i]),
    ensures
        split_on(body_marker().push('\n') + tsv_text(es), '\n') == seq![body_marker()] + es.map_values(
            |e: DictView| row_body(e),
        ).push(Seq::<char>::empty()),
    decreases es.len(),
{
    let pre = body_marker().push('\n');
    if es.len() > 0 {
        let init = es.drop_last();
        assert forall|i: int| 0 <= i < init.len() implies tsv_safe(#[trigger] init[i]) by {
            assert(init[i] == es[i]);
        }
        lemma_marker_text_split(init);
        let e = es.last();
        assert(tsv_safe(es[es.len() - 1]));
        lemma_row_body_facts(e);
        let p = pre + tsv_text(init);
        lemma_split_on_append(p, row_body(e), '\n');
        lemma_split_on_push_sep(p + row_body(e), '\n');
        assert(tsv_row(e) =~= row_body(e).push('\n'));
        assert(pre + tsv_text(es) =~= (p + row_body(e)).push('\n'));
        let bodies = init.map_values(|x: DictView| row_body(x));
        assert((seq![body_marker()] + bodies.push(Seq::<char>::empty())).drop_last().push(
            Seq::<char>::empty() + row_body(e),
        ).push(Seq::<char>::empty()) =~= seq![body_marker()] + es.map_values(
            |x: DictView| row_body(x),
        ).push(Seq::<char>::empty()));
    } else {
        lemma_split_on_single(body_marker(), '\n');
        lemma_split_on_push_sep(body_marker(), '\n');
        assert(pre + tsv_text(es) =~= pre);
        assert(seq![body_marker()] + es.map_values(|e: DictView| row_body(e)).push(
            Seq::<char>::empty(),
        ) =~= seq![body_marker(), Seq::<char>::empty()]);
    }
}

proof fn lemma_rime_upto_rows(es: Seq<DictView>, k: nat)
    requires
        1 <= k <= es.len() + 1,
        forall|i: int| 0 <= i < es.len() ==> rime_safe(#[trigger] es[i]),
    ensures
        rime_upto(seq![body_marker()] + es.map_values(|e: DictView| row_body(e)), k) == (
            true,
            Ok::<Seq<DictView>, ErrorView>(es.subrange(0, k - 1)),
        ),
    decreases k,
{
    let ls = seq![body_marker()] + es.map_values(|e: DictView| row_body(e));
    if k == 1 {
        assert(ls[0] == body_marker());
        assert(trim_start(body_marker()) == body_marker());
        assert(trim_end(body_marker()) == body_marker());
        assert(trim(ls[0]) == body_marker());
        assert(rime_upto(ls, 0) == (false, Ok::<Seq<DictView>, ErrorView>(Seq::empty())));
        assert(es.subrange(0, 0) =~= Seq::<DictView>::empty());
    } else {
        lemma_rime_upto_rows(es, (k - 1) as nat);
        assert(rime_safe(es[k - 2]));
        assert(ls[k - 1] == row_body(es[k - 2]));
        lemma_rime_line_row(es[k - 2]);
        assert(rime_line(ls[k - 1]) == Some(Ok::<DictView, Seq<char>>(es[k - 2])));
        assert(es.subrange(0, k - 1) =~= es.subrange(0, k - 2).push(es[k - 2]));
    }
}

/// A Rime dictionary whose body, after the `...` line, lists entries as
/// `text<TAB>reading<TAB>frequency` rows parses to those entries, each with
/// the frequency its row gives, when each entry is safe to write so.
pub proof fn lemma_rime_round_trip(es: Seq<DictView>)
    requires
        forall|i: int| 0 <= i < es.len() ==> rime_safe(#[trigger] es[i]),
    ensures
        parse_rime_spec(body_marker().push('\n') + tsv_text(es)) == Ok::<Seq<DictView>, ErrorView>(
            es,
        ),
{
    let bodies = es.map_values(|e: DictView| row_body(e));
    assert forall|i: int| 0 <= i < es.len() implies tsv_safe(#[trigger] es[i]) by {
        assert(rime_safe(es[i]));
    }
    lemma_marker_text_split(es);
    let src = body_marker().push('\n') + tsv_text(es);
    let parts = split_on(src, '\n');
    assert(parts.last().len() == 0);
    let kept = seq![body_marker()] + bodies;
    assert(parts.drop_last() =~= kept);
    assert forall|i: int| 0 <= i < kept.len() implies strip_cr(#[trigger] kept[i]) == kept[i] by {
        if i > 0 {
            assert(kept[i] == bodies[i - 1]);
            assert(tsv_safe(es[i - 1]));
            lemma_row_body_facts(es[i - 1]);
        }
    }
    assert(lines(src) =~= kept);
    lemma_rime_upto_rows(es, es.len() + 1);
    assert(es.subrange(0, es.len() as int) =~= es);
}

/// A Rime body row that gives only the text and the reading,
/// `text<TAB>reading`, is an entry of frequency 1.
pub proof fn lemma_rime_row_default_frequency(text: Seq<char>, reading: Seq<Seq<char>>)
    requires
        rime_safe((text, reading, 1u32)),
    ensures
        rime_line(text + seq!['\t'] + join(reading, seq![' '])) == Some(
            Ok::<DictView, Seq<char>>((text, reading, 1u32)),
        ),
{
    let e = (text, reading, 1u32);
    let j = join(reading, seq![' ']);
    let b = text + seq!['\t'] + j;
    lemma_words_join(reading);
    assert forall|i: int| 0 <= i < reading.len() implies lacks(#[trigger] reading[i], '\t') by {
        lemma_no_ws_lacks(reading[i], '\t');
    }
    lemma_join_lacks(reading, '\t');
    lemma_join_lacks(reading, '#');
    assert forall|i: int| 0 <= i < b.len() implies b[i] != '#' by {
        if i < text.len() {
            assert(b[i] == text[i]);
        } else if i > text.len() {
            assert(b[i] == j[i - text.len() - 1]);
        }
    }
    lemma_join_ends(reading);
    assert(reading[0].len() > 0 && !is_ws(reading[0][0]));
    assert(reading[reading.len() - 1].len() > 0 && no_ws(reading[reading.len() - 1]));
    assert(reading.last().last() == reading.last()[reading.last().len() - 1]);
    assert(!is_ws(j[0]));
    assert(!is_ws(j.last()));
    assert(b[0] == text[0]);
    assert(b.last() == j.last());
    assert(trim_start(b) == b);
    assert(trim_end(b) == b);
    lemma_split_on_single(b, '#');
    assert(trim_start(text) == text);
    assert(trim_end(text) == text);
    assert(trim_start(j) == j);
    assert(trim_end(j) == j);
    lemma_split_on_single(text, '\t');
    lemma_split_on_push_sep(text, '\t');
    lemma_split_on_append(text.push('\t'), j, '\t');
    assert(seq![text, Seq::<char>::empty()].drop_last().push(Seq::<char>::empty() + j) =~= seq![
        text,
        j,
    ]);
    assert(text.push('\t') + j =~= b);
    assert(trimmed(split_on(b, '\t')) =~= seq![text, j]);
}

} // verus!
