//! Input normalization and fuzzy pinyin spellings (`zh↔z`, `ch↔c`,
//! `sh↔s`, `ang↔an`, `eng↔en`, `ing↔in`).
use crate::text::{chars_of, push_char, string_from};
use vstd::prelude::*;

verus! {

/// Whether `c` is an ASCII letter.
pub open spec fn is_ascii_alpha(c: char) -> bool {
    ('a' <= c <= 'z') || ('A' <= c <= 'Z')
}

/// The lowercase form of an ASCII letter.
pub open spec fn ascii_lower(c: char) -> char {
    if 'A' <= c <= 'Z' {
        ((c as u32) + 32) as char
    } else {
        c
    }
}

/// The ASCII letters of `s`, lowercased, in order.
pub open spec fn normalize(s: Seq<char>) -> Seq<char>
    decreases s.len(),
{
    if s.len() == 0 {
        Seq::empty()
    } else if is_ascii_alpha(s.last()) {
        normalize(s.drop_last()).push(ascii_lower(s.last()))
    } else {
        normalize(s.drop_last())
    }
}

/// Keeps the ASCII letters of `input`, lowercased.
pub fn normalize_input(input: &str) -> (r: String)
    ensures
        r@ == normalize(input@),
{
    let v = chars_of(input);
    let mut r = String::new();
    let mut i: usize = 0;
    while i < v.len()
        invariant
            i <= v@.len(),
            v@ == input@,
            r@ == normalize(v@.subrange(0, i as int)),
        decreases v@.len() - i,
    {
        let c = v[i];
        let ghost p = v@.subrange(0, i + 1);
        assert(p.drop_last() == v@.subrange(0, i as int));
        if 'a' <= c && c <= 'z' {
            push_char(&mut r, c);
        } else if 'A' <= c && c <= 'Z' {
            push_char(&mut r, ((c as u8) + 32) as char);
        }
        i += 1;
    }
    assert(v@.subrange(0, v@.len() as int) == v@);
    r
}

/// The initial pairs, full spelling then fuzzy short spelling.
pub open spec fn initial_pair(k: int) -> (Seq<char>, Seq<char>) {
    if k == 0 {
        ("zh"@, "z"@)
    } else if k == 1 {
        ("ch"@, "c"@)
    } else {
        ("sh"@, "s"@)
    }
}

/// The final pairs, full spelling then fuzzy short spelling.
pub open spec fn final_pair(k: int) -> (Seq<char>, Seq<char>) {
    if k == 0 {
        ("ang"@, "an"@)
    } else if k == 1 {
        ("eng"@, "en"@)
    } else {
        ("ing"@, "in"@)
    }
}

/// Whether `s` starts with `p`.
pub open spec fn has_prefix(s: Seq<char>, p: Seq<char>) -> bool {
    p.len() <= s.len() && s.subrange(0, p.len() as int) == p
}

/// Whether `s` ends with `p`.
pub open spec fn has_suffix(s: Seq<char>, p: Seq<char>) -> bool {
    p.len() <= s.len() && s.subrange(s.len() - p.len(), s.len() as int) == p
}

/// The spelling with initial pair `k` swapped, if the syllable has either.
pub open spec fn initial_variant(s: Seq<char>, k: int) -> Seq<Seq<char>> {
    let (full, short) = initial_pair(k);
    if has_prefix(s, full) {
        seq![short + s.subrange(full.len() as int, s.len() as int)]
    } else if has_prefix(s, short) {
        seq![full + s.subrange(short.len() as int, s.len() as int)]
    } else {
        Seq::empty()
    }
}

/// The spellings with one initial swapped.
pub open spec fn initial_variants(s: Seq<char>) -> Seq<Seq<char>> {
    initial_variant(s, 0) + initial_variant(s, 1) + initial_variant(s, 2)
}

/// The spelling of `cand` with final pair `k` swapped, if it has either.
pub open spec fn final_variant(cand: Seq<char>, k: int) -> Option<Seq<char>> {
    let (full, short) = final_pair(k);
    if has_suffix(cand, full) {
        Some(cand.subrange(0, cand.len() - full.len()) + short)
    } else if has_suffix(cand, short) {
        Some(cand.subrange(0, cand.len() - short.len()) + full)
    } else {
        None
    }
}

/// `acc` with `v` appended when it is new and differs from `syl`.
pub open spec fn push_new(acc: Seq<Seq<char>>, syl: Seq<char>, v: Option<Seq<char>>) -> Seq<
    Seq<char>,
> {
    match v {
        Some(x) => if x != syl && !acc.contains(x) {
            acc.push(x)
        } else {
            acc
        },
        None => acc,
    }
}

/// `acc` after trying the final swaps of `cand`, in pair order.
pub open spec fn finals_for(acc: Seq<Seq<char>>, syl: Seq<char>, cand: Seq<char>) -> Seq<
    Seq<char>,
> {
    push_new(
        push_new(push_new(acc, syl, final_variant(cand, 0)), syl, final_variant(cand, 1)),
        syl,
        final_variant(cand, 2),
    )
}

/// `acc` after trying the final swaps of every candidate, in order.
pub open spec fn finals_over(acc: Seq<Seq<char>>, syl: Seq<char>, cands: Seq<Seq<char>>) -> Seq<
    Seq<char>,
>
    decreases cands.len(),
{
    if cands.len() == 0 {
        acc
    } else {
        finals_for(finals_over(acc, syl, cands.drop_last()), syl, cands.last())
    }
}

/// `vs` without the elements equal to `syl`.
pub open spec fn without(vs: Seq<Seq<char>>, syl: Seq<char>) -> Seq<Seq<char>>
    decreases vs.len(),
{
    if vs.len() == 0 {
        vs
    } else if vs.last() == syl {
        without(vs.drop_last(), syl)
    } else {
        without(vs.drop_last(), syl).push(vs.last())
    }
}

/// The fuzzy spellings of a syllable, excluding itself: first the initial
/// swaps, then the final swaps of the syllable and of each initial swap.
pub open spec fn fuzzy_variants_spec(syl: Seq<char>) -> Seq<Seq<char>> {
    let base = initial_variants(syl);
    without(finals_over(base, syl, seq![syl] + base), syl)
}

/// Whether two syllables match under the fuzzy rules.
pub open spec fn fuzzy_eq_spec(left: Seq<char>, right: Seq<char>) -> bool {
    left == right || fuzzy_variants_spec(left).contains(right) || fuzzy_variants_spec(
        right,
    ).contains(left)
}

/// The character sequences of a list of character vectors.
pub open spec fn cviews(vs: Seq<Vec<char>>) -> Seq<Seq<char>> {
    vs.map_values(|v: Vec<char>| v@)
}

fn chars_eq(a: &Vec<char>, b: &Vec<char>) -> (r: bool)
    ensures
        r == (a@ == b@),
{
    if a.len() != b.len() {
        return false;
    }
    let mut i: usize = 0;
    while i < a.len()
        invariant
            a@.len() == b@.len(),
            i <= a@.len(),
            forall|j: int| 0 <= j < i ==> a@[j] == b@[j],
        decreases a@.len() - i,
    {
        if a[i] != b[i] {
            return false;
        }
        i += 1;
    }
    assert(a@ =~= b@);
    true
}

fn contains_chars(vs: &Vec<Vec<char>>, x: &Vec<char>) -> (r: bool)
    ensures
        r == cviews(vs@).contains(x@),
{
    let mut i: usize = 0;
    while i < vs.len()
        invariant
            i <= vs@.len(),
            forall|j: int| 0 <= j < i ==> cviews(vs@)[j] != x@,
        decreases vs@.len() - i,
    {
        if chars_eq(&vs[i], x) {
            assert(cviews(vs@)[i as int] == x@);
            return true;
        }
        i += 1;
    }
    false
}

fn starts_with(s: &Vec<char>, p: &str) -> (r: bool)
    ensures
        r == has_prefix(s@, p@),
{
    let pv = chars_of(p);
    if pv.len() > s.len() {
        return false;
    }
    let mut i: usize = 0;
    while i < pv.len()
        invariant
            pv@ == p@,
            pv@.len() <= s@.len(),
            i <= pv@.len(),
            forall|j: int| 0 <= j < i ==> s@[j] == pv@[j],
        decreases pv@.len() - i,
    {
        if s[i] != pv[i] {
            assert(s@.subrange(0, pv@.len() as int)[i as int] != pv@[i as int]);
            return false;
        }
        i += 1;
    }
    assert(s@.subrange(0, pv@.len() as int) =~= pv@);
    true
}

fn ends_with(s: &Vec<char>, p: &str) -> (r: bool)
    ensures
        r == has_suffix(s@, p@),
{
    let pv = chars_of(p);
    if pv.len() > s.len() {
        return false;
    }
    let off = s.len() - pv.len();
    let mut i: usize = 0;
    while i < pv.len()
        invariant
            pv@ == p@,
            pv@.len() <= s@.len(),
            off == s@.len() - pv@.len(),
            s@.len() == s.len(),
            i <= pv@.len(),
            forall|j: int| 0 <= j < i ==> s@[off + j] == pv@[j],
        decreases pv@.len() - i,
    {
        assert(off + i < s@.len());
        if s[off + i] != pv[i] {
            assert(s@.subrange(off as int, s@.len() as int)[i as int] != pv@[i as int]);
            return false;
        }
        i += 1;
    }
    assert(s@.subrange(off as int, s@.len() as int) =~= pv@);
    true
}

/// `a` followed by `b[from..to]`.
fn join_chars(a: &str, b: &Vec<char>, from: usize, to: usize) -> (r: Vec<char>)
    requires
        from <= to <= b@.len(),
    ensures
        r@ == a@ + b@.subrange(from as int, to as int),
{
    let mut r = chars_of(a);
    let mut i = from;
    while i < to
        invariant
            from <= i <= to <= b@.len(),
            r@ == a@ + b@.subrange(from as int, i as int),
        decreases to - i,
    {
        r.push(b[i]);
        assert(b@.subrange(from as int, i + 1) == b@.subrange(from as int, i as int).push(
            b@[i as int],
        ));
        i += 1;
    }
    r
}

/// `b[from..to]` followed by `a`.
fn join_chars_after(b: &Vec<char>, from: usize, to: usize, a: &str) -> (r: Vec<char>)
    requires
        from <= to <= b@.len(),
    ensures
        r@ == b@.subrange(from as int, to as int) + a@,
{
    let av = chars_of(a);
    let mut r: Vec<char> = Vec::new();
    let mut i = from;
    while i < to
        invariant
            from <= i <= to <= b@.len(),
            r@ == b@.subrange(from as int, i as int),
        decreases to - i,
    {
        r.push(b[i]);
        assert(b@.subrange(from as int, i + 1) == b@.subrange(from as int, i as int).push(
            b@[i as int],
        ));
        i += 1;
    }
    let mut k: usize = 0;
    while k < av.len()
        invariant
            k <= av@.len(),
            av@ == a@,
            r@ == b@.subrange(from as int, to as int) + av@.subrange(0, k as int),
        decreases av@.len() - k,
    {
        r.push(av[k]);
        assert(av@.subrange(0, k + 1) == av@.subrange(0, k as int).push(av@[k as int]));
        k += 1;
    }
    assert(av@.subrange(0, av@.len() as int) == av@);
    r
}

fn initial_variant_exec(s: &Vec<char>, k: usize, out: &mut Vec<Vec<char>>)
    requires
        k < 3,
    ensures
        cviews(final(out)@) == cviews(old(out)@) + initial_variant(s@, k as int),
{
    let (full, short) = if k == 0 {
        ("zh", "z")
    } else if k == 1 {
        ("ch", "c")
    } else {
        ("sh", "s")
    };
    assert(full@ == initial_pair(k as int).0 && short@ == initial_pair(k as int).1);
    let ghost before = cviews(out@);
    if starts_with(s, full) {
        let v = join_chars(short, s, full.unicode_len(), s.len());
        out.push(v);
    } else if starts_with(s, short) {
        let v = join_chars(full, s, short.unicode_len(), s.len());
        out.push(v);
    }
    assert(cviews(out@) =~= before + initial_variant(s@, k as int));
}

fn final_variant_exec(cand: &Vec<char>, k: usize) -> (r: Option<Vec<char>>)
    requires
        k < 3,
    ensures
        match final_variant(cand@, k as int) {
            Some(x) => r matches Some(v) && v@ == x,
            None => r is None,
        },
{
    let (full, short) = if k == 0 {
        ("ang", "an")
    } else if k == 1 {
        ("eng", "en")
    } else {
        ("ing", "in")
    };
    assert(full@ == final_pair(k as int).0 && short@ == final_pair(k as int).1);
    if ends_with(cand, full) {
        Some(join_chars_after(cand, 0, cand.len() - full.unicode_len(), short))
    } else if ends_with(cand, short) {
        Some(join_chars_after(cand, 0, cand.len() - short.unicode_len(), full))
    } else {
        None
    }
}

fn push_new_exec(acc: &mut Vec<Vec<char>>, syl: &Vec<char>, v: Option<Vec<char>>)
    ensures
        cviews(final(acc)@) == push_new(
            cviews(old(acc)@),
            syl@,
            match v {
                Some(x) => Some(x@),
                None => None,
            },
        ),
{
    match v {
        Some(x) => {
            if !chars_eq(&x, syl) && !contains_chars(acc, &x) {
                let ghost before = cviews(acc@);
                acc.push(x);
                assert(cviews(acc@) =~= before.push(x@));
            }
        },
        None => {},
    }
}

/// Returns the fuzzy spellings of `syllable`, excluding itself.
pub fn fuzzy_variants(syllable: &str) -> (r: Vec<String>)
    ensures
        r.deep_view() == fuzzy_variants_spec(syllable@),
{
    let s = chars_of(syllable);
    let mut variants: Vec<Vec<char>> = Vec::new();
    initial_variant_exec(&s, 0, &mut variants);
    initial_variant_exec(&s, 1, &mut variants);
    initial_variant_exec(&s, 2, &mut variants);
    assert(cviews(variants@) =~= initial_variants(s@));
    let ghost base = cviews(variants@);
    let mut cands: Vec<Vec<char>> = Vec::new();
    cands.push(chars_of(syllable));
    let mut j: usize = 0;
    while j < variants.len()
        invariant
            j <= variants@.len(),
            cviews(variants@) == base,
            cviews(cands@) == seq![s@] + base.subrange(0, j as int),
        decreases variants@.len() - j,
    {
        let mut copy: Vec<char> = Vec::new();
        let mut t: usize = 0;
        while t < variants[j].len()
            invariant
                j < variants@.len(),
                t <= variants@[j as int]@.len(),
                copy@ == variants@[j as int]@.subrange(0, t as int),
            decreases variants@[j as int]@.len() - t,
        {
            copy.push(variants[j][t]);
            assert(variants@[j as int]@.subrange(0, t + 1) == variants@[j as int]@.subrange(
                0,
                t as int,
            ).push(variants@[j as int]@[t as int]));
            t += 1;
        }
        assert(variants@[j as int]@.subrange(0, t as int) == variants@[j as int]@);
        let ghost before = cviews(cands@);
        cands.push(copy);
        assert(cviews(cands@) =~= before.push(base[j as int]));
        assert(seq![s@] + base.subrange(0, j + 1) =~= (seq![s@] + base.subrange(0, j as int)).push(
            base[j as int],
        ));
        j += 1;
    }
    assert(base.subrange(0, base.len() as int) == base);
    let ghost all = cviews(cands@);
    let mut i: usize = 0;
    while i < cands.len()
        invariant
            i <= cands@.len(),
            cviews(cands@) == all,
            cviews(variants@) == finals_over(base, s@, all.subrange(0, i as int)),
        decreases cands@.len() - i,
    {
        let ghost before = cviews(variants@);
        let v0 = final_variant_exec(&cands[i], 0);
        push_new_exec(&mut variants, &s, v0);
        let v1 = final_variant_exec(&cands[i], 1);
        push_new_exec(&mut variants, &s, v1);
        let v2 = final_variant_exec(&cands[i], 2);
        push_new_exec(&mut variants, &s, v2);
        assert(cviews(variants@) == finals_for(before, s@, all[i as int]));
        assert(all.subrange(0, i + 1).drop_last() =~= all.subrange(0, i as int));
        i += 1;
    }
    assert(all.subrange(0, all.len() as int) == all);
    let ghost fo = cviews(variants@);
    let mut r: Vec<String> = Vec::new();
    let mut k: usize = 0;
    while k < variants.len()
        invariant
            k <= variants@.len(),
            cviews(variants@) == fo,
            r.deep_view() == without(fo.subrange(0, k as int), s@),
        decreases variants@.len() - k,
    {
        assert(fo.subrange(0, k + 1).drop_last() =~= fo.subrange(0, k as int));
        if !chars_eq(&variants[k], &s) {
            let ghost before = r.deep_view();
            let st = string_from(&variants[k], 0, variants[k].len());
            assert(variants@[k as int]@.subrange(0, variants@[k as int]@.len() as int)
                == variants@[k as int]@);
            r.push(st);
            assert(r.deep_view() =~= before.push(fo[k as int]));
        }
        k += 1;
    }
    assert(fo.subrange(0, fo.len() as int) == fo);
    r
}

/// Whether two syllables match under the fuzzy rules.
pub fn fuzzy_eq(left: &str, right: &str) -> (r: bool)
    ensures
        r == fuzzy_eq_spec(left@, right@),
{
    let lv = chars_of(left);
    let rv = chars_of(right);
    if chars_eq(&lv, &rv) {
        return true;
    }
    let lvars = fuzzy_variants(left);
    let mut i: usize = 0;
    while i < lvars.len()
        invariant
            i <= lvars@.len(),
            rv@ == right@,
            lvars.deep_view() == fuzzy_variants_spec(left@),
            forall|j: int| 0 <= j < i ==> lvars.deep_view()[j] != right@,
        decreases lvars@.len() - i,
    {
        let c = chars_of(lvars[i].as_str());
        if chars_eq(&c, &rv) {
            assert(lvars.deep_view()[i as int] == right@);
            return true;
        }
        i += 1;
    }
    let rvars = fuzzy_variants(right);
    let mut k: usize = 0;
    while k < rvars.len()
        invariant
            k <= rvars@.len(),
            lv@ == left@,
            rvars.deep_view() == fuzzy_variants_spec(right@),
            forall|j: int| 0 <= j < k ==> rvars.deep_view()[j] != left@,
        decreases rvars@.len() - k,
    {
        let c = chars_of(rvars[k].as_str());
        if chars_eq(&c, &lv) {
            assert(rvars.deep_view()[k as int] == left@);
            return true;
        }
        k += 1;
    }
    false
}

proof fn lemma_without_lacks(vs: Seq<Seq<char>>, syl: Seq<char>)
    ensures
        !without(vs, syl).contains(syl),
    decreases vs.len(),
{
    if vs.len() > 0 {
        lemma_without_lacks(vs.drop_last(), syl);
        let w = without(vs.drop_last(), syl);
        if vs.last() != syl {
            assert forall|i: int| 0 <= i < w.push(vs.last()).len() implies w.push(vs.last())[i]
                != syl by {
                if i < w.len() {
                    assert(w.push(vs.last())[i] == w[i]);
                }
            }
        }
    }
}

/// A syllable is never among its own fuzzy spellings.
pub proof fn lemma_variants_exclude_syllable(syl: Seq<char>)
    ensures
        !fuzzy_variants_spec(syl).contains(syl),
{
    let base = initial_variants(syl);
    lemma_without_lacks(finals_over(base, syl, seq![syl] + base), syl);
}

proof fn lemma_push_new_keeps(acc: Seq<Seq<char>>, syl: Seq<char>, v: Option<Seq<char>>, x: Seq<char>)
    ensures
        acc.contains(x) ==> push_new(acc, syl, v).contains(x),
        v == Some(x) && x != syl ==> push_new(acc, syl, v).contains(x),
{
    if acc.contains(x) {
        let i = choose|i: int| 0 <= i < acc.len() && acc[i] == x;
        if let Some(y) = v {
            if y != syl && !acc.contains(y) {
                assert(acc.push(y)[i] == x);
            }
        }
    }
    if v == Some(x) && x != syl && !acc.contains(x) {
        assert(acc.push(x)[acc.len() as int] == x);
    }
}

proof fn lemma_finals_for_keeps(acc: Seq<Seq<char>>, syl: Seq<char>, cand: Seq<char>, x: Seq<char>)
    ensures
        acc.contains(x) ==> finals_for(acc, syl, cand).contains(x),
        x != syl && (final_variant(cand, 0) == Some(x) || final_variant(cand, 1) == Some(x)
            || final_variant(cand, 2) == Some(x)) ==> finals_for(acc, syl, cand).contains(x),
{
    let a1 = push_new(acc, syl, final_variant(cand, 0));
    let a2 = push_new(a1, syl, final_variant(cand, 1));
    lemma_push_new_keeps(acc, syl, final_variant(cand, 0), x);
    lemma_push_new_keeps(a1, syl, final_variant(cand, 1), x);
    lemma_push_new_keeps(a2, syl, final_variant(cand, 2), x);
}

proof fn lemma_finals_over_keeps(acc: Seq<Seq<char>>, syl: Seq<char>, cands: Seq<Seq<char>>, x: Seq<char>)
    ensures
        acc.contains(x) ==> finals_over(acc, syl, cands).contains(x),
        x != syl && (exists|c: int, k: int|
            0 <= c < cands.len() && 0 <= k < 3 && #[trigger] final_variant(cands[c], k) == Some(x))
            ==> finals_over(acc, syl, cands).contains(x),
    decreases cands.len(),
{
    if cands.len() > 0 {
        let init = cands.drop_last();
        lemma_finals_over_keeps(acc, syl, init, x);
        lemma_finals_for_keeps(finals_over(acc, syl, init), syl, cands.last(), x);
        if x != syl && (exists|c: int, k: int|
            0 <= c < cands.len() && 0 <= k < 3 && #[trigger] final_variant(cands[c], k) == Some(x)) {
            let (c, k) = choose|c: int, k: int|
                0 <= c < cands.len() && 0 <= k < 3 && #[trigger] final_variant(cands[c], k) == Some(x);
            if c < cands.len() - 1 {
                assert(init[c] == cands[c]);
                assert(final_variant(init[c], k) == Some(x));
            } else {
                assert(cands.last() == cands[c]);
                assert(k == 0 || k == 1 || k == 2);
            }
        }
    }
}

proof fn lemma_without_keeps(vs: Seq<Seq<char>>, syl: Seq<char>, x: Seq<char>)
    requires
        vs.contains(x),
        x != syl,
    ensures
        without(vs, syl).contains(x),
    decreases vs.len(),
{
    let w = without(vs.drop_last(), syl);
    if vs.last() == x {
        assert(w.push(x)[w.len() as int] == x);
    } else {
        let i = choose|i: int| 0 <= i < vs.len() && vs[i] == x;
        assert(vs.drop_last()[i] == x);
        lemma_without_keeps(vs.drop_last(), syl, x);
        if vs.last() != syl {
            let j = choose|j: int| 0 <= j < w.len() && w[j] == x;
            assert(w.push(vs.last())[j] == x);
        }
    }
}

/// Each initial pair (`zh`/`z`, `ch`/`c`, `sh`/`s`) swaps either way: a
/// syllable that starts with the full spelling has the short one in its
/// place among its fuzzy spellings, and one that starts with the short
/// spelling but not the full one has the full one; the two syllables then
/// match under the fuzzy rules.
pub proof fn lemma_initial_pairs_swap(syl: Seq<char>, full: Seq<char>, short: Seq<char>)
    requires
        (full == seq!['z', 'h'] && short == seq!['z']) || (full == seq!['c', 'h'] && short
            == seq!['c']) || (full == seq!['s', 'h'] && short == seq!['s']),
    ensures
        has_prefix(syl, full) ==> fuzzy_variants_spec(syl).contains(
            short + syl.subrange(full.len() as int, syl.len() as int),
        ) && fuzzy_eq_spec(syl, short + syl.subrange(full.len() as int, syl.len() as int)),
        has_prefix(syl, short) && !has_prefix(syl, full) ==> fuzzy_variants_spec(syl).contains(
            full + syl.subrange(short.len() as int, syl.len() as int),
        ) && fuzzy_eq_spec(syl, full + syl.subrange(short.len() as int, syl.len() as int)),
{
    reveal_strlit("zh");
    reveal_strlit("z");
    reveal_strlit("ch");
    reveal_strlit("c");
    reveal_strlit("sh");
    reveal_strlit("s");
    let k: int = if full == seq!['z', 'h'] {
        0
    } else if full == seq!['c', 'h'] {
        1
    } else {
        2
    };
    assert(initial_pair(k).0 =~= full);
    assert(initial_pair(k).1 =~= short);
    let base = initial_variants(syl);
    let x = if has_prefix(syl, full) {
        short + syl.subrange(full.len() as int, syl.len() as int)
    } else {
        full + syl.subrange(short.len() as int, syl.len() as int)
    };
    if has_prefix(syl, full) || has_prefix(syl, short) {
        assert(x.len() != syl.len());
        assert(initial_variant(syl, k) =~= seq![x]);
        let b0 = initial_variant(syl, 0);
        let b1 = initial_variant(syl, 1);
        if k == 0 {
            assert(base[0] == x);
        } else if k == 1 {
            assert(base[b0.len() as int] == x);
        } else {
            assert(base[(b0.len() + b1.len()) as int] == x);
        }
        lemma_finals_over_keeps(base, syl, seq![syl] + base, x);
        lemma_without_keeps(finals_over(base, syl, seq![syl] + base), syl, x);
    }
}

/// Each final pair (`ang`/`an`, `eng`/`en`, `ing`/`in`) swaps either way: a
/// syllable that ends with the full spelling has the short one in its place
/// among its fuzzy spellings, and one that ends with the short spelling but
/// not the full one has the full one; the two syllables then match under
/// the fuzzy rules.
pub proof fn lemma_final_pairs_swap(syl: Seq<char>, full: Seq<char>, short: Seq<char>)
    requires
        (full == seq!['a', 'n', 'g'] && short == seq!['a', 'n']) || (full == seq!['e', 'n', 'g']
            && short == seq!['e', 'n']) || (full == seq!['i', 'n', 'g'] && short == seq!['i', 'n']),
    ensures
        has_suffix(syl, full) ==> fuzzy_variants_spec(syl).contains(
            syl.subrange(0, syl.len() - full.len()) + short,
        ) && fuzzy_eq_spec(syl, syl.subrange(0, syl.len() - full.len()) + short),
        has_suffix(syl, short) && !has_suffix(syl, full) ==> fuzzy_variants_spec(syl).contains(
            syl.subrange(0, syl.len() - short.len()) + full,
        ) && fuzzy_eq_spec(syl, syl.subrange(0, syl.len() - short.len()) + full),
{
    reveal_strlit("ang");
    reveal_strlit("an");
    reveal_strlit("eng");
    reveal_strlit("en");
    reveal_strlit("ing");
    reveal_strlit("in");
    let k: int = if full == seq!['a', 'n', 'g'] {
        0
    } else if full == seq!['e', 'n', 'g'] {
        1
    } else {
        2
    };
    assert(final_pair(k).0 =~= full);
    assert(final_pair(k).1 =~= short);
    let base = initial_variants(syl);
    let cands = seq![syl] + base;
    let x = if has_suffix(syl, full) {
        syl.subrange(0, syl.len() - full.len()) + short
    } else {
        syl.subrange(0, syl.len() - short.len()) + full
    };
    if has_suffix(syl, full) || has_suffix(syl, short) {
        assert(x.len() != syl.len());
        assert(cands[0] == syl);
        assert(final_variant(cands[0], k) == Some(x));
        lemma_finals_over_keeps(base, syl, cands, x);
        lemma_without_keeps(finals_over(base, syl, cands), syl, x);
    }
}

} // verus!
