//! Character-level text helpers shared by the parsers and formatters.
//!
//! Text is scanned as a `Vec<char>` whose view equals the string's view, and
//! pieces are addressed by half-open index ranges into it.
use vstd::prelude::*;
use vstd::std_specs::iter::IteratorSpec;

verus! {

/// Unicode `White_Space`, the set that `char::is_whitespace` tests.
pub open spec fn is_ws(c: char) -> bool {
    let u = c as u32;
    ||| (0x09 <= u && u <= 0x0D)
    ||| u == 0x20
    ||| u == 0x85
    ||| u == 0xA0
    ||| u == 0x1680
    ||| (0x2000 <= u && u <= 0x200A)
    ||| u == 0x2028
    ||| u == 0x2029
    ||| u == 0x202F
    ||| u == 0x205F
    ||| u == 0x3000
}

/// Whether `c` is Unicode white space.
pub fn is_whitespace(c: char) -> (r: bool)
    ensures
        r == is_ws(c),
{
    let u = c as u32;
    (0x09 <= u && u <= 0x0D) || u == 0x20 || u == 0x85 || u == 0xA0 || u == 0x1680 || (0x2000
        <= u && u <= 0x200A) || u == 0x2028 || u == 0x2029 || u == 0x202F || u == 0x205F || u
        == 0x3000
}

/// The characters of `s`, in order.
pub fn chars_of(s: &str) -> (r: Vec<char>)
    ensures
        r@ == s@,
{
    let mut r: Vec<char> = Vec::new();
    for c in it: s.chars()
        invariant
            r@ == it.seq().take(it.index() as int),
    {
        r.push(c);
    }
    r
}

/// Appends `c` to `s` (`String::push`).
#[verifier::external_body]
pub(crate) fn push_char(s: &mut String, c: char)
    ensures
        final(s)@ == old(s)@.push(c),
{
    s.push(c);
}

/// The string made of `v[lo..hi]`.
pub fn string_from(v: &Vec<char>, lo: usize, hi: usize) -> (r: String)
    requires
        lo <= hi <= v@.len(),
    ensures
        r@ == v@.subrange(lo as int, hi as int),
{
    let mut r = String::new();
    let mut i = lo;
    while i < hi
        invariant
            lo <= i <= hi <= v@.len(),
            r@ == v@.subrange(lo as int, i as int),
        decreases hi - i,
    {
        push_char(&mut r, v[i]);
        assert(v@.subrange(lo as int, i + 1) == v@.subrange(lo as int, i as int).push(v@[i as int]));
        i += 1;
    }
    r
}

/// Appends every character of `t` to `s`.
pub fn push_all(s: &mut String, t: &str)
    ensures
        final(s)@ == old(s)@ + t@,
{
    let v = chars_of(t);
    let mut i: usize = 0;
    while i < v.len()
        invariant
            i <= v@.len(),
            v@ == t@,
            s@ == old(s)@ + v@.subrange(0, i as int),
        decreases v@.len() - i,
    {
        push_char(s, v[i]);
        assert(v@.subrange(0, i + 1) == v@.subrange(0, i as int).push(v@[i as int]));
        i += 1;
    }
    assert(v@.subrange(0, v@.len() as int) == v@);
}

/// `s` without its leading white space.
pub open spec fn trim_start(s: Seq<char>) -> Seq<char>
    decreases s.len(),
{
    if s.len() > 0 && is_ws(s[0]) {
        trim_start(s.drop_first())
    } else {
        s
    }
}

/// `s` without its trailing white space.
pub open spec fn trim_end(s: Seq<char>) -> Seq<char>
    decreases s.len(),
{
    if s.len() > 0 && is_ws(s.last()) {
        trim_end(s.drop_last())
    } else {
        s
    }
}

/// `s` without leading and trailing white space (`str::trim`).
pub open spec fn trim(s: Seq<char>) -> Seq<char> {
    trim_end(trim_start(s))
}

/// The bounds of `trim(v[lo..hi])` inside `v`.
pub fn trim_bounds(v: &Vec<char>, lo: usize, hi: usize) -> (r: (usize, usize))
    requires
        lo <= hi <= v@.len(),
    ensures
        lo <= r.0 <= r.1 <= hi,
        v@.subrange(r.0 as int, r.1 as int) == trim(v@.subrange(lo as int, hi as int)),
{
    let mut a = lo;
    while a < hi && is_whitespace(v[a])
        invariant
            lo <= a <= hi <= v@.len(),
            trim_start(v@.subrange(a as int, hi as int)) == trim_start(
                v@.subrange(lo as int, hi as int),
            ),
        decreases hi - a,
    {
        assert(v@.subrange(a as int, hi as int).drop_first() == v@.subrange(a + 1, hi as int));
        a += 1;
    }
    let mut b = hi;
    while b > a && is_whitespace(v[b - 1])
        invariant
            lo <= a <= b <= hi <= v@.len(),
            trim_end(v@.subrange(a as int, b as int)) == trim(v@.subrange(lo as int, hi as int)),
        decreases b - a,
    {
        assert(v@.subrange(a as int, b as int).drop_last() == v@.subrange(a as int, b - 1));
        b -= 1;
    }
    (a, b)
}

/// The pieces of `s` between occurrences of `sep` (`str::split` on a char).
pub open spec fn split_on(s: Seq<char>, sep: char) -> Seq<Seq<char>>
    decreases s.len(),
{
    if s.len() == 0 {
        seq![Seq::<char>::empty()]
    } else {
        let prev = split_on(s.drop_last(), sep);
        if s.last() == sep {
            prev.push(Seq::<char>::empty())
        } else {
            prev.update(prev.len() - 1, prev.last().push(s.last()))
        }
    }
}

pub proof fn lemma_split_on_nonempty(s: Seq<char>, sep: char)
    ensures
        split_on(s, sep).len() >= 1,
    decreases s.len(),
{
    if s.len() > 0 {
        lemma_split_on_nonempty(s.drop_last(), sep);
    }
}

/// The pieces named by index ranges into `v`.
pub open spec fn pieces(v: Seq<char>, ranges: Seq<(usize, usize)>) -> Seq<Seq<char>> {
    ranges.map_values(|p: (usize, usize)| v.subrange(p.0 as int, p.1 as int))
}

/// Whether every range lies inside `lo..hi` and is well ordered.
pub open spec fn ranges_within(ranges: Seq<(usize, usize)>, lo: int, hi: int) -> bool {
    forall|k: int| 0 <= k < ranges.len() ==> lo <= #[trigger] ranges[k].0 <= ranges[k].1 <= hi
}

/// The ranges of `split_on(v[lo..hi], sep)`.
pub fn split_bounds(v: &Vec<char>, lo: usize, hi: usize, sep: char) -> (r: Vec<(usize, usize)>)
    requires
        lo <= hi <= v@.len(),
    ensures
        ranges_within(r@, lo as int, hi as int),
        pieces(v@, r@) == split_on(v@.subrange(lo as int, hi as int), sep),
{
    let mut r: Vec<(usize, usize)> = Vec::new();
    let mut start = lo;
    let mut i = lo;
    assert(v@.subrange(lo as int, lo as int) == Seq::<char>::empty());
    while i < hi
        invariant
            lo <= start <= i <= hi <= v@.len(),
            ranges_within(r@, lo as int, i as int),
            pieces(v@, r@).push(v@.subrange(start as int, i as int)) == split_on(
                v@.subrange(lo as int, i as int),
                sep,
            ),
        decreases hi - i,
    {
        let ghost s = v@.subrange(lo as int, i + 1);
        assert(s.drop_last() == v@.subrange(lo as int, i as int));
        assert(s.last() == v@[i as int]);
        proof {
            lemma_split_on_nonempty(s.drop_last(), sep);
        }
        if v[i] == sep {
            r.push((start, i));
            start = i + 1;
            assert(v@.subrange(start as int, i + 1) == Seq::<char>::empty());
            assert(pieces(v@, r@) == pieces(v@, r@.drop_last()).push(
                v@.subrange(r@.last().0 as int, r@.last().1 as int),
            ));
        } else {
            assert(v@.subrange(start as int, i + 1) == v@.subrange(start as int, i as int).push(
                v@[i as int],
            ));
        }
        assert forall|k: int| 0 <= k < r@.len() implies lo <= #[trigger] r@[k].0 <= r@[k].1 <= i
            + 1 by {}
        i += 1;
    }
    r.push((start, hi));
    assert(pieces(v@, r@) == pieces(v@, r@.drop_last()).push(
        v@.subrange(r@.last().0 as int, r@.last().1 as int),
    ));
    r
}


/// The maximal runs of non-white-space characters of `s` (`str::split_whitespace`).
pub open spec fn words(s: Seq<char>) -> Seq<Seq<char>>
    decreases s.len(),
{
    if s.len() == 0 {
        Seq::<Seq<char>>::empty()
    } else {
        let prev = words(s.drop_last());
        let c = s.last();
        if is_ws(c) {
            prev
        } else if s.len() >= 2 && !is_ws(s[s.len() - 2]) {
            prev.update(prev.len() - 1, prev.last().push(c))
        } else {
            prev.push(seq![c])
        }
    }
}

proof fn lemma_words_nonempty(s: Seq<char>)
    requires
        s.len() > 0,
        !is_ws(s.last()),
    ensures
        words(s).len() >= 1,
    decreases s.len(),
{
    let prev = words(s.drop_last());
    if s.len() >= 2 && !is_ws(s[s.len() - 2]) {
        assert(s.drop_last().last() == s[s.len() - 2]);
        lemma_words_nonempty(s.drop_last());
    }
}

/// The ranges of `words(v[lo..hi])`.
pub fn word_bounds(v: &Vec<char>, lo: usize, hi: usize) -> (r: Vec<(usize, usize)>)
    requires
        lo <= hi <= v@.len(),
    ensures
        ranges_within(r@, lo as int, hi as int),
        pieces(v@, r@) == words(v@.subrange(lo as int, hi as int)),
{
    let mut r: Vec<(usize, usize)> = Vec::new();
    let mut start = lo;
    let mut in_word = false;
    let mut i = lo;
    assert(v@.subrange(lo as int, lo as int) == Seq::<char>::empty());
    while i < hi
        invariant
            lo <= start <= i <= hi <= v@.len(),
            ranges_within(r@, lo as int, i as int),
            in_word == (i > lo && !is_ws(v@[i - 1])),
            in_word ==> start < i,
            in_word ==> pieces(v@, r@).push(v@.subrange(start as int, i as int)) == words(
                v@.subrange(lo as int, i as int),
            ),
            !in_word ==> pieces(v@, r@) == words(v@.subrange(lo as int, i as int)),
        decreases hi - i,
    {
        let ghost s = v@.subrange(lo as int, i + 1);
        assert(s.drop_last() == v@.subrange(lo as int, i as int));
        assert(s.last() == v@[i as int]);
        if is_whitespace(v[i]) {
            if in_word {
                r.push((start, i));
                assert(pieces(v@, r@) == pieces(v@, r@.drop_last()).push(
                    v@.subrange(r@.last().0 as int, r@.last().1 as int),
                ));
            }
            in_word = false;
        } else {
            if in_word {
                assert(s[s.len() - 2] == v@[i - 1]);
                assert(v@.subrange(start as int, i + 1) == v@.subrange(start as int, i as int).push(
                    v@[i as int],
                ));
            } else {
                start = i;
                assert(i > lo ==> s[s.len() - 2] == v@[i - 1]);
                assert(v@.subrange(start as int, i + 1) == seq![v@[i as int]]);
            }
            in_word = true;
        }
        assert forall|k: int| 0 <= k < r@.len() implies lo <= #[trigger] r@[k].0 <= r@[k].1 <= i
            + 1 by {}
        i += 1;
    }
    if in_word {
        r.push((start, hi));
        assert(pieces(v@, r@) == pieces(v@, r@.drop_last()).push(
            v@.subrange(r@.last().0 as int, r@.last().1 as int),
        ));
    }
    r
}

/// `l` without one trailing carriage return.
pub open spec fn strip_cr(l: Seq<char>) -> Seq<char> {
    if l.len() > 0 && l.last() == '\r' {
        l.drop_last()
    } else {
        l
    }
}

/// The lines of `s` (`str::lines`): split at `\n`, a `\r` before the `\n`
/// removed, and no empty line after a final line ending.
pub open spec fn lines(s: Seq<char>) -> Seq<Seq<char>> {
    let parts = split_on(s, '\n');
    let n = parts.len();
    let kept = if parts.last().len() == 0 {
        parts.drop_last()
    } else {
        parts
    };
    Seq::new(kept.len(), |i: int| if i < n - 1 { strip_cr(kept[i]) } else { kept[i] })
}

/// The ranges of `lines(v[lo..hi])`.
pub fn line_bounds(v: &Vec<char>, lo: usize, hi: usize) -> (r: Vec<(usize, usize)>)
    requires
        lo <= hi <= v@.len(),
    ensures
        ranges_within(r@, lo as int, hi as int),
        pieces(v@, r@) == lines(v@.subrange(lo as int, hi as int)),
{
    let parts = split_bounds(v, lo, hi, '\n');
    let ghost sp = split_on(v@.subrange(lo as int, hi as int), '\n');
    proof {
        lemma_split_on_nonempty(v@.subrange(lo as int, hi as int), '\n');
    }
    assert(pieces(v@, parts@)[parts@.len() - 1] == sp.last());
    let n = parts.len();
    let last = parts[n - 1];
    let kept = if last.0 == last.1 {
        n - 1
    } else {
        n
    };
    let mut r: Vec<(usize, usize)> = Vec::new();
    let mut k: usize = 0;
    while k < kept
        invariant
            lo <= hi <= v@.len(),
            kept <= n == parts@.len() == sp.len(),
            kept as int == (if sp.last().len() == 0 { n - 1 } else { n as int }),
            pieces(v@, parts@) == sp,
            ranges_within(parts@, lo as int, hi as int),
            ranges_within(r@, lo as int, hi as int),
            k <= kept,
            r@.len() == k,
            forall|j: int|
                0 <= j < k ==> v@.subrange(#[trigger] r@[j].0 as int, r@[j].1 as int) == (if j
                    < n - 1 {
                    strip_cr(sp[j])
                } else {
                    sp[j]
                }),
        decreases kept - k,
    {
        let p = parts[k];
        assert(lo <= parts@[k as int].0 <= parts@[k as int].1 <= hi);
        assert(pieces(v@, parts@)[k as int] == v@.subrange(p.0 as int, p.1 as int));
        let ghost old_r = r@;
        if k + 1 < n && p.0 < p.1 && v[p.1 - 1] == '\r' {
            assert(v@.subrange(p.0 as int, p.1 - 1) == sp[k as int].drop_last());
            r.push((p.0, p.1 - 1));
        } else {
            r.push(p);
        }
        assert forall|j: int|
            0 <= j < k + 1 implies v@.subrange(#[trigger] r@[j].0 as int, r@[j].1 as int) == (if j
                < n - 1 {
                strip_cr(sp[j])
            } else {
                sp[j]
            }) by {
            if j < k {
                assert(r@[j] == old_r[j]);
            }
        }
        assert forall|j: int| 0 <= j < r@.len() implies lo <= #[trigger] r@[j].0 <= r@[j].1
            <= hi by {
            if j < k {
                assert(r@[j] == old_r[j]);
            }
        }
        k += 1;
    }
    assert(pieces(v@, r@) =~= lines(v@.subrange(lo as int, hi as int)));
    r
}

/// Whether `c` is an ASCII decimal digit.
pub open spec fn is_digit(c: char) -> bool {
    '0' <= c <= '9'
}

/// The value of decimal digit `c`.
pub open spec fn digit_value(c: char) -> nat {
    ((c as u32) - ('0' as u32)) as nat
}

/// The value of a string of decimal digits.
pub open spec fn digits_value(s: Seq<char>) -> nat
    decreases s.len(),
{
    if s.len() == 0 {
        0
    } else {
        digits_value(s.drop_last()) * 10 + digit_value(s.last())
    }
}

/// Whether every character of `s` is a decimal digit.
pub open spec fn all_digits(s: Seq<char>) -> bool {
    forall|i: int| 0 <= i < s.len() ==> is_digit(#[trigger] s[i])
}

/// What `str::parse::<u32>` gives: an optional `+`, then one or more digits
/// whose value fits in `u32`.
pub open spec fn parse_u32_spec(s: Seq<char>) -> Option<u32> {
    let d = if s.len() > 0 && s[0] == '+' {
        s.drop_first()
    } else {
        s
    };
    if d.len() == 0 || !all_digits(d) || digits_value(d) > u32::MAX {
        None
    } else {
        Some(digits_value(d) as u32)
    }
}

/// Parses `v[lo..hi]` as a `u32` the way `str::parse::<u32>` does.
pub fn parse_u32(v: &Vec<char>, lo: usize, hi: usize) -> (r: Option<u32>)
    requires
        lo <= hi <= v@.len(),
    ensures
        r == parse_u32_spec(v@.subrange(lo as int, hi as int)),
{
    let ghost s = v@.subrange(lo as int, hi as int);
    let mut i = lo;
    if lo < hi && v[lo] == '+' {
        i = lo + 1;
    }
    let ghost d = v@.subrange(i as int, hi as int);
    assert(d == (if s.len() > 0 && s[0] == '+' { s.drop_first() } else { s }));
    if i == hi {
        return None;
    }
    let cap: u64 = 0x1_0000_0000;
    let mut acc: u64 = 0;
    let start = i;
    assert(v@.subrange(start as int, start as int) == Seq::<char>::empty());
    while i < hi
        invariant
            lo <= start <= i <= hi <= v@.len(),
            s == v@.subrange(lo as int, hi as int),
            d == (if s.len() > 0 && s[0] == '+' { s.drop_first() } else { s }),
            d == v@.subrange(start as int, hi as int),
            all_digits(v@.subrange(start as int, i as int)),
            acc as int == (if digits_value(v@.subrange(start as int, i as int)) < cap {
                digits_value(v@.subrange(start as int, i as int)) as int
            } else {
                cap as int
            }),
            cap == 0x1_0000_0000,
        decreases hi - i,
    {
        let c = v[i];
        if !('0' <= c && c <= '9') {
            assert(d[i - start] == c);
            assert(!is_digit(d[i - start]));
            return None;
        }
        let dv = (c as u32 - '0' as u32) as u64;
        let ghost p = v@.subrange(start as int, i + 1);
        assert(p.drop_last() == v@.subrange(start as int, i as int));
        assert(p.last() == c);
        assert(all_digits(p));
        let next = acc * 10 + dv;
        acc = if next < cap {
            next
        } else {
            cap
        };
        i += 1;
    }
    assert(v@.subrange(start as int, hi as int) == d);
    if acc >= cap {
        None
    } else {
        Some(acc as u32)
    }
}

/// The decimal spelling of `d < 10`.
pub open spec fn digit_char(d: nat) -> char {
    (('0' as u32) + d) as char
}

/// The decimal spelling of `n`, without leading zeros.
pub open spec fn decimal(n: nat) -> Seq<char>
    decreases n,
{
    if n < 10 {
        seq![digit_char(n)]
    } else {
        decimal(n / 10).push(digit_char(n % 10))
    }
}

/// Appends the decimal spelling of `n` to `s`.
pub fn push_decimal(s: &mut String, n: u64)
    ensures
        final(s)@ == old(s)@ + decimal(n as nat),
    decreases n,
{
    if n >= 10 {
        push_decimal(s, n / 10);
    }
    let d = (n % 10) as u8;
    let c = (48u8 + d) as char;
    push_char(s, c);
    assert(decimal(n as nat) =~= (if n < 10 {
        Seq::<char>::empty()
    } else {
        decimal((n / 10) as nat)
    }).push(c));
}

/// A decimal spelling parses back to its value.
pub proof fn lemma_decimal_parses(n: nat)
    ensures
        all_digits(decimal(n)),
        decimal(n).len() > 0,
        digits_value(decimal(n)) == n,
        decimal(n)[0] != '+',
    decreases n,
{
    assert(digit_value(digit_char(n % 10)) == n % 10);
    if n >= 10 {
        lemma_decimal_parses(n / 10);
        let s = decimal(n);
        assert(s.drop_last() == decimal(n / 10));
        assert(s.last() == digit_char(n % 10));
        assert(digits_value(s) == digits_value(decimal(n / 10)) * 10 + digit_value(s.last()));
        assert(n == (n / 10) * 10 + n % 10);
        assert(s[0] == decimal(n / 10)[0]);
    } else {
        assert(decimal(n).drop_last() == Seq::<char>::empty());
        assert(digits_value(Seq::<char>::empty()) == 0);
        assert(decimal(n).last() == digit_char(n));
        assert(digits_value(decimal(n)) == 0 * 10 + digit_value(digit_char(n)));
        assert(digit_value(digit_char(n)) == n);
    }
}

/// `parse_u32_spec` undoes `decimal` on every `u32`.
pub proof fn lemma_parse_decimal(n: u32)
    ensures
        parse_u32_spec(decimal(n as nat)) == Some(n),
{
    lemma_decimal_parses(n as nat);
}

/// The parts joined by `sep`.
pub open spec fn join(parts: Seq<Seq<char>>, sep: Seq<char>) -> Seq<char>
    decreases parts.len(),
{
    if parts.len() == 0 {
        Seq::empty()
    } else if parts.len() == 1 {
        parts[0]
    } else {
        join(parts.drop_last(), sep) + sep + parts.last()
    }
}

/// Whether `sep` does not occur in `s`.
pub open spec fn lacks(s: Seq<char>, sep: char) -> bool {
    forall|i: int| 0 <= i < s.len() ==> s[i] != sep
}

/// Whether `s` has no white space.
pub open spec fn no_ws(s: Seq<char>) -> bool {
    forall|i: int| 0 <= i < s.len() ==> !is_ws(#[trigger] s[i])
}

/// Appending text without `sep` extends the last piece of a split.
pub proof fn lemma_split_on_append(s: Seq<char>, t: Seq<char>, sep: char)
    requires
        lacks(t, sep),
    ensures
        split_on(s + t, sep) == split_on(s, sep).drop_last().push(split_on(s, sep).last() + t),
    decreases t.len(),
{
    lemma_split_on_nonempty(s, sep);
    let p = split_on(s, sep);
    if t.len() == 0 {
        assert(s + t =~= s);
        assert(p.last() + t =~= p.last());
        assert(p.drop_last().push(p.last()) =~= p);
    } else {
        let t1 = t.drop_last();
        let c = t.last();
        assert(lacks(t1, sep)) by {
            assert forall|i: int| 0 <= i < t1.len() implies t1[i] != sep by {
                assert(t1[i] == t[i]);
            }
        }
        lemma_split_on_append(s, t1, sep);
        assert((s + t).drop_last() =~= s + t1);
        assert((s + t).last() == c);
        assert(c == t[t.len() - 1]);
        let prev = split_on(s + t1, sep);
        lemma_split_on_nonempty(s + t1, sep);
        assert(split_on(s + t, sep) == prev.update(prev.len() - 1, prev.last().push(c)));
        assert((p.last() + t1).push(c) =~= p.last() + t);
        assert(prev.update(prev.len() - 1, prev.last().push(c)) =~= p.drop_last().push(
            p.last() + t,
        ));
    }
}

/// A separator at the end starts an empty last piece.
pub proof fn lemma_split_on_push_sep(s: Seq<char>, sep: char)
    ensures
        split_on(s.push(sep), sep) == split_on(s, sep).push(Seq::<char>::empty()),
{
    assert(s.push(sep).drop_last() =~= s);
}

/// The split of text without `sep` is the text alone.
pub proof fn lemma_split_on_single(t: Seq<char>, sep: char)
    requires
        lacks(t, sep),
    ensures
        split_on(t, sep) == seq![t],
{
    lemma_split_on_append(Seq::<char>::empty(), t, sep);
    assert(Seq::<char>::empty() + t =~= t);
    assert(seq![Seq::<char>::empty()].drop_last().push(Seq::<char>::empty() + t) =~= seq![t]);
}

/// A word after white space (or at the start) is a word of its own.
pub proof fn lemma_words_append(s: Seq<char>, w: Seq<char>)
    requires
        w.len() > 0,
        no_ws(w),
        s.len() == 0 || is_ws(s.last()),
    ensures
        words(s + w) == words(s).push(w),
    decreases w.len(),
{
    let x = s + w;
    let c = w.last();
    assert(c == w[w.len() - 1]);
    assert(x.last() == c);
    if w.len() == 1 {
        assert(x.drop_last() =~= s);
        assert(x.len() >= 2 ==> x[x.len() - 2] == s.last());
        assert(seq![c] =~= w);
    } else {
        let w1 = w.drop_last();
        assert(no_ws(w1)) by {
            assert forall|i: int| 0 <= i < w1.len() implies !is_ws(#[trigger] w1[i]) by {
                assert(w1[i] == w[i]);
            }
        }
        lemma_words_append(s, w1);
        assert(x.drop_last() =~= s + w1);
        assert(x[x.len() - 2] == w[w.len() - 2]);
        assert(!is_ws(w[w.len() - 2]));
        let prev = words(s + w1);
        assert(w1.push(c) =~= w);
        assert(prev.update(prev.len() - 1, prev.last().push(c)) =~= words(s).push(w));
    }
}

/// Words separated by single spaces split back into those words.
pub proof fn lemma_words_join(parts: Seq<Seq<char>>)
    requires
        forall|i: int| 0 <= i < parts.len() ==> (#[trigger] parts[i]).len() > 0 && no_ws(parts[i]),
    ensures
        words(join(parts, seq![' '])) == parts,
    decreases parts.len(),
{
    if parts.len() == 0 {
    } else if parts.len() == 1 {
        lemma_words_append(Seq::<char>::empty(), parts[0]);
        assert(Seq::<char>::empty() + parts[0] =~= parts[0]);
        assert(seq![parts[0]] =~= parts);
    } else {
        let init = parts.drop_last();
        assert forall|i: int| 0 <= i < init.len() implies (#[trigger] init[i]).len() > 0 && no_ws(
            init[i],
        ) by {
            assert(init[i] == parts[i]);
        }
        lemma_words_join(init);
        let j = join(init, seq![' ']);
        let js = j + seq![' '];
        assert(js =~= j.push(' '));
        assert(js.drop_last() =~= j);
        assert(is_ws(' '));
        assert(words(js) == words(j));
        assert(parts.last() == parts[parts.len() - 1]);
        lemma_words_append(js, parts.last());
        assert(init.push(parts.last()) =~= parts);
    }
}

} // verus!
