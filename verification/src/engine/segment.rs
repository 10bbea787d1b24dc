//! Splitting an input into syllables: every way to write it as a sequence
//! of known syllables.
use crate::text::{chars_of, string_from};
use vstd::prelude::*;

verus! {

/// The pieces of `p` written one after the other.
pub open spec fn concat_all(p: Seq<Seq<char>>) -> Seq<char>
    decreases p.len(),
{
    if p.len() == 0 {
        Seq::empty()
    } else {
        concat_all(p.drop_last()) + p.last()
    }
}

/// Whether `p` is a split of `s` into syllables taken from `sylls`.
pub open spec fn is_split(p: Seq<Seq<char>>, s: Seq<char>, sylls: Seq<Seq<char>>) -> bool {
    &&& concat_all(p) == s
    &&& forall|i: int| 0 <= i < p.len() ==> sylls.contains(#[trigger] p[i])
}

/// Whether every piece of `p` is non-empty.
pub open spec fn nonempty_parts(p: Seq<Seq<char>>) -> bool {
    forall|i: int| 0 <= i < p.len() ==> (#[trigger] p[i]).len() > 0
}

/// Where the last piece of `p` starts.
pub open spec fn last_start(p: Seq<Seq<char>>) -> int {
    if p.len() == 0 {
        -1
    } else {
        concat_all(p.drop_last()).len() as int
    }
}

/// Every split in `states[e]` splits `v[..e]`.
pub open spec fn states_sound(
    states: Seq<Seq<Seq<Seq<char>>>>,
    v: Seq<char>,
    sylls: Seq<Seq<char>>,
) -> bool {
    forall|e: int, k: int|
        #![trigger states[e][k]]
        0 <= e < states.len() && 0 <= k < states[e].len() ==> is_split(
            states[e][k],
            v.subrange(0, e),
            sylls,
        )
}

/// Every split of `v[..e]` into non-empty syllables whose last piece starts
/// before `start` is in `states[e]`.
pub open spec fn states_complete(
    states: Seq<Seq<Seq<Seq<char>>>>,
    v: Seq<char>,
    sylls: Seq<Seq<char>>,
    start: int,
) -> bool {
    forall|e: int, p: Seq<Seq<char>>|
        #![trigger is_split(p, v.subrange(0, e), sylls)]
        0 <= e < states.len() && e <= v.len() && is_split(p, v.subrange(0, e), sylls)
            && nonempty_parts(p) && last_start(p) < start ==> states[e].contains(p)
}

/// Every split in `a[e]` is also in `b[e]`.
pub open spec fn states_grow(a: Seq<Seq<Seq<Seq<char>>>>, b: Seq<Seq<Seq<Seq<char>>>>) -> bool {
    &&& a.len() == b.len()
    &&& forall|e: int, p: Seq<Seq<char>>|
        #![trigger b[e].contains(p)]
        0 <= e < a.len() && a[e].contains(p) ==> b[e].contains(p)
}

/// Whether the syllables are distinct and non-empty.
pub open spec fn distinct_syllables(sylls: Seq<Seq<char>>) -> bool {
    &&& sylls.no_duplicates()
    &&& forall|i: int| 0 <= i < sylls.len() ==> (#[trigger] sylls[i]).len() > 0
}

/// The place of syllable `x` in `sylls`.
pub open spec fn syl_index(sylls: Seq<Seq<char>>, x: Seq<char>) -> int {
    choose|i: int| 0 <= i < sylls.len() && sylls[i] == x
}

/// The order in which splits are found: by where the last piece starts,
/// then by the last piece's place among the syllables, then likewise for
/// the pieces before it.
pub open spec fn path_before(p: Seq<Seq<char>>, q: Seq<Seq<char>>, sylls: Seq<Seq<char>>) -> bool
    decreases p.len(),
{
    if p.len() == 0 || q.len() == 0 {
        false
    } else if last_start(p) != last_start(q) {
        last_start(p) < last_start(q)
    } else if syl_index(sylls, p.last()) != syl_index(sylls, q.last()) {
        syl_index(sylls, p.last()) < syl_index(sylls, q.last())
    } else {
        path_before(p.drop_last(), q.drop_last(), sylls)
    }
}

/// Whether `ps` lists splits in the order in which they are found.
pub open spec fn paths_ordered(ps: Seq<Seq<Seq<char>>>, sylls: Seq<Seq<char>>) -> bool {
    forall|i: int, j: int|
        0 <= i < j < ps.len() ==> path_before(#[trigger] ps[i], #[trigger] ps[j], sylls)
}

/// Every row of `states` is in the order in which splits are found.
pub open spec fn rows_ordered(states: Seq<Seq<Seq<Seq<char>>>>, sylls: Seq<Seq<char>>) -> bool {
    forall|e: int| 0 <= e < states.len() ==> paths_ordered(#[trigger] states[e], sylls)
}

/// Whether `p` was found before the splits whose last piece is syllable `k`
/// starting at `start`.
pub open spec fn found_before(p: Seq<Seq<char>>, start: int, k: int, sylls: Seq<Seq<char>>) -> bool {
    ||| last_start(p) < start
    ||| last_start(p) == start && 0 <= syl_index(sylls, p.last()) < k
}

/// Every split that ends after `start` was found before the splits whose
/// last piece is syllable `k` starting at `start`.
pub open spec fn rows_found_before(
    states: Seq<Seq<Seq<Seq<char>>>>,
    start: int,
    k: int,
    sylls: Seq<Seq<char>>,
) -> bool {
    forall|e: int, i: int|
        start < e < states.len() && 0 <= i < states[e].len() ==> found_before(
            #[trigger] states[e][i],
            start,
            k,
            sylls,
        )
}

proof fn lemma_syl_index(sylls: Seq<Seq<char>>, k: int)
    requires
        sylls.no_duplicates(),
        0 <= k < sylls.len(),
    ensures
        syl_index(sylls, sylls[k]) == k,
{
    let i = syl_index(sylls, sylls[k]);
    assert(0 <= i < sylls.len() && sylls[i] == sylls[k]);
}

/// No split is found before itself.
pub proof fn lemma_path_before_irreflexive(p: Seq<Seq<char>>, sylls: Seq<Seq<char>>)
    ensures
        !path_before(p, p, sylls),
    decreases p.len(),
{
    if p.len() > 0 {
        lemma_path_before_irreflexive(p.drop_last(), sylls);
    }
}

/// Extending row `end` by the splits of row `start` followed by syllable `k`
/// keeps the rows in order.
proof fn lemma_row_extend(
    before: Seq<Seq<Seq<Seq<char>>>>,
    after: Seq<Seq<Seq<Seq<char>>>>,
    v: Seq<char>,
    sylls: Seq<Seq<char>>,
    start: int,
    end: int,
    k: int,
)
    requires
        distinct_syllables(sylls),
        0 <= k < sylls.len(),
        0 <= start <= v.len(),
        end == start + sylls[k].len(),
        end < before.len(),
        end <= v.len(),
        states_sound(before, v, sylls),
        rows_ordered(before, sylls),
        rows_found_before(before, start, k, sylls),
        after.len() == before.len(),
        forall|e: int| 0 <= e < before.len() && e != end ==> after[e] == before[e],
        after[end].len() == before[end].len() + before[start].len(),
        forall|j: int| 0 <= j < before[end].len() ==> #[trigger] after[end][j] == before[end][j],
        forall|j: int|
            0 <= j < before[start].len() ==> #[trigger] after[end][before[end].len() + j]
                == before[start][j].push(sylls[k]),
    ensures
        rows_ordered(after, sylls),
        rows_found_before(after, start, k + 1, sylls),
{
    let bl = before[end].len() as int;
    let syl = sylls[k];
    assert(sylls[k].len() > 0);
    lemma_syl_index(sylls, k);
    assert forall|j: int| 0 <= j < before[start].len() implies {
        &&& last_start(#[trigger] before[start][j].push(syl)) == start
        &&& before[start][j].push(syl).last() == syl
        &&& before[start][j].push(syl).drop_last() == before[start][j]
    } by {
        let q = before[start][j];
        assert(is_split(before[start][j], v.subrange(0, start), sylls));
        assert(q.push(syl).drop_last() =~= q);
    }
    assert forall|e: int| 0 <= e < after.len() implies paths_ordered(#[trigger] after[e], sylls) by {
        if e == end {
            assert(paths_ordered(before[end], sylls));
            assert(paths_ordered(before[start], sylls));
            assert forall|i: int, j: int| 0 <= i < j < after[e].len() implies path_before(
                #[trigger] after[e][i],
                #[trigger] after[e][j],
                sylls,
            ) by {
                if j < bl {
                    assert(path_before(before[end][i], before[end][j], sylls));
                } else if i < bl {
                    let p = before[end][i];
                    assert(found_before(p, start, k, sylls));
                    let q = before[start][j - bl];
                    assert(after[end][before[end].len() + (j - bl)] == before[start][j - bl].push(
                        sylls[k],
                    ));
                    assert(after[e][j] == q.push(syl));
                    assert(p.len() > 0) by {
                        if p.len() == 0 {
                            assert(last_start(p) == -1);
                            assert(is_split(p, v.subrange(0, end), sylls));
                            assert(concat_all(p) =~= Seq::<char>::empty());
                        }
                    }
                } else {
                    let qi = before[start][i - bl];
                    let qj = before[start][j - bl];
                    assert(after[end][before[end].len() + (i - bl)] == before[start][i - bl].push(
                        sylls[k],
                    ));
                    assert(after[end][before[end].len() + (j - bl)] == before[start][j - bl].push(
                        sylls[k],
                    ));
                    assert(after[e][i] == qi.push(syl));
                    assert(after[e][j] == qj.push(syl));
                    assert(path_before(qi, qj, sylls));
                }
            }
        } else {
            assert(after[e] == before[e]);
        }
    }
    assert forall|e: int, i: int| start < e < after.len() && 0 <= i < after[e].len() implies found_before(
        #[trigger] after[e][i],
        start,
        k + 1,
        sylls,
    ) by {
        if e == end && i >= bl {
            assert(after[end][before[end].len() + (i - bl)] == before[start][i - bl].push(
                sylls[k],
            ));
            assert(after[e][i] == before[start][i - bl].push(syl));
        } else if e == end {
            assert(found_before(before[e][i], start, k, sylls));
        } else {
            assert(found_before(before[e][i], start, k, sylls));
        }
    }
}

proof fn lemma_concat_push(p: Seq<Seq<char>>, x: Seq<char>)
    ensures
        concat_all(p.push(x)) == concat_all(p) + x,
{
    assert(p.push(x).drop_last() == p);
}

proof fn lemma_concat_len_prefix(p: Seq<Seq<char>>)
    requires
        p.len() > 0,
    ensures
        concat_all(p).len() == concat_all(p.drop_last()).len() + p.last().len(),
{
}

pub(crate) fn clone_path(p: &Vec<String>) -> (r: Vec<String>)
    ensures
        r.deep_view() == p.deep_view(),
{
    let mut r: Vec<String> = Vec::new();
    let mut i: usize = 0;
    while i < p.len()
        invariant
            i <= p@.len(),
            r@.len() == i,
            forall|j: int| 0 <= j < i ==> (#[trigger] r@[j])@ == p@[j]@,
        decreases p@.len() - i,
    {
        let c = p[i].clone();
        r.push(c);
        i += 1;
    }
    assert(r.deep_view() =~= p.deep_view());
    r
}

fn clone_paths(ps: &Vec<Vec<String>>) -> (r: Vec<Vec<String>>)
    ensures
        r.deep_view() == ps.deep_view(),
{
    let mut r: Vec<Vec<String>> = Vec::new();
    let mut i: usize = 0;
    while i < ps.len()
        invariant
            i <= ps@.len(),
            r@.len() == i,
            forall|j: int| 0 <= j < i ==> (#[trigger] r@[j]).deep_view() == ps@[j].deep_view(),
        decreases ps@.len() - i,
    {
        let c = clone_path(&ps[i]);
        r.push(c);
        i += 1;
    }
    assert(r.deep_view() =~= ps.deep_view()) by {
        assert forall|j: int| 0 <= j < r@.len() implies r.deep_view()[j] == ps.deep_view()[j] by {
            assert(r@[j].deep_view() == ps@[j].deep_view());
        }
    }
    r
}

fn matches_at(v: &Vec<char>, start: usize, syl: &Vec<char>) -> (r: bool)
    requires
        start <= v@.len(),
    ensures
        r == (start + syl@.len() <= v@.len() && v@.subrange(
            start as int,
            start + syl@.len(),
        ) == syl@),
{
    if syl.len() > v.len() - start {
        return false;
    }
    let mut i: usize = 0;
    while i < syl.len()
        invariant
            start + syl@.len() <= v@.len(),
            v@.len() == v.len(),
            i <= syl@.len(),
            forall|j: int| 0 <= j < i ==> v@[start + j] == syl@[j],
        decreases syl@.len() - i,
    {
        if v[start + i] != syl[i] {
            assert(v@.subrange(start as int, start + syl@.len())[i as int] != syl@[i as int]);
            return false;
        }
        i += 1;
    }
    assert(v@.subrange(start as int, start + syl@.len()) =~= syl@);
    true
}

/// Every way to write `input` as a sequence of `syllables`: each result
/// concatenates to the input and uses only the syllables, and every such
/// split into non-empty syllables is among the results. When the syllables
/// are distinct and non-empty, each split comes once, ordered by where its
/// last piece starts, then by that piece's place among the syllables, then
/// likewise for the pieces before it.
pub fn segment(input: &str, syllables: &Vec<String>) -> (r: Vec<Vec<String>>)
    ensures
        forall|k: int|
            0 <= k < r@.len() ==> is_split(
                #[trigger] r.deep_view()[k],
                input@,
                syllables.deep_view(),
            ),
        forall|p: Seq<Seq<char>>|
            is_split(p, input@, syllables.deep_view()) && nonempty_parts(p) ==> #[trigger] r.deep_view().contains(p),
        distinct_syllables(syllables.deep_view()) ==> paths_ordered(
            r.deep_view(),
            syllables.deep_view(),
        ) && r.deep_view().no_duplicates(),
{
    let ghost sylls = syllables.deep_view();
    let v = chars_of(input);
    let n = v.len();
    let mut sv: Vec<Vec<char>> = Vec::new();
    let mut t: usize = 0;
    while t < syllables.len()
        invariant
            t <= syllables@.len(),
            sylls == syllables.deep_view(),
            sv@.len() == t,
            forall|j: int| 0 <= j < t ==> (#[trigger] sv@[j])@ == sylls[j],
        decreases syllables@.len() - t,
    {
        sv.push(chars_of(syllables[t].as_str()));
        t += 1;
    }
    let mut states: Vec<Vec<Vec<String>>> = Vec::new();
    let mut first: Vec<Vec<String>> = Vec::new();
    first.push(Vec::new());
    assert(first.deep_view()[0] =~= Seq::<Seq<char>>::empty());
    assert(first.deep_view() =~= seq![Seq::<Seq<char>>::empty()]);
    states.push(first);
    let mut i: usize = 0;
    while i < n
        invariant
            i <= n == v@.len(),
            states@.len() == i + 1,
            forall|e: int| 1 <= e < states@.len() ==> (#[trigger] states@[e])@.len() == 0,
            states.deep_view()[0] == seq![Seq::<Seq<char>>::empty()],
        decreases n - i,
    {
        states.push(Vec::new());
        i += 1;
    }
    assert(v@.subrange(0, 0) =~= Seq::<char>::empty());
    assert(states_sound(states.deep_view(), v@, sylls)) by {
        assert forall|e: int, k: int|
            0 <= e < states.deep_view().len() && 0 <= k < states.deep_view()[e].len() implies is_split(
                #[trigger] states.deep_view()[e][k],
                v@.subrange(0, e),
                sylls,
            ) by {
            if e > 0 {
                assert(states@[e]@.len() == 0);
            }
        }
    }
    assert(states_complete(states.deep_view(), v@, sylls, 0)) by {
        assert forall|e: int, p: Seq<Seq<char>>|
            0 <= e < states.deep_view().len() && e <= v@.len() && is_split(
                p,
                v@.subrange(0, e),
                sylls,
            ) && nonempty_parts(p) && last_start(p) < 0 implies states.deep_view()[e].contains(
            p,
        ) by {
            assert(p.len() == 0);
            assert(p =~= Seq::<Seq<char>>::empty());
            assert(concat_all(p) =~= Seq::<char>::empty());
            assert(e == 0);
            assert(states.deep_view()[0][0] == p);
        }
    }
    assert(rows_ordered(states.deep_view(), sylls)) by {
        assert forall|e: int| 0 <= e < states.deep_view().len() implies paths_ordered(
            #[trigger] states.deep_view()[e],
            sylls,
        ) by {
            if e > 0 {
                assert(states@[e]@.len() == 0);
            }
        }
    }
    assert(rows_found_before(states.deep_view(), 0, 0, sylls)) by {
        assert forall|e: int, i: int|
            0 < e < states.deep_view().len() && 0 <= i < states.deep_view()[e].len() implies found_before(
            #[trigger] states.deep_view()[e][i],
            0,
            0,
            sylls,
        ) by {
            assert(states@[e]@.len() == 0);
        }
    }
    let mut start: usize = 0;
    while start < n
        invariant
            start <= n == v@.len(),
            states@.len() == n + 1,
            sylls == syllables.deep_view(),
            sv@.len() == sylls.len(),
            forall|j: int| 0 <= j < sv@.len() ==> (#[trigger] sv@[j])@ == sylls[j],
            states_sound(states.deep_view(), v@, sylls),
            states_complete(states.deep_view(), v@, sylls, start as int),
            distinct_syllables(sylls) ==> rows_ordered(states.deep_view(), sylls)
                && rows_found_before(states.deep_view(), start as int, 0, sylls),
        decreases n - start,
    {
        let ghost s0 = states.deep_view();
        let mut k: usize = 0;
        while k < sv.len()
            invariant
                start < n == v@.len(),
                states@.len() == n + 1,
                sylls == syllables.deep_view(),
                sv@.len() == sylls.len(),
                k <= sv@.len(),
                forall|j: int| 0 <= j < sv@.len() ==> (#[trigger] sv@[j])@ == sylls[j],
                states_sound(states.deep_view(), v@, sylls),
                states_complete(states.deep_view(), v@, sylls, start as int),
                states_grow(s0, states.deep_view()),
                distinct_syllables(sylls) ==> rows_ordered(states.deep_view(), sylls)
                    && rows_found_before(states.deep_view(), start as int, k as int, sylls),
                forall|j: int, q: Seq<Seq<char>>|
                    #![trigger s0[start as int].contains(q), sv@[j]]
                    0 <= j < k && s0[start as int].contains(q) && start + sylls[j].len() <= n
                        && v@.subrange(start as int, start + sylls[j].len()) == sylls[j]
                        ==> states.deep_view()[start + sylls[j].len()].contains(q.push(sylls[j])),
            decreases sv@.len() - k,
        {
            if matches_at(&v, start, &sv[k]) {
                let end = start + sv[k].len();
                let ghost syl = sylls[k as int];
                let syl_string = syllables[k].clone();
                let ghost before = states.deep_view();
                let previous = clone_paths(&states[start]);
                let mut row = clone_paths(&states[end]);
                let mut m: usize = 0;
                while m < previous.len()
                    invariant
                        m <= previous@.len(),
                        previous.deep_view() == before[start as int],
                        syl_string@ == syl,
                        row.deep_view().subrange(0, before[end as int].len() as int)
                            == before[end as int],
                        row.deep_view().len() == before[end as int].len() + m,
                        forall|j: int|
                            0 <= j < m ==> #[trigger] row.deep_view()[before[end as int].len() + j]
                                == previous.deep_view()[j].push(syl),
                    decreases previous@.len() - m,
                {
                    let mut path = clone_path(&previous[m]);
                    let ghost pb = path.deep_view();
                    path.push(syl_string.clone());
                    assert(path.deep_view() =~= pb.push(syl));
                    let ghost rb = row.deep_view();
                    row.push(path);
                    assert(row.deep_view() =~= rb.push(previous.deep_view()[m as int].push(syl)));
                    m += 1;
                }
                states.set(end, row);
                proof {
                    let after = states.deep_view();
                    let rowv = after[end as int];
                    let bl = before[end as int].len();
                    assert(forall|e: int| 0 <= e < after.len() && e != end ==> after[e] == before[e]);
                    assert forall|j: int| 0 <= j < bl implies #[trigger] rowv[j] == before[end as int][j] by {
                        assert(rowv.subrange(0, bl as int)[j] == rowv[j]);
                    }
                    if distinct_syllables(sylls) {
                        assert(sv@[k as int]@ == sylls[k as int]);
                        lemma_row_extend(before, after, v@, sylls, start as int, end as int, k as int);
                    }
                    // soundness of the new row
                    assert forall|e: int, kk: int|
                        0 <= e < after.len() && 0 <= kk < after[e].len() implies is_split(
                            #[trigger] after[e][kk],
                            v@.subrange(0, e),
                            sylls,
                        ) by {
                        if e == end && kk >= bl {
                            let j = kk - bl;
                            let q = before[start as int][j];
                            assert(rowv[bl + j] == q.push(syl));
                            assert(is_split(before[start as int][j], v@.subrange(0, start as int), sylls));
                            lemma_concat_push(q, syl);
                            assert(v@.subrange(0, end as int) =~= v@.subrange(0, start as int)
                                + v@.subrange(start as int, end as int));
                            assert forall|ii: int| 0 <= ii < q.push(syl).len() implies sylls.contains(
                                #[trigger] q.push(syl)[ii],
                            ) by {
                                if ii < q.len() {
                                    assert(q.push(syl)[ii] == q[ii]);
                                } else {
                                    assert(sylls[k as int] == syl);
                                }
                            }
                        } else if e == end {
                            assert(after[e][kk] == before[e][kk]);
                        }
                    }
                    // growth
                    assert forall|e: int, p: Seq<Seq<char>>|
                        0 <= e < s0.len() && s0[e].contains(p) implies #[trigger] after[e].contains(p) by {
                        assert(before[e].contains(p));
                        if e == end {
                            let idx = choose|idx: int| 0 <= idx < before[e].len() && before[e][idx] == p;
                            assert(after[e][idx] == p);
                        }
                    }
                    assert forall|e: int, p: Seq<Seq<char>>|
                        0 <= e < before.len() && before[e].contains(p) implies #[trigger] after[e].contains(p) by {
                        if e == end {
                            let idx = choose|idx: int| 0 <= idx < before[e].len() && before[e][idx] == p;
                            assert(after[e][idx] == p);
                        }
                    }
                    // completeness is kept
                    assert forall|e: int, p: Seq<Seq<char>>|
                        0 <= e < after.len() && e <= v@.len() && is_split(p, v@.subrange(0, e), sylls)
                            && nonempty_parts(p) && last_start(p) < start implies after[e].contains(p) by {
                        assert(before[e].contains(p));
                    }
                    // the new syllable is done
                    assert forall|j: int, q: Seq<Seq<char>>|
                        0 <= j < k + 1 && s0[start as int].contains(q) && start + sylls[j].len() <= n
                            && v@.subrange(start as int, start + sylls[j].len()) == sylls[j]
                            implies after[start + sylls[j].len()].contains(q.push(sylls[j])) by {
                        assert(sv@[j]@ == sylls[j]);
                        if j < k {
                            assert(before[start + sylls[j].len()].contains(q.push(sylls[j])));
                        } else {
                            assert(before[start as int].contains(q));
                            let idx = choose|idx: int| 0 <= idx < before[start as int].len()
                                && before[start as int][idx] == q;
                            assert(rowv[bl + idx] == q.push(syl));
                        }
                    }
                }
            } else {
                proof {
                    let after = states.deep_view();
                    if distinct_syllables(sylls) {
                        assert forall|e: int, i: int|
                            start < e < after.len() && 0 <= i < after[e].len() implies found_before(
                            #[trigger] after[e][i],
                            start as int,
                            k + 1,
                            sylls,
                        ) by {
                            assert(found_before(after[e][i], start as int, k as int, sylls));
                        }
                    }
                    assert forall|j: int, q: Seq<Seq<char>>|
                        0 <= j < k + 1 && s0[start as int].contains(q) && start + sylls[j].len() <= n
                            && v@.subrange(start as int, start + sylls[j].len()) == sylls[j]
                            implies after[start + sylls[j].len()].contains(q.push(sylls[j])) by {
                        assert(sv@[j]@ == sylls[j]);
                    }
                }
            }
            k += 1;
        }
        proof {
            let after = states.deep_view();
            if distinct_syllables(sylls) {
                assert forall|e: int, i: int|
                    start + 1 < e < after.len() && 0 <= i < after[e].len() implies found_before(
                    #[trigger] after[e][i],
                    start + 1,
                    0,
                    sylls,
                ) by {
                    assert(found_before(after[e][i], start as int, sylls.len() as int, sylls));
                }
            }
            assert forall|e: int, p: Seq<Seq<char>>|
                0 <= e < after.len() && e <= v@.len() && is_split(p, v@.subrange(0, e), sylls)
                    && nonempty_parts(p) && last_start(p) < start + 1 implies after[e].contains(p) by {
                if last_start(p) == start {
                    let q = p.drop_last();
                    let x = p.last();
                    assert(p == q.push(x));
                    lemma_concat_push(q, x);
                    assert(concat_all(p) == concat_all(q) + x);
                    assert(concat_all(q).len() == start) by {
                        lemma_concat_len_prefix(p);
                    }
                    assert(concat_all(p).len() == e);
                    assert(start <= e);
                    assert(v@.subrange(0, e).subrange(0, start as int) =~= v@.subrange(0, start as int));
                    assert(concat_all(q) =~= v@.subrange(0, start as int));
                    assert forall|ii: int| 0 <= ii < q.len() implies sylls.contains(#[trigger] q[ii]) by {
                        assert(q[ii] == p[ii]);
                    }
                    assert forall|ii: int| 0 <= ii < q.len() implies (#[trigger] q[ii]).len() > 0 by {
                        assert(q[ii] == p[ii]);
                    }
                    if q.len() > 0 {
                        lemma_concat_len_prefix(q);
                        assert(q.last() == p[q.len() - 1]);
                        assert(q.last().len() > 0);
                    }
                    assert(is_split(q, v@.subrange(0, start as int), sylls));
                    assert(s0[start as int].contains(q));
                    assert(sylls.contains(p[p.len() - 1]));
                    let j = choose|j: int| 0 <= j < sylls.len() && sylls[j] == x;
                    assert(concat_all(q).len() == start);
                    assert(v@.subrange(0, e) == concat_all(q) + x);
                    assert(v@.subrange(start as int, e) =~= (concat_all(q) + x).subrange(start as int, e));
                    assert((concat_all(q) + x).subrange(start as int, e) =~= x);
                    assert(x =~= v@.subrange(start as int, e));
                    assert(sv@[j]@ == sylls[j]);
                    assert(after[start + sylls[j].len()].contains(q.push(sylls[j])));
                }
            }
        }
        start += 1;
    }
    assert(v@.subrange(0, n as int) =~= v@);
    let r = clone_paths(&states[n]);
    proof {
        let fin = states.deep_view();
        assert forall|k: int| 0 <= k < r@.len() implies is_split(
            #[trigger] r.deep_view()[k],
            input@,
            syllables.deep_view(),
        ) by {
            assert(r.deep_view()[k] == fin[n as int][k]);
        }
        assert forall|p: Seq<Seq<char>>|
            is_split(p, input@, syllables.deep_view()) && nonempty_parts(p) implies #[trigger] r.deep_view().contains(p) by {
            assert(is_split(p, v@.subrange(0, n as int), sylls));
            if p.len() > 0 {
                lemma_concat_len_prefix(p);
                assert(p.last() == p[p.len() - 1]);
            }
            assert(last_start(p) < n);
            assert(fin[n as int].contains(p));
        }
        if distinct_syllables(sylls) {
            assert(paths_ordered(fin[n as int], sylls));
            assert(r.deep_view() == fin[n as int]);
            assert forall|i: int, j: int| 0 <= i < r.deep_view().len() && 0 <= j < r.deep_view().len()
                && i != j implies r.deep_view()[i] != r.deep_view()[j] by {
                lemma_path_before_irreflexive(r.deep_view()[i], sylls);
                if i < j {
                    assert(path_before(r.deep_view()[i], r.deep_view()[j], sylls));
                } else {
                    assert(path_before(r.deep_view()[j], r.deep_view()[i], sylls));
                }
            }
        }
    }
    r
}

} // verus!
