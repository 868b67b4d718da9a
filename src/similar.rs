//! Top-k ranking of stored records by distance to a query embedding.
//!
//! A distance is given as an order key: for the non-negative distances used here the
//! bit pattern of the floating-point value orders as the value does. Equal distances
//! keep store order.
use vstd::prelude::*;

verus! {

/// Whether record `i` ranks before record `j`: smaller distance, or equal distance and
/// earlier in store order.
pub open spec fn closer(keys: Seq<u64>, i: int, j: int) -> bool {
    keys[i] < keys[j] || (keys[i] == keys[j] && i < j)
}

/// Whether `sel` lists, nearest first, the `m` records of `keys` that rank first.
pub open spec fn is_nearest(keys: Seq<u64>, sel: Seq<usize>, m: nat) -> bool {
    &&& sel.len() == m
    &&& forall|p: int| 0 <= p < sel.len() ==> (#[trigger] sel[p]) < keys.len()
    &&& forall|p: int, q: int|
        0 <= p < q < sel.len() ==> closer(keys, #[trigger] sel[p] as int, #[trigger] sel[q] as int)
    &&& forall|p: int, j: int|
        #![trigger sel[p], keys[j]]
        0 <= p < sel.len() && 0 <= j < keys.len() && !sel.contains(j as usize) ==> closer(
            keys,
            sel[p] as int,
            j,
        )
}

pub open spec fn min_nat(a: nat, b: nat) -> nat {
    if a <= b { a } else { b }
}

/// The positions of the `top_k` records nearest the query (all of them if fewer),
/// nearest first.
pub fn nearest_indices(distances: &Vec<u64>, top_k: usize) -> (r: Vec<usize>)
    ensures
        is_nearest(distances@, r@, min_nat(top_k as nat, distances@.len())),
{
    let n = distances.len();
    let m = if top_k <= n { top_k } else { n };
    let mut taken: Vec<bool> = Vec::new();
    let mut i: usize = 0;
    while i < n
        invariant
            n == distances@.len(),
            i <= n,
            taken@.len() == i,
            forall|j: int| 0 <= j < i ==> !(#[trigger] taken@[j]),
            count_true(taken@) == 0,
        decreases n - i,
    {
        let ghost before = taken@;
        taken.push(false);
        assert(taken@.drop_last() =~= before);
        i = i + 1;
    }
    let ghost keys = distances@;
    let mut sel: Vec<usize> = Vec::new();
    while sel.len() < m
        invariant
            keys == distances@,
            n == keys.len(),
            m <= n,
            sel@.len() <= m,
            taken@.len() == n,
            forall|j: int| 0 <= j < n ==> (#[trigger] taken@[j] <==> sel@.contains(j as usize)),
            count_true(taken@) == sel@.len(),
            is_nearest(keys, sel@, sel@.len()),
        decreases m - sel@.len(),
    {
        let mut best: usize = n;
        let mut j: usize = 0;
        while j < n
            invariant
                keys == distances@,
                n == keys.len(),
                taken@.len() == n,
                j <= n,
                best == n || (best < j && !taken@[best as int]),
                forall|x: int|
                    0 <= x < j && !(#[trigger] taken@[x]) ==> x == best || closer(
                        keys,
                        best as int,
                        x,
                    ),
                best == n ==> forall|x: int| 0 <= x < j ==> #[trigger] taken@[x],
            decreases n - j,
        {
            if !taken[j] {
                if best == n || distances[j] < distances[best] {
                    let ghost prev = best;
                    best = j;
                    assert forall|x: int| 0 <= x < j && !(#[trigger] taken@[x]) implies closer(
                        keys,
                        best as int,
                        x,
                    ) by {
                        if x != prev {
                            assert(closer(keys, prev as int, x));
                        }
                    }
                }
            }
            j = j + 1;
        }
        proof {
            if best == n {
                assert forall|x: int| 0 <= x < taken@.len() implies #[trigger] taken@[x] by {}
                lemma_count_all_true(taken@);
            }
            lemma_count_set(taken@, best as int);
        }
        let ghost old_sel = sel@;
        sel.push(best);
        taken.set(best, true);
        proof {
            assert forall|x: int| 0 <= x < n implies (#[trigger] taken@[x] <==> sel@.contains(
                x as usize,
            )) by {
                if x == best as int {
                    assert(sel@[old_sel.len() as int] == best);
                } else {
                    if old_sel.contains(x as usize) {
                        let p = choose|p: int| 0 <= p < old_sel.len() && old_sel[p] == x as usize;
                        assert(sel@[p] == x as usize);
                    }
                    if sel@.contains(x as usize) {
                        let p = choose|p: int| 0 <= p < sel@.len() && sel@[p] == x as usize;
                        assert(p < old_sel.len());
                        assert(old_sel[p] == x as usize);
                    }
                }
            }
            assert forall|p: int, q: int| 0 <= p < q < sel@.len() implies closer(
                keys,
                #[trigger] sel@[p] as int,
                #[trigger] sel@[q] as int,
            ) by {
                if q == old_sel.len() {
                    assert(old_sel[p] == sel@[p]);
                    assert(!old_sel.contains(best));
                } else {
                    assert(old_sel[p] == sel@[p]);
                    assert(old_sel[q] == sel@[q]);
                }
            }
            assert forall|p: int, x: int|
                0 <= p < sel@.len() && 0 <= x < keys.len() && !sel@.contains(
                    x as usize,
                ) implies #[trigger] closer(keys, sel@[p] as int, x) by {
                assert(!taken@[x]);
                assert(x != best);
                assert(!old_sel.contains(x as usize)) by {
                    if old_sel.contains(x as usize) {
                        let p2 = choose|p2: int| 0 <= p2 < old_sel.len() && old_sel[p2] == x as usize;
                        assert(sel@[p2] == x as usize);
                    }
                }
                if p < old_sel.len() {
                    assert(old_sel[p] == sel@[p]);
                }
            }
        }
    }
    sel
}

/// The texts of the `top_k` records nearest the query (all of them if fewer), nearest
/// first; `distances[i]` is the distance key of `texts[i]`.
pub fn top_k_texts(texts: &Vec<String>, distances: &Vec<u64>, top_k: usize) -> (r: Vec<String>)
    requires
        texts@.len() == distances@.len(),
    ensures
        exists|sel: Seq<usize>|
            {
                &&& is_nearest(distances@, sel, min_nat(top_k as nat, distances@.len()))
                &&& r@.len() == sel.len()
                &&& forall|p: int| 0 <= p < sel.len() ==> #[trigger] r@[p]@ == texts@[sel[p] as int]@
            },
{
    let sel = nearest_indices(distances, top_k);
    let mut r: Vec<String> = Vec::new();
    let mut p: usize = 0;
    while p < sel.len()
        invariant
            is_nearest(distances@, sel@, min_nat(top_k as nat, distances@.len())),
            texts@.len() == distances@.len(),
            p <= sel@.len(),
            r@.len() == p,
            forall|q: int| 0 <= q < p ==> #[trigger] r@[q]@ == texts@[sel@[q] as int]@,
        decreases sel@.len() - p,
    {
        let t = texts[sel[p]].clone();
        r.push(t);
        p = p + 1;
    }
    r
}

/// Of three records at distinct distances, asking for the two nearest gives the nearest
/// and then the second nearest.
pub proof fn lemma_two_nearest_of_three(keys: Seq<u64>, sel: Seq<usize>, a: usize, b: usize, c: usize)
    requires
        keys.len() == 3,
        a < 3 && b < 3 && c < 3,
        a != b && b != c && a != c,
        keys[a as int] < keys[b as int] < keys[c as int],
        is_nearest(keys, sel, 2),
    ensures
        sel == seq![a, b],
{
    let s0 = sel[0];
    let s1 = sel[1];
    assert(closer(keys, s0 as int, s1 as int));
    assert(s0 != s1);
    // a position among a, b, c is left out of sel
    let out = if a != s0 && a != s1 { a } else if b != s0 && b != s1 { b } else { c };
    assert(!sel.contains(out)) by {
        if sel.contains(out) {
            let p = choose|p: int| 0 <= p < sel.len() && sel[p] == out;
            assert(p == 0 || p == 1);
        }
    }
    assert(closer(keys, s0 as int, out as int));
    assert(closer(keys, s1 as int, out as int));
    assert(s0 != c && s1 != c);
    assert(sel =~= seq![a, b]);
}

/// How many entries of `s` are set.
pub open spec fn count_true(s: Seq<bool>) -> nat
    decreases s.len(),
{
    if s.len() == 0 {
        0
    } else {
        count_true(s.drop_last()) + if s.last() { 1nat } else { 0nat }
    }
}

proof fn lemma_count_all_true(s: Seq<bool>)
    requires
        forall|j: int| 0 <= j < s.len() ==> #[trigger] s[j],
    ensures
        count_true(s) == s.len(),
    decreases s.len(),
{
    if s.len() > 0 {
        let t = s.drop_last();
        assert forall|j: int| 0 <= j < t.len() implies #[trigger] t[j] by {
            assert(s[j]);
        }
        lemma_count_all_true(t);
    }
}

proof fn lemma_count_set(s: Seq<bool>, i: int)
    requires
        0 <= i < s.len(),
        !s[i],
    ensures
        count_true(s.update(i, true)) == count_true(s) + 1,
    decreases s.len(),
{
    let u = s.update(i, true);
    if i == s.len() - 1 {
        assert(u.drop_last() =~= s.drop_last());
    } else {
        assert(u.drop_last() =~= s.drop_last().update(i, true));
        lemma_count_set(s.drop_last(), i);
    }
}

} // verus!
