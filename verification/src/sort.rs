//! Stable ordering of records by a numeric key, largest first.

use vstd::prelude::*;

verus! {

/// `p` lists each index below `n` exactly once.
pub open spec fn is_permutation(p: Seq<usize>, n: nat) -> bool {
    &&& p.len() == n
    &&& forall|k: int| 0 <= k < p.len() ==> #[trigger] p[k] < n
    &&& forall|a: int, b: int| 0 <= a < b < p.len() ==> p[a] != p[b]
}

/// A permutation of `0..n` reaches every index below `n`.
pub proof fn lemma_permutation_onto(p: Seq<usize>, n: nat, i: int)
    requires
        is_permutation(p, n),
        0 <= i < n,
    ensures
        exists|a: int| 0 <= a < p.len() && p[a] == i,
{
    let q = p.map_values(|k: usize| k as int);
    assert forall|a: int, b: int| 0 <= a < q.len() && 0 <= b < q.len() && a != b implies q[a] != q[b] by {
        if a < b {
            assert(p[a] != p[b]);
        } else {
            assert(p[b] != p[a]);
        }
    }
    assert(q.no_duplicates());
    q.unique_seq_to_set();
    vstd::set_lib::lemma_int_range(0, n as int);
    let range = vstd::set_lib::set_int_range(0, n as int);
    assert forall|x: int| q.to_set().contains(x) implies range.contains(x) by {
        let a = choose|a: int| 0 <= a < q.len() && q[a] == x;
        assert(p[a] < n);
    }
    vstd::set_lib::lemma_subset_equality(q.to_set(), range);
    assert(range.contains(i));
    assert(q.to_set().contains(i));
    let a = choose|a: int| 0 <= a < q.len() && q[a] == i;
    assert(p[a] == i);
}

/// Visiting `keys` in the order `p` gives non-increasing keys, and equal keys
/// keep their original relative order (the order of a stable sort).
pub open spec fn sorted_desc_stable(keys: Seq<u64>, p: Seq<usize>) -> bool {
    forall|a: int, b: int|
        #![trigger p[a], p[b]]
        0 <= a < b < p.len() ==> keys[p[a] as int] >= keys[p[b] as int] && (keys[p[a] as int]
            == keys[p[b] as int] ==> p[a] < p[b])
}

/// The order in which a stable sort by descending key visits the records.
pub fn stable_order_desc(keys: &Vec<u64>) -> (p: Vec<usize>)
    ensures
        is_permutation(p@, keys@.len()),
        sorted_desc_stable(keys@, p@),
{
    let n = keys.len();
    let mut v: Vec<usize> = Vec::new();
    let mut k: usize = 0;
    while k < n
        invariant
            k <= n == keys@.len(),
            v@.len() == k,
            forall|m: int| 0 <= m < k ==> #[trigger] v@[m] == m,
        decreases n - k,
    {
        v.push(k);
        k = k + 1;
    }
    let mut i: usize = 0;
    while i < n
        invariant
            i <= n == keys@.len(),
            v@.len() == n,
            forall|m: int| i <= m < n ==> #[trigger] v@[m] == m,
            forall|m: int| 0 <= m < i ==> #[trigger] v@[m] < i,
            forall|a: int, b: int| 0 <= a < b < n ==> v@[a] != v@[b],
            forall|a: int, b: int|
                #![trigger v@[a], v@[b]]
                0 <= a < b < i ==> keys@[v@[a] as int] >= keys@[v@[b] as int] && (keys@[v@[a] as int]
                    == keys@[v@[b] as int] ==> v@[a] < v@[b]),
        decreases n - i,
    {
        let x = v[i];
        assert(x == i);
        let kx = keys[x];
        let mut j: usize = 0;
        while j < i && keys[v[j]] >= kx
            invariant
                j <= i < n == keys@.len(),
                v@.len() == n,
                x == i,
                kx == keys@[x as int],
                forall|m: int| 0 <= m < i ==> #[trigger] v@[m] < i,
                forall|m: int| 0 <= m < j ==> keys@[#[trigger] v@[m] as int] >= kx,
            decreases i - j,
        {
            j = j + 1;
        }
        let ghost old_v = v@;
        proof {
            // everything from j to i has a smaller key than x
            assert forall|m: int| j <= m < i implies keys@[#[trigger] old_v[m] as int] < kx by {
                if m > j {
                    assert(keys@[old_v[j as int] as int] >= keys@[old_v[m] as int]);
                }
            }
        }
        let removed = v.remove(i);
        v.insert(j, removed);
        proof {
            assert forall|m: int| 0 <= m < j implies #[trigger] v@[m] == old_v[m] by {}
            assert(v@[j as int] == i);
            assert forall|m: int| j < m <= i implies #[trigger] v@[m] == old_v[m - 1] by {}
            assert forall|m: int| i < m < n implies #[trigger] v@[m] == old_v[m] by {}
            assert forall|m: int| (i + 1) <= m < n implies #[trigger] v@[m] == m by {}
            assert forall|m: int| 0 <= m < i + 1 implies #[trigger] v@[m] < i + 1 by {
                if m < j {
                } else if m == j {
                } else {
                    assert(v@[m] == old_v[m - 1]);
                }
            }
            assert forall|a: int, b: int| 0 <= a < b < n implies v@[a] != v@[b] by {
                let oa = if a < j { a } else if a == j { i as int } else if a <= i { a - 1 } else { a };
                let ob = if b < j { b } else if b == j { i as int } else if b <= i { b - 1 } else { b };
                assert(v@[a] == old_v[oa]);
                assert(v@[b] == old_v[ob]);
                assert(oa != ob);
            }
            assert forall|a: int, b: int|
                #![trigger v@[a], v@[b]]
                0 <= a < b < i + 1 implies keys@[v@[a] as int] >= keys@[v@[b] as int] && (keys@[v@[a] as int]
                    == keys@[v@[b] as int] ==> v@[a] < v@[b]) by {
                let oa = if a < j { a } else if a == j { i as int } else { a - 1 };
                let ob = if b < j { b } else if b == j { i as int } else { b - 1 };
                assert(v@[a] == old_v[oa]);
                assert(v@[b] == old_v[ob]);
                if a < j && b > j {
                    assert(keys@[old_v[oa] as int] >= kx);
                    assert(keys@[old_v[ob] as int] < kx);
                }
                if a == j && b > j {
                    assert(keys@[old_v[ob] as int] < kx);
                }
                if a < j && b == j {
                    assert(keys@[old_v[oa] as int] >= kx);
                    assert(old_v[oa] < i);
                }
            }
        }
        i = i + 1;
    }
    v
}

/// Moves out the items at `idx`, in that order (`idx` names each index at
/// most once).
pub fn take_in_order<T>(items: Vec<T>, idx: &Vec<usize>) -> (r: Vec<T>)
    requires
        forall|k: int| 0 <= k < idx@.len() ==> #[trigger] idx@[k] < items@.len(),
        forall|a: int, b: int| 0 <= a < b < idx@.len() ==> idx@[a] != idx@[b],
    ensures
        r@.len() == idx@.len(),
        forall|k: int| 0 <= k < idx@.len() ==> #[trigger] r@[k] == items@[idx@[k] as int],
{
    let ghost orig = items@;
    let n = items.len();
    let mut slots: Vec<Option<T>> = Vec::new();
    let mut items = items;
    let mut j: usize = 0;
    while j < n
        invariant
            n == orig.len(),
            j <= n,
            items@ == orig.take(n - j),
            slots@.len() == j,
            forall|q: int| 0 <= q < j ==> #[trigger] slots@[q] == Some(orig[n - 1 - q]),
        decreases n - j,
    {
        let last = items.pop();
        match last {
            Some(x) => {
                slots.push(Some(x));
            },
            None => {
                assert(false);
            },
        }
        j = j + 1;
        assert(items@ =~= orig.take(n - j));
    }
    let s = idx.len();
    let mut r: Vec<T> = Vec::new();
    let mut c: usize = 0;
    while c < s
        invariant
            n == orig.len() == slots@.len(),
            s == idx@.len(),
            forall|q: int| 0 <= q < s ==> #[trigger] idx@[q] < n,
            forall|a: int, b: int| 0 <= a < b < s ==> idx@[a] != idx@[b],
            c <= s,
            r@.len() == c,
            forall|q: int| 0 <= q < c ==> #[trigger] r@[q] == orig[idx@[q] as int],
            forall|q: int|
                0 <= q < n ==> (#[trigger] slots@[q] is Some) == (forall|e: int|
                    0 <= e < c ==> idx@[e] != n - 1 - q),
            forall|q: int| 0 <= q < n && #[trigger] slots@[q] is Some ==> slots@[q]->0 == orig[n - 1 - q],
        decreases s - c,
    {
        let i = idx[c];
        let slot = n - 1 - i;
        let mut taken: Option<T> = None;
        proof {
            assert forall|e: int| 0 <= e < c implies idx@[e] != i by {
                assert(idx@[e] != idx@[c as int]);
            }
            assert(slots@[slot as int] is Some);
        }
        std::mem::swap(&mut taken, &mut slots[slot]);
        match taken {
            Some(x) => {
                r.push(x);
            },
            None => {
                assert(false);
            },
        }
        c = c + 1;
    }
    r
}

// ───────────────────────────── lexicographic order ─────────────────────────────

/// `a` comes strictly before `b` in lexicographic order by code point
/// (the order of `str::cmp`).
pub open spec fn lex_lt(a: Seq<char>, b: Seq<char>) -> bool
    decreases a.len(),
{
    if a.len() == 0 {
        b.len() > 0
    } else if b.len() == 0 {
        false
    } else if a[0] != b[0] {
        a[0] < b[0]
    } else {
        lex_lt(a.drop_first(), b.drop_first())
    }
}

pub proof fn lemma_lex_irreflexive(a: Seq<char>)
    ensures
        !lex_lt(a, a),
    decreases a.len(),
{
    if a.len() > 0 {
        lemma_lex_irreflexive(a.drop_first());
    }
}

pub proof fn lemma_lex_transitive(a: Seq<char>, b: Seq<char>, c: Seq<char>)
    requires
        lex_lt(a, b),
        lex_lt(b, c),
    ensures
        lex_lt(a, c),
    decreases a.len(),
{
    if a.len() > 0 && b.len() > 0 && c.len() > 0 && a[0] == b[0] && b[0] == c[0] {
        lemma_lex_transitive(a.drop_first(), b.drop_first(), c.drop_first());
    }
}

/// Two sequences neither of which comes before the other are equal.
pub proof fn lemma_lex_total(a: Seq<char>, b: Seq<char>)
    ensures
        lex_lt(a, b) || lex_lt(b, a) || a =~= b,
    decreases a.len(),
{
    if a.len() > 0 && b.len() > 0 && a[0] == b[0] {
        lemma_lex_total(a.drop_first(), b.drop_first());
        if a.drop_first() =~= b.drop_first() {
            assert(a =~= seq![a[0]] + a.drop_first());
            assert(b =~= seq![b[0]] + b.drop_first());
        }
    }
}

pub proof fn lemma_lex_asymmetric(a: Seq<char>, b: Seq<char>)
    requires
        lex_lt(a, b),
    ensures
        !lex_lt(b, a),
{
    if lex_lt(b, a) {
        lemma_lex_transitive(a, b, a);
        lemma_lex_irreflexive(a);
    }
}

pub fn lex_lt_exec(a: &Vec<char>, b: &Vec<char>) -> (r: bool)
    ensures
        r == lex_lt(a@, b@),
{
    let mut i: usize = 0;
    assert(a@.skip(0) =~= a@);
    assert(b@.skip(0) =~= b@);
    while i < a.len() && i < b.len() && a[i] == b[i]
        invariant
            i <= a@.len(),
            i <= b@.len(),
            lex_lt(a@, b@) == lex_lt(a@.skip(i as int), b@.skip(i as int)),
        decreases a.len() - i,
    {
        assert(a@.skip(i as int).drop_first() =~= a@.skip(i + 1));
        assert(b@.skip(i as int).drop_first() =~= b@.skip(i + 1));
        i = i + 1;
    }
    if i == a.len() {
        i < b.len()
    } else if i == b.len() {
        false
    } else {
        assert(a@.skip(i as int)[0] == a@[i as int]);
        assert(b@.skip(i as int)[0] == b@[i as int]);
        a[i] < b[i]
    }
}

/// Visiting `keys` in the order `p` gives non-decreasing keys, and equal keys
/// keep their original relative order.
pub open spec fn sorted_lex_stable(keys: Seq<Seq<char>>, p: Seq<usize>) -> bool {
    forall|a: int, b: int|
        #![trigger p[a], p[b]]
        0 <= a < b < p.len() ==> !lex_lt(keys[p[b] as int], keys[p[a] as int]) && (keys[p[a] as int]
            == keys[p[b] as int] ==> p[a] < p[b])
}

/// The order in which a stable sort by ascending key visits the records.
pub fn stable_order_lex(keys: &Vec<Vec<char>>) -> (p: Vec<usize>)
    ensures
        is_permutation(p@, keys@.len()),
        sorted_lex_stable(keys@.map_values(|k: Vec<char>| k@), p@),
{
    let ghost ks = keys@.map_values(|k: Vec<char>| k@);
    let n = keys.len();
    let mut v: Vec<usize> = Vec::new();
    let mut k: usize = 0;
    while k < n
        invariant
            k <= n == keys@.len(),
            v@.len() == k,
            forall|m: int| 0 <= m < k ==> #[trigger] v@[m] == m,
        decreases n - k,
    {
        v.push(k);
        k = k + 1;
    }
    let mut i: usize = 0;
    while i < n
        invariant
            i <= n == keys@.len(),
            ks == keys@.map_values(|k: Vec<char>| k@),
            v@.len() == n,
            forall|m: int| i <= m < n ==> #[trigger] v@[m] == m,
            forall|m: int| 0 <= m < i ==> #[trigger] v@[m] < i,
            forall|a: int, b: int| 0 <= a < b < n ==> v@[a] != v@[b],
            forall|a: int, b: int|
                #![trigger v@[a], v@[b]]
                0 <= a < b < i ==> !lex_lt(ks[v@[b] as int], ks[v@[a] as int]) && (ks[v@[a] as int]
                    == ks[v@[b] as int] ==> v@[a] < v@[b]),
        decreases n - i,
    {
        let x = v[i];
        assert(x == i);
        let kx = &keys[x];
        assert(kx@ == ks[x as int]);
        let mut j: usize = 0;
        while j < i && !lex_lt_exec(kx, &keys[v[j]])
            invariant
                j <= i < n == keys@.len(),
                ks == keys@.map_values(|k: Vec<char>| k@),
                v@.len() == n,
                x == i,
                kx@ == ks[x as int],
                forall|m: int| 0 <= m < i ==> #[trigger] v@[m] < i,
                forall|m: int| 0 <= m < j ==> !lex_lt(kx@, #[trigger] ks[v@[m] as int]),
            decreases i - j,
        {
            assert(keys@[v@[j as int] as int]@ == ks[v@[j as int] as int]);
            j = j + 1;
        }
        let ghost kxs = kx@;
        let ghost old_v = v@;
        proof {
            if j < i {
                assert(keys@[v@[j as int] as int]@ == ks[v@[j as int] as int]);
            }
            assert forall|m: int| j <= m < i implies lex_lt(kxs, #[trigger] ks[old_v[m] as int]) by {
                if m > j {
                    let kj = ks[old_v[j as int] as int];
                    let km = ks[old_v[m] as int];
                    assert(!lex_lt(km, kj));
                    lemma_lex_total(km, kj);
                    if lex_lt(kj, km) {
                        lemma_lex_transitive(kxs, kj, km);
                    }
                }
            }
        }
        let removed = v.remove(i);
        v.insert(j, removed);
        proof {
            assert forall|m: int| 0 <= m < j implies #[trigger] v@[m] == old_v[m] by {}
            assert(v@[j as int] == i);
            assert forall|m: int| j < m <= i implies #[trigger] v@[m] == old_v[m - 1] by {}
            assert forall|m: int| i < m < n implies #[trigger] v@[m] == old_v[m] by {}
            assert forall|m: int| (i + 1) <= m < n implies #[trigger] v@[m] == m by {}
            assert forall|m: int| 0 <= m < i + 1 implies #[trigger] v@[m] < i + 1 by {
                if m > j {
                    assert(v@[m] == old_v[m - 1]);
                }
            }
            assert forall|a: int, b: int| 0 <= a < b < n implies v@[a] != v@[b] by {
                let oa = if a < j { a } else if a == j { i as int } else if a <= i { a - 1 } else { a };
                let ob = if b < j { b } else if b == j { i as int } else if b <= i { b - 1 } else { b };
                assert(v@[a] == old_v[oa]);
                assert(v@[b] == old_v[ob]);
                assert(oa != ob);
            }
            assert forall|a: int, b: int|
                #![trigger v@[a], v@[b]]
                0 <= a < b < i + 1 implies !lex_lt(ks[v@[b] as int], ks[v@[a] as int]) && (ks[v@[a] as int]
                    == ks[v@[b] as int] ==> v@[a] < v@[b]) by {
                let oa = if a < j { a } else if a == j { i as int } else { a - 1 };
                let ob = if b < j { b } else if b == j { i as int } else { b - 1 };
                assert(v@[a] == old_v[oa]);
                assert(v@[b] == old_v[ob]);
                let ka = ks[old_v[oa] as int];
                let kb = ks[old_v[ob] as int];
                if a < j && b > j {
                    assert(!lex_lt(kxs, ka));
                    assert(lex_lt(kxs, kb));
                    if lex_lt(kb, ka) {
                        lemma_lex_transitive(kxs, kb, ka);
                    }
                    if ka == kb {
                        lemma_lex_irreflexive(ka);
                    }
                }
                if a == j && b > j {
                    assert(lex_lt(kxs, kb));
                    lemma_lex_asymmetric(kxs, kb);
                    if ka == kb {
                        lemma_lex_irreflexive(ka);
                    }
                }
                if a < j && b == j {
                    assert(!lex_lt(kxs, ka));
                    assert(old_v[oa] < i);
                }
            }
        }
        i = i + 1;
    }
    v
}

} // verus!
