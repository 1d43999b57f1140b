//! Choosing the entries with the largest values, and totals per text key.
use vstd::prelude::*;
use crate::metrics::sat;
use crate::text::text_eq;

verus! {

/// `idx` picks the `min(k, n)` largest of `vals`: distinct positions, in
/// non-increasing order of value, none left out that is larger than a
/// picked one.
pub open spec fn is_top_selection(vals: Seq<u64>, k: nat, idx: Seq<usize>) -> bool {
    &&& idx.len() == (if k < vals.len() {
        k
    } else {
        vals.len()
    })
    &&& forall|a: int| 0 <= a < idx.len() ==> (#[trigger] idx[a]) < vals.len()
    &&& forall|a: int, b: int| 0 <= a < b < idx.len() ==> idx[a] != idx[b]
    &&& forall|a: int, b: int|
        0 <= a < b < idx.len() ==> vals[#[trigger] idx[a] as int] >= vals[#[trigger] idx[b] as int]
    &&& forall|j: int, a: int|
        0 <= j < vals.len() && 0 <= a < idx.len() && !idx.contains(j as usize) ==> #[trigger] vals[j]
            <= vals[#[trigger] idx[a] as int]
}

/// Positions of the `k` largest values (all of them when there are fewer),
/// largest first.
pub fn top_indices(vals: &Vec<u64>, k: usize) -> (r: Vec<usize>)
    ensures
        is_top_selection(vals@, k as nat, r@),
{
    let n = vals.len();
    let target = if k < n {
        k
    } else {
        n
    };
    let mut picked: Vec<bool> = Vec::with_capacity(n);
    let mut i: usize = 0;
    while i < n
        invariant
            i <= n,
            n == vals@.len(),
            picked@.len() == i,
            forall|j: int| 0 <= j < i ==> !picked@[j],
        decreases n - i,
    {
        picked.push(false);
        i = i + 1;
    }
    let mut out: Vec<usize> = Vec::new();
    while out.len() < target
        invariant
            n == vals@.len(),
            picked@.len() == n,
            target <= n,
            target == (if k < n {
                k
            } else {
                n
            }),
            out@.len() <= target,
            forall|a: int| 0 <= a < out@.len() ==> (#[trigger] out@[a]) < n,
            forall|a: int, b: int| 0 <= a < b < out@.len() ==> out@[a] != out@[b],
            forall|j: int| 0 <= j < n ==> (picked@[j] <==> out@.contains(j as usize)),
            forall|a: int, b: int|
                0 <= a < b < out@.len() ==> vals@[#[trigger] out@[a] as int] >= vals@[
                    #[trigger] out@[b] as int
                ],
            forall|j: int, a: int|
                0 <= j < n && 0 <= a < out@.len() && !picked@[j] ==> #[trigger] vals@[j]
                    <= vals@[#[trigger] out@[a] as int],
        decreases target - out@.len(),
    {
        // out has fewer than n entries, all distinct, so some position is free
        proof {
            lemma_free_position(out@, n, picked@);
        }
        let mut best: usize = n;
        let mut j: usize = 0;
        while j < n
            invariant
                n == vals@.len(),
                picked@.len() == n,
                j <= n,
                best == n || (best < j && !picked@[best as int]),
                best == n ==> forall|q: int| 0 <= q < j ==> picked@[q],
                best < n ==> forall|q: int|
                    0 <= q < j && !picked@[q] ==> vals@[q] <= vals@[best as int],
            decreases n - j,
        {
            if !picked[j] && (best == n || vals[j] > vals[best]) {
                best = j;
            }
            j = j + 1;
        }
        proof {
            if best == n {
                let q = choose|q: int| 0 <= q < n && !picked@[q];
                assert(picked@[q]);
            }
        }
        let ghost before = out@;
        assert(!out@.contains(best)) by {
            if out@.contains(best) {
                assert(picked@[best as int]);
            }
        }
        picked.set(best, true);
        out.push(best);
        proof {
            assert forall|q: int| 0 <= q < n implies (picked@[q] <==> out@.contains(q as usize)) by {
                if q != best as int {
                    if before.contains(q as usize) {
                        let a = choose|a: int| 0 <= a < before.len() && before[a] == q as usize;
                        assert(out@[a] == q as usize);
                    }
                    if out@.contains(q as usize) {
                        let a = choose|a: int| 0 <= a < out@.len() && out@[a] == q as usize;
                        assert(a < before.len());
                        assert(before[a] == q as usize);
                    }
                } else {
                    assert(out@[out@.len() - 1] == best);
                }
            }
            assert forall|a: int, b: int| 0 <= a < b < out@.len() implies out@[a] != out@[b] by {
                if b == out@.len() - 1 {
                    assert(out@[a] == before[a]);
                    assert(before.contains(before[a]));
                }
            }
            assert forall|a: int, b: int| 0 <= a < b < out@.len() implies vals@[
                #[trigger] out@[a] as int
            ] >= vals@[#[trigger] out@[b] as int] by {
                if b == out@.len() - 1 {
                    assert(out@[a] == before[a]);
                }
            }
        }
    }
    out
}

proof fn lemma_free_position(out: Seq<usize>, n: usize, picked: Seq<bool>)
    requires
        out.len() < n,
        picked.len() == n,
        forall|a: int| 0 <= a < out.len() ==> (#[trigger] out[a]) < n,
        forall|a: int, b: int| 0 <= a < b < out.len() ==> out[a] != out[b],
        forall|j: int| 0 <= j < n ==> (picked[j] <==> out.contains(j as usize)),
    ensures
        exists|q: int| 0 <= q < n && !picked[q],
{
    if forall|q: int| 0 <= q < n ==> picked[q] {
        let all = Set::new(|x: usize| x < n);
        let used = out.to_set();
        assert forall|x: usize| all.contains(x) implies used.contains(x) by {
            assert(picked[x as int]);
        }
        vstd::set_lib::lemma_int_range(0, n as int);
        assert(all =~= Set::new(|x: usize| 0 <= x < n));
        lemma_card_range(n);
        vstd::set_lib::lemma_len_subset(all, used);
        out.unique_seq_to_set();
        assert(false);
    }
}

proof fn lemma_card_range(n: usize)
    ensures
        Set::new(|x: usize| x < n).finite(),
        Set::new(|x: usize| x < n).len() == n,
    decreases n,
{
    if n == 0 {
        assert(Set::new(|x: usize| x < n) =~= Set::<usize>::empty());
    } else {
        let m = (n - 1) as usize;
        lemma_card_range(m);
        assert(Set::new(|x: usize| x < n) =~= Set::new(|x: usize| x < m).insert(m));
    }
}


/// Running totals per key, in order of first appearance.
pub open spec fn tallied<K>(t: Seq<(K, u64)>, key: K, amount: u64) -> Seq<(K, u64)> {
    if exists|i: int| 0 <= i < t.len() && (#[trigger] t[i]).0 == key {
        let i = choose|i: int| 0 <= i < t.len() && (#[trigger] t[i]).0 == key;
        t.update(i, (key, sat(t[i].1 + amount)))
    } else {
        t.push((key, amount))
    }
}

/// Totals per key of `items` (each a key and an amount), in order of first
/// appearance of the key; a total is held at `u64::MAX`.
pub open spec fn totals<K>(items: Seq<(K, u64)>) -> Seq<(K, u64)>
    decreases items.len(),
{
    if items.len() == 0 {
        Seq::empty()
    } else {
        tallied(totals(items.drop_last()), items.last().0, items.last().1)
    }
}

pub open spec fn keys_unique<K>(t: Seq<(K, u64)>) -> bool {
    forall|i: int, j: int| 0 <= i < t.len() && 0 <= j < t.len() && i != j ==> (#[trigger] t[i]).0 != (#[trigger] t[j]).0
}

pub open spec fn text_pairs(v: Seq<(String, u64)>) -> Seq<(Seq<char>, u64)> {
    v.map_values(|p: (String, u64)| (p.0@, p.1))
}

pub open spec fn values_of<K>(t: Seq<(K, u64)>) -> Seq<u64> {
    t.map_values(|p: (K, u64)| p.1)
}

proof fn lemma_tallied_unique<K>(t: Seq<(K, u64)>, key: K, amount: u64)
    requires
        keys_unique(t),
    ensures
        keys_unique(tallied(t, key, amount)),
{
    let r = tallied(t, key, amount);
    if exists|i: int| 0 <= i < t.len() && (#[trigger] t[i]).0 == key {
        let c = choose|i: int| 0 <= i < t.len() && (#[trigger] t[i]).0 == key;
        assert forall|i: int, j: int| 0 <= i < r.len() && 0 <= j < r.len() && i != j implies (
        #[trigger] r[i]).0 != (#[trigger] r[j]).0 by {
            assert(r[i].0 == t[i].0);
            assert(r[j].0 == t[j].0);
        }
    } else {
        assert forall|i: int, j: int| 0 <= i < r.len() && 0 <= j < r.len() && i != j implies (
        #[trigger] r[i]).0 != (#[trigger] r[j]).0 by {
            if i < t.len() {
                assert(r[i] == t[i]);
            }
            if j < t.len() {
                assert(r[j] == t[j]);
            }
        }
    }
}

/// Adds `amount` to the total of `key`, appending the key when it is new.
pub fn tally_text(t: &mut Vec<(String, u64)>, key: &str, amount: u64)
    requires
        keys_unique(text_pairs(old(t)@)),
    ensures
        text_pairs(final(t)@) == tallied(text_pairs(old(t)@), key@, amount),
        keys_unique(text_pairs(final(t)@)),
{
    let ghost v = text_pairs(t@);
    proof {
        lemma_tallied_unique(v, key@, amount);
    }
    let mut i: usize = 0;
    while i < t.len()
        invariant
            i <= t@.len(),
            v == text_pairs(t@),
            t@ == old(t)@,
            keys_unique(v),
            keys_unique(tallied(v, key@, amount)),
            forall|q: int| 0 <= q < i ==> (#[trigger] v[q]).0 != key@,
        decreases t@.len() - i,
    {
        assert(v[i as int] == (t@[i as int].0@, t@[i as int].1));
        if text_eq(t[i].0.as_str(), key) {
            let ghost c = choose|q: int| 0 <= q < v.len() && (#[trigger] v[q]).0 == key@;
            assert(v[c].0 == v[i as int].0);
            assert(c == i as int);
            let total = t[i].1.saturating_add(amount);
            let name = t[i].0.clone();
            t.set(i, (name, total));
            assert(text_pairs(t@) =~= v.update(i as int, (key@, sat(v[i as int].1 + amount))));
            return ;
        }
        i = i + 1;
    }
    t.push((key.to_string(), amount));
    assert(text_pairs(t@) =~= v.push((key@, amount)));
}

/// Adds `amount` to the total of `key`, appending the key when it is new.
pub fn tally_byte(t: &mut Vec<(u8, u64)>, key: u8, amount: u64)
    requires
        keys_unique(old(t)@),
    ensures
        final(t)@ == tallied(old(t)@, key, amount),
        keys_unique(final(t)@),
{
    let ghost v = t@;
    proof {
        lemma_tallied_unique(v, key, amount);
    }
    let mut i: usize = 0;
    while i < t.len()
        invariant
            i <= t@.len(),
            v == t@,
            t@ == old(t)@,
            keys_unique(v),
            keys_unique(tallied(v, key, amount)),
            forall|q: int| 0 <= q < i ==> (#[trigger] v[q]).0 != key,
        decreases t@.len() - i,
    {
        if t[i].0 == key {
            let ghost c = choose|q: int| 0 <= q < v.len() && (#[trigger] v[q]).0 == key;
            assert(v[c].0 == v[i as int].0);
            assert(c == i as int);
            let total = t[i].1.saturating_add(amount);
            t.set(i, (key, total));
            return ;
        }
        i = i + 1;
    }
    t.push((key, amount));
}

/// Adds `amount` to the total of `key`, appending the key when it is new.
pub fn tally_word(t: &mut Vec<(u32, u64)>, key: u32, amount: u64)
    requires
        keys_unique(old(t)@),
    ensures
        final(t)@ == tallied(old(t)@, key, amount),
        keys_unique(final(t)@),
{
    let ghost v = t@;
    proof {
        lemma_tallied_unique(v, key, amount);
    }
    let mut i: usize = 0;
    while i < t.len()
        invariant
            i <= t@.len(),
            v == t@,
            t@ == old(t)@,
            keys_unique(v),
            keys_unique(tallied(v, key, amount)),
            forall|q: int| 0 <= q < i ==> (#[trigger] v[q]).0 != key,
        decreases t@.len() - i,
    {
        if t[i].0 == key {
            let ghost c = choose|q: int| 0 <= q < v.len() && (#[trigger] v[q]).0 == key;
            assert(v[c].0 == v[i as int].0);
            assert(c == i as int);
            let total = t[i].1.saturating_add(amount);
            t.set(i, (key, total));
            return ;
        }
        i = i + 1;
    }
    t.push((key, amount));
}

/// `r` holds the `k` pairs of `t` with the largest values, largest first
/// (see `is_top_selection`).
pub open spec fn top_of<K>(t: Seq<(K, u64)>, k: nat, r: Seq<(K, u64)>) -> bool {
    exists|idx: Seq<usize>| is_top_selection(values_of(t), k, idx) && r == #[trigger] pick_pairs(t, idx)
}

/// The entries of `t` at the positions `idx`, in that order.
pub open spec fn pick_pairs<K>(t: Seq<(K, u64)>, idx: Seq<usize>) -> Seq<(K, u64)> {
    idx.map_values(|i: usize| t[i as int])
}

/// The `k` pairs with the largest totals, largest first.
pub fn top_text(t: &Vec<(String, u64)>, k: usize) -> (r: Vec<(String, u64)>)
    ensures
        top_of(text_pairs(t@), k as nat, text_pairs(r@)),
{
    let mut vals: Vec<u64> = Vec::new();
    let mut i: usize = 0;
    while i < t.len()
        invariant
            i <= t@.len(),
            vals@ == values_of(t@).take(i as int),
        decreases t@.len() - i,
    {
        vals.push(t[i].1);
        i = i + 1;
        assert(vals@ =~= values_of(t@).take(i as int));
    }
    assert(vals@ =~= values_of(text_pairs(t@)));
    let idx = top_indices(&vals, k);
    let mut r: Vec<(String, u64)> = Vec::new();
    let mut a: usize = 0;
    while a < idx.len()
        invariant
            a <= idx@.len(),
            forall|q: int| 0 <= q < idx@.len() ==> (#[trigger] idx@[q]) < t@.len(),
            text_pairs(r@) == pick_pairs(text_pairs(t@), idx@.take(a as int)),
        decreases idx@.len() - a,
    {
        let j = idx[a];
        let ghost before = r@;
        r.push((t[j].0.clone(), t[j].1));
        assert(text_pairs(r@) =~= text_pairs(before).push(text_pairs(t@)[j as int]));
        assert(idx@.take(a + 1) =~= idx@.take(a as int).push(j));
        a = a + 1;
        assert(text_pairs(r@) =~= pick_pairs(text_pairs(t@), idx@.take(a as int)));
    }
    assert(idx@.take(a as int) =~= idx@);
    assert(text_pairs(r@) == pick_pairs(text_pairs(t@), idx@));
    r
}

/// The `k` pairs with the largest totals, largest first.
pub fn top_bytes(t: &Vec<(u8, u64)>, k: usize) -> (r: Vec<(u8, u64)>)
    ensures
        top_of(t@, k as nat, r@),
{
    let mut vals: Vec<u64> = Vec::new();
    let mut i: usize = 0;
    while i < t.len()
        invariant
            i <= t@.len(),
            vals@ == values_of(t@).take(i as int),
        decreases t@.len() - i,
    {
        vals.push(t[i].1);
        i = i + 1;
        assert(vals@ =~= values_of(t@).take(i as int));
    }
    assert(vals@ =~= values_of(t@));
    let idx = top_indices(&vals, k);
    let mut r: Vec<(u8, u64)> = Vec::new();
    let mut a: usize = 0;
    while a < idx.len()
        invariant
            a <= idx@.len(),
            forall|q: int| 0 <= q < idx@.len() ==> (#[trigger] idx@[q]) < t@.len(),
            r@ == pick_pairs(t@, idx@.take(a as int)),
        decreases idx@.len() - a,
    {
        let j = idx[a];
        r.push(t[j]);
        a = a + 1;
        assert(r@ =~= pick_pairs(t@, idx@.take(a as int)));
    }
    assert(idx@.take(a as int) =~= idx@);
    assert(r@ == pick_pairs(t@, idx@));
    r
}

} // verus!
