use vstd::prelude::*;

use crate::bfs::{BfsResult, PlacementRecord};
use crate::parity::{placement_key, placement_sort_key, SortKey};

verus! {

/// Lexicographic order of listing keys.
pub open spec fn key_le(a: SortKey, b: SortKey) -> bool {
    a.0 < b.0 || (a.0 == b.0 && (a.1 < b.1 || (a.1 == b.1 && (a.2 < b.2 || (a.2 == b.2 && (a.3 < b.3 || (a.3
        == b.3 && a.4 <= b.4)))))))
}

fn key_le_exec(a: SortKey, b: SortKey) -> (r: bool)
    ensures
        r == key_le(a, b),
{
    a.0 < b.0 || (a.0 == b.0 && (a.1 < b.1 || (a.1 == b.1 && (a.2 < b.2 || (a.2 == b.2 && (a.3 < b.3 || (a.3
        == b.3 && a.4 <= b.4)))))))
}

/// Where `x` goes into `s`, searching from `j`: before the first entry whose
/// key is greater than the key of `x`, or at the end.
pub open spec fn slot_after<T>(s: Seq<T>, key: spec_fn(T) -> SortKey, x: T, j: int) -> int
    decreases s.len() - j,
{
    if j < 0 || j >= s.len() {
        s.len() as int
    } else if !key_le(key(s[j]), key(x)) {
        j
    } else {
        slot_after(s, key, x, j + 1)
    }
}

/// `x` put into `s` after every entry whose key is not greater than its own.
pub open spec fn insert_stable<T>(s: Seq<T>, key: spec_fn(T) -> SortKey, x: T) -> Seq<T> {
    s.insert(slot_after(s, key, x, 0), x)
}

/// `s` ordered by key, entries with equal keys kept in their order.
pub open spec fn sort_stable<T>(s: Seq<T>, key: spec_fn(T) -> SortKey) -> Seq<T>
    decreases s.len(),
{
    if s.len() == 0 {
        s
    } else {
        insert_stable(sort_stable(s.drop_last(), key), key, s.last())
    }
}

/// Whether `s` is ordered by key.
pub open spec fn sorted_by<T>(s: Seq<T>, key: spec_fn(T) -> SortKey) -> bool {
    forall|i: int, j: int| 0 <= i < j < s.len() ==> key_le(key(#[trigger] s[i]), key(#[trigger] s[j]))
}

/// The listing key of placements, as a function.
pub open spec fn placement_key_fn() -> spec_fn(PlacementRecord) -> SortKey {
    |p: PlacementRecord| placement_key(p)
}

/// The placement that stands for a search result: the first of its grouped
/// placements in listing order, or its own placement when it has none.
pub open spec fn representative(placement: PlacementRecord, placements: Seq<PlacementRecord>) -> PlacementRecord {
    if placements.len() > 0 {
        sort_stable(placements, placement_key_fn())[0]
    } else {
        placement
    }
}

/// The listing key of search results: the key of the placement that stands
/// for each.
pub open spec fn result_key_fn() -> spec_fn(BfsResult) -> SortKey {
    |r: BfsResult| placement_key(representative(r.placement, r.placements@))
}

proof fn lemma_key_le_total(a: SortKey, b: SortKey)
    ensures
        key_le(a, b) || key_le(b, a),
        key_le(a, b) && key_le(b, a) ==> a == b,
{
}

proof fn lemma_key_le_trans(a: SortKey, b: SortKey, c: SortKey)
    requires
        key_le(a, b),
        key_le(b, c),
    ensures
        key_le(a, c),
{
}

proof fn lemma_slot_after<T>(s: Seq<T>, key: spec_fn(T) -> SortKey, x: T, j: int)
    requires
        0 <= j <= s.len(),
    ensures
        j <= slot_after(s, key, x, j) <= s.len(),
        forall|i: int| j <= i < slot_after(s, key, x, j) ==> key_le(key(#[trigger] s[i]), key(x)),
        slot_after(s, key, x, j) < s.len() ==> !key_le(key(s[slot_after(s, key, x, j)]), key(x)),
    decreases s.len() - j,
{
    if j < s.len() && key_le(key(s[j]), key(x)) {
        lemma_slot_after(s, key, x, j + 1);
    }
}

/// Stable ordering yields an ordered sequence.
pub proof fn lemma_sort_stable_sorted<T>(s: Seq<T>, key: spec_fn(T) -> SortKey)
    ensures
        sorted_by(sort_stable(s, key), key),
        sort_stable(s, key).len() == s.len(),
    decreases s.len(),
{
    if s.len() > 0 {
        let t = sort_stable(s.drop_last(), key);
        let x = s.last();
        lemma_sort_stable_sorted(s.drop_last(), key);
        lemma_slot_after(t, key, x, 0);
        let p = slot_after(t, key, x, 0);
        let r = t.insert(p, x);
        assert(sort_stable(s, key) == r);
        assert forall|i: int, j: int| 0 <= i < j < r.len() implies key_le(key(#[trigger] r[i]), key(#[trigger] r[j])) by {
            if j < p {
                assert(r[i] == t[i] && r[j] == t[j]);
            } else if j == p {
                assert(r[j] == x && r[i] == t[i]);
            } else if i < p {
                assert(r[i] == t[i] && r[j] == t[j - 1]);
            } else if i == p {
                assert(r[i] == x && r[j] == t[j - 1]);
                lemma_key_le_total(key(t[p]), key(x));
                if j - 1 > p {
                    lemma_key_le_trans(key(x), key(t[p]), key(t[j - 1]));
                }
            } else {
                assert(r[i] == t[i - 1] && r[j] == t[j - 1]);
            }
        }
    }
}

/// Stable ordering only rearranges: it keeps every entry as often as it occurs.
pub proof fn lemma_sort_stable_permutes<T>(s: Seq<T>, key: spec_fn(T) -> SortKey)
    ensures
        sort_stable(s, key).to_multiset() == s.to_multiset(),
    decreases s.len(),
{
    if s.len() > 0 {
        let t = sort_stable(s.drop_last(), key);
        let x = s.last();
        lemma_sort_stable_permutes(s.drop_last(), key);
        lemma_sort_stable_sorted(s.drop_last(), key);
        lemma_slot_after(t, key, x, 0);
        let p = slot_after(t, key, x, 0);
        let r = t.insert(p, x);
        assert(sort_stable(s, key) == r);
        broadcast use vstd::seq_lib::group_to_multiset_ensures;
        assert(r.remove(p) =~= t);
        assert(r[p] == x);
        assert(r.contains(x));
        assert(r.to_multiset().remove(x) =~= t.to_multiset());
        assert(r.to_multiset() =~= t.to_multiset().insert(x));
        assert(s =~= s.drop_last().push(x));
    }
}

proof fn lemma_sort_stable_step<T>(s: Seq<T>, key: spec_fn(T) -> SortKey, i: int)
    requires
        0 <= i < s.len(),
    ensures
        sort_stable(s.take(i + 1), key) == insert_stable(sort_stable(s.take(i), key), key, s[i]),
{
    assert(s.take(i + 1).drop_last() =~= s.take(i));
}

/// The placements in listing order, equal keys kept in their order.
pub fn sorted_placements(placements: &Vec<PlacementRecord>) -> (r: Vec<PlacementRecord>)
    ensures
        r@ == sort_stable(placements@, placement_key_fn()),
{
    let ghost key = placement_key_fn();
    let mut out: Vec<PlacementRecord> = Vec::new();
    let mut i: usize = 0;
    proof {
        assert(placements@.take(0) =~= Seq::<PlacementRecord>::empty());
    }
    while i < placements.len()
        invariant
            key == placement_key_fn(),
            i <= placements@.len(),
            out@ == sort_stable(placements@.take(i as int), key),
        decreases placements@.len() - i,
    {
        let x = placements[i];
        let kx = placement_sort_key(&x);
        let mut j: usize = 0;
        while j < out.len() && key_le_exec(placement_sort_key(&out[j]), kx)
            invariant
                key == placement_key_fn(),
                kx == key(x),
                j <= out@.len(),
                slot_after(out@, key, x, 0) == slot_after(out@, key, x, j as int),
            decreases out@.len() - j,
        {
            j += 1;
        }
        proof {
            lemma_sort_stable_step(placements@, key, i as int);
            assert(placements@[i as int] == x);
        }
        out.insert(j, x);
        i += 1;
    }
    proof {
        assert(placements@.take(placements@.len() as int) =~= placements@);
    }
    out
}

/// The placement that stands for a search result: the first of its grouped
/// placements in listing order, or its own placement when it has none.
pub fn representative_placement(result: &BfsResult) -> (r: PlacementRecord)
    ensures
        r == representative(result.placement, result.placements@),
{
    let sorted = sorted_placements(&result.placements);
    proof {
        lemma_sort_stable_sorted(result.placements@, placement_key_fn());
    }
    if sorted.len() > 0 {
        sorted[0]
    } else {
        result.placement
    }
}

/// Search results in listing order of the placements that stand for them,
/// equal keys kept in their order.
pub fn order_bfs_results(results: Vec<BfsResult>) -> (r: Vec<BfsResult>)
    ensures
        r@ == sort_stable(results@, result_key_fn()),
{
    let ghost key = result_key_fn();
    let ghost input = results@;
    let mut rest = results;
    let mut out: Vec<BfsResult> = Vec::new();
    let mut keys: Vec<SortKey> = Vec::new();
    let ghost mut i: int = 0;
    proof {
        assert(input.take(0) =~= Seq::<BfsResult>::empty());
        assert(rest@ =~= input.skip(0));
    }
    while rest.len() > 0
        invariant
            key == result_key_fn(),
            0 <= i <= input.len(),
            rest@ == input.skip(i),
            out@ == sort_stable(input.take(i), key),
            keys@.len() == out@.len(),
            forall|m: int| 0 <= m < out@.len() ==> #[trigger] keys@[m] == key(out@[m]),
        decreases rest@.len(),
    {
        let ghost old_rest = rest@;
        let x = rest.remove(0);
        proof {
            assert(input.skip(i)[0] == input[i]);
            assert(rest@ =~= input.skip(i + 1));
            assert(x == input[i]);
        }
        let kx = placement_sort_key(&representative_placement(&x));
        let mut j: usize = 0;
        while j < keys.len() && key_le_exec(keys[j], kx)
            invariant
                key == result_key_fn(),
                kx == key(x),
                keys@.len() == out@.len(),
                forall|m: int| 0 <= m < out@.len() ==> #[trigger] keys@[m] == key(out@[m]),
                j <= out@.len(),
                slot_after(out@, key, x, 0) == slot_after(out@, key, x, j as int),
            decreases out@.len() - j,
        {
            j += 1;
        }
        proof {
            lemma_sort_stable_step(input, key, i);
        }
        let ghost before = out@;
        let ghost before_keys = keys@;
        out.insert(j, x);
        keys.insert(j, kx);
        proof {
            assert forall|m: int| 0 <= m < out@.len() implies #[trigger] keys@[m] == key(out@[m]) by {
                if m < j {
                    assert(keys@[m] == before_keys[m] && out@[m] == before[m]);
                } else if m > j {
                    assert(keys@[m] == before_keys[m - 1] && out@[m] == before[m - 1]);
                }
            }
            i = i + 1;
        }
    }
    proof {
        assert(input.take(i) =~= input);
    }
    out
}

} // verus!
