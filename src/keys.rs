//! The distinct grouping keys of a record sequence, in a fixed order.

use vstd::prelude::*;
use crate::record::{views, Record, RecordView};
use crate::text::{
    lemma_text_lt_irreflexive,
    lemma_text_lt_total,
    lemma_text_lt_transitive,
    text_less,
    text_lt,
};

verus! {

/// The requested durations that occur in `s`.
pub open spec fn target_set(s: Seq<RecordView>) -> Set<i64> {
    Set::new(|t: i64| exists|i: int| 0 <= i < s.len() && s[i].target_ns == t)
}

/// The mechanisms that occur in `s`.
pub open spec fn mechanism_set(s: Seq<RecordView>) -> Set<Seq<char>> {
    Set::new(|m: Seq<char>| exists|i: int| 0 <= i < s.len() && s[i].sleep_type == m)
}

/// Each element of `k` comes before every later one under `lt`.
pub open spec fn sorted_by<A>(k: Seq<A>, lt: spec_fn(A, A) -> bool) -> bool {
    forall|i: int, j: int| 0 <= i < j < k.len() ==> lt(k[i], k[j])
}

/// Strictly ascending integers.
pub open spec fn ascending(k: Seq<i64>) -> bool {
    forall|i: int, j: int| 0 <= i < j < k.len() ==> k[i] < k[j]
}

/// Strictly ascending texts, in lexicographic order.
pub open spec fn text_ascending(k: Seq<Seq<char>>) -> bool {
    forall|i: int, j: int| 0 <= i < j < k.len() ==> text_lt(k[i], k[j])
}

/// The elements of a finite set of integers in ascending order.
pub open spec fn sorted_durations(ks: Set<i64>) -> Seq<i64> {
    choose|k: Seq<i64>| ascending(k) && k.to_set() == ks
}

/// The elements of a finite set of texts in lexicographic order.
pub open spec fn sorted_mechanisms(ms: Set<Seq<char>>) -> Seq<Seq<char>> {
    choose|k: Seq<Seq<char>>| text_ascending(k) && k.to_set() == ms
}

/// The distinct requested durations of `s`, ascending.
pub open spec fn duration_keys(s: Seq<RecordView>) -> Seq<i64> {
    sorted_durations(target_set(s))
}

/// The distinct mechanisms of `s`, in lexicographic order.
pub open spec fn mechanism_keys(s: Seq<RecordView>) -> Seq<Seq<char>> {
    sorted_mechanisms(mechanism_set(s))
}

/// The views of a sequence of strings.
pub open spec fn texts(k: Seq<String>) -> Seq<Seq<char>> {
    k.map_values(|m: String| m@)
}

/// Two sequences sorted strictly by the same irreflexive, transitive
/// relation, with the same elements, are equal.
pub proof fn lemma_sorted_unique<A>(a: Seq<A>, b: Seq<A>, lt: spec_fn(A, A) -> bool)
    requires
        forall|x: A| !(#[trigger] lt(x, x)),
        forall|x: A, y: A, z: A| #[trigger] lt(x, y) && #[trigger] lt(y, z) ==> lt(x, z),
        sorted_by(a, lt),
        sorted_by(b, lt),
        a.to_set() == b.to_set(),
    ensures
        a == b,
    decreases a.len(),
{
    assert(forall|x: A| a.contains(x) <==> a.to_set().contains(x));
    assert(forall|x: A| b.contains(x) <==> b.to_set().contains(x));
    if a.len() == 0 {
        if b.len() > 0 {
            assert(b.contains(b[0]));
        }
        assert(a =~= b);
    } else {
        assert(a.contains(a[0]));
        assert(b.len() > 0);
        assert(b.contains(b[0]));
        if a[0] != b[0] {
            let j = choose|j: int| 0 <= j < b.len() && b[j] == a[0];
            let i = choose|i: int| 0 <= i < a.len() && a[i] == b[0];
            assert(lt(b[0], b[j]));
            assert(lt(a[0], a[i]));
            assert(lt(a[0], a[0]));
        }
        let ta = a.drop_first();
        let tb = b.drop_first();
        assert forall|x: A| ta.to_set().contains(x) <==> tb.to_set().contains(x) by {
            if ta.contains(x) {
                let i = choose|i: int| 0 <= i < ta.len() && ta[i] == x;
                assert(lt(a[0], a[i + 1]));
                assert(a.contains(x));
                let j = choose|j: int| 0 <= j < b.len() && b[j] == x;
                assert(j != 0);
                assert(tb[j - 1] == x);
            }
            if tb.contains(x) {
                let i = choose|i: int| 0 <= i < tb.len() && tb[i] == x;
                assert(lt(b[0], b[i + 1]));
                assert(b.contains(x));
                let j = choose|j: int| 0 <= j < a.len() && a[j] == x;
                assert(j != 0);
                assert(ta[j - 1] == x);
            }
        }
        assert(ta.to_set() =~= tb.to_set());
        lemma_sorted_unique(ta, tb, lt);
        assert(a =~= seq![a[0]] + ta);
        assert(b =~= seq![b[0]] + tb);
    }
}

/// `sorted_durations` gives the one ascending sequence with these elements.
pub proof fn lemma_durations_unique(k: Seq<i64>, ks: Set<i64>)
    requires
        ascending(k),
        k.to_set() == ks,
    ensures
        sorted_durations(ks) == k,
{
    let c = sorted_durations(ks);
    let lt = |x: i64, y: i64| x < y;
    assert(sorted_by(k, lt));
    assert(sorted_by(c, lt));
    lemma_sorted_unique(k, c, lt);
}

/// Lexicographic order is irreflexive and transitive.
pub proof fn lemma_text_order()
    ensures
        forall|x: Seq<char>| !(#[trigger] text_lt(x, x)),
        forall|x: Seq<char>, y: Seq<char>, z: Seq<char>|
            #[trigger] text_lt(x, y) && #[trigger] text_lt(y, z) ==> text_lt(x, z),
{
    assert forall|x: Seq<char>| !(#[trigger] text_lt(x, x)) by {
        lemma_text_lt_irreflexive(x);
    }
    assert forall|x: Seq<char>, y: Seq<char>, z: Seq<char>|
        #[trigger] text_lt(x, y) && #[trigger] text_lt(y, z) implies text_lt(x, z) by {
        lemma_text_lt_transitive(x, y, z);
    }
}

/// `sorted_mechanisms` gives the one ascending sequence with these elements.
pub proof fn lemma_mechanisms_unique(k: Seq<Seq<char>>, ms: Set<Seq<char>>)
    requires
        text_ascending(k),
        k.to_set() == ms,
    ensures
        sorted_mechanisms(ms) == k,
{
    let c = sorted_mechanisms(ms);
    let lt = |x: Seq<char>, y: Seq<char>| text_lt(x, y);
    lemma_text_order();
    assert(sorted_by(k, lt));
    assert(sorted_by(c, lt));
    lemma_sorted_unique(k, c, lt);
}

/// The distinct requested durations of the records, ascending.
pub fn unique_durations(records: &Vec<Record>) -> (r: Vec<i64>)
    ensures
        ascending(r@),
        r@.to_set() == target_set(views(records@)),
        r@ == duration_keys(views(records@)),
{
    let ghost s = views(records@);
    let mut keys: Vec<i64> = Vec::new();
    let mut i: usize = 0;
    while i < records.len()
        invariant
            i <= records@.len(),
            s == views(records@),
            ascending(keys@),
            forall|x: i64|
                keys@.contains(x) <==> exists|j: int| 0 <= j < i && #[trigger] s[j].target_ns == x,
        decreases records@.len() - i,
    {
        let t = records[i].target_ns;
        assert(s[i as int].target_ns == t);
        let mut p: usize = 0;
        while p < keys.len() && keys[p] < t
            invariant
                p <= keys@.len(),
                forall|q: int| 0 <= q < p ==> keys@[q] < t,
            decreases keys@.len() - p,
        {
            p = p + 1;
        }
        let ghost old_keys = keys@;
        if p < keys.len() && keys[p] == t {
            assert(keys@.contains(t));
        } else {
            keys.insert(p, t);
            assert forall|x: i64| keys@.contains(x) <==> (old_keys.contains(x) || x == t) by {
                if keys@.contains(x) {
                    let q = choose|q: int| 0 <= q < keys@.len() && keys@[q] == x;
                    if q < p {
                        assert(old_keys[q] == x);
                    } else if q > p {
                        assert(old_keys[q - 1] == x);
                    }
                }
                if old_keys.contains(x) {
                    let q = choose|q: int| 0 <= q < old_keys.len() && old_keys[q] == x;
                    if q < p {
                        assert(keys@[q] == x);
                    } else {
                        assert(keys@[q + 1] == x);
                    }
                }
                if x == t {
                    assert(keys@[p as int] == x);
                }
            }
        }
        assert forall|x: i64|
            keys@.contains(x) <==> exists|j: int| 0 <= j < i + 1 && #[trigger] s[j].target_ns == x by {
            assert(keys@.contains(x) <==> (old_keys.contains(x) || x == t));
            if exists|j: int| 0 <= j < i + 1 && #[trigger] s[j].target_ns == x {
                let j = choose|j: int| 0 <= j < i + 1 && #[trigger] s[j].target_ns == x;
                if j < i {
                    assert(old_keys.contains(x));
                }
            }
            if keys@.contains(x) {
                if x == t {
                    assert(s[i as int].target_ns == x);
                } else {
                    assert(old_keys.contains(x));
                    let j = choose|j: int| 0 <= j < i && #[trigger] s[j].target_ns == x;
                    assert(0 <= j < i + 1 && s[j].target_ns == x);
                }
            }
        }
        i = i + 1;
    }
    assert(keys@.to_set() =~= target_set(s));
    proof {
        lemma_durations_unique(keys@, target_set(s));
    }
    keys
}

/// The distinct mechanisms of the records, in lexicographic order.
pub fn unique_mechanisms(records: &Vec<Record>) -> (r: Vec<String>)
    ensures
        text_ascending(texts(r@)),
        texts(r@).to_set() == mechanism_set(views(records@)),
        texts(r@) == mechanism_keys(views(records@)),
{
    let ghost s = views(records@);
    proof {
        lemma_text_order();
    }
    let mut keys: Vec<String> = Vec::new();
    let mut i: usize = 0;
    assert(texts(keys@) =~= Seq::<Seq<char>>::empty());
    while i < records.len()
        invariant
            i <= records@.len(),
            s == views(records@),
            forall|x: Seq<char>| !(#[trigger] text_lt(x, x)),
            forall|x: Seq<char>, y: Seq<char>, z: Seq<char>|
                #[trigger] text_lt(x, y) && #[trigger] text_lt(y, z) ==> text_lt(x, z),
            text_ascending(texts(keys@)),
            forall|x: Seq<char>|
                texts(keys@).contains(x) <==> exists|j: int|
                    0 <= j < i && #[trigger] s[j].sleep_type == x,
        decreases records@.len() - i,
    {
        let m = &records[i].sleep_type;
        let ghost mv = m@;
        assert(s[i as int].sleep_type == mv);
        let ghost old_t = texts(keys@);
        let mut p: usize = 0;
        let mut found = false;
        while !found && p < keys.len()
            invariant
                p <= keys@.len(),
                old_t == texts(keys@),
                mv == m@,
                forall|q: int| 0 <= q < p ==> text_lt(old_t[q], mv),
                found ==> p < keys@.len() && !text_lt(old_t[p as int], mv),
            decreases keys@.len() - p + (if found { 0int } else { 1int }),
        {
            assert(old_t[p as int] == keys@[p as int]@);
            if text_less(keys[p].as_str(), m.as_str()) {
                p = p + 1;
            } else {
                found = true;
            }
        }
        if p < keys.len() && keys[p] == *m {
            assert(old_t[p as int] == keys@[p as int]@);
            assert(old_t[p as int] == mv);
            assert(old_t.contains(mv));
        } else {
            proof {
                if p < old_t.len() {
                    assert(old_t[p as int] == keys@[p as int]@);
                    lemma_text_lt_total(mv, old_t[p as int]);
                    assert(text_lt(mv, old_t[p as int]));
                }
            }
            keys.insert(p, m.clone());
            let ghost new_t = texts(keys@);
            assert(new_t =~= old_t.insert(p as int, mv));
            assert forall|a: int, b: int| 0 <= a < b < new_t.len() implies text_lt(
                new_t[a],
                new_t[b],
            ) by {
                if b == p {
                } else if a == p {
                    assert(new_t[b] == old_t[b - 1]);
                    if b - 1 > p {
                        assert(text_lt(old_t[p as int], old_t[b - 1]));
                    }
                } else if a < p && b > p {
                    assert(text_lt(old_t[a], mv));
                    assert(text_lt(mv, old_t[b - 1])) by {
                        if b - 1 > p {
                            assert(text_lt(old_t[p as int], old_t[b - 1]));
                        }
                    }
                }
            }
            assert forall|x: Seq<char>| new_t.contains(x) <==> (old_t.contains(x) || x == mv) by {
                if new_t.contains(x) {
                    let q = choose|q: int| 0 <= q < new_t.len() && new_t[q] == x;
                    if q < p {
                        assert(old_t[q] == x);
                    } else if q > p {
                        assert(old_t[q - 1] == x);
                    }
                }
                if old_t.contains(x) {
                    let q = choose|q: int| 0 <= q < old_t.len() && old_t[q] == x;
                    if q < p {
                        assert(new_t[q] == x);
                    } else {
                        assert(new_t[q + 1] == x);
                    }
                }
                if x == mv {
                    assert(new_t[p as int] == x);
                }
            }
        }
        let ghost new_t = texts(keys@);
        assert forall|x: Seq<char>|
            new_t.contains(x) <==> exists|j: int| 0 <= j < i + 1 && #[trigger] s[j].sleep_type == x by {
            assert(new_t.contains(x) <==> (old_t.contains(x) || x == mv));
            if exists|j: int| 0 <= j < i + 1 && #[trigger] s[j].sleep_type == x {
                let j = choose|j: int| 0 <= j < i + 1 && #[trigger] s[j].sleep_type == x;
                if j < i {
                    assert(old_t.contains(x));
                }
            }
            if new_t.contains(x) {
                if x == mv {
                    assert(s[i as int].sleep_type == x);
                } else {
                    assert(old_t.contains(x));
                    let j = choose|j: int| 0 <= j < i && #[trigger] s[j].sleep_type == x;
                    assert(0 <= j < i + 1 && s[j].sleep_type == x);
                }
            }
        }
        i = i + 1;
    }
    assert(texts(keys@).to_set() =~= mechanism_set(s));
    proof {
        lemma_mechanisms_unique(texts(keys@), mechanism_set(s));
    }
    keys
}

} // verus!
