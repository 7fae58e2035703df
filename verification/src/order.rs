//! Maps that are keyed by the integer encoding of a table, read in ascending
//! order of the keys.
use std::collections::BTreeMap;
use vstd::prelude::*;
use vstd::std_specs::btree::{axiom_increasing_seq_meaning, increasing_seq};
use vstd::std_specs::cmp::OrdSpec;
use vstd::std_specs::iter::IteratorSpec;

verus! {

/// The keys of `dom` that lie below `bound`, in ascending order.
pub open spec fn keys_below(dom: Set<u32>, bound: nat) -> Seq<u32>
    decreases bound,
{
    if bound == 0 {
        Seq::empty()
    } else {
        let k = (bound - 1) as u32;
        if dom.contains(k) {
            keys_below(dom, (bound - 1) as nat).push(k)
        } else {
            keys_below(dom, (bound - 1) as nat)
        }
    }
}

/// All keys of `dom`, in ascending order.
pub open spec fn ascending_keys(dom: Set<u32>) -> Seq<u32> {
    keys_below(dom, 0x1_0000_0000)
}

/// The values of a map, in ascending order of their keys.
pub open spec fn ascending_values<T>(m: Map<u32, T>) -> Seq<T> {
    ascending_keys(m.dom()).map_values(|k: u32| m[k])
}

/// Whether each key is smaller than the next.
pub open spec fn strictly_ascending(ks: Seq<u32>) -> bool {
    forall|i: int, j: int| 0 <= i < j < ks.len() ==> ks[i] < ks[j]
}

spec fn count_below(ks: Seq<u32>, bound: nat) -> int
    decreases ks.len(),
{
    if ks.len() == 0 {
        0
    } else if ks.last() < bound {
        ks.len() as int
    } else {
        count_below(ks.drop_last(), bound)
    }
}

proof fn lemma_count_below(ks: Seq<u32>, bound: nat)
    requires
        strictly_ascending(ks),
    ensures
        0 <= count_below(ks, bound) <= ks.len(),
        forall|i: int| 0 <= i < count_below(ks, bound) ==> ks[i] < bound,
        forall|i: int| count_below(ks, bound) <= i < ks.len() ==> ks[i] >= bound,
    decreases ks.len(),
{
    if ks.len() > 0 && ks.last() >= bound {
        let init = ks.drop_last();
        assert(strictly_ascending(init)) by {
            assert forall|i: int, j: int| 0 <= i < j < init.len() implies init[i] < init[j] by {
                assert(ks[i] < ks[j]);
            }
        }
        lemma_count_below(init, bound);
        assert forall|i: int| 0 <= i < count_below(ks, bound) implies ks[i] < bound by {
            assert(init[i] < bound);
        }
        assert forall|i: int| count_below(ks, bound) <= i < ks.len() implies ks[i] >= bound by {
            if i < init.len() {
                assert(init[i] >= bound);
            }
        }
    }
}

proof fn lemma_keys_below(ks: Seq<u32>, dom: Set<u32>, bound: nat)
    requires
        strictly_ascending(ks),
        forall|k: u32| dom.contains(k) <==> ks.contains(k),
        bound <= 0x1_0000_0000,
    ensures
        keys_below(dom, bound) == ks.take(count_below(ks, bound)),
    decreases bound,
{
    lemma_count_below(ks, bound);
    if bound == 0 {
        assert(ks.take(0) =~= Seq::<u32>::empty());
        assert(count_below(ks, 0) == 0) by {
            if count_below(ks, 0) > 0 {
                assert(ks[0] < 0);
            }
        }
    } else {
        let below = (bound - 1) as nat;
        let k = below as u32;
        lemma_keys_below(ks, dom, below);
        lemma_count_below(ks, below);
        let c0 = count_below(ks, below);
        let c1 = count_below(ks, bound);
        if c1 < c0 {
            assert(ks[c1] < below);
            assert(ks[c1] >= bound);
        }
        if c1 >= c0 + 2 {
            assert(ks[c0] >= below && ks[c0] < bound);
            assert(ks[c0 + 1] >= below && ks[c0 + 1] < bound);
            assert(ks[c0] < ks[c0 + 1]);
        }
        if dom.contains(k) {
            assert(ks.contains(k));
            let i = choose|i: int| 0 <= i < ks.len() && ks[i] == k;
            if i < c0 {
                assert(ks[i] < below);
            }
            if i >= c1 {
                assert(ks[i] >= bound);
            }
            assert(c1 == c0 + 1 && i == c0);
            assert(ks.take(c0).push(k) =~= ks.take(c1));
        } else {
            if c1 == c0 + 1 {
                assert(ks[c0] >= below && ks[c0] < bound);
                assert(ks.contains(ks[c0]));
            }
            assert(c1 == c0);
        }
    }
}

/// A sequence of keys that ascends and holds just the keys of `dom` is the
/// sequence of the keys of `dom` in ascending order.
pub proof fn lemma_ascending_keys_are_unique(ks: Seq<u32>, dom: Set<u32>)
    requires
        strictly_ascending(ks),
        forall|k: u32| dom.contains(k) <==> ks.contains(k),
    ensures
        ks == ascending_keys(dom),
{
    lemma_keys_below(ks, dom, 0x1_0000_0000);
    assert(count_below(ks, 0x1_0000_0000) == ks.len());
    assert(ks.take(ks.len() as int) =~= ks);
}

/// The keys below a bound ascend, and they are the keys of `dom` below the
/// bound.
pub proof fn lemma_keys_below_ascend(dom: Set<u32>, bound: nat)
    requires
        bound <= 0x1_0000_0000,
    ensures
        strictly_ascending(keys_below(dom, bound)),
        forall|k: u32|
            #![trigger keys_below(dom, bound).contains(k)]
            #![trigger dom.contains(k)]
            keys_below(dom, bound).contains(k) <==> dom.contains(k) && k < bound,
    decreases bound,
{
    if bound > 0 {
        let below = (bound - 1) as nat;
        let top = below as u32;
        lemma_keys_below_ascend(dom, below);
        let init = keys_below(dom, below);
        let all = keys_below(dom, bound);
        if dom.contains(top) {
            assert(all == init.push(top));
            assert forall|i: int, j: int| 0 <= i < j < all.len() implies all[i] < all[j] by {
                assert(all[i] == init[i]);
                if j < init.len() {
                    assert(init[i] < init[j]);
                } else {
                    assert(init.contains(init[i]));
                    assert(init[i] < below);
                    assert(j == init.len());
                    assert(all[j] == top);
                    assert(top == below);
                }
            }
            assert forall|k: u32| all.contains(k) <==> dom.contains(k) && k < bound by {
                if all.contains(k) {
                    let i = choose|i: int| 0 <= i < all.len() && all[i] == k;
                    if i < init.len() {
                        assert(init.contains(k));
                    }
                }
                if dom.contains(k) && k < bound {
                    if k == top {
                        assert(all[init.len() as int] == k);
                    } else {
                        assert(init.contains(k));
                        let i = choose|i: int| 0 <= i < init.len() && init[i] == k;
                        assert(all[i] == k);
                    }
                }
            }
        }
    }
}

/// The values of a map, in ascending order of their keys.
pub fn values_in_order<T>(m: &BTreeMap<u32, T>) -> (r: Vec<&T>)
    ensures
        r@.len() == ascending_values(m@).len(),
        forall|i: int| 0 <= i < r@.len() ==> *(#[trigger] r@[i]) == ascending_values(m@)[i],
{
    let mut out: Vec<&T> = Vec::new();
    let values = m.values();
    let ghost expected = ascending_values(m@);
    proof {
        let ks = choose|ks: Seq<u32>|
            {
                &&& increasing_seq(ks)
                &&& ks.to_set() == m@.dom()
                &&& ks.no_duplicates()
                &&& IteratorSpec::remaining(&values) == ks.map(|i: int, k: u32| &m@[k])
            };
        broadcast use vstd::laws_cmp::group_laws_cmp;
        axiom_increasing_seq_meaning::<u32>(ks);
        assert forall|i: int, j: int| 0 <= i < j < ks.len() implies ks[i] < ks[j] by {
            assert(ks[i].cmp_spec(&ks[j]) is Less);
        }
        assert forall|k: u32| m@.dom().contains(k) <==> ks.contains(k) by {
            assert(ks.to_set().contains(k) <==> ks.contains(k));
        }
        lemma_ascending_keys_are_unique(ks, m@.dom());
        assert(values.remaining().len() == expected.len());
        assert forall|i: int| 0 <= i < expected.len() implies *(#[trigger] values.remaining()[i])
            == expected[i] by {
            assert(values.remaining()[i] == &m@[ks[i]]);
        }
    }
    for v in it: values
        invariant
            expected == ascending_values(m@),
            it.seq().len() == expected.len(),
            forall|i: int| 0 <= i < expected.len() ==> *(#[trigger] it.seq()[i]) == expected[i],
            out@.len() == it.index(),
            forall|i: int| 0 <= i < out@.len() ==> *(#[trigger] out@[i]) == expected[i],
    {
        out.push(v);
    }
    out
}

/// The keys of a map with their values, in ascending order of the keys.
pub fn entries_in_order<T>(m: &BTreeMap<u32, T>) -> (r: Vec<(u32, &T)>)
    ensures
        r@.len() == ascending_keys(m@.dom()).len(),
        forall|i: int|
            0 <= i < r@.len() ==> {
                &&& (#[trigger] r@[i]).0 == ascending_keys(m@.dom())[i]
                &&& m@.contains_key(r@[i].0)
                &&& *r@[i].1 == m@[r@[i].0]
            },
{
    let mut out: Vec<(u32, &T)> = Vec::new();
    let entries = m.iter();
    let ghost keys = ascending_keys(m@.dom());
    proof {
        let pairs = entries.remaining();
        let ks = pairs.map_values(|kv: (&u32, &T)| *kv.0);
        broadcast use vstd::laws_cmp::group_laws_cmp;
        axiom_increasing_seq_meaning::<u32>(ks);
        assert forall|i: int, j: int| 0 <= i < j < ks.len() implies ks[i] < ks[j] by {
            assert(ks[i].cmp_spec(&ks[j]) is Less);
        }
        assert forall|k: u32| m@.dom().contains(k) <==> ks.contains(k) by {
            if m@.dom().contains(k) {
                assert(m@.contains_key(k));
                assert(pairs.contains((&k, &m@[k])));
                let i = choose|i: int| 0 <= i < pairs.len() && pairs[i] == (&k, &m@[k]);
                assert(ks[i] == k);
            }
            if ks.contains(k) {
                let i = choose|i: int| 0 <= i < ks.len() && ks[i] == k;
                assert(m@.contains_key(*pairs[i].0));
            }
        }
        lemma_ascending_keys_are_unique(ks, m@.dom());
        assert forall|i: int| 0 <= i < pairs.len() implies {
            &&& *(#[trigger] pairs[i]).0 == keys[i]
            &&& m@.contains_key(*pairs[i].0)
            &&& *pairs[i].1 == m@[*pairs[i].0]
        } by {
            assert(ks[i] == *pairs[i].0);
            assert(m@.contains_key(*pairs[i].0));
        }
    }
    for kv in it: entries
        invariant
            keys == ascending_keys(m@.dom()),
            it.seq().len() == keys.len(),
            forall|i: int|
                0 <= i < it.seq().len() ==> {
                    &&& *(#[trigger] it.seq()[i]).0 == keys[i]
                    &&& m@.contains_key(*it.seq()[i].0)
                    &&& *it.seq()[i].1 == m@[*it.seq()[i].0]
                },
            out@.len() == it.index(),
            forall|i: int|
                0 <= i < out@.len() ==> {
                    &&& (#[trigger] out@[i]).0 == keys[i]
                    &&& m@.contains_key(out@[i].0)
                    &&& *out@[i].1 == m@[out@[i].0]
                },
    {
        out.push((*kv.0, kv.1));
    }
    out
}

/// The map that gives the key at each place of `keys` the item at the same
/// place of `items`.
pub open spec fn keyed<T>(keys: Seq<u32>, items: Seq<T>) -> Map<u32, T> {
    Map::new(|key: u32| keys.contains(key), |key: u32| items[keys.index_of(key)])
}

/// Keys the items by the keys of `tables`: the first item goes to the smallest
/// key, and so on.
pub(crate) fn key_items<T, V>(tables: &BTreeMap<u32, V>, items: Vec<T>) -> (r: BTreeMap<
    u32,
    T,
>)
    requires
        items@.len() == ascending_keys(tables@.dom()).len(),
    ensures
        r@ == keyed(ascending_keys(tables@.dom()), items@),
{
    let entries = entries_in_order(tables);
    let ghost keys = ascending_keys(tables@.dom());
    let ghost all = items@;
    let mut items = items;
    let mut out: BTreeMap<u32, T> = BTreeMap::new();
    let mut i: usize = entries.len();
    proof {
        lemma_keys_below_ascend(tables@.dom(), 0x1_0000_0000);
    }
    while i > 0
        invariant
            i <= entries@.len(),
            keys == ascending_keys(tables@.dom()),
            strictly_ascending(keys),
            entries@.len() == keys.len(),
            all.len() == keys.len(),
            forall|p: int| 0 <= p < entries@.len() ==> (#[trigger] entries@[p]).0 == keys[p],
            items@ == all.take(i as int),
            forall|key: u32|
                #![trigger out@.contains_key(key)]
                out@.contains_key(key) <==> exists|p: int| i <= p < keys.len() && keys[p] == key,
            forall|p: int| i <= p < keys.len() ==> out@[#[trigger] keys[p]] == all[p],
        decreases i,
    {
        i = i - 1;
        let key = entries[i].0;
        let ghost before = out@;
        let item = items.pop().unwrap();
        out.insert(key, item);
        proof {
            assert(out@ =~= before.insert(key, item));
            assert(items@ =~= all.take(i as int));
            assert(item == all[i as int]);
            assert forall|other: u32|
                #![trigger out@.contains_key(other)]
                out@.contains_key(other) <==> exists|p: int|
                    i <= p < keys.len() && keys[p] == other by {
                if other == key {
                    assert(keys[i as int] == other);
                }
                if before.contains_key(other) {
                    let p = choose|p: int| i + 1 <= p < keys.len() && keys[p] == other;
                    assert(i <= p < keys.len() && keys[p] == other);
                }
            }
            assert forall|p: int| i <= p < keys.len() implies out@[#[trigger] keys[p]]
                == all[p] by {
                if p > i {
                    assert(keys[i as int] < keys[p]);
                    assert(before[keys[p]] == all[p]);
                }
            }
        }
    }
    proof {
        let expected = keyed(keys, all);
        assert forall|key: u32| out@.contains_key(key) <==> expected.contains_key(key) by {
            if out@.contains_key(key) {
                let p = choose|p: int| 0 <= p < keys.len() && keys[p] == key;
                assert(keys[p] == key);
            }
            if keys.contains(key) {
                let p = choose|p: int| 0 <= p < keys.len() && keys[p] == key;
                assert(0 <= p < keys.len() && keys[p] == key);
            }
        }
        assert forall|key: u32| out@.contains_key(key) implies out@[key] == expected[key] by {
            let p = keys.index_of(key);
            assert(keys.contains(key));
            assert(0 <= p < keys.len() && keys[p] == key);
            assert(out@[keys[p]] == all[p]);
        }
        assert(out@ =~= expected);
    }
    out
}

} // verus!
