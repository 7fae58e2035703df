//! What the prover derives for each fixed table: its multiplicities, and the
//! combined values of its rows.
use crate::error::LookupError;
use crate::field::{copy_elements, values, Fe};
use crate::mvlookup::sums::{all_shaped, check_shapes};
use crate::mvlookup::{LookupTableID, MVLookupWitness};
use crate::order::{ascending_keys, entries_in_order, lemma_keys_below_ascend};
use crate::poly::map_values_of;
use std::collections::BTreeMap;
use vstd::prelude::*;

verus! {

/// The multiplicities of each fixed table: those of the witness whose first
/// term looks into the table, and of the last such witness where there are
/// several.
pub open spec fn counters<ID: LookupTableID>(lookups: Seq<MVLookupWitness<Fe, ID>>) -> Map<
    u32,
    Seq<nat>,
>
    decreases lookups.len(),
{
    if lookups.len() == 0 {
        Map::empty()
    } else {
        let rest = counters(lookups.drop_last());
        let witness = lookups.last();
        let id = witness.term(0, 0).table_id;
        if id.fixed() {
            rest.insert(id.encoding(), values(witness.m@))
        } else {
            rest
        }
    }
}

/// Collects the multiplicities of each fixed table, keyed by the table's
/// encoding.
///
/// Witnesses that do not have the shape that `domain_size` rows ask for are
/// refused with `IndexError`.
pub fn lookup_counters<ID: LookupTableID>(
    lookups: &Vec<MVLookupWitness<Fe, ID>>,
    domain_size: usize,
) -> (r: Result<BTreeMap<u32, Vec<Fe>>, LookupError>)
    ensures
        r is Ok <==> all_shaped(lookups@, domain_size as nat),
        r matches Err(e) ==> e == LookupError::IndexError,
        r matches Ok(tables) ==> map_values_of(tables@) == counters(lookups@),
{
    if !check_shapes(lookups, domain_size) {
        return Err(LookupError::IndexError);
    }
    let mut tables: BTreeMap<u32, Vec<Fe>> = BTreeMap::new();
    let mut k: usize = 0;
    proof {
        assert(lookups@.take(0) =~= Seq::<MVLookupWitness<Fe, ID>>::empty());
        assert(map_values_of(tables@) =~= counters(lookups@.take(0)));
    }
    while k < lookups.len()
        invariant
            k <= lookups@.len(),
            all_shaped(lookups@, domain_size as nat),
            map_values_of(tables@) == counters(lookups@.take(k as int)),
        decreases lookups@.len() - k,
    {
        let witness = &lookups[k];
        assert(witness.shaped(domain_size as nat));
        let id = witness.f[0][0].table_id;
        let ghost before = tables@;
        proof {
            let head = lookups@.take(k + 1);
            assert(head.drop_last() =~= lookups@.take(k as int));
            assert(head.last() == lookups@[k as int]);
        }
        if id.is_fixed() {
            let key = id.to_u32();
            let multiplicities = copy_elements(&witness.m);
            tables.insert(key, multiplicities);
            proof {
                assert(tables@ == before.insert(key, multiplicities));
                assert(map_values_of(tables@) =~= map_values_of(before).insert(
                    key,
                    values(witness.m@),
                ));
            }
        }
        k = k + 1;
    }
    assert(lookups@.take(lookups@.len() as int) =~= lookups@);
    Ok(tables)
}

impl<ID: LookupTableID> MVLookupWitness<Fe, ID> {
    /// Whether the terms of the last column look into the same table in each
    /// of the `domain_size` rows.
    pub open spec fn holds_one_table(&self, domain_size: nat) -> bool {
        forall|j: int|
            0 <= j < domain_size ==> (#[trigger] self.term(self.f@.len() - 1, j)).table_id
                == self.term(self.f@.len() - 1, 0).table_id
    }

    /// The combined values that the witness gives for the fixed table with the
    /// encoding `key`: those of the terms of the last column, in the first
    /// `rows` rows, that belong to this table.
    pub open spec fn fixed_table_entries(&self, key: u32, rows: int, r: nat) -> Seq<nat>
        decreases rows,
    {
        if rows <= 0 {
            Seq::empty()
        } else {
            let rest = self.fixed_table_entries(key, rows - 1, r);
            let term = self.term(self.f@.len() - 1, rows - 1);
            if term.table_id.fixed() && term.table_id.encoding() == key {
                rest.push(term.combined(r))
            } else {
                rest
            }
        }
    }
}

/// The combined values that the witnesses give for the fixed table with the
/// encoding `key`, witness after witness.
pub open spec fn fixed_entries<ID: LookupTableID>(
    lookups: Seq<MVLookupWitness<Fe, ID>>,
    key: u32,
    domain_size: nat,
    r: nat,
) -> Seq<nat>
    decreases lookups.len(),
{
    if lookups.len() == 0 {
        Seq::empty()
    } else {
        fixed_entries(lookups.drop_last(), key, domain_size, r)
            + lookups.last().fixed_table_entries(key, domain_size as int, r)
    }
}

/// The combined values of each fixed table that the witnesses give values for.
pub open spec fn fixed_tables<ID: LookupTableID>(
    lookups: Seq<MVLookupWitness<Fe, ID>>,
    domain_size: nat,
    r: nat,
) -> Map<u32, Seq<nat>> {
    Map::new(
        |key: u32| fixed_entries(lookups, key, domain_size, r).len() > 0,
        |key: u32| fixed_entries(lookups, key, domain_size, r),
    )
}

/// Whether each fixed table that the witnesses give values for gets one value
/// for each row.
pub open spec fn fixed_tables_complete<ID: LookupTableID>(
    lookups: Seq<MVLookupWitness<Fe, ID>>,
    domain_size: nat,
    r: nat,
) -> bool {
    forall|key: u32|
        (#[trigger] fixed_entries(lookups, key, domain_size, r)).len() == 0 || fixed_entries(
            lookups,
            key,
            domain_size,
            r,
        ).len() == domain_size
}

proof fn lemma_entries_of_one_table<ID: LookupTableID>(
    w: MVLookupWitness<Fe, ID>,
    domain_size: nat,
    key: u32,
    rows: int,
    r: nat,
)
    requires
        w.holds_one_table(domain_size),
        0 <= rows <= domain_size,
    ensures
        w.fixed_table_entries(key, rows, r).len() == if w.term(
            w.f@.len() - 1,
            0,
        ).table_id.fixed() && w.term(w.f@.len() - 1, 0).table_id.encoding() == key {
            rows
        } else {
            0
        },
    decreases rows,
{
    if rows > 0 {
        lemma_entries_of_one_table(w, domain_size, key, rows - 1, r);
        assert(w.term(w.f@.len() - 1, rows - 1).table_id == w.term(w.f@.len() - 1, 0).table_id);
    }
}

/// One witness whose last column stays with one table gives this table one
/// value for each row, if the table is fixed, and no table a value otherwise.
pub proof fn lemma_one_table_is_complete<ID: LookupTableID>(
    w: MVLookupWitness<Fe, ID>,
    domain_size: nat,
    r: nat,
)
    requires
        w.holds_one_table(domain_size),
    ensures
        fixed_tables_complete(seq![w], domain_size, r),
{
    let lookups = seq![w];
    assert(lookups.drop_last() =~= Seq::<MVLookupWitness<Fe, ID>>::empty());
    assert(lookups.last() == w);
    assert forall|key: u32|
        (#[trigger] fixed_entries(lookups, key, domain_size, r)).len() == 0 || fixed_entries(
            lookups,
            key,
            domain_size,
            r,
        ).len() == domain_size by {
        reveal_with_fuel(fixed_entries, 2);
        lemma_entries_of_one_table(w, domain_size, key, domain_size as int, r);
        assert(fixed_entries(lookups, key, domain_size, r) =~= w.fixed_table_entries(
            key,
            domain_size as int,
            r,
        ));
    }
}

spec fn collected<ID: LookupTableID>(
    lookups: Seq<MVLookupWitness<Fe, ID>>,
    k: int,
    rows: int,
    key: u32,
    domain_size: nat,
    r: nat,
) -> Seq<nat> {
    fixed_entries(lookups.take(k), key, domain_size, r) + lookups[k].fixed_table_entries(
        key,
        rows,
        r,
    )
}

spec fn holds_collected<ID: LookupTableID>(
    tables: Map<u32, Vec<Fe>>,
    lookups: Seq<MVLookupWitness<Fe, ID>>,
    k: int,
    rows: int,
    domain_size: nat,
    r: nat,
) -> bool {
    forall|key: u32|
        {
            let entries = #[trigger] collected(lookups, k, rows, key, domain_size, r);
            &&& tables.contains_key(key) <==> entries.len() > 0
            &&& tables.contains_key(key) ==> values(tables[key]@) == entries
        }
}

/// Collects the combined values of each fixed table, keyed by the table's
/// encoding: for each witness and each row, the combined value of the term of
/// the last column, where that term looks into a fixed table.
///
/// The result is `IndexError` where a witness does not have the shape that
/// `domain_size` rows ask for, or where a table gets values, but not one for
/// each row.
pub fn fixed_lookup_tables<ID: LookupTableID>(
    lookups: &Vec<MVLookupWitness<Fe, ID>>,
    domain_size: usize,
    joint_combiner: &Fe,
) -> (r: Result<BTreeMap<u32, Vec<Fe>>, LookupError>)
    ensures
        r is Ok <==> all_shaped(lookups@, domain_size as nat) && fixed_tables_complete(
            lookups@,
            domain_size as nat,
            joint_combiner@,
        ),
        r matches Err(e) ==> e == LookupError::IndexError,
        r matches Ok(tables) ==> map_values_of(tables@) == fixed_tables(
            lookups@,
            domain_size as nat,
            joint_combiner@,
        ),
{
    if !check_shapes(lookups, domain_size) {
        return Err(LookupError::IndexError);
    }
    let ghost d = domain_size as nat;
    let ghost rr = joint_combiner@;
    let mut tables: BTreeMap<u32, Vec<Fe>> = BTreeMap::new();
    let mut k: usize = 0;
    while k < lookups.len()
        invariant
            k <= lookups@.len(),
            d == domain_size,
            rr == joint_combiner@,
            all_shaped(lookups@, d),
            forall|key: u32|
                {
                    let entries = #[trigger] fixed_entries(lookups@.take(k as int), key, d, rr);
                    &&& tables@.contains_key(key) <==> entries.len() > 0
                    &&& tables@.contains_key(key) ==> values(tables@[key]@) == entries
                },
        decreases lookups@.len() - k,
    {
        let witness = &lookups[k];
        assert(witness.shaped(d));
        let last = witness.f.len() - 1;
        let mut j: usize = 0;
        proof {
            assert forall|key: u32|
                {
                    let entries = #[trigger] collected(lookups@, k as int, 0, key, d, rr);
                    &&& tables@.contains_key(key) <==> entries.len() > 0
                    &&& tables@.contains_key(key) ==> values(tables@[key]@) == entries
                } by {
                let before = fixed_entries(lookups@.take(k as int), key, d, rr);
                assert(collected(lookups@, k as int, 0, key, d, rr) =~= before);
            }
        }
        while j < domain_size
            invariant
                j <= domain_size,
                k < lookups@.len(),
                d == domain_size,
                rr == joint_combiner@,
                all_shaped(lookups@, d),
                witness == lookups@[k as int],
                last == witness.f@.len() - 1,
                holds_collected(tables@, lookups@, k as int, j as int, d, rr),
            decreases domain_size - j,
        {
            assert(witness.shaped(d));
            let term = &witness.f[last][j];
            if term.table_id.is_fixed() {
                let key = term.table_id.to_u32();
                let combined = term.combine(joint_combiner);
                let ghost before = tables@;
                let mut entries = match tables.remove(&key) {
                    Some(entries) => entries,
                    None => Vec::new(),
                };
                proof {
                    assert(values(entries@) =~= collected(
                        lookups@,
                        k as int,
                        j as int,
                        key,
                        d,
                        rr,
                    ));
                }
                entries.push(combined);
                tables.insert(key, entries);
                proof {
                    assert(tables@ =~= before.insert(key, entries));
                    assert forall|other: u32|
                        {
                            let all = #[trigger] collected(
                                lookups@,
                                k as int,
                                j + 1,
                                other,
                                d,
                                rr,
                            );
                            &&& tables@.contains_key(other) <==> all.len() > 0
                            &&& tables@.contains_key(other) ==> values(tables@[other]@) == all
                        } by {
                        let was = collected(lookups@, k as int, j as int, other, d, rr);
                        let all = collected(lookups@, k as int, j + 1, other, d, rr);
                        if other == key {
                            assert(all =~= was.push(combined@));
                            assert(values(entries@) =~= all);
                        } else {
                            assert(all =~= was);
                        }
                    }
                }
            } else {
                proof {
                    assert forall|other: u32|
                        {
                            let all = #[trigger] collected(
                                lookups@,
                                k as int,
                                j + 1,
                                other,
                                d,
                                rr,
                            );
                            &&& tables@.contains_key(other) <==> all.len() > 0
                            &&& tables@.contains_key(other) ==> values(tables@[other]@) == all
                        } by {
                        let was = collected(lookups@, k as int, j as int, other, d, rr);
                        assert(collected(lookups@, k as int, j + 1, other, d, rr) =~= was);
                    }
                }
            }
            j = j + 1;
        }
        proof {
            let head = lookups@.take(k + 1);
            assert(head.drop_last() =~= lookups@.take(k as int));
            assert(head.last() == lookups@[k as int]);
            assert forall|key: u32|
                {
                    let entries = #[trigger] fixed_entries(head, key, d, rr);
                    &&& tables@.contains_key(key) <==> entries.len() > 0
                    &&& tables@.contains_key(key) ==> values(tables@[key]@) == entries
                } by {
                assert(fixed_entries(head, key, d, rr) == collected(
                    lookups@,
                    k as int,
                    d as int,
                    key,
                    d,
                    rr,
                ));
            }
        }
        k = k + 1;
    }
    assert(lookups@.take(lookups@.len() as int) =~= lookups@);
    let entries = entries_in_order(&tables);
    let mut i: usize = 0;
    while i < entries.len()
        invariant
            i <= entries@.len(),
            entries@.len() == ascending_keys(tables@.dom()).len(),
            forall|p: int|
                0 <= p < entries@.len() ==> {
                    &&& (#[trigger] entries@[p]).0 == ascending_keys(tables@.dom())[p]
                    &&& tables@.contains_key(entries@[p].0)
                    &&& *entries@[p].1 == tables@[entries@[p].0]
                },
            forall|p: int| 0 <= p < i ==> (#[trigger] entries@[p]).1@.len() == domain_size,
            d == domain_size,
            rr == joint_combiner@,
            forall|key: u32|
                {
                    let all = #[trigger] fixed_entries(lookups@, key, d, rr);
                    &&& tables@.contains_key(key) <==> all.len() > 0
                    &&& tables@.contains_key(key) ==> values(tables@[key]@) == all
                },
        decreases entries@.len() - i,
    {
        if entries[i].1.len() != domain_size {
            proof {
                let key = entries@[i as int].0;
                assert(values(tables@[key]@) == fixed_entries(lookups@, key, d, rr));
            }
            return Err(LookupError::IndexError);
        }
        i = i + 1;
    }
    proof {
        lemma_keys_below_ascend(tables@.dom(), 0x1_0000_0000);
        assert forall|key: u32|
            (#[trigger] fixed_entries(lookups@, key, d, rr)).len() == 0 || fixed_entries(
                lookups@,
                key,
                d,
                rr,
            ).len() == d by {
            if fixed_entries(lookups@, key, d, rr).len() > 0 {
                assert(tables@.contains_key(key));
                assert(ascending_keys(tables@.dom()).contains(key));
                let p = choose|p: int|
                    0 <= p < entries@.len() && ascending_keys(tables@.dom())[p] == key;
                assert(entries@[p].1@.len() == domain_size);
                assert(values(tables@[key]@) == fixed_entries(lookups@, key, d, rr));
            }
        }
        assert(map_values_of(tables@) =~= fixed_tables(lookups@, d, rr));
    }
    Ok(tables)
}

} // verus!
