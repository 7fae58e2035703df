//! The tables that this crate knows by name.
use crate::field::{fadd, fsub, Fe};
use crate::laws::lemma_mirrored_table_is_looked_up_as_declared;
use crate::mvlookup::{LookupTableID, MVLookup, MVLookupWitness};
use crate::DOMAIN_SIZE;
use vstd::prelude::*;

verus! {

/// The tables that a circuit can look into.
///
/// The encodings ascend in the order of the variants, so the parts of a proof
/// are ordered as the variants are.
#[derive(Clone, Copy, Debug, PartialEq, Eq, PartialOrd, Ord, Hash, Structural)]
pub enum LookupTableIDs {
    /// The fixed table of all values of two bits.
    RangeCheck2,
    /// The fixed table of all values of sixteen bits.
    RangeCheck16,
    /// The memory: a table that is filled while the circuit runs, with one row
    /// for each row of the default domain.
    Memory,
}

impl LookupTableID for LookupTableIDs {
    open spec fn encoding(&self) -> u32 {
        match self {
            LookupTableIDs::RangeCheck2 => 1,
            LookupTableIDs::RangeCheck16 => 2,
            LookupTableIDs::Memory => 3,
        }
    }

    open spec fn fixed(&self) -> bool {
        match self {
            LookupTableIDs::RangeCheck2 => true,
            LookupTableIDs::RangeCheck16 => true,
            LookupTableIDs::Memory => false,
        }
    }

    open spec fn rows(&self) -> usize {
        match self {
            LookupTableIDs::RangeCheck2 => 4,
            LookupTableIDs::RangeCheck16 => 65536,
            LookupTableIDs::Memory => DOMAIN_SIZE,
        }
    }

    open spec fn is_encoding(value: u32) -> bool {
        1 <= value <= 3
    }

    fn to_u32(&self) -> (r: u32) {
        match self {
            LookupTableIDs::RangeCheck2 => 1,
            LookupTableIDs::RangeCheck16 => 2,
            LookupTableIDs::Memory => 3,
        }
    }

    fn from_u32(value: u32) -> (r: Option<Self>) {
        if value == 1 {
            Some(LookupTableIDs::RangeCheck2)
        } else if value == 2 {
            Some(LookupTableIDs::RangeCheck16)
        } else if value == 3 {
            Some(LookupTableIDs::Memory)
        } else {
            None
        }
    }

    fn is_fixed(&self) -> (r: bool) {
        match self {
            LookupTableIDs::RangeCheck2 => true,
            LookupTableIDs::RangeCheck16 => true,
            LookupTableIDs::Memory => false,
        }
    }

    fn length(&self) -> (r: usize) {
        match self {
            LookupTableIDs::RangeCheck2 => 4,
            LookupTableIDs::RangeCheck16 => 65536,
            LookupTableIDs::Memory => DOMAIN_SIZE,
        }
    }

    proof fn encoding_is_injective(a: Self, b: Self) {
    }

    proof fn encoding_is_valid(a: Self) {
    }
}

/// The witness of a lookup argument into one of the tables of this crate.
pub type LookupWitness = MVLookupWitness<Fe, LookupTableIDs>;

impl MVLookupWitness<Fe, LookupTableIDs> {
    /// A witness drawn at random over `domain_size` rows, for the table of the
    /// values of sixteen bits: each row looks one value up, drawn at random,
    /// and the last column holds the same value as the row of the table, with
    /// the multiplicity one.
    ///
    /// The witness follows the convention for its table, and every value is
    /// looked up as often as the table declares, so its running sum returns to
    /// zero.
    pub fn random(domain_size: usize) -> (r: Self)
        ensures
            r.f@.len() == 2,
            domain_size > 0 ==> r.shaped(domain_size as nat),
            r.conventional(domain_size as nat),
            r.looked_up_as_declared(domain_size as nat),
            r.holds_one_table(domain_size as nat),
    {
        let id = LookupTableIDs::RangeCheck16;
        let minus_one = Fe::zero().sub(&Fe::one());
        let mut lookups: Vec<MVLookup<Fe, LookupTableIDs>> = Vec::new();
        let mut table: Vec<MVLookup<Fe, LookupTableIDs>> = Vec::new();
        let mut m: Vec<Fe> = Vec::new();
        let mut j: usize = 0;
        while j < domain_size
            invariant
                j <= domain_size,
                id == LookupTableIDs::RangeCheck16,
                minus_one@ == fsub(0, 1),
                lookups@.len() == j,
                table@.len() == j,
                m@.len() == j,
                forall|jj: int|
                    0 <= jj < j ==> {
                        &&& (#[trigger] lookups@[jj]).numerator@ == 1
                        &&& lookups@[jj].table_id == table@[jj].table_id
                        &&& lookups@[jj].value@ == table@[jj].value@
                    },
                forall|jj: int|
                    0 <= jj < j ==> {
                        &&& (#[trigger] table@[jj]).numerator@ == fsub(0, 1)
                        &&& table@[jj].table_id == LookupTableIDs::RangeCheck16
                    },
                forall|jj: int| 0 <= jj < j ==> (#[trigger] m@[jj])@ == 1,
            decreases domain_size - j,
        {
            let drawn = Fe::random().to_limbs();
            let value = Fe::from_u64(drawn[0] & 0xffff);
            let mut looked_up: Vec<Fe> = Vec::new();
            looked_up.push(value);
            let mut held: Vec<Fe> = Vec::new();
            held.push(value);
            assert(looked_up@ =~= held@);
            lookups.push(MVLookup::new(id, Fe::one(), looked_up));
            table.push(MVLookup::new(id, minus_one, held));
            m.push(Fe::one());
            j = j + 1;
        }
        let mut f: Vec<Vec<MVLookup<Fe, LookupTableIDs>>> = Vec::new();
        f.push(lookups);
        f.push(table);
        let witness = MVLookupWitness { f, m };
        proof {
            let d = domain_size as nat;
            assert(fadd(fsub(0, 1), 1) == 0);
            assert forall|jj: int| 0 <= jj < d implies {
                &&& (#[trigger] witness.entry(0, jj)).table == witness.entry(1, jj).table
                &&& witness.entry(0, jj).value == witness.entry(1, jj).value
                &&& witness.m@[jj]@ == 1
            } by {
                assert(witness.term(0, jj) == lookups@[jj]);
                assert(witness.term(1, jj) == table@[jj]);
            }
            assert forall|i: int, jj: int| 0 <= i < 1 && 0 <= jj < d implies (
            #[trigger] witness.term(i, jj)).numerator@ == 1 by {
                assert(witness.term(0, jj) == lookups@[jj]);
            }
            assert forall|jj: int| 0 <= jj < d implies fadd(
                (#[trigger] witness.term(1, jj)).numerator@,
                witness.m@[jj]@,
            ) == 0 by {
                assert(witness.term(1, jj) == table@[jj]);
            }
            assert forall|jj: int| 0 <= jj < d implies (#[trigger] witness.term(1, jj)).table_id
                == witness.term(1, 0).table_id by {
                assert(witness.term(1, jj) == table@[jj]);
                assert(witness.term(1, 0) == table@[0]);
            }
            lemma_mirrored_table_is_looked_up_as_declared(witness, d);
        }
        witness
    }
}

} // verus!
