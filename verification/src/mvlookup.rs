//! The data of the lookup argument: table identities, lookup terms, tables,
//! witnesses, and the container of a proof's lookup section.
use crate::algebra::{
    combined_value, denominator, fraction, horner, lemma_horner_is_weighted_sum,
};
use crate::expr::Expr;
use crate::field::{
    fadd, lemma_fadd_residue, lemma_fmul_residue, lemma_residue_of_reduced, residue, values, Fe,
};
use crate::order::{
    ascending_keys, ascending_values, lemma_keys_below_ascend, strictly_ascending,
    values_in_order,
};
use crate::CHUNK_SIZE;
use std::collections::BTreeMap;
use vstd::prelude::*;

pub mod constraints;
pub mod prover;
pub mod sums;
pub mod tables;

pub use constraints::{combine_lookups, constraint_lookups};

verus! {

/// What identifies a lookup table.
///
/// The integer encoding is what the argument works with: it is added to the
/// combined value of a lookup, and the parts of a proof are ordered by it. So an
/// implementation must encode different tables differently.
pub trait LookupTableID: Copy {
    /// The integer that stands for the table.
    spec fn encoding(&self) -> u32;

    /// Whether the table's contents are fixed when the circuit is laid out.
    spec fn fixed(&self) -> bool;

    /// The number of rows of the table.
    spec fn rows(&self) -> usize;

    /// Whether an integer stands for a table.
    spec fn is_encoding(value: u32) -> bool;

    /// The integer that stands for the table.
    fn to_u32(&self) -> (r: u32)
        ensures
            r == self.encoding(),
    ;

    /// The table that an integer stands for, if it stands for one.
    fn from_u32(value: u32) -> (r: Option<Self>)
        ensures
            r is Some <==> Self::is_encoding(value),
            r matches Some(id) ==> id.encoding() == value,
    ;

    /// Whether the table's contents are fixed when the circuit is laid out.
    fn is_fixed(&self) -> (r: bool)
        ensures
            r == self.fixed(),
    ;

    /// The number of rows of the table.
    fn length(&self) -> (r: usize)
        ensures
            r == self.rows(),
    ;

    /// The table's integer encoding as an element of the field.
    fn to_field(&self) -> (r: Fe)
        ensures
            r@ == self.encoding(),
    {
        Fe::from_u32(self.to_u32())
    }

    /// The table's integer encoding as a constant expression.
    fn to_constraint(&self) -> (r: Expr)
        ensures
            r matches Expr::Literal(x) && x@ == self.encoding(),
    {
        Expr::Literal(self.to_field())
    }

    /// Two tables with the same encoding are the same table.
    proof fn encoding_is_injective(a: Self, b: Self)
        requires
            a.encoding() == b.encoding(),
        ensures
            a == b,
    ;

    /// The encoding of a table stands for a table.
    proof fn encoding_is_valid(a: Self)
        ensures
            Self::is_encoding(a.encoding()),
    ;
}

/// One fraction of the sum that the argument checks: a lookup of the vector
/// `value` in the table `table_id`, counted `numerator` times.
#[derive(Debug, Clone)]
pub struct MVLookup<F, ID: LookupTableID> {
    /// The table that is looked into.
    pub table_id: ID,
    /// The numerator of the fraction.
    pub numerator: F,
    /// The components of the value that is looked up.
    pub value: Vec<F>,
}

impl<F: Clone, ID: LookupTableID> MVLookup<F, ID> {
    /// A lookup of `value` in the table `table_id`, counted `numerator` times.
    pub fn new(table_id: ID, numerator: F, value: Vec<F>) -> (r: Self)
        ensures
            r.table_id == table_id,
            r.numerator == numerator,
            r.value == value,
    {
        MVLookup { table_id, numerator, value }
    }
}

impl<ID: LookupTableID> MVLookup<Fe, ID> {
    /// The single field value that stands for the lookup, under the combiner
    /// `r`.
    pub open spec fn combined(&self, r: nat) -> nat {
        combined_value(self.table_id.encoding() as nat, values(self.value@), r)
    }

    /// The denominator of the lookup's fraction.
    pub open spec fn denominator(&self, r: nat, beta: nat) -> nat {
        denominator(beta, self.table_id.encoding() as nat, values(self.value@), r)
    }

    /// The value of the lookup's fraction.
    pub open spec fn fraction(&self, r: nat, beta: nat) -> nat {
        fraction(self.numerator@, self.denominator(r, beta))
    }

    /// Combines the components of the looked-up value with the powers of the
    /// joint combiner, and adds the table's encoding.
    pub fn combine(&self, joint_combiner: &Fe) -> (c: Fe)
        ensures
            c@ == self.combined(joint_combiner@),
    {
        let ghost v = values(self.value@);
        let ghost r = joint_combiner@;
        let mut acc = Fe::zero();
        let mut i: usize = self.value.len();
        proof {
            lemma_residue_of_reduced(0);
        }
        while i > 0
            invariant
                i <= self.value.len(),
                v == values(self.value@),
                r == joint_combiner@,
                acc@ == residue(horner(v, r, i as int)),
            decreases i,
        {
            i = i - 1;
            let scaled = acc.mul(joint_combiner);
            let y = self.value[i];
            y.bounded();
            joint_combiner.bounded();
            proof {
                let rest = horner(v, r, i + 1);
                lemma_residue_of_reduced(r);
                lemma_fmul_residue(rest, r as int);
                lemma_residue_of_reduced(y@);
                lemma_fadd_residue(rest * r, y@ as int);
                assert(rest * r == r * rest) by (nonlinear_arith);
            }
            acc = scaled.add(&y);
        }
        let id = self.table_id.to_field();
        let weighted = acc.mul(joint_combiner);
        joint_combiner.bounded();
        id.bounded();
        proof {
            let whole = horner(v, r, 0);
            lemma_residue_of_reduced(r);
            lemma_fmul_residue(whole, r as int);
            assert(whole * r == r * whole) by (nonlinear_arith);
            lemma_horner_is_weighted_sum(v, r);
            lemma_residue_of_reduced(id@);
            lemma_fadd_residue(r * whole, id@ as int);
        }
        weighted.add(&id)
    }
}

/// The contents of one table.
#[derive(Debug, Clone)]
pub struct LookupTable<F, ID: LookupTableID> {
    /// The table that the entries belong to.
    pub table_id: ID,
    /// The rows of the table, each a vector of values.
    pub entries: Vec<Vec<F>>,
}

/// The witness of one instance of the lookup argument.
///
/// Where the table is fixed, the last column of `f` by convention holds the
/// table itself, each row with the negated multiplicity as its numerator.
#[derive(Debug, Clone)]
pub struct MVLookupWitness<F, ID: LookupTableID> {
    /// The columns of lookup terms, each with one term per row.
    pub f: Vec<Vec<MVLookup<F, ID>>>,
    /// The multiplicity of each row of the table.
    pub m: Vec<F>,
}

/// The number of partial sums that `terms` lookup terms per row are split into.
pub open spec fn chunk_count(terms: nat) -> nat {
    (terms + CHUNK_SIZE - 1) as nat / (CHUNK_SIZE as nat)
}

/// The index of the first term of a chunk.
pub open spec fn chunk_start(c: int) -> int {
    c * CHUNK_SIZE
}

/// The index after the last term of a chunk, where a row has `terms` terms.
pub open spec fn chunk_end(c: int, terms: int) -> int {
    if (c + 1) * CHUNK_SIZE <= terms {
        (c + 1) * CHUNK_SIZE
    } else {
        terms
    }
}

impl<ID: LookupTableID> MVLookupWitness<Fe, ID> {
    /// Whether the witness has at least one column, and every column and the
    /// multiplicities have one entry for each of the `domain_size` rows.
    pub open spec fn shaped(&self, domain_size: nat) -> bool {
        &&& self.f@.len() > 0
        &&& domain_size > 0
        &&& self.m@.len() == domain_size
        &&& forall|i: int| 0 <= i < self.f@.len() ==> (#[trigger] self.f@[i])@.len() == domain_size
    }

    /// The term of column `i` in row `j`.
    pub open spec fn term(&self, i: int, j: int) -> MVLookup<Fe, ID> {
        self.f@[i]@[j]
    }

    /// The sum of the fractions of row `j` over the columns from `lo` up to,
    /// but without, `hi`.
    pub open spec fn row_sum(&self, j: int, lo: int, hi: int, r: nat, beta: nat) -> int
        decreases hi - lo,
    {
        if hi <= lo {
            0
        } else {
            self.row_sum(j, lo, hi - 1, r, beta) + self.term(hi - 1, j).fraction(r, beta)
        }
    }

    /// The value of the partial sum of chunk `c` in row `j`.
    pub open spec fn partial_sum(&self, c: int, j: int, r: nat, beta: nat) -> nat {
        residue(self.row_sum(j, chunk_start(c), chunk_end(c, self.f@.len() as int), r, beta))
    }

    /// Whether the denominator of some term is zero.
    pub open spec fn has_zero_denominator(&self, domain_size: nat, r: nat, beta: nat) -> bool {
        exists|i: int, j: int|
            0 <= i < self.f@.len() && 0 <= j < domain_size && (#[trigger] self.term(
                i,
                j,
            )).denominator(r, beta) == 0
    }

    /// Whether the witness follows the convention for a table whose rows stand
    /// in the last column: every term of another column counts once, and the
    /// term of the last column takes away the multiplicity of its row.
    pub open spec fn conventional(&self, domain_size: nat) -> bool {
        let last = self.f@.len() - 1;
        &&& forall|i: int, j: int|
            0 <= i < last && 0 <= j < domain_size ==> (#[trigger] self.term(i, j)).numerator@ == 1
        &&& forall|j: int|
            0 <= j < domain_size ==> fadd(
                (#[trigger] self.term(last, j)).numerator@,
                self.m@[j]@,
            ) == 0
    }

    /// Whether the witness has the shape that `domain_size` rows ask for, and
    /// follows the convention for a table whose rows stand in the last column.
    pub fn follows_convention(&self, domain_size: usize) -> (b: bool)
        ensures
            b == (self.shaped(domain_size as nat) && self.conventional(domain_size as nat)),
    {
        if !self.is_shaped(domain_size) {
            return false;
        }
        let last = self.f.len() - 1;
        let mut j: usize = 0;
        while j < domain_size
            invariant
                j <= domain_size,
                self.shaped(domain_size as nat),
                last == self.f@.len() - 1,
                forall|i: int, jj: int|
                    0 <= i < last && 0 <= jj < j ==> (#[trigger] self.term(i, jj)).numerator@ == 1,
                forall|jj: int|
                    0 <= jj < j ==> fadd(
                        (#[trigger] self.term(last as int, jj)).numerator@,
                        self.m@[jj]@,
                    ) == 0,
            decreases domain_size - j,
        {
            let mut i: usize = 0;
            while i < last
                invariant
                    i <= last,
                    j < domain_size,
                    self.shaped(domain_size as nat),
                    last == self.f@.len() - 1,
                    forall|ii: int|
                        0 <= ii < i ==> (#[trigger] self.term(ii, j as int)).numerator@ == 1,
                decreases last - i,
            {
                if !self.f[i][j].numerator.equals(&Fe::one()) {
                    assert(self.term(i as int, j as int).numerator@ != 1);
                    return false;
                }
                i = i + 1;
            }
            if !self.f[last][j].numerator.add(&self.m[j]).is_zero() {
                assert(fadd(self.term(last as int, j as int).numerator@, self.m@[j as int]@) != 0);
                return false;
            }
            j = j + 1;
        }
        true
    }

    /// Whether the witness has the shape that `domain_size` rows ask for.
    pub fn is_shaped(&self, domain_size: usize) -> (b: bool)
        ensures
            b == self.shaped(domain_size as nat),
    {
        if self.f.len() == 0 || domain_size == 0 || self.m.len() != domain_size {
            return false;
        }
        let mut i: usize = 0;
        while i < self.f.len()
            invariant
                i <= self.f@.len(),
                forall|k: int| 0 <= k < i ==> (#[trigger] self.f@[k])@.len() == domain_size,
            decreases self.f@.len() - i,
        {
            if self.f[i].len() != domain_size {
                return false;
            }
            i = i + 1;
        }
        true
    }
}

/// The lookup section of a proof. `T` is a commitment where the section holds
/// the commitments, and a pair of evaluations where it holds the evaluations.
///
/// The two maps are keyed by the integer encoding of the table.
#[derive(Debug, Clone)]
pub struct LookupProof<T> {
    /// The multiplicities of each fixed table.
    pub m: BTreeMap<u32, T>,
    /// The partial sums.
    pub h: Vec<T>,
    /// The running sum.
    pub sum: T,
    /// The combined values of each fixed table.
    pub fixed_tables: BTreeMap<u32, T>,
}

impl<T> LookupProof<T> {
    /// The parts of the section in the order in which prover and verifier read
    /// them: the multiplicities in ascending order of the tables' encodings,
    /// the partial sums by their index, the running sum, and the fixed tables in
    /// ascending order of the tables' encodings.
    pub open spec fn canonical_order(&self) -> Seq<T> {
        ascending_values(self.m@) + self.h@ + seq![self.sum] + ascending_values(
            self.fixed_tables@,
        )
    }

    /// The parts of the section in their canonical order.
    pub fn into_iter(&self) -> (r: Vec<&T>)
        ensures
            r@.len() == self.canonical_order().len(),
            forall|i: int| 0 <= i < r@.len() ==> *(#[trigger] r@[i]) == self.canonical_order()[i],
    {
        let mut contents = values_in_order(&self.m);
        let ghost first = ascending_values(self.m@);
        let mut i: usize = 0;
        while i < self.h.len()
            invariant
                i <= self.h@.len(),
                first == ascending_values(self.m@),
                contents@.len() == first.len() + i,
                forall|k: int|
                    0 <= k < contents@.len() ==> *(#[trigger] contents@[k]) == (first
                        + self.h@)[k],
            decreases self.h@.len() - i,
        {
            contents.push(&self.h[i]);
            i = i + 1;
        }
        contents.push(&self.sum);
        let mut last = values_in_order(&self.fixed_tables);
        let ghost before = contents@;
        let ghost tail = last@;
        contents.append(&mut last);
        proof {
            let all = self.canonical_order();
            assert(contents@.len() == all.len());
            assert forall|k: int| 0 <= k < contents@.len() implies *(#[trigger] contents@[k])
                == all[k] by {
                if k < before.len() {
                    assert(contents@[k] == before[k]);
                } else {
                    assert(contents@[k] == tail[k - before.len()]);
                }
            }
        }
        contents
    }
}

/// The canonical order of a section puts the multiplicities first, in
/// ascending order of the tables' encodings, then the partial sums by their
/// index, then the running sum, and last the fixed tables, in ascending order
/// of the tables' encodings.
pub proof fn lemma_canonical_order<T>(section: LookupProof<T>)
    ensures
        ({
            let tables = ascending_keys(section.m@.dom());
            let fixed = ascending_keys(section.fixed_tables@.dom());
            let sums = section.h@.len() as int;
            let order = section.canonical_order();
            &&& strictly_ascending(tables)
            &&& strictly_ascending(fixed)
            &&& forall|key: u32| tables.contains(key) <==> section.m@.contains_key(key)
            &&& forall|key: u32| fixed.contains(key) <==> section.fixed_tables@.contains_key(key)
            &&& order.len() == tables.len() + sums + 1 + fixed.len()
            &&& forall|i: int| 0 <= i < tables.len() ==> order[i] == section.m@[tables[i]]
            &&& forall|i: int| 0 <= i < sums ==> order[tables.len() + i] == section.h@[i]
            &&& order[tables.len() as int + sums] == section.sum
            &&& forall|i: int|
                0 <= i < fixed.len() ==> order[tables.len() + sums + 1 + i]
                    == section.fixed_tables@[fixed[i]]
        }),
{
    lemma_keys_below_ascend(section.m@.dom(), 0x1_0000_0000);
    lemma_keys_below_ascend(section.fixed_tables@.dom(), 0x1_0000_0000);
}

/// Two sections with the same parts are read in the same order, however they
/// were put together.
pub proof fn lemma_canonical_order_is_stable<T>(a: LookupProof<T>, b: LookupProof<T>)
    requires
        a.m@ == b.m@,
        a.h@ == b.h@,
        a.sum == b.sum,
        a.fixed_tables@ == b.fixed_tables@,
    ensures
        a.canonical_order() == b.canonical_order(),
{
}

} // verus!
