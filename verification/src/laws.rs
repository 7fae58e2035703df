//! What holds of the partial sums and of the running sum, whatever the witness
//! and the challenges are.
use crate::algebra::{column_total, denominator, running_sum, running_total};
use crate::field::{
    finv, lemma_fmul_residue, lemma_residue_add_congruent, lemma_residue_is_reduced,
    lemma_residue_mul_congruent, lemma_residue_of_reduced, lemma_residue_sub_congruent, modulus,
    residue, values, Fe,
};
use crate::mvlookup::constraints::{cross_sum, partial_sum_constraint, product_except};
use crate::mvlookup::sums::all_partial_sums;
use crate::mvlookup::{chunk_count, chunk_end, chunk_start, LookupTableID, MVLookupWitness};
use crate::CHUNK_SIZE;
use vstd::prelude::*;

verus! {

/// The sum over a range of columns is the sum over its two parts.
pub proof fn lemma_row_sum_splits<ID: LookupTableID>(
    w: MVLookupWitness<Fe, ID>,
    j: int,
    lo: int,
    mid: int,
    hi: int,
    r: nat,
    beta: nat,
)
    requires
        lo <= mid <= hi,
    ensures
        w.row_sum(j, lo, hi, r, beta) == w.row_sum(j, lo, mid, r, beta) + w.row_sum(
            j,
            mid,
            hi,
            r,
            beta,
        ),
    decreases hi - mid,
{
    if mid < hi {
        lemma_row_sum_splits(w, j, lo, mid, hi - 1, r, beta);
    }
}

/// The number of columns that the first `c` chunks hold, where a row has `n`
/// columns.
pub open spec fn chunk_bound(c: int, n: int) -> int {
    if c * CHUNK_SIZE <= n {
        c * CHUNK_SIZE
    } else {
        n
    }
}

proof fn lemma_chunk_prefix<ID: LookupTableID>(
    w: MVLookupWitness<Fe, ID>,
    domain_size: nat,
    j: int,
    c: int,
    r: nat,
    beta: nat,
)
    requires
        0 <= j < domain_size,
        0 <= c <= chunk_count(w.f@.len()),
    ensures
        residue(column_total(w.partial_sum_evaluations(domain_size, r, beta).take(c), j))
            == residue(w.row_sum(j, 0, chunk_bound(c, w.f@.len() as int), r, beta)),
    decreases c,
{
    let all = w.partial_sum_evaluations(domain_size, r, beta);
    let n = w.f@.len() as int;
    if c == 0 {
        assert(all.take(0) =~= Seq::<Seq<nat>>::empty());
    } else {
        lemma_chunk_prefix(w, domain_size, j, c - 1, r, beta);
        assert(all.take(c).drop_last() =~= all.take(c - 1));
        assert(all.take(c).last() == all[c - 1]);
        assert(all[c - 1][j] == w.partial_sum(c - 1, j, r, beta));
        let lo = chunk_bound(c - 1, n);
        let hi = chunk_bound(c, n);
        assert(lo == chunk_start(c - 1));
        assert(hi == chunk_end(c - 1, n));
        lemma_row_sum_splits(w, j, 0, lo, hi, r, beta);
        let chunk = w.row_sum(j, lo, hi, r, beta);
        lemma_residue_is_reduced(chunk);
        lemma_residue_add_congruent(
            column_total(all.take(c - 1), j),
            w.row_sum(j, 0, lo, r, beta),
            residue(chunk) as int,
            chunk,
        );
    }
}

/// Splitting the terms of a row into chunks does not change their sum: in
/// every row, the partial sums of all chunks add up to the sum of the fractions
/// of all terms of the row.
pub proof fn lemma_chunks_add_up_to_row_sum<ID: LookupTableID>(
    w: MVLookupWitness<Fe, ID>,
    domain_size: nat,
    j: int,
    r: nat,
    beta: nat,
)
    requires
        0 <= j < domain_size,
    ensures
        residue(column_total(w.partial_sum_evaluations(domain_size, r, beta), j)) == residue(
            w.row_sum(j, 0, w.f@.len() as int, r, beta),
        ),
{
    let all = w.partial_sum_evaluations(domain_size, r, beta);
    lemma_chunk_prefix(w, domain_size, j, chunk_count(w.f@.len()) as int, r, beta);
    assert(all.take(all.len() as int) =~= all);
}

/// A term as the sum sees it: the table's encoding, the vector that is looked
/// up, and the numerator.
pub struct Entry {
    pub table: nat,
    pub value: Seq<nat>,
    pub numerator: nat,
}

/// The denominator of an entry's fraction.
pub open spec fn entry_denominator(e: Entry, r: nat, beta: nat) -> nat {
    denominator(beta, e.table, e.value, r)
}

/// The value of an entry's fraction.
pub open spec fn entry_fraction(e: Entry, r: nat, beta: nat) -> nat {
    crate::algebra::fraction(e.numerator, entry_denominator(e, r, beta))
}

/// The sum of the fractions of all entries.
pub open spec fn fraction_total(s: Seq<Entry>, r: nat, beta: nat) -> int
    decreases s.len(),
{
    if s.len() == 0 {
        0
    } else {
        fraction_total(s.drop_last(), r, beta) + entry_fraction(s.last(), r, beta)
    }
}

/// The sum of the numerators of the entries that look `value` up in `table`.
pub open spec fn weight(s: Seq<Entry>, table: nat, value: Seq<nat>) -> int
    decreases s.len(),
{
    if s.len() == 0 {
        0
    } else if s.last().table == table && s.last().value == value {
        weight(s.drop_last(), table, value) + s.last().numerator
    } else {
        weight(s.drop_last(), table, value)
    }
}

/// Whether, for every table and every vector, the numerators of the entries
/// that look the vector up in the table add up to zero in the field.
///
/// With a numerator of one for each lookup and the negated multiplicity for
/// each row of the table, this says that every vector is looked up as often as
/// the multiplicities of the table rows that hold it declare.
pub open spec fn balanced(s: Seq<Entry>) -> bool {
    forall|table: nat, value: Seq<nat>| residue(#[trigger] weight(s, table, value)) == 0
}

spec fn scaled_total(s: Seq<Entry>, r: nat, beta: nat) -> int
    decreases s.len(),
{
    if s.len() == 0 {
        0
    } else {
        scaled_total(s.drop_last(), r, beta) + s.last().numerator * finv(
            entry_denominator(s.last(), r, beta),
        )
    }
}

spec fn without(s: Seq<Entry>, table: nat, value: Seq<nat>) -> Seq<Entry>
    decreases s.len(),
{
    if s.len() == 0 {
        s
    } else if s.last().table == table && s.last().value == value {
        without(s.drop_last(), table, value)
    } else {
        without(s.drop_last(), table, value).push(s.last())
    }
}

proof fn lemma_without(s: Seq<Entry>, table: nat, value: Seq<nat>, r: nat, beta: nat)
    ensures
        without(s, table, value).len() <= s.len(),
        s.len() > 0 && s.last().table == table && s.last().value == value ==> without(
            s,
            table,
            value,
        ).len() < s.len(),
        scaled_total(s, r, beta) == weight(s, table, value) * finv(
            denominator(beta, table, value, r),
        ) + scaled_total(without(s, table, value), r, beta),
        forall|t: nat, v: Seq<nat>|
            #[trigger] weight(without(s, table, value), t, v) == if t == table && v == value {
                0
            } else {
                weight(s, t, v)
            },
    decreases s.len(),
{
    if s.len() > 0 {
        let init = s.drop_last();
        let last = s.last();
        lemma_without(init, table, value, r, beta);
        let g = finv(denominator(beta, table, value, r));
        if last.table == table && last.value == value {
            assert((weight(init, table, value) + last.numerator) * g == weight(init, table, value)
                * g + last.numerator * g) by (nonlinear_arith);
        } else {
            let rest = without(init, table, value);
            let kept = rest.push(last);
            assert(kept.drop_last() =~= rest);
            assert(kept.last() == last);
            assert forall|t: nat, v: Seq<nat>| #[trigger]
                weight(kept, t, v) == if t == table && v == value {
                    0
                } else {
                    weight(s, t, v)
                } by {
                assert(weight(rest, t, v) == if t == table && v == value {
                    0
                } else {
                    weight(init, t, v)
                });
            }
        }
    }
}

proof fn lemma_fraction_total_is_scaled_total(s: Seq<Entry>, r: nat, beta: nat)
    ensures
        residue(fraction_total(s, r, beta)) == residue(scaled_total(s, r, beta)),
    decreases s.len(),
{
    if s.len() > 0 {
        lemma_fraction_total_is_scaled_total(s.drop_last(), r, beta);
        let e = s.last();
        let product = (e.numerator * finv(entry_denominator(e, r, beta))) as int;
        lemma_residue_is_reduced(product);
        assert(entry_fraction(e, r, beta) == residue(product));
        lemma_residue_add_congruent(
            fraction_total(s.drop_last(), r, beta),
            scaled_total(s.drop_last(), r, beta),
            entry_fraction(e, r, beta) as int,
            product,
        );
    }
}

proof fn lemma_balanced_scaled_total(s: Seq<Entry>, r: nat, beta: nat)
    requires
        balanced(s),
    ensures
        residue(scaled_total(s, r, beta)) == 0,
    decreases s.len(),
{
    if s.len() > 0 {
        let table = s.last().table;
        let value = s.last().value;
        let rest = without(s, table, value);
        lemma_without(s, table, value, r, beta);
        assert(balanced(rest)) by {
            assert forall|t: nat, v: Seq<nat>| residue(#[trigger] weight(rest, t, v)) == 0 by {
                assert(residue(weight(s, t, v)) == 0);
            }
        }
        lemma_balanced_scaled_total(rest, r, beta);
        let w = weight(s, table, value);
        let g = finv(denominator(beta, table, value, r)) as int;
        assert(residue(w) == 0);
        lemma_fmul_residue(w, g);
        assert(residue(w * g) == 0);
        lemma_residue_add_congruent(w * g, 0, scaled_total(rest, r, beta), 0);
    }
}

/// Where the entries are balanced, their fractions add up to zero in the field,
/// whatever the two challenges are.
pub proof fn lemma_balanced_entries_add_up_to_zero(s: Seq<Entry>, r: nat, beta: nat)
    requires
        balanced(s),
    ensures
        residue(fraction_total(s, r, beta)) == 0,
{
    lemma_fraction_total_is_scaled_total(s, r, beta);
    lemma_balanced_scaled_total(s, r, beta);
}

impl<ID: LookupTableID> MVLookupWitness<Fe, ID> {
    /// The term of column `i` in row `j`, as the sum sees it.
    pub open spec fn entry(&self, i: int, j: int) -> Entry {
        let term = self.term(i, j);
        Entry {
            table: term.table_id.encoding() as nat,
            value: values(term.value@),
            numerator: term.numerator@,
        }
    }

    /// The terms of the first `cols` columns in row `j`.
    pub open spec fn row_entries(&self, j: int, cols: int) -> Seq<Entry>
        decreases cols,
    {
        if cols <= 0 {
            Seq::empty()
        } else {
            self.row_entries(j, cols - 1).push(self.entry(cols - 1, j))
        }
    }

    /// All terms of the first `rows` rows, row after row.
    pub open spec fn entries(&self, rows: int) -> Seq<Entry>
        decreases rows,
    {
        if rows <= 0 {
            Seq::empty()
        } else {
            self.entries(rows - 1) + self.row_entries(rows - 1, self.f@.len() as int)
        }
    }

    /// Whether every vector is looked up in every table as often as the table
    /// declares: over the `domain_size` rows, the numerators of the terms with
    /// the same table and the same vector add up to zero in the field.
    pub open spec fn balanced(&self, domain_size: nat) -> bool {
        balanced(self.entries(domain_size as int))
    }
}

proof fn lemma_fraction_total_adds(a: Seq<Entry>, b: Seq<Entry>, r: nat, beta: nat)
    ensures
        fraction_total(a + b, r, beta) == fraction_total(a, r, beta) + fraction_total(b, r, beta),
    decreases b.len(),
{
    if b.len() == 0 {
        assert(a + b =~= a);
    } else {
        lemma_fraction_total_adds(a, b.drop_last(), r, beta);
        assert((a + b).drop_last() =~= a + b.drop_last());
        assert((a + b).last() == b.last());
    }
}

proof fn lemma_row_entries<ID: LookupTableID>(
    w: MVLookupWitness<Fe, ID>,
    j: int,
    cols: int,
    r: nat,
    beta: nat,
)
    requires
        0 <= cols,
    ensures
        fraction_total(w.row_entries(j, cols), r, beta) == w.row_sum(j, 0, cols, r, beta),
    decreases cols,
{
    if cols > 0 {
        lemma_row_entries(w, j, cols - 1, r, beta);
        let row = w.row_entries(j, cols);
        assert(row.drop_last() =~= w.row_entries(j, cols - 1));
        assert(row.last() == w.entry(cols - 1, j));
    }
}

proof fn lemma_running_total_is_fraction_total<ID: LookupTableID>(
    w: MVLookupWitness<Fe, ID>,
    domain_size: nat,
    rows: int,
    r: nat,
    beta: nat,
)
    requires
        0 <= rows <= domain_size,
    ensures
        residue(running_total(w.partial_sum_evaluations(domain_size, r, beta), rows)) == residue(
            fraction_total(w.entries(rows), r, beta),
        ),
    decreases rows,
{
    if rows > 0 {
        let all = w.partial_sum_evaluations(domain_size, r, beta);
        let n = w.f@.len() as int;
        lemma_running_total_is_fraction_total(w, domain_size, rows - 1, r, beta);
        lemma_chunks_add_up_to_row_sum(w, domain_size, rows - 1, r, beta);
        lemma_row_entries(w, rows - 1, n, r, beta);
        lemma_fraction_total_adds(w.entries(rows - 1), w.row_entries(rows - 1, n), r, beta);
        lemma_residue_add_congruent(
            running_total(all, rows - 1),
            fraction_total(w.entries(rows - 1), r, beta),
            column_total(all, rows - 1),
            fraction_total(w.row_entries(rows - 1, n), r, beta),
        );
    }
}

/// Completeness for one witness: where every vector is looked up as often as
/// the table declares, the running sum starts at zero and is back at zero after
/// the last row, whatever the two challenges are.
pub proof fn lemma_balanced_witness_sums_to_zero<ID: LookupTableID>(
    w: MVLookupWitness<Fe, ID>,
    domain_size: nat,
    r: nat,
    beta: nat,
)
    requires
        w.balanced(domain_size),
    ensures
        domain_size > 0 ==> running_sum(
            w.partial_sum_evaluations(domain_size, r, beta),
            domain_size,
        )[0] == 0,
        residue(
            running_total(w.partial_sum_evaluations(domain_size, r, beta), domain_size as int),
        ) == 0,
{
    lemma_running_total_is_fraction_total(w, domain_size, domain_size as int, r, beta);
    lemma_balanced_entries_add_up_to_zero(w.entries(domain_size as int), r, beta);
    assert(residue(0) == 0) by {
        vstd::arithmetic::div_mod::lemma_small_mod(0, modulus());
    }
}

proof fn lemma_column_total_adds(a: Seq<Seq<nat>>, b: Seq<Seq<nat>>, j: int)
    ensures
        column_total(a + b, j) == column_total(a, j) + column_total(b, j),
    decreases b.len(),
{
    if b.len() == 0 {
        assert(a + b =~= a);
    } else {
        lemma_column_total_adds(a, b.drop_last(), j);
        assert((a + b).drop_last() =~= a + b.drop_last());
        assert((a + b).last() == b.last());
    }
}

proof fn lemma_running_total_adds(a: Seq<Seq<nat>>, b: Seq<Seq<nat>>, rows: int)
    ensures
        running_total(a + b, rows) == running_total(a, rows) + running_total(b, rows),
    decreases rows,
{
    if rows > 0 {
        lemma_running_total_adds(a, b, rows - 1);
        lemma_column_total_adds(a, b, rows - 1);
    }
}

proof fn lemma_running_total_of_nothing(rows: int)
    ensures
        running_total(Seq::<Seq<nat>>::empty(), rows) == 0,
    decreases rows,
{
    if rows > 0 {
        lemma_running_total_of_nothing(rows - 1);
    }
}

/// Completeness: where in every witness every vector is looked up as often as
/// the table declares, the running sum over the partial sums of all witnesses
/// starts at zero and is back at zero after the last row, whatever the two
/// challenges are.
pub proof fn lemma_balanced_witnesses_sum_to_zero<ID: LookupTableID>(
    lookups: Seq<MVLookupWitness<Fe, ID>>,
    domain_size: nat,
    r: nat,
    beta: nat,
)
    requires
        forall|k: int| 0 <= k < lookups.len() ==> (#[trigger] lookups[k]).balanced(domain_size),
    ensures
        domain_size > 0 ==> running_sum(
            all_partial_sums(lookups, domain_size, r, beta),
            domain_size,
        )[0] == 0,
        residue(
            running_total(all_partial_sums(lookups, domain_size, r, beta), domain_size as int),
        ) == 0,
    decreases lookups.len(),
{
    assert(residue(0) == 0) by {
        vstd::arithmetic::div_mod::lemma_small_mod(0, modulus());
    }
    if lookups.len() == 0 {
        lemma_running_total_of_nothing(domain_size as int);
    } else {
        let init = lookups.drop_last();
        let last = lookups.last();
        lemma_balanced_witnesses_sum_to_zero(init, domain_size, r, beta);
        lemma_balanced_witness_sums_to_zero(last, domain_size, r, beta);
        let a = all_partial_sums(init, domain_size, r, beta);
        let b = last.partial_sum_evaluations(domain_size, r, beta);
        lemma_running_total_adds(a, b, domain_size as int);
        lemma_residue_add_congruent(
            running_total(a, domain_size as int),
            0,
            running_total(b, domain_size as int),
            0,
        );
    }
}

impl<ID: LookupTableID> MVLookupWitness<Fe, ID> {
    /// How often, in row `j`, the first `cols` columns look `value` up in
    /// `table`.
    pub open spec fn lookups_in_row(&self, table: nat, value: Seq<nat>, j: int, cols: int) -> int
        decreases cols,
    {
        if cols <= 0 {
            0
        } else if self.entry(cols - 1, j).table == table && self.entry(cols - 1, j).value
            == value {
            self.lookups_in_row(table, value, j, cols - 1) + 1
        } else {
            self.lookups_in_row(table, value, j, cols - 1)
        }
    }

    /// How often, in the first `rows` rows, the columns but the last look
    /// `value` up in `table`.
    pub open spec fn lookups(&self, table: nat, value: Seq<nat>, rows: int) -> int
        decreases rows,
    {
        if rows <= 0 {
            0
        } else {
            self.lookups(table, value, rows - 1) + self.lookups_in_row(
                table,
                value,
                rows - 1,
                self.f@.len() - 1,
            )
        }
    }

    /// The multiplicity that the first `rows` rows declare for `value` in
    /// `table`: the sum of the multiplicities of the rows in which the last
    /// column holds this value of this table.
    pub open spec fn declared(&self, table: nat, value: Seq<nat>, rows: int) -> int
        decreases rows,
    {
        let last = self.f@.len() - 1;
        if rows <= 0 {
            0
        } else if self.entry(last, rows - 1).table == table && self.entry(last, rows - 1).value
            == value {
            self.declared(table, value, rows - 1) + self.m@[rows - 1]@
        } else {
            self.declared(table, value, rows - 1)
        }
    }

    /// Whether the witness has two columns, each row of the first looks up the
    /// value that the second holds in the same row, of the same table, and
    /// every multiplicity is one.
    pub open spec fn mirrors_its_table(&self, domain_size: nat) -> bool {
        &&& self.f@.len() == 2
        &&& forall|j: int|
            0 <= j < domain_size ==> {
                &&& (#[trigger] self.entry(0, j)).table == self.entry(1, j).table
                &&& self.entry(0, j).value == self.entry(1, j).value
                &&& self.m@[j]@ == 1
            }
    }

    /// Whether every value is looked up in every table as often as the table
    /// declares, the two numbers being taken in the field.
    pub open spec fn looked_up_as_declared(&self, domain_size: nat) -> bool {
        forall|table: nat, value: Seq<nat>|
            residue(#[trigger] self.lookups(table, value, domain_size as int)) == residue(
                self.declared(table, value, domain_size as int),
            )
    }
}

proof fn lemma_weight_adds(a: Seq<Entry>, b: Seq<Entry>, table: nat, value: Seq<nat>)
    ensures
        weight(a + b, table, value) == weight(a, table, value) + weight(b, table, value),
    decreases b.len(),
{
    if b.len() == 0 {
        assert(a + b =~= a);
    } else {
        lemma_weight_adds(a, b.drop_last(), table, value);
        assert((a + b).drop_last() =~= a + b.drop_last());
        assert((a + b).last() == b.last());
    }
}

proof fn lemma_weight_of_lookups<ID: LookupTableID>(
    w: MVLookupWitness<Fe, ID>,
    domain_size: nat,
    table: nat,
    value: Seq<nat>,
    j: int,
    cols: int,
)
    requires
        w.conventional(domain_size),
        0 <= j < domain_size,
        0 <= cols <= w.f@.len() - 1,
    ensures
        weight(w.row_entries(j, cols), table, value) == w.lookups_in_row(table, value, j, cols),
    decreases cols,
{
    if cols > 0 {
        lemma_weight_of_lookups(w, domain_size, table, value, j, cols - 1);
        let row = w.row_entries(j, cols);
        assert(row.drop_last() =~= w.row_entries(j, cols - 1));
        assert(row.last() == w.entry(cols - 1, j));
        assert(w.term(cols - 1, j).numerator@ == 1);
    }
}

proof fn lemma_weight_is_lookups_less_declared<ID: LookupTableID>(
    w: MVLookupWitness<Fe, ID>,
    domain_size: nat,
    table: nat,
    value: Seq<nat>,
    rows: int,
)
    requires
        w.f@.len() > 0,
        w.conventional(domain_size),
        0 <= rows <= domain_size,
    ensures
        residue(weight(w.entries(rows), table, value)) == residue(
            w.lookups(table, value, rows) - w.declared(table, value, rows),
        ),
    decreases rows,
{
    if rows > 0 {
        let n = w.f@.len() as int;
        let j = rows - 1;
        lemma_weight_is_lookups_less_declared(w, domain_size, table, value, j);
        lemma_weight_adds(w.entries(j), w.row_entries(j, n), table, value);
        lemma_weight_of_lookups(w, domain_size, table, value, j, n - 1);
        let row = w.row_entries(j, n);
        assert(row.drop_last() =~= w.row_entries(j, n - 1));
        assert(row.last() == w.entry(n - 1, j));
        let before = weight(w.entries(j), table, value);
        let looked_up = w.lookups_in_row(table, value, j, n - 1);
        let known = w.lookups(table, value, j) - w.declared(table, value, j);
        if w.entry(n - 1, j).table == table && w.entry(n - 1, j).value == value {
            let taken = w.term(n - 1, j).numerator@ as int;
            let m = w.m@[j]@ as int;
            // what the table's term takes away is the multiplicity
            assert(residue(taken + m) == 0);
            lemma_residue_of_reduced(0);
            lemma_residue_sub_congruent(taken + m, 0, m, m);
            assert(taken + m - m == taken);
            assert(residue(taken) == residue(0 - m));
            lemma_residue_sub_congruent(0, 0, m, m);
            lemma_residue_add_congruent(looked_up, looked_up, taken, 0 - m);
            lemma_residue_add_congruent(before, known, looked_up + taken, looked_up + (0 - m));
        } else {
            lemma_residue_add_congruent(before, known, looked_up, looked_up);
        }
    }
}

/// A witness that follows the convention, and in which every value is looked
/// up as often as the table declares, is balanced.
pub proof fn lemma_declared_lookups_are_balanced<ID: LookupTableID>(
    w: MVLookupWitness<Fe, ID>,
    domain_size: nat,
)
    requires
        w.f@.len() > 0,
        w.conventional(domain_size),
        w.looked_up_as_declared(domain_size),
    ensures
        w.balanced(domain_size),
{
    let rows = domain_size as int;
    assert forall|table: nat, value: Seq<nat>|
        residue(#[trigger] weight(w.entries(rows), table, value)) == 0 by {
        lemma_weight_is_lookups_less_declared(w, domain_size, table, value, rows);
        let looked_up = w.lookups(table, value, rows);
        let declared = w.declared(table, value, rows);
        assert(residue(looked_up) == residue(declared));
        lemma_residue_sub_congruent(looked_up, declared, declared, declared);
        lemma_residue_of_reduced(0);
        assert(declared - declared == 0);
    }
}

proof fn lemma_lookups_row_by_row<ID: LookupTableID>(
    w: MVLookupWitness<Fe, ID>,
    domain_size: nat,
    table: nat,
    value: Seq<nat>,
    rows: int,
)
    requires
        w.mirrors_its_table(domain_size),
        0 <= rows <= domain_size,
    ensures
        w.lookups(table, value, rows) == w.declared(table, value, rows),
    decreases rows,
{
    if rows > 0 {
        lemma_lookups_row_by_row(w, domain_size, table, value, rows - 1);
        reveal_with_fuel(MVLookupWitness::lookups_in_row, 2);
        assert(w.entry(0, rows - 1).table == w.entry(1, rows - 1).table);
        assert(w.entry(0, rows - 1).value == w.entry(1, rows - 1).value);
        assert(w.m@[rows - 1]@ == 1);
    }
}

/// A witness of two columns, in which each row looks up the value that the
/// table holds in the same row, and each row of the table declares one
/// lookup, looks every value up as often as the table declares.
pub proof fn lemma_mirrored_table_is_looked_up_as_declared<ID: LookupTableID>(
    w: MVLookupWitness<Fe, ID>,
    domain_size: nat,
)
    requires
        w.mirrors_its_table(domain_size),
    ensures
        w.looked_up_as_declared(domain_size),
{
    assert forall|table: nat, value: Seq<nat>|
        residue(#[trigger] w.lookups(table, value, domain_size as int)) == residue(
            w.declared(table, value, domain_size as int),
        ) by {
        lemma_lookups_row_by_row(w, domain_size, table, value, domain_size as int);
    }
}

/// Completeness, as the witnesses are laid out: where each witness holds its
/// table in the last column, with the negated multiplicity of each row as the
/// numerator, and every value is looked up as often as the table declares, the
/// running sum over all witnesses starts at zero and is back at zero after the
/// last row, whatever the two challenges are.
pub proof fn lemma_declared_lookups_sum_to_zero<ID: LookupTableID>(
    lookups: Seq<MVLookupWitness<Fe, ID>>,
    domain_size: nat,
    r: nat,
    beta: nat,
)
    requires
        forall|k: int|
            0 <= k < lookups.len() ==> {
                &&& (#[trigger] lookups[k]).f@.len() > 0
                &&& lookups[k].conventional(domain_size)
                &&& lookups[k].looked_up_as_declared(domain_size)
            },
    ensures
        domain_size > 0 ==> running_sum(
            all_partial_sums(lookups, domain_size, r, beta),
            domain_size,
        )[0] == 0,
        residue(
            running_total(all_partial_sums(lookups, domain_size, r, beta), domain_size as int),
        ) == 0,
{
    assert forall|k: int| 0 <= k < lookups.len() implies (#[trigger] lookups[k]).balanced(
        domain_size,
    ) by {
        lemma_declared_lookups_are_balanced(lookups[k], domain_size);
    }
    lemma_balanced_witnesses_sum_to_zero(lookups, domain_size, r, beta);
}

/// Whether each element of `invs` is the inverse of the element of `dens` at
/// the same place.
pub open spec fn inverses_of(dens: Seq<nat>, invs: Seq<nat>) -> bool {
    &&& invs.len() == dens.len()
    &&& forall|i: int| 0 <= i < dens.len() ==> residue((#[trigger] dens[i] * invs[i]) as int) == 1
}

/// The sum of the first `upto` numerators, each over its denominator.
pub open spec fn sum_of_fractions(nums: Seq<nat>, invs: Seq<nat>, upto: int) -> int
    decreases upto,
{
    if upto <= 0 {
        0
    } else {
        sum_of_fractions(nums, invs, upto - 1) + nums[upto - 1] * invs[upto - 1]
    }
}

proof fn lemma_product_has_each_factor(dens: Seq<nat>, i: int, upto: int)
    requires
        0 <= i < upto <= dens.len(),
    ensures
        product_except(dens, -1, upto) == dens[i] * product_except(dens, i, upto),
    decreases upto,
{
    if upto - 1 == i {
        lemma_product_without_a_later_factor(dens, i, upto - 1);
        let rest = product_except(dens, i, upto - 1);
        assert(rest * dens[i] == dens[i] * rest) by (nonlinear_arith);
    } else {
        lemma_product_has_each_factor(dens, i, upto - 1);
        let rest = product_except(dens, i, upto - 1);
        let last = dens[upto - 1];
        assert((dens[i] * rest) * last == dens[i] * (rest * last)) by (nonlinear_arith);
    }
}

proof fn lemma_product_without_a_later_factor(dens: Seq<nat>, i: int, upto: int)
    requires
        0 <= upto <= i,
    ensures
        product_except(dens, -1, upto) == product_except(dens, i, upto),
    decreases upto,
{
    if upto > 0 {
        lemma_product_without_a_later_factor(dens, i, upto - 1);
    }
}

proof fn lemma_products_of_inverses(dens: Seq<nat>, invs: Seq<nat>, upto: int)
    requires
        inverses_of(dens, invs),
        0 <= upto <= dens.len(),
    ensures
        residue(product_except(dens, -1, upto) * product_except(invs, -1, upto)) == 1,
    decreases upto,
{
    lemma_residue_of_reduced(1);
    if upto > 0 {
        lemma_products_of_inverses(dens, invs, upto - 1);
        let d = product_except(dens, -1, upto - 1);
        let v = product_except(invs, -1, upto - 1);
        let x = dens[upto - 1] as int;
        let y = invs[upto - 1] as int;
        assert(residue((dens[upto - 1] * invs[upto - 1]) as int) == 1);
        lemma_residue_mul_congruent(d * v, 1, x * y, 1);
        assert((d * x) * (v * y) == (d * v) * (x * y)) by (nonlinear_arith);
    }
}

proof fn lemma_cross_sum_is_the_product_times_the_sum(
    nums: Seq<nat>,
    dens: Seq<nat>,
    invs: Seq<nat>,
    upto: int,
)
    requires
        nums.len() == dens.len(),
        inverses_of(dens, invs),
        0 <= upto <= dens.len(),
    ensures
        residue(cross_sum(nums, dens, upto)) == residue(
            product_except(dens, -1, dens.len() as int) * sum_of_fractions(nums, invs, upto),
        ),
    decreases upto,
{
    let n = dens.len() as int;
    let all = product_except(dens, -1, n);
    if upto <= 0 {
        assert(all * 0 == 0);
    } else {
        let i = upto - 1;
        lemma_cross_sum_is_the_product_times_the_sum(nums, dens, invs, i);
        lemma_product_has_each_factor(dens, i, n);
        let others = product_except(dens, i, n);
        let num = nums[i] as int;
        let d = dens[i] as int;
        let v = invs[i] as int;
        // the others are the whole product times the inverse of the factor left out
        lemma_residue_of_reduced(1);
        assert(residue((dens[i] * invs[i]) as int) == 1);
        lemma_residue_mul_congruent(d * v, 1, others, others);
        assert((d * v) * others == all * v) by (nonlinear_arith)
            requires
                all == d * others,
        ;
        assert(1 * others == others);
        lemma_residue_mul_congruent(num, num, others, all * v);
        assert(num * (all * v) == all * (num * v)) by (nonlinear_arith);
        let before = sum_of_fractions(nums, invs, i);
        lemma_residue_add_congruent(
            cross_sum(nums, dens, i),
            all * before,
            num * others,
            all * (num * v),
        );
        assert(all * before + all * (num * v) == all * (before + num * v)) by (nonlinear_arith);
    }
}

/// What the constraint of a partial sum says: where every denominator has an
/// inverse, the constraint vanishes just if the cell of the partial sum holds
/// the sum of the numerators over their denominators.
pub proof fn lemma_constraint_vanishes_on_the_sum_of_fractions(
    cell: nat,
    nums: Seq<nat>,
    dens: Seq<nat>,
    invs: Seq<nat>,
)
    requires
        nums.len() == dens.len(),
        inverses_of(dens, invs),
    ensures
        partial_sum_constraint(cell, nums, dens) == 0 <==> residue(cell as int) == residue(
            sum_of_fractions(nums, invs, dens.len() as int),
        ),
{
    let n = dens.len() as int;
    let all = product_except(dens, -1, n);
    let back = product_except(invs, -1, n);
    let sum = sum_of_fractions(nums, invs, n);
    let cross = cross_sum(nums, dens, n);
    lemma_cross_sum_is_the_product_times_the_sum(nums, dens, invs, n);
    lemma_products_of_inverses(dens, invs, n);
    lemma_residue_of_reduced(0);
    lemma_residue_of_reduced(1);
    // the constraint is the product of all denominators, times the difference
    lemma_residue_sub_congruent(cell * all, cell * all, cross, all * sum);
    assert(cell * all - all * sum == all * (cell - sum)) by (nonlinear_arith);
    assert(partial_sum_constraint(cell, nums, dens) == residue(all * (cell - sum)));
    if residue(cell as int) == residue(sum) {
        lemma_residue_sub_congruent(cell as int, sum, sum, sum);
        assert(sum - sum == 0);
        lemma_residue_mul_congruent(all, all, cell - sum, 0);
        assert(all * 0 == 0);
    }
    if residue(all * (cell - sum)) == 0 {
        lemma_residue_mul_congruent(back, back, all * (cell - sum), 0);
        assert(back * 0 == 0);
        assert(back * (all * (cell - sum)) == (all * back) * (cell - sum)) by (nonlinear_arith);
        lemma_residue_mul_congruent(all * back, 1, cell - sum, cell - sum);
        assert(1 * (cell - sum) == cell - sum);
        assert(residue(cell - sum) == 0);
        lemma_residue_add_congruent(cell - sum, 0, sum, sum);
        assert(cell - sum + sum == cell);
        assert(0 + sum == sum);
    }
}

} // verus!
