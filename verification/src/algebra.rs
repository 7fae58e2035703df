//! What the lookup argument computes, as arithmetic on integers: the combined
//! value of a vector lookup, its denominator, and the value of one fraction.
use crate::field::{fadd, finv, fmul, residue};
use vstd::arithmetic::power::pow;
use vstd::prelude::*;

verus! {

/// The components of a vector, each weighted by a power of the combiner `r`:
/// the first by `r`, the second by `r * r`, and so on.
pub open spec fn weighted_sum(value: Seq<nat>, r: nat) -> int
    decreases value.len(),
{
    if value.len() == 0 {
        0
    } else {
        weighted_sum(value.drop_last(), r) + value.last() * pow(r as int, value.len())
    }
}

/// The single field value that stands for a lookup of `value` in the table
/// with the integer encoding `id`.
pub open spec fn combined_value(id: nat, value: Seq<nat>, r: nat) -> nat {
    residue(id + weighted_sum(value, r))
}

/// The denominator of the fraction of a lookup.
pub open spec fn denominator(beta: nat, id: nat, value: Seq<nat>, r: nat) -> nat {
    fadd(beta, combined_value(id, value, r))
}

/// The value of one fraction: the numerator over the denominator.
pub open spec fn fraction(numerator: nat, denominator: nat) -> nat {
    fmul(numerator, finv(denominator))
}

/// The components of a vector from the index `from` on, weighted by powers of
/// `r` that start at one.
pub open spec fn horner(value: Seq<nat>, r: nat, from: int) -> int
    decreases value.len() - from,
{
    if from < 0 || from >= value.len() {
        0
    } else {
        value[from] + r * horner(value, r, from + 1)
    }
}

/// Horner's scheme on the whole vector, times `r`, is the weighted sum.
pub proof fn lemma_horner_is_weighted_sum(value: Seq<nat>, r: nat)
    ensures
        r * horner(value, r, 0) == weighted_sum(value, r),
{
    lemma_horner_split(value, r, 0);
    assert(value.take(0) =~= Seq::<nat>::empty());
    assert(pow(r as int, 1) == r) by {
        vstd::arithmetic::power::lemma_pow1(r as int);
    }
}

proof fn lemma_horner_split(value: Seq<nat>, r: nat, from: int)
    requires
        0 <= from <= value.len(),
    ensures
        weighted_sum(value, r) == weighted_sum(value.take(from), r) + pow(
            r as int,
            (from + 1) as nat,
        ) * horner(value, r, from),
    decreases value.len() - from,
{
    if from == value.len() {
        assert(value.take(from) =~= value);
    } else {
        lemma_horner_split(value, r, from + 1);
        let head = value.take(from + 1);
        assert(head.drop_last() =~= value.take(from));
        assert(head.last() == value[from]);
        let power = pow(r as int, (from + 1) as nat);
        let next_power = pow(r as int, (from + 2) as nat);
        assert(next_power == r * power) by {
            reveal(pow);
        }
        let rest = horner(value, r, from + 1);
        assert(power * (value[from] + r * rest) == value[from] * power + next_power * rest)
            by (nonlinear_arith)
            requires
                next_power == r * power,
        ;
    }
}

/// The sum of the entries that the vectors of `terms` have at the index `j`.
pub open spec fn column_total(terms: Seq<Seq<nat>>, j: int) -> int
    decreases terms.len(),
{
    if terms.len() == 0 {
        0
    } else {
        column_total(terms.drop_last(), j) + terms.last()[j]
    }
}

/// The sum of all entries that the vectors of `terms` have below the index `j`.
pub open spec fn running_total(terms: Seq<Seq<nat>>, j: int) -> int
    decreases j,
{
    if j <= 0 {
        0
    } else {
        running_total(terms, j - 1) + column_total(terms, j - 1)
    }
}

/// The running sum of the argument over `rows` rows: each row holds what the
/// rows before it add up to, so the first row holds zero.
pub open spec fn running_sum(terms: Seq<Seq<nat>>, rows: nat) -> Seq<nat> {
    Seq::new(rows, |j: int| residue(running_total(terms, j)))
}

/// Whether every vector of `terms` has `rows` entries.
pub open spec fn rectangular(terms: Seq<Seq<nat>>, rows: nat) -> bool {
    forall|k: int| 0 <= k < terms.len() ==> (#[trigger] terms[k]).len() == rows
}

} // verus!
