//! The constraints of the lookup argument, as expressions that must vanish on
//! every row.
use crate::algebra::{denominator, horner, lemma_horner_is_weighted_sum, weighted_sum};
use crate::columns::{Column, CurrOrNext};
use crate::error::LookupError;
use crate::expr::{lemma_eval_is_reduced, Assignment, ChallengeTerm, Expr};
use crate::field::{
    fadd, fmul, lemma_fadd_residue, lemma_fmul_residue, lemma_fsub_residue,
    lemma_residue_add_congruent, lemma_residue_is_reduced, residue, Fe,
};
use crate::mvlookup::{chunk_count, chunk_end, chunk_start, LookupTableID, MVLookup};
use crate::order::{ascending_keys, entries_in_order, lemma_keys_below_ascend};
use crate::{CHUNK_SIZE, MAX_SUPPORTED_DEGREE};
use std::collections::BTreeMap;
use vstd::prelude::*;

verus! {

/// The values of a sequence of expressions.
pub open spec fn evals(s: Seq<Expr>, a: Assignment) -> Seq<nat> {
    s.map_values(|e: Expr| e.eval(a))
}

/// The largest degree among the expressions from the index `from` on, and
/// zero where there is none.
pub open spec fn max_degree(s: Seq<Expr>, from: int) -> nat
    decreases s.len() - from,
{
    if from < 0 || from >= s.len() {
        0
    } else {
        crate::expr::larger(s[from].degree(), max_degree(s, from + 1))
    }
}

impl<ID: LookupTableID> MVLookup<Expr, ID> {
    /// The value of the lookup's denominator.
    pub open spec fn denominator_at(&self, a: Assignment) -> nat {
        denominator(
            a.beta,
            self.table_id.encoding() as nat,
            evals(self.value@, a),
            a.joint_combiner,
        )
    }

    /// Whether the lookup can stand in a constraint: the components of its
    /// value, of which there is at least one, have degree one at most, and one
    /// of them has degree one.
    pub open spec fn supported(&self) -> bool {
        max_degree(self.value@, 0) == 1
    }
}

/// The denominators of a list of lookups.
pub open spec fn denominators_at<ID: LookupTableID>(
    lookups: Seq<MVLookup<Expr, ID>>,
    a: Assignment,
) -> Seq<nat> {
    lookups.map_values(|l: MVLookup<Expr, ID>| l.denominator_at(a))
}

/// The numerators of a list of lookups.
pub open spec fn numerators_at<ID: LookupTableID>(
    lookups: Seq<MVLookup<Expr, ID>>,
    a: Assignment,
) -> Seq<nat> {
    lookups.map_values(|l: MVLookup<Expr, ID>| l.numerator.eval(a))
}

/// Whether every lookup of the list can stand in a constraint.
pub open spec fn all_supported<ID: LookupTableID>(lookups: Seq<MVLookup<Expr, ID>>) -> bool {
    forall|i: int| 0 <= i < lookups.len() ==> (#[trigger] lookups[i]).supported()
}

/// The largest degree among the numerators of the first `upto` lookups.
pub open spec fn numerator_degree<ID: LookupTableID>(
    lookups: Seq<MVLookup<Expr, ID>>,
    upto: int,
) -> nat
    decreases upto,
{
    if upto <= 0 {
        0
    } else {
        crate::expr::larger(
            numerator_degree(lookups, upto - 1),
            lookups[upto - 1].numerator.degree(),
        )
    }
}

/// The degree of the constraint that ties a partial sum to the given lookups:
/// the partial sum times every denominator has one degree more than there are
/// lookups, and a numerator times the denominators of the other lookups has its
/// own degree and one more for each other lookup.
pub open spec fn partial_sum_constraint_degree<ID: LookupTableID>(
    lookups: Seq<MVLookup<Expr, ID>>,
) -> nat {
    let n = lookups.len();
    if n == 0 {
        1
    } else {
        crate::expr::larger(n + 1, (numerator_degree(lookups, n as int) + n - 1) as nat)
    }
}

/// The product of the first `upto` denominators, but for the one with the
/// index `skip`.
pub open spec fn product_except(dens: Seq<nat>, skip: int, upto: int) -> int
    decreases upto,
{
    if upto <= 0 {
        1
    } else if upto - 1 == skip {
        product_except(dens, skip, upto - 1)
    } else {
        product_except(dens, skip, upto - 1) * dens[upto - 1]
    }
}

/// The sum, over the first `upto` lookups, of the numerator times the
/// denominators of all other lookups.
pub open spec fn cross_sum(nums: Seq<nat>, dens: Seq<nat>, upto: int) -> int
    decreases upto,
{
    if upto <= 0 {
        0
    } else {
        cross_sum(nums, dens, upto - 1) + nums[upto - 1] * product_except(
            dens,
            upto - 1,
            dens.len() as int,
        )
    }
}

/// The value of the constraint that ties a partial sum to its lookups: the
/// partial sum times all denominators, less each numerator times the
/// denominators of the other lookups.
pub open spec fn partial_sum_constraint(cell: nat, nums: Seq<nat>, dens: Seq<nat>) -> nat {
    residue(
        cell * product_except(dens, -1, dens.len() as int) - cross_sum(
            nums,
            dens,
            dens.len() as int,
        ),
    )
}

proof fn lemma_horner_step(h: int, r: nat, v: nat)
    ensures
        fadd(fmul(residue(h), residue(r as int)), residue(v as int)) == residue(v + r * h),
{
    lemma_fmul_residue(h, r as int);
    lemma_fadd_residue(h * r, v as int);
    assert(h * r == r * h) by (nonlinear_arith);
}

proof fn lemma_product_step(acc: int, p: int, d: nat)
    ensures
        fmul(residue(acc * p), d) == residue(acc * (p * d)),
{
    lemma_fmul_residue(acc * p, d as int);
    lemma_residue_is_reduced(d as int);
    assert(fmul(residue(acc * p), residue(d as int)) == fmul(residue(acc * p), d)) by {
        vstd::arithmetic::div_mod::lemma_mul_mod_noop_right(
            residue(acc * p) as int,
            d as int,
            crate::field::modulus() as int,
        );
    }
    assert((acc * p) * d == acc * (p * d)) by (nonlinear_arith);
}

/// Builds the denominator of a lookup: the challenge `Beta`, plus the
/// components of the value combined by the powers of the challenge
/// `JointCombiner`, plus the table's encoding.
fn symbolic_denominator<ID: LookupTableID>(lookup: &MVLookup<Expr, ID>) -> (r: Result<
    Expr,
    LookupError,
>)
    ensures
        r is Ok <==> lookup.supported(),
        r matches Err(e) ==> e == LookupError::ConfigurationError,
        r matches Ok(den) ==> den.degree() == 1 && forall|a: Assignment| #[trigger]
            den.eval(a) == lookup.denominator_at(a),
{
    let n = lookup.value.len();
    if n == 0 {
        return Err(LookupError::ConfigurationError);
    }
    let mut acc = lookup.value[n - 1].clone();
    let mut i: usize = n - 1;
    proof {
        reveal_with_fuel(Expr::eval, 4);
        reveal_with_fuel(Expr::degree, 4);
        assert(max_degree(lookup.value@, n as int) == 0);
        assert(max_degree(lookup.value@, n - 1) == lookup.value@[n - 1].degree());
        assert forall|a: Assignment| #[trigger]
            acc.eval(a) == residue(horner(evals(lookup.value@, a), a.joint_combiner, i as int)) by {
            lemma_eval_is_reduced(acc, a);
            assert(horner(evals(lookup.value@, a), a.joint_combiner, i + 1) == 0);
            assert(a.joint_combiner * 0 == 0);
        }
    }
    while i > 0
        invariant
            i < lookup.value@.len(),
            acc.degree() == max_degree(lookup.value@, i as int),
            forall|a: Assignment| #[trigger]
                acc.eval(a) == residue(
                    horner(evals(lookup.value@, a), a.joint_combiner, i as int),
                ),
        decreases i,
    {
        i = i - 1;
        let component = lookup.value[i].clone();
        let scaled = Expr::Mul(
            Box::new(acc),
            Box::new(Expr::Challenge(ChallengeTerm::JointCombiner)),
        );
        let next = Expr::Add(Box::new(scaled), Box::new(component));
        proof {
            reveal_with_fuel(Expr::eval, 4);
            reveal_with_fuel(Expr::degree, 4);
            assert(next.degree() == max_degree(lookup.value@, i as int));
            assert forall|a: Assignment| #[trigger]
                next.eval(a) == residue(
                    horner(evals(lookup.value@, a), a.joint_combiner, i as int),
                ) by {
                let rest = horner(evals(lookup.value@, a), a.joint_combiner, i + 1);
                assert(acc.eval(a) == residue(rest));
                lemma_eval_is_reduced(component, a);
                lemma_horner_step(rest, a.joint_combiner, component.eval(a));
                assert(evals(lookup.value@, a)[i as int] == component.eval(a));
            }
        }
        acc = next;
    }
    let combined = Expr::Mul(
        Box::new(acc),
        Box::new(Expr::Challenge(ChallengeTerm::JointCombiner)),
    );
    if combined.compute_degree() != 1 {
        return Err(LookupError::ConfigurationError);
    }
    let id = lookup.table_id.to_constraint();
    let den = Expr::Add(
        Box::new(Expr::Add(Box::new(Expr::Challenge(ChallengeTerm::Beta)), Box::new(combined))),
        Box::new(id),
    );
    proof {
        reveal_with_fuel(Expr::eval, 4);
        reveal_with_fuel(Expr::degree, 4);
        assert forall|a: Assignment| #[trigger] den.eval(a) == lookup.denominator_at(a) by {
            let values = evals(lookup.value@, a);
            assert(acc.eval(a) == residue(horner(values, a.joint_combiner, 0)));
            lemma_residue_is_reduced(a.beta as int);
            lemma_residue_is_reduced(lookup.table_id.encoding() as int);
            let r = a.joint_combiner;
            let whole = horner(values, r, 0);
            let code = lookup.table_id.encoding() as int;
            lemma_horner_is_weighted_sum(values, r);
            lemma_fmul_residue(whole, r as int);
            assert(whole * r == r * whole) by (nonlinear_arith);
            lemma_fadd_residue(a.beta as int, r * whole);
            lemma_fadd_residue(a.beta + r * whole, code);
            lemma_residue_is_reduced(code + weighted_sum(values, r));
            lemma_residue_add_congruent(
                a.beta as int,
                a.beta as int,
                residue(code + weighted_sum(values, r)) as int,
                code + weighted_sum(values, r),
            );
        }
    }
    Ok(den)
}

/// Builds the constraint that ties the partial sum in `column` to its lookups:
/// the cell of `column`, times the denominators of all lookups, less the sum of
/// each numerator times the denominators of the other lookups.
///
/// Where every denominator has an inverse, the constraint vanishes in a row
/// just if the cell holds the sum of the fractions of the lookups.
///
/// A lookup whose value is not of degree one is refused with
/// `ConfigurationError`.
pub fn combine_lookups<ID: LookupTableID>(column: Column, lookups: Vec<MVLookup<Expr, ID>>) -> (r:
    Result<Expr, LookupError>)
    ensures
        r is Ok <==> all_supported(lookups@),
        r matches Err(e) ==> e == LookupError::ConfigurationError,
        r matches Ok(constraint) ==> forall|a: Assignment| #[trigger]
            constraint.eval(a) == partial_sum_constraint(
                (a.cells)(column, CurrOrNext::Curr),
                numerators_at(lookups@, a),
                denominators_at(lookups@, a),
            ),
        r matches Ok(constraint) ==> constraint.degree() == partial_sum_constraint_degree(
            lookups@,
        ),
{
    let n = lookups.len();
    let mut dens: Vec<Expr> = Vec::new();
    let mut i: usize = 0;
    while i < n
        invariant
            i <= n,
            n == lookups@.len(),
            dens@.len() == i,
            forall|k: int| 0 <= k < i ==> (#[trigger] lookups@[k]).supported(),
            forall|k: int| 0 <= k < i ==> (#[trigger] dens@[k]).degree() == 1,
            forall|k: int, a: Assignment|
                0 <= k < i ==> #[trigger] dens@[k].eval(a) == lookups@[k].denominator_at(a),
        decreases n - i,
    {
        match symbolic_denominator(&lookups[i]) {
            Ok(den) => {
                dens.push(den);
            },
            Err(e) => {
                return Err(e);
            },
        }
        i = i + 1;
    }
    let mut lhs = Expr::curr_cell(column);
    let mut j: usize = 0;
    proof {
        assert forall|a: Assignment| #[trigger]
            lhs.eval(a) == residue(
                (a.cells)(column, CurrOrNext::Curr) * product_except(
                    denominators_at(lookups@, a),
                    -1,
                    0,
                ),
            ) by {
            assert((a.cells)(column, CurrOrNext::Curr) * 1 == (a.cells)(column, CurrOrNext::Curr))
                by (nonlinear_arith);
        }
    }
    while j < n
        invariant
            j <= n,
            n == lookups@.len(),
            dens@.len() == n,
            forall|k: int| 0 <= k < n ==> (#[trigger] dens@[k]).degree() == 1,
            lhs.degree() == 1 + j,
            forall|k: int, a: Assignment|
                0 <= k < n ==> #[trigger] dens@[k].eval(a) == lookups@[k].denominator_at(a),
            forall|a: Assignment| #[trigger]
                lhs.eval(a) == residue(
                    (a.cells)(column, CurrOrNext::Curr) * product_except(
                        denominators_at(lookups@, a),
                        -1,
                        j as int,
                    ),
                ),
        decreases n - j,
    {
        let den = dens[j].clone();
        let next = Expr::Mul(Box::new(lhs), Box::new(den));
        proof {
            reveal_with_fuel(Expr::eval, 2);
            reveal_with_fuel(Expr::degree, 2);
            assert forall|a: Assignment| #[trigger]
                next.eval(a) == residue(
                    (a.cells)(column, CurrOrNext::Curr) * product_except(
                        denominators_at(lookups@, a),
                        -1,
                        j + 1,
                    ),
                ) by {
                let all = denominators_at(lookups@, a);
                assert(dens@[j as int].eval(a) == lookups@[j as int].denominator_at(a));
                assert(all[j as int] == lookups@[j as int].denominator_at(a));
                assert(lhs.eval(a) == residue(
                    (a.cells)(column, CurrOrNext::Curr) * product_except(all, -1, j as int),
                ));
                lemma_product_step(
                    (a.cells)(column, CurrOrNext::Curr) as int,
                    product_except(all, -1, j as int),
                    all[j as int],
                );
            }
        }
        lhs = next;
        j = j + 1;
    }
    let mut rhs = Expr::Literal(Fe::zero());
    let mut i: usize = 0;
    proof {
        assert forall|a: Assignment| #[trigger]
            rhs.eval(a) == residue(
                cross_sum(numerators_at(lookups@, a), denominators_at(lookups@, a), 0),
            ) by {}
    }
    while i < n
        invariant
            i <= n,
            n == lookups@.len(),
            dens@.len() == n,
            forall|k: int| 0 <= k < n ==> (#[trigger] dens@[k]).degree() == 1,
            rhs.degree() == if i == 0 {
                0
            } else {
                numerator_degree(lookups@, i as int) + n - 1
            },
            forall|k: int, a: Assignment|
                0 <= k < n ==> #[trigger] dens@[k].eval(a) == lookups@[k].denominator_at(a),
            forall|a: Assignment| #[trigger]
                rhs.eval(a) == residue(
                    cross_sum(
                        numerators_at(lookups@, a),
                        denominators_at(lookups@, a),
                        i as int,
                    ),
                ),
        decreases n - i,
    {
        let mut term = lookups[i].numerator.clone();
        let mut j: usize = 0;
        proof {
            assert forall|a: Assignment| #[trigger]
                term.eval(a) == residue(
                    numerators_at(lookups@, a)[i as int] * product_except(
                        denominators_at(lookups@, a),
                        i as int,
                        0,
                    ),
                ) by {
                lemma_eval_is_reduced(term, a);
                let num = numerators_at(lookups@, a)[i as int];
                assert(num == term.eval(a));
                assert(num * 1 == num) by (nonlinear_arith);
            }
        }
        while j < n
            invariant
                j <= n,
                i < n,
                n == lookups@.len(),
                dens@.len() == n,
                forall|k: int| 0 <= k < n ==> (#[trigger] dens@[k]).degree() == 1,
                term.degree() == lookups@[i as int].numerator.degree() + j - if i < j {
                    1int
                } else {
                    0int
                },
                forall|k: int, a: Assignment|
                    0 <= k < n ==> #[trigger] dens@[k].eval(a) == lookups@[k].denominator_at(a),
                forall|a: Assignment| #[trigger]
                    term.eval(a) == residue(
                        numerators_at(lookups@, a)[i as int] * product_except(
                            denominators_at(lookups@, a),
                            i as int,
                            j as int,
                        ),
                    ),
            decreases n - j,
        {
            if i != j {
                let den = dens[j].clone();
                let next = Expr::Mul(Box::new(term), Box::new(den));
                proof {
                    reveal_with_fuel(Expr::eval, 2);
                    reveal_with_fuel(Expr::degree, 2);
                    assert forall|a: Assignment| #[trigger]
                        next.eval(a) == residue(
                            numerators_at(lookups@, a)[i as int] * product_except(
                                denominators_at(lookups@, a),
                                i as int,
                                j + 1,
                            ),
                        ) by {
                        let all = denominators_at(lookups@, a);
                        assert(dens@[j as int].eval(a) == lookups@[j as int].denominator_at(a));
                        assert(all[j as int] == lookups@[j as int].denominator_at(a));
                        assert(term.eval(a) == residue(
                            numerators_at(lookups@, a)[i as int] * product_except(
                                all,
                                i as int,
                                j as int,
                            ),
                        ));
                        lemma_product_step(
                            numerators_at(lookups@, a)[i as int] as int,
                            product_except(all, i as int, j as int),
                            all[j as int],
                        );
                    }
                }
                term = next;
            }
            j = j + 1;
        }
        let next = Expr::Add(Box::new(rhs), Box::new(term));
        proof {
            reveal_with_fuel(Expr::degree, 2);
            assert forall|a: Assignment| #[trigger]
                next.eval(a) == residue(
                    cross_sum(
                        numerators_at(lookups@, a),
                        denominators_at(lookups@, a),
                        i + 1,
                    ),
                ) by {
                let nums = numerators_at(lookups@, a);
                let all = denominators_at(lookups@, a);
                assert(rhs.eval(a) == residue(cross_sum(nums, all, i as int)));
                assert(term.eval(a) == residue(
                    nums[i as int] * product_except(all, i as int, n as int),
                ));
                lemma_fadd_residue(
                    cross_sum(nums, all, i as int),
                    nums[i as int] * product_except(all, i as int, n as int),
                );
            }
        }
        rhs = next;
        i = i + 1;
    }
    let constraint = Expr::Sub(Box::new(lhs), Box::new(rhs));
    proof {
        reveal_with_fuel(Expr::degree, 2);
        assert forall|a: Assignment| #[trigger]
            constraint.eval(a) == partial_sum_constraint(
                (a.cells)(column, CurrOrNext::Curr),
                numerators_at(lookups@, a),
                denominators_at(lookups@, a),
            ) by {
            let nums = numerators_at(lookups@, a);
            let all = denominators_at(lookups@, a);
            assert(lhs.eval(a) == residue(
                (a.cells)(column, CurrOrNext::Curr) * product_except(all, -1, n as int),
            ));
            assert(rhs.eval(a) == residue(cross_sum(nums, all, n as int)));
            lemma_fsub_residue(
                (a.cells)(column, CurrOrNext::Curr) * product_except(all, -1, n as int),
                cross_sum(nums, all, n as int),
            );
        }
    }
    Ok(constraint)
}

/// The numerators of the terms of a table: those of its lookups, and last the
/// table's multiplicity.
pub open spec fn table_numerators<ID: LookupTableID>(
    lookups: Seq<MVLookup<Expr, ID>>,
    key: u32,
    a: Assignment,
) -> Seq<nat> {
    numerators_at(lookups, a).push(
        residue((a.cells)(Column::LookupMultiplicity(key), CurrOrNext::Curr) as int),
    )
}

/// The denominators of the terms of a table: those of its lookups, and last
/// that of the table's own value.
pub open spec fn table_denominators<ID: LookupTableID>(
    lookups: Seq<MVLookup<Expr, ID>>,
    key: u32,
    a: Assignment,
) -> Seq<nat> {
    denominators_at(lookups, a).push(
        denominator(
            a.beta,
            key as nat,
            seq![residue((a.cells)(Column::LookupFixedTable(key), CurrOrNext::Curr) as int)],
            a.joint_combiner,
        ),
    )
}

/// The values of the constraints of one table, one for each chunk of its
/// terms, where the partial sum of the first chunk is the one with the index
/// `offset`.
pub open spec fn table_constraints<ID: LookupTableID>(
    lookups: Seq<MVLookup<Expr, ID>>,
    key: u32,
    offset: nat,
    a: Assignment,
) -> Seq<nat> {
    let nums = table_numerators(lookups, key, a);
    let dens = table_denominators(lookups, key, a);
    let terms = lookups.len() as int + 1;
    Seq::new(
        chunk_count(terms as nat),
        |c: int|
            partial_sum_constraint(
                (a.cells)(Column::LookupPartialSum((offset + c) as usize), CurrOrNext::Curr),
                nums.subrange(chunk_start(c), chunk_end(c, terms)),
                dens.subrange(chunk_start(c), chunk_end(c, terms)),
            ),
    )
}

/// The number of partial sums that the tables with the given keys take.
pub open spec fn partial_sum_count<ID: LookupTableID>(
    keys: Seq<u32>,
    tables: Map<u32, Vec<MVLookup<Expr, ID>>>,
) -> nat
    decreases keys.len(),
{
    if keys.len() == 0 {
        0
    } else {
        partial_sum_count(keys.drop_last(), tables) + chunk_count(
            (tables[keys.last()]@.len() + 1) as nat,
        )
    }
}

/// The values of the constraints of the tables with the given keys, table
/// after table.
pub open spec fn partial_sum_constraints<ID: LookupTableID>(
    keys: Seq<u32>,
    tables: Map<u32, Vec<MVLookup<Expr, ID>>>,
    a: Assignment,
) -> Seq<nat>
    decreases keys.len(),
{
    if keys.len() == 0 {
        Seq::empty()
    } else {
        partial_sum_constraints(keys.drop_last(), tables, a) + table_constraints(
            tables[keys.last()]@,
            keys.last(),
            partial_sum_count(keys.drop_last(), tables),
            a,
        )
    }
}

/// The sum of the first `count` partial sums in the row under consideration.
pub open spec fn partial_sum_total(count: int, a: Assignment) -> int
    decreases count,
{
    if count <= 0 {
        0
    } else {
        partial_sum_total(count - 1, a) + (a.cells)(
            Column::LookupPartialSum((count - 1) as usize),
            CurrOrNext::Curr,
        )
    }
}

/// The value of the constraint on the running sum: its value in the next row,
/// less its value in this row, less all partial sums of this row.
pub open spec fn aggregation_constraint(count: nat, a: Assignment) -> nat {
    residue(
        (a.cells)(Column::LookupAggregation, CurrOrNext::Next) - (a.cells)(
            Column::LookupAggregation,
            CurrOrNext::Curr,
        ) - partial_sum_total(count as int, a),
    )
}

/// The values of all constraints of the lookup argument: for each table, in
/// ascending order of the keys, one for each chunk of its terms, and last the
/// one on the running sum.
pub open spec fn lookup_constraints<ID: LookupTableID>(
    tables: Map<u32, Vec<MVLookup<Expr, ID>>>,
    a: Assignment,
) -> Seq<nat> {
    let keys = ascending_keys(tables.dom());
    partial_sum_constraints(keys, tables, a).push(
        aggregation_constraint(partial_sum_count(keys, tables), a),
    )
}

/// Whether every lookup of every table can stand in a constraint.
pub open spec fn all_tables_supported<ID: LookupTableID>(
    tables: Map<u32, Vec<MVLookup<Expr, ID>>>,
) -> bool {
    forall|key: u32, i: int|
        tables.contains_key(key) && 0 <= i < tables[key]@.len() ==> (
        #[trigger] tables[key]@[i]).supported()
}

/// Whether no numerator of the lookups has a degree above `bound`.
pub open spec fn numerators_within<ID: LookupTableID>(
    lookups: Seq<MVLookup<Expr, ID>>,
    bound: nat,
) -> bool {
    forall|i: int| 0 <= i < lookups.len() ==> (#[trigger] lookups[i]).numerator.degree() <= bound
}

/// Whether no numerator of a lookup of any table has a degree above `bound`.
pub open spec fn all_numerators_within<ID: LookupTableID>(
    tables: Map<u32, Vec<MVLookup<Expr, ID>>>,
    bound: nat,
) -> bool {
    forall|key: u32|
        tables.contains_key(key) ==> numerators_within((#[trigger] tables[key])@, bound)
}

/// The highest degree that the numerator of a lookup may have, for the
/// constraints to stay within the highest supported degree.
pub const MAX_NUMERATOR_DEGREE: usize = 3;

proof fn lemma_numerator_degree<ID: LookupTableID>(
    lookups: Seq<MVLookup<Expr, ID>>,
    upto: int,
    bound: nat,
)
    requires
        numerators_within(lookups, bound),
        0 <= upto <= lookups.len(),
    ensures
        numerator_degree(lookups, upto) <= bound,
    decreases upto,
{
    if upto > 0 {
        lemma_numerator_degree(lookups, upto - 1, bound);
        assert(lookups[upto - 1].numerator.degree() <= bound);
    }
}

fn copy_lookup<ID: LookupTableID>(lookup: &MVLookup<Expr, ID>) -> (r: MVLookup<Expr, ID>)
    ensures
        r.table_id == lookup.table_id,
        r.numerator == lookup.numerator,
        r.value@ == lookup.value@,
{
    let mut value: Vec<Expr> = Vec::new();
    let mut i: usize = 0;
    while i < lookup.value.len()
        invariant
            i <= lookup.value@.len(),
            value@ == lookup.value@.take(i as int),
        decreases lookup.value@.len() - i,
    {
        value.push(lookup.value[i].clone());
        assert(value@ =~= lookup.value@.take(i + 1));
        i = i + 1;
    }
    assert(lookup.value@.take(i as int) =~= lookup.value@);
    MVLookup { table_id: lookup.table_id, numerator: lookup.numerator.clone(), value }
}

/// The terms of one chunk of a table: the lookups of the chunk, and in the last
/// chunk the term of the table itself.
fn table_chunk<ID: LookupTableID>(
    lookups: &Vec<MVLookup<Expr, ID>>,
    key: u32,
    id: ID,
    c: usize,
) -> (chunk: Vec<MVLookup<Expr, ID>>)
    requires
        id.encoding() == key,
        c < chunk_count((lookups@.len() + 1) as nat),
    ensures
        forall|a: Assignment| #[trigger]
            numerators_at(chunk@, a) == table_numerators(lookups@, key, a).subrange(
                chunk_start(c as int),
                chunk_end(c as int, lookups@.len() as int + 1),
            ),
        forall|a: Assignment| #[trigger]
            denominators_at(chunk@, a) == table_denominators(lookups@, key, a).subrange(
                chunk_start(c as int),
                chunk_end(c as int, lookups@.len() as int + 1),
            ),
        all_supported(chunk@) <==> forall|p: int|
            chunk_start(c as int) <= p < chunk_end(c as int, lookups@.len() as int + 1) && p
                < lookups@.len() ==> (#[trigger] lookups@[p]).supported(),
        0 < chunk@.len() <= CHUNK_SIZE,
        forall|bound: nat|
            1 <= bound && numerators_within(lookups@, bound) ==> #[trigger] numerators_within(
                chunk@,
                bound,
            ),
{
    let n = lookups.len();
    let lo = c * CHUNK_SIZE;
    let ghost hi = chunk_end(c as int, n + 1);
    let mut chunk: Vec<MVLookup<Expr, ID>> = Vec::new();
    let mut p: usize = lo;
    while p < n && p - lo < CHUNK_SIZE
        invariant
            lo <= p <= n,
            p - lo <= CHUNK_SIZE,
            p <= hi,
            n == lookups@.len(),
            lo == chunk_start(c as int),
            hi == chunk_end(c as int, n + 1),
            chunk@.len() == p - lo,
            forall|k: int|
                0 <= k < chunk@.len() ==> {
                    &&& (#[trigger] chunk@[k]).table_id == lookups@[lo + k].table_id
                    &&& chunk@[k].numerator == lookups@[lo + k].numerator
                    &&& chunk@[k].value@ == lookups@[lo + k].value@
                },
        decreases n - p,
    {
        chunk.push(copy_lookup(&lookups[p]));
        p = p + 1;
    }
    let ghost copied = chunk@;
    if p - lo < CHUNK_SIZE {
        let mut value: Vec<Expr> = Vec::new();
        value.push(Expr::curr_cell(Column::LookupFixedTable(key)));
        chunk.push(
            MVLookup {
                table_id: id,
                numerator: Expr::curr_cell(Column::LookupMultiplicity(key)),
                value,
            },
        );
    }
    proof {
        reveal_with_fuel(Expr::eval, 2);
        reveal_with_fuel(Expr::degree, 2);
        reveal_with_fuel(max_degree, 3);
        assert(chunk@.len() == hi - lo);
        assert forall|a: Assignment| #[trigger]
            numerators_at(chunk@, a) =~= table_numerators(lookups@, key, a).subrange(
                lo as int,
                hi,
            ) by {
            assert forall|k: int| 0 <= k < chunk@.len() implies numerators_at(chunk@, a)[k]
                == table_numerators(lookups@, key, a)[lo + k] by {
                if lo + k < n {
                    assert(chunk@[k] == copied[k]);
                    assert(numerators_at(lookups@, a)[lo + k] == lookups@[lo
                        + k].numerator.eval(a));
                }
            }
        }
        assert forall|a: Assignment| #[trigger]
            denominators_at(chunk@, a) =~= table_denominators(lookups@, key, a).subrange(
                lo as int,
                hi,
            ) by {
            assert forall|k: int| 0 <= k < chunk@.len() implies denominators_at(chunk@, a)[k]
                == table_denominators(lookups@, key, a)[lo + k] by {
                if lo + k < n {
                    assert(chunk@[k] == copied[k]);
                    assert(denominators_at(lookups@, a)[lo + k] == lookups@[lo
                        + k].denominator_at(a));
                } else {
                    assert(evals(chunk@[k].value@, a) =~= seq![
                        residue(
                            (a.cells)(Column::LookupFixedTable(key), CurrOrNext::Curr) as int,
                        ),
                    ]);
                }
            }
        }
        if all_supported(chunk@) {
            assert forall|q: int| lo <= q < hi && q < n implies (
            #[trigger] lookups@[q]).supported() by {
                assert(chunk@[q - lo].supported());
                assert(chunk@[q - lo] == copied[q - lo]);
            }
        }
        assert forall|bound: nat|
            1 <= bound && numerators_within(lookups@, bound) implies #[trigger] numerators_within(
            chunk@,
            bound,
        ) by {
            assert forall|k: int| 0 <= k < chunk@.len() implies (
            #[trigger] chunk@[k]).numerator.degree() <= bound by {
                if lo + k < n {
                    assert(chunk@[k] == copied[k]);
                    assert(lookups@[lo + k].numerator.degree() <= bound);
                }
            }
        }
        if forall|q: int| lo <= q < hi && q < n ==> (#[trigger] lookups@[q]).supported() {
            assert forall|k: int| 0 <= k < chunk@.len() implies (
            #[trigger] chunk@[k]).supported() by {
                if lo + k < n {
                    assert(chunk@[k] == copied[k]);
                    assert(lookups@[lo + k].supported());
                }
            }
        }
    }
    chunk
}

/// Builds the constraint on the running sum: its cell in the next row, less
/// its cell in this row, less the cells of the first `count` partial sums.
fn aggregation_expr(count: usize) -> (r: Expr)
    ensures
        forall|a: Assignment| #[trigger] r.eval(a) == aggregation_constraint(count as nat, a),
        r.degree() == 1,
{
    let mut constraint = Expr::Sub(
        Box::new(Expr::next_cell(Column::LookupAggregation)),
        Box::new(Expr::curr_cell(Column::LookupAggregation)),
    );
    let mut i: usize = 0;
    proof {
        reveal_with_fuel(Expr::eval, 3);
        reveal_with_fuel(Expr::degree, 3);
        assert forall|a: Assignment| #[trigger]
            constraint.eval(a) == residue(
                (a.cells)(Column::LookupAggregation, CurrOrNext::Next) - (a.cells)(
                    Column::LookupAggregation,
                    CurrOrNext::Curr,
                ) - partial_sum_total(0, a),
            ) by {
            lemma_fsub_residue(
                (a.cells)(Column::LookupAggregation, CurrOrNext::Next) as int,
                (a.cells)(Column::LookupAggregation, CurrOrNext::Curr) as int,
            );
        }
    }
    while i < count
        invariant
            i <= count,
            constraint.degree() == 1,
            forall|a: Assignment| #[trigger]
                constraint.eval(a) == residue(
                    (a.cells)(Column::LookupAggregation, CurrOrNext::Next) - (a.cells)(
                        Column::LookupAggregation,
                        CurrOrNext::Curr,
                    ) - partial_sum_total(i as int, a),
                ),
        decreases count - i,
    {
        let next = Expr::Sub(
            Box::new(constraint),
            Box::new(Expr::curr_cell(Column::LookupPartialSum(i))),
        );
        proof {
            reveal_with_fuel(Expr::eval, 3);
            reveal_with_fuel(Expr::degree, 3);
            assert forall|a: Assignment| #[trigger]
                next.eval(a) == residue(
                    (a.cells)(Column::LookupAggregation, CurrOrNext::Next) - (a.cells)(
                        Column::LookupAggregation,
                        CurrOrNext::Curr,
                    ) - partial_sum_total(i + 1, a),
                ) by {
                let sofar = (a.cells)(Column::LookupAggregation, CurrOrNext::Next) - (a.cells)(
                    Column::LookupAggregation,
                    CurrOrNext::Curr,
                ) - partial_sum_total(i as int, a);
                assert(constraint.eval(a) == residue(sofar));
                lemma_fsub_residue(
                    sofar,
                    (a.cells)(Column::LookupPartialSum(i), CurrOrNext::Curr) as int,
                );
            }
        }
        constraint = next;
        i = i + 1;
    }
    constraint
}

/// Appends the constraints of one table: one for each chunk of its terms, each
/// tied to the next partial sum that is free.
fn push_table_constraints<ID: LookupTableID>(
    lookups: &Vec<MVLookup<Expr, ID>>,
    key: u32,
    id: ID,
    constraints: &mut Vec<Expr>,
) -> (r: Result<(), LookupError>)
    requires
        id.encoding() == key,
    ensures
        r is Ok <==> all_supported(lookups@),
        r matches Err(e) ==> e == LookupError::ConfigurationError,
        r is Ok ==> {
            &&& final(constraints)@.len() == old(constraints)@.len() + chunk_count(
                (lookups@.len() + 1) as nat,
            )
            &&& forall|a: Assignment| #[trigger]
                evals(final(constraints)@, a) == evals(old(constraints)@, a) + table_constraints(
                    lookups@,
                    key,
                    old(constraints)@.len(),
                    a,
                )
            &&& forall|k: int|
                0 <= k < old(constraints)@.len() ==> final(constraints)@[k] == old(constraints)@[k]
            &&& numerators_within(lookups@, MAX_NUMERATOR_DEGREE as nat) ==> forall|k: int|
                old(constraints)@.len() <= k < final(constraints)@.len() ==> (
                #[trigger] final(constraints)@[k]).degree() <= MAX_SUPPORTED_DEGREE
        },
{
    let n = lookups.len();
    let chunks = n / CHUNK_SIZE + 1;
    let ghost before = constraints@;
    let mut c: usize = 0;
    proof {
        assert forall|a: Assignment| #[trigger]
            evals(constraints@, a) == evals(before, a) + table_constraints(
                lookups@,
                key,
                before.len(),
                a,
            ).take(0) by {
            assert(evals(before, a) + table_constraints(lookups@, key, before.len(), a).take(0)
                =~= evals(before, a));
        }
    }
    while c < chunks
        invariant
            c <= chunks,
            n == lookups@.len(),
            chunks == chunk_count((n + 1) as nat),
            id.encoding() == key,
            before == old(constraints)@,
            constraints@.len() == before.len() + c,
            forall|k: int| 0 <= k < before.len() ==> constraints@[k] == before[k],
            numerators_within(lookups@, MAX_NUMERATOR_DEGREE as nat) ==> forall|k: int|
                before.len() <= k < constraints@.len() ==> (#[trigger] constraints@[k]).degree()
                    <= MAX_SUPPORTED_DEGREE,
            forall|p: int|
                0 <= p < chunk_start(c as int) && p < n ==> (#[trigger] lookups@[p]).supported(),
            forall|a: Assignment| #[trigger]
                evals(constraints@, a) == evals(before, a) + table_constraints(
                    lookups@,
                    key,
                    before.len(),
                    a,
                ).take(c as int),
        decreases chunks - c,
    {
        let chunk = table_chunk(lookups, key, id, c);
        let column = Column::LookupPartialSum(constraints.len());
        let ghost sofar = constraints@;
        match combine_lookups(column, chunk) {
            Ok(constraint) => {
                constraints.push(constraint);
                proof {
                    if numerators_within(lookups@, MAX_NUMERATOR_DEGREE as nat) {
                        assert(numerators_within(chunk@, MAX_NUMERATOR_DEGREE as nat));
                        lemma_numerator_degree(
                            chunk@,
                            chunk@.len() as int,
                            MAX_NUMERATOR_DEGREE as nat,
                        );
                        assert(constraint.degree() <= MAX_SUPPORTED_DEGREE);
                    }
                    assert forall|a: Assignment| #[trigger]
                        evals(constraints@, a) == evals(before, a) + table_constraints(
                            lookups@,
                            key,
                            before.len(),
                            a,
                        ).take(c + 1) by {
                        let all = table_constraints(lookups@, key, before.len(), a);
                        assert(evals(sofar, a) == evals(before, a) + all.take(c as int));
                        assert(numerators_at(chunk@, a) == table_numerators(
                            lookups@,
                            key,
                            a,
                        ).subrange(chunk_start(c as int), chunk_end(c as int, n + 1)));
                        assert(denominators_at(chunk@, a) == table_denominators(
                            lookups@,
                            key,
                            a,
                        ).subrange(chunk_start(c as int), chunk_end(c as int, n + 1)));
                        assert(constraint.eval(a) == all[c as int]);
                        assert(evals(constraints@, a) =~= evals(sofar, a).push(constraint.eval(a)));
                        assert(all.take(c + 1) =~= all.take(c as int).push(all[c as int]));
                        assert(evals(constraints@, a) =~= evals(before, a) + all.take(c + 1));
                    }
                    assert forall|p: int| 0 <= p < chunk_start(c + 1) && p < n implies (
                    #[trigger] lookups@[p]).supported() by {
                        if p >= chunk_start(c as int) {
                            assert(chunk_start(c as int) <= p < chunk_end(c as int, n + 1));
                        }
                    }
                }
            },
            Err(e) => {
                return Err(e);
            },
        }
        c = c + 1;
    }
    proof {
        assert forall|a: Assignment| #[trigger]
            evals(constraints@, a) == evals(before, a) + table_constraints(
                lookups@,
                key,
                before.len(),
                a,
            ) by {
            let all = table_constraints(lookups@, key, before.len(), a);
            assert(all.take(chunks as int) =~= all);
        }
    }
    Ok(())
}

/// Whether every key of the map stands for a table.
pub open spec fn all_keys_are_tables<ID: LookupTableID>(
    tables: Map<u32, Vec<MVLookup<Expr, ID>>>,
) -> bool {
    forall|key: u32| tables.contains_key(key) ==> ID::is_encoding(key)
}

/// Builds the constraints of the lookup argument from the lookups into each
/// table, which are keyed by the table's integer encoding.
///
/// To the lookups of each table, the term of the table itself is added: its
/// numerator is the multiplicity, its value the fixed table's value. The terms
/// are split into chunks, and each chunk is tied to a partial sum of its own;
/// the partial sums are numbered through all tables, in ascending order of the
/// keys. The last constraint ties the running sum to the partial sums.
///
/// A key that stands for no table is refused with `IndexError`. Where all keys
/// stand for tables, a lookup whose value is not of degree one is refused with
/// `ConfigurationError`.
pub fn constraint_lookups<ID: LookupTableID>(
    lookups_map: &BTreeMap<u32, Vec<MVLookup<Expr, ID>>>,
) -> (r: Result<Vec<Expr>, LookupError>)
    ensures
        r is Ok <==> all_keys_are_tables(lookups_map@) && all_tables_supported(lookups_map@),
        r matches Err(e) ==> e == if all_keys_are_tables(lookups_map@) {
            LookupError::ConfigurationError
        } else {
            LookupError::IndexError
        },
        r matches Ok(constraints) ==> forall|a: Assignment| #[trigger]
            evals(constraints@, a) == lookup_constraints(lookups_map@, a),
        r matches Ok(constraints) ==> (all_numerators_within(
            lookups_map@,
            MAX_NUMERATOR_DEGREE as nat,
        ) ==> forall|k: int|
            0 <= k < constraints@.len() ==> (#[trigger] constraints@[k]).degree()
                <= MAX_SUPPORTED_DEGREE),
{
    let entries = entries_in_order(lookups_map);
    let ghost tables = lookups_map@;
    let ghost keys = ascending_keys(tables.dom());
    proof {
        lemma_keys_below_ascend(tables.dom(), 0x1_0000_0000);
    }
    let mut ids: Vec<ID> = Vec::new();
    let mut t: usize = 0;
    while t < entries.len()
        invariant
            t <= entries@.len(),
            tables == lookups_map@,
            keys == ascending_keys(tables.dom()),
            entries@.len() == keys.len(),
            forall|i: int|
                0 <= i < entries@.len() ==> {
                    &&& (#[trigger] entries@[i]).0 == keys[i]
                    &&& tables.contains_key(entries@[i].0)
                },
            ids@.len() == t,
            forall|i: int| 0 <= i < t ==> (#[trigger] ids@[i]).encoding() == keys[i],
            forall|i: int| 0 <= i < t ==> ID::is_encoding(#[trigger] keys[i]),
        decreases entries@.len() - t,
    {
        match ID::from_u32(entries[t].0) {
            Some(id) => {
                ids.push(id);
            },
            None => {
                assert(tables.contains_key(keys[t as int]) && !ID::is_encoding(keys[t as int]));
                return Err(LookupError::IndexError);
            },
        }
        t = t + 1;
    }
    proof {
        assert forall|key: u32| tables.contains_key(key) implies ID::is_encoding(key) by {
            assert(keys.contains(key));
            let i = choose|i: int| 0 <= i < keys.len() && keys[i] == key;
            assert(ID::is_encoding(keys[i]));
        }
    }
    let mut constraints: Vec<Expr> = Vec::new();
    let mut t: usize = 0;
    proof {
        assert(keys.take(0) =~= Seq::<u32>::empty());
        assert forall|a: Assignment| #[trigger]
            evals(constraints@, a) == partial_sum_constraints(keys.take(0), tables, a) by {
            assert(evals(constraints@, a) =~= Seq::<nat>::empty());
        }
    }
    while t < entries.len()
        invariant
            t <= entries@.len(),
            tables == lookups_map@,
            keys == ascending_keys(tables.dom()),
            entries@.len() == keys.len(),
            ids@.len() == keys.len(),
            all_keys_are_tables(tables),
            forall|i: int| 0 <= i < ids@.len() ==> (#[trigger] ids@[i]).encoding() == keys[i],
            forall|i: int|
                0 <= i < entries@.len() ==> {
                    &&& (#[trigger] entries@[i]).0 == keys[i]
                    &&& tables.contains_key(entries@[i].0)
                    &&& *entries@[i].1 == tables[entries@[i].0]
                },
            constraints@.len() == partial_sum_count(keys.take(t as int), tables),
            forall|tt: int| 0 <= tt < t ==> all_supported(tables[#[trigger] keys[tt]]@),
            all_numerators_within(tables, MAX_NUMERATOR_DEGREE as nat) ==> forall|k: int|
                0 <= k < constraints@.len() ==> (#[trigger] constraints@[k]).degree()
                    <= MAX_SUPPORTED_DEGREE,
            forall|a: Assignment| #[trigger]
                evals(constraints@, a) == partial_sum_constraints(keys.take(t as int), tables, a),
        decreases entries@.len() - t,
    {
        let key = entries[t].0;
        let lookups = entries[t].1;
        let id = ids[t];
        let ghost sofar = constraints@;
        match push_table_constraints(lookups, key, id, &mut constraints) {
            Ok(()) => {},
            Err(e) => {
                proof {
                    let i = choose|i: int|
                        0 <= i < lookups@.len() && !(#[trigger] lookups@[i]).supported();
                    assert(tables.contains_key(key) && !tables[key]@[i].supported());
                }
                return Err(e);
            },
        }
        proof {
            let head = keys.take(t + 1);
            assert(head.drop_last() =~= keys.take(t as int));
            assert(head.last() == keys[t as int]);
            assert forall|a: Assignment| #[trigger]
                evals(constraints@, a) == partial_sum_constraints(head, tables, a) by {
                assert(evals(sofar, a) == partial_sum_constraints(keys.take(t as int), tables, a));
            }
            if all_numerators_within(tables, MAX_NUMERATOR_DEGREE as nat) {
                assert(numerators_within(tables[key]@, MAX_NUMERATOR_DEGREE as nat));
                assert forall|k: int| 0 <= k < constraints@.len() implies (
                #[trigger] constraints@[k]).degree() <= MAX_SUPPORTED_DEGREE by {
                    if k < sofar.len() {
                        assert(constraints@[k] == sofar[k]);
                    }
                }
            }
        }
        t = t + 1;
    }
    let count = constraints.len();
    let ghost sums = constraints@;
    constraints.push(aggregation_expr(count));
    proof {
        assert(keys.take(keys.len() as int) =~= keys);
        assert forall|key: u32, i: int|
            tables.contains_key(key) && 0 <= i < tables[key]@.len() implies (
        #[trigger] tables[key]@[i]).supported() by {
            assert(keys.contains(key));
            let tt = choose|tt: int| 0 <= tt < keys.len() && keys[tt] == key;
            assert(all_supported(tables[keys[tt]]@));
        }
        assert forall|a: Assignment| #[trigger]
            evals(constraints@, a) == lookup_constraints(tables, a) by {
            assert(evals(sums, a) == partial_sum_constraints(keys, tables, a));
            assert(evals(constraints@, a) =~= evals(sums, a).push(
                aggregation_constraint(count as nat, a),
            ));
        }
    }
    Ok(constraints)
}

} // verus!
