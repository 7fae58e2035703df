//! From a witness and the two challenges to the partial sums and the running
//! sum.
use crate::algebra::{column_total, rectangular, running_sum, running_total};
use crate::error::LookupError;
use crate::field::{
    batch_inversion, finv, lemma_fadd_residue, lemma_residue_of_reduced, residue, values, Fe,
};
use crate::mvlookup::{chunk_count, chunk_end, chunk_start, LookupTableID, MVLookupWitness};
use crate::poly::rows_values;
use crate::CHUNK_SIZE;
use vstd::arithmetic::div_mod::{lemma_fundamental_div_mod, lemma_fundamental_div_mod_converse};
use vstd::prelude::*;

verus! {

/// The place of the term of column `i` and row `j` among all terms of a
/// witness with `n` columns, row after row.
pub open spec fn flat_index(i: int, j: int, n: int) -> int {
    j * n + i
}

proof fn lemma_flat_index(i: int, j: int, n: int, d: int)
    requires
        0 <= i < n,
        0 <= j < d,
    ensures
        0 <= flat_index(i, j, n) < d * n,
        flat_index(i, j, n) % n == i,
        flat_index(i, j, n) / n == j,
{
    lemma_fundamental_div_mod_converse(j * n + i, n, j, i);
    assert(j * n + i < d * n) by (nonlinear_arith)
        requires
            0 <= i < n,
            0 <= j < d,
    ;
    assert(0 <= j * n) by (nonlinear_arith)
        requires
            0 <= j,
            0 < n,
    ;
}

proof fn lemma_unflatten(k: int, n: int, d: int)
    requires
        0 < n,
        0 <= k < d * n,
    ensures
        0 <= k % n < n,
        0 <= k / n < d,
        k == flat_index(k % n, k / n, n),
{
    lemma_fundamental_div_mod(k, n);
    let q = k / n;
    assert(q < d) by (nonlinear_arith)
        requires
            n * q + k % n == k,
            0 <= k % n,
            k < d * n,
            0 < n,
    ;
    assert(0 <= q) by (nonlinear_arith)
        requires
            n * q + k % n == k,
            k % n < n,
            0 <= k,
            0 < n,
    ;
    assert(n * q == q * n) by (nonlinear_arith);
}

impl<ID: LookupTableID> MVLookupWitness<Fe, ID> {
    /// The denominator of the term at the place `k` among all terms, row after
    /// row.
    pub open spec fn flat_denominator(&self, k: int, r: nat, beta: nat) -> nat {
        let n = self.f@.len() as int;
        self.term(k % n, k / n).denominator(r, beta)
    }

    /// The inverses of the denominators of all terms, row after row, unless one
    /// of the denominators is zero.
    fn inverse_denominators(&self, domain_size: usize, joint_combiner: &Fe, beta: &Fe) -> (r:
        Option<Vec<Fe>>)
        requires
            self.shaped(domain_size as nat),
        ensures
            r is None <==> self.has_zero_denominator(domain_size as nat, joint_combiner@, beta@),
            r matches Some(inv) ==> {
                &&& inv@.len() == domain_size * self.f@.len()
                &&& forall|k: int|
                    0 <= k < inv@.len() ==> (#[trigger] inv@[k])@ == finv(
                        self.flat_denominator(k, joint_combiner@, beta@),
                    )
            },
    {
        let n = self.f.len();
        let ghost d = domain_size as int;
        let ghost rr = joint_combiner@;
        let ghost bb = beta@;
        let mut dens: Vec<Fe> = Vec::new();
        let mut zero = false;
        let mut j: usize = 0;
        while j < domain_size
            invariant
                j <= domain_size,
                d == domain_size,
                n == self.f@.len(),
                rr == joint_combiner@,
                bb == beta@,
                self.shaped(domain_size as nat),
                dens@.len() == j * n,
                forall|k: int|
                    0 <= k < dens@.len() ==> (#[trigger] dens@[k])@ == self.flat_denominator(
                        k,
                        rr,
                        bb,
                    ),
                zero <==> exists|k: int|
                    0 <= k < dens@.len() && #[trigger] self.flat_denominator(k, rr, bb) == 0,
            decreases domain_size - j,
        {
            let mut i: usize = 0;
            while i < n
                invariant
                    i <= n,
                    j < domain_size,
                    d == domain_size,
                    n == self.f@.len(),
                    rr == joint_combiner@,
                    bb == beta@,
                    self.shaped(domain_size as nat),
                    dens@.len() == j * n + i,
                    forall|k: int|
                        0 <= k < dens@.len() ==> (#[trigger] dens@[k])@ == self.flat_denominator(
                            k,
                            rr,
                            bb,
                        ),
                    zero <==> exists|k: int|
                        0 <= k < dens@.len() && #[trigger] self.flat_denominator(k, rr, bb) == 0,
                decreases n - i,
            {
                let term = &self.f[i][j];
                let combined = term.combine(joint_combiner);
                let den = beta.add(&combined);
                proof {
                    lemma_flat_index(i as int, j as int, n as int, d);
                    assert(self.term(i as int, j as int) == *term);
                    assert(den@ == self.flat_denominator(dens@.len() as int, rr, bb));
                }
                let ghost before = dens@;
                let ghost was_zero = zero;
                if den.is_zero() {
                    zero = true;
                }
                dens.push(den);
                proof {
                    let k0 = before.len() as int;
                    assert(dens@ == before.push(den));
                    if zero {
                        if was_zero {
                            let k = choose|k: int|
                                0 <= k < before.len() && #[trigger] self.flat_denominator(
                                    k,
                                    rr,
                                    bb,
                                ) == 0;
                            assert(0 <= k < dens@.len() && self.flat_denominator(k, rr, bb) == 0);
                        } else {
                            assert(0 <= k0 < dens@.len() && self.flat_denominator(k0, rr, bb)
                                == 0);
                        }
                    }
                }
                i = i + 1;
            }
            proof {
                assert(j * n + n == (j + 1) * n) by (nonlinear_arith);
            }
            j = j + 1;
        }
        proof {
            assert(dens@.len() == d * n);
            if zero {
                let k = choose|k: int|
                    0 <= k < dens@.len() && #[trigger] self.flat_denominator(k, rr, bb) == 0;
                lemma_unflatten(k, n as int, d);
                assert(self.term(k % (n as int), k / (n as int)).denominator(rr, bb) == 0);
            }
            if self.has_zero_denominator(domain_size as nat, rr, bb) {
                let (i, jj) = choose|i: int, jj: int|
                    0 <= i < self.f@.len() && 0 <= jj < domain_size && (#[trigger] self.term(
                        i,
                        jj,
                    )).denominator(rr, bb) == 0;
                lemma_flat_index(i, jj, n as int, d);
                assert(self.flat_denominator(flat_index(i, jj, n as int), rr, bb) == 0);
            }
        }
        if zero {
            return None;
        }
        let ghost denominators = dens@;
        batch_inversion(&mut dens);
        proof {
            assert forall|k: int| 0 <= k < dens@.len() implies (#[trigger] dens@[k])@ == finv(
                self.flat_denominator(k, rr, bb),
            ) by {
                assert(denominators[k]@ == self.flat_denominator(k, rr, bb));
            }
        }
        Some(dens)
    }

    /// The partial sums of the witness: for each chunk of columns, the sum of
    /// the chunk's fractions in each row.
    pub open spec fn partial_sum_evaluations(&self, domain_size: nat, r: nat, beta: nat) -> Seq<
        Seq<nat>,
    > {
        Seq::new(
            chunk_count(self.f@.len()),
            |c: int| Seq::new(domain_size, |j: int| self.partial_sum(c, j, r, beta)),
        )
    }

    /// Computes the partial sums of the witness over `domain_size` rows.
    ///
    /// A witness that does not have one entry per row in every column is
    /// refused with `IndexError`, and one with a zero denominator with
    /// `ArithmeticError`.
    pub fn partial_sums(&self, domain_size: usize, joint_combiner: &Fe, beta: &Fe) -> (r: Result<
        Vec<Vec<Fe>>,
        LookupError,
    >)
        ensures
            match r {
                Ok(h) => {
                    &&& self.shaped(domain_size as nat)
                    &&& !self.has_zero_denominator(domain_size as nat, joint_combiner@, beta@)
                    &&& rows_values(h@) == self.partial_sum_evaluations(
                        domain_size as nat,
                        joint_combiner@,
                        beta@,
                    )
                },
                Err(e) => if self.shaped(domain_size as nat) {
                    e == LookupError::ArithmeticError && self.has_zero_denominator(
                        domain_size as nat,
                        joint_combiner@,
                        beta@,
                    )
                } else {
                    e == LookupError::IndexError
                },
            },
    {
        if !self.is_shaped(domain_size) {
            return Err(LookupError::IndexError);
        }
        let inv = match self.inverse_denominators(domain_size, joint_combiner, beta) {
            Some(inv) => inv,
            None => {
                return Err(LookupError::ArithmeticError);
            },
        };
        let n = self.f.len();
        let chunks = (n - 1) / CHUNK_SIZE + 1;
        let total = inv.len();
        let ghost d = domain_size as int;
        let ghost rr = joint_combiner@;
        let ghost bb = beta@;
        let mut h: Vec<Vec<Fe>> = Vec::new();
        let mut c: usize = 0;
        while c < chunks
            invariant
                c <= chunks,
                chunks == chunk_count(n as nat),
                d == domain_size,
                n == self.f@.len(),
                rr == joint_combiner@,
                bb == beta@,
                self.shaped(domain_size as nat),
                inv@.len() == d * n,
                total == d * n,
                forall|k: int|
                    0 <= k < inv@.len() ==> (#[trigger] inv@[k])@ == finv(
                        self.flat_denominator(k, rr, bb),
                    ),
                h@.len() == c,
                forall|cc: int|
                    0 <= cc < c ==> values((#[trigger] h@[cc])@) == Seq::new(
                        domain_size as nat,
                        |j: int| self.partial_sum(cc, j, rr, bb),
                    ),
            decreases chunks - c,
        {
            let lo = c * CHUNK_SIZE;
            let hi = if n - lo >= CHUNK_SIZE {
                lo + CHUNK_SIZE
            } else {
                n
            };
            assert(lo == chunk_start(c as int));
            assert(hi == chunk_end(c as int, n as int));
            let mut evals: Vec<Fe> = Vec::new();
            let mut j: usize = 0;
            while j < domain_size
                invariant
                    j <= domain_size,
                    d == domain_size,
                    n == self.f@.len(),
                    rr == joint_combiner@,
                    bb == beta@,
                    self.shaped(domain_size as nat),
                    inv@.len() == d * n,
                    total == d * n,
                    forall|k: int|
                        0 <= k < inv@.len() ==> (#[trigger] inv@[k])@ == finv(
                            self.flat_denominator(k, rr, bb),
                        ),
                    lo == chunk_start(c as int),
                    hi == chunk_end(c as int, n as int),
                    lo <= hi <= n,
                    evals@.len() == j,
                    forall|jj: int|
                        0 <= jj < j ==> (#[trigger] evals@[jj])@ == self.partial_sum(
                            c as int,
                            jj,
                            rr,
                            bb,
                        ),
                decreases domain_size - j,
            {
                let mut acc = Fe::zero();
                let mut i: usize = lo;
                proof {
                    lemma_residue_of_reduced(0);
                }
                while i < hi
                    invariant
                        lo <= i <= hi,
                        hi <= n,
                        j < domain_size,
                        d == domain_size,
                        n == self.f@.len(),
                        rr == joint_combiner@,
                        bb == beta@,
                        self.shaped(domain_size as nat),
                        inv@.len() == d * n,
                        total == d * n,
                        forall|k: int|
                            0 <= k < inv@.len() ==> (#[trigger] inv@[k])@ == finv(
                                self.flat_denominator(k, rr, bb),
                            ),
                        acc@ == residue(self.row_sum(j as int, lo as int, i as int, rr, bb)),
                    decreases hi - i,
                {
                    proof {
                        lemma_flat_index(i as int, j as int, n as int, d);
                        assert(0 <= j * n) by (nonlinear_arith);
                    }
                    let term = &self.f[i][j];
                    let k = j * n + i;
                    let fraction = term.numerator.mul(&inv[k]);
                    proof {
                        assert(self.term(i as int, j as int) == *term);
                        assert(inv@[k as int]@ == finv(self.flat_denominator(k as int, rr, bb)));
                        assert(fraction@ == term.fraction(rr, bb));
                        let sum = self.row_sum(j as int, lo as int, i as int, rr, bb);
                        lemma_residue_of_reduced(fraction@);
                        lemma_fadd_residue(sum, fraction@ as int);
                    }
                    fraction.bounded();
                    acc = acc.add(&fraction);
                    i = i + 1;
                }
                evals.push(acc);
                j = j + 1;
            }
            proof {
                assert(values(evals@) =~= Seq::new(
                    domain_size as nat,
                    |j: int| self.partial_sum(c as int, j, rr, bb),
                ));
            }
            h.push(evals);
            c = c + 1;
        }
        proof {
            assert(rows_values(h@) =~= self.partial_sum_evaluations(domain_size as nat, rr, bb));
        }
        Ok(h)
    }
}

/// The partial sums of all witnesses, those of the first witness first.
pub open spec fn all_partial_sums<ID: LookupTableID>(
    lookups: Seq<MVLookupWitness<Fe, ID>>,
    domain_size: nat,
    r: nat,
    beta: nat,
) -> Seq<Seq<nat>>
    decreases lookups.len(),
{
    if lookups.len() == 0 {
        Seq::empty()
    } else {
        all_partial_sums(lookups.drop_last(), domain_size, r, beta)
            + lookups.last().partial_sum_evaluations(domain_size, r, beta)
    }
}

/// Whether every witness has the shape that `domain_size` rows ask for.
pub open spec fn all_shaped<ID: LookupTableID>(
    lookups: Seq<MVLookupWitness<Fe, ID>>,
    domain_size: nat,
) -> bool {
    forall|k: int| 0 <= k < lookups.len() ==> (#[trigger] lookups[k]).shaped(domain_size)
}

/// Whether some term of some witness has a zero denominator.
pub open spec fn any_zero_denominator<ID: LookupTableID>(
    lookups: Seq<MVLookupWitness<Fe, ID>>,
    domain_size: nat,
    r: nat,
    beta: nat,
) -> bool {
    exists|k: int|
        0 <= k < lookups.len() && (#[trigger] lookups[k]).has_zero_denominator(
            domain_size,
            r,
            beta,
        )
}

/// Whether every witness has the shape that `domain_size` rows ask for.
pub fn check_shapes<ID: LookupTableID>(
    lookups: &Vec<MVLookupWitness<Fe, ID>>,
    domain_size: usize,
) -> (b: bool)
    ensures
        b == all_shaped(lookups@, domain_size as nat),
{
    let mut k: usize = 0;
    while k < lookups.len()
        invariant
            k <= lookups@.len(),
            forall|kk: int| 0 <= kk < k ==> (#[trigger] lookups@[kk]).shaped(domain_size as nat),
        decreases lookups@.len() - k,
    {
        if !lookups[k].is_shaped(domain_size) {
            return false;
        }
        k = k + 1;
    }
    true
}

/// Computes the partial sums of all witnesses, those of the first witness
/// first.
///
/// If a witness does not have one entry per row in every column, the result is
/// `IndexError`; otherwise, if a denominator is zero, it is `ArithmeticError`.
pub fn lookup_terms<ID: LookupTableID>(
    lookups: &Vec<MVLookupWitness<Fe, ID>>,
    domain_size: usize,
    joint_combiner: &Fe,
    beta: &Fe,
) -> (r: Result<Vec<Vec<Fe>>, LookupError>)
    ensures
        match r {
            Ok(h) => {
                &&& all_shaped(lookups@, domain_size as nat)
                &&& !any_zero_denominator(lookups@, domain_size as nat, joint_combiner@, beta@)
                &&& rows_values(h@) == all_partial_sums(
                    lookups@,
                    domain_size as nat,
                    joint_combiner@,
                    beta@,
                )
            },
            Err(e) => if all_shaped(lookups@, domain_size as nat) {
                e == LookupError::ArithmeticError && any_zero_denominator(
                    lookups@,
                    domain_size as nat,
                    joint_combiner@,
                    beta@,
                )
            } else {
                e == LookupError::IndexError
            },
        },
{
    if !check_shapes(lookups, domain_size) {
        return Err(LookupError::IndexError);
    }
    let ghost d = domain_size as nat;
    let ghost rr = joint_combiner@;
    let ghost bb = beta@;
    let mut all: Vec<Vec<Fe>> = Vec::new();
    let mut k: usize = 0;
    assert(lookups@.take(0) =~= Seq::<MVLookupWitness<Fe, ID>>::empty());
    while k < lookups.len()
        invariant
            k <= lookups@.len(),
            d == domain_size,
            rr == joint_combiner@,
            bb == beta@,
            all_shaped(lookups@, d),
            forall|kk: int|
                0 <= kk < k ==> !(#[trigger] lookups@[kk]).has_zero_denominator(d, rr, bb),
            rows_values(all@) == all_partial_sums(lookups@.take(k as int), d, rr, bb),
        decreases lookups@.len() - k,
    {
        let mut sums = match lookups[k].partial_sums(domain_size, joint_combiner, beta) {
            Ok(sums) => sums,
            Err(e) => {
                return Err(e);
            },
        };
        proof {
            let head = lookups@.take(k + 1);
            assert(head.drop_last() =~= lookups@.take(k as int));
            assert(head.last() == lookups@[k as int]);
            assert(rows_values(all@ + sums@) =~= rows_values(all@) + rows_values(sums@));
        }
        all.append(&mut sums);
        k = k + 1;
    }
    assert(lookups@.take(lookups@.len() as int) =~= lookups@);
    Ok(all)
}

/// The running sum of the argument, and what it comes to after the last row.
#[derive(Debug, Clone)]
pub struct RunningSum {
    /// The running sum in each row.
    pub evaluations: Vec<Fe>,
    /// The sum over all rows. The argument holds only if this is zero.
    pub total: Fe,
}

/// Computes the running sum over `domain_size` rows from the evaluations of the
/// partial sums: each row holds the sum of all partial sums of the rows before
/// it.
///
/// Partial sums that do not have one entry per row are refused with
/// `IndexError`.
pub fn aggregate(terms: &Vec<Vec<Fe>>, domain_size: usize) -> (r: Result<RunningSum, LookupError>)
    ensures
        match r {
            Ok(sum) => {
                &&& rectangular(rows_values(terms@), domain_size as nat)
                &&& values(sum.evaluations@) == running_sum(rows_values(terms@), domain_size as nat)
                &&& sum.total@ == residue(running_total(rows_values(terms@), domain_size as int))
            },
            Err(e) => e == LookupError::IndexError && !rectangular(
                rows_values(terms@),
                domain_size as nat,
            ),
        },
{
    let ghost all = rows_values(terms@);
    let mut k: usize = 0;
    while k < terms.len()
        invariant
            k <= terms@.len(),
            all == rows_values(terms@),
            forall|kk: int| 0 <= kk < k ==> (#[trigger] all[kk]).len() == domain_size,
        decreases terms@.len() - k,
    {
        if terms[k].len() != domain_size {
            assert(all[k as int].len() != domain_size);
            return Err(LookupError::IndexError);
        }
        k = k + 1;
    }
    let mut evaluations: Vec<Fe> = Vec::new();
    let mut acc = Fe::zero();
    let mut j: usize = 0;
    proof {
        lemma_residue_of_reduced(0);
    }
    while j < domain_size
        invariant
            j <= domain_size,
            all == rows_values(terms@),
            rectangular(all, domain_size as nat),
            evaluations@.len() == j,
            forall|jj: int|
                0 <= jj < j ==> (#[trigger] evaluations@[jj])@ == residue(running_total(all, jj)),
            acc@ == residue(running_total(all, j as int)),
        decreases domain_size - j,
    {
        evaluations.push(acc);
        let mut k: usize = 0;
        assert(all.take(0) =~= Seq::<Seq<nat>>::empty());
        while k < terms.len()
            invariant
                k <= terms@.len(),
                j < domain_size,
                all == rows_values(terms@),
                rectangular(all, domain_size as nat),
                acc@ == residue(
                    running_total(all, j as int) + column_total(all.take(k as int), j as int),
                ),
            decreases terms@.len() - k,
        {
            assert(all[k as int].len() == domain_size);
            let entry = terms[k][j];
            entry.bounded();
            proof {
                let sofar = running_total(all, j as int) + column_total(
                    all.take(k as int),
                    j as int,
                );
                assert(all.take(k + 1).drop_last() =~= all.take(k as int));
                assert(all.take(k + 1).last() == all[k as int]);
                assert(all[k as int][j as int] == entry@);
                lemma_residue_of_reduced(entry@);
                lemma_fadd_residue(sofar, entry@ as int);
            }
            acc = acc.add(&entry);
            k = k + 1;
        }
        assert(all.take(terms@.len() as int) =~= all);
        j = j + 1;
    }
    proof {
        assert(values(evaluations@) =~= running_sum(all, domain_size as nat));
    }
    Ok(RunningSum { evaluations, total: acc })
}

} // verus!
