//! The parts of a proof, as far as the lookup argument is concerned with them:
//! what goes into it, its commitments and its evaluations.
use crate::columns::{Column, CurrOrNext};
use crate::error::LookupError;
use crate::expr::{Assignment, ChallengeTerm, Expr};
use crate::field::{lemma_residue_of_reduced, Fe};
use crate::lookups::{LookupTableIDs, LookupWitness};
use crate::mvlookup::{LookupProof, LookupTableID, MVLookupWitness};
use crate::witness::Witness;
use crate::DOMAIN_SIZE;
use vstd::prelude::*;

verus! {

/// The values of a polynomial at the verifier's point and at the point after
/// it in the domain.
#[derive(Clone, Copy, Debug, PartialEq, Eq)]
pub struct PointEvaluations<F> {
    /// The value at the point.
    pub zeta: F,
    /// The value at the point times the domain's generator.
    pub zeta_omega: F,
}

/// What a proof is made from: the values of the witness columns on the
/// domain, and the witnesses of the lookup argument.
#[derive(Debug, Clone)]
pub struct ProofInputs<const N: usize, ID: LookupTableID> {
    /// The values of each witness column on the domain.
    pub evaluations: Witness<N, Vec<Fe>>,
    /// The witnesses of the lookup argument.
    pub mvlookups: Vec<MVLookupWitness<Fe, ID>>,
}

/// Whether every column has `rows` values.
pub open spec fn columns_of_length(columns: Seq<Vec<Fe>>, rows: nat) -> bool {
    forall|i: int| 0 <= i < columns.len() ==> (#[trigger] columns[i])@.len() == rows
}

/// Whether every value of every column is zero.
pub open spec fn columns_of_zeros(columns: Seq<Vec<Fe>>) -> bool {
    forall|i: int, j: int|
        0 <= i < columns.len() && 0 <= j < columns[i]@.len() ==> (#[trigger] columns[i]@[j])@ == 0
}

impl<const N: usize> ProofInputs<N, LookupTableIDs> {
    /// Inputs whose witness columns hold values drawn at random over
    /// `domain_size` rows, with one lookup witness, drawn at random too.
    pub fn random(domain_size: usize) -> (r: Self)
        ensures
            columns_of_length(r.evaluations.columns(), domain_size as nat),
            r.mvlookups@.len() == 1,
            r.mvlookups@[0].f@.len() == 2,
            domain_size > 0 ==> r.mvlookups@[0].shaped(domain_size as nat),
            r.mvlookups@[0].conventional(domain_size as nat),
            r.mvlookups@[0].looked_up_as_declared(domain_size as nat),
            r.mvlookups@[0].holds_one_table(domain_size as nat),
    {
        let mut cols: Vec<Vec<Fe>> = Vec::new();
        let mut i: usize = 0;
        while i < N
            invariant
                i <= N,
                cols@.len() == i,
                columns_of_length(cols@, domain_size as nat),
            decreases N - i,
        {
            let mut column: Vec<Fe> = Vec::new();
            let mut j: usize = 0;
            while j < domain_size
                invariant
                    j <= domain_size,
                    column@.len() == j,
                decreases domain_size - j,
            {
                column.push(Fe::random());
                j = j + 1;
            }
            cols.push(column);
            i = i + 1;
        }
        let mut mvlookups: Vec<LookupWitness> = Vec::new();
        mvlookups.push(LookupWitness::random(domain_size));
        ProofInputs { evaluations: Witness::from_columns(cols), mvlookups }
    }
}

impl<const N: usize, ID: LookupTableID> Default for ProofInputs<N, ID> {
    /// Inputs whose witness columns are zero on every row of the default
    /// domain, and that look nothing up. They satisfy no constraint that has
    /// a constant in it.
    fn default() -> (r: Self)
        ensures
            columns_of_length(r.evaluations.columns(), DOMAIN_SIZE as nat),
            columns_of_zeros(r.evaluations.columns()),
            r.mvlookups@.len() == 0,
    {
        let mut cols: Vec<Vec<Fe>> = Vec::new();
        let mut i: usize = 0;
        while i < N
            invariant
                i <= N,
                cols@.len() == i,
                columns_of_length(cols@, DOMAIN_SIZE as nat),
                columns_of_zeros(cols@),
            decreases N - i,
        {
            let mut column: Vec<Fe> = Vec::new();
            let mut j: usize = 0;
            while j < DOMAIN_SIZE
                invariant
                    j <= DOMAIN_SIZE,
                    column@.len() == j,
                    forall|k: int| 0 <= k < j ==> (#[trigger] column@[k])@ == 0,
                decreases DOMAIN_SIZE - j,
            {
                column.push(Fe::zero());
                j = j + 1;
            }
            cols.push(column);
            i = i + 1;
        }
        ProofInputs { evaluations: Witness::from_columns(cols), mvlookups: Vec::new() }
    }
}

/// The evaluations of a proof at the verifier's point.
#[derive(Debug, Clone)]
pub struct ProofEvaluations<const N: usize, F> {
    /// The evaluations of the witness columns.
    pub witness_evals: Witness<N, PointEvaluations<F>>,
    /// The evaluations of the lookup argument, where the proof has one.
    pub mvlookup_evals: Option<LookupProof<PointEvaluations<F>>>,
    /// The evaluation of the quotient's linearisation at the point after the
    /// verifier's point.
    pub ft_eval1: F,
}

impl<const N: usize, F> ProofEvaluations<N, F> {
    /// The evaluations of a column, or why there are none: a witness column
    /// is found by its index, a partial sum by its index among the partial
    /// sums, the running sum as it is, and the multiplicities and the values
    /// of a fixed table by the table's encoding.
    pub open spec fn column_evaluations(&self, col: Column) -> Result<
        PointEvaluations<F>,
        LookupError,
    > {
        match col {
            Column::X(i) => if i < N {
                Ok(self.witness_evals.columns()[i as int])
            } else {
                Err(LookupError::IndexError)
            },
            Column::LookupPartialSum(i) => match self.mvlookup_evals {
                None => Err(LookupError::MissingData),
                Some(lookup) => if i < lookup.h@.len() {
                    Ok(lookup.h@[i as int])
                } else {
                    Err(LookupError::IndexError)
                },
            },
            Column::LookupAggregation => match self.mvlookup_evals {
                None => Err(LookupError::MissingData),
                Some(lookup) => Ok(lookup.sum),
            },
            Column::LookupMultiplicity(id) => match self.mvlookup_evals {
                None => Err(LookupError::MissingData),
                Some(lookup) => if lookup.m@.contains_key(id) {
                    Ok(lookup.m@[id])
                } else {
                    Err(LookupError::IndexError)
                },
            },
            Column::LookupFixedTable(id) => match self.mvlookup_evals {
                None => Err(LookupError::MissingData),
                Some(lookup) => if lookup.fixed_tables@.contains_key(id) {
                    Ok(lookup.fixed_tables@[id])
                } else {
                    Err(LookupError::IndexError)
                },
            },
        }
    }

    /// The evaluations of a column.
    ///
    /// A column of the lookup argument is refused with `MissingData` where
    /// the proof has no lookup section, and an index or a table that the
    /// proof does not hold with `IndexError`.
    pub fn evaluate(&self, col: Column) -> (r: Result<&PointEvaluations<F>, LookupError>)
        ensures
            match r {
                Ok(evaluations) => self.column_evaluations(col) == Ok::<
                    PointEvaluations<F>,
                    LookupError,
                >(*evaluations),
                Err(e) => self.column_evaluations(col) == Err::<PointEvaluations<F>, LookupError>(
                    e,
                ),
            },
    {
        match col {
            Column::X(i) => match self.witness_evals.get(i) {
                Some(evaluations) => Ok(evaluations),
                None => Err(LookupError::IndexError),
            },
            Column::LookupPartialSum(i) => match &self.mvlookup_evals {
                None => Err(LookupError::MissingData),
                Some(lookup) => if i < lookup.h.len() {
                    Ok(&lookup.h[i])
                } else {
                    Err(LookupError::IndexError)
                },
            },
            Column::LookupAggregation => match &self.mvlookup_evals {
                None => Err(LookupError::MissingData),
                Some(lookup) => Ok(&lookup.sum),
            },
            Column::LookupMultiplicity(id) => match &self.mvlookup_evals {
                None => Err(LookupError::MissingData),
                Some(lookup) => match lookup.m.get(&id) {
                    Some(evaluations) => Ok(evaluations),
                    None => Err(LookupError::IndexError),
                },
            },
            Column::LookupFixedTable(id) => match &self.mvlookup_evals {
                None => Err(LookupError::MissingData),
                Some(lookup) => match lookup.fixed_tables.get(&id) {
                    Some(evaluations) => Ok(evaluations),
                    None => Err(LookupError::IndexError),
                },
            },
        }
    }
}

impl<const N: usize> ProofEvaluations<N, Fe> {
    /// The values that the proof gives to the cells, with the given values
    /// of the two challenges: a cell of the row under consideration has the
    /// column's value at the verifier's point, a cell of the next row the value
    /// at the point after it, and a cell of a column that the proof does not
    /// hold has the value zero, as has an expression that is held elsewhere.
    pub open spec fn assignment(&self, beta: nat, joint_combiner: nat) -> Assignment {
        Assignment {
            beta,
            joint_combiner,
            cells: |col: Column, row: CurrOrNext|
                match self.column_evaluations(col) {
                    Ok(evaluations) => match row {
                        CurrOrNext::Curr => evaluations.zeta@,
                        CurrOrNext::Next => evaluations.zeta_omega@,
                    },
                    Err(_) => 0nat,
                },
            outside: |index: usize| 0nat,
        }
    }

    /// Why the first cell of the expression that the proof does not hold is
    /// not held, or nothing where all cells are held. An expression that is
    /// held elsewhere is not held by the proof.
    pub open spec fn missing(&self, e: Expr) -> Option<LookupError>
        decreases e,
    {
        match e {
            Expr::Literal(_) => None,
            Expr::Challenge(_) => None,
            Expr::Cell(col, _) => match self.column_evaluations(col) {
                Ok(_) => None,
                Err(e) => Some(e),
            },
            Expr::Outside(_, _) => Some(LookupError::MissingData),
            Expr::Add(l, r) => match self.missing(*l) {
                Some(e) => Some(e),
                None => self.missing(*r),
            },
            Expr::Sub(l, r) => match self.missing(*l) {
                Some(e) => Some(e),
                None => self.missing(*r),
            },
            Expr::Mul(l, r) => match self.missing(*l) {
                Some(e) => Some(e),
                None => self.missing(*r),
            },
        }
    }

    /// The value of an expression on the evaluations of the proof, with the
    /// given values of the two challenges.
    ///
    /// The expression is read from left to right, and the first cell that the
    /// proof does not hold is refused as `evaluate` refuses its column. An
    /// expression that is held elsewhere is refused with `MissingData`.
    pub fn evaluate_expression(&self, e: &Expr, beta: &Fe, joint_combiner: &Fe) -> (r: Result<
        Fe,
        LookupError,
    >)
        ensures
            match r {
                Ok(value) => self.missing(*e) is None && value@ == e.eval(
                    self.assignment(beta@, joint_combiner@),
                ),
                Err(error) => self.missing(*e) == Some(error),
            },
        decreases *e,
    {
        match e {
            Expr::Literal(x) => {
                x.bounded();
                proof {
                    lemma_residue_of_reduced(x@);
                }
                Ok(*x)
            },
            Expr::Challenge(ChallengeTerm::Beta) => {
                beta.bounded();
                proof {
                    lemma_residue_of_reduced(beta@);
                }
                Ok(*beta)
            },
            Expr::Challenge(ChallengeTerm::JointCombiner) => {
                joint_combiner.bounded();
                proof {
                    lemma_residue_of_reduced(joint_combiner@);
                }
                Ok(*joint_combiner)
            },
            Expr::Cell(col, row) => match self.evaluate(*col) {
                Ok(evaluations) => {
                    let value = match row {
                        CurrOrNext::Curr => evaluations.zeta,
                        CurrOrNext::Next => evaluations.zeta_omega,
                    };
                    value.bounded();
                    proof {
                        lemma_residue_of_reduced(value@);
                    }
                    Ok(value)
                },
                Err(error) => Err(error),
            },
            Expr::Outside(_, _) => Err(LookupError::MissingData),
            Expr::Add(l, r) => {
                let a = match self.evaluate_expression(l, beta, joint_combiner) {
                    Ok(a) => a,
                    Err(error) => {
                        return Err(error);
                    },
                };
                let b = match self.evaluate_expression(r, beta, joint_combiner) {
                    Ok(b) => b,
                    Err(error) => {
                        return Err(error);
                    },
                };
                Ok(a.add(&b))
            },
            Expr::Sub(l, r) => {
                let a = match self.evaluate_expression(l, beta, joint_combiner) {
                    Ok(a) => a,
                    Err(error) => {
                        return Err(error);
                    },
                };
                let b = match self.evaluate_expression(r, beta, joint_combiner) {
                    Ok(b) => b,
                    Err(error) => {
                        return Err(error);
                    },
                };
                Ok(a.sub(&b))
            },
            Expr::Mul(l, r) => {
                let a = match self.evaluate_expression(l, beta, joint_combiner) {
                    Ok(a) => a,
                    Err(error) => {
                        return Err(error);
                    },
                };
                let b = match self.evaluate_expression(r, beta, joint_combiner) {
                    Ok(b) => b,
                    Err(error) => {
                        return Err(error);
                    },
                };
                Ok(a.mul(&b))
            },
        }
    }
}

/// The commitments of a proof. `C` is the type of a commitment.
#[derive(Debug, Clone)]
pub struct ProofCommitments<const N: usize, C> {
    /// The commitments to the witness columns.
    pub witness_comms: Witness<N, C>,
    /// The commitments of the lookup argument, where the proof has one.
    pub mvlookup_comms: Option<LookupProof<C>>,
    /// The commitment to the quotient polynomial.
    pub t_comm: C,
}

/// A proof: its commitments, its evaluations, and the proof that the
/// evaluations are those of the committed polynomials.
#[derive(Debug, Clone)]
pub struct Proof<const N: usize, C, OpeningProof> {
    /// The commitments.
    pub proof_comms: ProofCommitments<N, C>,
    /// The evaluations.
    pub proof_evals: ProofEvaluations<N, Fe>,
    /// The opening proof.
    pub opening_proof: OpeningProof,
}

} // verus!
