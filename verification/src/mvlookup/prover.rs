//! The prover's side of the lookup argument.
//!
//! The prover commits to its polynomials and draws its challenges from a
//! transcript that it shares with the rest of the proof, and the order of
//! these steps is part of the protocol. Neither the transcript nor the
//! commitment scheme is at hand here. So the prover is a machine that is told
//! what happened, and answers what to do next: `Env::create` starts it, and
//! `ProverState::step` moves it on.
use crate::algebra::{rectangular, running_sum, running_total};
use crate::error::LookupError;
use crate::field::{copy_elements, residue, values, Fe};
use crate::laws::lemma_declared_lookups_sum_to_zero;
use crate::mvlookup::sums::{
    aggregate, all_partial_sums, all_shaped, any_zero_denominator, lookup_terms, RunningSum,
};
use crate::mvlookup::tables::{
    counters, fixed_lookup_tables, fixed_tables, fixed_tables_complete,
    lemma_one_table_is_complete, lookup_counters,
};
use crate::mvlookup::{LookupTableID, MVLookupWitness};
use crate::order::{ascending_keys, ascending_values, entries_in_order, key_items, keyed};
use crate::poly::{
    all_extend, all_interpolate, all_of_size, evaluate_over_domain, extend_all, extend_tables,
    extends, interpolate, interpolate_all, interpolate_tables, interpolates, is_domain_size,
    map_values_of, rows_values, tables_extend, tables_interpolate, tables_of_size,
    MAX_DOMAIN_SIZE,
};
use std::collections::BTreeMap;
use vstd::prelude::*;

verus! {

/// What the prover of the lookup argument hands to the proof. `C` is the type
/// of a commitment.
///
/// A polynomial is held by its coefficients, and the maps are keyed by the
/// integer encoding of the table. Each polynomial interpolates evaluations
/// over the domain, and is evaluated again over the extended domain.
#[derive(Debug)]
pub struct Env<C> {
    /// The polynomial of the multiplicities of each fixed table.
    pub lookup_counters_poly_d1: BTreeMap<u32, Vec<Fe>>,
    /// The commitment to the multiplicities of each fixed table.
    pub lookup_counters_comm_d1: BTreeMap<u32, C>,
    /// The polynomial of each partial sum.
    pub lookup_terms_poly_d1: Vec<Vec<Fe>>,
    /// The commitment to each partial sum.
    pub lookup_terms_comms_d1: Vec<C>,
    /// The polynomial of the running sum.
    pub lookup_aggregation_poly_d1: Vec<Fe>,
    /// The commitment to the running sum.
    pub lookup_aggregation_comm_d1: C,
    /// The multiplicities of each fixed table over the extended domain.
    pub lookup_counters_evals_d8: BTreeMap<u32, Vec<Fe>>,
    /// Each partial sum over the extended domain.
    pub lookup_terms_evals_d8: Vec<Vec<Fe>>,
    /// The running sum over the extended domain.
    pub lookup_aggregation_evals_d8: Vec<Fe>,
    /// The polynomial of the combined values of each fixed table.
    pub fixed_lookup_tables_poly_d1: BTreeMap<u32, Vec<Fe>>,
    /// The commitment to the combined values of each fixed table.
    pub fixed_lookup_tables_comms_d1: BTreeMap<u32, C>,
    /// The combined values of each fixed table over the extended domain.
    pub fixed_lookup_tables_evals_d8: BTreeMap<u32, Vec<Fe>>,
    /// The combiner of the components of a vector lookup.
    pub joint_combiner: Fe,
    /// The point that is added to every combined value to make a denominator.
    pub beta: Fe,
}

/// What the quotient polynomial needs of the prover's environment: the
/// evaluations over the extended domain.
#[derive(Debug)]
pub struct QuotientPolynomialEnvironment<'a> {
    /// Each partial sum over the extended domain.
    pub lookup_terms_evals_d8: &'a Vec<Vec<Fe>>,
    /// The running sum over the extended domain.
    pub lookup_aggregation_evals_d8: &'a Vec<Fe>,
    /// The multiplicities of each fixed table over the extended domain.
    pub lookup_counters_evals_d8: &'a BTreeMap<u32, Vec<Fe>>,
    /// The combined values of each fixed table over the extended domain.
    pub fixed_tables_evals_d8: &'a BTreeMap<u32, Vec<Fe>>,
}

/// The size of the extended domain, over which constraints of the highest
/// supported degree are checked, for a domain of `domain_size` rows.
pub open spec fn extended_size(domain_size: nat) -> nat {
    8 * domain_size
}

impl<C> Env<C> {
    /// Whether the environment is the one that the argument asks for, given
    /// the witnesses, the number of rows, and the commitments in the order in
    /// which they were made. The two challenges are those that the
    /// environment holds, and with them the running sum returns to zero.
    pub open spec fn holds<ID: LookupTableID>(
        &self,
        lookups: Seq<MVLookupWitness<Fe, ID>>,
        domain_size: nat,
        counter_commitments: Seq<C>,
        term_commitments: Seq<C>,
        aggregation_commitment: C,
    ) -> bool {
        let r = self.joint_combiner@;
        let beta = self.beta@;
        let size = extended_size(domain_size);
        let multiplicities = counters(lookups);
        let terms = all_partial_sums(lookups, domain_size, r, beta);
        let fixed = fixed_tables(lookups, domain_size, r);
        let sum = running_sum(terms, domain_size);
        &&& final_total(lookups, domain_size, r, beta) == 0
        &&& tables_interpolate(map_values_of(self.lookup_counters_poly_d1@), multiplicities)
        &&& tables_extend(
            map_values_of(self.lookup_counters_evals_d8@),
            map_values_of(self.lookup_counters_poly_d1@),
            size,
        )
        &&& self.lookup_counters_comm_d1@ == keyed(
            ascending_keys(multiplicities.dom()),
            counter_commitments,
        )
        &&& all_interpolate(rows_values(self.lookup_terms_poly_d1@), terms)
        &&& all_extend(
            rows_values(self.lookup_terms_evals_d8@),
            rows_values(self.lookup_terms_poly_d1@),
            size,
        )
        &&& self.lookup_terms_comms_d1@ == term_commitments.take(terms.len() as int)
        &&& tables_interpolate(map_values_of(self.fixed_lookup_tables_poly_d1@), fixed)
        &&& tables_extend(
            map_values_of(self.fixed_lookup_tables_evals_d8@),
            map_values_of(self.fixed_lookup_tables_poly_d1@),
            size,
        )
        &&& self.fixed_lookup_tables_comms_d1@ == keyed(
            ascending_keys(fixed.dom()),
            term_commitments.skip(terms.len() as int),
        )
        &&& interpolates(values(self.lookup_aggregation_poly_d1@), sum)
        &&& extends(
            values(self.lookup_aggregation_evals_d8@),
            values(self.lookup_aggregation_poly_d1@),
            size,
        )
        &&& self.lookup_aggregation_comm_d1 == aggregation_commitment
    }

    /// The part of the environment that the quotient polynomial needs.
    pub fn quotient_environment(&self) -> (r: QuotientPolynomialEnvironment<'_>)
        ensures
            *r.lookup_terms_evals_d8 == self.lookup_terms_evals_d8,
            *r.lookup_aggregation_evals_d8 == self.lookup_aggregation_evals_d8,
            *r.lookup_counters_evals_d8 == self.lookup_counters_evals_d8,
            *r.fixed_tables_evals_d8 == self.fixed_lookup_tables_evals_d8,
    {
        QuotientPolynomialEnvironment {
            lookup_terms_evals_d8: &self.lookup_terms_evals_d8,
            lookup_aggregation_evals_d8: &self.lookup_aggregation_evals_d8,
            lookup_counters_evals_d8: &self.lookup_counters_evals_d8,
            fixed_tables_evals_d8: &self.fixed_lookup_tables_evals_d8,
        }
    }
}

/// What the running sum over the partial sums of all witnesses comes to after
/// the last row.
pub open spec fn final_total<ID: LookupTableID>(
    lookups: Seq<MVLookupWitness<Fe, ID>>,
    domain_size: nat,
    r: nat,
    beta: nat,
) -> nat {
    residue(running_total(all_partial_sums(lookups, domain_size, r, beta), domain_size as int))
}

/// How far the prover has come.
#[derive(Clone, Copy, Debug, PartialEq, Eq, Structural)]
pub enum Stage {
    /// The multiplicities are handed out, and their commitments awaited.
    Counters,
    /// The joint combiner is awaited.
    JointCombiner,
    /// The challenge `beta` is awaited.
    Beta,
    /// The partial sums and the fixed tables are handed out, and their
    /// commitments awaited.
    Terms,
    /// The running sum is handed out, and its commitment awaited.
    Aggregation,
    /// All is done.
    Done,
}

/// The place of a stage in the order of the protocol.
pub open spec fn rank(stage: Stage) -> int {
    match stage {
        Stage::Counters => 0,
        Stage::JointCombiner => 1,
        Stage::Beta => 2,
        Stage::Terms => 3,
        Stage::Aggregation => 4,
        Stage::Done => 5,
    }
}

/// What the prover is told.
#[derive(Debug)]
pub enum ProverEvent<C> {
    /// The vectors that were handed out are committed to, and the commitments
    /// absorbed into the transcript, one after the other.
    Committed(Vec<C>),
    /// A challenge was drawn from the transcript.
    Challenge(Fe),
}

/// What the prover asks for.
#[derive(Debug)]
pub enum ProverAction {
    /// Commit to each vector of evaluations over the domain, without hiding,
    /// absorb each commitment into the transcript, in this order, and report
    /// the commitments.
    CommitAndAbsorb(Vec<Vec<Fe>>),
    /// Draw a challenge from the transcript and report it.
    DrawChallenge,
    /// Nothing more: the environment can be taken.
    Finish,
}

/// The prover of the lookup argument, between two of its steps.
#[derive(Debug)]
pub struct ProverState<C, ID: LookupTableID> {
    stage: Stage,
    lookups: Vec<MVLookupWitness<Fe, ID>>,
    domain_size: usize,
    counters: BTreeMap<u32, Vec<Fe>>,
    counter_commitments: Vec<C>,
    joint_combiner: Fe,
    beta: Fe,
    terms: Vec<Vec<Fe>>,
    fixed_tables: BTreeMap<u32, Vec<Fe>>,
    running_sum: RunningSum,
    term_commitments: Vec<C>,
    aggregation_commitment: Vec<C>,
}

/// Whether the argument can run over `domain_size` rows: the field has a
/// domain of roots of unity of this size, and one of the size of the extended
/// domain.
pub open spec fn supports_domain(domain_size: usize) -> bool {
    &&& is_domain_size(domain_size)
    &&& 8 * domain_size <= MAX_DOMAIN_SIZE
    &&& is_domain_size((8 * domain_size) as usize)
}

/// Whether the argument can run over `domain_size` rows.
pub fn check_domain(domain_size: usize) -> (b: bool)
    ensures
        b == supports_domain(domain_size),
{
    crate::poly::check_domain_size(domain_size) && domain_size <= MAX_DOMAIN_SIZE / 8
        && crate::poly::check_domain_size(8 * domain_size)
}

proof fn lemma_counters_of_size<ID: LookupTableID>(
    lookups: Seq<MVLookupWitness<Fe, ID>>,
    domain_size: nat,
)
    requires
        all_shaped(lookups, domain_size),
    ensures
        forall|key: u32|
            counters(lookups).contains_key(key) ==> (#[trigger] counters(lookups)[key]).len()
                == domain_size,
    decreases lookups.len(),
{
    if lookups.len() > 0 {
        let rest = lookups.drop_last();
        assert(all_shaped(rest, domain_size)) by {
            assert forall|k: int| 0 <= k < rest.len() implies (#[trigger] rest[k]).shaped(
                domain_size,
            ) by {
                assert(lookups[k].shaped(domain_size));
            }
        }
        lemma_counters_of_size(rest, domain_size);
        let witness = lookups.last();
        assert(witness.shaped(domain_size));
        assert(values(witness.m@).len() == domain_size);
        assert forall|key: u32| counters(lookups).contains_key(key) implies (#[trigger] counters(
            lookups,
        )[key]).len() == domain_size by {
            let id = witness.term(0, 0).table_id;
            if id.fixed() && id.encoding() == key {
                assert(counters(lookups)[key] == values(witness.m@));
            } else {
                assert(counters(rest).contains_key(key));
                assert(counters(lookups)[key] == counters(rest)[key]);
            }
        }
    }
}

proof fn lemma_ascending_values_of_views(tables: Map<u32, Vec<Fe>>)
    ensures
        ascending_values(map_values_of(tables)) == rows_values(ascending_values(tables)),
{
    assert(map_values_of(tables).dom() =~= tables.dom());
    crate::order::lemma_keys_below_ascend(tables.dom(), 0x1_0000_0000);
    let keys = ascending_keys(tables.dom());
    assert forall|i: int| 0 <= i < keys.len() implies ascending_values(map_values_of(tables))[i]
        == rows_values(ascending_values(tables))[i] by {
        assert(keys.contains(keys[i]));
    }
    assert(ascending_values(map_values_of(tables)) =~= rows_values(ascending_values(tables)));
}

/// Copies of the vectors of a map, in ascending order of their keys.
fn copy_in_order(tables: &BTreeMap<u32, Vec<Fe>>) -> (r: Vec<Vec<Fe>>)
    ensures
        rows_values(r@) == ascending_values(map_values_of(tables@)),
{
    let entries = entries_in_order(tables);
    let ghost keys = ascending_keys(tables@.dom());
    let mut out: Vec<Vec<Fe>> = Vec::new();
    let mut i: usize = 0;
    while i < entries.len()
        invariant
            i <= entries@.len(),
            keys == ascending_keys(tables@.dom()),
            entries@.len() == keys.len(),
            forall|p: int|
                0 <= p < entries@.len() ==> {
                    &&& (#[trigger] entries@[p]).0 == keys[p]
                    &&& tables@.contains_key(entries@[p].0)
                    &&& *entries@[p].1 == tables@[entries@[p].0]
                },
            out@.len() == i,
            forall|p: int| 0 <= p < i ==> (#[trigger] out@[p])@ == tables@[keys[p]]@,
        decreases entries@.len() - i,
    {
        out.push(copy_elements(entries[i].1));
        i = i + 1;
    }
    proof {
        lemma_ascending_values_of_views(tables@);
        assert(rows_values(out@) =~= rows_values(ascending_values(tables@)));
    }
    out
}

/// Copies of the vectors of a list.
fn copy_rows(rows: &Vec<Vec<Fe>>) -> (r: Vec<Vec<Fe>>)
    ensures
        rows_values(r@) == rows_values(rows@),
        r@.len() == rows@.len(),
{
    let mut out: Vec<Vec<Fe>> = Vec::new();
    let mut i: usize = 0;
    while i < rows.len()
        invariant
            i <= rows@.len(),
            out@.len() == i,
            forall|p: int| 0 <= p < i ==> (#[trigger] out@[p])@ == rows@[p]@,
        decreases rows@.len() - i,
    {
        out.push(copy_elements(&rows[i]));
        i = i + 1;
    }
    assert(rows_values(out@) =~= rows_values(rows@));
    out
}

impl<C, ID: LookupTableID> ProverState<C, ID> {
    #[verifier::type_invariant]
    closed spec fn consistent(self) -> bool {
        let d = self.domain_size as nat;
        let r = self.joint_combiner@;
        let beta = self.beta@;
        &&& supports_domain(self.domain_size)
        &&& all_shaped(self.lookups@, d)
        &&& map_values_of(self.counters@) == counters(self.lookups@)
        &&& tables_of_size(self.counters@, d)
        &&& rank(self.stage) >= 1 ==> self.counter_commitments@.len() == ascending_keys(
            self.counters@.dom(),
        ).len()
        &&& rank(self.stage) >= 3 ==> {
            &&& !any_zero_denominator(self.lookups@, d, r, beta)
            &&& fixed_tables_complete(self.lookups@, d, r)
            &&& rows_values(self.terms@) == all_partial_sums(self.lookups@, d, r, beta)
            &&& all_of_size(self.terms@, d)
            &&& map_values_of(self.fixed_tables@) == fixed_tables(self.lookups@, d, r)
            &&& tables_of_size(self.fixed_tables@, d)
            &&& self.running_sum.evaluations@.len() == d
            &&& values(self.running_sum.evaluations@) == running_sum(rows_values(self.terms@), d)
            &&& self.running_sum.total@ == residue(
                running_total(rows_values(self.terms@), d as int),
            )
            &&& self.running_sum.total@ == 0
        }
        &&& rank(self.stage) >= 4 ==> self.term_commitments@.len() == self.terms@.len()
            + ascending_keys(self.fixed_tables@.dom()).len()
        &&& rank(self.stage) >= 5 ==> self.aggregation_commitment@.len() == 1
    }

    /// How far the prover has come.
    pub closed spec fn stage(&self) -> Stage {
        self.stage
    }

    /// The witnesses that the prover works on.
    pub closed spec fn witnesses(&self) -> Seq<MVLookupWitness<Fe, ID>> {
        self.lookups@
    }

    /// The number of rows.
    pub closed spec fn rows(&self) -> nat {
        self.domain_size as nat
    }

    /// The joint combiner, once it is drawn.
    pub closed spec fn joint_combiner(&self) -> nat {
        self.joint_combiner@
    }

    /// The challenge `beta`, once it is drawn.
    pub closed spec fn beta(&self) -> nat {
        self.beta@
    }

    /// The commitments to the multiplicities, once they are made.
    pub closed spec fn counter_commitments(&self) -> Seq<C> {
        self.counter_commitments@
    }

    /// The commitments to the partial sums and to the fixed tables, once they
    /// are made.
    pub closed spec fn term_commitments(&self) -> Seq<C> {
        self.term_commitments@
    }

    /// The commitment to the running sum, once it is made.
    pub closed spec fn aggregation_commitment(&self) -> Seq<C> {
        self.aggregation_commitment@
    }

    /// What the running sum comes to after the last row, once it is computed.
    pub closed spec fn total(&self) -> nat {
        self.running_sum.total@
    }

    /// How far the prover has come.
    pub fn current_stage(&self) -> (r: Stage)
        ensures
            r == self.stage(),
    {
        self.stage
    }

    /// The running sum, once the two challenges are drawn. The prover goes on
    /// only with a running sum that returns to zero after the last row.
    pub fn running_sum(&self) -> (r: Option<&RunningSum>)
        ensures
            r is Some <==> rank(self.stage()) >= 3,
            r matches Some(sum) ==> {
                &&& sum.total@ == self.total()
                &&& sum.total@ == 0
                &&& sum.total@ == final_total(
                    self.witnesses(),
                    self.rows(),
                    self.joint_combiner(),
                    self.beta(),
                )
                &&& values(sum.evaluations@) == running_sum(
                    all_partial_sums(
                        self.witnesses(),
                        self.rows(),
                        self.joint_combiner(),
                        self.beta(),
                    ),
                    self.rows(),
                )
            },
    {
        proof {
            use_type_invariant(self);
        }
        match self.stage {
            Stage::Counters => None,
            Stage::JointCombiner => None,
            Stage::Beta => None,
            Stage::Terms => Some(&self.running_sum),
            Stage::Aggregation => Some(&self.running_sum),
            Stage::Done => Some(&self.running_sum),
        }
    }
}

proof fn lemma_partial_sums_rectangular<ID: LookupTableID>(
    lookups: Seq<MVLookupWitness<Fe, ID>>,
    domain_size: nat,
    r: nat,
    beta: nat,
)
    ensures
        rectangular(all_partial_sums(lookups, domain_size, r, beta), domain_size),
    decreases lookups.len(),
{
    if lookups.len() > 0 {
        lemma_partial_sums_rectangular(lookups.drop_last(), domain_size, r, beta);
        let head = all_partial_sums(lookups.drop_last(), domain_size, r, beta);
        let tail = lookups.last().partial_sum_evaluations(domain_size, r, beta);
        assert forall|k: int| 0 <= k < (head + tail).len() implies (#[trigger] (head
            + tail)[k]).len() == domain_size by {
            if k < head.len() {
                assert(head[k].len() == domain_size);
            } else {
                assert((head + tail)[k] == tail[k - head.len()]);
            }
        }
    }
}

impl<C, ID: LookupTableID> ProverState<C, ID> {
    /// Whether `next` holds all that the prover had settled before: the
    /// commitments and the challenges of the stages that are passed.
    pub open spec fn kept_by(&self, next: Self) -> bool {
        let passed = rank(self.stage());
        &&& next.witnesses() == self.witnesses()
        &&& next.rows() == self.rows()
        &&& passed >= 1 ==> next.counter_commitments() == self.counter_commitments()
        &&& passed >= 2 ==> next.joint_combiner() == self.joint_combiner()
        &&& passed >= 3 ==> next.beta() == self.beta() && next.total() == self.total()
        &&& passed >= 4 ==> next.term_commitments() == self.term_commitments()
    }

    /// Whether, on `event`, the prover moves on to `next` and asks for
    /// `action`.
    pub open spec fn proceeds(
        &self,
        event: ProverEvent<C>,
        next: Self,
        action: ProverAction,
    ) -> bool {
        let w = self.witnesses();
        let d = self.rows();
        match (self.stage(), event) {
            (Stage::Counters, ProverEvent::Committed(commitments)) => {
                &&& commitments@.len() == ascending_keys(counters(w).dom()).len()
                &&& next.counter_commitments() == commitments@
                &&& action is DrawChallenge
            },
            (Stage::JointCombiner, ProverEvent::Challenge(x)) => {
                &&& next.joint_combiner() == x@
                &&& action is DrawChallenge
            },
            (Stage::Beta, ProverEvent::Challenge(x)) => {
                let r = self.joint_combiner();
                let terms = all_partial_sums(w, d, r, x@);
                &&& !any_zero_denominator(w, d, r, x@)
                &&& fixed_tables_complete(w, d, r)
                &&& final_total(w, d, r, x@) == 0
                &&& next.beta() == x@
                &&& next.total() == 0
                &&& action matches ProverAction::CommitAndAbsorb(list)
                &&& rows_values(list@) == terms + ascending_values(fixed_tables(w, d, r))
            },
            (Stage::Terms, ProverEvent::Committed(commitments)) => {
                let r = self.joint_combiner();
                let terms = all_partial_sums(w, d, r, self.beta());
                &&& commitments@.len() == terms.len() + ascending_keys(
                    fixed_tables(w, d, r).dom(),
                ).len()
                &&& next.term_commitments() == commitments@
                &&& action matches ProverAction::CommitAndAbsorb(list)
                &&& rows_values(list@) == seq![running_sum(terms, d)]
            },
            (Stage::Aggregation, ProverEvent::Committed(commitments)) => {
                &&& commitments@.len() == 1
                &&& next.aggregation_commitment() == commitments@
                &&& action is Finish
            },
            _ => false,
        }
    }

    /// Whether the prover refuses `event` with the error `e`.
    pub open spec fn refuses(&self, event: ProverEvent<C>, e: LookupError) -> bool {
        let w = self.witnesses();
        let d = self.rows();
        match (self.stage(), event) {
            (Stage::Counters, ProverEvent::Committed(commitments)) => {
                &&& e == LookupError::IndexError
                &&& commitments@.len() != ascending_keys(counters(w).dom()).len()
            },
            (Stage::JointCombiner, ProverEvent::Challenge(x)) => false,
            (Stage::Beta, ProverEvent::Challenge(x)) => {
                if any_zero_denominator(w, d, self.joint_combiner(), x@) {
                    e == LookupError::ArithmeticError
                } else if !fixed_tables_complete(w, d, self.joint_combiner()) {
                    e == LookupError::IndexError
                } else {
                    e == LookupError::SumNotZero && final_total(w, d, self.joint_combiner(), x@)
                        != 0
                }
            },
            (Stage::Terms, ProverEvent::Committed(commitments)) => {
                let r = self.joint_combiner();
                &&& e == LookupError::IndexError
                &&& commitments@.len() != all_partial_sums(w, d, r, self.beta()).len()
                    + ascending_keys(fixed_tables(w, d, r).dom()).len()
            },
            (Stage::Aggregation, ProverEvent::Committed(commitments)) => {
                &&& e == LookupError::IndexError
                &&& commitments@.len() != 1
            },
            _ => e == LookupError::MissingData,
        }
    }

    /// Moves the prover on by one step of the protocol.
    ///
    /// The steps are: the multiplicities are committed to; the joint combiner
    /// is drawn; `beta` is drawn, on which the prover computes the partial
    /// sums, the fixed tables and the running sum, and hands out the partial
    /// sums, and then the fixed tables in ascending order of their encodings;
    /// these are committed to, on which the prover hands out the running sum;
    /// the running sum is committed to.
    ///
    /// An event that the stage does not wait for is refused with
    /// `MissingData`, a number of commitments other than the number of vectors
    /// handed out with `IndexError`. On `beta`, a zero denominator is refused
    /// with `ArithmeticError`, a fixed table without one value per row with
    /// `IndexError`, and a running sum that does not return to zero after the
    /// last row with `SumNotZero`.
    pub fn step(self, event: ProverEvent<C>) -> (r: Result<
        (ProverState<C, ID>, ProverAction),
        LookupError,
    >)
        ensures
            match r {
                Ok((next, action)) => {
                    &&& rank(next.stage()) == rank(self.stage()) + 1
                    &&& self.kept_by(next)
                    &&& self.proceeds(event, next, action)
                },
                Err(e) => self.refuses(event, e),
            },
    {
        proof {
            use_type_invariant(&self);
            assert(map_values_of(self.counters@).dom() =~= self.counters@.dom());
            assert(map_values_of(self.fixed_tables@).dom() =~= self.fixed_tables@.dom());
        }
        match (self.stage, event) {
            (Stage::Counters, ProverEvent::Committed(commitments)) => {
                let expected = entries_in_order(&self.counters).len();
                if commitments.len() != expected {
                    return Err(LookupError::IndexError);
                }
                let next = ProverState {
                    stage: Stage::JointCombiner,
                    counter_commitments: commitments,
                    ..self
                };
                Ok((next, ProverAction::DrawChallenge))
            },
            (Stage::JointCombiner, ProverEvent::Challenge(x)) => {
                let next = ProverState { stage: Stage::Beta, joint_combiner: x, ..self };
                Ok((next, ProverAction::DrawChallenge))
            },
            (Stage::Beta, ProverEvent::Challenge(x)) => {
                let ghost d = self.domain_size as nat;
                let terms = match lookup_terms(
                    &self.lookups,
                    self.domain_size,
                    &self.joint_combiner,
                    &x,
                ) {
                    Ok(terms) => terms,
                    Err(e) => {
                        return Err(e);
                    },
                };
                let fixed = match fixed_lookup_tables(
                    &self.lookups,
                    self.domain_size,
                    &self.joint_combiner,
                ) {
                    Ok(fixed) => fixed,
                    Err(e) => {
                        return Err(e);
                    },
                };
                proof {
                    lemma_partial_sums_rectangular(self.lookups@, d, self.joint_combiner@, x@);
                }
                let sum = match aggregate(&terms, self.domain_size) {
                    Ok(sum) => sum,
                    Err(e) => {
                        return Err(e);
                    },
                };
                if !sum.total.is_zero() {
                    return Err(LookupError::SumNotZero);
                }
                let mut list = copy_rows(&terms);
                let mut tables = copy_in_order(&fixed);
                proof {
                    assert(rows_values(list@ + tables@) =~= rows_values(list@) + rows_values(
                        tables@,
                    ));
                    assert forall|k: int| 0 <= k < terms@.len() implies (
                    #[trigger] terms@[k])@.len() == d by {
                        assert(rows_values(terms@)[k].len() == d);
                    }
                    assert forall|key: u32| fixed@.contains_key(key) implies (
                    #[trigger] fixed@[key])@.len() == d by {
                        assert(map_values_of(fixed@)[key] == values(fixed@[key]@));
                        assert(fixed_tables(self.lookups@, d, self.joint_combiner@).contains_key(
                            key,
                        ));
                    }
                    assert(values(sum.evaluations@).len() == d);
                }
                list.append(&mut tables);
                let next = ProverState {
                    stage: Stage::Terms,
                    beta: x,
                    terms,
                    fixed_tables: fixed,
                    running_sum: sum,
                    ..self
                };
                Ok((next, ProverAction::CommitAndAbsorb(list)))
            },
            (Stage::Terms, ProverEvent::Committed(commitments)) => {
                let tables = entries_in_order(&self.fixed_tables).len();
                let terms = self.terms.len();
                if commitments.len() < terms || commitments.len() - terms != tables {
                    return Err(LookupError::IndexError);
                }
                let mut list: Vec<Vec<Fe>> = Vec::new();
                list.push(copy_elements(&self.running_sum.evaluations));
                proof {
                    assert(rows_values(list@) =~= seq![values(self.running_sum.evaluations@)]);
                    assert(rows_values(self.terms@).len() == self.terms@.len());
                }
                let next = ProverState {
                    stage: Stage::Aggregation,
                    term_commitments: commitments,
                    ..self
                };
                Ok((next, ProverAction::CommitAndAbsorb(list)))
            },
            (Stage::Aggregation, ProverEvent::Committed(commitments)) => {
                if commitments.len() != 1 {
                    return Err(LookupError::IndexError);
                }
                let next = ProverState {
                    stage: Stage::Done,
                    aggregation_commitment: commitments,
                    ..self
                };
                Ok((next, ProverAction::Finish))
            },
            _ => Err(LookupError::MissingData),
        }
    }
}

/// Completeness of the prover: where every witness holds its table in the
/// last column, with the negated multiplicity of each row as the numerator,
/// and every value is looked up as often as the table declares, the running
/// sum returns to zero, and the prover does not refuse the challenge `beta`,
/// unless a denominator is zero or a fixed table does not get one value for
/// each row.
pub proof fn lemma_declared_lookups_are_accepted<C, ID: LookupTableID>(
    state: ProverState<C, ID>,
    beta: Fe,
    e: LookupError,
)
    requires
        state.stage() == Stage::Beta,
        forall|k: int|
            0 <= k < state.witnesses().len() ==> {
                &&& (#[trigger] state.witnesses()[k]).f@.len() > 0
                &&& state.witnesses()[k].conventional(state.rows())
                &&& state.witnesses()[k].looked_up_as_declared(state.rows())
            },
        !any_zero_denominator(state.witnesses(), state.rows(), state.joint_combiner(), beta@),
        fixed_tables_complete(state.witnesses(), state.rows(), state.joint_combiner()),
    ensures
        final_total(state.witnesses(), state.rows(), state.joint_combiner(), beta@) == 0,
        !state.refuses(ProverEvent::Challenge(beta), e),
{
    lemma_declared_lookups_sum_to_zero(
        state.witnesses(),
        state.rows(),
        state.joint_combiner(),
        beta@,
    );
}

/// Completeness of the prover for one witness: where the witness holds one
/// table in its last column, with the negated multiplicity of each row as the
/// numerator, and every value is looked up as often as the table declares,
/// the running sum returns to zero, and the prover does not refuse the
/// challenge `beta`, unless a denominator is zero.
pub proof fn lemma_one_declared_witness_is_accepted<C, ID: LookupTableID>(
    state: ProverState<C, ID>,
    beta: Fe,
    e: LookupError,
)
    requires
        state.stage() == Stage::Beta,
        state.witnesses().len() == 1,
        state.witnesses()[0].f@.len() > 0,
        state.witnesses()[0].conventional(state.rows()),
        state.witnesses()[0].looked_up_as_declared(state.rows()),
        state.witnesses()[0].holds_one_table(state.rows()),
        !any_zero_denominator(state.witnesses(), state.rows(), state.joint_combiner(), beta@),
    ensures
        final_total(state.witnesses(), state.rows(), state.joint_combiner(), beta@) == 0,
        !state.refuses(ProverEvent::Challenge(beta), e),
{
    let w = state.witnesses()[0];
    assert(state.witnesses() =~= seq![w]);
    lemma_one_table_is_complete(w, state.rows(), state.joint_combiner());
    lemma_declared_lookups_are_accepted(state, beta, e);
}

/// Whether two actions ask for the same: both for a challenge, both for
/// nothing more, or both for commitments to vectors with the same values.
pub open spec fn same_action(a: ProverAction, b: ProverAction) -> bool {
    match (a, b) {
        (ProverAction::CommitAndAbsorb(x), ProverAction::CommitAndAbsorb(y)) => rows_values(x@)
            == rows_values(y@),
        (ProverAction::DrawChallenge, ProverAction::DrawChallenge) => true,
        (ProverAction::Finish, ProverAction::Finish) => true,
        _ => false,
    }
}

/// The prover does not choose: what it asks for, and what it takes down of the
/// challenges and the commitments, is settled by its state and by the event.
pub proof fn lemma_prover_is_determined<C, ID: LookupTableID>(
    state: ProverState<C, ID>,
    event: ProverEvent<C>,
    first: (ProverState<C, ID>, ProverAction),
    second: (ProverState<C, ID>, ProverAction),
)
    requires
        state.kept_by(first.0),
        state.kept_by(second.0),
        state.proceeds(event, first.0, first.1),
        state.proceeds(event, second.0, second.1),
    ensures
        same_action(first.1, second.1),
        first.0.witnesses() == second.0.witnesses(),
        first.0.rows() == second.0.rows(),
        rank(state.stage()) >= 0 ==> first.0.counter_commitments()
            == second.0.counter_commitments(),
        rank(state.stage()) >= 1 ==> first.0.joint_combiner() == second.0.joint_combiner(),
        rank(state.stage()) >= 2 ==> first.0.beta() == second.0.beta() && first.0.total()
            == second.0.total(),
        rank(state.stage()) >= 3 ==> first.0.term_commitments() == second.0.term_commitments(),
        rank(state.stage()) >= 4 ==> first.0.aggregation_commitment()
            == second.0.aggregation_commitment(),
{
}

impl<C, ID: LookupTableID> ProverState<C, ID> {
    /// The environment that the prover has built, once all is done. Before
    /// that, the result is `MissingData`.
    pub fn into_env(self) -> (r: Result<Env<C>, LookupError>)
        ensures
            r is Ok <==> self.stage() == Stage::Done,
            r matches Err(e) ==> e == LookupError::MissingData,
            r matches Ok(env) ==> {
                &&& env.joint_combiner@ == self.joint_combiner()
                &&& env.beta@ == self.beta()
                &&& self.aggregation_commitment().len() == 1
                &&& env.holds(
                    self.witnesses(),
                    self.rows(),
                    self.counter_commitments(),
                    self.term_commitments(),
                    self.aggregation_commitment()[0],
                )
            },
    {
        proof {
            use_type_invariant(&self);
            assert(map_values_of(self.counters@).dom() =~= self.counters@.dom());
            assert(map_values_of(self.fixed_tables@).dom() =~= self.fixed_tables@.dom());
        }
        match self.stage {
            Stage::Done => {},
            _ => {
                return Err(LookupError::MissingData);
            },
        }
        let d = self.domain_size;
        let size = 8 * d;
        let lookup_counters_poly_d1 = interpolate_tables(&self.counters, d);
        let lookup_counters_evals_d8 = extend_tables(&lookup_counters_poly_d1, size);
        let lookup_counters_comm_d1 = key_items(&self.counters, self.counter_commitments);
        let lookup_terms_poly_d1 = interpolate_all(&self.terms, d);
        let lookup_terms_evals_d8 = extend_all(&lookup_terms_poly_d1, size);
        let mut lookup_terms_comms_d1 = self.term_commitments;
        let ghost all_commitments = lookup_terms_comms_d1@;
        let fixed_commitments = lookup_terms_comms_d1.split_off(self.terms.len());
        let fixed_lookup_tables_poly_d1 = interpolate_tables(&self.fixed_tables, d);
        let fixed_lookup_tables_evals_d8 = extend_tables(&fixed_lookup_tables_poly_d1, size);
        let fixed_lookup_tables_comms_d1 = key_items(&self.fixed_tables, fixed_commitments);
        let lookup_aggregation_poly_d1 = match interpolate(&self.running_sum.evaluations) {
            Some(polynomial) => polynomial,
            None => {
                return Err(LookupError::MissingData);
            },
        };
        let lookup_aggregation_evals_d8 = match evaluate_over_domain(
            &lookup_aggregation_poly_d1,
            size,
        ) {
            Some(evaluations) => evaluations,
            None => {
                return Err(LookupError::MissingData);
            },
        };
        let mut aggregation_commitment = self.aggregation_commitment;
        let lookup_aggregation_comm_d1 = match aggregation_commitment.pop() {
            Some(commitment) => commitment,
            None => {
                return Err(LookupError::MissingData);
            },
        };
        proof {
            assert(rows_values(self.terms@).len() == self.terms@.len());
            assert(all_commitments.subrange(0, self.terms@.len() as int) =~= all_commitments.take(
                self.terms@.len() as int,
            ));
            assert(all_commitments.subrange(
                self.terms@.len() as int,
                all_commitments.len() as int,
            ) =~= all_commitments.skip(self.terms@.len() as int));
        }
        Ok(
            Env {
                lookup_counters_poly_d1,
                lookup_counters_comm_d1,
                lookup_terms_poly_d1,
                lookup_terms_comms_d1,
                lookup_aggregation_poly_d1,
                lookup_aggregation_comm_d1,
                lookup_counters_evals_d8,
                lookup_terms_evals_d8,
                lookup_aggregation_evals_d8,
                fixed_lookup_tables_poly_d1,
                fixed_lookup_tables_comms_d1,
                fixed_lookup_tables_evals_d8,
                joint_combiner: self.joint_combiner,
                beta: self.beta,
            },
        )
    }
}

impl<C> Env<C> {
    /// Starts the prover on the given witnesses over `domain_size` rows.
    ///
    /// The prover first hands out the multiplicities of each fixed table, in
    /// ascending order of the tables' encodings, to be committed to.
    ///
    /// A number of rows that the field has no domain for is refused with
    /// `ConfigurationError`, and a witness that does not have one entry per
    /// row in every column with `IndexError`.
    pub fn create<ID: LookupTableID>(
        lookups: Vec<MVLookupWitness<Fe, ID>>,
        domain_size: usize,
    ) -> (r: Result<(ProverState<C, ID>, ProverAction), LookupError>)
        ensures
            match r {
                Ok((state, action)) => {
                    &&& supports_domain(domain_size)
                    &&& all_shaped(lookups@, domain_size as nat)
                    &&& state.stage() == Stage::Counters
                    &&& state.witnesses() == lookups@
                    &&& state.rows() == domain_size
                    &&& action matches ProverAction::CommitAndAbsorb(list)
                    &&& rows_values(list@) == ascending_values(counters(lookups@))
                },
                Err(e) => if supports_domain(domain_size) {
                    e == LookupError::IndexError && !all_shaped(lookups@, domain_size as nat)
                } else {
                    e == LookupError::ConfigurationError
                },
            },
    {
        if !check_domain(domain_size) {
            return Err(LookupError::ConfigurationError);
        }
        let counters = match lookup_counters(&lookups, domain_size) {
            Ok(counters) => counters,
            Err(e) => {
                return Err(e);
            },
        };
        let list = copy_in_order(&counters);
        proof {
            lemma_counters_of_size(lookups@, domain_size as nat);
            assert forall|key: u32| counters@.contains_key(key) implies (
            #[trigger] counters@[key])@.len() == domain_size by {
                assert(map_values_of(counters@)[key] == values(counters@[key]@));
            }
        }
        let state = ProverState {
            stage: Stage::Counters,
            lookups,
            domain_size,
            counters,
            counter_commitments: Vec::new(),
            joint_combiner: Fe::zero(),
            beta: Fe::zero(),
            terms: Vec::new(),
            fixed_tables: BTreeMap::new(),
            running_sum: RunningSum { evaluations: Vec::new(), total: Fe::zero() },
            term_commitments: Vec::new(),
            aggregation_commitment: Vec::new(),
        };
        Ok((state, ProverAction::CommitAndAbsorb(list)))
    }
}

} // verus!
