use mvlookup::error::LookupError;
use mvlookup::field::Fe;
use mvlookup::lookups::LookupTableIDs;
use mvlookup::mvlookup::prover::{Env, ProverAction, ProverEvent, ProverState, Stage};
use mvlookup::mvlookup::sums::{aggregate, lookup_terms};
use mvlookup::mvlookup::tables::{fixed_lookup_tables, lookup_counters};
use mvlookup::mvlookup::{MVLookup, MVLookupWitness};
use mvlookup::poly::{evaluate_over_domain, interpolate};

fn fe(x: u64) -> Fe {
    Fe::from_u64(x)
}

fn neg(x: &Fe) -> Fe {
    Fe::zero().sub(x)
}

fn lookup(id: LookupTableIDs, numerator: Fe, value: &[u64]) -> MVLookup<Fe, LookupTableIDs> {
    MVLookup::new(id, numerator, value.iter().map(|v| fe(*v)).collect())
}

fn witness(
    id: LookupTableIDs,
    table: &[u64],
    looked_up: &[u64],
    multiplicities: &[u64],
) -> MVLookupWitness<Fe, LookupTableIDs> {
    let lookups = looked_up.iter().map(|v| lookup(id, Fe::one(), &[*v])).collect();
    let rows = table
        .iter()
        .zip(multiplicities)
        .map(|(t, m)| lookup(id, neg(&fe(*m)), &[*t]))
        .collect();
    MVLookupWitness { f: vec![lookups, rows], m: multiplicities.iter().map(|m| fe(*m)).collect() }
}

fn two_tables() -> Vec<MVLookupWitness<Fe, LookupTableIDs>> {
    vec![
        witness(LookupTableIDs::RangeCheck16, &[5, 6, 7, 8], &[5, 5, 8, 8], &[2, 0, 0, 2]),
        witness(LookupTableIDs::RangeCheck2, &[0, 1, 2, 3], &[0, 2, 1, 3], &[1, 1, 1, 1]),
    ]
}

fn committed(
    state: ProverState<u64, LookupTableIDs>,
    commitments: Vec<u64>,
) -> (ProverState<u64, LookupTableIDs>, ProverAction) {
    state.step(ProverEvent::Committed(commitments)).unwrap()
}

fn challenged(
    state: ProverState<u64, LookupTableIDs>,
    challenge: Fe,
) -> (ProverState<u64, LookupTableIDs>, ProverAction) {
    state.step(ProverEvent::Challenge(challenge)).unwrap()
}

fn handed_out(action: ProverAction) -> Vec<Vec<Fe>> {
    match action {
        ProverAction::CommitAndAbsorb(list) => list,
        other => panic!("vectors were expected, not {:?}", other),
    }
}

#[test]
fn counters_are_the_multiplicities_of_the_fixed_tables() {
    let counters = lookup_counters(&two_tables(), 4).unwrap();
    assert_eq!(counters.len(), 2);
    assert_eq!(counters[&1], vec![fe(1), fe(1), fe(1), fe(1)]);
    assert_eq!(counters[&2], vec![fe(2), fe(0), fe(0), fe(2)]);
    // a table that is not fixed has no multiplicities
    let memory = witness(LookupTableIDs::Memory, &[0, 1], &[0, 0], &[2, 0]);
    assert_eq!(lookup_counters(&vec![memory], 2).unwrap().len(), 0);
    // of two witnesses for one table, the last one counts
    let a = witness(LookupTableIDs::RangeCheck2, &[0, 1], &[0, 0], &[2, 0]);
    let b = witness(LookupTableIDs::RangeCheck2, &[0, 1], &[1, 1], &[0, 2]);
    let counters = lookup_counters(&vec![a, b], 2).unwrap();
    assert_eq!(counters.len(), 1);
    assert_eq!(counters[&1], vec![fe(0), fe(2)]);
    assert_eq!(
        lookup_counters(&two_tables(), 8).unwrap_err(),
        LookupError::IndexError
    );
}

#[test]
fn fixed_tables_hold_the_combined_values_of_the_last_column() {
    let r = fe(10);
    let fixed = fixed_lookup_tables(&two_tables(), 4, &r).unwrap();
    assert_eq!(fixed.len(), 2);
    // the encoding of the table, plus the combiner times the value
    assert_eq!(fixed[&1], vec![fe(1), fe(11), fe(21), fe(31)]);
    assert_eq!(fixed[&2], vec![fe(52), fe(62), fe(72), fe(82)]);
    let memory = witness(LookupTableIDs::Memory, &[0, 1], &[0, 0], &[2, 0]);
    assert_eq!(fixed_lookup_tables(&vec![memory], 2, &r).unwrap().len(), 0);
}

#[test]
fn fixed_tables_refuse_a_table_without_one_value_per_row() {
    let r = fe(10);
    // two witnesses give values for the same table
    let a = witness(LookupTableIDs::RangeCheck2, &[0, 1], &[0, 0], &[2, 0]);
    let b = witness(LookupTableIDs::RangeCheck2, &[0, 1], &[1, 1], &[0, 2]);
    assert_eq!(fixed_lookup_tables(&vec![a, b], 2, &r).unwrap_err(), LookupError::IndexError);
    // the last column changes its table from one row to the next
    let id = LookupTableIDs::RangeCheck2;
    let other = LookupTableIDs::RangeCheck16;
    let w = MVLookupWitness {
        f: vec![vec![lookup(id, fe(1), &[1]), lookup(other, fe(1), &[2])]],
        m: vec![fe(0), fe(0)],
    };
    assert_eq!(fixed_lookup_tables(&vec![w], 2, &r).unwrap_err(), LookupError::IndexError);
    assert_eq!(
        fixed_lookup_tables(&two_tables(), 2, &r).unwrap_err(),
        LookupError::IndexError
    );
}

#[test]
fn prover_runs_through_the_protocol_in_order() {
    let lookups = two_tables();
    let r = fe(17);
    let beta = fe(123456789);
    let (state, action) = Env::<u64>::create(two_tables(), 4).unwrap();
    assert_eq!(state.current_stage(), Stage::Counters);
    assert!(state.running_sum().is_none());
    // the multiplicities, in ascending order of the tables' encodings
    assert_eq!(
        handed_out(action),
        vec![vec![fe(1), fe(1), fe(1), fe(1)], vec![fe(2), fe(0), fe(0), fe(2)]]
    );
    let (state, action) = committed(state, vec![100, 101]);
    assert_eq!(state.current_stage(), Stage::JointCombiner);
    assert!(matches!(action, ProverAction::DrawChallenge));
    let (state, action) = challenged(state, r);
    assert_eq!(state.current_stage(), Stage::Beta);
    assert!(matches!(action, ProverAction::DrawChallenge));
    let (state, action) = challenged(state, beta);
    assert_eq!(state.current_stage(), Stage::Terms);
    // the partial sums, and then the fixed tables in ascending order
    let terms = lookup_terms(&lookups, 4, &r, &beta).unwrap();
    let sum = aggregate(&terms, 4).unwrap();
    let list = handed_out(action);
    assert_eq!(list.len(), 4);
    assert_eq!(list[0], terms[0]);
    assert_eq!(list[1], terms[1]);
    assert_eq!(list[2], vec![fe(1), fe(18), fe(35), fe(52)]);
    assert_eq!(list[3], vec![fe(87), fe(104), fe(121), fe(138)]);
    assert_eq!(state.running_sum().unwrap().evaluations, sum.evaluations);
    assert!(state.running_sum().unwrap().total.is_zero());
    let (state, action) = committed(state, vec![200, 201, 202, 203]);
    assert_eq!(state.current_stage(), Stage::Aggregation);
    assert_eq!(handed_out(action), vec![sum.evaluations.clone()]);
    let (state, action) = committed(state, vec![300]);
    assert_eq!(state.current_stage(), Stage::Done);
    assert!(matches!(action, ProverAction::Finish));

    let env = state.into_env().unwrap();
    assert_eq!(env.joint_combiner, r);
    assert_eq!(env.beta, beta);
    assert_eq!(env.lookup_counters_comm_d1.len(), 2);
    assert_eq!(env.lookup_counters_comm_d1[&1], 100);
    assert_eq!(env.lookup_counters_comm_d1[&2], 101);
    assert_eq!(env.lookup_terms_comms_d1, vec![200, 201]);
    assert_eq!(env.fixed_lookup_tables_comms_d1.len(), 2);
    assert_eq!(env.fixed_lookup_tables_comms_d1[&1], 202);
    assert_eq!(env.fixed_lookup_tables_comms_d1[&2], 203);
    assert_eq!(env.lookup_aggregation_comm_d1, 300);
    // the polynomials take the evaluations on the domain
    assert_eq!(env.lookup_terms_poly_d1.len(), 2);
    for k in 0..2 {
        assert_eq!(evaluate_over_domain(&env.lookup_terms_poly_d1[k], 4).unwrap(), terms[k]);
        assert_eq!(
            env.lookup_terms_evals_d8[k],
            evaluate_over_domain(&env.lookup_terms_poly_d1[k], 32).unwrap()
        );
        assert_eq!(env.lookup_terms_evals_d8[k].len(), 32);
    }
    assert_eq!(env.lookup_aggregation_poly_d1, interpolate(&sum.evaluations).unwrap());
    assert_eq!(env.lookup_aggregation_evals_d8.len(), 32);
    assert_eq!(
        evaluate_over_domain(&env.lookup_counters_poly_d1[&2], 4).unwrap(),
        vec![fe(2), fe(0), fe(0), fe(2)]
    );
    assert_eq!(
        evaluate_over_domain(&env.fixed_lookup_tables_poly_d1[&1], 4).unwrap(),
        vec![fe(1), fe(18), fe(35), fe(52)]
    );
    assert_eq!(env.lookup_counters_evals_d8[&1].len(), 32);
    assert_eq!(env.fixed_lookup_tables_evals_d8[&2].len(), 32);
    // every fourth point of the extended domain is a point of the domain
    let extended = &env.lookup_aggregation_evals_d8;
    for j in 0..4 {
        assert_eq!(extended[8 * j], sum.evaluations[j]);
    }
    let quotient = env.quotient_environment();
    assert_eq!(quotient.lookup_terms_evals_d8, &env.lookup_terms_evals_d8);
    assert_eq!(quotient.lookup_aggregation_evals_d8, &env.lookup_aggregation_evals_d8);
    assert_eq!(quotient.lookup_counters_evals_d8, &env.lookup_counters_evals_d8);
    assert_eq!(quotient.fixed_tables_evals_d8, &env.fixed_lookup_tables_evals_d8);
}

#[test]
fn prover_gives_the_same_answers_to_the_same_events() {
    let run = || {
        let (state, first) = Env::<u64>::create(two_tables(), 4).unwrap();
        let (state, _) = committed(state, vec![1, 2]);
        let (state, _) = challenged(state, fe(5));
        let (state, second) = challenged(state, fe(6));
        let (state, third) = committed(state, vec![3, 4, 5, 6]);
        let (state, _) = committed(state, vec![7]);
        let env = state.into_env().unwrap();
        (handed_out(first), handed_out(second), handed_out(third), env.lookup_terms_poly_d1)
    };
    assert_eq!(run(), run());
}

#[test]
fn prover_without_witnesses_hands_out_nothing_but_the_running_sum() {
    let none = Vec::<MVLookupWitness<Fe, LookupTableIDs>>::new();
    let (state, action) = Env::<u64>::create(none, 2).unwrap();
    assert_eq!(handed_out(action).len(), 0);
    let (state, _) = committed(state, vec![]);
    let (state, _) = challenged(state, fe(5));
    let (state, action) = challenged(state, fe(6));
    assert_eq!(handed_out(action).len(), 0);
    let (state, action) = committed(state, vec![]);
    assert_eq!(handed_out(action), vec![vec![fe(0), fe(0)]]);
    let (state, _) = committed(state, vec![9]);
    let env = state.into_env().unwrap();
    assert_eq!(env.lookup_aggregation_poly_d1.len(), 0);
    assert_eq!(env.lookup_aggregation_evals_d8, vec![fe(0); 16]);
}

#[test]
fn create_refuses_a_number_of_rows_without_a_domain() {
    for rows in [0usize, 3, 6, 1 << 26, 1 << 28, usize::MAX] {
        let r = Env::<u64>::create(two_tables(), rows);
        assert_eq!(r.unwrap_err(), LookupError::ConfigurationError, "{} rows", rows);
    }
    // a domain that the witnesses do not fit
    let r = Env::<u64>::create(two_tables(), 8);
    assert_eq!(r.unwrap_err(), LookupError::IndexError);
}

#[test]
fn step_refuses_an_event_out_of_turn() {
    let (state, _) = Env::<u64>::create(two_tables(), 4).unwrap();
    let r = state.step(ProverEvent::Challenge(fe(1)));
    assert_eq!(r.unwrap_err(), LookupError::MissingData);
    let (state, _) = Env::<u64>::create(two_tables(), 4).unwrap();
    let (state, _) = committed(state, vec![1, 2]);
    let r = state.step(ProverEvent::Committed(vec![]));
    assert_eq!(r.unwrap_err(), LookupError::MissingData);
    let (state, _) = Env::<u64>::create(two_tables(), 4).unwrap();
    let (state, _) = committed(state, vec![1, 2]);
    let (state, _) = challenged(state, fe(5));
    let (state, _) = challenged(state, fe(6));
    let (state, _) = committed(state, vec![3, 4, 5, 6]);
    let (state, _) = committed(state, vec![7]);
    let r = state.step(ProverEvent::Committed(vec![8]));
    assert_eq!(r.unwrap_err(), LookupError::MissingData);
}

#[test]
fn step_refuses_a_wrong_number_of_commitments() {
    let (state, _) = Env::<u64>::create(two_tables(), 4).unwrap();
    let r = state.step(ProverEvent::Committed(vec![1]));
    assert_eq!(r.unwrap_err(), LookupError::IndexError);
    let (state, _) = Env::<u64>::create(two_tables(), 4).unwrap();
    let (state, _) = committed(state, vec![1, 2]);
    let (state, _) = challenged(state, fe(5));
    let (state, _) = challenged(state, fe(6));
    let r = state.step(ProverEvent::Committed(vec![3, 4, 5]));
    assert_eq!(r.unwrap_err(), LookupError::IndexError);
    let (state, _) = Env::<u64>::create(two_tables(), 4).unwrap();
    let (state, _) = committed(state, vec![1, 2]);
    let (state, _) = challenged(state, fe(5));
    let (state, _) = challenged(state, fe(6));
    let (state, _) = committed(state, vec![3, 4, 5, 6]);
    let r = state.step(ProverEvent::Committed(vec![7, 8]));
    assert_eq!(r.unwrap_err(), LookupError::IndexError);
}

#[test]
fn step_refuses_a_zero_denominator() {
    // the first lookup has the combined value 2 + 3 * 5 = 17
    let (state, _) = Env::<u64>::create(two_tables(), 4).unwrap();
    let (state, _) = committed(state, vec![1, 2]);
    let (state, _) = challenged(state, fe(3));
    let r = state.step(ProverEvent::Challenge(neg(&fe(17))));
    assert_eq!(r.unwrap_err(), LookupError::ArithmeticError);
}

#[test]
fn into_env_refuses_a_prover_that_is_not_done() {
    let (state, _) = Env::<u64>::create(two_tables(), 4).unwrap();
    assert_eq!(state.into_env().unwrap_err(), LookupError::MissingData);
    let (state, _) = Env::<u64>::create(two_tables(), 4).unwrap();
    let (state, _) = committed(state, vec![1, 2]);
    let (state, _) = challenged(state, fe(5));
    let (state, _) = challenged(state, fe(6));
    let (state, _) = committed(state, vec![3, 4, 5, 6]);
    assert_eq!(state.into_env().unwrap_err(), LookupError::MissingData);
}

#[test]
fn step_refuses_a_running_sum_that_does_not_return_to_zero() {
    // the value 2 is looked up, but the table holds 0, 1 and 3 only
    for table in [[0u64, 1, 3, 3], [0, 1, 3, 0], [3, 1, 0, 1]] {
        for _ in 0..10 {
            let id = LookupTableIDs::RangeCheck2;
            let bad = vec![witness(id, &table, &[0, 2, 1, 3], &[1, 1, 1, 1])];
            let (state, _) = Env::<u64>::create(bad, 4).unwrap();
            let (state, _) = committed(state, vec![1]);
            let (state, _) = challenged(state, Fe::random());
            let r = state.step(ProverEvent::Challenge(Fe::random()));
            assert_eq!(r.unwrap_err(), LookupError::SumNotZero);
        }
    }
    // a wrong multiplicity
    let id = LookupTableIDs::RangeCheck2;
    let bad = vec![witness(id, &[0, 1, 2, 3], &[0, 2, 1, 3], &[1, 1, 2, 1])];
    let (state, _) = Env::<u64>::create(bad, 4).unwrap();
    let (state, _) = committed(state, vec![1]);
    let (state, _) = challenged(state, fe(2));
    let r = state.step(ProverEvent::Challenge(fe(3)));
    assert_eq!(r.unwrap_err(), LookupError::SumNotZero);
}

#[test]
fn step_tells_a_zero_denominator_and_an_incomplete_table_before_the_sum() {
    // the sum does not return to zero, and the first denominator is zero
    let id = LookupTableIDs::RangeCheck2;
    let bad = vec![witness(id, &[0, 1, 3, 3], &[0, 2, 1, 3], &[1, 1, 1, 1])];
    let (state, _) = Env::<u64>::create(bad, 4).unwrap();
    let (state, _) = committed(state, vec![1]);
    let (state, _) = challenged(state, fe(3));
    let r = state.step(ProverEvent::Challenge(neg(&fe(1))));
    assert_eq!(r.unwrap_err(), LookupError::ArithmeticError);
    // the sum does not return to zero, and two witnesses fill the same table
    let bad = vec![
        witness(LookupTableIDs::RangeCheck2, &[0, 1, 3, 3], &[0, 2, 1, 3], &[1, 1, 1, 1]),
        witness(LookupTableIDs::RangeCheck2, &[0, 1, 2, 3], &[0, 2, 1, 3], &[1, 1, 1, 1]),
    ];
    let (state, _) = Env::<u64>::create(bad, 4).unwrap();
    let (state, _) = committed(state, vec![1]);
    let (state, _) = challenged(state, fe(3));
    let r = state.step(ProverEvent::Challenge(fe(1000)));
    assert_eq!(r.unwrap_err(), LookupError::IndexError);
}

#[test]
fn prover_takes_a_witness_drawn_at_random() {
    for rows in [1usize, 2, 16] {
        let w = mvlookup::lookups::LookupWitness::random(rows);
        let (state, action) = Env::<u64>::create(vec![w.clone()], rows).unwrap();
        assert_eq!(handed_out(action), vec![vec![fe(1); rows]]);
        let (state, _) = committed(state, vec![1]);
        let (state, _) = challenged(state, Fe::random());
        let (state, action) = challenged(state, Fe::random());
        assert_eq!(handed_out(action).len(), 2);
        assert!(state.running_sum().unwrap().total.is_zero());
        let (state, _) = committed(state, vec![2, 3]);
        let (state, _) = committed(state, vec![4]);
        let env = state.into_env().unwrap();
        assert_eq!(env.lookup_terms_poly_d1.len(), 1);
        assert_eq!(env.fixed_lookup_tables_comms_d1[&2], 3);
    }
}
