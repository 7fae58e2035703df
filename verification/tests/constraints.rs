use mvlookup::columns::{Column, CurrOrNext};
use mvlookup::error::LookupError;
use mvlookup::expr::{ChallengeTerm, Expr};
use mvlookup::field::Fe;
use mvlookup::lookups::LookupTableIDs;
use mvlookup::mvlookup::{combine_lookups, constraint_lookups, LookupProof, LookupTableID, MVLookup};
use mvlookup::proofs::{PointEvaluations, ProofEvaluations};
use mvlookup::witness::Witness;
use std::collections::BTreeMap;

fn fe(x: u64) -> Fe {
    Fe::from_u64(x)
}

fn neg(x: &Fe) -> Fe {
    Fe::zero().sub(x)
}

fn inverse(x: &Fe) -> Fe {
    let mut v = vec![*x];
    mvlookup::field::batch_inversion(&mut v);
    v[0]
}

fn at(zeta: Fe, zeta_omega: Fe) -> PointEvaluations<Fe> {
    PointEvaluations { zeta, zeta_omega }
}

fn cell(column: Column) -> Expr {
    Expr::curr_cell(column)
}

fn product(a: Expr, b: Expr) -> Expr {
    Expr::Mul(Box::new(a), Box::new(b))
}

/// A lookup of the witness column `i` in the table of two bits.
fn lookup_of_column(i: usize) -> MVLookup<Expr, LookupTableIDs> {
    MVLookup::new(LookupTableIDs::RangeCheck2, Expr::Literal(fe(1)), vec![cell(Column::X(i))])
}

/// The term of a table: its multiplicity over its value.
fn table_term(id: LookupTableIDs) -> MVLookup<Expr, LookupTableIDs> {
    MVLookup::new(
        id,
        cell(Column::LookupMultiplicity(id.to_u32())),
        vec![cell(Column::LookupFixedTable(id.to_u32()))],
    )
}

/// The evaluations of a proof with two witness columns, `h.len()` partial sums
/// and the table of two bits.
fn evaluations(x: [u64; 2], m: Fe, t: u64, h: Vec<Fe>, sum: (Fe, Fe)) -> ProofEvaluations<2, Fe> {
    let mut multiplicities = BTreeMap::new();
    multiplicities.insert(1u32, at(m, fe(0)));
    let mut fixed_tables = BTreeMap::new();
    fixed_tables.insert(1u32, at(fe(t), fe(0)));
    ProofEvaluations {
        witness_evals: Witness::new(vec![at(fe(x[0]), fe(0)), at(fe(x[1]), fe(0))]).unwrap(),
        mvlookup_evals: Some(LookupProof {
            m: multiplicities,
            h: h.into_iter().map(|v| at(v, fe(0))).collect(),
            sum: at(sum.0, sum.1),
            fixed_tables,
        }),
        ft_eval1: fe(0),
    }
}

#[test]
fn combine_lookups_of_one_lookup_and_its_table() {
    let constraint = combine_lookups(
        Column::LookupPartialSum(0),
        vec![lookup_of_column(0), table_term(LookupTableIDs::RangeCheck2)],
    )
    .unwrap();
    assert_eq!(constraint.compute_degree(), 3);
    let beta = fe(100);
    let r = fe(10);
    // the lookup has the denominator 100 + 1 + 10 * 3, the table 100 + 1 + 10 * 2
    let d0 = fe(131);
    let d1 = fe(121);
    let m = neg(&fe(1));
    for h in [fe(0), fe(5), inverse(&d0).sub(&inverse(&d1))] {
        let evals = evaluations([3, 0], m, 2, vec![h], (fe(0), fe(0)));
        let value = evals.evaluate_expression(&constraint, &beta, &r).unwrap();
        let expected = h.mul(&d0).mul(&d1).sub(&fe(1).mul(&d1).add(&m.mul(&d0)));
        assert_eq!(value, expected);
    }
    // the constraint vanishes on the sum of the two fractions, and only there
    let h = inverse(&d0).sub(&inverse(&d1));
    let evals = evaluations([3, 0], m, 2, vec![h], (fe(0), fe(0)));
    assert!(evals.evaluate_expression(&constraint, &beta, &r).unwrap().is_zero());
    let evals = evaluations([3, 0], m, 2, vec![h.add(&fe(1))], (fe(0), fe(0)));
    assert_eq!(evals.evaluate_expression(&constraint, &beta, &r).unwrap(), d0.mul(&d1));
    // with 5 for the partial sum: 5 * 131 * 121 - (121 - 131)
    let evals = evaluations([3, 0], m, 2, vec![fe(5)], (fe(0), fe(0)));
    assert_eq!(evals.evaluate_expression(&constraint, &beta, &r).unwrap(), fe(79265));
}

#[test]
fn combine_lookups_of_vector_lookups() {
    // the value (x0, x1) is combined to 2 + r * x0 + r * r * x1
    let vector = MVLookup::new(
        LookupTableIDs::RangeCheck16,
        Expr::Literal(fe(4)),
        vec![cell(Column::X(0)), cell(Column::X(1))],
    );
    let constraint = combine_lookups(Column::LookupPartialSum(0), vec![vector]).unwrap();
    assert_eq!(constraint.compute_degree(), 2);
    let evals = evaluations([3, 7], fe(0), 0, vec![fe(9)], (fe(0), fe(0)));
    // 9 * (1000 + 2 + 10 * 3 + 100 * 7) - 4
    let value = evals.evaluate_expression(&constraint, &fe(1000), &fe(10)).unwrap();
    assert_eq!(value, fe(9 * 1732 - 4));
}

#[test]
fn combine_lookups_of_nothing_is_the_cell_itself() {
    let none: Vec<MVLookup<Expr, LookupTableIDs>> = Vec::new();
    let constraint = combine_lookups(Column::LookupPartialSum(0), none).unwrap();
    let evals = evaluations([0, 0], fe(0), 0, vec![fe(42)], (fe(0), fe(0)));
    assert_eq!(evals.evaluate_expression(&constraint, &fe(1), &fe(1)).unwrap(), fe(42));
}

#[test]
fn combine_lookups_refuses_a_value_that_is_not_of_degree_one() {
    let id = LookupTableIDs::RangeCheck2;
    let column = Column::LookupPartialSum(0);
    let constant = MVLookup::new(id, Expr::Literal(fe(1)), vec![Expr::Literal(fe(5))]);
    assert_eq!(
        combine_lookups(column, vec![lookup_of_column(0), constant]).unwrap_err(),
        LookupError::ConfigurationError
    );
    let square = MVLookup::new(
        id,
        Expr::Literal(fe(1)),
        vec![cell(Column::X(0)), product(cell(Column::X(0)), cell(Column::X(1)))],
    );
    assert_eq!(
        combine_lookups(column, vec![square]).unwrap_err(),
        LookupError::ConfigurationError
    );
    let empty = MVLookup::new(id, Expr::Literal(fe(1)), vec![]);
    assert_eq!(
        combine_lookups(column, vec![empty]).unwrap_err(),
        LookupError::ConfigurationError
    );
    let challenge = MVLookup::new(
        id,
        Expr::Literal(fe(1)),
        vec![Expr::Challenge(ChallengeTerm::Beta)],
    );
    assert_eq!(
        combine_lookups(column, vec![challenge]).unwrap_err(),
        LookupError::ConfigurationError
    );
}

#[test]
fn constraint_lookups_of_one_table() {
    let mut lookups = BTreeMap::new();
    lookups.insert(1u32, vec![lookup_of_column(0)]);
    let constraints = constraint_lookups(&lookups).unwrap();
    assert_eq!(constraints.len(), 2);
    let beta = fe(100);
    let r = fe(10);
    let d0 = fe(131);
    let d1 = fe(121);
    let m = neg(&fe(1));
    let h = inverse(&d0).sub(&inverse(&d1));
    // the running sum goes from 50 to 50 + h
    let evals = evaluations([3, 0], m, 2, vec![h], (fe(50), fe(50).add(&h)));
    for constraint in &constraints {
        assert!(evals.evaluate_expression(constraint, &beta, &r).unwrap().is_zero());
    }
    // next - curr - h, with a running sum that stays where it is
    let evals = evaluations([3, 0], m, 2, vec![fe(7)], (fe(50), fe(50)));
    assert_eq!(evals.evaluate_expression(&constraints[1], &beta, &r).unwrap(), neg(&fe(7)));
    let same = combine_lookups(
        Column::LookupPartialSum(0),
        vec![lookup_of_column(0), table_term(LookupTableIDs::RangeCheck2)],
    )
    .unwrap();
    assert_eq!(
        evals.evaluate_expression(&constraints[0], &beta, &r).unwrap(),
        evals.evaluate_expression(&same, &beta, &r).unwrap()
    );
}

#[test]
fn constraint_lookups_numbers_the_partial_sums_through_the_tables() {
    // six lookups and the table make two chunks; one lookup and the table one
    let mut lookups = BTreeMap::new();
    lookups.insert(
        2u32,
        vec![MVLookup::new(
            LookupTableIDs::RangeCheck16,
            Expr::Literal(fe(1)),
            vec![cell(Column::X(1))],
        )],
    );
    lookups.insert(1u32, (0..6).map(|_| lookup_of_column(0)).collect::<Vec<_>>());
    let constraints = constraint_lookups(&lookups).unwrap();
    assert_eq!(constraints.len(), 4);
    assert_eq!(constraints[0].compute_degree(), 7);
    assert_eq!(constraints[1].compute_degree(), 2);
    assert_eq!(constraints[2].compute_degree(), 3);
    assert_eq!(constraints[3].compute_degree(), 1);
    let mut evals = evaluations(
        [3, 4],
        fe(2),
        2,
        vec![fe(1000), fe(2000), fe(4000)],
        (fe(10), fe(17)),
    );
    let section = evals.mvlookup_evals.as_mut().unwrap();
    section.m.insert(2, at(fe(5), fe(0)));
    section.fixed_tables.insert(2, at(fe(6), fe(0)));
    let beta = fe(100);
    let r = fe(10);
    // the second chunk of the first table holds the table's term alone
    let d1 = fe(121);
    assert_eq!(
        evals.evaluate_expression(&constraints[1], &beta, &r).unwrap(),
        fe(2000).mul(&d1).sub(&fe(2))
    );
    // the second table is tied to the third partial sum
    let d0 = fe(100 + 2 + 40);
    let dt = fe(100 + 2 + 60);
    assert_eq!(
        evals.evaluate_expression(&constraints[2], &beta, &r).unwrap(),
        fe(4000).mul(&d0).mul(&dt).sub(&dt.add(&fe(5).mul(&d0)))
    );
    // 17 - 10 - (1000 + 2000 + 4000)
    assert_eq!(
        evals.evaluate_expression(&constraints[3], &beta, &r).unwrap(),
        neg(&fe(6993))
    );
}

#[test]
fn constraint_lookups_without_tables_is_the_constraint_on_the_running_sum() {
    let lookups: BTreeMap<u32, Vec<MVLookup<Expr, LookupTableIDs>>> = BTreeMap::new();
    let constraints = constraint_lookups(&lookups).unwrap();
    assert_eq!(constraints.len(), 1);
    let evals = evaluations([0, 0], fe(0), 0, vec![], (fe(3), fe(10)));
    assert_eq!(evals.evaluate_expression(&constraints[0], &fe(1), &fe(1)).unwrap(), fe(7));
}

#[test]
fn constraint_lookups_refuses_a_value_that_is_not_of_degree_one() {
    let mut lookups = BTreeMap::new();
    lookups.insert(1u32, vec![lookup_of_column(0)]);
    lookups.insert(
        2u32,
        vec![MVLookup::new(
            LookupTableIDs::RangeCheck16,
            Expr::Literal(fe(1)),
            vec![Expr::Literal(fe(1))],
        )],
    );
    assert_eq!(constraint_lookups(&lookups).unwrap_err(), LookupError::ConfigurationError);
}

#[test]
fn combine_lookups_takes_expressions_held_elsewhere_by_their_degree() {
    let id = LookupTableIDs::RangeCheck2;
    let column = Column::LookupPartialSum(0);
    let linear = MVLookup::new(id, Expr::Outside(0, 4), vec![Expr::Outside(1, 1)]);
    let constraint = combine_lookups(column, vec![linear, lookup_of_column(0)]).unwrap();
    // the numerator of degree four, times the other denominator
    assert_eq!(constraint.compute_degree(), 5);
    let constant = MVLookup::new(id, Expr::Literal(fe(1)), vec![Expr::Outside(1, 0)]);
    assert_eq!(
        combine_lookups(column, vec![constant]).unwrap_err(),
        LookupError::ConfigurationError
    );
    let square = MVLookup::new(id, Expr::Literal(fe(1)), vec![Expr::Outside(1, 2)]);
    assert_eq!(
        combine_lookups(column, vec![square]).unwrap_err(),
        LookupError::ConfigurationError
    );
}

#[test]
fn constraint_lookups_refuses_a_key_that_stands_for_no_table() {
    let mut lookups = BTreeMap::new();
    lookups.insert(1u32, vec![lookup_of_column(0)]);
    lookups.insert(7u32, vec![lookup_of_column(0)]);
    assert_eq!(constraint_lookups(&lookups).unwrap_err(), LookupError::IndexError);
    // a key that stands for no table is told before a value of another degree
    lookups.insert(
        2u32,
        vec![MVLookup::new(
            LookupTableIDs::RangeCheck16,
            Expr::Literal(fe(1)),
            vec![Expr::Literal(fe(1))],
        )],
    );
    assert_eq!(constraint_lookups(&lookups).unwrap_err(), LookupError::IndexError);
}

#[test]
fn constraints_stay_within_the_highest_supported_degree() {
    // numerators of degree three, in chunks of six, five and one with the table
    let cubic = product(cell(Column::X(0)), product(cell(Column::X(0)), cell(Column::X(1))));
    let mut lookups = BTreeMap::new();
    lookups.insert(
        1u32,
        (0..11)
            .map(|_| {
                MVLookup::new(LookupTableIDs::RangeCheck2, cubic.clone(), vec![cell(Column::X(0))])
            })
            .collect::<Vec<_>>(),
    );
    let constraints = constraint_lookups(&lookups).unwrap();
    assert_eq!(constraints.len(), 3);
    assert_eq!(constraints[0].compute_degree(), 8);
    assert_eq!(constraints[1].compute_degree(), 8);
    assert_eq!(constraints[2].compute_degree(), 1);
    for constraint in &constraints {
        assert!(constraint.compute_degree() <= mvlookup::MAX_SUPPORTED_DEGREE as u64);
    }
}

#[test]
fn degree_counts_the_cells_of_a_product() {
    let x = cell(Column::X(0));
    assert_eq!(x.compute_degree(), 1);
    assert_eq!(Expr::Literal(fe(3)).compute_degree(), 0);
    assert_eq!(Expr::Challenge(ChallengeTerm::JointCombiner).compute_degree(), 0);
    let square = product(x.clone(), x.clone());
    assert_eq!(square.compute_degree(), 2);
    let sum = Expr::Add(Box::new(square.clone()), Box::new(x.clone()));
    assert_eq!(sum.compute_degree(), 2);
    let difference = Expr::Sub(Box::new(x.clone()), Box::new(product(square, x)));
    assert_eq!(difference.compute_degree(), 3);
    assert_eq!(difference.clone().compute_degree(), 3);
    assert!(matches!(
        Expr::next_cell(Column::LookupAggregation),
        Expr::Cell(Column::LookupAggregation, CurrOrNext::Next)
    ));
}
