use mvlookup::error::LookupError;
use mvlookup::field::Fe;
use mvlookup::lookups::LookupTableIDs;
use mvlookup::mvlookup::sums::{aggregate, check_shapes, lookup_terms};
use mvlookup::mvlookup::{MVLookup, MVLookupWitness};

fn fe(x: u64) -> Fe {
    Fe::from_u64(x)
}

fn neg(x: &Fe) -> Fe {
    Fe::zero().sub(x)
}

fn inverse(x: &Fe) -> Fe {
    let mut v = vec![*x];
    mvlookup::field::batch_inversion(&mut v);
    v[0]
}

fn lookup(id: LookupTableIDs, numerator: Fe, value: &[u64]) -> MVLookup<Fe, LookupTableIDs> {
    MVLookup::new(id, numerator, value.iter().map(|v| fe(*v)).collect())
}

/// One column of lookups into a table of single values, and the table itself.
fn range_witness(
    table: &[u64],
    looked_up: &[u64],
    multiplicities: &[u64],
) -> MVLookupWitness<Fe, LookupTableIDs> {
    let id = LookupTableIDs::RangeCheck2;
    let lookups = looked_up.iter().map(|v| lookup(id, Fe::one(), &[*v])).collect();
    let rows = table
        .iter()
        .zip(multiplicities)
        .map(|(t, m)| lookup(id, neg(&fe(*m)), &[*t]))
        .collect();
    MVLookupWitness { f: vec![lookups, rows], m: multiplicities.iter().map(|m| fe(*m)).collect() }
}

fn sum_of(values: &[Fe]) -> Fe {
    values.iter().fold(Fe::zero(), |acc, v| acc.add(v))
}

#[test]
fn combine_weights_the_components_by_powers_of_the_combiner() {
    // 1 + 2 * 3 + 4 * 5, the table RangeCheck2 being encoded as 1
    let l = lookup(LookupTableIDs::RangeCheck2, Fe::one(), &[3, 5]);
    assert_eq!(l.combine(&fe(2)), fe(27));
    // 2 + 10 * 7 + 100 * 0 + 1000 * 9
    let l = lookup(LookupTableIDs::RangeCheck16, Fe::one(), &[7, 0, 9]);
    assert_eq!(l.combine(&fe(10)), fe(9072));
    // only the table's encoding is left of a lookup without components
    let l = lookup(LookupTableIDs::Memory, Fe::one(), &[]);
    assert_eq!(l.combine(&fe(10)), fe(3));
}

#[test]
fn partial_sum_of_one_column_is_the_fraction() {
    // one lookup of the value 4 in each of two rows: denominator 5 + 1 + 3 * 4
    let id = LookupTableIDs::RangeCheck2;
    let w = MVLookupWitness {
        f: vec![vec![lookup(id, fe(2), &[4]), lookup(id, fe(3), &[4])]],
        m: vec![fe(0), fe(0)],
    };
    let h = w.partial_sums(2, &fe(3), &fe(5)).unwrap();
    assert_eq!(h.len(), 1);
    assert_eq!(h[0].len(), 2);
    assert_eq!(h[0][0].mul(&fe(18)), fe(2));
    assert_eq!(h[0][1].mul(&fe(18)), fe(3));
    assert_eq!(h[0][0], fe(2).mul(&inverse(&fe(18))));
}

#[test]
fn partial_sums_split_the_columns_into_chunks_of_six() {
    // eight columns over two rows: the chunks hold six and two columns
    let id = LookupTableIDs::RangeCheck16;
    let columns: Vec<Vec<MVLookup<Fe, LookupTableIDs>>> = (0..8u64)
        .map(|i| vec![lookup(id, fe(i + 1), &[10 + i]), lookup(id, fe(1), &[20 + i])])
        .collect();
    let w = MVLookupWitness { f: columns, m: vec![fe(0), fe(0)] };
    let r = fe(7);
    let beta = fe(1000);
    let h = w.partial_sums(2, &r, &beta).unwrap();
    assert_eq!(h.len(), 2);
    assert_eq!(h[0].len(), 2);
    assert_eq!(h[1].len(), 2);
    for j in 0..2 {
        let fractions: Vec<Fe> = (0..8)
            .map(|i| {
                let term = &w.f[i][j];
                term.numerator.mul(&inverse(&beta.add(&term.combine(&r))))
            })
            .collect();
        assert_eq!(h[0][j], sum_of(&fractions[0..6]));
        assert_eq!(h[1][j], sum_of(&fractions[6..8]));
        // the chunks add up to the sum over the whole row
        assert_eq!(h[0][j].add(&h[1][j]), sum_of(&fractions));
    }
}

#[test]
fn partial_sums_of_six_and_of_seven_columns() {
    let id = LookupTableIDs::RangeCheck16;
    let make = |n: u64| MVLookupWitness {
        f: (0..n).map(|i| vec![lookup(id, fe(1), &[i])]).collect(),
        m: vec![fe(0)],
    };
    assert_eq!(make(1).partial_sums(1, &fe(2), &fe(3)).unwrap().len(), 1);
    assert_eq!(make(6).partial_sums(1, &fe(2), &fe(3)).unwrap().len(), 1);
    assert_eq!(make(7).partial_sums(1, &fe(2), &fe(3)).unwrap().len(), 2);
    assert_eq!(make(12).partial_sums(1, &fe(2), &fe(3)).unwrap().len(), 2);
    assert_eq!(make(13).partial_sums(1, &fe(2), &fe(3)).unwrap().len(), 3);
}

#[test]
fn partial_sums_refuse_a_column_of_the_wrong_length() {
    let id = LookupTableIDs::RangeCheck2;
    let w = MVLookupWitness {
        f: vec![
            vec![lookup(id, fe(1), &[1]), lookup(id, fe(1), &[2])],
            vec![lookup(id, fe(1), &[1])],
        ],
        m: vec![fe(0), fe(0)],
    };
    assert_eq!(w.partial_sums(2, &fe(3), &fe(5)).unwrap_err(), LookupError::IndexError);
    assert!(!w.is_shaped(2));
    // no columns, no rows, or multiplicities of another length
    let empty: MVLookupWitness<Fe, LookupTableIDs> = MVLookupWitness { f: vec![], m: vec![] };
    assert_eq!(empty.partial_sums(0, &fe(3), &fe(5)).unwrap_err(), LookupError::IndexError);
    let w = MVLookupWitness { f: vec![vec![lookup(id, fe(1), &[1])]], m: vec![] };
    assert_eq!(w.partial_sums(1, &fe(3), &fe(5)).unwrap_err(), LookupError::IndexError);
    assert!(!check_shapes(&vec![w], 1));
}

#[test]
fn partial_sums_refuse_a_zero_denominator() {
    // the combined value is 1 + 3 * 4 = 13, and beta is its negative
    let id = LookupTableIDs::RangeCheck2;
    let w = MVLookupWitness { f: vec![vec![lookup(id, fe(1), &[4])]], m: vec![fe(0)] };
    let beta = neg(&fe(13));
    assert_eq!(w.partial_sums(1, &fe(3), &beta).unwrap_err(), LookupError::ArithmeticError);
    assert!(w.partial_sums(1, &fe(3), &beta.add(&fe(1))).is_ok());
}

#[test]
fn lookup_terms_puts_the_witnesses_one_after_the_other() {
    let a = range_witness(&[0, 1, 2, 3], &[0, 2, 1, 3], &[1, 1, 1, 1]);
    let b = range_witness(&[0, 1, 2, 3], &[3, 3, 3, 3], &[0, 0, 0, 4]);
    let r = fe(11);
    let beta = fe(12345);
    let ha = a.partial_sums(4, &r, &beta).unwrap();
    let hb = b.partial_sums(4, &r, &beta).unwrap();
    let all = lookup_terms(&vec![a, b], 4, &r, &beta).unwrap();
    assert_eq!(all.len(), 2);
    assert_eq!(all[0], ha[0]);
    assert_eq!(all[1], hb[0]);
    let none: Vec<MVLookupWitness<Fe, LookupTableIDs>> = vec![];
    assert_eq!(lookup_terms(&none, 4, &r, &beta).unwrap().len(), 0);
}

#[test]
fn lookup_terms_report_the_shape_before_the_denominators() {
    let id = LookupTableIDs::RangeCheck2;
    let zero = MVLookupWitness { f: vec![vec![lookup(id, fe(1), &[4])]], m: vec![fe(0)] };
    let short = MVLookupWitness { f: vec![vec![lookup(id, fe(1), &[4])]], m: vec![] };
    let beta = neg(&fe(13));
    assert_eq!(
        lookup_terms(&vec![zero, short], 1, &fe(3), &beta).unwrap_err(),
        LookupError::IndexError
    );
}

#[test]
fn aggregate_sums_the_rows_before() {
    let terms = vec![vec![fe(1), fe(2), fe(3), fe(4)], vec![fe(10), fe(20), fe(30), fe(40)]];
    let sum = aggregate(&terms, 4).unwrap();
    assert_eq!(sum.evaluations, vec![fe(0), fe(11), fe(33), fe(66)]);
    assert_eq!(sum.total, fe(110));
    // without partial sums the running sum is zero in every row
    let sum = aggregate(&vec![], 3).unwrap();
    assert_eq!(sum.evaluations, vec![fe(0), fe(0), fe(0)]);
    assert!(sum.total.is_zero());
}

#[test]
fn aggregate_refuses_partial_sums_of_the_wrong_length() {
    let terms = vec![vec![fe(1), fe(2)], vec![fe(10)]];
    assert_eq!(aggregate(&terms, 2).unwrap_err(), LookupError::IndexError);
}

#[test]
fn running_sum_of_a_valid_witness_returns_to_zero() {
    let w = vec![range_witness(&[0, 1, 2, 3], &[0, 2, 1, 3], &[1, 1, 1, 1])];
    for _ in 0..20 {
        let r = Fe::random();
        let beta = Fe::random();
        let terms = lookup_terms(&w, 4, &r, &beta).unwrap();
        assert_eq!(terms.len(), 1);
        let sum = aggregate(&terms, 4).unwrap();
        assert_eq!(sum.evaluations.len(), 4);
        assert!(sum.evaluations[0].is_zero());
        assert!(sum.total.is_zero());
        // each row adds one lookup and takes one table row away
        assert_eq!(sum.evaluations[1], terms[0][0]);
    }
}

#[test]
fn running_sum_of_a_table_without_a_looked_up_value_does_not_return_to_zero() {
    // the value 2 is looked up, but the table holds 0, 1 and 3 only
    let w = vec![range_witness(&[0, 1, 3, 3], &[0, 2, 1, 3], &[1, 1, 1, 1])];
    for _ in 0..50 {
        let r = Fe::random();
        let beta = Fe::random();
        let terms = lookup_terms(&w, 4, &r, &beta).unwrap();
        let sum = aggregate(&terms, 4).unwrap();
        assert!(sum.evaluations[0].is_zero());
        assert!(!sum.total.is_zero());
    }
}

#[test]
fn running_sum_of_a_wrong_multiplicity_does_not_return_to_zero() {
    let w = vec![range_witness(&[0, 1, 2, 3], &[0, 2, 2, 3], &[1, 1, 1, 1])];
    for _ in 0..50 {
        let terms = lookup_terms(&w, 4, &Fe::random(), &Fe::random()).unwrap();
        assert!(!aggregate(&terms, 4).unwrap().total.is_zero());
    }
    let w = vec![range_witness(&[0, 1, 2, 3], &[0, 2, 2, 3], &[1, 0, 2, 1])];
    for _ in 0..20 {
        let terms = lookup_terms(&w, 4, &Fe::random(), &Fe::random()).unwrap();
        assert!(aggregate(&terms, 4).unwrap().total.is_zero());
    }
}

#[test]
fn running_sum_of_balanced_vector_lookups_in_many_columns_returns_to_zero() {
    // seven columns of lookups of pairs into a table of eight rows, and the table
    let id = LookupTableIDs::RangeCheck16;
    let table: Vec<[u64; 2]> = (0..8u64).map(|j| [j, j * j + 1]).collect();
    let mut counts = [0u64; 8];
    let mut columns: Vec<Vec<MVLookup<Fe, LookupTableIDs>>> = Vec::new();
    for i in 0..7usize {
        let mut column = Vec::new();
        for j in 0..8usize {
            let row = (3 * i + 5 * j + i * j) % 8;
            counts[row] += 1;
            column.push(lookup(id, Fe::one(), &table[row]));
        }
        columns.push(column);
    }
    columns.push((0..8).map(|j| lookup(id, neg(&fe(counts[j])), &table[j])).collect());
    let w = vec![MVLookupWitness { f: columns, m: counts.iter().map(|c| fe(*c)).collect() }];
    for _ in 0..5 {
        let terms = lookup_terms(&w, 8, &Fe::random(), &Fe::random()).unwrap();
        assert_eq!(terms.len(), 2);
        let sum = aggregate(&terms, 8).unwrap();
        assert!(sum.evaluations[0].is_zero());
        assert!(sum.total.is_zero());
    }
}

#[test]
fn follows_convention_tells_a_table_with_negated_multiplicities() {
    let w = range_witness(&[0, 1, 2, 3], &[0, 2, 1, 3], &[1, 1, 1, 1]);
    assert!(w.follows_convention(4));
    assert!(!w.follows_convention(2));
    // a table may declare what is not looked up: the convention is about signs
    let w = range_witness(&[0, 1, 2, 3], &[0, 0, 0, 0], &[1, 2, 3, 4]);
    assert!(w.follows_convention(4));
    // the multiplicity of the last row is not negated
    let id = LookupTableIDs::RangeCheck2;
    let mut w = range_witness(&[0, 1], &[0, 0], &[2, 0]);
    assert!(w.follows_convention(2));
    w.f[1][0] = lookup(id, fe(2), &[0]);
    assert!(!w.follows_convention(2));
    // a lookup is counted twice
    let mut w = range_witness(&[0, 1], &[0, 0], &[2, 0]);
    w.f[0][1] = lookup(id, fe(2), &[0]);
    assert!(!w.follows_convention(2));
    // the numerators do not match the multiplicities
    let mut w = range_witness(&[0, 1], &[0, 0], &[2, 0]);
    w.m[1] = fe(1);
    assert!(!w.follows_convention(2));
}
