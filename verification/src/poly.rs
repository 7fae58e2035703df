//! Polynomials over the field, as `ark_poly` interpolates and evaluates them on
//! the domains of roots of unity.
use crate::field::{modulus, residue, values, Fe};
use crate::order::{ascending_keys, entries_in_order, lemma_keys_below_ascend};
use ark_bn254::Fr;
use ark_ff::{BigInt, PrimeField};
use ark_poly::univariate::DensePolynomial;
use ark_poly::{DenseUVPolynomial, EvaluationDomain, Evaluations, Radix2EvaluationDomain};
use std::collections::BTreeMap;
use vstd::arithmetic::power::pow;
use vstd::prelude::*;

verus! {

/// The largest size of a domain of roots of unity that the field has.
pub const MAX_DOMAIN_SIZE: usize = 0x1000_0000;

/// Whether the field has a domain of roots of unity with `size` elements: the
/// size is a power of two that the field's two-adicity admits.
pub open spec fn is_domain_size(size: usize) -> bool {
    0 < size <= MAX_DOMAIN_SIZE && size & ((size - 1) as usize) == 0
}

/// Whether the field has a domain of roots of unity with `size` elements.
pub fn check_domain_size(size: usize) -> (b: bool)
    ensures
        b == is_domain_size(size),
{
    0 < size && size <= MAX_DOMAIN_SIZE && size & (size - 1) == 0
}

/// The generator of the domain of roots of unity with `size` elements: the
/// generator 5 of the field's multiplicative group, to the power of the
/// group's order over `size`.
pub open spec fn domain_generator(size: nat) -> nat {
    residue(pow(5, ((modulus() - 1) / (size as int)) as nat))
}

/// The element with the index `i` of the domain with `size` elements: the
/// generator to the power `i`.
pub open spec fn domain_element(size: nat, i: nat) -> int {
    pow(domain_generator(size) as int, i)
}

/// The value of the polynomial with the given coefficients at `x`.
pub open spec fn polynomial_value(coefficients: Seq<nat>, x: int) -> int
    decreases coefficients.len(),
{
    if coefficients.len() == 0 {
        0
    } else {
        polynomial_value(coefficients.drop_last(), x) + coefficients.last() * pow(
            x,
            (coefficients.len() - 1) as nat,
        )
    }
}

/// Whether the evaluations are the values that the polynomial takes on the
/// domain whose size is their number, element after element.
pub open spec fn evaluates_to(coefficients: Seq<nat>, evaluations: Seq<nat>) -> bool {
    forall|i: int|
        0 <= i < evaluations.len() ==> #[trigger] evaluations[i] == residue(
            polynomial_value(coefficients, domain_element(evaluations.len(), i as nat)),
        )
}

/// Whether the polynomial interpolates the evaluations: it takes them on the
/// domain whose size is their number, has no more coefficients than there are
/// evaluations, and its leading coefficient is not zero.
pub open spec fn interpolates(coefficients: Seq<nat>, evaluations: Seq<nat>) -> bool {
    &&& coefficients.len() <= evaluations.len()
    &&& coefficients.len() > 0 ==> coefficients.last() != 0
    &&& evaluates_to(coefficients, evaluations)
}

/// Whether the evaluations are the values that the polynomial takes on the
/// domain with `size` elements.
pub open spec fn extends(evaluations: Seq<nat>, coefficients: Seq<nat>, size: nat) -> bool {
    evaluations.len() == size && evaluates_to(coefficients, evaluations)
}

/// The generator of the domain, as `Radix2EvaluationDomain::new` of `ark_poly`
/// sets it in the field `group_gen`: the root of unity that `ark_ff` gets by
/// squaring the field's two-adic root of unity, which is the generator 5 of the
/// multiplicative group to the power of the group's order over `size`.
#[verifier::external_body]
fn ark_domain_generator(size: usize) -> (g: Fe)
    requires
        is_domain_size(size),
    ensures
        g@ == domain_generator(size as nat),
{
    let domain = Radix2EvaluationDomain::<Fr>::new(size).unwrap();
    Fe::from_limbs(domain.group_gen.into_bigint().0).unwrap()
}

/// Interpolates by `Evaluations::interpolate_by_ref` of `ark_poly`, over the
/// `Radix2EvaluationDomain` whose size is the number of evaluations: the
/// result takes the given values on the elements of the domain, has as many
/// coefficients as the domain has elements, at most, and no leading zero.
#[verifier::external_body]
fn ark_interpolate(evaluations: &Vec<Fe>) -> (coefficients: Vec<Fe>)
    requires
        is_domain_size(evaluations@.len() as usize),
    ensures
        interpolates(values(coefficients@), values(evaluations@)),
{
    let domain = Radix2EvaluationDomain::<Fr>::new(evaluations.len()).unwrap();
    let evals: Vec<Fr> =
        evaluations.iter().map(|x| Fr::from_bigint(BigInt::new(x.to_limbs())).unwrap()).collect();
    let poly = Evaluations::from_vec_and_domain(evals, domain).interpolate_by_ref();
    poly.coeffs.into_iter().map(|y| Fe::from_limbs(y.into_bigint().0).unwrap()).collect()
}

/// Evaluates by `DensePolynomial::evaluate_over_domain_by_ref` of `ark_poly`,
/// over the `Radix2EvaluationDomain` with `size` elements: the result holds
/// the value of the polynomial at each element of the domain.
#[verifier::external_body]
fn ark_evaluate_over_domain(coefficients: &Vec<Fe>, size: usize) -> (evaluations: Vec<Fe>)
    requires
        is_domain_size(size),
    ensures
        extends(values(evaluations@), values(coefficients@), size as nat),
{
    let domain = Radix2EvaluationDomain::<Fr>::new(size).unwrap();
    let coeffs: Vec<Fr> =
        coefficients.iter().map(|x| Fr::from_bigint(BigInt::new(x.to_limbs())).unwrap()).collect();
    let poly = DensePolynomial::from_coefficients_vec(coeffs);
    let evals = poly.evaluate_over_domain_by_ref(domain).evals;
    evals.into_iter().map(|y| Fe::from_limbs(y.into_bigint().0).unwrap()).collect()
}

/// The generator of the domain with `size` elements, or nothing where the
/// field has no domain of that size.
pub fn generator(size: usize) -> (r: Option<Fe>)
    ensures
        r is Some <==> is_domain_size(size),
        r matches Some(g) ==> g@ == domain_generator(size as nat),
{
    if check_domain_size(size) {
        Some(ark_domain_generator(size))
    } else {
        None
    }
}

/// The coefficients of the polynomial that takes the given values on the
/// domain whose size is their number, or nothing where the field has no domain
/// of that size.
pub fn interpolate(evaluations: &Vec<Fe>) -> (r: Option<Vec<Fe>>)
    ensures
        r is Some <==> is_domain_size(evaluations@.len() as usize),
        r matches Some(coefficients) ==> interpolates(
            values(coefficients@),
            values(evaluations@),
        ),
{
    if check_domain_size(evaluations.len()) {
        Some(ark_interpolate(evaluations))
    } else {
        None
    }
}

/// The values that the polynomial with the given coefficients takes on the
/// domain with `size` elements, or nothing where the field has no domain of
/// that size.
pub fn evaluate_over_domain(coefficients: &Vec<Fe>, size: usize) -> (r: Option<Vec<Fe>>)
    ensures
        r is Some <==> is_domain_size(size),
        r matches Some(evaluations) ==> extends(
            values(evaluations@),
            values(coefficients@),
            size as nat,
        ),
{
    if check_domain_size(size) {
        Some(ark_evaluate_over_domain(coefficients, size))
    } else {
        None
    }
}

/// The values of a list of vectors of elements.
pub open spec fn rows_values(rows: Seq<Vec<Fe>>) -> Seq<Seq<nat>> {
    rows.map_values(|row: Vec<Fe>| values(row@))
}

/// The values of the vectors of a map.
pub open spec fn map_values_of(tables: Map<u32, Vec<Fe>>) -> Map<u32, Seq<nat>> {
    tables.map_values(|v: Vec<Fe>| values(v@))
}

/// Whether each polynomial of the list interpolates the evaluations at the
/// same place.
pub open spec fn all_interpolate(
    polynomials: Seq<Seq<nat>>,
    evaluations: Seq<Seq<nat>>,
) -> bool {
    &&& polynomials.len() == evaluations.len()
    &&& forall|k: int|
        0 <= k < polynomials.len() ==> interpolates(#[trigger] polynomials[k], evaluations[k])
}

/// Whether the evaluations at each place of the list are those of the
/// polynomial at the same place, on the domain with `size` elements.
pub open spec fn all_extend(
    evaluations: Seq<Seq<nat>>,
    polynomials: Seq<Seq<nat>>,
    size: nat,
) -> bool {
    &&& evaluations.len() == polynomials.len()
    &&& forall|k: int|
        0 <= k < evaluations.len() ==> extends(#[trigger] evaluations[k], polynomials[k], size)
}

/// Whether the polynomial of each key interpolates the evaluations of the
/// same key.
pub open spec fn tables_interpolate(
    polynomials: Map<u32, Seq<nat>>,
    evaluations: Map<u32, Seq<nat>>,
) -> bool {
    &&& polynomials.dom() == evaluations.dom()
    &&& forall|key: u32|
        polynomials.contains_key(key) ==> interpolates(
            #[trigger] polynomials[key],
            evaluations[key],
        )
}

/// Whether the evaluations of each key are those of the polynomial of the same
/// key, on the domain with `size` elements.
pub open spec fn tables_extend(
    evaluations: Map<u32, Seq<nat>>,
    polynomials: Map<u32, Seq<nat>>,
    size: nat,
) -> bool {
    &&& evaluations.dom() == polynomials.dom()
    &&& forall|key: u32|
        evaluations.contains_key(key) ==> extends(
            #[trigger] evaluations[key],
            polynomials[key],
            size,
        )
}

/// Whether every vector of the list has `size` elements.
pub open spec fn all_of_size(rows: Seq<Vec<Fe>>, size: nat) -> bool {
    forall|k: int| 0 <= k < rows.len() ==> (#[trigger] rows[k])@.len() == size
}

/// Whether every vector of the map has `size` elements.
pub open spec fn tables_of_size(tables: Map<u32, Vec<Fe>>, size: nat) -> bool {
    forall|key: u32| tables.contains_key(key) ==> (#[trigger] tables[key])@.len() == size
}

/// Interpolates each vector of evaluations over the domain of its size.
pub(crate) fn interpolate_all(evaluations: &Vec<Vec<Fe>>, size: usize) -> (r: Vec<Vec<Fe>>)
    requires
        is_domain_size(size),
        all_of_size(evaluations@, size as nat),
    ensures
        all_interpolate(rows_values(r@), rows_values(evaluations@)),
{
    let mut out: Vec<Vec<Fe>> = Vec::new();
    let mut k: usize = 0;
    while k < evaluations.len()
        invariant
            k <= evaluations@.len(),
            is_domain_size(size),
            all_of_size(evaluations@, size as nat),
            out@.len() == k,
            forall|i: int|
                0 <= i < k ==> interpolates(
                    values((#[trigger] out@[i])@),
                    values(evaluations@[i]@),
                ),
        decreases evaluations@.len() - k,
    {
        assert(evaluations@[k as int]@.len() == size);
        out.push(ark_interpolate(&evaluations[k]));
        k = k + 1;
    }
    proof {
        let polynomials = rows_values(out@);
        assert forall|i: int| 0 <= i < polynomials.len() implies interpolates(
            #[trigger] polynomials[i],
            rows_values(evaluations@)[i],
        ) by {
            assert(interpolates(values(out@[i]@), values(evaluations@[i]@)));
        }
    }
    out
}

/// Evaluates each polynomial over the domain with `size` elements.
pub(crate) fn extend_all(polynomials: &Vec<Vec<Fe>>, size: usize) -> (r: Vec<Vec<Fe>>)
    requires
        is_domain_size(size),
    ensures
        all_extend(rows_values(r@), rows_values(polynomials@), size as nat),
{
    let mut out: Vec<Vec<Fe>> = Vec::new();
    let mut k: usize = 0;
    while k < polynomials.len()
        invariant
            k <= polynomials@.len(),
            is_domain_size(size),
            out@.len() == k,
            forall|i: int|
                0 <= i < k ==> extends(
                    values((#[trigger] out@[i])@),
                    values(polynomials@[i]@),
                    size as nat,
                ),
        decreases polynomials@.len() - k,
    {
        out.push(ark_evaluate_over_domain(&polynomials[k], size));
        k = k + 1;
    }
    proof {
        let evaluations = rows_values(out@);
        assert forall|i: int| 0 <= i < evaluations.len() implies extends(
            #[trigger] evaluations[i],
            rows_values(polynomials@)[i],
            size as nat,
        ) by {
            assert(extends(values(out@[i]@), values(polynomials@[i]@), size as nat));
        }
    }
    out
}

/// Interpolates each vector of evaluations of a map over the domain of its
/// size.
pub(crate) fn interpolate_tables(
    evaluations: &BTreeMap<u32, Vec<Fe>>,
    size: usize,
) -> (r: BTreeMap<u32, Vec<Fe>>)
    requires
        is_domain_size(size),
        tables_of_size(evaluations@, size as nat),
    ensures
        tables_interpolate(map_values_of(r@), map_values_of(evaluations@)),
{
    let entries = entries_in_order(evaluations);
    let ghost keys = ascending_keys(evaluations@.dom());
    let mut out: BTreeMap<u32, Vec<Fe>> = BTreeMap::new();
    let mut i: usize = 0;
    while i < entries.len()
        invariant
            i <= entries@.len(),
            is_domain_size(size),
            tables_of_size(evaluations@, size as nat),
            keys == ascending_keys(evaluations@.dom()),
            entries@.len() == keys.len(),
            forall|p: int|
                0 <= p < entries@.len() ==> {
                    &&& (#[trigger] entries@[p]).0 == keys[p]
                    &&& evaluations@.contains_key(entries@[p].0)
                    &&& *entries@[p].1 == evaluations@[entries@[p].0]
                },
            forall|key: u32|
                #![trigger out@.contains_key(key)]
                out@.contains_key(key) <==> keys.take(i as int).contains(key),
            forall|key: u32|
                out@.contains_key(key) ==> interpolates(
                    values((#[trigger] out@[key])@),
                    values(evaluations@[key]@),
                ),
        decreases entries@.len() - i,
    {
        let key = entries[i].0;
        let ghost before = out@;
        let polynomial = ark_interpolate(entries[i].1);
        out.insert(key, polynomial);
        proof {
            assert(out@ =~= before.insert(key, polynomial));
            lemma_take_one_more(keys, i as int);
        }
        i = i + 1;
    }
    proof {
        assert(keys.take(keys.len() as int) =~= keys);
        lemma_keys_below_ascend(evaluations@.dom(), 0x1_0000_0000);
        assert(map_values_of(out@).dom() =~= map_values_of(evaluations@).dom());
    }
    out
}

/// Evaluates each polynomial of a map over the domain with `size` elements.
pub(crate) fn extend_tables(
    polynomials: &BTreeMap<u32, Vec<Fe>>,
    size: usize,
) -> (r: BTreeMap<u32, Vec<Fe>>)
    requires
        is_domain_size(size),
    ensures
        tables_extend(map_values_of(r@), map_values_of(polynomials@), size as nat),
{
    let entries = entries_in_order(polynomials);
    let ghost keys = ascending_keys(polynomials@.dom());
    let mut out: BTreeMap<u32, Vec<Fe>> = BTreeMap::new();
    let mut i: usize = 0;
    while i < entries.len()
        invariant
            i <= entries@.len(),
            is_domain_size(size),
            keys == ascending_keys(polynomials@.dom()),
            entries@.len() == keys.len(),
            forall|p: int|
                0 <= p < entries@.len() ==> {
                    &&& (#[trigger] entries@[p]).0 == keys[p]
                    &&& polynomials@.contains_key(entries@[p].0)
                    &&& *entries@[p].1 == polynomials@[entries@[p].0]
                },
            forall|key: u32|
                #![trigger out@.contains_key(key)]
                out@.contains_key(key) <==> keys.take(i as int).contains(key),
            forall|key: u32|
                out@.contains_key(key) ==> extends(
                    values((#[trigger] out@[key])@),
                    values(polynomials@[key]@),
                    size as nat,
                ),
        decreases entries@.len() - i,
    {
        let key = entries[i].0;
        let ghost before = out@;
        let extended = ark_evaluate_over_domain(entries[i].1, size);
        out.insert(key, extended);
        proof {
            assert(out@ =~= before.insert(key, extended));
            lemma_take_one_more(keys, i as int);
        }
        i = i + 1;
    }
    proof {
        assert(keys.take(keys.len() as int) =~= keys);
        lemma_keys_below_ascend(polynomials@.dom(), 0x1_0000_0000);
        assert(map_values_of(out@).dom() =~= map_values_of(polynomials@).dom());
    }
    out
}

proof fn lemma_take_one_more(keys: Seq<u32>, i: int)
    requires
        0 <= i < keys.len(),
    ensures
        forall|key: u32|
            #![trigger keys.take(i + 1).contains(key)]
            keys.take(i + 1).contains(key) <==> keys.take(i).contains(key) || key == keys[i],
{
    let head = keys.take(i + 1);
    assert forall|key: u32|
        #![trigger head.contains(key)]
        head.contains(key) <==> keys.take(i).contains(key) || key == keys[i] by {
        if head.contains(key) {
            let p = choose|p: int| 0 <= p < head.len() && head[p] == key;
            if p < i {
                assert(keys.take(i)[p] == key);
            }
        }
        if keys.take(i).contains(key) {
            let p = choose|p: int| 0 <= p < i && keys.take(i)[p] == key;
            assert(head[p] == key);
        }
        if key == keys[i] {
            assert(head[i] == key);
        }
    }
}

} // verus!
