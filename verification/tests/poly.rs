use mvlookup::field::Fe;
use mvlookup::poly::{check_domain_size, evaluate_over_domain, generator, interpolate};

fn fe(x: u64) -> Fe {
    Fe::from_u64(x)
}

#[test]
fn domain_sizes_are_the_powers_of_two_up_to_the_two_adicity() {
    assert!(check_domain_size(1));
    assert!(check_domain_size(2));
    assert!(check_domain_size(1 << 15));
    assert!(check_domain_size(1 << 28));
    assert!(!check_domain_size(0));
    assert!(!check_domain_size(3));
    assert!(!check_domain_size(12));
    assert!(!check_domain_size(1 << 29));
    assert!(!check_domain_size((1 << 28) + 1));
}

#[test]
fn interpolate_of_a_constant_is_the_constant() {
    assert_eq!(interpolate(&vec![fe(5); 4]).unwrap(), vec![fe(5)]);
    assert_eq!(interpolate(&vec![fe(0); 8]).unwrap(), Vec::<Fe>::new());
    assert_eq!(interpolate(&vec![fe(7)]).unwrap(), vec![fe(7)]);
}

#[test]
fn interpolate_over_two_points() {
    // the domain is {1, -1}: the polynomial 5 + 2 X takes the values 7 and 3
    assert_eq!(interpolate(&vec![fe(7), fe(3)]).unwrap(), vec![fe(5), fe(2)]);
}

#[test]
fn interpolate_refuses_a_length_without_a_domain() {
    assert!(interpolate(&vec![fe(1); 3]).is_none());
    assert!(interpolate(&Vec::new()).is_none());
    assert!(evaluate_over_domain(&vec![fe(1)], 6).is_none());
    assert!(evaluate_over_domain(&vec![fe(1)], 0).is_none());
}

#[test]
fn evaluate_over_domain_of_a_constant() {
    assert_eq!(evaluate_over_domain(&vec![fe(5)], 8).unwrap(), vec![fe(5); 8]);
    assert_eq!(evaluate_over_domain(&Vec::new(), 4).unwrap(), vec![fe(0); 4]);
    // 5 + 2 X on {1, -1}
    assert_eq!(evaluate_over_domain(&vec![fe(5), fe(2)], 2).unwrap(), vec![fe(7), fe(3)]);
}

#[test]
fn evaluation_undoes_interpolation() {
    let evaluations: Vec<Fe> = (0..16u64).map(|i| fe(i * i + 3)).collect();
    let polynomial = interpolate(&evaluations).unwrap();
    assert_eq!(polynomial.len(), 16);
    assert_ne!(polynomial, evaluations);
    assert_eq!(evaluate_over_domain(&polynomial, 16).unwrap(), evaluations);
    let extended = evaluate_over_domain(&polynomial, 128).unwrap();
    assert_eq!(extended.len(), 128);
    for j in 0..16 {
        assert_eq!(extended[8 * j], evaluations[j]);
    }
}

#[test]
fn generator_has_the_order_of_the_domain() {
    assert_eq!(generator(1).unwrap(), fe(1));
    let minus_one = Fe::zero().sub(&fe(1));
    assert_eq!(generator(2).unwrap(), minus_one);
    for log_size in [2u32, 5, 15] {
        let size = 1usize << log_size;
        let g = generator(size).unwrap();
        // squaring the generator all the times but one gives -1, and once more 1
        let mut power = g;
        for _ in 1..log_size {
            power = power.mul(&power);
        }
        assert_eq!(power, minus_one);
        assert_eq!(power.mul(&power), fe(1));
        // the square of the generator generates the domain of half the size
        assert_eq!(g.mul(&g), generator(size / 2).unwrap());
    }
    assert!(generator(0).is_none());
    assert!(generator(12).is_none());
    assert!(generator(1 << 29).is_none());
}

#[test]
fn evaluations_are_the_values_on_the_powers_of_the_generator() {
    let g = generator(4).unwrap();
    let elements = vec![fe(1), g, g.mul(&g), g.mul(&g).mul(&g)];
    // the polynomial X
    assert_eq!(evaluate_over_domain(&vec![fe(0), fe(1)], 4).unwrap(), elements);
    // the polynomial 3 + 2 X + X^3
    let coefficients = vec![fe(3), fe(2), fe(0), fe(1)];
    let values: Vec<Fe> = elements
        .iter()
        .map(|x| fe(3).add(&fe(2).mul(x)).add(&x.mul(x).mul(x)))
        .collect();
    assert_eq!(evaluate_over_domain(&coefficients, 4).unwrap(), values);
    assert_eq!(interpolate(&values).unwrap(), coefficients);
    // a polynomial with more coefficients than the domain has elements
    let long = vec![fe(1), fe(0), fe(0), fe(0), fe(5)];
    assert_eq!(evaluate_over_domain(&long, 4).unwrap(), vec![fe(6); 4]);
}

#[test]
fn generator_is_a_power_of_five() {
    // the order of the multiplicative group, in bits from the lowest
    let order = Fe::zero().sub(&fe(1)).to_limbs();
    for log_size in [0u32, 1, 3, 15, 28] {
        // five to the power of the order over the size, by squaring
        let mut power = fe(1);
        for bit in (log_size..256).rev() {
            power = power.mul(&power);
            if (order[(bit / 64) as usize] >> (bit % 64)) & 1 == 1 {
                power = power.mul(&fe(5));
            }
        }
        assert_eq!(generator(1usize << log_size).unwrap(), power, "size 2^{}", log_size);
    }
}
