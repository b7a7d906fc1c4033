use concrete_core::polynomial::{
    Monomial, MonomialDegree, Polynomial, PolynomialCount, PolynomialList, PolynomialSize,
};

fn coefficients_of<T: Copy>(poly: &Polynomial<T>) -> Vec<T> {
    poly.coefficient_iter().to_vec()
}

#[test]
fn allocate_gives_the_size_asked_for() {
    let poly = Polynomial::allocate(0 as u32, PolynomialSize(100));
    assert_eq!(poly.polynomial_size(), PolynomialSize(100));
    assert_eq!(poly.coefficient_iter().iter().count(), 100);
    for coef in poly.coefficient_iter().iter() {
        assert_eq!(*coef, 0);
    }
}

#[test]
fn allocate_of_size_zero_is_empty() {
    let poly = Polynomial::allocate(7 as u64, PolynomialSize(0));
    assert_eq!(poly.polynomial_size(), PolynomialSize(0));
    assert!(coefficients_of(&poly).is_empty());
}

#[test]
fn from_container_keeps_the_coefficients() {
    let poly = Polynomial::from_container(vec![16_u32, 8, 19, 12, 3]);
    assert_eq!(poly.polynomial_size(), PolynomialSize(5));
    assert_eq!(coefficients_of(&poly), vec![16_u32, 8, 19, 12, 3]);
    assert_eq!(poly.into_container(), vec![16_u32, 8, 19, 12, 3]);
}

#[test]
fn get_monomial_reads_the_coefficient_of_a_degree() {
    let poly = Polynomial::from_container(vec![16_u32, 8, 19, 12, 3]);
    let mono = poly.get_monomial(MonomialDegree(0));
    assert_eq!(*mono.get_coefficient(), 16_u32);
    let mono = poly.get_monomial(MonomialDegree(2));
    assert_eq!(*mono.get_coefficient(), 19_u32);
    assert_eq!(mono.degree(), MonomialDegree(2));
}

#[test]
fn monomial_iter_visits_degrees_in_increasing_order() {
    let poly = Polynomial::from_container(vec![5_u8, 6, 7, 8]);
    let monomials = poly.monomial_iter();
    assert_eq!(monomials.len(), 4);
    for (i, monomial) in monomials.iter().enumerate() {
        assert_eq!(monomial.degree(), MonomialDegree(i));
        assert_eq!(*monomial.get_coefficient(), 5 + i as u8);
    }
    let poly = Polynomial::allocate(0 as u32, PolynomialSize(100));
    for monomial in poly.monomial_iter() {
        assert!(monomial.degree().0 <= 99)
    }
    assert_eq!(poly.monomial_iter().len(), 100);
}

#[test]
fn monomial_setters_and_getters_agree() {
    let mut mono = Monomial::from_container(3_u32, MonomialDegree(4));
    mono.set_coefficient(9);
    assert_eq!(*mono.get_coefficient(), 9);
    assert_eq!(mono.degree(), MonomialDegree(4));
}

#[test]
fn monomial_iter_mut_writes_by_degree() {
    let mut poly = Polynomial::allocate(0 as u32, PolynomialSize(100));
    for (degree, coefficient) in poly.monomial_iter_mut().iter_mut().enumerate() {
        *coefficient = degree as u32;
    }
    for (i, monomial) in poly.monomial_iter().iter().enumerate() {
        assert_eq!(*monomial.get_coefficient(), i as u32);
    }
    assert_eq!(poly.monomial_iter_mut().iter_mut().count(), 100);
}

#[test]
fn coefficient_iter_mut_writes_every_coefficient() {
    let mut poly = Polynomial::allocate(0 as u32, PolynomialSize(100));
    for coef in poly.coefficient_iter_mut().iter_mut() {
        *coef = 1;
    }
    for coef in poly.coefficient_iter().iter() {
        assert_eq!(*coef, 1);
    }
    assert_eq!(poly.coefficient_iter_mut().iter_mut().count(), 100);
}

#[test]
fn get_mut_monomial_writes_one_coefficient() {
    let mut poly = Polynomial::from_container(vec![16_u32, 8, 19, 12, 3]);
    *poly.get_mut_monomial(MonomialDegree(0)) = 18;
    let mono = poly.get_monomial(MonomialDegree(0));
    assert_eq!(*mono.get_coefficient(), 18);
    assert_eq!(coefficients_of(&poly), vec![18_u32, 8, 19, 12, 3]);
}

#[test]
fn fill_with_wrapping_mul_is_the_negacyclic_product() {
    let lhs = Polynomial::from_container(vec![4_u8, 5, 0]);
    let rhs = Polynomial::from_container(vec![7_u8, 9, 0]);
    let mut res = Polynomial::allocate(0 as u8, PolynomialSize(3));
    res.fill_with_wrapping_mul(&lhs, &rhs);
    assert_eq!(*res.get_monomial(MonomialDegree(0)).get_coefficient(), 28 as u8);
    assert_eq!(*res.get_monomial(MonomialDegree(1)).get_coefficient(), 71 as u8);
    assert_eq!(*res.get_monomial(MonomialDegree(2)).get_coefficient(), 45 as u8);
}

#[test]
fn fill_with_wrapping_mul_overwrites_what_was_there() {
    let lhs = Polynomial::from_container(vec![4_u8, 5, 0]);
    let rhs = Polynomial::from_container(vec![7_u8, 9, 0]);
    let mut res = Polynomial::allocate(200 as u8, PolynomialSize(3));
    res.fill_with_wrapping_mul(&lhs, &rhs);
    assert_eq!(coefficients_of(&res), vec![28_u8, 71, 45]);
}

#[test]
fn fill_with_wrapping_mul_folds_high_degrees_back_negated() {
    // (X^2) * (X^2) = X^4 = -X modulo X^3 + 1.
    let lhs = Polynomial::from_container(vec![0_u32, 0, 1]);
    let rhs = Polynomial::from_container(vec![0_u32, 0, 1]);
    let mut res = Polynomial::allocate(0 as u32, PolynomialSize(3));
    res.fill_with_wrapping_mul(&lhs, &rhs);
    assert_eq!(coefficients_of(&res), vec![0_u32, u32::MAX, 0]);
}

#[test]
fn fill_with_wrapping_mul_of_size_one() {
    let lhs = Polynomial::from_container(vec![200_u8]);
    let rhs = Polynomial::from_container(vec![3_u8]);
    let mut res = Polynomial::allocate(9 as u8, PolynomialSize(1));
    res.fill_with_wrapping_mul(&lhs, &rhs);
    assert_eq!(coefficients_of(&res), vec![88_u8]);
}

#[test]
fn fill_with_wrapping_mul_of_size_two_over_u64() {
    // (a + bX)(c + dX) = (ac - bd) + (ad + bc) X modulo X^2 + 1.
    let lhs = Polynomial::from_container(vec![u64::MAX, 2]);
    let rhs = Polynomial::from_container(vec![3_u64, 5]);
    let mut res = Polynomial::allocate(0 as u64, PolynomialSize(2));
    res.fill_with_wrapping_mul(&lhs, &rhs);
    let expected_0 = u64::MAX.wrapping_mul(3).wrapping_sub(10);
    let expected_1 = u64::MAX.wrapping_mul(5).wrapping_add(6);
    assert_eq!(coefficients_of(&res), vec![expected_0, expected_1]);
}

#[test]
fn fill_with_wrapping_binary_mul_multiplies_by_bits() {
    let poly = Polynomial::from_container(vec![1_u8, 2, 3]);
    let bin_poly = Polynomial::from_container(vec![false, true, true]);
    let mut res = Polynomial::allocate(133 as u8, PolynomialSize(3));
    res.fill_with_wrapping_binary_mul(&poly, &bin_poly);
    assert_eq!(*res.get_monomial(MonomialDegree(0)).get_coefficient(), 251 as u8);
    assert_eq!(*res.get_monomial(MonomialDegree(1)).get_coefficient(), 254 as u8);
    assert_eq!(*res.get_monomial(MonomialDegree(2)).get_coefficient(), 3 as u8);
}

#[test]
fn binary_mul_agrees_with_mul_by_the_lifted_polynomial() {
    let values: Vec<u32> = vec![17, 4_000_000_000, 3, 99, 0, 123_456, 7, u32::MAX];
    let bits = vec![true, false, true, true, false, false, true, true];
    let lifted: Vec<u32> = bits.iter().map(|b| if *b { 1 } else { 0 }).collect();
    let poly = Polynomial::from_container(values);
    let bin_poly = Polynomial::from_container(bits);
    let lifted_poly = Polynomial::from_container(lifted);
    let mut binary = Polynomial::allocate(5 as u32, PolynomialSize(8));
    let mut plain = Polynomial::allocate(6 as u32, PolynomialSize(8));
    binary.fill_with_wrapping_binary_mul(&poly, &bin_poly);
    plain.fill_with_wrapping_mul(&poly, &lifted_poly);
    assert_eq!(binary, plain);
}

#[test]
fn update_with_wrapping_add_binary_multisum_adds_every_product() {
    let poly_list =
        PolynomialList::from_container(vec![100 as u8, 20, 3, 4, 5, 6], PolynomialSize(3));
    let bin_poly_list = PolynomialList::from_container(
        vec![false, true, true, true, false, false],
        PolynomialSize(3),
    );
    let mut output = Polynomial::allocate(250 as u8, PolynomialSize(3));
    output.update_with_wrapping_add_binary_multisum(&poly_list, &bin_poly_list);
    assert_eq!(*output.get_monomial(MonomialDegree(0)).get_coefficient(), 231);
    assert_eq!(*output.get_monomial(MonomialDegree(1)).get_coefficient(), 96);
    assert_eq!(*output.get_monomial(MonomialDegree(2)).get_coefficient(), 120);
}

#[test]
fn update_with_wrapping_sub_binary_multisum_subtracts_every_product() {
    let poly_list =
        PolynomialList::from_container(vec![100 as u8, 20, 3, 4, 5, 6], PolynomialSize(3));
    let bin_poly_list = PolynomialList::from_container(
        vec![false, true, true, true, false, false],
        PolynomialSize(3),
    );
    let mut output = Polynomial::allocate(250 as u8, PolynomialSize(3));
    output.update_with_wrapping_sub_binary_multisum(&poly_list, &bin_poly_list);
    assert_eq!(*output.get_monomial(MonomialDegree(0)).get_coefficient(), 13);
    assert_eq!(*output.get_monomial(MonomialDegree(1)).get_coefficient(), 148);
    assert_eq!(*output.get_monomial(MonomialDegree(2)).get_coefficient(), 124);
}

#[test]
fn multisum_of_empty_lists_changes_nothing() {
    let poly_list = PolynomialList::from_container(Vec::<u8>::new(), PolynomialSize(3));
    let bin_poly_list = PolynomialList::from_container(Vec::<bool>::new(), PolynomialSize(3));
    let mut output = Polynomial::from_container(vec![1_u8, 2, 3]);
    output.update_with_wrapping_add_binary_multisum(&poly_list, &bin_poly_list);
    assert_eq!(coefficients_of(&output), vec![1_u8, 2, 3]);
    output.update_with_wrapping_sub_binary_multisum(&poly_list, &bin_poly_list);
    assert_eq!(coefficients_of(&output), vec![1_u8, 2, 3]);
}

#[test]
fn sub_multisum_undoes_add_multisum() {
    let poly_list = PolynomialList::from_container(
        vec![9_u32, 8, 7, 6, 5, 4, 3, 2, 1, 0, 11, 12],
        PolynomialSize(4),
    );
    let bin_poly_list = PolynomialList::from_container(
        vec![true, true, false, true, false, false, true, true, true, false, true, false],
        PolynomialSize(4),
    );
    let mut output = Polynomial::from_container(vec![1_u32, u32::MAX, 3, 4]);
    output.update_with_wrapping_add_binary_multisum(&poly_list, &bin_poly_list);
    assert_ne!(coefficients_of(&output), vec![1_u32, u32::MAX, 3, 4]);
    output.update_with_wrapping_sub_binary_multisum(&poly_list, &bin_poly_list);
    assert_eq!(coefficients_of(&output), vec![1_u32, u32::MAX, 3, 4]);
}

#[test]
fn update_with_wrapping_add_binary_mul_adds_the_product() {
    let poly = Polynomial::from_container(vec![1_u8, 2, 3]);
    let bin_poly = Polynomial::from_container(vec![false, true, true]);
    let mut res = Polynomial::from_container(vec![1_u8, 0, 253]);
    res.update_with_wrapping_add_binary_mul(&poly, &bin_poly);
    assert_eq!(*res.get_monomial(MonomialDegree(0)).get_coefficient(), 252);
    assert_eq!(*res.get_monomial(MonomialDegree(1)).get_coefficient(), 254);
    assert_eq!(*res.get_monomial(MonomialDegree(2)).get_coefficient(), 0);
}

#[test]
fn update_with_wrapping_sub_binary_mul_subtracts_the_product() {
    let poly = Polynomial::from_container(vec![1_u8, 2, 3]);
    let bin_poly = Polynomial::from_container(vec![false, true, true]);
    let mut res = Polynomial::from_container(vec![255_u8, 255, 1]);
    res.update_with_wrapping_sub_binary_mul(&poly, &bin_poly);
    assert_eq!(*res.get_monomial(MonomialDegree(0)).get_coefficient(), 4);
    assert_eq!(*res.get_monomial(MonomialDegree(1)).get_coefficient(), 1);
    assert_eq!(*res.get_monomial(MonomialDegree(2)).get_coefficient(), 254);
}

#[test]
fn update_with_wrapping_add_wraps_coefficient_by_coefficient() {
    let mut first = Polynomial::from_container(vec![1u8, 2, 3]);
    let second = Polynomial::from_container(vec![255u8, 255, 255]);
    first.update_with_wrapping_add(&second);
    assert_eq!(*first.get_monomial(MonomialDegree(0)).get_coefficient(), 0);
    assert_eq!(*first.get_monomial(MonomialDegree(1)).get_coefficient(), 1);
    assert_eq!(*first.get_monomial(MonomialDegree(2)).get_coefficient(), 2);
}

#[test]
fn update_with_wrapping_sub_wraps_coefficient_by_coefficient() {
    let mut first = Polynomial::from_container(vec![1u8, 2, 3]);
    let second = Polynomial::from_container(vec![4u8, 5, 6]);
    first.update_with_wrapping_sub(&second);
    assert_eq!(*first.get_monomial(MonomialDegree(0)).get_coefficient(), 253);
    assert_eq!(*first.get_monomial(MonomialDegree(1)).get_coefficient(), 253);
    assert_eq!(*first.get_monomial(MonomialDegree(2)).get_coefficient(), 253);
}

#[test]
fn update_with_wrapping_monic_monomial_mul_rotates_and_negates() {
    let mut poly = Polynomial::from_container(vec![1u8, 2, 3]);
    poly.update_with_wrapping_monic_monomial_mul(MonomialDegree(2));
    assert_eq!(*poly.get_monomial(MonomialDegree(0)).get_coefficient(), 254);
    assert_eq!(*poly.get_monomial(MonomialDegree(1)).get_coefficient(), 253);
    assert_eq!(*poly.get_monomial(MonomialDegree(2)).get_coefficient(), 1);
}

#[test]
fn update_with_wrapping_unit_monomial_div_rotates_and_negates() {
    let mut poly = Polynomial::from_container(vec![1u8, 2, 3]);
    poly.update_with_wrapping_unit_monomial_div(MonomialDegree(2));
    assert_eq!(*poly.get_monomial(MonomialDegree(0)).get_coefficient(), 3);
    assert_eq!(*poly.get_monomial(MonomialDegree(1)).get_coefficient(), 255);
    assert_eq!(*poly.get_monomial(MonomialDegree(2)).get_coefficient(), 254);
}

#[test]
fn monomial_mul_by_a_full_cycle_negates_everything() {
    // X^3 = -1 modulo X^3 + 1, and X^6 = 1.
    let mut poly = Polynomial::from_container(vec![1u8, 2, 3]);
    poly.update_with_wrapping_monic_monomial_mul(MonomialDegree(3));
    assert_eq!(coefficients_of(&poly), vec![255u8, 254, 253]);
    poly.update_with_wrapping_monic_monomial_mul(MonomialDegree(3));
    assert_eq!(coefficients_of(&poly), vec![1u8, 2, 3]);
    poly.update_with_wrapping_monic_monomial_mul(MonomialDegree(6));
    assert_eq!(coefficients_of(&poly), vec![1u8, 2, 3]);
}

#[test]
fn monomial_mul_by_a_degree_beyond_the_size() {
    // X^5 = X^3 * X^2 = -X^2: the product by X^2, negated.
    let mut poly = Polynomial::from_container(vec![1u8, 2, 3]);
    poly.update_with_wrapping_monic_monomial_mul(MonomialDegree(5));
    assert_eq!(coefficients_of(&poly), vec![2u8, 3, 255]);
}

#[test]
fn monomial_mul_agrees_with_the_product_by_a_monomial() {
    let values = vec![10_u32, 20, 30, 40, 50];
    for degree in 0..5_usize {
        let mut monomial = vec![0_u32; 5];
        monomial[degree] = 1;
        let mut product = Polynomial::allocate(0 as u32, PolynomialSize(5));
        product.fill_with_wrapping_mul(
            &Polynomial::from_container(values.clone()),
            &Polynomial::from_container(monomial),
        );
        let mut shifted = Polynomial::from_container(values.clone());
        shifted.update_with_wrapping_monic_monomial_mul(MonomialDegree(degree));
        assert_eq!(shifted, product);
    }
}

#[test]
fn monomial_mul_on_size_one() {
    let mut poly = Polynomial::from_container(vec![5u8]);
    poly.update_with_wrapping_monic_monomial_mul(MonomialDegree(1));
    assert_eq!(coefficients_of(&poly), vec![251u8]);
    poly.update_with_wrapping_monic_monomial_mul(MonomialDegree(2));
    assert_eq!(coefficients_of(&poly), vec![251u8]);
    poly.update_with_wrapping_unit_monomial_div(MonomialDegree(3));
    assert_eq!(coefficients_of(&poly), vec![5u8]);
}

#[test]
fn monomial_mul_on_size_two() {
    let mut poly = Polynomial::from_container(vec![1u8, 2]);
    poly.update_with_wrapping_monic_monomial_mul(MonomialDegree(1));
    assert_eq!(coefficients_of(&poly), vec![254u8, 1]);
    let mut poly = Polynomial::from_container(vec![1u8, 2]);
    poly.update_with_wrapping_unit_monomial_div(MonomialDegree(1));
    assert_eq!(coefficients_of(&poly), vec![2u8, 255]);
    let mut poly = Polynomial::from_container(vec![1u8, 2]);
    poly.update_with_wrapping_monic_monomial_mul(MonomialDegree(0));
    assert_eq!(coefficients_of(&poly), vec![1u8, 2]);
}

#[test]
fn monomial_div_undoes_monomial_mul() {
    let values = vec![1_u64, u64::MAX, 0, 77, 1 << 63, 12345, 9];
    for degree in 0..40_usize {
        let mut poly = Polynomial::from_container(values.clone());
        poly.update_with_wrapping_monic_monomial_mul(MonomialDegree(degree));
        poly.update_with_wrapping_unit_monomial_div(MonomialDegree(degree));
        assert_eq!(coefficients_of(&poly), values);
    }
}

#[test]
fn update_with_wrapping_add_several_adds_every_polynomial() {
    let mut poly = Polynomial::from_container(vec![1u8, 2, 3]);
    let poly_list = PolynomialList::from_container(vec![4u8, 5, 6, 7, 8, 9], PolynomialSize(3));
    poly.update_with_wrapping_add_several(&poly_list);
    assert_eq!(*poly.get_monomial(MonomialDegree(0)).get_coefficient(), 12);
    assert_eq!(*poly.get_monomial(MonomialDegree(1)).get_coefficient(), 15);
    assert_eq!(*poly.get_monomial(MonomialDegree(2)).get_coefficient(), 18);
}

#[test]
fn update_with_wrapping_sub_several_subtracts_every_polynomial() {
    let mut poly = Polynomial::from_container(vec![1u32, 2, 3]);
    let poly_list = PolynomialList::from_container(vec![4u32, 5, 6, 7, 8, 9], PolynomialSize(3));
    poly.update_with_wrapping_sub_several(&poly_list);
    assert_eq!(*poly.get_monomial(MonomialDegree(0)).get_coefficient(), 4294967286);
    assert_eq!(*poly.get_monomial(MonomialDegree(1)).get_coefficient(), 4294967285);
    assert_eq!(*poly.get_monomial(MonomialDegree(2)).get_coefficient(), 4294967284);
}

#[test]
fn polynomial_list_tells_its_shape() {
    let list = PolynomialList::from_container(vec![4u8, 5, 6, 7, 8, 9], PolynomialSize(3));
    assert_eq!(list.polynomial_count(), PolynomialCount(2));
    assert_eq!(list.polynomial_size(), PolynomialSize(3));
    assert_eq!(list.as_slice().to_vec(), vec![4u8, 5, 6, 7, 8, 9]);
    let mut list = list;
    list.as_mut_slice()[4] = 80;
    assert_eq!(list.into_container(), vec![4u8, 5, 6, 7, 80, 9]);
}
