use sasca_bp::classes::{add_cst_map, and_cst_map, check_table, mul_cst_map, xor_cst_map};

/// Pushes the mass of each class `x` of `d` to `map[x]`.
fn push(d: &[f64], map: &[u32]) -> Vec<f64> {
    let mut out = vec![0.0; d.len()];
    for (x, p) in d.iter().enumerate() {
        out[map[x] as usize] += p;
    }
    out
}

#[test]
fn xor_map_values() {
    assert_eq!(xor_cst_map(4, 1), vec![1, 0, 3, 2]);
    assert_eq!(xor_cst_map(8, 5), vec![5, 4, 7, 6, 1, 0, 3, 2]);
}

#[test]
fn and_map_values() {
    assert_eq!(and_cst_map(4, 3), vec![0, 1, 2, 3]);
    assert_eq!(and_cst_map(4, 2), vec![0, 0, 2, 2]);
}

#[test]
fn add_map_values() {
    assert_eq!(add_cst_map(8, 5, false), vec![5, 6, 7, 0, 1, 2, 3, 4]);
    assert_eq!(add_cst_map(8, 5, true), vec![3, 4, 5, 6, 7, 0, 1, 2]);
    assert_eq!(add_cst_map(4, 0, true), vec![0, 1, 2, 3]);
}

#[test]
fn mul_map_values() {
    assert_eq!(mul_cst_map(8, 3), vec![0, 3, 6, 1, 4, 7, 2, 5]);
    assert_eq!(mul_cst_map(4, 2), vec![0, 2, 0, 2]);
}

#[test]
fn table_check() {
    assert!(check_table(&vec![2, 0, 3, 1], 4));
    assert!(!check_table(&vec![2, 0, 4, 1], 4));
    assert!(!check_table(&vec![2, 0, 3], 4));
}

#[test]
fn xor_cst_twice_is_identity() {
    let d = vec![0.1, 0.2, 0.3, 0.4, 0.0, 0.0, 0.0, 0.0];
    for c in 0..8 {
        let m = xor_cst_map(8, c);
        assert_eq!(push(&push(&d, &m), &m), d);
    }
}

#[test]
fn add_cst_then_negated_is_identity() {
    let d = vec![0.5, 0.25, 0.0, 0.125, 0.0, 0.0, 0.0, 0.125];
    for c in 0..8 {
        let fwd = add_cst_map(8, c, false);
        let back = add_cst_map(8, c, true);
        assert_eq!(push(&push(&d, &fwd), &back), d);
    }
}

#[test]
fn and_with_constant_scenario() {
    // z = x & 3 over four classes: uniform stays uniform, Dirac at 2 and 0 stay put.
    let m = and_cst_map(4, 3);
    assert_eq!(push(&[0.25; 4], &m), vec![0.25; 4]);
    assert_eq!(push(&[0.0, 0.0, 1.0, 0.0], &m), vec![0.0, 0.0, 1.0, 0.0]);
    assert_eq!(push(&[1.0, 0.0, 0.0, 0.0], &m), vec![1.0, 0.0, 0.0, 0.0]);
}

#[test]
fn add_with_public_subtraction_scenario() {
    // a + b = c + 5 over eight classes, a = 3, b = 4: c = 2.
    let sum = add_cst_map(8, 4, false)[3];
    assert_eq!(add_cst_map(8, 5, true)[sum as usize], 2);
}

#[test]
fn xor_known_operands_scenario() {
    // z = x ^ y over four classes with x = 1 and y = 2: z = 3.
    let mut z = vec![0.0; 4];
    z[xor_cst_map(4, 2)[1] as usize] = 1.0;
    assert_eq!(z, vec![0.0, 0.0, 0.0, 1.0]);
}

#[test]
fn lookup_scenario() {
    let t = vec![2, 0, 3, 1];
    assert!(check_table(&t, 4));
    assert_eq!(push(&[0.5, 0.5, 0.0, 0.0], &t), vec![0.5, 0.0, 0.5, 0.0]);
}
