use tower_field::arithmetic;

#[test]
fn test_mul() {
    // test some base cases
    assert_eq!(arithmetic::mul(&vec![false], &vec![true]), vec![false]);
    assert_eq!(arithmetic::mul(&vec![true], &vec![true]), vec![true]);
    // test with longer bitstrings
    // X_0 . (1 + X_0) = 1
    assert_eq!(
        arithmetic::mul(&vec![false, true], &vec![true, true]),
        vec![true, false]
    );

    // X2 ^2 = X1X2 + 1
    let x2 = vec![false, false, false, false, true, false, false, false];
    assert_eq!(
        arithmetic::mul(&x2, &x2),
        vec![true, false, false, false, false, false, true, false]
    );
}

#[test]
fn test_inv() {
    // test the unique base case
    assert_eq!(arithmetic::inv(&vec![true]).unwrap(), vec![true]);
    // some easy to derive inversions
    assert_eq!(
        arithmetic::inv(&vec![false, false, true, false]).unwrap(),
        vec![false, true, true, false]
    );
    assert_eq!(
        arithmetic::inv(&vec![false, false, false, false, true, false, false, false]).unwrap(),
        vec![false, false, true, false, true, false, false, false]
    );
    // ensure consistent with multiplication
    // find all (element, inverse) pairs (for nonzero element) over F_16 by brute force
    let mut f16: Vec<Vec<bool>> = vec![];
    for i in 0..(1 << 4) {
        f16.push(vec![
            i & 0b1000 != 0,
            i & 0b0100 != 0,
            i & 0b0010 != 0,
            i & 0b0001 != 0,
        ]);
    }
    let mut elem_and_inv = vec![];
    let one = vec![true, false, false, false];
    for elem in &f16 {
        if !elem.iter().any(|&x| x) {
            continue;
        }
        for other_elem in &f16 {
            if arithmetic::mul(&elem, &other_elem) == one {
                elem_and_inv.push((elem.clone(), other_elem.clone()));
            }
        }
    }
    assert_eq!(elem_and_inv.len(), 15);
    elem_and_inv.iter().for_each(|(elem, inverse)| {
        assert_eq!(arithmetic::inv(&elem).unwrap(), *inverse);
    });
}

#[test]
fn test_add() {
    // test some base cases (F_2)
    assert_eq!(arithmetic::add(&vec![false], &vec![true]), vec![true]);
    assert_eq!(arithmetic::add(&vec![true], &vec![true]), vec![false]);
    // test with longer bitstrings
    assert_eq!(
        arithmetic::add(&vec![false, false], &vec![true, false]),
        vec![true, false]
    );
}

#[test]
fn test_rot() {
    // trivial cases (thinking of X_{-1} as 1):
    assert_eq!(arithmetic::rot(&vec![false]), vec![false]);
    assert_eq!(arithmetic::rot(&vec![true]), vec![true]);

    // smallest non-trivial cases:
    // X_0 . (1 + X_0) = 1, so rot(true, true) = (true, false)
    assert_eq!(arithmetic::rot(&vec![true, true]), vec![true, false]);
    // X_0 . 0 = 0
    assert_eq!(arithmetic::rot(&vec![false, false]), vec![false, false]);
    // X_0 . 1 = X_0
    assert_eq!(arithmetic::rot(&vec![true, false]), vec![false, true]);

    // tests on longer bit strings

    // X_1 . 0 = 0
    assert_eq!(arithmetic::rot(&vec![false; 4]), vec![false; 4]);
    // X_1 . 1 = X_1
    assert_eq!(
        arithmetic::rot(&vec![true, false, false, false]),
        vec![false, false, true, false]
    );

    // if the high limb is all false, should just interchange high and low limbs
    assert_eq!(
        arithmetic::rot(&vec![true, false, false, true, false, false, false, false]),
        vec![false, false, false, false, true, false, false, true]
    );

    // X2 (X1.X2 + 1) = X1 + X0.X1.X2
    assert_eq!(
        arithmetic::rot(&vec![true, false, false, false, false, false, true, false]),
        vec![false, false, true, false, false, false, false, true]
    );
}
