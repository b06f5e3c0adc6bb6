use fixdim::{Matrix, Vector};

#[test]
fn vector_new_keeps_elements_in_order() {
    let v = Vector::<3>::new(&[7, 8, 9]);
    assert_eq!(v.as_bits(), &[7u32, 8, 9][..]);
}

#[test]
fn vector_new_holds_float_bit_patterns() {
    let data = [1.5f32.to_bits(), (-0.0f32).to_bits()];
    let v = Vector::<2>::new(&data);
    assert_eq!(f32::from_bits(v.as_bits()[0]), 1.5f32);
    assert!(f32::from_bits(v.as_bits()[1]).is_sign_negative());
}

#[test]
fn vector_trans_is_single_row() {
    let v = Vector::<3>::new(&[1, 2, 3]);
    let m: Matrix<1, 3> = v.trans();
    assert_eq!(m.as_bits(), &[1u32, 2, 3][..]);
}

#[test]
fn matrix_new_is_column_major() {
    // columns (1, 2) and (3, 4): row 0 is 1 3, row 1 is 2 4
    let m = Matrix::<2, 2>::new(&[1, 2, 3, 4]);
    assert_eq!(m.as_bits(), &[1u32, 2, 3, 4][..]);
}

#[test]
fn matrix_trans_square() {
    let m = Matrix::<2, 2>::new(&[1, 2, 3, 4]);
    let t = m.trans();
    assert_eq!(t.as_bits(), &[1u32, 3, 2, 4][..]);
}

#[test]
fn matrix_trans_rectangular() {
    // 2 rows, 3 columns: columns (1, 2), (3, 4), (5, 6)
    let m = Matrix::<2, 3>::new(&[1, 2, 3, 4, 5, 6]);
    let t: Matrix<3, 2> = m.trans();
    // rows of m become columns of t: (1, 3, 5) and (2, 4, 6)
    assert_eq!(t.as_bits(), &[1u32, 3, 5, 2, 4, 6][..]);
}

#[test]
fn matrix_transpose_round_trip() {
    let m = Matrix::<3, 2>::new(&[10, 20, 30, 40, 50, 60]);
    let back = m.trans().trans();
    assert_eq!(back.as_bits(), m.as_bits());
}

#[test]
fn matrix_empty_dimension() {
    let m = Matrix::<0, 4>::new(&[]);
    let t: Matrix<4, 0> = m.trans();
    assert!(t.as_bits().is_empty());
}
