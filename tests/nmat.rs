use synth::nmat::{ColumnMajor, Matrix, Ordering, RowMajor};

fn test_simple_matrix_impl<O: Ordering>() {
    let mut mat: Matrix<i64, O> = Matrix::new((4, 4));
    mat.set((0, 0), 1);

    assert!(*mat.get((0, 0)) == 1);
    for i in 0..4 {
        for j in 0..4 {
            if i == 0 && j == 0 {
                continue;
            }
            assert!(*mat.get((i, j)) == 0);
        }
    }
}

#[test]
fn test_simple_matrix() {
    test_simple_matrix_impl::<RowMajor>();
    test_simple_matrix_impl::<ColumnMajor>();
}

fn test_eq_impl<O1: Ordering, O2: Ordering>() {
    let mut m1: Matrix<i64, O1> = Matrix::new((2, 2));
    let mut m2: Matrix<i64, O2> = Matrix::new((2, 2));

    for i in 0..2 {
        for j in 0..2 {
            m1.set((i, j), 2);
            m2.set((i, j), 2);
        }
    }

    assert!(m1.equals(&m2));
}

#[test]
fn test_eq() {
    test_eq_impl::<RowMajor, RowMajor>();
    test_eq_impl::<RowMajor, ColumnMajor>();
    test_eq_impl::<ColumnMajor, RowMajor>();
    test_eq_impl::<ColumnMajor, ColumnMajor>();
}

fn test_square_mul_impl<O1: Ordering, O2: Ordering>() {
    let mut m1: Matrix<i64, O1> = Matrix::new((2, 2));
    let mut m2: Matrix<i64, O2> = Matrix::new((2, 2));

    for i in 0..2 {
        for j in 0..2 {
            m1.set((i, j), 2);
            m2.set((i, j), (i + j) as i64);
        }
    }

    let m3 = m1.mul(&m2);

    assert_eq!(m3.dim(), (2, 2));

    let mut expected: Matrix<i64, RowMajor> = Matrix::new((2, 2));
    expected.set((0, 0), 2);
    expected.set((0, 1), 6);
    expected.set((1, 0), 2);
    expected.set((1, 1), 6);

    assert!(m3.equals(&expected));
}

#[test]
fn test_square_mul() {
    test_square_mul_impl::<RowMajor, RowMajor>();
    test_square_mul_impl::<RowMajor, ColumnMajor>();
    test_square_mul_impl::<ColumnMajor, RowMajor>();
    test_square_mul_impl::<ColumnMajor, ColumnMajor>();
}

fn test_vector_mul1_impl<O1: Ordering, O2: Ordering>() {
    let (a, b) = (2, 1);
    let (x, y) = (0, 1);

    let mut m1: Matrix<i64, O1> = Matrix::new((1, 2));
    let mut m2: Matrix<i64, O2> = Matrix::new((2, 1));

    m1.set((0, 0), a);
    m1.set((0, 1), b);

    m2.set((0, 0), x);
    m2.set((1, 0), y);

    let m3 = m1.mul(&m2);

    assert_eq!(m3.dim(), (1, 1));
    assert_eq!(*m3.get((0, 0)), a * x + b * y);
}

#[test]
fn test_vector_mut1() {
    test_vector_mul1_impl::<RowMajor, RowMajor>();
    test_vector_mul1_impl::<RowMajor, ColumnMajor>();
    test_vector_mul1_impl::<ColumnMajor, RowMajor>();
    test_vector_mul1_impl::<ColumnMajor, ColumnMajor>();
}

fn test_vector_mul2_impl<O1: Ordering, O2: Ordering>() {
    let (a, b) = (2, 1);
    let (x, y) = (0, 1);

    let mut m1: Matrix<i64, O1> = Matrix::new((2, 1));
    let mut m2: Matrix<i64, O2> = Matrix::new((1, 2));

    m1.set((0, 0), a);
    m1.set((1, 0), b);

    m2.set((0, 0), x);
    m2.set((0, 1), y);

    let m3 = m1.mul(&m2);

    assert_eq!(m3.dim(), (2, 2));

    let mut expected = Matrix::new_row_major(m3.dim());
    expected.set((0, 0), a * x);
    expected.set((0, 1), a * y);
    expected.set((1, 0), b * x);
    expected.set((1, 1), b * y);

    assert!(m3.equals(&expected));
}

#[test]
fn test_vector_mut2() {
    test_vector_mul2_impl::<RowMajor, RowMajor>();
    test_vector_mul2_impl::<RowMajor, ColumnMajor>();
    test_vector_mul2_impl::<ColumnMajor, RowMajor>();
    test_vector_mul2_impl::<ColumnMajor, ColumnMajor>();
}

#[test]
fn matrix_layouts_index_cells() {
    assert_eq!(RowMajor::idx((2, 3), (1, 2)), 5);
    assert_eq!(ColumnMajor::idx((2, 3), (1, 2)), 5);
    assert_eq!(RowMajor::idx((3, 2), (2, 0)), 4);
    assert_eq!(ColumnMajor::idx((3, 2), (2, 0)), 2);
    assert_eq!(RowMajor::human_name(), "RowMajor");
    assert_eq!(ColumnMajor::human_name(), "ColumnMajor");
}

#[test]
fn matrix_with_default_and_unequal_sizes() {
    let m1: Matrix<i64, RowMajor> = Matrix::new_with_default((2, 3), 7);
    assert_eq!(m1.dim(), (2, 3));
    assert_eq!(*m1.get((1, 2)), 7);
    let m2: Matrix<i64, ColumnMajor> = Matrix::new_column_major((3, 2));
    assert!(!m1.equals(&m2));
    let m3: Matrix<i64, ColumnMajor> = Matrix::new_with_default((2, 3), 7);
    assert!(m1.equals(&m3));
    let mut m4: Matrix<i64, ColumnMajor> = Matrix::new_with_default((2, 3), 7);
    m4.set((0, 1), 8);
    assert!(!m1.equals(&m4));
}

#[test]
fn matrix_product_of_rectangles() {
    // (2x3) * (3x2)
    let mut a: Matrix<i64, RowMajor> = Matrix::new((2, 3));
    let mut b: Matrix<i64, ColumnMajor> = Matrix::new((3, 2));
    let mut v = 1;
    for i in 0..2 {
        for j in 0..3 {
            a.set((i, j), v);
            b.set((j, i), -v);
            v += 1;
        }
    }
    let c = a.mul(&b);
    assert_eq!(c.dim(), (2, 2));
    // row 0 of a: 1 2 3; column 0 of b: -1 -2 -3
    assert_eq!(*c.get((0, 0)), -14);
    // row 0 of a: 1 2 3; column 1 of b: -4 -5 -6
    assert_eq!(*c.get((0, 1)), -32);
    assert_eq!(*c.get((1, 0)), -32);
    assert_eq!(*c.get((1, 1)), -77);
}
