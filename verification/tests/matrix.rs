use rugmat::float::RawFloat;
use rugmat::rugmat::{RugMat, Transpose};

/// A float that stands for the small integer `k`: distinct parts for
/// distinct `k`.
fn tag(k: u64) -> RawFloat {
    RawFloat::from_parts(128, false, k as i64, vec![k, 0x8000_0000_0000_0000]).unwrap()
}

fn two_by_three() -> RugMat {
    RugMat::from_vecvec(vec![vec![tag(1), tag(2), tag(3)], vec![tag(4), tag(5), tag(6)]])
}

#[test]
fn new_is_zero_filled() {
    let m = RugMat::new(3, 2, 128);
    assert_eq!(m.rows, 3);
    assert_eq!(m.cols, 2);
    assert_eq!(m.data.len(), 6);
    for f in &m.data {
        assert!(*f == RawFloat::zero(128));
    }
    let empty = RugMat::new(0, 5, 64);
    assert_eq!(empty.data.len(), 0);
}

#[test]
fn from_vecvec_is_column_major() {
    let m = two_by_three();
    assert_eq!((m.rows, m.cols), (2, 3));
    let order: Vec<i64> = m.data.iter().map(|f| f.exp()).collect();
    assert_eq!(order, vec![1, 4, 2, 5, 3, 6]);
    assert!(*m.get(0, 0) == tag(1));
    assert!(*m.get(0, 2) == tag(3));
    assert!(*m.get(1, 0) == tag(4));
    assert!(*m.get(1, 2) == tag(6));
}

#[test]
fn from_vecvec_fills_short_rows_with_zero() {
    let m = RugMat::from_vecvec(vec![vec![tag(1), tag(2)], vec![tag(3)], vec![]]);
    assert_eq!((m.rows, m.cols), (3, 2));
    assert!(*m.get(0, 1) == tag(2));
    assert!(*m.get(1, 0) == tag(3));
    assert!(*m.get(1, 1) == RawFloat::zero(128));
    assert!(*m.get(2, 0) == RawFloat::zero(128));
    assert!(*m.get(2, 1) == RawFloat::zero(128));
}

#[test]
fn from_2d_vec_agrees_with_from_vecvec() {
    let rows = vec![vec![tag(1), tag(2), tag(3)], vec![tag(4), tag(5), tag(6)]];
    let a = RugMat::from_2d_vec(rows.clone());
    let b = RugMat::from_vecvec(rows);
    assert_eq!((a.rows, a.cols), (b.rows, b.cols));
    assert_eq!(a.data, b.data);
}

#[test]
fn from_2d_vec_cuts_long_rows() {
    let m = RugMat::from_2d_vec(vec![vec![tag(1), tag(2)], vec![tag(3), tag(4), tag(5)]]);
    assert_eq!((m.rows, m.cols), (2, 2));
    assert!(*m.get(1, 1) == tag(4));
    assert_eq!(m.data.len(), 4);
}

#[test]
fn flat_index_is_column_times_rows_plus_row() {
    let m = two_by_three();
    assert_eq!(m.flat_index(0, 0), 0);
    assert_eq!(m.flat_index(1, 0), 1);
    assert_eq!(m.flat_index(0, 1), 2);
    assert_eq!(m.flat_index(1, 2), 5);
}

#[test]
fn get_mut_changes_one_entry() {
    let mut m = two_by_three();
    *m.get_mut(1, 1) = tag(50);
    let order: Vec<i64> = m.data.iter().map(|f| f.exp()).collect();
    assert_eq!(order, vec![1, 4, 2, 50, 3, 6]);
    assert_eq!((m.rows, m.cols), (2, 3));
}

#[test]
fn identity_has_ones_on_the_diagonal() {
    let id = RugMat::identity(3, 128);
    assert_eq!((id.rows, id.cols), (3, 3));
    for i in 0..3 {
        for j in 0..3 {
            let expected = if i == j { RawFloat::one(128) } else { RawFloat::zero(128) };
            assert!(*id.get(i, j) == expected, "entry ({}, {})", i, j);
        }
    }
    assert_eq!(RugMat::identity(0, 64).data.len(), 0);
}

#[test]
fn diagonal_places_the_values() {
    let diag = vec![tag(1), tag(2), tag(3), tag(4), tag(5)];
    let m = RugMat::diagonal(&diag, 128);
    assert_eq!((m.rows, m.cols), (5, 5));
    for i in 0..5 {
        for j in 0..5 {
            let expected = if i == j { tag(i as u64 + 1) } else { RawFloat::zero(128) };
            assert!(*m.get(i, j) == expected);
        }
    }
}

#[test]
fn precision_is_that_of_the_first_entry() {
    assert_eq!(two_by_three().precision(), 128);
    assert_eq!(RugMat::new(2, 2, 4096).precision(), 4096);
    let mixed = RugMat::from_vecvec(vec![vec![RawFloat::one(64), RawFloat::one(256)]]);
    assert_eq!(mixed.precision(), 64);
}

#[test]
fn l0_norm_counts_nonzero_entries() {
    assert_eq!(RugMat::new(4, 3, 64).l0_norm(), 0);
    assert_eq!(RugMat::identity(5, 128).l0_norm(), 5);
    assert_eq!(two_by_three().l0_norm(), 6);
    let mut m = two_by_three();
    *m.get_mut(0, 1) = RawFloat::zero(128);
    assert_eq!(m.l0_norm(), 5);
    // A negative zero is a zero.
    *m.get_mut(1, 2) = RawFloat::from_parts(128, true, rugmat::float::EXP_ZERO, vec![0, 0]).unwrap();
    assert_eq!(m.l0_norm(), 4);
    assert_eq!(RugMat::new(0, 0, 64).l0_norm(), 0);
}

#[test]
fn transpose_exchanges_rows_and_columns() {
    let m = two_by_three();
    let t = Transpose::new(&m);
    assert_eq!(t.rows(), 3);
    assert_eq!(t.cols(), 2);
    for i in 0..3 {
        for j in 0..2 {
            assert!(*t.get(i, j) == *m.get(j, i));
        }
    }
    assert!(*t.get(2, 0) == tag(3));
    assert!(*t.get(0, 1) == tag(4));
}

#[test]
fn clone_copies_shape_and_entries() {
    let m = two_by_three();
    let c = m.clone();
    assert_eq!((c.rows, c.cols), (2, 3));
    assert_eq!(c.data, m.data);
}
