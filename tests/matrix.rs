use bitmatrix::BitMatrix;
use std::collections::hash_map::DefaultHasher;
use std::hash::{Hash, Hasher};

fn hash_of(m: &BitMatrix) -> u64 {
    let mut h = DefaultHasher::new();
    m.hash(&mut h);
    h.finish()
}

#[test]
fn dimensions_are_kept() {
    let m = BitMatrix::new(5, 10);
    assert_eq!(m.height(), 5);
    assert_eq!(m.width(), 10);
    assert_eq!(m.iter().len(), 50);
}

#[test]
fn empty_shapes() {
    let m = BitMatrix::new(0, 4);
    assert_eq!(m.iter().len(), 0);
    assert_eq!(m.rows().len(), 0);
    assert_eq!(m.render(), "");
    let m = BitMatrix::new(3, 0);
    assert_eq!(m.iter().len(), 0);
    let rows = m.rows();
    assert_eq!(rows.len(), 3);
    assert!(rows.iter().all(|r| r.len() == 0));
    assert_eq!(m.render(), "\n\n\n");
}

#[test]
fn new_matrix_is_all_false() {
    let m = BitMatrix::new(3, 11);
    for i in 0..3 {
        for j in 0..11 {
            assert!(!m.get(i, j));
        }
    }
}

#[test]
fn set_then_get_changes_one_cell() {
    let mut m = BitMatrix::new(3, 11);
    m.set((1, 2), true);
    for i in 0..3 {
        for j in 0..11 {
            assert_eq!(m.get(i, j), (i, j) == (1, 2));
        }
    }
    m.set((1, 2), false);
    assert!(m.iter().iter().all(|b| !b));
}

#[test]
fn set_all_saturates() {
    let mut m = BitMatrix::new(3, 11);
    m.set_all(true);
    assert!(m.iter().iter().all(|b| *b));
    assert!(m.get(2, 10));
    m.set_all(false);
    assert!(m.iter().iter().all(|b| !b));
}

#[test]
fn iter_is_row_major() {
    let mut m = BitMatrix::new(2, 3);
    m.set((0, 2), true);
    m.set((1, 0), true);
    assert_eq!(m.iter(), vec![false, false, true, true, false, false]);
    let bits = m.iter();
    for i in 0..2 {
        for j in 0..3 {
            assert_eq!(bits[i * 3 + j], m.get(i, j));
        }
    }
}

#[test]
fn iter_example() {
    let mut m = BitMatrix::new(2, 2);
    m.set((0, 1), true);
    m.set((1, 0), true);
    assert_eq!(m.iter(), vec![false, true, true, false]);
    assert!(!m.get(0, 0));
    assert!(m.get(1, 0));
}

#[test]
fn iter_mut_first_element() {
    let mut m = BitMatrix::new(2, 2);
    m.iter_mut(|k, b| if k == 0 { true } else { b });
    assert!(m.get(0, 0));
    assert!(!m.get(0, 1));
    assert!(!m.get(1, 0));
    assert!(!m.get(1, 1));
}

#[test]
fn iter_mut_sees_offsets_and_values() {
    let mut m = BitMatrix::new(2, 3);
    m.set((0, 1), true);
    m.iter_mut(|k, b| (k % 2 == 0) != b);
    assert_eq!(m.iter(), vec![true, true, true, false, true, false]);
}

#[test]
fn rows_mut_sets_diagonal() {
    let mut m = BitMatrix::new(3, 3);
    m.set((0, 2), true);
    m.rows_mut(|i, j, b| b || i == j);
    assert_eq!(m.render(), "101\n010\n001\n");
}

#[test]
fn row_matches_cells() {
    let mut m = BitMatrix::new(3, 4);
    m.set((1, 1), true);
    m.set((1, 3), true);
    m.set((2, 0), true);
    assert_eq!(m.row(0).to_vec(), vec![false, false, false, false]);
    assert_eq!(m.row(1).to_vec(), vec![false, true, false, true]);
    assert_eq!(m.row(2).to_vec(), vec![true, false, false, false]);
    for i in 0..3 {
        let row = m.row(i);
        assert_eq!(row.len(), 4);
        for j in 0..4 {
            assert_eq!(row.get(j), m.get(i, j));
        }
    }
}

#[test]
fn rows_in_order() {
    let mut m = BitMatrix::new(2, 3);
    m.set((1, 2), true);
    let rows: Vec<Vec<bool>> = m.rows().iter().map(|r| r.to_vec()).collect();
    assert_eq!(rows, vec![vec![false, false, false], vec![false, false, true]]);
}

#[test]
fn last_row_and_column_are_reachable() {
    let mut m = BitMatrix::new(5, 7);
    m.set((4, 6), true);
    assert!(m.get(4, 6));
    assert_eq!(m.row(4).to_vec(), vec![false, false, false, false, false, false, true]);
    assert_eq!(m.iter()[34], true);
}

#[test]
fn equality_follows_bits() {
    let mut a = BitMatrix::new(2, 3);
    let mut b = BitMatrix::new(2, 3);
    a.set((1, 1), true);
    b.set((1, 1), true);
    assert!(a == b);
    assert_eq!(hash_of(&a), hash_of(&b));
    b.set((0, 0), true);
    assert!(a != b);
    assert!(BitMatrix::new(2, 3) != BitMatrix::new(3, 2));
}

#[test]
fn clone_is_equal_and_independent() {
    let mut a = BitMatrix::new(2, 2);
    a.set((1, 1), true);
    let mut b = a.clone();
    assert!(a == b);
    b.set((0, 0), true);
    assert!(!a.get(0, 0));
    assert!(a != b);
}

#[test]
fn from_bits_round_trip() {
    let mut m = BitMatrix::new(3, 5);
    m.set((0, 4), true);
    m.set((2, 1), true);
    let back = BitMatrix::from_bits(&m.iter(), m.height(), m.width()).unwrap();
    assert!(back == m);
    assert!(back.get(0, 4));
    assert!(back.get(2, 1));
    assert!(!back.get(1, 1));
}

#[test]
fn from_bits_rejects_wrong_length() {
    let bits = vec![true, false, true, true];
    assert!(BitMatrix::from_bits(&bits, 3, 2).is_none());
    assert!(BitMatrix::from_bits(&bits, 1, 3).is_none());
    assert!(BitMatrix::from_bits(&bits, usize::MAX, 2).is_none());
    let m = BitMatrix::from_bits(&bits, 2, 2).unwrap();
    assert_eq!(m.render(), "10\n11\n");
}

#[test]
fn render_rows_as_digits() {
    let mut m = BitMatrix::new(2, 3);
    m.set((0, 1), true);
    m.set((1, 2), true);
    assert_eq!(m.render(), "010\n001\n");
}

#[test]
fn row_mut_writes_through() {
    let mut m = BitMatrix::new(3, 4);
    {
        let mut r = m.row_mut(1);
        r.set(2, true);
        assert!(r.get(2));
        assert!(!r.get(3));
    }
    assert!(m.get(1, 2));
    assert_eq!(m.iter().iter().filter(|b| **b).count(), 1);
    m.row_mut(2).set(0, true);
    assert_eq!(m.render(), "0000\n0010\n1000\n");
}
