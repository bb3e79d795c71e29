use vec2dim::Vec2d;

#[test]
fn lib_check_initializer() {
    let v = Vec2d::from_fn(3, 3, &|row, col| row + col);
    for idx in 0..v.count() {
        let row = idx / v.count_cols();
        let col = idx - (row * v.count_cols());
        assert_eq!(v.row(row)[col], row + col);
    }
}

#[test]
fn vec2d_check_initializer() {
    let v = Vec2d::from_fn(3, 3, &|row, col| row + col);
    for idx in 0..v.count() {
        let row = idx / v.count_cols();
        let col = idx - (row * v.count_cols());
        assert_eq!(v.row(row)[col], row + col);
    }
}

#[test]
fn lib_build_from_data() {
    let data: [i32; 12] = [1, 2, 3, 4, 5, 6, 7, 8, 9, 10, 11, 12];
    for divs in 1..13 {
        if 12 % divs == 0 {
            let _v = Vec2d::from(divs, &data);
            for row in 0.._v.count_rows() {
                for col in 0.._v.count_cols() {
                    let idx = row * _v.count_cols() + col;
                    assert_eq!(data[idx], _v.row(row)[col]);
                }
            }
        }
    }
}

#[test]
fn vec2d_build_from_data() {
    let data: [i32; 12] = [1, 2, 3, 4, 5, 6, 7, 8, 9, 10, 11, 12];
    for divs in 1..13 {
        if 12 % divs == 0 {
            let _v = Vec2d::from(divs, &data);
            for row in 0.._v.count_rows() {
                for col in 0.._v.count_cols() {
                    let idx = row * _v.count_cols() + col;
                    assert_eq!(data[idx], _v.row(row)[col]);
                }
            }
        }
    }
}

#[test]
fn lib_build_from_defaults() {
    let mut v: Vec2d<i32> = Vec2d::new();
    assert_eq!(v.count(), 0);
    v.add_row_of_default();
    assert_eq!(v.count_rows(), 1);
    v.add_row_of_default();
    v.add_col_of_default();
    assert_eq!(v.count(), 4);
    assert_eq!(v.count_rows(), 2);
    assert_eq!(v.count_cols(), 2);
}

#[test]
fn vec2d_build_from_defaults() {
    let mut v: Vec2d<i32> = Vec2d::new();
    assert_eq!(v.count(), 0);
    v.add_row_of_default();
    assert_eq!(v.count_rows(), 1);
    v.add_row_of_default();
    v.add_col_of_default();
    assert_eq!(v.count(), 4);
    assert_eq!(v.count_rows(), 2);
    assert_eq!(v.count_cols(), 2);
}

#[test]
fn test_data_pushing() {
    let mut v: Vec2d<i32> = Vec2d::new();
    let data = [1, 2, 3, 4, 5, 6, 7, 8, 9, 10, 11, 12];
    v.push_row(&data[0..1]);
    v.push_col(&data[1..2]);
    v.push_row(&data[2..4]);
    v.push_row(&data[4..6]);
    v.push_col(&data[6..9]);
    v.push_col(&data[9..12]);
    assert_eq!(v.count(), 12);
    assert_eq!(v.count_rows(), 3);
    assert_eq!(v.count_cols(), 4);
    let answers = [1, 2, 7, 10, 3, 4, 8, 11, 5, 6, 9, 12];
    let mut idx: usize = 0;
    for row in 0..v.count_rows() {
        for col in 0..v.count_cols() {
            assert_eq!(v.row(row)[col], answers[idx]);
            idx += 1;
        }
    }
}

#[test]
fn test_data_insertion() {
    let mut v: Vec2d<i32> = Vec2d::new();
    let data = [1, 2, 3, 4, 5, 6, 7, 8, 9, 10, 11, 12];
    v.insert_row(0, &data[0..1]);
    v.insert_col(0, &data[1..2]);
    v.insert_row(1, &data[2..4]);
    v.insert_row(1, &data[4..6]);
    v.insert_col(1, &data[6..9]);
    v.insert_col(3, &data[9..12]);
    assert_eq!(v.count(), 12);
    assert_eq!(v.count_rows(), 3);
    assert_eq!(v.count_cols(), 4);
    let answers = [2, 7, 1, 10, 5, 8, 6, 11, 3, 9, 4, 12];
    let mut idx: usize = 0;
    for row in 0..v.count_rows() {
        for col in 0..v.count_cols() {
            assert_eq!(v.row(row)[col], answers[idx]);
            idx += 1;
        }
    }
}

#[test]
fn default_fill_counts_and_values() {
    let v: Vec2d<i32> = Vec2d::new_with_default(3, 4);
    assert_eq!(v.count(), 12);
    assert_eq!(v.size(), (3, 4));
    for r in 0..3 {
        for c in 0..4 {
            assert_eq!(*v.get(r, c), 0);
        }
    }
    let z: Vec2d<i32> = Vec2d::new_with_default(0, 5);
    assert_eq!(z.count(), 0);
    assert_eq!(z.count_cols(), 5);
    assert_eq!(z.count_rows(), 0);
}

#[test]
fn value_fill_copies_everywhere() {
    let v = Vec2d::new_with_value(2, 3, 7i64);
    assert_eq!(v.count(), 6);
    for r in 0..2 {
        for c in 0..3 {
            assert_eq!(*v.get(r, c), 7);
        }
    }
}

#[test]
fn from_flat_reconstructs_source() {
    let data = [5u8, 6, 7, 8, 9, 10];
    let v = Vec2d::from(3, &data);
    assert_eq!(v.count_rows(), 2);
    assert_eq!(v.count_cols(), 3);
    for r in 0..2 {
        for c in 0..3 {
            assert_eq!(*v.get(r, c), data[r * 3 + c]);
        }
    }
    assert_eq!(v.as_vec().as_slice(), &data);
}

#[test]
fn push_build_matches_from_flat() {
    let mut v: Vec2d<i32> = Vec2d::new();
    let data = [1, 2, 3, 4, 5, 6, 7, 8, 9, 10, 11, 12];
    v.push_row(&data[0..1]);
    v.push_col(&data[1..2]);
    v.push_row(&data[2..4]);
    v.push_row(&data[4..6]);
    v.push_col(&data[6..9]);
    v.push_col(&data[9..12]);
    let flat = [1, 2, 7, 10, 3, 4, 8, 11, 5, 6, 9, 12];
    let w = Vec2d::from(4, &flat);
    assert_eq!(v.size(), w.size());
    for r in 0..3 {
        for c in 0..4 {
            assert_eq!(v.row(r)[c], w.row(r)[c]);
        }
    }
}

#[test]
fn insert_at_edge_matches_push() {
    let data = [1, 2, 3, 4, 5, 6];
    let mut a: Vec2d<i32> = Vec2d::from(2, &data[0..4]);
    let mut b: Vec2d<i32> = Vec2d::from(2, &data[0..4]);
    a.insert_row(2, &data[4..6]);
    b.push_row(&data[4..6]);
    assert_eq!(a.size(), b.size());
    for r in 0..3 {
        for c in 0..2 {
            assert_eq!(a.row(r)[c], b.row(r)[c]);
        }
    }
    let mut a2: Vec2d<i32> = Vec2d::from(2, &data[0..4]);
    let mut b2: Vec2d<i32> = Vec2d::from(2, &data[0..4]);
    a2.insert_col(2, &data[4..6]);
    b2.push_col(&data[4..6]);
    assert_eq!(a2.size(), b2.size());
    for r in 0..2 {
        for c in 0..3 {
            assert_eq!(a2.row(r)[c], b2.row(r)[c]);
        }
    }
}

#[test]
fn insert_at_zero_shifts_by_one() {
    let data = [1, 2, 3, 4];
    let mut v: Vec2d<i32> = Vec2d::from(2, &data);
    v.insert_row(0, &[8, 9]);
    assert_eq!(v.row(0), &[8, 9]);
    assert_eq!(v.row(1), &[1, 2]);
    assert_eq!(v.row(2), &[3, 4]);
    let mut w: Vec2d<i32> = Vec2d::from(2, &data);
    w.insert_col(0, &[8, 9]);
    assert_eq!(w.row(0), &[8, 1, 2]);
    assert_eq!(w.row(1), &[9, 3, 4]);
}

#[test]
fn append_row_on_empty_then_grow() {
    let mut v: Vec2d<u32> = Vec2d::new();
    v.add_row_of_default();
    assert_eq!(v.count_rows(), 1);
    assert_eq!(v.count_cols(), 1);
    let mut w: Vec2d<u32> = Vec2d::new();
    w.add_row_of_default();
    w.add_row_of_default();
    w.add_col_of_default();
    assert_eq!(w.size(), (2, 2));
    assert_eq!(w.count(), 4);
    for r in 0..2 {
        for c in 0..2 {
            assert_eq!(*w.get(r, c), 0);
        }
    }
}

#[test]
fn add_col_on_empty_keeps_zero_rows() {
    let mut v: Vec2d<u32> = Vec2d::new();
    v.add_col_of_default();
    assert_eq!(v.count_cols(), 1);
    assert_eq!(v.count_rows(), 0);
    assert_eq!(v.count(), 0);
}

#[test]
fn push_row_on_empty_sets_width() {
    let mut v: Vec2d<i32> = Vec2d::new();
    v.push_row(&[4, 5, 6]);
    assert_eq!(v.size(), (1, 3));
    assert_eq!(v.row(0), &[4, 5, 6]);
}

#[test]
fn push_col_on_empty_makes_single_column() {
    let mut v: Vec2d<i32> = Vec2d::new();
    v.push_col(&[4, 5, 6]);
    assert_eq!(v.size(), (3, 1));
    assert_eq!(*v.get(0, 0), 4);
    assert_eq!(*v.get(2, 0), 6);
}

#[test]
fn contains_finds_only_present_values() {
    let data = [1, 2, 3, 4, 5, 6];
    let v: Vec2d<i32> = Vec2d::from(2, &data);
    for x in &data {
        assert!(v.contains(x));
    }
    assert!(!v.contains(&0));
    assert!(!v.contains(&7));
    let e: Vec2d<i32> = Vec2d::new();
    assert!(!e.contains(&1));
}

#[test]
fn get_mut_writes_one_cell() {
    let data = [1, 2, 3, 4];
    let mut v: Vec2d<i32> = Vec2d::from(2, &data);
    *v.get_mut(1, 0) = 30;
    assert_eq!(*v.get(0, 0), 1);
    assert_eq!(*v.get(0, 1), 2);
    assert_eq!(*v.get(1, 0), 30);
    assert_eq!(*v.get(1, 1), 4);
}
