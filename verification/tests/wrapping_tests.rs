use std::convert::TryInto;
use vec2dim::Vec2d;
use vec2dim::WrappingVec2d;

fn initializer(row: usize, col: usize) -> i32 {
    (row as i32) * (col as i32)
}

#[test]
fn check_array_access() {
    let data: [i32; 12] = [1, 2, 3, 4, 5, 6, 7, 8, 9, 10, 11, 12];
    let v: Vec2d<i32> = Vec2d::from(3, &data);
    let mut w: WrappingVec2d<i32> = WrappingVec2d::from_vec2d(v);
    *w.mut_array().get_mut(3, 2) = 99;
    assert_eq!(*w.mut_array().get_mut(3, 2), 99);
}

#[test]
fn check_index() {
    let data: [i32; 12] = [1, 2, 3, 4, 5, 6, 7, 8, 9, 10, 11, 12];
    let v: Vec2d<i32> = Vec2d::from(3, &data);
    let mut w: WrappingVec2d<i32> = WrappingVec2d::from_vec2d(v);
    *w.index_mut(3, 2) = 99;
    assert_eq!(*w.index(3, 2), 99);
    assert_eq!(w.array().row(3)[2], *w.index(3, 2));
}

#[test]
fn test_init_fn() {
    let v = Vec2d::from_fn(3, 4, &initializer);
    for row in 0..v.count_rows() {
        for col in 0..v.count_cols() {
            assert_eq!(v.row(row)[col], initializer(row, col));
        }
    }
}

#[test]
fn test_init_closure() {
    let closure = &|row, col| -> i32 { (row as i32) * (col as i32) };
    let v = Vec2d::from_fn(3, 4, closure);
    for row in 0..v.count_rows() {
        for col in 0..v.count_cols() {
            assert_eq!(v.row(row)[col], closure(row, col));
        }
    }
}

#[test]
fn test_wrapping() {
    let w = WrappingVec2d::from_vec2d(Vec2d::from_fn(5, 2, &initializer));
    for wrow in 0..w.count_rows() {
        for wcol in 0..w.count_cols() {
            assert_eq!(
                *w.index(wrow, wcol),
                initializer(wrow.try_into().unwrap(), wcol.try_into().unwrap())
            );
        }
    }
    for wrow in -5..20 {
        for wcol in -20..100 {
            let col: usize = w.get_col_index(wcol);
            let row: usize = w.get_row_index(wrow);
            assert_eq!(*w.index(wrow, wcol), w.array().row(row)[col]);
        }
    }
}

#[test]
fn wrap_resolves_negative_to_last() {
    let v = Vec2d::from_fn(5, 2, &|r, c| (r * 2 + c) as i32);
    let w = WrappingVec2d::from_vec2d(v);
    assert_eq!(w.count_rows(), 5);
    assert_eq!(w.count_cols(), 2);
    assert_eq!(w.get_row_index(-1), 4);
    assert_eq!(w.get_col_index(-1), 1);
    assert_eq!(*w.index(-1, -1), 9);
}

#[test]
fn wrap_is_periodic() {
    let v = Vec2d::from_fn(5, 2, &|r, c| (r * 2 + c) as i32);
    let w = WrappingVec2d::from_vec2d(v);
    for i in -3..3 {
        for k in -3..3 {
            assert_eq!(w.get_row_index(i + k * 5), w.get_row_index(i));
            assert_eq!(w.get_col_index(i + k * 2), w.get_col_index(i));
        }
    }
}

#[test]
fn wrapped_writes_are_visible_directly() {
    let data = [1, 2, 3, 4];
    let v: Vec2d<i32> = Vec2d::from(2, &data);
    let mut w = WrappingVec2d::from_vec2d(v);
    *w.index_mut(-1, -1) = 42;
    assert_eq!(*w.array().get(1, 1), 42);
    *w.mut_array().get_mut(0, 0) = 7;
    assert_eq!(*w.index(0, 0), 7);
    assert_eq!(w.count_rows(), 2);
    assert_eq!(w.count_cols(), 2);
}

#[test]
fn wrapping_from_flat() {
    let data = [1, 2, 3, 4, 5, 6];
    let w: WrappingVec2d<i32> = WrappingVec2d::from(3, &data);
    assert_eq!(*w.index(1, 2), 6);
    assert_eq!(*w.index(-1, -1), 6);
    assert_eq!(*w.index(0, 0), 1);
}
