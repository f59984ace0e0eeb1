use gfx_voxel::array::{Array, Array2, Array3, Array4};

#[test]
fn from_fn_calls_the_function_on_each_index() {
    let a: [usize; 2] = Array::from_fn(|i| i * 10);
    assert_eq!(a, [0, 10]);
    let b: [usize; 3] = Array::from_fn(|i| i + 1);
    assert_eq!(b, [1, 2, 3]);
    let c: [usize; 4] = Array::from_fn(|i| i * i);
    assert_eq!(c, [0, 1, 4, 9]);
    let d: [usize; 16] = Array::from_fn(|i| 15 - i);
    assert_eq!(d, [15, 14, 13, 12, 11, 10, 9, 8, 7, 6, 5, 4, 3, 2, 1, 0]);
}

#[test]
fn from_iter_takes_the_first_items() {
    let a: [u8; 2] = Array::from_iter(vec![7u8, 8, 9].into_iter());
    assert_eq!(a, [7, 8]);
    let b: [u8; 3] = Array::from_iter(vec![7u8, 8, 9].into_iter());
    assert_eq!(b, [7, 8, 9]);
    let c: [u32; 4] = Array::from_iter(1u32..100);
    assert_eq!(c, [1, 2, 3, 4]);
    let d: [u32; 16] = Array::from_iter(0u32..16);
    assert_eq!(d, [0, 1, 2, 3, 4, 5, 6, 7, 8, 9, 10, 11, 12, 13, 14, 15]);
}

#[test]
fn map_converts_each_component() {
    assert_eq!(Array2::map([1u8, 2], |v| v as u32 * 100), [100u32, 200]);
    assert_eq!(Array3::map([1i32, -2, 3], |v| v < 0), [false, true, false]);
    assert_eq!(Array4::map([1u8, 2, 3, 4], |v| v + 1), [2u8, 3, 4, 5]);
}

#[test]
fn components_are_named_x_y_z_w() {
    assert_eq!(Array2::x([5, 6]), 5);
    assert_eq!(Array2::y([5, 6]), 6);
    assert_eq!(Array3::x([5, 6, 7]), 5);
    assert_eq!(Array3::y([5, 6, 7]), 6);
    assert_eq!(Array3::z([5, 6, 7]), 7);
    assert_eq!(Array4::x([5, 6, 7, 8]), 5);
    assert_eq!(Array4::y([5, 6, 7, 8]), 6);
    assert_eq!(Array4::z([5, 6, 7, 8]), 7);
    assert_eq!(Array4::w([5, 6, 7, 8]), 8);
}
