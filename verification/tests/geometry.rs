use tga_image::geometry::{Vec2i, Vec2u, Vec3i, Vec3u, Vector};

#[test]
fn new2_keeps_the_elements_in_order() {
    assert_eq!(Vec2i::new2(3, -4).into_array(), [3, -4]);
    assert_eq!(Vec2u::new2(3, 4).into_array(), [3, 4]);
}

#[test]
fn new3_keeps_the_elements_in_order() {
    assert_eq!(Vec3i::new3(1, -2, 3).into_array(), [1, -2, 3]);
    assert_eq!(Vec3u::new3(1, 2, 3).into_array(), [1, 2, 3]);
}

#[test]
fn vector_of_an_array_gives_the_array_back() {
    let v: Vector<u8, 5> = Vector::from([1, 2, 3, 4, 5]);
    assert_eq!(v.into_array(), [1, 2, 3, 4, 5]);
    let copy = v;
    assert_eq!(copy.clone().into_array(), v.into_array());
}

#[test]
fn dot_is_the_sum_of_products() {
    let a = Vec3i::new3(1, 2, 3);
    let b = Vec3i::new3(4, -5, 6);
    assert_eq!(a.dot(b), 4 - 10 + 18);
    assert_eq!(Vec2i::new2(3, 4).dot(Vec2i::new2(-1, 2)), 5);
    let long: Vector<isize, 4> = Vector::from([1, 1, 1, 1]);
    assert_eq!(long.dot(long), 4);
}

#[test]
fn len_sqr_is_the_dot_with_itself() {
    assert_eq!(Vec2i::new2(3, 4).len_sqr(), 25);
    assert_eq!(Vec3i::new3(1, -2, 2).len_sqr(), 9);
    assert_eq!(Vec3i::new3(0, 0, 0).len_sqr(), 0);
}

#[test]
fn cross_of_axes_is_the_third_axis() {
    let x = Vec3i::new3(1, 0, 0);
    let y = Vec3i::new3(0, 1, 0);
    let z = Vec3i::new3(0, 0, 1);
    assert_eq!(x.cross(y).into_array(), [0, 0, 1]);
    assert_eq!(y.cross(z).into_array(), [1, 0, 0]);
    assert_eq!(z.cross(x).into_array(), [0, 1, 0]);
    assert_eq!(y.cross(x).into_array(), [0, 0, -1]);
}

#[test]
fn cross_of_general_vectors() {
    let a = Vec3i::new3(2, 3, 4);
    let b = Vec3i::new3(5, 6, 7);
    assert_eq!(a.cross(b).into_array(), [3 * 7 - 4 * 6, 4 * 5 - 2 * 7, 2 * 6 - 3 * 5]);
    assert_eq!(a.cross(a).into_array(), [0, 0, 0]);
    assert_eq!(a.cross(b).dot(a), 0);
}

#[test]
fn vectors_add_element_by_element() {
    let sum = Vec3i::new3(1, 2, 3) + Vec3i::new3(10, -20, 30);
    assert_eq!(sum.into_array(), [11, -18, 33]);
}

#[test]
fn vectors_subtract_element_by_element() {
    let difference = Vec2i::new2(1, 2) - Vec2i::new2(10, -20);
    assert_eq!(difference.into_array(), [-9, 22]);
    assert_eq!((Vec2u::new2(5, 7) - Vec2u::new2(2, 7)).into_array(), [3, 0]);
}

#[test]
fn vectors_multiply_element_by_element() {
    let product = Vec3i::new3(1, 2, 3) * Vec3i::new3(4, -5, 6);
    assert_eq!(product.into_array(), [4, -10, 18]);
}

#[test]
fn vector_times_a_number_scales_every_element() {
    assert_eq!((Vec3i::new3(1, -2, 3) * 3).into_array(), [3, -6, 9]);
    assert_eq!((Vec3u::new3(1, 2, 3) * 0).into_array(), [0, 0, 0]);
}

#[test]
fn negated_vector_has_every_element_negated() {
    assert_eq!((-Vec3i::new3(1, -2, 0)).into_array(), [-1, 2, 0]);
}

#[test]
fn vector_is_indexed_from_zero() {
    let v = Vec3i::new3(7, 8, 9);
    assert_eq!(v[0], 7);
    assert_eq!(v[1], 8);
    assert_eq!(v[2], 9);
}

#[test]
fn default_vector_is_all_defaults() {
    assert_eq!(Vec3i::default().into_array(), [0, 0, 0]);
    assert_eq!(Vector::<u8, 4>::default().into_array(), [0, 0, 0, 0]);
    assert_eq!(Vector::<bool, 2>::default().into_array(), [false, false]);
}

#[test]
fn operators_work_on_other_element_types() {
    let sum: Vector<u8, 2> = Vector::from([1u8, 2]) + Vector::from([3u8, 4]);
    assert_eq!(sum.into_array(), [4, 6]);
    let product: Vector<i64, 1> = Vector::from([3i64]) * Vector::from([-4i64]);
    assert_eq!(product.into_array(), [-12]);
    let crossed: Vector<i32, 3> = Vector::new3(1i32, 0, 0).cross(Vector::new3(0i32, 1, 0));
    assert_eq!(crossed.into_array(), [0, 0, 1]);
}

#[test]
fn vector_element_is_changed_in_place() {
    let mut v = Vec3i::new3(7, 8, 9);
    v[1] = -1;
    v[2] += 1;
    assert_eq!(v.into_array(), [7, -1, 10]);
}
