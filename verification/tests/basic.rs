use viator::primitive::vector::Vec3I;

#[test]
fn it_works() {
    let result = viator::add(2, 2);
    assert_eq!(result, 4);
}

#[test]
fn translate_adds_componentwise() {
    let mut v = Vec3I { x: 1, y: 2, z: 3 };
    let d = Vec3I { x: 10, y: -20, z: 30 };
    v.translate(&d);
    assert_eq!(v, Vec3I { x: 11, y: -18, z: 33 });
}

#[test]
fn clamped_sum_is_exact_in_range() {
    assert_eq!(viator::primitive::vector::clamped_sum(5, -7), -2);
}

#[test]
fn clamped_sum_saturates_at_the_ends() {
    assert_eq!(viator::primitive::vector::clamped_sum(i64::MAX, 1), i64::MAX);
    assert_eq!(viator::primitive::vector::clamped_sum(i64::MIN, -1), i64::MIN);
}
