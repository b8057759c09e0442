use rasterizer::geometry::{Invert, Scalar, Sqrt, Vec2, Vec3};

#[test]
fn integer_sqrt_floors() {
    assert_eq!(0i32.sqrti(), 0);
    assert_eq!(1i32.sqrti(), 1);
    assert_eq!(16i32.sqrti(), 4);
    assert_eq!(17i32.sqrti(), 4);
    assert_eq!(24i32.sqrti(), 4);
    assert_eq!(25i32.sqrti(), 5);
    assert_eq!(2147483647i32.sqrti(), 46340);
}

#[test]
fn integer_invert_is_unit_or_zero() {
    assert_eq!(1i32.invert(), 1);
    assert_eq!((-1i32).invert(), -1);
    assert_eq!(5i32.invert(), 0);
    assert_eq!((-7i32).invert(), 0);
}

#[test]
fn scalar_arithmetic() {
    assert_eq!(3i32.add(4), 7);
    assert_eq!(3i32.sub(4), -1);
    assert_eq!(3i32.mul(-4), -12);
    assert_eq!(7i32.div(2), 3);
    assert_eq!((-7i32).div(2), -3);
    assert_eq!(7i32.div(-2), -3);
    assert_eq!((-7i32).div(-2), 3);
    assert_eq!(5i32.neg(), -5);
    assert_eq!(<i32 as Scalar>::zero(), 0);
}

#[test]
fn vec2_accessors_and_length() {
    let v: Vec2<i32> = Vec2::new(3, 4);
    assert_eq!(v.x(), 3);
    assert_eq!(v.y(), 4);
    assert_eq!(v.u(), 3);
    assert_eq!(v.v(), 4);
    assert_eq!(v.squared_length(), 25);
    assert_eq!(v.length(), 5);
    assert_eq!(v.index(0), 3);
    assert_eq!(v.index(1), 4);
}

#[test]
fn vec2_arithmetic() {
    let a: Vec2<i32> = Vec2::new(1, 2);
    let b: Vec2<i32> = Vec2::new(10, 20);
    assert_eq!(a.add(b).x(), 11);
    assert_eq!(b.sub(a).y(), 18);
    assert_eq!(a.mul(b).x(), 10);
    assert_eq!(b.div(a).y(), 10);
    assert_eq!(a.mul_scalar(3).y(), 6);
    assert_eq!(b.div_scalar(10).x(), 1);
    assert_eq!(a.neg().x(), -1);
    assert_eq!(a.dot(b), 50);
    let mut m = a;
    m.add_assign(b);
    assert_eq!(m.y(), 22);
    m.set_index(0, 9);
    assert_eq!(m.index(0), 9);
    let t: Vec2<i32> = Vec2::from((7, 8));
    assert_eq!(t.y(), 8);
}

#[test]
fn vec3_accessors_and_length() {
    let v: Vec3<i32> = Vec3::new(2, 3, 6);
    assert_eq!(v.x(), 2);
    assert_eq!(v.y(), 3);
    assert_eq!(v.z(), 6);
    assert_eq!(v.ivert(), 2);
    assert_eq!(v.iuv(), 3);
    assert_eq!(v.inorm(), 6);
    assert_eq!(v.squared_length(), 49);
    assert_eq!(v.length(), 7);
    let t: Vec3<i32> = Vec3::from((1, 2, 3));
    assert_eq!(t.z(), 3);
}

#[test]
fn vec3_arithmetic() {
    let a: Vec3<i32> = Vec3::new(1, -2, 3);
    let b: Vec3<i32> = Vec3::new(4, 5, -6);
    assert_eq!(a.add(b).x(), 5);
    assert_eq!(a.sub(b).y(), -7);
    assert_eq!(a.mul(b).z(), -18);
    assert_eq!(b.div(a).x(), 4);
    assert_eq!(a.mul_scalar(2).z(), 6);
    assert_eq!(a.neg().z(), -3);
    let mut m = a;
    m.sub_assign(b);
    assert_eq!(m.x(), -3);
    m.set_index(2, 11);
    assert_eq!(m.index(2), 11);
}

#[test]
fn dot_is_symmetric() {
    let a: Vec3<i32> = Vec3::new(2, 3, 4);
    let b: Vec3<i32> = Vec3::new(-1, 5, 7);
    assert_eq!(a.dot(b), b.dot(a));
    let p: Vec2<i32> = Vec2::new(3, -4);
    let q: Vec2<i32> = Vec2::new(6, 2);
    assert_eq!(p.dot(q), q.dot(p));
}

#[test]
fn cross_is_orthogonal_to_both_inputs() {
    let a: Vec3<i32> = Vec3::new(2, 3, 4);
    let b: Vec3<i32> = Vec3::new(-1, 5, 7);
    let c = a.cross(b);
    assert_eq!(c.dot(a), 0);
    assert_eq!(c.dot(b), 0);
}

#[test]
fn cross_is_anticommutative_and_zero_on_self() {
    let a: Vec3<i32> = Vec3::new(2, 3, 4);
    let b: Vec3<i32> = Vec3::new(-1, 5, 7);
    let ab = a.cross(b);
    let ba = b.cross(a);
    assert_eq!(ab.x(), -ba.x());
    assert_eq!(ab.y(), -ba.y());
    assert_eq!(ab.z(), -ba.z());
    let aa = a.cross(a);
    assert_eq!(aa.x(), 0);
    assert_eq!(aa.y(), 0);
    assert_eq!(aa.z(), 0);
}

#[test]
fn normalized_has_unit_length_on_axis_vectors() {
    let xs: Vec3<i32> = Vec3::new(5, 0, 0);
    let ys: Vec3<i32> = Vec3::new(0, 3, 0);
    let zs: Vec3<i32> = Vec3::new(0, 0, 7);
    assert_eq!(xs.normalized().length(), 1);
    assert_eq!(ys.normalized().length(), 1);
    assert_eq!(zs.normalized().length(), 1);
}

#[test]
fn normalize_in_place_uses_integer_inverse() {
    // The integer kind's inverse of any length above one is zero, so
    // in-place normalization collapses such a vector.
    let mut v: Vec3<i32> = Vec3::new(0, 5, 0);
    v.normalize();
    assert_eq!(v.x(), 0);
    assert_eq!(v.y(), 0);
    assert_eq!(v.z(), 0);
    // A unit vector keeps itself: the inverse of length one is one.
    let mut u: Vec3<i32> = Vec3::new(1, 0, 0);
    u.normalize();
    assert_eq!(u.x(), 1);
}
