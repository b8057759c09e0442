use rasterizer::geometry::{Invert, Scalar, Sqrt, Vec3};

/// A floating-point scalar for the generic vector layer; the verified
/// contracts cover the integer kind, this exercises the same code paths
/// on a float kind.
#[derive(Clone, Copy, Debug, PartialEq)]
struct F(f32);

impl Sqrt for F {
    fn sqrt_ok(self) -> bool {
        true
    }

    fn spec_sqrti(self) -> F {
        F(self.0.sqrt())
    }

    fn sqrti(&self) -> F {
        F(self.0.sqrt())
    }
}

impl Invert for F {
    fn invert_ok(self) -> bool {
        true
    }

    fn spec_invert(self) -> F {
        F(1.0 / self.0)
    }

    fn invert(&self) -> F {
        F(1.0 / self.0)
    }
}

impl Scalar for F {
    fn add_ok(self, _o: F) -> bool {
        true
    }

    fn add_spec(self, o: F) -> F {
        F(self.0 + o.0)
    }

    fn sub_ok(self, _o: F) -> bool {
        true
    }

    fn sub_spec(self, o: F) -> F {
        F(self.0 - o.0)
    }

    fn mul_ok(self, _o: F) -> bool {
        true
    }

    fn mul_spec(self, o: F) -> F {
        F(self.0 * o.0)
    }

    fn div_ok(self, _o: F) -> bool {
        true
    }

    fn div_spec(self, o: F) -> F {
        F(self.0 / o.0)
    }

    fn neg_ok(self) -> bool {
        true
    }

    fn neg_spec(self) -> F {
        F(-self.0)
    }

    fn zero_spec() -> F {
        F(0.0)
    }

    fn add(self, o: F) -> F {
        F(self.0 + o.0)
    }

    fn sub(self, o: F) -> F {
        F(self.0 - o.0)
    }

    fn mul(self, o: F) -> F {
        F(self.0 * o.0)
    }

    fn div(self, o: F) -> F {
        F(self.0 / o.0)
    }

    fn neg(self) -> F {
        F(-self.0)
    }

    fn zero() -> F {
        F(0.0)
    }
}

#[test]
fn float_normalized_length_is_about_one() {
    let cases = [
        (1.5f32, -2.0f32, 0.5f32),
        (3.0, 4.0, 0.0),
        (0.001, 0.0, 0.0),
        (-7.0, 2.0, 9.0),
    ];
    for &(x, y, z) in cases.iter() {
        let v: Vec3<F> = Vec3::new(F(x), F(y), F(z));
        let len = v.normalized().length().0;
        assert!((len - 1.0).abs() < 1e-3, "length {}", len);
    }
}

#[test]
fn float_normalize_in_place_matches_normalized() {
    let mut v: Vec3<F> = Vec3::new(F(3.0), F(4.0), F(0.0));
    let n = v.normalized();
    v.normalize();
    assert!((v.x().0 - n.x().0).abs() < 1e-6);
    assert!((v.y().0 - n.y().0).abs() < 1e-6);
    assert!((v.x().0 - 0.6).abs() < 1e-6);
    assert!((v.y().0 - 0.8).abs() < 1e-6);
}

#[test]
fn float_cross_orthogonality_within_tolerance() {
    let a: Vec3<F> = Vec3::new(F(1.25), F(-0.5), F(2.0));
    let b: Vec3<F> = Vec3::new(F(0.75), F(3.5), F(-1.0));
    let c = a.cross(b);
    assert!(c.dot(a).0.abs() < 1e-4);
    assert!(c.dot(b).0.abs() < 1e-4);
    assert_eq!(a.dot(b).0, b.dot(a).0);
}
