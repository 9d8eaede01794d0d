use raytrace::fixed::SCALE;
use raytrace::vector3::Vector3;

const S: i64 = SCALE;

#[test]
fn test_add() {
    let a = Vector3 { x: 1 * S, y: 2 * S, z: 3 * S };
    let b = Vector3 { x: 5 * S, y: 7 * S, z: 9 * S };
    assert_eq!(a.add(b), Vector3 { x: 6 * S, y: 9 * S, z: 12 * S });
}

#[test]
fn test_add_assign() {
    let mut a = Vector3 { x: 1 * S, y: 2 * S, z: 3 * S };
    a.add_assign(Vector3 { x: 6 * S, y: 9 * S, z: 12 * S });
    assert_eq!(a, Vector3 { x: 7 * S, y: 11 * S, z: 15 * S });
}

#[test]
fn test_neg() {
    let a = Vector3 { x: 1 * S, y: 2 * S, z: 3 * S };
    assert_eq!(a.neg(), Vector3 { x: -1 * S, y: -2 * S, z: -3 * S });
}

#[test]
fn test_sub() {
    let a = Vector3 { x: 1 * S, y: 2 * S, z: 3 * S };
    let b = Vector3 { x: 5 * S, y: 7 * S, z: 9 * S };
    assert_eq!(b.sub(a), Vector3 { x: 4 * S, y: 5 * S, z: 6 * S });
}

#[test]
fn test_div_64() {
    let a = Vector3 { x: 1 * S, y: 2 * S, z: 3 * S };
    let b = a.div(2 * S);
    assert_eq!(b.x, S / 2);
    assert_eq!(b.y, S);
    assert_eq!(b.z, S + S / 2);
}

#[test]
fn test_div_assign_64() {
    let mut a = Vector3 { x: 1 * S, y: 2 * S, z: 3 * S };
    a.div_assign(10 * S);
    // one tenth rounds toward zero in fixed point
    assert_eq!(a.x, 6553);
    assert_eq!(a.y, 13107);
    assert_eq!(a.z, 19660);
}

#[test]
fn test_mul() {
    let a = Vector3 { x: 1 * S, y: 2 * S, z: 3 * S };
    let b = Vector3 { x: 5 * S, y: 7 * S, z: 9 * S };
    assert_eq!(a.mul(b), Vector3 { x: 5 * S, y: 14 * S, z: 27 * S });
}

#[test]
fn test_mul_assign() {
    let mut a = Vector3 { x: 1 * S, y: 2 * S, z: 3 * S };
    let b = Vector3 { x: 5 * S, y: 7 * S, z: 9 * S };
    a.mul_assign(b);
    assert_eq!(a, Vector3 { x: 5 * S, y: 14 * S, z: 27 * S });
}

#[test]
fn test_mul_64() {
    let a = Vector3 { x: 1 * S, y: 2 * S, z: 3 * S };
    assert_eq!(a.scale(10 * S), Vector3 { x: 10 * S, y: 20 * S, z: 30 * S });
}

#[test]
fn test_mul_vector3() {
    let a = Vector3 { x: 1 * S, y: 2 * S, z: 3 * S };
    // scalar products commute: 10 * a equals a * 10
    assert_eq!(a.scale(10 * S), Vector3 { x: 10 * S, y: 20 * S, z: 30 * S });
}

#[test]
fn test_length_squared() {
    let a = Vector3 { x: 1 * S, y: 2 * S, z: 3 * S };
    assert_eq!(a.length_squared(), 14 * S);
}

#[test]
fn test_length() {
    let a = Vector3 { x: 1 * S, y: 2 * S, z: 3 * S };
    // the floor square root of 14, in fixed point
    assert_eq!(a.length(), 245213);
}

#[test]
fn test_dot() {
    let a = Vector3 { x: 1 * S, y: 2 * S, z: 3 * S };
    let b = Vector3 { x: 5 * S, y: 7 * S, z: 9 * S };
    assert_eq!(Vector3::dot(a, b), (5 + 14 + 27) * S);
}

#[test]
fn test_cross() {
    let a = Vector3 { x: 1 * S, y: 2 * S, z: 3 * S };
    let b = Vector3 { x: 3 * S, y: 4 * S, z: 5 * S };
    assert_eq!(Vector3::cross(a, b), Vector3 { x: -2 * S, y: 4 * S, z: -2 * S });
}

#[test]
fn test_unit_vector() {
    let a = Vector3 { x: 1 * S, y: 2 * S, z: 3 * S };
    let u = Vector3::unit_vector(&a);
    // 0.2672612, 0.5345224, 0.8017837 in fixed point, within one tick
    assert!((u.x - 17515).abs() <= 1);
    assert!((u.y - 35030).abs() <= 1);
    assert!((u.z - 52545).abs() <= 1);
}

#[test]
fn test_unit_vector_length() {
    // normalizing any vector at least half a unit long gives a squared
    // length of one within a few ticks
    let cases = [
        Vector3 { x: 1 * S, y: 2 * S, z: 3 * S },
        Vector3 { x: -7 * S, y: 1, z: 5 * S },
        Vector3 { x: S / 2, y: 0, z: 0 },
        Vector3 { x: 40_000_000, y: -40_000_000, z: 123_456 },
    ];
    for a in cases {
        let u = Vector3::unit_vector(&a);
        let q = u.length_squared();
        assert!(S - 15 <= q && q <= S + 17, "squared length {} out of band", q);
        let l = u.length();
        assert!(S - 8 <= l && l <= S + 8, "length {} out of band", l);
    }
}

#[test]
fn test_near_zero() {
    assert!(Vector3 { x: 0, y: 0, z: 0 }.near_zero());
    assert!(Vector3 { x: 255, y: -255, z: 1 }.near_zero());
    assert!(!Vector3 { x: 256, y: 0, z: 0 }.near_zero());
}

#[test]
fn test_reflect() {
    let v = Vector3 { x: S, y: -S, z: 0 };
    let n = Vector3 { x: 0, y: S, z: 0 };
    assert_eq!(Vector3::reflect(v, n), Vector3 { x: S, y: S, z: 0 });
}

#[test]
fn test_random_in_band() {
    // the random source honors its half-open range: a one-tick range is
    // fully determined
    let v = Vector3::random_in(1000, 1001);
    assert_eq!(v, Vector3 { x: 1000, y: 1000, z: 1000 });
    let w = Vector3::random();
    assert!(0 <= w.x && w.x < S);
    assert!(0 <= w.y && w.y < S);
    assert!(0 <= w.z && w.z < S);
}

#[test]
fn test_random_is_not_constant() {
    // sixty-four draws from a 65536-wide range collide with the lower
    // bound every time only if the source is broken
    let mut seen_nonzero = false;
    for _ in 0..64 {
        let v = Vector3::random();
        if v.x != 0 || v.y != 0 || v.z != 0 {
            seen_nonzero = true;
        }
    }
    assert!(seen_nonzero);
}

#[test]
fn test_random_unit_vector_band() {
    for _ in 0..32 {
        let u = Vector3::random_unit_vector();
        let q = u.length_squared();
        assert!(S - 15 <= q && q <= S + 17);
    }
}

#[test]
fn test_random_on_hemishpere() {
    let n = Vector3 { x: 0, y: S, z: 0 };
    for _ in 0..32 {
        let u = Vector3::random_on_hemishpere(n);
        assert!(Vector3::dot(u, n) >= 0);
    }
}

#[test]
fn test_random_in_unit_disk() {
    for _ in 0..32 {
        let p = Vector3::random_in_unit_disk();
        assert_eq!(p.z, 0);
        assert!(p.length_squared() < S);
    }
}
