use ray_tracing::fixed::Fixed;
use ray_tracing::vector::{Vec2d, Vec3d, Vec4d};

fn fx(n: i64) -> Fixed {
    Fixed::from_int(n)
}

#[test]
fn vec_count() {
    assert_eq!(Vec2d::new(fx(3), fx(4)).count(), 2);
    assert_eq!(Vec3d::new(fx(3), fx(4), fx(5)).count(), 3);
    assert_eq!(Vec4d::new(fx(3), fx(4), fx(5), fx(6)).count(), 4);
}

#[test]
fn vec_dot() {
    assert_eq!(Vec2d::new(fx(3), fx(4)).dot(Vec2d::new(fx(1), fx(2))), fx(11));
    assert_eq!(
        Vec3d::new(fx(3), fx(4), fx(5)).dot(Vec3d::new(fx(1), fx(2), fx(3))),
        fx(26)
    );
    assert_eq!(
        Vec4d::new(fx(3), fx(4), fx(5), fx(6)).dot(Vec4d::new(fx(1), fx(2), fx(3), fx(4))),
        fx(50)
    );
}

#[test]
fn vec_sum() {
    assert_eq!(Vec2d::new(fx(3), fx(4)).sum(), fx(7));
    assert_eq!(Vec3d::new(fx(3), fx(4), fx(5)).sum(), fx(12));
    assert_eq!(Vec4d::new(fx(3), fx(4), fx(5), fx(6)).sum(), fx(18));
}

#[test]
fn vec_len_squared() {
    assert_eq!(Vec2d::new(fx(3), fx(4)).len_squared(), fx(25));
    assert_eq!(Vec3d::new(fx(3), fx(4), fx(5)).len_squared(), fx(50));
    assert_eq!(Vec4d::new(fx(3), fx(4), fx(5), fx(6)).len_squared(), fx(86));
}

#[test]
fn vec_len() {
    assert_eq!(Vec2d::new(fx(3), fx(4)).len(), fx(5));
    assert_eq!(Vec3d::new(fx(2), fx(4), fx(4)).len(), fx(6));
    assert_eq!(Vec4d::new(fx(2), fx(4), fx(4), fx(0)).len(), fx(6));
}

#[test]
fn vec_normal() {
    let v1 = Vec2d::new(fx(3), fx(4));
    let v2 = Vec3d::new(fx(3), fx(4), fx(5));
    let v3 = Vec4d::new(fx(3), fx(4), fx(5), fx(6));

    assert_eq!(v1.normal(), v1.div(v1.len()));
    assert_eq!(v2.normal(), v2.div(v2.len()));
    assert_eq!(v3.normal(), v3.div(v3.len()));
}

#[test]
fn vec_normalize() {
    let mut v1 = Vec2d::new(fx(3), fx(4));
    let mut v2 = Vec3d::new(fx(3), fx(4), fx(5));
    let mut v3 = Vec4d::new(fx(3), fx(4), fx(5), fx(6));

    v1.normalize();
    v2.normalize();
    v3.normalize();

    let d1 = v1.sub(v1.div(v1.len())).sum();
    let d2 = v2.sub(v2.div(v2.len())).sum();
    let d3 = v3.sub(v3.div(v3.len())).sum();
    assert!((d1.raw as f64) / 65536.0 < 0.0000000001);
    assert!((d2.raw as f64) / 65536.0 < 0.0000000001);
    assert!((d3.raw as f64) / 65536.0 < 0.0000000001);
}

#[test]
fn vec_map() {
    let v1 = Vec2d::new(fx(3), fx(4));
    let v2 = Vec3d::new(fx(3), fx(4), fx(5));
    let v3 = Vec4d::new(fx(3), fx(4), fx(5), fx(6));

    assert_eq!(v1.map(|x: Fixed| x.div(x)), Vec2d::new(fx(1), fx(1)));
    assert_eq!(v2.map(|x: Fixed| x.div(x)), Vec3d::new(fx(1), fx(1), fx(1)));
    assert_eq!(
        v3.map(|x: Fixed| x.div(x)),
        Vec4d::new(fx(1), fx(1), fx(1), fx(1))
    );
}

#[test]
fn vec_cross() {
    let a = Vec3d::new(fx(2), fx(4), fx(4));
    let b = Vec3d::new(fx(1), fx(2), fx(3));
    let cross = Vec3d::new(fx(4 * 3 - 4 * 2), fx(4 * 1 - 2 * 3), fx(2 * 2 - 4 * 1));
    assert_eq!(a.cross(b), cross);
}

#[test]
fn vector_sqaured_length() {
    let p = Vec3d::new(fx(2), fx(4), fx(4));
    assert_eq!(p.len_squared().raw / 65536, 36);
}

#[test]
fn vector_length() {
    let p = Vec3d::new(fx(2), fx(4), fx(4));
    assert_eq!(p.len().raw / 65536, 6);
}

#[test]
fn vector_normalize() {
    let mut p = Vec3d::new(fx(2), fx(4), fx(4));
    p.normalize();
    assert_eq!(
        p,
        Vec3d::new(fx(2).div(fx(6)), fx(4).div(fx(6)), fx(4).div(fx(6)))
    );
}

#[test]
fn vector_dot() {
    let p1 = Vec3d::new(fx(2), fx(4), fx(4));
    let p2 = Vec3d::new(fx(1), fx(2), fx(3));
    assert_eq!(p1.dot(p2), fx(2 * 1 + 4 * 2 + 4 * 3));
}

#[test]
fn vector_cross() {
    let p1 = Vec3d::new(fx(2), fx(4), fx(4));
    let p2 = Vec3d::new(fx(1), fx(2), fx(3));
    assert_eq!(
        p1.cross(p2),
        Vec3d::new(fx(4 * 3 - 4 * 2), fx(4 * 1 - 2 * 3), fx(2 * 2 - 4 * 1))
    );
}

#[test]
fn vector_add() {
    let p1 = Vec3d::new(fx(2), fx(4), fx(4));
    let p2 = Vec3d::new(fx(1), fx(2), fx(3));
    assert_eq!(p1.add(p2), Vec3d::new(fx(3), fx(6), fx(7)));
}

#[test]
fn vector_add_assgin() {
    let mut p1 = Vec3d::new(fx(2), fx(4), fx(4));
    let p2 = Vec3d::new(fx(1), fx(2), fx(3));
    p1 = p1.add(p2);
    assert_eq!(p1, Vec3d::new(fx(3), fx(6), fx(7)));
}

#[test]
fn vector_sub() {
    let p1 = Vec3d::new(fx(2), fx(4), fx(4));
    let p2 = Vec3d::new(fx(1), fx(2), fx(3));
    assert_eq!(p1.sub(p2), Vec3d::new(fx(1), fx(2), fx(1)));
}

#[test]
fn vector_sub_assgin() {
    let mut p1 = Vec3d::new(fx(2), fx(4), fx(4));
    let p2 = Vec3d::new(fx(1), fx(2), fx(3));
    p1 = p1.sub(p2);
    assert_eq!(p1, Vec3d::new(fx(1), fx(2), fx(1)));
}

#[test]
fn vector_mul() {
    let p1 = Vec3d::new(fx(2), fx(4), fx(4));
    let half = Fixed { raw: 32768 };
    assert_eq!(p1.scale(half), Vec3d::new(fx(1), fx(2), fx(2)));
}

#[test]
fn vector_mul_assgin() {
    let mut p1 = Vec3d::new(fx(2), fx(4), fx(4));
    let half = Fixed { raw: 32768 };
    p1 = p1.scale(half);
    assert_eq!(p1, Vec3d::new(fx(1), fx(2), fx(2)));
}

#[test]
fn vector_div() {
    let p1 = Vec3d::new(fx(2), fx(4), fx(4));
    assert_eq!(p1.div(fx(2)), Vec3d::new(fx(1), fx(2), fx(2)));
}

#[test]
fn vector_div_assgin() {
    let mut p1 = Vec3d::new(fx(2), fx(4), fx(4));
    p1 = p1.div(fx(2));
    assert_eq!(p1, Vec3d::new(fx(1), fx(2), fx(2)));
}

#[test]
fn vector_neg() {
    let p1 = Vec3d::new(fx(2), fx(4), fx(4));
    assert_eq!(p1.neg(), Vec3d::new(fx(-2), fx(-4), fx(-4)));
}
