use raymarching::fixed::ONE;
use raymarching::math::Vector3f;
use raymarching::op::{
    intersection, smooth_intersection, smooth_subtraction, smooth_union, subtraction, union,
    InvalidParameter,
};
use raymarching::prelude::{Material, Op};
use raymarching::surface::Surface;

#[test]
fn union_is_the_minimum() {
    assert_eq!(union(3, 5), 3);
    assert_eq!(union(5, 3), 3);
    assert_eq!(union(-7, -7), -7);
    assert_eq!(union(i64::MIN, i64::MAX), i64::MIN);
    let values = [i64::MIN, -2 * ONE, -1, 0, 1, 333_333, ONE, i64::MAX];
    for a in values.iter() {
        for b in values.iter() {
            assert_eq!(union(*a, *b), std::cmp::min(*a, *b));
        }
    }
}

#[test]
fn subtraction_negates_the_maximum() {
    assert_eq!(subtraction(3, 5), -5);
    assert_eq!(subtraction(-3, -5), 3);
    assert_eq!(subtraction(i64::MIN, i64::MIN), i64::MAX);
}

#[test]
fn intersection_is_the_maximum() {
    assert_eq!(intersection(3, 5), 5);
    assert_eq!(intersection(-3, -5), -3);
}

#[test]
fn smooth_union_blends_within_the_band() {
    assert_eq!(smooth_union(ONE, 1_200_000, 500_000), Ok(955_000));
    assert_eq!(smooth_union(ONE, ONE, ONE), Ok(750_000));
    assert_eq!(smooth_union(0, 5 * ONE, ONE), Ok(0));
    assert_eq!(smooth_union(5 * ONE, 0, ONE), Ok(0));
}

#[test]
fn smooth_subtraction_blends_within_the_band() {
    assert_eq!(smooth_subtraction(-300_000, 200_000, 500_000), Ok(380_000));
}

#[test]
fn smooth_intersection_blends_within_the_band() {
    assert_eq!(smooth_intersection(ONE, 1_200_000, 500_000), Ok(1_245_000));
    assert_eq!(smooth_intersection(0, 5 * ONE, ONE), Ok(5 * ONE));
}

#[test]
fn smooth_operators_reject_a_band_that_is_not_positive() {
    assert_eq!(smooth_union(1, 2, 0), Err(InvalidParameter));
    assert_eq!(smooth_union(1, 2, -ONE), Err(InvalidParameter));
    assert_eq!(smooth_subtraction(1, 2, 0), Err(InvalidParameter));
    assert_eq!(smooth_intersection(1, 2, i64::MIN), Err(InvalidParameter));
    let a = Surface::new(1, Vector3f::zero());
    let b = Surface::new(2, Vector3f::zero());
    assert!(Surface::smooth_union(a, b, 0).is_err());
    assert!(Surface::smooth_subtraction(a, b, -1).is_err());
    assert!(Surface::smooth_intersection(a, b, 0).is_err());
}

#[test]
fn smooth_union_stays_within_a_quarter_of_the_band() {
    let bands = [1, 4, 5, 1_000, 500_000, ONE, 1_000_000_000_001, i64::MAX];
    let distances = [i64::MIN, -3 * ONE, -1, 0, 1, 250_000, ONE, 1_000_000_000_000, i64::MAX];
    for k in bands.iter() {
        for d1 in distances.iter() {
            for d2 in distances.iter() {
                let s = smooth_union(*d1, *d2, *k).unwrap() as i128;
                let u = union(*d1, *d2) as i128;
                assert!(4 * (u - s) <= *k as i128);
                assert!(4 * (s - u) <= *k as i128);
            }
        }
    }
    assert_eq!(smooth_union(0, 1_000_000_000_000, 1_000_000_000_001), Ok(1));
}

#[test]
fn smooth_union_tends_to_union_as_the_band_shrinks() {
    let d1 = 400_000;
    let d2 = 400_100;
    assert_eq!(smooth_union(d1, d2, ONE), Ok(150_050));
    assert_eq!(smooth_union(d1, d2, 1_000), Ok(399_798));
    assert_eq!(smooth_union(d1, d2, 100), Ok(400_000));
    assert_eq!(smooth_union(d1, d2, 1), Ok(400_000));
}

#[test]
fn surface_union_keeps_the_left_on_a_tie() {
    let a = Surface::new(ONE, 1u8);
    let b = Surface::new(ONE, 2u8);
    let c = Surface::new(999_999, 3u8);
    assert_eq!(Surface::union(a, b).appearance, 1);
    assert_eq!(Surface::union(b, a).appearance, 2);
    assert_eq!(Surface::union(a, c).appearance, 3);
    assert_eq!(Surface::union(c, a).appearance, 3);
    assert_eq!(Surface::union(a, c).distance, 999_999);
    assert_eq!(Op::union(a, b).appearance, 1);
    assert_eq!(Op::union(a, c).distance, 999_999);
}

#[test]
fn surface_subtraction_and_intersection_keep_the_left_appearance() {
    let a = Surface::new(3, 1u8);
    let b = Surface::new(5, 2u8);
    let s = Surface::subtraction(a, b);
    assert_eq!((s.distance, s.appearance), (-5, 1));
    let i = Surface::intersection(a, b);
    assert_eq!((i.distance, i.appearance), (5, 1));
}

#[test]
fn surface_smooth_union_blends_colour_by_the_same_weight() {
    let red = Surface::new(ONE, Vector3f::new(ONE, 0, 0));
    let blue = Surface::new(1_200_000, Vector3f::new(0, 0, ONE));
    let s = Surface::smooth_union(red, blue, 500_000).unwrap();
    assert_eq!(s.distance, 955_000);
    assert_eq!(s.appearance, Vector3f::new(700_000, 0, 300_000));
    let far = Surface::smooth_union(red, Surface::new(9 * ONE, blue.appearance), ONE).unwrap();
    assert_eq!(far.distance, ONE);
    assert_eq!(far.appearance, Vector3f::new(ONE, 0, 0));
}

#[test]
fn surface_smooth_subtraction_blends_colour_by_the_same_weight() {
    let a = Surface::new(-300_000, Vector3f::new(ONE, 0, 0));
    let b = Surface::new(200_000, Vector3f::new(0, ONE, 0));
    let s = Surface::smooth_subtraction(a, b, 500_000).unwrap();
    assert_eq!(s.distance, 380_000);
    assert_eq!(s.appearance, Vector3f::new(600_000, 400_000, 0));
}

#[test]
fn surface_smooth_intersection_blends_materials() {
    let dull = Material::new(Vector3f::new(ONE, ONE, ONE), Vector3f::zero(), Vector3f::zero(), 0);
    let shiny = Material::new(
        Vector3f::zero(),
        Vector3f::new(0, 500_000, ONE),
        Vector3f::new(ONE, ONE, ONE),
        100 * ONE,
    );
    let s = Surface::smooth_intersection(
        Surface::new(ONE, dull),
        Surface::new(1_200_000, shiny),
        500_000,
    ).unwrap();
    assert_eq!(s.distance, 1_245_000);
    assert_eq!(s.appearance.ambient, Vector3f::new(300_000, 300_000, 300_000));
    assert_eq!(s.appearance.diffuse, Vector3f::new(0, 350_000, 700_000));
    assert_eq!(s.appearance.specular, Vector3f::new(700_000, 700_000, 700_000));
    assert_eq!(s.appearance.shininess, 70 * ONE);
}

#[test]
fn smooth_intersection_stays_near_the_intersection() {
    let bands = [1, 2, 4, 5, 1_000, 500_000, ONE, 1_000_000_000_001, i64::MAX];
    let distances = [i64::MIN, -3 * ONE, -1, 0, 1, 250_000, ONE, 1_000_000_000_000, i64::MAX];
    for k in bands.iter() {
        for d1 in distances.iter() {
            for d2 in distances.iter() {
                let s = smooth_intersection(*d1, *d2, *k).unwrap() as i128;
                let m = intersection(*d1, *d2) as i128;
                assert!(4 * (s - m) <= *k as i128);
                assert!(m - s <= 2 + *k as i128 / 1_000_000_000_000);
            }
        }
    }
    assert_eq!(smooth_intersection(-625_509_999, -625_510_000, 2), Ok(-625_510_000));
    // The intersection can fall short by two millionths.
    assert_eq!(smooth_intersection(5_000_001, 0, 5_000_002), Ok(4_999_999));
}

#[test]
fn smooth_operators_leave_surfaces_alone_outside_the_band() {
    let near = Surface::new(ONE, Vector3f::new(ONE, 0, 0));
    let far = Surface::new(1_500_000, Vector3f::new(0, 0, ONE));
    for k in [1, 250_000, 500_000] {
        for (a, b) in [(near, far), (far, near)] {
            let u = Surface::smooth_union(a, b, k).unwrap();
            assert_eq!((u.distance, u.appearance), (near.distance, near.appearance));
            let i = Surface::smooth_intersection(a, b, k).unwrap();
            assert_eq!((i.distance, i.appearance), (far.distance, far.appearance));
        }
    }
    let blended = Surface::smooth_union(near, far, 500_001).unwrap();
    assert_ne!(blended.appearance, near.appearance);
}

#[test]
fn smooth_subtraction_is_intersection_with_the_complement() {
    let bands = [1, 7, 500_000, ONE, i64::MAX];
    let distances = [i64::MIN + 1, -3 * ONE, -1, 0, 1, 250_000, ONE, i64::MAX];
    for k in bands.iter() {
        for d1 in distances.iter() {
            for d2 in distances.iter() {
                assert_eq!(smooth_subtraction(*d1, *d2, *k), smooth_intersection(-*d1, *d2, *k));
            }
        }
    }
}
