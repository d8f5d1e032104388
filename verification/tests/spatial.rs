use mapeditr::spatial::Area;
use mapeditr::spatial::InverseBlockIterator;
use mapeditr::spatial::Vec3;

#[test]
fn test_vec3() {
    assert_eq!(Vec3::new(42, 0, -6000), Vec3 { x: 42, y: 0, z: -6000 });

    assert_eq!(Vec3::new(-31000, 50, 31000).is_valid_node_pos(), true);
    assert_eq!(Vec3::new(-31000, -11, 31001).is_valid_node_pos(), false);

    assert_eq!(Vec3::new(-1937, -5, 1101).is_valid_block_pos(), true);
    assert_eq!(Vec3::new(-1937, 1938, -10).is_valid_block_pos(), false);
    assert_eq!(Vec3::new(-1938, 4, 1900).is_valid_block_pos(), false);

    let exp = 3;
    assert_eq!(Vec3::new(-3, 4, 10).map(|n| n.pow(exp)), Vec3::new(-27, 64, 1000));

    assert_eq!(Vec3::new(-1000, 0, 70).to_string(), "(-1000, 0, 70)");
}

#[test]
fn test_vec3_conversions() {
    /* Test block key/vector conversions */
    const Y_FAC: i64 = 0x1_000;
    const Z_FAC: i64 = 0x1_000_000;
    let bk_pairs = [
        // Basics
        (Vec3::new(0, 0, 0), 0),
        (Vec3::new(1, 0, 0), 1),
        (Vec3::new(0, 1, 0), 1 * Y_FAC),
        (Vec3::new(0, 0, 1), 1 * Z_FAC),
        // X/Y/Z Boundaries
        (Vec3::new(-2048, 0, 0), -2048),
        (Vec3::new(2047, 0, 0), 2047),
        (Vec3::new(0, -2048, 0), -2048 * Y_FAC),
        (Vec3::new(0, 2047, 0), 2047 * Y_FAC),
        (Vec3::new(0, 0, -2048), -2048 * Z_FAC),
        (Vec3::new(0, 0, 2047), 2047 * Z_FAC),
        // Extra spicy boundaries
        (Vec3::new(-42, 2047, -99), -42 + 2047 * Y_FAC + -99 * Z_FAC),
        (Vec3::new(64, -2048, 22), 64 + -2048 * Y_FAC + 22 * Z_FAC),
        (Vec3::new(2047, 555, 35), 2047 + 555 * Y_FAC + 35 * Z_FAC),
        (Vec3::new(-2048, 600, -70), -2048 + 600 * Y_FAC + -70 * Z_FAC),
        // Multiple boundaries
        (Vec3::new(2047, -2048, 16), 2047 + -2048 * Y_FAC + 16 * Z_FAC),
        (Vec3::new(-2048, 2047, 50), -2048 + 2047 * Y_FAC + 50 * Z_FAC),
    ];

    for pair in &bk_pairs {
        assert_eq!(pair.0.to_block_key(), pair.1);
        assert_eq!(pair.0, Vec3::from_block_key(pair.1));
    }

    /* Test u16/vector conversions */
    let u16_pairs = [
        (Vec3::new(0, 0, 0), 0x000),
        (Vec3::new(1, 0, 0), 0x001),
        (Vec3::new(0, 1, 0), 0x010),
        (Vec3::new(0, 0, 1), 0x100),
        (Vec3::new(15, 15, 15), 0xFFF),
        (Vec3::new(5, 15, 9), 0x9F5),
    ];

    for pair in &u16_pairs {
        assert_eq!(pair.0, Vec3::from_u16_key(pair.1));
    }
}

#[test]
fn block_key_roundtrip_at_the_corners() {
    for &x in &[-2048, -1, 0, 2047] {
        for &y in &[-2048, -1, 0, 2047] {
            for &z in &[-2048, -1, 0, 2047] {
                let p = Vec3::new(x, y, z);
                assert_eq!(Vec3::from_block_key(p.to_block_key()), p);
            }
        }
    }
}

#[test]
fn from_block_key_takes_any_key() {
    // The greatest and the least key do not overflow.
    let hi = Vec3::from_block_key(i64::MAX);
    assert_eq!((hi.x, hi.y), (-1, 0));
    let lo = Vec3::from_block_key(i64::MIN);
    assert_eq!((lo.x, lo.y), (0, 0));
}

#[test]
fn from_u16_key_ignores_high_bits() {
    assert_eq!(Vec3::from_u16_key(0xF9F5), Vec3::new(5, 15, 9));
}

#[test]
fn test_areas() {
    assert_eq!(
        Area { min: Vec3::new(0, 3, 1), max: Vec3::new(-1, 4, -2) }.is_valid(),
        false
    );
    assert_eq!(
        Area::from_unsorted(Vec3::new(8, 0, -10), Vec3::new(-8, 0, 10)),
        Area::new(Vec3::new(-8, 0, -10), Vec3::new(8, 0, 10))
    );
    assert_eq!(
        Area::from_unsorted(Vec3::new(10, 80, 42), Vec3::new(10, -50, 99)),
        Area::new(Vec3::new(10, -50, 42), Vec3::new(10, 80, 99))
    );
    assert_eq!(Area::new(Vec3::new(0, 0, 0), Vec3::new(0, 0, 0)).volume(), 1);
    assert_eq!(
        Area::new(Vec3::new(1, -3000, 800), Vec3::new(4000, 999, 4799)).volume(),
        4000u64.pow(3)
    );
}

fn iter_area(a: Area) {
    let mut iter = a.iter();
    for z in a.min.z..=a.max.z {
        for y in a.min.y..=a.max.y {
            for x in a.min.x..=a.max.x {
                assert_eq!(iter.next(), Some(Vec3::new(x, y, z)))
            }
        }
    }
    assert_eq!(iter.next(), None);
    assert_eq!(iter.next(), None);
}

#[test]
fn test_area_iteration() {
    iter_area(Area::new(Vec3::new(-1, -1, -1), Vec3::new(-1, -1, -1)));
    iter_area(Area::new(Vec3::new(10, -99, 11), Vec3::new(10, -99, 12)));
    iter_area(Area::new(Vec3::new(0, -1, -2), Vec3::new(5, 7, 11)));
}

#[test]
fn area_iteration_at_the_edge_of_i32() {
    iter_area(Area::new(
        Vec3::new(i32::MAX - 1, i32::MAX, i32::MAX - 1),
        Vec3::new(i32::MAX, i32::MAX, i32::MAX),
    ));
}

#[test]
fn test_area_containment() {
    let area = Area::new(Vec3::new(-1, -32, 16), Vec3::new(30, -17, 54));

    assert_eq!(area.contains(Vec3::new(0, -32, 32)), true);
    assert_eq!(area.contains(Vec3::new(30, -32, 54)), true);
    assert_eq!(area.contains(Vec3::new(30, -17, 55)), false);
    assert_eq!(area.contains(Vec3::new(-2, -30, 16)), false);

    let contained = Area::new(Vec3::new(0, -2, 1), Vec3::new(0, -2, 2));
    let touching = Area::new(Vec3::new(-1, -2, 1), Vec3::new(1, -2, 3));

    assert_eq!(area.to_contained_block_area(), Some(contained));
    assert_eq!(area.to_touching_block_area(), touching);

    let around = Area::new(touching.min - 2, touching.max + 2);
    let mut iter = around.iter();
    let mut seen = 0;
    while let Some(pos) = iter.next() {
        assert_eq!(area.touches_block(pos), touching.contains(pos));
        assert_eq!(area.contains_block(pos), contained.contains(pos));
        // A block that lies within the area touches it.
        assert!(!area.contains_block(pos) || area.touches_block(pos));
        seen += 1;
    }
    assert_eq!(seen, around.volume());

    assert_eq!(
        Area::new(Vec3::new(16, 0, 1), Vec3::new(31, 15, 15)).to_contained_block_area(),
        None
    );
}

#[test]
fn test_area_block_overlap() {
    let area = Area::new(Vec3::new(-3, -3, -3), Vec3::new(15, 15, 15));
    let pairs = [
        (
            Vec3::new(-1, -1, -1),
            Some(Area::new(Vec3::new(-3, -3, -3), Vec3::new(-1, -1, -1))),
        ),
        (Vec3::new(0, 0, 0), Some(Area::new(Vec3::new(0, 0, 0), Vec3::new(15, 15, 15)))),
        (Vec3::new(1, 1, 1), None),
        (
            Vec3::new(-1, 0, 0),
            Some(Area::new(Vec3::new(-3, 0, 0), Vec3::new(-1, 15, 15))),
        ),
    ];
    for pair in &pairs {
        assert_eq!(area.abs_block_overlap(pair.0), pair.1);
        assert_eq!(area.rel_block_overlap(pair.0).map(|a| a + (pair.0 * 16)), pair.1);
    }
}

#[test]
fn block_overlap_far_out_does_not_overflow() {
    let area = Area::new(Vec3::new(-3, -3, -3), Vec3::new(15, 15, 15));
    let far = Vec3::new(i32::MAX, i32::MIN, i32::MAX);
    assert_eq!(area.abs_block_overlap(far), None);
    assert_eq!(area.rel_block_overlap(far), None);
    assert_eq!(area.contains_block(far), false);
    assert_eq!(area.touches_block(far), false);
}

#[test]
fn vector_and_area_arithmetic() {
    assert_eq!(Vec3::new(1, 2, 3) + Vec3::new(10, 20, 30), Vec3::new(11, 22, 33));
    assert_eq!(Vec3::new(1, 2, 3) - Vec3::new(10, 20, 30), Vec3::new(-9, -18, -27));
    assert_eq!(Vec3::new(1, 2, 3) * Vec3::new(2, 3, 4), Vec3::new(2, 6, 12));
    assert_eq!(Vec3::new(1, 2, 3) + 5, Vec3::new(6, 7, 8));
    assert_eq!(Vec3::new(1, 2, 3) - 5, Vec3::new(-4, -3, -2));
    assert_eq!(Vec3::new(1, 2, 3) * 16, Vec3::new(16, 32, 48));
    let a = Area::new(Vec3::new(0, 0, 0), Vec3::new(1, 1, 1));
    assert_eq!(a + Vec3::new(16, 0, -1), Area::new(Vec3::new(16, 0, -1), Vec3::new(17, 1, 0)));
    assert_eq!(a - Vec3::new(16, 0, -1), Area::new(Vec3::new(-16, 0, 1), Vec3::new(-15, 1, 2)));
}

fn check_inverse(area: Area) {
    let mut iter = InverseBlockIterator::new(area);
    let whole = Area::new(Vec3::new(0, 0, 0), Vec3::new(15, 15, 15));
    let mut positions = whole.iter();
    while let Some(pos) = positions.next() {
        if !area.contains(pos) {
            let idx = (pos.x + pos.y * 16 + pos.z * 256) as usize;
            assert_eq!(iter.next(), Some(idx));
        }
    }
    assert_eq!(iter.next(), None)
}

#[test]
fn test_inverse_block_iterator() {
    let dim_pairs = [
        (1, 14), // Touching neither end
        (1, 2),
        (9, 9),
        (1, 15), // Touching max end
        (11, 15),
        (15, 15),
        (0, 0), // Touching min end
        (0, 1),
        (0, 14),
        (0, 15), // End-to-end
    ];

    for z_dims in &dim_pairs {
        for y_dims in &dim_pairs {
            for x_dims in &dim_pairs {
                let area = Area::new(
                    Vec3::new(x_dims.0, y_dims.0, z_dims.0),
                    Vec3::new(x_dims.1, y_dims.1, z_dims.1),
                );
                check_inverse(area);
            }
        }
    }
}
