use tilebound::hex::{get_neighbors, hex_distance, neighbor_index, HexCoord};

#[test]
fn coord_constructors_agree() {
    let a = HexCoord::new(3, -4);
    let b = HexCoord::new_from_tupple((3, -4));
    assert_eq!(a, b);
    assert_eq!(a.to_tupple(), (3, -4));
}

#[test]
fn distance_to_self_is_zero() {
    for c in [HexCoord::new(0, 0), HexCoord::new(5, -3), HexCoord::new(-7, 11)] {
        assert_eq!(hex_distance(&c, &c), 0);
    }
}

#[test]
fn distance_is_symmetric() {
    let pairs = [
        (HexCoord::new(0, 0), HexCoord::new(3, 2)),
        (HexCoord::new(-2, 5), HexCoord::new(4, -1)),
        (HexCoord::new(1, -3), HexCoord::new(-6, 2)),
    ];
    for (a, b) in pairs {
        assert_eq!(hex_distance(&a, &b), hex_distance(&b, &a));
    }
}

#[test]
fn distance_exact_values() {
    assert_eq!(hex_distance(&HexCoord::new(0, 0), &HexCoord::new(3, 2)), 4);
    assert_eq!(hex_distance(&HexCoord::new(0, 0), &HexCoord::new(5, 0)), 5);
    assert_eq!(hex_distance(&HexCoord::new(0, 0), &HexCoord::new(0, 4)), 4);
    assert_eq!(hex_distance(&HexCoord::new(0, 0), &HexCoord::new(-1, 1)), 1);
    assert_eq!(hex_distance(&HexCoord::new(0, -1), &HexCoord::new(0, 1)), 2);
}

#[test]
fn neighbors_are_six_distinct_at_distance_one() {
    for c in [HexCoord::new(0, 0), HexCoord::new(2, 3), HexCoord::new(-3, -1), HexCoord::new(4, -6)] {
        let ns = get_neighbors(&c);
        assert_eq!(ns.len(), 6);
        for i in 0..6 {
            assert_eq!(hex_distance(&c, &ns[i]), 1);
            for j in 0..6 {
                if i != j {
                    assert_ne!(ns[i], ns[j]);
                }
            }
        }
    }
}

#[test]
fn neighbor_tables_depend_on_row_parity() {
    let even = get_neighbors(&HexCoord::new(2, 2));
    assert_eq!(
        even,
        vec![
            HexCoord::new(3, 2),
            HexCoord::new(2, 3),
            HexCoord::new(1, 3),
            HexCoord::new(1, 2),
            HexCoord::new(1, 1),
            HexCoord::new(2, 1),
        ]
    );
    let odd = get_neighbors(&HexCoord::new(2, 3));
    assert_eq!(
        odd,
        vec![
            HexCoord::new(3, 3),
            HexCoord::new(3, 4),
            HexCoord::new(2, 4),
            HexCoord::new(1, 3),
            HexCoord::new(2, 2),
            HexCoord::new(3, 2),
        ]
    );
}

#[test]
fn neighbor_index_finds_table_position() {
    let c = HexCoord::new(2, 3);
    let ns = get_neighbors(&c);
    for k in 0..6 {
        assert_eq!(neighbor_index(&c, &ns[k]), Some(k));
    }
    assert_eq!(neighbor_index(&c, &HexCoord::new(4, 3)), None);
    assert_eq!(neighbor_index(&c, &c), None);
}
