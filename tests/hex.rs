use geonext::hex::{HexCoord, LatticePoint};

#[test]
fn rotate() {
    assert_eq!(HexCoord::top_left().rotate_clockwise(), HexCoord::top_right());
    assert_eq!(HexCoord::top_right().rotate_clockwise(), HexCoord::right());
    assert_eq!(HexCoord::right().rotate_clockwise(), HexCoord::bottom_right());
    assert_eq!(HexCoord::bottom_right().rotate_clockwise(), HexCoord::bottom_left());
    assert_eq!(HexCoord::bottom_left().rotate_clockwise(), HexCoord::left());
    assert_eq!(HexCoord::left().rotate_clockwise(), HexCoord::top_left());

    assert_eq!(HexCoord::top_left().rotate_anticlockwise(), HexCoord::left());
    assert_eq!(HexCoord::top_right().rotate_anticlockwise(), HexCoord::top_left());
    assert_eq!(HexCoord::right().rotate_anticlockwise(), HexCoord::top_right());
    assert_eq!(HexCoord::bottom_right().rotate_anticlockwise(), HexCoord::right());
    assert_eq!(HexCoord::bottom_left().rotate_anticlockwise(), HexCoord::bottom_right());
    assert_eq!(HexCoord::left().rotate_anticlockwise(), HexCoord::bottom_left());
}

fn units() -> Vec<HexCoord> {
    vec![
        HexCoord::top_left(),
        HexCoord::top_right(),
        HexCoord::right(),
        HexCoord::bottom_right(),
        HexCoord::bottom_left(),
        HexCoord::left(),
    ]
}

#[test]
fn six_clockwise_turns_are_identity() {
    for d in units() {
        let mut r = d;
        for _ in 0..6 {
            r = r.rotate_clockwise();
        }
        assert_eq!(r, d);
        assert_eq!(d.rotate_clockwise().rotate_anticlockwise(), d);
        assert_eq!(d.rotate_anticlockwise().rotate_clockwise(), d);
        assert!(d.is_unit());
    }
    assert!(!HexCoord::new(1, 1).is_unit());
    assert!(!HexCoord::new(0, 0).is_unit());
}

#[test]
fn offset_round_trip_on_64_by_64() {
    for y in 0..64 {
        for x in 0..64 {
            assert_eq!(HexCoord::from_offset(x, y).to_offset(), (x, y));
        }
    }
}

#[test]
fn offset_formulas() {
    assert_eq!(HexCoord::from_offset(0, -1), HexCoord::new(0, -1));
    assert_eq!(HexCoord::from_offset(0, -1).to_offset(), (0, -1));
    assert_eq!(HexCoord::from_offset(3, 0), HexCoord::new(3, 0));
    assert_eq!(HexCoord::from_offset(3, 1), HexCoord::new(2, 1));
    assert_eq!(HexCoord::from_offset(3, 2), HexCoord::new(2, 2));
    assert_eq!(HexCoord::from_offset(3, 3), HexCoord::new(1, 3));
    assert_eq!(HexCoord::from_offset(0, -3), HexCoord::new(1, -3));
    assert_eq!(HexCoord::new(1, 3).to_offset(), (3, 3));
}

#[test]
fn cubic_and_add() {
    assert_eq!(HexCoord::new(2, -5).to_cubic(), (2, -5, 3));
    assert_eq!(HexCoord::new(2, -5).add(HexCoord::right()), HexCoord::new(3, -5));
}

#[test]
fn centre_and_corners() {
    let h = HexCoord::new(1, 2);
    assert_eq!(h.centre(), LatticePoint { x: 4, y: 6 });
    assert_eq!(h.corner(HexCoord::top_left()), LatticePoint { x: 3, y: 5 });
    assert_eq!(h.corner(HexCoord::top_right()), LatticePoint { x: 4, y: 4 });
    assert_eq!(h.corner(HexCoord::right()), LatticePoint { x: 5, y: 5 });
    assert_eq!(h.corner(HexCoord::bottom_right()), LatticePoint { x: 5, y: 7 });
    assert_eq!(h.corner(HexCoord::bottom_left()), LatticePoint { x: 4, y: 8 });
    assert_eq!(h.corner(HexCoord::left()), LatticePoint { x: 3, y: 7 });
    let c = h.world_space();
    assert_eq!(c.top, LatticePoint { x: 4, y: 4 });
    assert_eq!(c.top_left, LatticePoint { x: 3, y: 5 });
    assert_eq!(c.top_right, LatticePoint { x: 5, y: 5 });
    assert_eq!(c.bottom_right, LatticePoint { x: 5, y: 7 });
    assert_eq!(c.bottom, LatticePoint { x: 4, y: 8 });
    assert_eq!(c.bottom_left, LatticePoint { x: 3, y: 7 });
}

#[test]
fn hex_coords() {
    let (offset_x, offset_y) = (0, -1);
    let hex = HexCoord::from_offset(offset_x, offset_y);
    assert_eq!(hex.to_offset(), (offset_x, offset_y));
    // The centre from the offset directly: rows staggered by half a hex.
    let (x, y) = hex.to_offset();
    let centre_with_offset = LatticePoint { x: (x * 2 + 1 - (y & 1)) as i64 - 1, y: 3 * y as i64 };
    assert_eq!(centre_with_offset, hex.centre());
}
