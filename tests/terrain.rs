use geonext::error::MapError;
use geonext::height_map::{Channel, HeightMap};
use geonext::hex::LatticePoint;

fn loaded(bytes: Vec<u8>) -> HeightMap {
    let mut m = HeightMap::default();
    m.load(bytes).unwrap();
    m
}

#[test]
fn header_decode_scenario() {
    let m = loaded(vec![2, 0, 1, 0, 2, 0, 10, 20, 30, 40]);
    assert_eq!((m.width(), m.height(), m.channels()), (2, 1, 2));
    assert_eq!(m.sample_at(Channel::veg(), (0, 0)), Some(30));
    assert_eq!(m.sample_at(Channel::topo(), (0, 0)), Some(10));
    assert_eq!(m.sample_at(Channel::topo(), (1, 0)), Some(20));
    assert_eq!(m.sample_at(Channel::veg(), (1, 0)), Some(40));
}

#[test]
fn load_rejects_short_buffers() {
    let mut m = HeightMap::default();
    assert_eq!(m.load(vec![2, 0, 1, 0, 2]), Err(MapError::Decode));
    assert_eq!(m.load(vec![2, 0, 1, 0, 2, 0, 1, 2, 3]), Err(MapError::Decode));
    assert_eq!(m.width(), 0);
    assert_eq!(m.load(vec![0, 1, 0, 1, 0, 0]), Ok(()));
    assert_eq!((m.width(), m.height(), m.channels()), (256, 256, 0));
}

#[test]
fn samples_are_column_major_and_checked() {
    // 2 wide, 3 high, one channel: column 0 holds 1, 2, 3 and column 1 holds 4, 5, 6.
    let m = loaded(vec![2, 0, 3, 0, 1, 0, 1, 2, 3, 4, 5, 6]);
    assert_eq!(m.sample_at(Channel::topo(), (0, 2)), Some(3));
    assert_eq!(m.sample_at(Channel::topo(), (1, 0)), Some(4));
    assert_eq!(m.sample_at(Channel::topo(), (2, 0)), None);
    assert_eq!(m.sample_at(Channel::topo(), (0, 3)), None);
    assert_eq!(m.sample_at(Channel::veg(), (0, 0)), None);
    assert!(m.in_bounds((1, 2)));
    assert!(!m.in_bounds((2, 2)));
    assert!(!m.in_bounds((-1, 0)));
}

#[test]
fn neighbour_samples() {
    let m = loaded(vec![2, 0, 3, 0, 1, 0, 1, 2, 3, 4, 5, 6]);
    let topo = Channel::topo();
    assert_eq!(m.sample_left(topo, (1, 1)), Some((2, (0, 1))));
    assert_eq!(m.sample_left(topo, (0, 1)), None);
    // Odd row: up-left is one column to the left, up-right the same column.
    assert_eq!(m.sample_up_left(topo, (1, 1)), Some((1, (0, 0))));
    assert_eq!(m.sample_up_right(topo, (1, 1)), Some((4, (1, 0))));
    assert_eq!(m.sample_up_left(topo, (0, 1)), None);
    // Even row: up-left is the same column, up-right one column to the right.
    assert_eq!(m.sample_up_left(topo, (0, 2)), Some((2, (0, 1))));
    assert_eq!(m.sample_up_right(topo, (0, 2)), Some((5, (1, 1))));
    assert_eq!(m.sample_up_right(topo, (1, 2)), None);
    assert_eq!(m.sample_up_left(topo, (0, 0)), None);
}

#[test]
fn xorshift_values() {
    assert_eq!(HeightMap::xor_rand(1), 270369);
    assert_eq!(HeightMap::xor_rand(0), 0);
}

#[test]
fn seam_between_cells_of_different_height() {
    let m = loaded(vec![2, 0, 1, 0, 1, 0, 0, 200]);
    let mesh = m.generate_terrain().unwrap();
    assert_eq!(mesh.vertices.len(), 12);
    assert_eq!(mesh.indices.len(), 30);
    assert_eq!(&mesh.indices[24..], &[9, 7, 4, 4, 7, 2]);
    assert_eq!(mesh.vertices[0].elevation, 0);
    assert_eq!(mesh.vertices[6].elevation, 200);
    assert_eq!(mesh.vertices[6].position, LatticePoint { x: 2, y: -2 });

    let flat = loaded(vec![2, 0, 1, 0, 1, 0, 5, 5]).generate_terrain().unwrap();
    assert_eq!(flat.indices.len(), 24);
    assert_eq!(
        &flat.indices[..12],
        &[0, 1, 2, 2, 1, 4, 4, 1, 3, 3, 5, 4]
    );
}

#[test]
fn seams_to_upper_rows() {
    // 2 by 2: elevations (0,0)=1 (0,1)=9 (1,0)=1 (1,1)=1.
    let m = loaded(vec![2, 0, 2, 0, 1, 0, 1, 9, 1, 1]);
    let mesh = m.generate_terrain().unwrap();
    assert_eq!(mesh.vertices.len(), 24);
    // Cell (0,1): up-right neighbour (0,0) differs; cell (1,1): left neighbour differs.
    assert_eq!(mesh.indices.len(), 4 * 12 + 6 + 6);
    assert_eq!(&mesh.indices[36..42], &[12, 14, 3, 3, 14, 5]);
    assert_eq!(&mesh.indices[54..60], &[21, 19, 16, 16, 19, 14]);
}

#[test]
fn terrain_errors() {
    assert_eq!(HeightMap::default().generate_terrain().unwrap_err(), MapError::Decode);
    let m = loaded(vec![2, 0, 1, 0, 0, 0]);
    assert_eq!(m.generate_terrain().unwrap_err(), MapError::OutOfBounds);
}
