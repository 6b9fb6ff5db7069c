use geonext::border::BorderMesh;
use geonext::error::MapError;
use geonext::height_map::HeightMap;
use geonext::hex::{HexCoord, LatticePoint};
use geonext::territories::{CountryId, Territories};

fn flat_map(width: u8, height: u8) -> HeightMap {
    let mut bytes = vec![width, 0, height, 0, 1, 0];
    bytes.extend(std::iter::repeat(7).take(width as usize * height as usize));
    let mut m = HeightMap::default();
    m.load(bytes).unwrap();
    m
}

fn territories(width: u32, cells: Vec<u8>) -> Territories {
    Territories::new(width, cells.into_iter().map(CountryId).collect(), vec!["A".to_string()]).unwrap()
}

#[test]
fn single_hex_country_gives_one_closed_loop() {
    let t = territories(3, vec![254, 254, 254, 254, 0, 254, 254, 254, 254]);
    let mesh = BorderMesh::map_gen(&t, &flat_map(3, 3)).unwrap();
    assert_eq!(mesh.steps.len(), 6);
    assert_eq!(mesh.indices.len(), 5 * 12 + 6);
    assert_eq!(&mesh.indices[60..], &[0, 1, 22, 22, 1, 23]);
    assert_eq!(mesh.visited, vec![false, false, false, false, true, false, false, false, false]);
    // The walk goes once around the hex: each edge starts where the last ended.
    let hex = HexCoord::from_offset(1, 1);
    assert_eq!(mesh.steps[0].middle_corner, hex.corner(HexCoord::top_left()));
    for i in 0..6 {
        let next = &mesh.steps[(i + 1) % 6];
        assert_eq!(mesh.steps[i].end_corner, next.middle_corner);
        assert_eq!(mesh.steps[i].middle_corner, next.start_corner);
        assert_eq!(mesh.steps[i].country, CountryId(0));
        assert_eq!(mesh.steps[i].middle_elevation, 7);
    }
}

#[test]
fn two_hex_country_loop() {
    let t = territories(2, vec![0, 0]);
    let mesh = BorderMesh::map_gen(&t, &flat_map(2, 1)).unwrap();
    assert_eq!(mesh.steps.len(), 10);
    assert_eq!(mesh.indices.len(), 9 * 12 + 6);
    assert_eq!(mesh.visited, vec![true, false]);
    assert_eq!(mesh.steps[2].middle_corner, LatticePoint { x: 1, y: -1 });
    assert_eq!(mesh.steps[3].middle_corner, LatticePoint { x: 2, y: -2 });
}

#[test]
fn sea_only_and_mismatch() {
    let t = territories(2, vec![254, 254, 254, 254]);
    let mesh = BorderMesh::map_gen(&t, &flat_map(2, 2)).unwrap();
    assert!(mesh.steps.is_empty());
    assert!(mesh.indices.is_empty());
    assert_eq!(BorderMesh::map_gen(&t, &flat_map(2, 1)).unwrap_err(), MapError::ShapeMismatch);
    let mut no_planes = HeightMap::default();
    no_planes.load(vec![2, 0, 2, 0, 0, 0]).unwrap();
    assert_eq!(BorderMesh::map_gen(&t, &no_planes).unwrap_err(), MapError::OutOfBounds);
}

#[test]
fn two_countries_each_traced() {
    let t = territories(2, vec![0, 1]);
    let mesh = BorderMesh::map_gen(&t, &flat_map(2, 1)).unwrap();
    assert_eq!(mesh.steps.len(), 12);
    assert_eq!(mesh.indices.len(), 2 * (5 * 12 + 6));
    assert_eq!(mesh.steps[6].country, CountryId(1));
    assert_eq!(mesh.visited, vec![true, true]);
    // The second ribbon's vertices follow the first's.
    assert_eq!(&mesh.indices[126..], &[24, 25, 46, 46, 25, 47]);
}
