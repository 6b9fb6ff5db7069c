use geonext::error::MapError;
use geonext::territories::{CountryId, Rgb, Territories, TerritoriesRLE};

fn names() -> Vec<String> {
    vec!["Alba".to_string(), "Brit".to_string()]
}

fn grid(width: u32, cells: Vec<u8>) -> Territories {
    Territories::new(width, cells.into_iter().map(CountryId).collect(), names()).unwrap()
}

fn round_trips(t: &Territories) {
    let rle = t.to_rle().unwrap();
    let back = Territories::from_rle(&rle).unwrap();
    assert_eq!(&back, t);
}

#[test]
fn rle_round_trip_one_country() {
    let t = grid(64, vec![3; 64 * 64]);
    let rle = t.to_rle().unwrap();
    assert_eq!(rle.hexes(), &[(4096u16, CountryId(3))][..]);
    round_trips(&t);
}

#[test]
fn rle_round_trip_checkerboard() {
    let mut cells = Vec::new();
    for y in 0..64u32 {
        for x in 0..64u32 {
            cells.push(((x + y) % 2) as u8);
        }
    }
    let t = grid(64, cells);
    assert_eq!(t.to_rle().unwrap().hexes().len(), 64 * 64 - 63);
    round_trips(&t);
}

#[test]
fn rle_round_trip_random() {
    let mut state: u32 = 12345;
    let mut cells = Vec::new();
    for _ in 0..64 * 48 {
        state ^= state << 13;
        state ^= state >> 17;
        state ^= state << 5;
        cells.push(if state % 3 == 0 { 254 } else { (state % 5) as u8 });
    }
    round_trips(&grid(64, cells));
    round_trips(&Territories::default());
}

#[test]
fn rle_runs_cross_rows() {
    let t = grid(2, vec![1, 1, 1, 2, 2, 254]);
    let rle = t.to_rle().unwrap();
    assert_eq!(rle.width(), 2);
    assert_eq!(rle.hexes(), &[(3u16, CountryId(1)), (2, CountryId(2)), (1, CountryId(254))][..]);
    assert_eq!(rle.country_names(), &names());
}

#[test]
fn rle_overflow_is_an_error() {
    let t = grid(1, vec![7; 65536]);
    assert_eq!(t.to_rle().unwrap_err(), MapError::RleOverflow);
    let t = grid(1, vec![7; 65535]);
    assert_eq!(t.to_rle().unwrap().hexes(), &[(65535u16, CountryId(7))][..]);
}

#[test]
fn from_rle_checks_shape() {
    let rle = TerritoriesRLE::new(3, vec![(2, CountryId(1)), (2, CountryId(2))], names());
    assert_eq!(Territories::from_rle(&rle).unwrap_err(), MapError::ShapeMismatch);
    let rle = TerritoriesRLE::new(0, vec![(1, CountryId(1))], names());
    assert_eq!(Territories::from_rle(&rle).unwrap_err(), MapError::ShapeMismatch);
    let rle = TerritoriesRLE::new(1, vec![(65535, CountryId(1)); 65538], names());
    assert_eq!(Territories::from_rle(&rle).unwrap_err(), MapError::TooLarge);
    let rle = TerritoriesRLE::new(2, vec![(3, CountryId(1)), (0, CountryId(9)), (1, CountryId(2))], names());
    let t = Territories::from_rle(&rle).unwrap();
    assert_eq!(t.hexes(), &[CountryId(1), CountryId(1), CountryId(1), CountryId(2)][..]);
    assert_eq!(t.height(), 2);
}

#[test]
fn new_checks_shape() {
    assert_eq!(Territories::new(3, vec![CountryId(0); 4], vec![]).unwrap_err(), MapError::ShapeMismatch);
    assert_eq!(Territories::new(0, vec![CountryId(0)], vec![]).unwrap_err(), MapError::ShapeMismatch);
    assert!(Territories::new(0, vec![], vec![]).is_ok());
}

#[test]
fn lookups() {
    let t = grid(3, vec![0, 1, 2, 254, 254, 1]);
    assert_eq!(t.width(), 3);
    assert_eq!(t.height(), 2);
    assert_eq!(t.country_id((1, 0)), Some(CountryId(1)));
    assert_eq!(t.country_id((2, 1)), Some(CountryId(1)));
    assert_eq!(t.country_id((0, 1)), Some(CountryId::sea()));
    assert_eq!(t.country_id((3, 0)), None);
    assert_eq!(t.country_id((0, 2)), None);
    assert_eq!(t.get_name(CountryId(0)), "Alba");
    assert_eq!(t.get_name(CountryId(1)), "Brit");
    assert_eq!(t.get_name(CountryId(2)), "Water");
    assert_eq!(t.get_name(CountryId::sea()), "Water");
    assert_eq!(Territories::default().height(), 0);
}

#[test]
fn colours_cycle() {
    assert_eq!(CountryId(0).colours(), [Rgb { r: 128, g: 0, b: 0 }, Rgb { r: 0, g: 0, b: 255 }]);
    assert_eq!(CountryId(13).colours()[0], Rgb { r: 255, g: 127, b: 80 });
    assert_eq!(CountryId(11).colours()[0], Rgb { r: 255, g: 0, b: 255 });
}

#[test]
fn canonical_runs_survive_expansion() {
    let runs = vec![(2u16, CountryId(1)), (3, CountryId(2)), (1, CountryId(1))];
    let rle = TerritoriesRLE::new(2, runs.clone(), names());
    let t = Territories::from_rle(&rle).unwrap();
    assert_eq!(t.to_rle().unwrap().hexes(), &runs[..]);
    let merged = TerritoriesRLE::new(2, vec![(1, CountryId(1)), (1, CountryId(1))], names());
    let t = Territories::from_rle(&merged).unwrap();
    assert_eq!(t.to_rle().unwrap().hexes(), &[(2u16, CountryId(1))][..]);
}

#[test]
fn load_territories() {
    let mut cells = Vec::new();
    for y in 0..40u32 {
        for x in 0..60u32 {
            cells.push(if (x + 2 * y) % 7 < 3 { 254 } else { ((x / 10 + y / 8) % 6) as u8 });
        }
    }
    let x = grid(60, cells);
    let rle = x.to_rle().unwrap();
    let y = Territories::from_rle(&rle).unwrap();
    assert_eq!(x, y);
    println!("{:?}", x.width());
}
