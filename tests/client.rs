use geonext::error::ErrorKind;
use geonext::events::{InputSystem, MouseButton};
use geonext::layout::Axis;
use geonext::territories::{CountryId, Territories, TerritoriesRLE};
use geonext::world::WorldMap;

#[test]
fn mouse_buttons() {
    assert_eq!(MouseButton::Primary.to_bit(), 1);
    assert_eq!(MouseButton::Secondary.to_bit(), 2);
    assert_eq!(MouseButton::Auxiliary.to_bit(), 4);
    assert_eq!(MouseButton::from_num(0), MouseButton::Primary);
    assert_eq!(MouseButton::from_num(1), MouseButton::Auxiliary);
    assert_eq!(MouseButton::from_num(2), MouseButton::Secondary);
}

#[test]
fn input_tracks_pointer() {
    let mut input = InputSystem::default();
    assert_eq!(input.update_mouse(10, 5, 5), (10, 5));
    assert_eq!(input.update_mouse(7, 9, 5), (-3, 4));
    assert!(input.mouse_down(MouseButton::Primary));
    assert!(!input.mouse_down(MouseButton::Secondary));
    assert!(input.mouse_down(MouseButton::Auxiliary));
}

#[test]
fn axis_cross() {
    assert_eq!(Axis::Horizontal.cross(), Axis::Vertical);
    assert_eq!(Axis::Vertical.cross(), Axis::Horizontal);
}

#[test]
fn world_map_hover_and_update() {
    let mut world = WorldMap::default();
    assert_eq!(world.hovered_name(), "Water");
    assert_eq!(world.hovered_country(), None);
    let rle = TerritoriesRLE::new(2, vec![(1, CountryId(1)), (3, CountryId(0))], vec!["Ash".to_string(), "Birch".to_string()]);
    world.apply_rle(&rle).unwrap();
    assert!(world.updated);
    assert_eq!(world.hovered_country(), Some(CountryId(1)));
    assert_eq!(world.hovered_name(), "Birch");
    world.hovered = (1, 1);
    assert_eq!(world.hovered_name(), "Ash");
    world.hovered = (2, 1);
    assert_eq!(world.hovered_name(), "Water");
    let bad = TerritoriesRLE::new(3, vec![(1, CountryId(1))], vec![]);
    assert!(world.apply_rle(&bad).is_err());
    assert_eq!(world.borders.width(), 2);
    assert!(world.load(vec![1, 0, 1, 0, 1, 0, 3]).is_ok());
    assert_eq!(world.height_map.width(), 1);
    assert_eq!(Territories::default(), Territories::default());
}

#[test]
fn renderer_error_messages() {
    assert_eq!(ErrorKind::ShaderCompileError("bad shader".to_string()).message(), "bad shader");
    assert_eq!(ErrorKind::IndexArray("no buffer".to_string()).message(), "no buffer");
}
