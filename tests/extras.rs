use geonext::assets::Assets;
use geonext::error::MapError;
use geonext::height_map::{Channel, HeightMap};
use geonext::hot_reload::{add_hot_reload_javascript, HOT_RELOAD_SCRIPT};
use geonext::world::WorldMap;

#[test]
fn extended_map_names_are_read_in_place() {
    let bytes = vec![2, 0, 1, 0, 1, 0, 2, 3, b'a', b'b', b'c', 1, b'z', 10, 20];
    let mut m = HeightMap::default();
    let names = m.load_named(bytes.clone()).unwrap();
    assert_eq!(names, vec![(8, 11), (12, 13)]);
    assert_eq!(m.sample_at(Channel::topo(), (0, 0)), Some(10));
    assert_eq!(m.sample_at(Channel::topo(), (1, 0)), Some(20));
    assert_eq!(m.bytes((8, 11)), Some(&b"abc"[..]));
    assert_eq!(m.bytes((12, 16)), None);

    let mut world = WorldMap::default();
    world.load_named(bytes).unwrap();
    assert_eq!(world.map_name(0), Some(&b"abc"[..]));
    assert_eq!(world.map_name(1), Some(&b"z"[..]));
    assert_eq!(world.map_name(2), None);
}

#[test]
fn extended_map_errors() {
    let mut m = HeightMap::default();
    assert_eq!(m.load_named(vec![1, 0, 1, 0, 1, 0, 1, 5, b'a']), Err(MapError::Decode));
    assert_eq!(m.load_named(vec![1, 0, 1, 0, 1, 0, 0]), Err(MapError::Decode));
    assert_eq!(m.load_named(vec![1, 0, 1, 0, 1, 0]), Err(MapError::Decode));
    assert_eq!(m.load_named(vec![1, 0, 1, 0, 1, 0, 0, 9]), Ok(vec![]));
    assert_eq!(m.sample_at(Channel::topo(), (0, 0)), Some(9));
}

#[test]
fn hot_reload_script_replaces_closing_tags() {
    let page = add_hot_reload_javascript("<html><body>hi</body></html>".to_string());
    assert_eq!(page, format!("<html><body>hi{}", HOT_RELOAD_SCRIPT));
    let page = add_hot_reload_javascript("a</body>b</body>".to_string());
    assert_eq!(page, format!("ab</body>{}", HOT_RELOAD_SCRIPT));
    let page = add_hot_reload_javascript(String::new());
    assert!(page.starts_with("<!--Inserted hotreload script-->"));
    assert!(page.ends_with("</script>"));
}

#[test]
fn assets_by_name() {
    let mut assets = Assets::new();
    assets.insert("map".to_string(), vec![1, 2]);
    assets.insert("heightmap".to_string(), vec![3]);
    assets.insert("map".to_string(), vec![4]);
    assert_eq!(assets.get("map"), &vec![4]);
    assert_eq!(assets.take("heightmap"), vec![3]);
    assert_eq!(assets.take("map"), vec![4]);
    assert_eq!(Assets::assets()[0], ("regular", "assets/RobotoSlab-Regular.ttf"));
}
