use textgraph::{Dir, ToDirection};

#[test]
fn arrow_keys_are_directions() {
    assert!(Some(123u32).to_direction() == Some(Dir::West));
    assert!(Some(124u32).to_direction() == Some(Dir::East));
    assert!(Some(125u32).to_direction() == Some(Dir::South));
    assert!(Some(126u32).to_direction() == Some(Dir::North));
}

#[test]
fn other_keys_are_none() {
    assert!(Some(0u32).to_direction().is_none());
    assert!(Some(122u32).to_direction().is_none());
    assert!(Some(127u32).to_direction().is_none());
    assert!(None::<u32>.to_direction().is_none());
    assert_eq!(None::<u32>.as_scancode(), 0);
    assert_eq!(Some(77u32).as_scancode(), 77);
}
