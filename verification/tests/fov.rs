use textgraph::{shadowcast, xy, Grid, VecGrid};

#[test]
fn test_fov() {
    // This will involve some setup. First we build a map:
    let str = "....+.\n\
                     ....+.\n\
                     +.+++.\n\
                     ......\n\
                     .+....\n\
                     ......";
    let map = VecGrid::from(str);
    // Now we need to turn this into a map of what's transparent:
    let transparent = map.map_grid(|_, ch| *ch == '.', false);
    // Then actually shadowcast:
    let visible = shadowcast(transparent, xy(1, 1), 20);
    // Then turn that back into a map of chars:
    let visible = visible.map_grid(|c, v| if *v { map[c] } else { '#' }, '.');
    // Now we compare that to the correct answer:
    let expected = "....+#\n\
                          ....+#\n\
                          +.+++#\n\
                          ...###\n\
                          .+.###\n\
                          .#..##";
    let actual: String = visible.to_text();
    assert_eq!(actual.as_str(), expected)
}

#[test]
fn observer_sees_own_cell_in_the_dark() {
    let walls = VecGrid::new(xy(3, 3), false);
    let seen = shadowcast(walls, xy(1, 1), 1);
    assert!(seen[xy(1, 1)]);
    assert_eq!(seen.size(), xy(3, 3));
}
