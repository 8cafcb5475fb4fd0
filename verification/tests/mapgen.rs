use rand::rngs::StdRng;
use rand::SeedableRng;
use textgraph::flood::bft;
use textgraph::nearest::{closest_between, shortest_tunnel};
use textgraph::regions::{connect_groups, Regions};
use textgraph::{xy, CellularMap, Coord, Grid, VecGrid};

/// A map of walls from text: `#` is a wall, anything else is passable.
fn walls(text: &str) -> VecGrid<bool> {
    VecGrid::from(text).map_grid(|_, ch| *ch == '#', true)
}

/// A map of walls as text again.
fn picture(map: &VecGrid<bool>) -> String {
    map.map_grid(|_, wall| if *wall { '#' } else { '.' }, ' ').to_text()
}

/// The number of orthogonally connected components of passable cells,
/// counted by flood fills that know nothing of how the map was made.
fn components(map: &VecGrid<bool>) -> usize {
    let size = map.size();
    let mut seen = vec![false; (size.0 * size.1) as usize];
    let mut count = 0;
    for y in 0..size.1 {
        for x in 0..size.0 {
            let at = (y * size.0 + x) as usize;
            if seen[at] || map[xy(x, y)] {
                continue;
            }
            count += 1;
            let mut stack = vec![(x, y)];
            seen[at] = true;
            while let Some((cx, cy)) = stack.pop() {
                for (nx, ny) in [(cx, cy - 1), (cx, cy + 1), (cx + 1, cy), (cx - 1, cy)] {
                    if nx < 0 || ny < 0 || nx >= size.0 || ny >= size.1 {
                        continue;
                    }
                    let n = (ny * size.0 + nx) as usize;
                    if !seen[n] && !map[xy(nx, ny)] {
                        seen[n] = true;
                        stack.push((nx, ny));
                    }
                }
            }
        }
    }
    count
}

#[test]
fn test_bft() {
    let grid = VecGrid::from("....\n.++.\n.+..");
    let cs = bft(&grid, xy(1, 1), |ch| *ch == '+');
    assert!(cs.contains(&xy(1, 1)));
    assert!(cs.contains(&xy(2, 1)));
    assert!(cs.contains(&xy(1, 2)));
    assert_eq!(cs.len(), 3);
}

#[test]
fn bft_visits_in_breadth_first_order() {
    let grid = VecGrid::from("+++\n+.+\n+++");
    let cs = bft(&grid, xy(0, 0), |ch| *ch == '+');
    assert_eq!(
        cs,
        vec![xy(0, 0), xy(1, 0), xy(0, 1), xy(2, 0), xy(0, 2), xy(2, 1), xy(1, 2), xy(2, 2)]
    );
}

#[test]
fn bft_from_a_cell_that_fails_the_test_is_empty() {
    let grid = VecGrid::from("+.\n.+");
    assert_eq!(bft(&grid, xy(1, 0), |ch| *ch == '+'), Vec::<Coord>::new());
}

#[test]
fn bft_does_not_step_diagonally() {
    let grid = VecGrid::from("+.\n.+");
    assert_eq!(bft(&grid, xy(0, 0), |ch| *ch == '+'), vec![xy(0, 0)]);
}

#[test]
fn closest_between_takes_the_first_of_equal_pairs() {
    let a = vec![xy(0, 0), xy(2, 0)];
    let b = vec![xy(5, 5), xy(1, 1), xy(3, 1)];
    // (0,0)-(1,1) and (2,0)-(1,1) and (2,0)-(3,1) are all 2 apart.
    assert_eq!(closest_between(&a, &b), (xy(0, 0), xy(1, 1), 2));
    assert_eq!(closest_between(&b, &a), (xy(1, 1), xy(0, 0), 2));
}

#[test]
fn closest_between_single_cells() {
    assert_eq!(closest_between(&vec![xy(-3, 4)], &vec![xy(2, -1)]), (xy(-3, 4), xy(2, -1), 10));
}

#[test]
fn shortest_tunnel_finds_the_nearest_regions() {
    let groups = vec![vec![xy(0, 0)], vec![xy(9, 9)], vec![xy(0, 3), xy(8, 9)]];
    // region 1 and region 2 are one step apart
    assert_eq!(shortest_tunnel(&groups), (1, xy(9, 9), 2, xy(8, 9)));
}

#[test]
fn shortest_tunnel_takes_the_first_of_equal_pairs() {
    let groups = vec![vec![xy(0, 0)], vec![xy(2, 0)], vec![xy(4, 0)]];
    assert_eq!(shortest_tunnel(&groups), (0, xy(0, 0), 1, xy(2, 0)));
}

#[test]
fn shortest_tunnel_with_two_regions_joins_them() {
    let groups = vec![vec![xy(1, 1), xy(2, 1)], vec![xy(4, 4)]];
    assert_eq!(shortest_tunnel(&groups), (0, xy(2, 1), 1, xy(4, 4)));
}

#[test]
fn shortest_tunnel_with_fewer_than_two_regions() {
    assert_eq!(shortest_tunnel(&vec![]), (0, xy(0, 0), 0, xy(0, 0)));
    assert_eq!(shortest_tunnel(&vec![vec![xy(3, 3)]]), (0, xy(0, 0), 0, xy(0, 0)));
}

#[test]
fn connect_groups_digs_a_straight_tunnel() {
    let map = walls("######\n#..###\n######\n######\n####.#\n######");
    let joined = connect_groups(map);
    assert_eq!(picture(&joined), "######\n#..###\n##..##\n###..#\n####.#\n######");
    // a flood fill from (1, 1) reaches (4, 4)
    let reached = bft(&joined, xy(1, 1), |wall| !*wall);
    assert!(reached.contains(&xy(4, 4)));
    assert!(reached.contains(&xy(2, 1)));
    assert_eq!(components(&joined), 1);
}

#[test]
fn connect_groups_keeps_a_connected_map() {
    let text = "#####\n#...#\n#.#.#\n#...#\n#####";
    assert_eq!(picture(&connect_groups(walls(text))), text);
}

#[test]
fn connect_groups_on_solid_rock_changes_nothing() {
    let text = "###\n###\n###";
    let joined = connect_groups(walls(text));
    assert_eq!(picture(&joined), text);
    assert_eq!(components(&joined), 0);
}

#[test]
fn connect_groups_on_an_empty_map() {
    let joined = connect_groups(VecGrid::new(xy(0, 0), true));
    assert_eq!(joined.size(), xy(0, 0));
    assert_eq!(joined.get(xy(0, 0)), None);
}

#[test]
fn connect_groups_joins_many_regions() {
    let joined = connect_groups(walls(".#.#.\n#####\n.#.#.\n#####\n.#.#."));
    assert_eq!(components(&joined), 1);
    // what was passable stays passable
    for at in [xy(0, 0), xy(2, 0), xy(4, 0), xy(0, 2), xy(2, 2), xy(4, 2), xy(0, 4), xy(4, 4)] {
        assert!(!joined[at]);
    }
}

#[test]
fn connected_map_reads_false_outside() {
    let joined = connect_groups(walls(".#.\n###"));
    assert!(!joined.default());
}

#[test]
fn partition_numbers_regions_in_reading_order() {
    let regions = Regions::partition(&walls("..#.\n###.\n.#.."));
    assert_eq!(regions.len(), 3);
}

#[test]
fn each_merge_leaves_one_region_fewer() {
    let mut regions = Regions::partition(&walls(".#.#.\n#####\n.#.#.\n#####\n.#.#."));
    let mut count = regions.len();
    assert_eq!(count, 9);
    let mut merges = 0;
    while regions.len() > 1 {
        regions.merge_closest();
        assert_eq!(regions.len(), count - 1);
        count -= 1;
        merges += 1;
    }
    assert_eq!(merges, 8);
    assert_eq!(components(&regions.into_walls()), 1);
}

#[test]
fn connect_leaves_one_region() {
    let mut regions = Regions::partition(&walls(".#.\n###\n.#."));
    regions.connect();
    assert_eq!(regions.len(), 1);
    let mut none = Regions::partition(&walls("##\n##"));
    none.connect();
    assert_eq!(none.len(), 0);
}

#[test]
fn into_walls_marks_what_no_region_holds() {
    let text = ".#.\n###\n.#.";
    assert_eq!(picture(&Regions::partition(&walls(text)).into_walls()), text);
}

#[test]
fn a_lone_wall_dies_and_its_neighbors_are_born() {
    let noise = VecGrid::from("...\n.#.\n...").map_grid(|_, ch| *ch == '#', false);
    let map = CellularMap::new(xy(3, 3))
        .with_born(1..2)
        .with_generations(1)
        .with_connect(false)
        .build_from(noise);
    assert_eq!(picture(&map), "###\n#.#\n###");
}

#[test]
fn cells_outside_count_by_the_default() {
    // With walls all around, the empty middle of a 3x3 room has 8 walls
    // about it and is born; every wall has at least 4 and survives.
    let noise = VecGrid::from("###\n#.#\n###").map_grid(|_, ch| *ch == '#', true);
    let map = CellularMap::new(xy(3, 3)).with_generations(1).with_connect(false).build_from(noise);
    assert_eq!(picture(&map), "###\n###\n###");
    // With nothing outside, a corner has only 2 walls about it and dies,
    // while the middle of a side has 4 and survives.
    let noise = VecGrid::from("###\n#.#\n###").map_grid(|_, ch| *ch == '#', false);
    let map = CellularMap::new(xy(3, 3)).with_generations(1).with_connect(false).build_from(noise);
    assert_eq!(picture(&map), ".#.\n###\n.#.");
}

#[test]
fn generations_change_all_cells_at_once() {
    let noise = VecGrid::from("##.\n##.\n...").map_grid(|_, ch| *ch == '#', false);
    let once = CellularMap::new(xy(3, 3))
        .with_born(3..4)
        .with_survive(3..4)
        .with_generations(1)
        .with_connect(false)
        .build_from(noise.clone());
    assert_eq!(picture(&once), "##.\n##.\n...");
    let twice = CellularMap::new(xy(3, 3))
        .with_born(2..3)
        .with_survive(9..10)
        .with_generations(2)
        .with_connect(false)
        .build_from(noise);
    // after one generation: "..#", "..#", "##."
    assert_eq!(picture(&twice), ".#.\n#..\n..#");
}

#[test]
fn no_generations_and_no_connecting_gives_back_the_noise() {
    let text = ".#.#\n#.#.\n.#.#";
    let map = CellularMap::new(xy(4, 3))
        .with_generations(0)
        .with_connect(false)
        .build_from(walls(text));
    assert_eq!(picture(&map), text);
    assert_eq!(components(&map), 6);
    let negative = CellularMap::new(xy(4, 3))
        .with_generations(-3)
        .with_connect(false)
        .build_from(walls(text));
    assert_eq!(picture(&negative), text);
}

#[test]
fn connecting_after_no_generations() {
    let map = CellularMap::new(xy(6, 6))
        .with_generations(0)
        .build_from(walls("######\n#..###\n######\n######\n####.#\n######"));
    assert_eq!(picture(&map), "######\n#..###\n##..##\n###..#\n####.#\n######");
}

#[test]
fn probability_zero_and_one() {
    let mut rng = StdRng::seed_from_u64(7);
    let empty = CellularMap::new(xy(5, 4))
        .with_probability(0)
        .with_generations(0)
        .with_connect(false)
        .build(&mut rng);
    assert_eq!(picture(&empty), ".....\n.....\n.....\n.....");
    let solid = CellularMap::new(xy(5, 4))
        .with_probability(1000)
        .with_generations(0)
        .with_connect(false)
        .build(&mut rng);
    assert_eq!(picture(&solid), "#####\n#####\n#####\n#####");
    assert!(solid.default());
}

#[test]
fn same_seed_same_map() {
    let first = CellularMap::new(xy(30, 20)).build(&mut StdRng::seed_from_u64(42));
    let second = CellularMap::new(xy(30, 20)).build(&mut StdRng::seed_from_u64(42));
    assert_eq!(picture(&first), picture(&second));
    let other = CellularMap::new(xy(30, 20))
        .with_generations(0)
        .with_connect(false)
        .build(&mut StdRng::seed_from_u64(43));
    let again = CellularMap::new(xy(30, 20))
        .with_generations(0)
        .with_connect(false)
        .build(&mut StdRng::seed_from_u64(42));
    assert_ne!(picture(&other), picture(&again));
}

#[test]
fn built_maps_are_connected() {
    for seed in 0..20 {
        let map = CellularMap::new(xy(24, 16)).build(&mut StdRng::seed_from_u64(seed));
        assert_eq!(map.size(), xy(24, 16));
        assert!(components(&map) <= 1, "seed {}", seed);
    }
    for seed in 0..10 {
        let map = CellularMap::new(xy(12, 12))
            .with_probability(400)
            .with_generations(0)
            .build(&mut StdRng::seed_from_u64(seed));
        assert_eq!(components(&map), 1, "seed {}", seed);
    }
}

#[test]
fn unconnected_maps_keep_their_regions() {
    let mut rng = StdRng::seed_from_u64(3);
    let raw = CellularMap::new(xy(12, 12))
        .with_probability(400)
        .with_generations(0)
        .with_connect(false)
        .build(&mut rng);
    assert!(components(&raw) > 1);
    let mut rng = StdRng::seed_from_u64(3);
    let joined = CellularMap::new(xy(12, 12))
        .with_probability(400)
        .with_generations(0)
        .build(&mut rng);
    assert_eq!(components(&joined), 1);
    // connecting only ever opens cells
    for y in 0..12 {
        for x in 0..12 {
            assert!(raw[xy(x, y)] || !joined[xy(x, y)]);
        }
    }
}

#[test]
fn zero_sized_maps_are_empty() {
    let mut rng = StdRng::seed_from_u64(1);
    let map = CellularMap::new(xy(0, 0)).build(&mut rng);
    assert_eq!(map.size(), xy(0, 0));
    let map = CellularMap::new(xy(0, 5)).build(&mut rng);
    assert_eq!(map.get(xy(0, 0)), None);
    assert_eq!(map.find(|wall| !*wall), None);
}
