use game_core::pathfind::astar;
use game_core::world::{ObjectKind, TileType, WorldMap, WorldObject, MAP_H, MAP_W};

fn open_field() -> WorldMap {
    WorldMap { tiles: vec![vec![TileType::Grass; MAP_W]; MAP_H], objects: Vec::new() }
}

fn is_step(a: (usize, usize), b: (usize, usize)) -> bool {
    let dx = if a.0 > b.0 { a.0 - b.0 } else { b.0 - a.0 };
    let dy = if a.1 > b.1 { a.1 - b.1 } else { b.1 - a.1 };
    dx + dy == 1
}

fn check_walk(map: &WorldMap, start: (usize, usize), goal: (usize, usize), path: &[(usize, usize)]) {
    assert!(!path.is_empty());
    assert_eq!(*path.last().unwrap(), goal);
    let mut prev = start;
    for &p in path {
        assert!(is_step(prev, p), "{:?} -> {:?} is not one step", prev, p);
        assert!(map.is_walkable(p.0, p.1), "{:?} cannot be walked on", p);
        prev = p;
    }
}

#[test]
fn terrain_walkability_and_colours() {
    assert!(TileType::Grass.is_walkable());
    assert!(TileType::Sand.is_walkable());
    assert!(TileType::Stone.is_walkable());
    assert!(!TileType::Water.is_walkable());
    assert_eq!(TileType::Grass.base_color(), (34, 120, 34));
    assert_eq!(TileType::GrassDark.base_color(), (28, 100, 28));
    assert_eq!(TileType::Dirt.base_color(), (140, 105, 60));
    assert_eq!(TileType::Sand.base_color(), (194, 178, 128));
    assert_eq!(TileType::Water.base_color(), (30, 80, 160));
    assert_eq!(TileType::Stone.base_color(), (120, 120, 125));
}

#[test]
fn generated_terrain_features() {
    let map = WorldMap::generate(42);
    assert_eq!(map.tiles.len(), MAP_H);
    assert!(map.tiles.iter().all(|row| row.len() == MAP_W));
    // lake centre, its sandy shore, a dirt road, a stone patch, the spawn
    assert_eq!(map.tile_at(15, 12), TileType::Water);
    assert_eq!(map.tile_at(15, 18), TileType::Sand);
    assert_eq!(map.tile_at(20, 32), TileType::Dirt);
    assert_eq!(map.tile_at(32, 12), TileType::Dirt);
    assert_eq!(map.tile_at(26, 26), TileType::Stone);
    assert_eq!(map.tile_at(MAP_W / 2, MAP_H / 2), TileType::Grass);
    assert_eq!(map.tile_at(150, 150), TileType::Grass);
}

#[test]
fn off_map_is_water_and_blocked() {
    let map = WorldMap::generate(1);
    assert_eq!(map.tile_at(MAP_W, 0), TileType::Water);
    assert_eq!(map.tile_at(0, MAP_H), TileType::Water);
    assert!(!map.is_walkable(MAP_W, 5));
    assert!(!map.is_walkable(5, MAP_H + 10));
}

#[test]
fn generated_objects_are_placed_and_sorted() {
    for seed in [0u32, 7, 42, 1000] {
        let map = WorldMap::generate(seed);
        assert!(!map.objects.is_empty());
        for w in map.objects.windows(2) {
            assert!(w[0].tile_y <= w[1].tile_y);
        }
        for o in &map.objects {
            assert!(o.alive);
            assert!(o.tile_x >= 1 && o.tile_x <= MAP_W - 2);
            assert!(o.tile_y >= 2 && o.tile_y <= MAP_H - 2);
            match o.kind {
                ObjectKind::Tree => assert_eq!(o.health, 3),
                ObjectKind::Rock => assert_eq!(o.health, 5),
            }
            assert_eq!(map.tile_at(o.tile_x, o.tile_y), TileType::Grass);
            let dx = (o.tile_x as i64 - (MAP_W / 2) as i64).abs();
            let dy = (o.tile_y as i64 - (MAP_H / 2) as i64).abs();
            assert!(dx > 3 || dy > 3);
        }
    }
}

#[test]
fn generation_is_deterministic() {
    let a = WorldMap::generate(42);
    let b = WorldMap::generate(42);
    assert_eq!(a.tiles, b.tiles);
    assert_eq!(a.objects, b.objects);
}

#[test]
fn seeds_scatter_objects_differently() {
    let a = WorldMap::generate(1);
    let b = WorldMap::generate(2);
    assert_ne!(a.objects, b.objects);
    assert_eq!(a.tiles, b.tiles);
}

#[test]
fn spawn_is_walkable() {
    for seed in [0u32, 3, 42, 99999] {
        let map = WorldMap::generate(seed);
        for y in MAP_H / 2 - 2..=MAP_H / 2 + 2 {
            for x in MAP_W / 2 - 2..=MAP_W / 2 + 2 {
                assert!(map.is_walkable(x, y));
            }
        }
    }
}

#[test]
fn largest_seed_generates() {
    let map = WorldMap::generate(u32::MAX - 100);
    assert!(map.is_walkable(MAP_W / 2, MAP_H / 2));
}

#[test]
fn tutorial_island() {
    let map = WorldMap::generate_tutorial();
    assert_eq!(map.tile_at(5, 5), TileType::Grass);
    assert_eq!(map.tile_at(25, 25), TileType::Grass);
    assert_eq!(map.tile_at(4, 5), TileType::Water);
    assert_eq!(map.tile_at(26, 25), TileType::Water);
    assert_eq!(map.tile_at(100, 100), TileType::Water);
    assert_eq!(
        map.objects,
        vec![WorldObject { kind: ObjectKind::Tree, tile_x: 15, tile_y: 10, health: 3, alive: true }]
    );
}

#[test]
fn tree_blocks_its_tile_and_the_one_above() {
    let map = WorldMap::generate_tutorial();
    assert!(!map.is_walkable(15, 10));
    assert!(!map.is_walkable(15, 9));
    assert!(map.is_walkable(15, 11));
    assert!(map.is_walkable(15, 8));
    assert!(map.is_walkable(14, 10));
    assert_eq!(map.object_index_at(15, 10), Some(0));
    assert_eq!(map.object_index_at(15, 9), Some(0));
    assert_eq!(map.object_index_at(15, 11), None);
}

#[test]
fn rock_blocks_only_its_tile() {
    let mut map = open_field();
    map.objects.push(WorldObject { kind: ObjectKind::Rock, tile_x: 10, tile_y: 10, health: 5, alive: true });
    assert!(!map.is_walkable(10, 10));
    assert!(map.is_walkable(10, 9));
    assert_eq!(map.object_index_at(10, 10), Some(0));
    assert_eq!(map.object_index_at(10, 9), None);
}

#[test]
fn felled_objects_do_not_block() {
    let mut map = WorldMap::generate_tutorial();
    map.objects[0].alive = false;
    assert!(map.is_walkable(15, 10));
    assert!(map.is_walkable(15, 9));
    assert_eq!(map.object_index_at(15, 10), None);
}

#[test]
fn first_blocking_object_is_found() {
    let mut map = open_field();
    map.objects.push(WorldObject { kind: ObjectKind::Rock, tile_x: 3, tile_y: 4, health: 5, alive: false });
    map.objects.push(WorldObject { kind: ObjectKind::Tree, tile_x: 3, tile_y: 5, health: 3, alive: true });
    map.objects.push(WorldObject { kind: ObjectKind::Rock, tile_x: 3, tile_y: 4, health: 5, alive: true });
    assert_eq!(map.object_index_at(3, 4), Some(1));
}

#[test]
fn adjacent_tile_nearest_to_hero() {
    let map = WorldMap::generate_tutorial();
    // from the west the west side is nearest
    assert_eq!(map.adjacent_walkable_tile(15, 10, 10, 10), Some((14, 10)));
    // from the south the tile below the trunk
    assert_eq!(map.adjacent_walkable_tile(15, 10, 15, 20), Some((15, 11)));
    // from the east
    assert_eq!(map.adjacent_walkable_tile(15, 10, 22, 10), Some((16, 10)));
}

#[test]
fn adjacent_tile_ties_go_to_the_first_direction() {
    let map = open_field();
    // below, above, right and left are all 1 away from the target itself
    assert_eq!(map.adjacent_walkable_tile(50, 50, 50, 50), Some((50, 51)));
}

#[test]
fn no_adjacent_tile_in_open_water() {
    let map = WorldMap::generate_tutorial();
    assert_eq!(map.adjacent_walkable_tile(100, 100, 10, 10), None);
}

#[test]
fn adjacent_tile_at_the_map_corner() {
    let map = open_field();
    assert_eq!(map.adjacent_walkable_tile(0, 0, 5, 0), Some((1, 0)));
}

#[test]
fn straight_path_on_open_ground() {
    let map = open_field();
    let path = astar(&map, (10, 10), (15, 10));
    assert_eq!(path, vec![(11, 10), (12, 10), (13, 10), (14, 10), (15, 10)]);
}

#[test]
fn path_goes_around_a_tree() {
    let map = WorldMap::generate_tutorial();
    let path = astar(&map, (10, 10), (20, 10));
    check_walk(&map, (10, 10), (20, 10), &path);
    assert_eq!(path.len(), 12);
}

#[test]
fn diagonal_path_has_manhattan_length() {
    let map = WorldMap::generate_tutorial();
    let path = astar(&map, (6, 6), (20, 20));
    check_walk(&map, (6, 6), (20, 20), &path);
    assert_eq!(path.len(), 28);
}

#[test]
fn no_path_to_where_one_stands() {
    let map = open_field();
    assert!(astar(&map, (7, 7), (7, 7)).is_empty());
}

#[test]
fn no_path_into_water() {
    let map = WorldMap::generate_tutorial();
    assert!(astar(&map, (10, 10), (0, 0)).is_empty());
}

#[test]
fn no_path_onto_a_tree() {
    let map = WorldMap::generate_tutorial();
    assert!(astar(&map, (10, 10), (15, 10)).is_empty());
}

#[test]
fn no_path_to_an_enclosed_tile() {
    let mut map = open_field();
    for (x, y) in [(49, 50), (51, 50), (50, 49), (50, 51)] {
        map.tiles[y][x] = TileType::Water;
    }
    assert!(map.is_walkable(50, 50));
    assert!(astar(&map, (10, 10), (50, 50)).is_empty());
}

#[test]
fn no_path_off_the_map() {
    let map = open_field();
    assert!(astar(&map, (10, 10), (MAP_W, 10)).is_empty());
}

#[test]
fn path_in_generated_world() {
    let map = WorldMap::generate(42);
    let start = (MAP_W / 2, MAP_H / 2);
    let goal = (MAP_W / 2 + 2, MAP_H / 2 - 2);
    let path = astar(&map, start, goal);
    check_walk(&map, start, goal, &path);
    assert_eq!(path.len(), 4);
}

#[test]
fn object_thresholds_match_the_fractions() {
    // a tree below 8% and a rock below 10% of the hash's low 16 bits
    for h in 0u32..=0xFFFF {
        let r = h as f64 / 65535.0;
        assert_eq!(r < 0.08, h <= 5242, "tree at {}", h);
        assert_eq!(r < 0.10, h <= 6553, "rock at {}", h);
    }
}

fn tile_hash(x: u32, y: u32, seed: u32) -> u32 {
    let mut h = seed.wrapping_add(x.wrapping_mul(374761393)).wrapping_add(y.wrapping_mul(668265263));
    h = (h ^ (h >> 13)).wrapping_mul(1274126177);
    h = (h ^ (h >> 16)).wrapping_mul(2654435761);
    h ^ (h >> 13)
}

#[test]
fn objects_follow_the_seeded_hash() {
    for seed in [42u32, 12345] {
        let map = WorldMap::generate(seed);
        let mut expected = Vec::new();
        for y in 2..MAP_H - 1 {
            for x in 1..MAP_W - 1 {
                let near_spawn = (x as i64 - 100).abs() <= 3 && (y as i64 - 100).abs() <= 3;
                if map.tile_at(x, y) != TileType::Grass || near_spawn {
                    continue;
                }
                let r = (tile_hash(x as u32, y as u32, seed + 100) & 0xFFFF) as f64 / 65535.0;
                if r < 0.08 {
                    expected.push(WorldObject { kind: ObjectKind::Tree, tile_x: x, tile_y: y, health: 3, alive: true });
                } else if r < 0.10 {
                    expected.push(WorldObject { kind: ObjectKind::Rock, tile_x: x, tile_y: y, health: 5, alive: true });
                }
            }
        }
        assert_eq!(map.objects, expected);
    }
}

fn bfs_steps(map: &WorldMap, start: (usize, usize), goal: (usize, usize)) -> Option<usize> {
    let mut dist = vec![vec![usize::MAX; MAP_W]; MAP_H];
    let mut queue = std::collections::VecDeque::new();
    dist[start.1][start.0] = 0;
    queue.push_back(start);
    while let Some((x, y)) = queue.pop_front() {
        if (x, y) == goal {
            return Some(dist[y][x]);
        }
        let d = dist[y][x];
        let mut next = Vec::new();
        if x > 0 {
            next.push((x - 1, y));
        }
        if y > 0 {
            next.push((x, y - 1));
        }
        next.push((x + 1, y));
        next.push((x, y + 1));
        for (nx, ny) in next {
            if map.is_walkable(nx, ny) && dist[ny][nx] == usize::MAX {
                dist[ny][nx] = d + 1;
                queue.push_back((nx, ny));
            }
        }
    }
    None
}

#[test]
fn paths_are_as_short_as_breadth_first_search() {
    let map = WorldMap::generate(42);
    let start = (MAP_W / 2, MAP_H / 2);
    for goal in [(120, 90), (80, 130), (60, 40), (150, 170), (100, 60), (20, 20)] {
        let path = astar(&map, start, goal);
        match bfs_steps(&map, start, goal) {
            Some(steps) => {
                check_walk(&map, start, goal, &path);
                assert_eq!(path.len(), steps, "to {:?}", goal);
            }
            None => assert!(path.is_empty()),
        }
    }
}
