//! The tile world: terrain, trees and rocks, map generation and walkability.
use vstd::prelude::*;
use vstd::wrapping::u32_specs::wrapping_add;
use vstd::wrapping::u32_specs::wrapping_mul;

verus! {

/// Side of a tile in world pixels.
pub const TILE_SIZE: usize = 16;
/// Width of the map in tiles.
pub const MAP_W: usize = 200;
/// Height of the map in tiles.
pub const MAP_H: usize = 200;

#[derive(Clone, Copy, PartialEq, Eq, Structural, Debug)]
pub enum TileType {
    Grass,
    GrassDark,
    Dirt,
    Sand,
    Water,
    Stone,
}

/// The display colour of each kind of terrain.
pub open spec fn tile_color(t: TileType) -> (u8, u8, u8) {
    match t {
        TileType::Grass => (34, 120, 34),
        TileType::GrassDark => (28, 100, 28),
        TileType::Dirt => (140, 105, 60),
        TileType::Sand => (194, 178, 128),
        TileType::Water => (30, 80, 160),
        TileType::Stone => (120, 120, 125),
    }
}

impl TileType {
    /// Every terrain but water can be walked on.
    pub fn is_walkable(self) -> (r: bool)
        ensures
            r == (self != TileType::Water),
    {
        !matches!(self, TileType::Water)
    }

    pub fn base_color(self) -> (r: (u8, u8, u8))
        ensures
            r == tile_color(self),
    {
        match self {
            TileType::Grass => (34, 120, 34),
            TileType::GrassDark => (28, 100, 28),
            TileType::Dirt => (140, 105, 60),
            TileType::Sand => (194, 178, 128),
            TileType::Water => (30, 80, 160),
            TileType::Stone => (120, 120, 125),
        }
    }
}

#[derive(Clone, Copy, PartialEq, Eq, Structural, Debug)]
pub enum ObjectKind {
    Tree,
    Rock,
}

/// A tree or rock standing on a tile. A tree is two tiles tall: it also
/// covers the tile above its base.
#[derive(Clone, Copy, PartialEq, Eq, Structural, Debug)]
pub struct WorldObject {
    pub kind: ObjectKind,
    pub tile_x: usize,
    pub tile_y: usize,
    pub health: u32,
    pub alive: bool,
}

/// Whether object `o` stands in the way on tile `(x, y)`: only living
/// objects do; a tree covers its base tile and the one above it, a rock
/// only its own tile.
pub open spec fn blocks(o: WorldObject, x: int, y: int) -> bool {
    &&& o.alive
    &&& o.tile_x == x
    &&& if o.kind == ObjectKind::Tree {
        o.tile_y == y || (o.tile_y > 0 && o.tile_y - 1 == y)
    } else {
        o.tile_y == y
    }
}

pub struct WorldMap {
    pub tiles: Vec<Vec<TileType>>,
    pub objects: Vec<WorldObject>,
}

// ---- map generation ----

/// The seeded per-tile hash that scatters trees and rocks.
pub open spec fn tile_hash(x: u32, y: u32, seed: u32) -> u32 {
    let h0 = wrapping_add(
        wrapping_add(seed, wrapping_mul(x, 374761393)),
        wrapping_mul(y, 668265263),
    );
    let h1 = wrapping_mul(h0 ^ (h0 >> 13u32), 1274126177);
    let h2 = wrapping_mul(h1 ^ (h1 >> 16u32), 2654435761);
    h2 ^ (h2 >> 13u32)
}

fn hash(x: u32, y: u32, seed: u32) -> (r: u32)
    ensures
        r == tile_hash(x, y, seed),
{
    let mut h = seed.wrapping_add(x.wrapping_mul(374761393)).wrapping_add(
        y.wrapping_mul(668265263),
    );
    h = (h ^ (h >> 13u32)).wrapping_mul(1274126177);
    h = (h ^ (h >> 16u32)).wrapping_mul(2654435761);
    h ^ (h >> 13u32)
}

pub open spec fn dist_sq(x: int, y: int, cx: int, cy: int) -> int {
    (x - cx) * (x - cx) + (y - cy) * (y - cy)
}

/// Inside one of the four lakes, centred at (15,12), (45,40), (10,50) and
/// (50,15) with radii 5, 4, 3 and 4.
pub open spec fn in_lake(x: int, y: int) -> bool {
    ||| dist_sq(x, y, 15, 12) <= 25
    ||| dist_sq(x, y, 45, 40) <= 16
    ||| dist_sq(x, y, 10, 50) <= 9
    ||| dist_sq(x, y, 50, 15) <= 16
}

/// Within one tile more than a lake's radius: the lake and its sandy shore.
pub open spec fn near_lake(x: int, y: int) -> bool {
    ||| dist_sq(x, y, 15, 12) <= 36
    ||| dist_sq(x, y, 45, 40) <= 25
    ||| dist_sq(x, y, 10, 50) <= 16
    ||| dist_sq(x, y, 50, 15) <= 25
}

/// The two crossing dirt roads, two tiles wide.
pub open spec fn on_dirt_road(x: int, y: int) -> bool {
    ||| (y == 32 || y == 33) && 5 <= x < 55
    ||| (x == 32 || x == 33) && 10 <= y < 55
}

/// The two 4x3 stone patches, at (25,25) and (48,30).
pub open spec fn in_stone_patch(x: int, y: int) -> bool {
    ||| 25 <= x < 29 && 25 <= y < 28
    ||| 48 <= x < 52 && 30 <= y < 33
}

/// The 5x5 grass square round the spawn point (100, 100).
pub open spec fn in_spawn_square(x: int, y: int) -> bool {
    98 <= x <= 102 && 98 <= y <= 102
}

/// Within 3 tiles of the spawn point on both axes: kept free of objects.
pub open spec fn near_spawn(x: int, y: int) -> bool {
    -3 <= x - 100 <= 3 && -3 <= y - 100 <= 3
}

/// The terrain before the spawn square is cleared: lakes with sandy shores,
/// dirt roads laid over them, and stone patches laid over all but open water.
pub open spec fn terrain(x: int, y: int) -> TileType {
    if in_stone_patch(x, y) && (on_dirt_road(x, y) || !in_lake(x, y)) {
        TileType::Stone
    } else if on_dirt_road(x, y) {
        TileType::Dirt
    } else if in_lake(x, y) {
        TileType::Water
    } else if near_lake(x, y) {
        TileType::Sand
    } else {
        TileType::Grass
    }
}

/// The terrain of a generated map (the spawn square is always grass).
pub open spec fn generated_tile(x: int, y: int) -> TileType {
    if in_spawn_square(x, y) {
        TileType::Grass
    } else {
        terrain(x, y)
    }
}

/// The object that generation places on tile `(x, y)`, if any: on grass
/// away from the spawn point, the low 16 bits of the tile's hash (with
/// `seed + 100`) give a tree when at most 5242 (8% of 65535) and a rock
/// when at most 6553 (10%).
pub open spec fn generated_object(seed: u32, x: int, y: int) -> Option<WorldObject> {
    let h = tile_hash(x as u32, y as u32, (seed + 100) as u32) & 0xFFFFu32;
    if terrain(x, y) != TileType::Grass || near_spawn(x, y) {
        None
    } else if h <= 5242 {
        Some(
            WorldObject {
                kind: ObjectKind::Tree,
                tile_x: x as usize,
                tile_y: y as usize,
                health: 3,
                alive: true,
            },
        )
    } else if h <= 6553 {
        Some(
            WorldObject {
                kind: ObjectKind::Rock,
                tile_x: x as usize,
                tile_y: y as usize,
                health: 5,
                alive: true,
            },
        )
    } else {
        None
    }
}

pub open spec fn opt_seq(o: Option<WorldObject>) -> Seq<WorldObject> {
    match o {
        Some(v) => seq![v],
        None => Seq::empty(),
    }
}

/// The objects generated on row `y` at columns `1 .. x_end`, left to right.
pub open spec fn generated_row(seed: u32, y: int, x_end: int) -> Seq<WorldObject>
    decreases x_end,
{
    if x_end <= 1 {
        Seq::empty()
    } else {
        generated_row(seed, y, x_end - 1) + opt_seq(generated_object(seed, x_end - 1, y))
    }
}

/// The objects generated on rows `2 .. y_end`, row by row.
pub open spec fn generated_rows(seed: u32, y_end: int) -> Seq<WorldObject>
    decreases y_end,
{
    if y_end <= 2 {
        Seq::empty()
    } else {
        generated_rows(seed, y_end - 1) + generated_row(seed, y_end - 1, MAP_W - 1)
    }
}

/// All objects of a generated map: rows 2 to `MAP_H - 2`, columns 1 to
/// `MAP_W - 2`, in row-major order.
pub open spec fn generated_objects(seed: u32) -> Seq<WorldObject> {
    generated_rows(seed, MAP_H - 1)
}

/// `m` is the map generated from `seed`.
pub open spec fn is_generated_map(m: WorldMap, seed: u32) -> bool {
    &&& m.wf()
    &&& forall|x: int, y: int| 0 <= x < MAP_W && 0 <= y < MAP_H ==> #[trigger] m.tile(x, y) == generated_tile(x, y)
    &&& m.objects@ == generated_objects(seed)
}

/// `m` is the tutorial island with its one tree.
pub open spec fn is_tutorial_map(m: WorldMap) -> bool {
    &&& m.wf()
    &&& forall|x: int, y: int| 0 <= x < MAP_W && 0 <= y < MAP_H ==> #[trigger] m.tile(x, y) == tutorial_tile(x, y)
    &&& m.objects@ == seq![WorldObject { kind: ObjectKind::Tree, tile_x: 15, tile_y: 10, health: 3, alive: true }]
}

/// The terrain of the tutorial map: water with a grass island covering
/// tiles 5 to 25 on both axes.
pub open spec fn tutorial_tile(x: int, y: int) -> TileType {
    if 5 <= x <= 25 && 5 <= y <= 25 {
        TileType::Grass
    } else {
        TileType::Water
    }
}

fn terrain_at(x: usize, y: usize) -> (t: TileType)
    requires
        x < MAP_W,
        y < MAP_H,
    ensures
        t == terrain(x as int, y as int),
{
    let xi = x as i32;
    let yi = y as i32;
    let lake_a = sq_dist(xi, yi, 15, 12);
    let lake_b = sq_dist(xi, yi, 45, 40);
    let lake_c = sq_dist(xi, yi, 10, 50);
    let lake_d = sq_dist(xi, yi, 50, 15);
    let water = lake_a <= 25 || lake_b <= 16 || lake_c <= 9 || lake_d <= 16;
    let shore = lake_a <= 36 || lake_b <= 25 || lake_c <= 16 || lake_d <= 25;
    let dirt = ((y == 32 || y == 33) && 5 <= x && x < 55) || ((x == 32 || x == 33) && 10 <= y && y
        < 55);
    let stone = (25 <= x && x < 29 && 25 <= y && y < 28) || (48 <= x && x < 52 && 30 <= y && y
        < 33);
    if stone && (dirt || !water) {
        TileType::Stone
    } else if dirt {
        TileType::Dirt
    } else if water {
        TileType::Water
    } else if shore {
        TileType::Sand
    } else {
        TileType::Grass
    }
}

fn sq_dist(x: i32, y: i32, cx: i32, cy: i32) -> (r: i32)
    requires
        0 <= x < 200,
        0 <= y < 200,
        0 <= cx < 200,
        0 <= cy < 200,
    ensures
        r == dist_sq(x as int, y as int, cx as int, cy as int),
{
    let dx = x - cx;
    let dy = y - cy;
    assert(0 <= dx * dx <= 40000 && 0 <= dy * dy <= 40000) by (nonlinear_arith)
        requires
            -200 < dx < 200,
            -200 < dy < 200,
    ;
    dx * dx + dy * dy
}

fn object_for_tile(seed: u32, x: usize, y: usize) -> (r: Option<WorldObject>)
    requires
        x < MAP_W,
        y < MAP_H,
        seed <= u32::MAX - 100,
    ensures
        r == generated_object(seed, x as int, y as int),
{
    if terrain_at(x, y) != TileType::Grass {
        return None;
    }
    let near = 97 <= x && x <= 103 && 97 <= y && y <= 103;
    if near {
        return None;
    }
    let h = hash(x as u32, y as u32, seed + 100) & 0xFFFFu32;
    if h <= 5242 {
        Some(WorldObject { kind: ObjectKind::Tree, tile_x: x, tile_y: y, health: 3, alive: true })
    } else if h <= 6553 {
        Some(WorldObject { kind: ObjectKind::Rock, tile_x: x, tile_y: y, health: 5, alive: true })
    } else {
        None
    }
}

impl WorldMap {
    /// A map is well formed when it has `MAP_H` rows of `MAP_W` tiles.
    pub open spec fn wf(&self) -> bool {
        &&& self.tiles@.len() == MAP_H
        &&& forall|y: int| 0 <= y < MAP_H ==> #[trigger] self.tiles@[y]@.len() == MAP_W
    }

    /// Every object stands on a tile of the map.
    pub open spec fn objects_in_map(&self) -> bool {
        forall|i: int|
            0 <= i < self.objects@.len() ==> (#[trigger] self.objects@[i]).tile_x < MAP_W
                && self.objects@[i].tile_y < MAP_H
    }

    /// The terrain at `(x, y)` (meaningful inside the map).
    pub open spec fn tile(&self, x: int, y: int) -> TileType {
        self.tiles@[y]@[x]
    }

    /// Whether a hero may stand on `(x, y)`: inside the map, not water, and
    /// no living object in the way.
    pub open spec fn walkable(&self, x: int, y: int) -> bool {
        &&& 0 <= x < MAP_W
        &&& 0 <= y < MAP_H
        &&& self.tile(x, y) != TileType::Water
        &&& !exists|i: int| 0 <= i < self.objects@.len() && #[trigger] blocks(self.objects@[i], x, y)
    }

    /// Generates the world for `seed`.
    pub fn generate(seed: u32) -> (r: WorldMap)
        requires
            seed <= u32::MAX - 100,
        ensures
            r.wf(),
            forall|x: int, y: int|
                0 <= x < MAP_W && 0 <= y < MAP_H ==> #[trigger] r.tile(x, y) == generated_tile(x, y),
            r.objects@ == generated_objects(seed),
            r.objects_in_map(),
    {
        let mut tiles: Vec<Vec<TileType>> = Vec::new();
        let mut y: usize = 0;
        while y < MAP_H
            invariant
                y <= MAP_H,
                tiles@.len() == y,
                forall|j: int| 0 <= j < y ==> #[trigger] tiles@[j]@.len() == MAP_W,
                forall|i: int, j: int|
                    0 <= i < MAP_W && 0 <= j < y ==> #[trigger] tiles@[j]@[i] == generated_tile(i, j),
            decreases MAP_H - y,
        {
            let mut row: Vec<TileType> = Vec::new();
            let mut x: usize = 0;
            while x < MAP_W
                invariant
                    x <= MAP_W,
                    y < MAP_H,
                    row@.len() == x,
                    forall|i: int| 0 <= i < x ==> #[trigger] row@[i] == generated_tile(i, y as int),
                decreases MAP_W - x,
            {
                let spawn = 98 <= x && x <= 102 && 98 <= y && y <= 102;
                let t = if spawn {
                    TileType::Grass
                } else {
                    terrain_at(x, y)
                };
                row.push(t);
                x = x + 1;
            }
            tiles.push(row);
            y = y + 1;
        }

        let mut objects: Vec<WorldObject> = Vec::new();
        let mut oy: usize = 2;
        while oy < MAP_H - 1
            invariant
                2 <= oy <= MAP_H - 1,
                seed <= u32::MAX - 100,
                objects@ == generated_rows(seed, oy as int),
            decreases MAP_H - 1 - oy,
        {
            let mut ox: usize = 1;
            while ox < MAP_W - 1
                invariant
                    1 <= ox <= MAP_W - 1,
                    2 <= oy < MAP_H - 1,
                    seed <= u32::MAX - 100,
                    objects@ == generated_rows(seed, oy as int) + generated_row(seed, oy as int, ox as int),
                decreases MAP_W - 1 - ox,
            {
                let ghost before = objects@;
                match object_for_tile(seed, ox, oy) {
                    Some(o) => {
                        objects.push(o);
                    },
                    None => {},
                }
                assert(objects@ =~= generated_rows(seed, oy as int) + generated_row(
                    seed,
                    oy as int,
                    ox + 1,
                ));
                ox = ox + 1;
            }
            assert(objects@ =~= generated_rows(seed, oy + 1));
            oy = oy + 1;
        }
        proof {
            lemma_generated_objects_placed(seed);
            assert forall|i: int| 0 <= i < objects@.len() implies (#[trigger] objects@[i]).tile_x
                < MAP_W && objects@[i].tile_y < MAP_H by {
                assert(properly_placed(generated_objects(seed)[i]));
            }
        }
        WorldMap { tiles, objects }
    }

    /// The tutorial island: water everywhere but a grass square from tile 5
    /// to tile 25 on both axes, with a single tree at (15, 10).
    pub fn generate_tutorial() -> (r: WorldMap)
        ensures
            r.wf(),
            forall|x: int, y: int|
                0 <= x < MAP_W && 0 <= y < MAP_H ==> #[trigger] r.tile(x, y) == tutorial_tile(x, y),
            r.objects@ == seq![
                WorldObject { kind: ObjectKind::Tree, tile_x: 15, tile_y: 10, health: 3, alive: true },
            ],
            r.objects_in_map(),
    {
        let mut tiles: Vec<Vec<TileType>> = Vec::new();
        let mut y: usize = 0;
        while y < MAP_H
            invariant
                y <= MAP_H,
                tiles@.len() == y,
                forall|j: int| 0 <= j < y ==> #[trigger] tiles@[j]@.len() == MAP_W,
                forall|i: int, j: int|
                    0 <= i < MAP_W && 0 <= j < y ==> #[trigger] tiles@[j]@[i] == tutorial_tile(i, j),
            decreases MAP_H - y,
        {
            let mut row: Vec<TileType> = Vec::new();
            let mut x: usize = 0;
            while x < MAP_W
                invariant
                    x <= MAP_W,
                    y < MAP_H,
                    row@.len() == x,
                    forall|i: int| 0 <= i < x ==> #[trigger] row@[i] == tutorial_tile(i, y as int),
                decreases MAP_W - x,
            {
                let island = 5 <= x && x <= 25 && 5 <= y && y <= 25;
                row.push(
                    if island {
                        TileType::Grass
                    } else {
                        TileType::Water
                    },
                );
                x = x + 1;
            }
            tiles.push(row);
            y = y + 1;
        }
        let mut objects: Vec<WorldObject> = Vec::new();
        objects.push(
            WorldObject { kind: ObjectKind::Tree, tile_x: 15, tile_y: 10, health: 3, alive: true },
        );
        WorldMap { tiles, objects }
    }
}


/// The four neighbours tried when looking for a tile to stand on next to a
/// target, in the order they are tried: below, above, right, left.
pub open spec fn neighbour(tx: int, ty: int, k: int) -> (int, int) {
    if k == 0 {
        (tx, ty + 1)
    } else if k == 1 {
        (tx, ty - 1)
    } else if k == 2 {
        (tx + 1, ty)
    } else {
        (tx - 1, ty)
    }
}

pub open spec fn abs_diff(a: int, b: int) -> int {
    if a >= b {
        a - b
    } else {
        b - a
    }
}

/// Manhattan distance between two tiles.
pub open spec fn manhattan(ax: int, ay: int, bx: int, by: int) -> int {
    abs_diff(ax, bx) + abs_diff(ay, by)
}

impl WorldMap {
    /// The first index of a living object in the way on `(x, y)`, if any.
    pub open spec fn first_blocker(&self, x: int, y: int) -> Option<int> {
        if exists|i: int| 0 <= i < self.objects@.len() && #[trigger] blocks(self.objects@[i], x, y) {
            Some(
                choose|i: int|
                    0 <= i < self.objects@.len() && #[trigger] blocks(self.objects@[i], x, y) && forall|
                        j: int,
                    | 0 <= j < i ==> !#[trigger] blocks(self.objects@[j], x, y),
            )
        } else {
            None
        }
    }

    /// The best tile to stand on when interacting with `(tx, ty)`: among its
    /// four neighbours that are walkable, one nearest (Manhattan) to the
    /// hero, the earliest in the order below, above, right, left on ties.
    pub open spec fn best_adjacent(&self, tx: int, ty: int, hx: int, hy: int, k: int) -> Option<(int, int)>
        decreases k,
    {
        if k <= 0 {
            None
        } else {
            let prev = self.best_adjacent(tx, ty, hx, hy, k - 1);
            let (nx, ny) = neighbour(tx, ty, k - 1);
            if self.walkable(nx, ny) && (match prev {
                None => true,
                Some((px, py)) => manhattan(hx, hy, nx, ny) < manhattan(hx, hy, px, py),
            }) {
                Some((nx, ny))
            } else {
                prev
            }
        }
    }

    /// The terrain at `(x, y)`, water outside the map.
    pub fn tile_at(&self, x: usize, y: usize) -> (r: TileType)
        requires
            self.wf(),
        ensures
            r == (if x < MAP_W && y < MAP_H {
                self.tile(x as int, y as int)
            } else {
                TileType::Water
            }),
    {
        if x < MAP_W && y < MAP_H {
            self.tiles[y][x]
        } else {
            TileType::Water
        }
    }

    fn blocks_tile(o: &WorldObject, x: usize, y: usize) -> (r: bool)
        ensures
            r == blocks(*o, x as int, y as int),
    {
        if !o.alive {
            return false;
        }
        if o.kind == ObjectKind::Tree {
            o.tile_x == x && (o.tile_y == y || (o.tile_y > 0 && o.tile_y - 1 == y))
        } else {
            o.tile_x == x && o.tile_y == y
        }
    }

    /// Whether a hero may stand on `(x, y)`.
    pub fn is_walkable(&self, x: usize, y: usize) -> (r: bool)
        requires
            self.wf(),
        ensures
            r == self.walkable(x as int, y as int),
    {
        if x >= MAP_W || y >= MAP_H {
            return false;
        }
        if !self.tiles[y][x].is_walkable() {
            return false;
        }
        let mut i: usize = 0;
        while i < self.objects.len()
            invariant
                i <= self.objects@.len(),
                forall|j: int| 0 <= j < i ==> !#[trigger] blocks(self.objects@[j], x as int, y as int),
            decreases self.objects@.len() - i,
        {
            if Self::blocks_tile(&self.objects[i], x, y) {
                return false;
            }
            i = i + 1;
        }
        true
    }

    /// The index of the first living object in the way on `(x, y)`, if any.
    pub fn object_index_at(&self, x: usize, y: usize) -> (r: Option<usize>)
        ensures
            r matches Some(i) ==> self.first_blocker(x as int, y as int) == Some(i as int),
            r is None ==> self.first_blocker(x as int, y as int) is None,
    {
        let mut i: usize = 0;
        while i < self.objects.len()
            invariant
                i <= self.objects@.len(),
                forall|j: int| 0 <= j < i ==> !#[trigger] blocks(self.objects@[j], x as int, y as int),
            decreases self.objects@.len() - i,
        {
            if Self::blocks_tile(&self.objects[i], x, y) {
                proof {
                    let c = choose|c: int|
                        0 <= c < self.objects@.len() && #[trigger] blocks(
                            self.objects@[c],
                            x as int,
                            y as int,
                        ) && forall|j: int|
                            0 <= j < c ==> !#[trigger] blocks(self.objects@[j], x as int, y as int);
                    assert(blocks(self.objects@[i as int], x as int, y as int));
                    if c < i {
                    } else if c > i {
                    }
                }
                return Some(i);
            }
            i = i + 1;
        }
        None
    }

    /// The best tile to stand on when interacting with `(tx, ty)`, for a
    /// hero at `(hero_x, hero_y)`.
    pub fn adjacent_walkable_tile(&self, tx: usize, ty: usize, hero_x: usize, hero_y: usize) -> (r:
        Option<(usize, usize)>)
        requires
            self.wf(),
            tx < i32::MAX,
            ty < i32::MAX,
            hero_x <= i32::MAX,
            hero_y <= i32::MAX,
        ensures
            r matches Some(p) ==> self.best_adjacent(
                tx as int,
                ty as int,
                hero_x as int,
                hero_y as int,
                4,
            ) == Some((p.0 as int, p.1 as int)),
            r is None ==> self.best_adjacent(tx as int, ty as int, hero_x as int, hero_y as int, 4)
                is None,
    {
        let mut best: Option<(usize, usize)> = None;
        let mut best_dist: u32 = u32::MAX;
        let mut k: usize = 0;
        while k < 4
            invariant
                self.wf(),
                k <= 4,
                tx < i32::MAX,
                ty < i32::MAX,
                hero_x <= i32::MAX,
                hero_y <= i32::MAX,
                best matches Some(p) ==> self.best_adjacent(
                    tx as int,
                    ty as int,
                    hero_x as int,
                    hero_y as int,
                    k as int,
                ) == Some((p.0 as int, p.1 as int)) && best_dist == manhattan(
                    hero_x as int,
                    hero_y as int,
                    p.0 as int,
                    p.1 as int,
                ),
                best is None ==> self.best_adjacent(
                    tx as int,
                    ty as int,
                    hero_x as int,
                    hero_y as int,
                    k as int,
                ) is None && best_dist == u32::MAX,
            decreases 4 - k,
        {
            let (dx, dy): (i32, i32) = if k == 0 {
                (0, 1)
            } else if k == 1 {
                (0, -1)
            } else if k == 2 {
                (1, 0)
            } else {
                (-1, 0)
            };
            let nx = tx as i32 + dx;
            let ny = ty as i32 + dy;
            if !(nx < 0 || ny < 0 || nx >= MAP_W as i32 || ny >= MAP_H as i32) {
                let ux = nx as usize;
                let uy = ny as usize;
                if self.is_walkable(ux, uy) {
                    let ddx = if (hero_x as i32) >= nx {
                        (hero_x as i32 - nx) as u32
                    } else {
                        (nx - hero_x as i32) as u32
                    };
                    let ddy = if (hero_y as i32) >= ny {
                        (hero_y as i32 - ny) as u32
                    } else {
                        (ny - hero_y as i32) as u32
                    };
                    let d = ddx + ddy;
                    if d < best_dist {
                        best_dist = d;
                        best = Some((ux, uy));
                    }
                }
            }
            k = k + 1;
        }
        best
    }
}


/// What generation guarantees of each object it places: a living tree
/// (health 3) or rock (health 5) on grass, inside the map's border, and
/// away from the spawn point.
pub open spec fn properly_placed(o: WorldObject) -> bool {
    &&& o.alive
    &&& 1 <= o.tile_x < MAP_W - 1
    &&& 2 <= o.tile_y < MAP_H - 1
    &&& !near_spawn(o.tile_x as int, o.tile_y as int)
    &&& terrain(o.tile_x as int, o.tile_y as int) == TileType::Grass
    &&& o.kind == ObjectKind::Tree ==> o.health == 3
    &&& o.kind == ObjectKind::Rock ==> o.health == 5
}

proof fn lemma_generated_row(seed: u32, y: int, x_end: int)
    requires
        2 <= y < MAP_H - 1,
        x_end <= MAP_W - 1,
    ensures
        forall|i: int|
            0 <= i < generated_row(seed, y, x_end).len() ==> {
                let o = #[trigger] generated_row(seed, y, x_end)[i];
                &&& properly_placed(o)
                &&& o.tile_y == y
            },
    decreases x_end,
{
    if x_end > 1 {
        lemma_generated_row(seed, y, x_end - 1);
        let prev = generated_row(seed, y, x_end - 1);
        let cur = generated_row(seed, y, x_end);
        assert forall|i: int| 0 <= i < cur.len() implies {
            let o = #[trigger] cur[i];
            &&& properly_placed(o)
            &&& o.tile_y == y
        } by {
            if i < prev.len() {
                assert(cur[i] == prev[i]);
            }
        }
    }
}

proof fn lemma_generated_rows(seed: u32, y_end: int)
    requires
        y_end <= MAP_H - 1,
    ensures
        forall|i: int|
            0 <= i < generated_rows(seed, y_end).len() ==> {
                let o = #[trigger] generated_rows(seed, y_end)[i];
                &&& properly_placed(o)
                &&& o.tile_y < y_end
            },
        forall|i: int, j: int|
            0 <= i <= j < generated_rows(seed, y_end).len() ==> #[trigger] generated_rows(
                seed,
                y_end,
            )[i].tile_y <= #[trigger] generated_rows(seed, y_end)[j].tile_y,
    decreases y_end,
{
    if y_end > 2 {
        lemma_generated_rows(seed, y_end - 1);
        lemma_generated_row(seed, y_end - 1, MAP_W - 1);
        let prev = generated_rows(seed, y_end - 1);
        let row = generated_row(seed, y_end - 1, MAP_W - 1);
        let cur = generated_rows(seed, y_end);
        assert(cur == prev + row);
        assert forall|i: int| 0 <= i < cur.len() implies {
            let o = #[trigger] cur[i];
            &&& properly_placed(o)
            &&& o.tile_y < y_end
        } by {
            if i < prev.len() {
                assert(cur[i] == prev[i]);
            } else {
                assert(cur[i] == row[i - prev.len()]);
            }
        }
        assert forall|i: int, j: int| 0 <= i <= j < cur.len() implies #[trigger] cur[i].tile_y
            <= #[trigger] cur[j].tile_y by {
            if j < prev.len() {
                assert(cur[i] == prev[i]);
                assert(cur[j] == prev[j]);
            } else if i < prev.len() {
                assert(cur[i] == prev[i]);
                assert(cur[j] == row[j - prev.len()]);
            } else {
                assert(cur[i] == row[i - prev.len()]);
                assert(cur[j] == row[j - prev.len()]);
            }
        }
    }
}

/// The objects of a generated map come sorted by row, so that drawing them
/// in order paints nearer objects over farther ones.
pub proof fn lemma_generated_objects_sorted(seed: u32)
    ensures
        forall|i: int, j: int|
            0 <= i <= j < generated_objects(seed).len() ==> #[trigger] generated_objects(seed)[i].tile_y
                <= #[trigger] generated_objects(seed)[j].tile_y,
{
    lemma_generated_rows(seed, MAP_H - 1);
}

/// In a generated map a tile is open water exactly when it lies within the
/// radius of one of the four lakes — centred at (15, 12) with radius 5, at
/// (45, 40) with radius 4, at (10, 50) with radius 3 and at (50, 15) with
/// radius 4 — and no dirt road (rows 32 and 33 from column 5 to 54, columns
/// 32 and 33 from row 10 to 54) crosses it.
pub proof fn lemma_lakes_are_water(x: int, y: int)
    requires
        0 <= x < MAP_W,
        0 <= y < MAP_H,
    ensures
        generated_tile(x, y) == TileType::Water <==> {
            &&& ((x - 15) * (x - 15) + (y - 12) * (y - 12) <= 25 || (x - 45) * (x - 45) + (y - 40) * (y
                - 40) <= 16 || (x - 10) * (x - 10) + (y - 50) * (y - 50) <= 9 || (x - 50) * (x - 50) + (y
                - 15) * (y - 15) <= 16)
            &&& !((y == 32 || y == 33) && 5 <= x <= 54)
            &&& !((x == 32 || x == 33) && 10 <= y <= 54)
        },
{
    assert(in_spawn_square(x, y) ==> !in_lake(x, y)) by (nonlinear_arith)
        requires
            in_spawn_square(x, y) ==> 98 <= x <= 102 && 98 <= y <= 102,
    ;
}

/// The other terrain of a generated map, stated from the layout: the 5x5
/// square round the spawn point (100, 100) is grass; elsewhere the two 4x3
/// stone patches at (25, 25) and (48, 30) are stone except where a lake's
/// water lies and no road crosses; the dirt roads (rows 32 and 33 from
/// column 5 to 54, columns 32 and 33 from row 10 to 54) are dirt; and the
/// one-tile ring round each lake is sand.
pub proof fn lemma_generated_terrain(x: int, y: int)
    requires
        0 <= x < MAP_W,
        0 <= y < MAP_H,
    ensures
        ({
            let lake = (x - 15) * (x - 15) + (y - 12) * (y - 12) <= 25 || (x - 45) * (x - 45) + (y - 40) * (y - 40)
                <= 16 || (x - 10) * (x - 10) + (y - 50) * (y - 50) <= 9 || (x - 50) * (x - 50) + (y - 15) * (y
                - 15) <= 16;
            let shore = (x - 15) * (x - 15) + (y - 12) * (y - 12) <= 36 || (x - 45) * (x - 45) + (y - 40) * (y
                - 40) <= 25 || (x - 10) * (x - 10) + (y - 50) * (y - 50) <= 16 || (x - 50) * (x - 50) + (y - 15)
                * (y - 15) <= 25;
            let road = ((y == 32 || y == 33) && 5 <= x <= 54) || ((x == 32 || x == 33) && 10 <= y <= 54);
            let stone = (25 <= x <= 28 && 25 <= y <= 27) || (48 <= x <= 51 && 30 <= y <= 32);
            let spawn = 98 <= x <= 102 && 98 <= y <= 102;
            &&& spawn ==> generated_tile(x, y) == TileType::Grass
            &&& !spawn && stone && (road || !lake) ==> generated_tile(x, y) == TileType::Stone
            &&& !spawn && !stone && road ==> generated_tile(x, y) == TileType::Dirt
            &&& !spawn && !lake && shore && !road && !stone ==> generated_tile(x, y) == TileType::Sand
            &&& !spawn && !shore && !road && !stone ==> generated_tile(x, y) == TileType::Grass
        }),
{
}

/// Trees and rocks are scattered by the low 16 bits `h` of the tile's
/// seeded hash taken as a fraction of 65535: a tree below 8 percent, a rock
/// from 8 up to below 10 percent, on grass away from the spawn point only.
pub proof fn lemma_object_fractions(seed: u32, x: int, y: int)
    requires
        0 <= x < MAP_W,
        0 <= y < MAP_H,
    ensures
        ({
            let h = (tile_hash(x as u32, y as u32, (seed + 100) as u32) & 0xFFFFu32) as int;
            let open = terrain(x, y) == TileType::Grass && !(-3 <= x - 100 <= 3 && -3 <= y - 100 <= 3);
            &&& (generated_object(seed, x, y) matches Some(o) && o.kind == ObjectKind::Tree) <==> open && 100 * h < 8
                * 65535
            &&& (generated_object(seed, x, y) matches Some(o) && o.kind == ObjectKind::Rock) <==> open && 8 * 65535
                <= 100 * h && 100 * h < 10 * 65535
            &&& generated_object(seed, x, y) matches Some(o) ==> o.tile_x == x && o.tile_y == y && o.alive && o.health
                == (if o.kind == ObjectKind::Tree { 3u32 } else { 5u32 })
        }),
{
}

/// Every object of a generated map is a living tree or rock standing on
/// grass inside the map's border, at least 4 tiles from the spawn point on
/// some axis.
pub proof fn lemma_generated_objects_placed(seed: u32)
    ensures
        forall|i: int|
            0 <= i < generated_objects(seed).len() ==> properly_placed(
                #[trigger] generated_objects(seed)[i],
            ),
{
    lemma_generated_rows(seed, MAP_H - 1);
}

/// In a generated map the hero can stand anywhere on the 5x5 spawn square.
pub proof fn lemma_generated_spawn_walkable(map: WorldMap, seed: u32, x: int, y: int)
    requires
        map.wf(),
        forall|i: int, j: int|
            0 <= i < MAP_W && 0 <= j < MAP_H ==> #[trigger] map.tile(i, j) == generated_tile(i, j),
        map.objects@ == generated_objects(seed),
        in_spawn_square(x, y),
    ensures
        map.walkable(x, y),
{
    lemma_generated_objects_placed(seed);
    assert(map.tile(x, y) == generated_tile(x, y));
    assert forall|i: int| 0 <= i < map.objects@.len() implies !#[trigger] blocks(
        map.objects@[i],
        x,
        y,
    ) by {
        assert(properly_placed(generated_objects(seed)[i]));
    }
}

impl WorldMap {
    /// A tile that something stands in the way on is not walkable, and
    /// `first_blocker` finds such a thing exactly when there is one.
    pub proof fn lemma_blocker_not_walkable(&self, x: int, y: int)
        ensures
            self.first_blocker(x, y) matches Some(i) ==> {
                &&& 0 <= i < self.objects@.len()
                &&& blocks(self.objects@[i], x, y)
                &&& !self.walkable(x, y)
            },
            self.first_blocker(x, y) is None ==> forall|i: int|
                0 <= i < self.objects@.len() ==> !#[trigger] blocks(self.objects@[i], x, y),
    {
        if exists|i: int| 0 <= i < self.objects@.len() && #[trigger] blocks(self.objects@[i], x, y) {
            let w = choose|i: int| 0 <= i < self.objects@.len() && #[trigger] blocks(self.objects@[i], x, y);
            lemma_first_index_exists(self.objects@, x, y, w);
        }
    }

    /// The tile chosen to stand on next to a target is a walkable neighbour
    /// of the target, and no walkable neighbour is nearer to the hero. When
    /// none is chosen, no neighbour is walkable.
    pub proof fn lemma_best_adjacent(&self, tx: int, ty: int, hx: int, hy: int, k: int)
        requires
            0 <= k <= 4,
        ensures
            self.best_adjacent(tx, ty, hx, hy, k) matches Some(p) ==> {
                &&& self.walkable(p.0, p.1)
                &&& manhattan(tx, ty, p.0, p.1) == 1
                &&& forall|j: int|
                    0 <= j < k && #[trigger] self.walkable(neighbour(tx, ty, j).0, neighbour(tx, ty, j).1)
                        ==> manhattan(hx, hy, p.0, p.1) <= manhattan(
                        hx,
                        hy,
                        neighbour(tx, ty, j).0,
                        neighbour(tx, ty, j).1,
                    )
            },
            self.best_adjacent(tx, ty, hx, hy, k) is None ==> forall|j: int|
                0 <= j < k ==> !#[trigger] self.walkable(neighbour(tx, ty, j).0, neighbour(tx, ty, j).1),
        decreases k,
    {
        if k > 0 {
            self.lemma_best_adjacent(tx, ty, hx, hy, k - 1);
        }
    }
}

proof fn lemma_first_index_exists(s: Seq<WorldObject>, x: int, y: int, w: int)
    requires
        0 <= w < s.len(),
        blocks(s[w], x, y),
    ensures
        exists|i: int|
            0 <= i < s.len() && #[trigger] blocks(s[i], x, y) && forall|j: int|
                0 <= j < i ==> !#[trigger] blocks(s[j], x, y),
    decreases w,
{
    if exists|j: int| 0 <= j < w && #[trigger] blocks(s[j], x, y) {
        let j = choose|j: int| 0 <= j < w && #[trigger] blocks(s[j], x, y);
        lemma_first_index_exists(s, x, y, j);
    } else {
        assert(blocks(s[w], x, y));
    }
}

} // verus!
