//! Client-side decisions: the login form, the HUD buttons, and where a
//! click on the world sends the player.
use vstd::prelude::*;
use crate::world::{WorldMap, MAP_W, MAP_H, is_generated_map, is_tutorial_map};
use crate::pathfind::{astar, valid_walk, reachable, no_shorter_walk, astar_walk};

verus! {

#[derive(Clone, Copy, PartialEq, Eq, Structural, Debug)]
pub enum GameState {
    Login,
    Connecting,
    Playing,
}

/// Letters and digits of the ASCII range.
pub open spec fn is_ascii_alnum(c: char) -> bool {
    ('a' <= c && c <= 'z') || ('A' <= c && c <= 'Z') || ('0' <= c && c <= '9')
}

/// An ASCII upper-case letter made lower case; other characters unchanged.
pub open spec fn ascii_lower(c: char) -> char {
    if 'A' <= c && c <= 'Z' {
        ((c as u32) + 32) as char
    } else {
        c
    }
}

/// A key name that is a single ASCII character (one byte long).
pub open spec fn single_ascii_key(key: Seq<char>) -> bool {
    key.len() == 1 && (key[0] as u32) < 128
}

/// The longest name that can be typed.
pub const MAX_NAME_LEN: usize = 12;

/// The name after a key press on the login screen other than Enter:
/// Backspace deletes the last character, a single letter, digit or space is
/// appended (lower case) while the name is shorter than 12, and any other key
/// changes nothing.
pub open spec fn name_after_key(name: Seq<char>, key: Seq<char>) -> Seq<char> {
    if key == "Backspace"@ {
        if name.len() > 0 {
            name.drop_last()
        } else {
            name
        }
    } else if single_ascii_key(key) && name.len() < MAX_NAME_LEN && (is_ascii_alnum(key[0]) || key[0]
        == ' ') {
        name.push(ascii_lower(key[0]))
    } else {
        name
    }
}

/// Typing a character that the form accepts and then Backspace leaves the
/// name as it was.
pub proof fn lemma_backspace_undoes_typing(name: Seq<char>, key: Seq<char>)
    requires
        single_ascii_key(key),
        is_ascii_alnum(key[0]) || key[0] == ' ',
        name.len() < MAX_NAME_LEN,
    ensures
        name_after_key(name_after_key(name, key), "Backspace"@) == name,
{
    reveal_strlit("Backspace");
    assert(key != "Backspace"@);
    assert(name.push(ascii_lower(key[0])).drop_last() =~= name);
}

/// The login screen: the state of the game, the name being typed, and the
/// connection the player asked for (their name, and whether to join the
/// tutorial).
pub struct LoginForm {
    pub state: GameState,
    pub username: Vec<char>,
    pub connection_requested: Option<(Vec<char>, bool)>,
}

/// The buttons of the login screen that a click can hit.
#[derive(Clone, Copy, PartialEq, Eq, Structural, Debug)]
pub enum LoginAction {
    Join,
    Tutorial,
    Nowhere,
}

fn str_is(key: &str, expected: &str) -> (r: bool)
    ensures
        r == (key@ == expected@),
{
    let n = key.unicode_len();
    let m = expected.unicode_len();
    if n != m {
        return false;
    }
    let mut i: usize = 0;
    while i < n
        invariant
            n == key@.len(),
            m == expected@.len(),
            n == m,
            i <= n,
            forall|j: int| 0 <= j < i ==> key@[j] == expected@[j],
        decreases n - i,
    {
        if key.get_char(i) != expected.get_char(i) {
            return false;
        }
        i = i + 1;
    }
    assert(key@ =~= expected@);
    true
}

fn clone_chars(v: &Vec<char>) -> (r: Vec<char>)
    ensures
        r@ == v@,
{
    let mut r: Vec<char> = Vec::new();
    let mut i: usize = 0;
    while i < v.len()
        invariant
            i <= v@.len(),
            r@ == v@.subrange(0, i as int),
        decreases v@.len() - i,
    {
        r.push(v[i]);
        i = i + 1;
    }
    assert(r@ =~= v@);
    r
}

impl LoginForm {
    /// The form as the game starts: on the login screen, with no name typed.
    pub fn new() -> (r: LoginForm)
        ensures
            r.state == GameState::Login,
            r.username@ == Seq::<char>::empty(),
            r.connection_requested is None,
    {
        LoginForm { state: GameState::Login, username: Vec::new(), connection_requested: None }
    }

    /// Handles a key event. Only key presses on the login screen count:
    /// Backspace deletes the last character, Enter asks to join the world
    /// when a name has been typed, and a single letter, digit or space is
    /// appended (lower case) while the name is shorter than 12.
    pub fn on_key(&mut self, key: &str, down: bool)
        ensures
            !down || old(self).state != GameState::Login ==> *final(self) == *old(self),
            down && old(self).state == GameState::Login && key@ != "Enter"@ ==> final(self).username@
                == name_after_key(old(self).username@, key@),
            down && old(self).state == GameState::Login && key@ == "Backspace"@ ==> {
                &&& final(self).username@ == (if old(self).username@.len() > 0 {
                    old(self).username@.drop_last()
                } else {
                    old(self).username@
                })
                &&& final(self).state == old(self).state
                &&& final(self).connection_requested == old(self).connection_requested
            },
            down && old(self).state == GameState::Login && key@ == "Enter"@ ==> {
                &&& final(self).username@ == old(self).username@
                &&& old(self).username@.len() > 0 ==> {
                    &&& final(self).state == GameState::Connecting
                    &&& final(self).connection_requested matches Some(req) && req.0@ == old(
                        self,
                    ).username@ && !req.1
                }
                &&& old(self).username@.len() == 0 ==> *final(self) == *old(self)
            },
            down && old(self).state == GameState::Login && key@ != "Backspace"@ && key@ != "Enter"@
                ==> {
                &&& final(self).state == old(self).state
                &&& final(self).connection_requested == old(self).connection_requested
                &&& final(self).username@ == (if single_ascii_key(key@) && old(self).username@.len()
                    < MAX_NAME_LEN && (is_ascii_alnum(key@[0]) || key@[0] == ' ') {
                    old(self).username@.push(ascii_lower(key@[0]))
                } else {
                    old(self).username@
                })
            },
    {
        proof {
            reveal_strlit("Backspace");
            reveal_strlit("Enter");
            assert("Enter"@.len() != "Backspace"@.len());
        }
        if !down {
            return;
        }
        if self.state != GameState::Login {
            return;
        }
        if str_is(key, "Backspace") {
            self.username.pop();
        } else if str_is(key, "Enter") {
            if self.username.len() > 0 {
                self.connection_requested = Some((clone_chars(&self.username), false));
                self.state = GameState::Connecting;
            }
        } else if key.unicode_len() == 1 {
            let c = key.get_char(0);
            let code = c as u32;
            if code < 128 && self.username.len() < MAX_NAME_LEN {
                let alnum = ('a' <= c && c <= 'z') || ('A' <= c && c <= 'Z') || ('0' <= c && c
                    <= '9');
                if alnum || c == ' ' {
                    let lower = if 'A' <= c && c <= 'Z' {
                        char_from_ascii((code + 32) as u8)
                    } else {
                        c
                    };
                    self.username.push(lower);
                }
            }
        }
    }

    /// The server accepted the join: the game starts.
    pub fn on_welcome(&mut self)
        ensures
            final(self).state == GameState::Playing,
            final(self).username == old(self).username,
            final(self).connection_requested == old(self).connection_requested,
    {
        self.state = GameState::Playing;
    }

    /// Acts on a click on a login-screen button: Join asks to enter the
    /// world under the typed name (when there is one); Tutorial asks to enter
    /// the tutorial, as "learner" when no name was typed.
    pub fn apply_login_action(&mut self, action: LoginAction)
        ensures
            action == LoginAction::Nowhere || (action == LoginAction::Join && old(self).username@.len()
                == 0) ==> *final(self) == *old(self),
            action == LoginAction::Join && old(self).username@.len() > 0 ==> {
                &&& final(self).state == GameState::Connecting
                &&& final(self).username@ == old(self).username@
                &&& final(self).connection_requested matches Some(req) && req.0@ == old(
                    self,
                ).username@ && !req.1
            },
            action == LoginAction::Tutorial ==> {
                &&& final(self).state == GameState::Connecting
                &&& final(self).username@ == old(self).username@
                &&& final(self).connection_requested matches Some(req) && req.1 && req.0@ == (if old(
                    self,
                ).username@.len() == 0 {
                    seq!['l', 'e', 'a', 'r', 'n', 'e', 'r']
                } else {
                    old(self).username@
                })
            },
    {
        match action {
            LoginAction::Join => {
                if self.username.len() > 0 {
                    self.connection_requested = Some((clone_chars(&self.username), false));
                    self.state = GameState::Connecting;
                }
            },
            LoginAction::Tutorial => {
                let name = if self.username.len() == 0 {
                    let mut n: Vec<char> = Vec::new();
                    n.push('l');
                    n.push('e');
                    n.push('a');
                    n.push('r');
                    n.push('n');
                    n.push('e');
                    n.push('r');
                    n
                } else {
                    clone_chars(&self.username)
                };
                self.connection_requested = Some((name, true));
                self.state = GameState::Connecting;
            },
            LoginAction::Nowhere => {},
        }
    }
}

fn char_from_ascii(b: u8) -> (c: char)
    requires
        b < 128,
    ensures
        c as u32 == b as u32,
{
    b as char
}


/// The map that the server's welcome sets up: the tutorial island for a
/// player who joined the tutorial, else the world generated from the seed
/// the server sent, or nothing when that seed is too large to generate from.
pub fn welcome_map(map_seed: u32, is_tutorial: bool) -> (r: Option<WorldMap>)
    ensures
        is_tutorial ==> (r matches Some(m) && is_tutorial_map(m)),
        !is_tutorial && map_seed <= u32::MAX - 100 ==> (r matches Some(m) && is_generated_map(m, map_seed)),
        !is_tutorial && map_seed > u32::MAX - 100 ==> r is None,
{
    if is_tutorial {
        Some(WorldMap::generate_tutorial())
    } else if map_seed <= u32::MAX - 100 {
        Some(WorldMap::generate(map_seed))
    } else {
        None
    }
}

/// Which panels of the HUD are open.
pub struct HudState {
    pub inventory_open: bool,
    pub skills_open: bool,
    pub map_open: bool,
}

/// What a click on the playing screen did.
#[derive(Clone, Copy, PartialEq, Eq, Structural, Debug)]
pub enum HudClick {
    /// The inventory button was hit and the inventory panel toggled.
    InventoryButton,
    /// The skills button was hit and the skills panel toggled.
    SkillsButton,
    /// The map button was hit and the world map toggled.
    MapButton,
    /// The world map was open: the click closed it.
    CloseMap,
    /// The click falls on the world.
    World,
}

/// Side of a HUD button on screen, and the gap between buttons.
pub const HUD_BUTTON: i32 = 36;
pub const HUD_GAP: i32 = 4;

/// `(sx, sy)` falls in the square of side `size` whose top-left corner is `(bx, by)`.
pub open spec fn in_square(sx: int, sy: int, bx: int, by: int, size: int) -> bool {
    bx <= sx < bx + size && by <= sy < by + size
}

/// The inventory button: bottom right, third from the right edge.
pub open spec fn on_inventory_button(sx: int, sy: int, w: int, h: int) -> bool {
    in_square(sx, sy, w - 3 * (HUD_BUTTON + HUD_GAP), h - HUD_BUTTON - HUD_GAP, HUD_BUTTON as int)
}

/// The skills button: just right of the inventory button (its hit area
/// also takes in the gap after it).
pub open spec fn on_skills_button(sx: int, sy: int, w: int, h: int) -> bool {
    let px = w - 3 * (HUD_BUTTON + HUD_GAP);
    let py = h - HUD_BUTTON - HUD_GAP;
    &&& px + HUD_BUTTON + HUD_GAP <= sx < px + 2 * (HUD_BUTTON + HUD_GAP)
    &&& py <= sy < py + HUD_BUTTON
}

/// The map button: top right.
pub open spec fn on_map_button(sx: int, sy: int, w: int) -> bool {
    in_square(sx, sy, w - HUD_BUTTON - HUD_GAP, 8, HUD_BUTTON as int)
}

/// The outcome of a click at `(sx, sy)` on a `w` x `h` screen with the HUD
/// in state `before`: the state `after` and what was hit. The inventory and
/// skills buttons toggle their panel (opening one closes the other), the map
/// button toggles the world map, and any other click closes an open map or
/// else falls on the world.
pub open spec fn hud_click_outcome(before: HudState, sx: int, sy: int, w: int, h: int, after: HudState, r: HudClick) -> bool {
    let inv = on_inventory_button(sx, sy, w, h);
    let skills = !inv && on_skills_button(sx, sy, w, h);
    let map = !inv && !on_skills_button(sx, sy, w, h) && on_map_button(sx, sy, w);
    &&& inv ==> {
        &&& r == HudClick::InventoryButton
        &&& after.inventory_open == !before.inventory_open
        &&& after.skills_open == (before.skills_open && !after.inventory_open)
        &&& after.map_open == before.map_open
    }
    &&& skills ==> {
        &&& r == HudClick::SkillsButton
        &&& after.skills_open == !before.skills_open
        &&& after.inventory_open == (before.inventory_open && !after.skills_open)
        &&& after.map_open == before.map_open
    }
    &&& map ==> {
        &&& r == HudClick::MapButton
        &&& after.map_open == !before.map_open
        &&& after.inventory_open == before.inventory_open
        &&& after.skills_open == before.skills_open
    }
    &&& !inv && !skills && !map ==> {
        &&& r == (if before.map_open { HudClick::CloseMap } else { HudClick::World })
        &&& !after.map_open
        &&& after.inventory_open == before.inventory_open
        &&& after.skills_open == before.skills_open
    }
}

impl HudState {
    /// All panels closed.
    pub fn new() -> (r: HudState)
        ensures
            !r.inventory_open && !r.skills_open && !r.map_open,
    {
        HudState { inventory_open: false, skills_open: false, map_open: false }
    }

    /// Handles a click at `(sx, sy)` on a `w` x `h` screen. The inventory
    /// and skills buttons toggle their panel (opening one closes the other),
    /// the map button toggles the world map, and any other click closes an
    /// open map or else falls on the world.
    pub fn handle_click(&mut self, sx: i32, sy: i32, w: i32, h: i32) -> (r: HudClick)
        requires
            w >= 0,
            h >= 0,
        ensures
            hud_click_outcome(*old(self), sx as int, sy as int, w as int, h as int, *final(self), r),
            w - 120 <= sx < w - 84 && h - 40 <= sy < h - 4 ==> r == HudClick::InventoryButton
                && final(self).inventory_open != old(self).inventory_open,
            w - 80 <= sx < w - 40 && h - 40 <= sy < h - 4 ==> r == HudClick::SkillsButton
                && final(self).skills_open != old(self).skills_open,
            w - 40 <= sx < w - 4 && 8 <= sy < 44 && sy < h - 40 ==> r == HudClick::MapButton
                && final(self).map_open != old(self).map_open,
            sx < w - 120 ==> !final(self).map_open && final(self).inventory_open == old(self).inventory_open
                && final(self).skills_open == old(self).skills_open && (r == HudClick::World
                || r == HudClick::CloseMap),
    {
        let p_start_x = w - 3 * (HUD_BUTTON + HUD_GAP);
        let p_start_y = h - HUD_BUTTON - HUD_GAP;
        if sx >= p_start_x && sx < p_start_x + HUD_BUTTON && sy >= p_start_y && sy < p_start_y
            + HUD_BUTTON {
            self.inventory_open = !self.inventory_open;
            if self.inventory_open {
                self.skills_open = false;
            }
            return HudClick::InventoryButton;
        }
        if sx >= p_start_x + HUD_BUTTON + HUD_GAP && sx < p_start_x + 2 * (HUD_BUTTON + HUD_GAP)
            && sy >= p_start_y && sy < p_start_y + HUD_BUTTON {
            self.skills_open = !self.skills_open;
            if self.skills_open {
                self.inventory_open = false;
            }
            return HudClick::SkillsButton;
        }
        let map_btn_x = w - HUD_BUTTON - HUD_GAP;
        let map_btn_y: i32 = 8;
        if sx >= map_btn_x && sx < map_btn_x + HUD_BUTTON && sy >= map_btn_y && sy < map_btn_y
            + HUD_BUTTON {
            self.map_open = !self.map_open;
            return HudClick::MapButton;
        }
        if self.map_open {
            self.map_open = false;
            return HudClick::CloseMap;
        }
        HudClick::World
    }
}

/// The tile a walk should end on for a click on `target`: the target itself
/// when it is walkable, else the best walkable neighbour of it for a hero at
/// `hero`, else none.
pub open spec fn walk_goal(map: &WorldMap, hero: (usize, usize), target: (usize, usize)) -> Option<(usize, usize)> {
    if map.walkable(target.0 as int, target.1 as int) {
        Some(target)
    } else {
        match map.best_adjacent(target.0 as int, target.1 as int, hero.0 as int, hero.1 as int, 4) {
            Some(p) => Some((p.0 as usize, p.1 as usize)),
            None => None,
        }
    }
}

/// The tile the server walks a player on `start` towards for a click on
/// `target`: next to it when an object stands there, onto it when it is
/// walkable, and none otherwise.
pub open spec fn server_goal(map: &WorldMap, start: (usize, usize), target: (usize, usize)) -> Option<(usize, usize)> {
    if map.first_blocker(target.0 as int, target.1 as int) is Some {
        match map.best_adjacent(target.0 as int, target.1 as int, start.0 as int, start.1 as int, 4) {
            Some(p) => Some((p.0 as usize, p.1 as usize)),
            None => None,
        }
    } else if map.walkable(target.0 as int, target.1 as int) {
        Some(target)
    } else {
        None
    }
}

/// The result of asking for a walk from `hero` towards `goal` (if any): the
/// search's walk to the goal (a shortest one) when one exists and the hero
/// is not already there, and nothing otherwise.
pub open spec fn walk_outcome(
    map: &WorldMap,
    hero: (usize, usize),
    goal: Option<(usize, usize)>,
    r: Option<Vec<(usize, usize)>>,
) -> bool {
    match goal {
        None => r is None,
        Some(gl) => {
            &&& r is None <==> (hero == gl || !reachable(map, hero, gl))
            &&& r matches Some(p) ==> p@.len() > 0 && valid_walk(map, hero, p@) && p@.last() == gl
                && no_shorter_walk(map, hero, gl, p@.len() as int) && p@ == astar_walk(map, hero, gl)
        },
    }
}

proof fn lemma_walk_goal_walkable(map: &WorldMap, hero: (usize, usize), target: (usize, usize))
    requires
        map.wf(),
    ensures
        walk_goal(map, hero, target) matches Some(gl) ==> map.walkable(gl.0 as int, gl.1 as int),
{
    map.lemma_best_adjacent(target.0 as int, target.1 as int, hero.0 as int, hero.1 as int, 4);
}

fn walk_towards(map: &WorldMap, hero: (usize, usize), goal: (usize, usize)) -> (r: Option<
    Vec<(usize, usize)>,
>)
    requires
        map.wf(),
        map.walkable(goal.0 as int, goal.1 as int),
    ensures
        walk_outcome(map, hero, Some(goal), r),
{
    let path = astar(map, hero, goal);
    if path.len() > 0 {
        Some(path)
    } else {
        None
    }
}

/// Where the client shows its own hero walking for a click on tile
/// `clicked` (clamped into the map): towards the tile, or next to it when it
/// cannot be stood on.
pub fn plan_local_path(map: &WorldMap, hero: (usize, usize), clicked: (usize, usize)) -> (r: Option<
    Vec<(usize, usize)>,
>)
    requires
        map.wf(),
        hero.0 <= i32::MAX,
        hero.1 <= i32::MAX,
    ensures
        walk_outcome(
            map,
            hero,
            walk_goal(
                map,
                hero,
                (
                    if clicked.0 < MAP_W {
                        clicked.0
                    } else {
                        (MAP_W - 1) as usize
                    },
                    if clicked.1 < MAP_H {
                        clicked.1
                    } else {
                        (MAP_H - 1) as usize
                    },
                ),
            ),
            r,
        ),
{
    let tx = if clicked.0 < MAP_W {
        clicked.0
    } else {
        MAP_W - 1
    };
    let ty = if clicked.1 < MAP_H {
        clicked.1
    } else {
        MAP_H - 1
    };
    proof {
        lemma_walk_goal_walkable(map, hero, (tx, ty));
    }
    if map.is_walkable(tx, ty) {
        walk_towards(map, hero, (tx, ty))
    } else {
        match map.adjacent_walkable_tile(tx, ty, hero.0, hero.1) {
            Some(adj) => walk_towards(map, hero, adj),
            None => None,
        }
    }
}

/// Where the server sends a player standing on `start` who clicked tile
/// `target`: nothing when the target is off the map or is where the player
/// stands; next to the target when an object stands on it; onto it when it
/// is walkable; nothing otherwise.
pub fn plan_server_path(map: &WorldMap, start: (usize, usize), target: (usize, usize)) -> (r: Option<
    Vec<(usize, usize)>,
>)
    requires
        map.wf(),
        start.0 <= i32::MAX,
        start.1 <= i32::MAX,
    ensures
        target.0 >= MAP_W || target.1 >= MAP_H || target == start ==> r is None,
        target.0 < MAP_W && target.1 < MAP_H && target != start ==> walk_outcome(
            map,
            start,
            server_goal(map, start, target),
            r,
        ),
{
    if target.0 >= MAP_W || target.1 >= MAP_H {
        return None;
    }
    if target.0 == start.0 && target.1 == start.1 {
        return None;
    }
    proof {
        map.lemma_best_adjacent(target.0 as int, target.1 as int, start.0 as int, start.1 as int, 4);
    }
    if map.object_index_at(target.0, target.1).is_some() {
        match map.adjacent_walkable_tile(target.0, target.1, start.0, start.1) {
            Some(adj) => walk_towards(map, start, adj),
            None => None,
        }
    } else if map.is_walkable(target.0, target.1) {
        walk_towards(map, start, target)
    } else {
        None
    }
}

/// Two outcomes of walking from `hero` towards the same goal agree: both
/// found a walk or neither did, and the walks found are the same.
pub proof fn lemma_walk_outcomes_agree(
    map: &WorldMap,
    hero: (usize, usize),
    goal: Option<(usize, usize)>,
    r1: Option<Vec<(usize, usize)>>,
    r2: Option<Vec<(usize, usize)>>,
)
    requires
        walk_outcome(map, hero, goal, r1),
        walk_outcome(map, hero, goal, r2),
    ensures
        r1 is Some <==> r2 is Some,
        r1 matches Some(p1) ==> (r2 matches Some(p2) && p1@ == p2@),
{
    if let (Some(p1), Some(p2)) = (r1, r2) {
        assert(valid_walk(map, hero, p2@));
        assert(valid_walk(map, hero, p1@));
    }
}

/// For a click on a tile of the map that the player does not stand on and
/// that is walkable or has an object on it, the client's own prediction
/// heads for the same tile as the server's path.
pub proof fn lemma_prediction_heads_for_server_goal(map: &WorldMap, hero: (usize, usize), target: (usize, usize))
    requires
        target.0 < MAP_W,
        target.1 < MAP_H,
        target != hero,
        map.walkable(target.0 as int, target.1 as int) || map.first_blocker(target.0 as int, target.1 as int) is Some,
    ensures
        walk_goal(map, hero, target) == server_goal(map, hero, target),
{
    map.lemma_blocker_not_walkable(target.0 as int, target.1 as int);
}

/// The client's predicted walk for a click on a map tile that the player
/// does not stand on, and that is walkable or has an object on it, agrees
/// with the server's walk for that click: both exist or neither does, and
/// they are the same walk.
pub proof fn lemma_prediction_matches_server(
    map: &WorldMap,
    hero: (usize, usize),
    target: (usize, usize),
    predicted: Option<Vec<(usize, usize)>>,
    served: Option<Vec<(usize, usize)>>,
)
    requires
        target.0 < MAP_W,
        target.1 < MAP_H,
        target != hero,
        map.walkable(target.0 as int, target.1 as int) || map.first_blocker(target.0 as int, target.1 as int) is Some,
        walk_outcome(map, hero, walk_goal(map, hero, target), predicted),
        walk_outcome(map, hero, server_goal(map, hero, target), served),
    ensures
        predicted is Some <==> served is Some,
        predicted matches Some(p1) ==> (served matches Some(p2) && p1@ == p2@),
{
    lemma_prediction_heads_for_server_goal(map, hero, target);
    lemma_walk_outcomes_agree(map, hero, walk_goal(map, hero, target), predicted, served);
}

/// Opening one side panel closes the other: a click never leaves both the
/// inventory and the skills panel open unless both were open before.
pub proof fn lemma_side_panels_exclusive(
    before: HudState,
    after: HudState,
    sx: int,
    sy: int,
    w: int,
    h: int,
    r: HudClick,
)
    requires
        !(before.inventory_open && before.skills_open),
        hud_click_outcome(before, sx, sy, w, h, after, r),
    ensures
        !(after.inventory_open && after.skills_open),
{
}

} // verus!
