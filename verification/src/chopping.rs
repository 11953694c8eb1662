//! Woodcutting in the single-player game: choosing what a click on the
//! world means, and the effect of one chop on a tree.
use vstd::prelude::*;
use crate::world::{WorldMap, WorldObject, ObjectKind, MAP_W, MAP_H};
use crate::pathfind::{astar, valid_walk, reachable, no_shorter_walk, astar_walk};
use crate::item::{Inventory, ItemId, count_in};
use crate::skills::{WoodcuttingSkill, xp_threshold, skill_consistent};
use crate::client::{walk_outcome, HudState};

verus! {

/// Experience given for felling a tree.
pub const CHOP_XP: u32 = 25;

/// What a click on the world asks the hero to do.
pub enum ClickPlan {
    /// Walk along `path` (possibly empty when already in place) and chop
    /// the tree at index `target_idx` of the map's objects.
    Chop { target_idx: usize, path: Vec<(usize, usize)> },
    /// Stop chopping and walk along the path, if one was found.
    Walk { route: Option<Vec<(usize, usize)>> },
}

/// A click on `tile` starts chopping when a living tree stands in the way
/// there and the best tile next to it is where the hero stands or can be
/// walked to.
pub open spec fn chop_possible(map: &WorldMap, hero: (usize, usize), tile: (usize, usize)) -> bool {
    match map.first_blocker(tile.0 as int, tile.1 as int) {
        Some(i) => map.objects@[i].kind == ObjectKind::Tree && match map.best_adjacent(
            tile.0 as int,
            tile.1 as int,
            hero.0 as int,
            hero.1 as int,
            4,
        ) {
            Some(adj) => (hero.0 == adj.0 && hero.1 == adj.1) || reachable(
                map,
                hero,
                (adj.0 as usize, adj.1 as usize),
            ),
            None => false,
        },
        None => false,
    }
}

/// Chooses what a click on tile `tile` means for a hero on `hero`: when a
/// living tree stands there and a walkable tile next to it can be reached
/// (or the hero already stands on it), go there and chop; otherwise walk to
/// the clicked tile.
pub fn plan_click(map: &WorldMap, hero: (usize, usize), tile: (usize, usize)) -> (r: ClickPlan)
    requires
        map.wf(),
        map.objects_in_map(),
        hero.0 <= i32::MAX,
        hero.1 <= i32::MAX,
    ensures
        r matches ClickPlan::Chop { target_idx, path } ==> {
            &&& map.first_blocker(tile.0 as int, tile.1 as int) == Some(target_idx as int)
            &&& map.objects@[target_idx as int].kind == ObjectKind::Tree
            &&& map.best_adjacent(tile.0 as int, tile.1 as int, hero.0 as int, hero.1 as int, 4)
                matches Some(adj) && (path@.len() == 0 ==> hero.0 == adj.0 && hero.1 == adj.1) && (
            path@.len() > 0 ==> valid_walk(map, hero, path@) && path@.last().0 == adj.0
                && path@.last().1 == adj.1 && no_shorter_walk(
                map,
                hero,
                (adj.0 as usize, adj.1 as usize),
                path@.len() as int,
            )) && path@ == astar_walk(map, hero, (adj.0 as usize, adj.1 as usize))
        },
        r matches ClickPlan::Walk { route } ==> walk_outcome(
            map,
            hero,
            if map.walkable(tile.0 as int, tile.1 as int) {
                Some(tile)
            } else {
                None
            },
            route,
        ),
        chop_possible(map, hero, tile) <==> r is Chop,
{
    proof {
        map.lemma_best_adjacent(tile.0 as int, tile.1 as int, hero.0 as int, hero.1 as int, 4);
        map.lemma_blocker_not_walkable(tile.0 as int, tile.1 as int);
    }
    if let Some(idx) = map.object_index_at(tile.0, tile.1) {
        let obj = map.objects[idx];
        if obj.kind == ObjectKind::Tree && obj.alive {
            if let Some(adj) = map.adjacent_walkable_tile(tile.0, tile.1, hero.0, hero.1) {
                let path = astar(map, hero, adj);
                if path.len() > 0 || (hero.0 == adj.0 && hero.1 == adj.1) {
                    return ClickPlan::Chop { target_idx: idx, path };
                }
            }
        }
    }
    let path = astar(map, hero, tile);
    if path.len() > 0 {
        ClickPlan::Walk { route: Some(path) }
    } else {
        ClickPlan::Walk { route: None }
    }
}

/// The outcome of one chop.
#[derive(Clone, Copy, PartialEq, Eq, Structural, Debug)]
pub enum ChopHit {
    /// There is no object with that index: nothing happens.
    NoTarget,
    /// The object is already down: chopping stops.
    Stop,
    /// The tree lost one point of health and still stands.
    Hit,
    /// The tree fell: one log and 25 experience were gained.
    Felled,
}

/// An object after one chop: a living object with health left loses one
/// point, and falls when that was its last; any other object is unchanged.
pub open spec fn chopped(o: WorldObject) -> WorldObject {
    if !o.alive || o.health == 0 {
        o
    } else if o.health > 1 {
        WorldObject { health: (o.health - 1) as u32, ..o }
    } else {
        WorldObject { health: 0, alive: false, ..o }
    }
}

/// An object after `k` chops.
pub open spec fn chopped_times(o: WorldObject, k: nat) -> WorldObject
    decreases k,
{
    if k == 0 {
        o
    } else {
        chopped(chopped_times(o, (k - 1) as nat))
    }
}

/// A living object with `h >= 1` points of health still stands after fewer
/// than `h` chops, with `h - k` left, and has fallen after exactly `h`.
pub proof fn lemma_felled_after_health_chops(o: WorldObject, k: nat)
    requires
        o.alive,
        o.health >= 1,
        k <= o.health,
    ensures
        k < o.health ==> chopped_times(o, k) == (WorldObject { health: (o.health - k) as u32, ..o }),
        k == o.health ==> chopped_times(o, k) == (WorldObject { health: 0, alive: false, ..o }),
    decreases k,
{
    if k > 0 {
        lemma_felled_after_health_chops(o, (k - 1) as nat);
    }
}

/// One chop at object `idx`: a living object with health left loses one
/// point; when that was its last, it falls and the hero gains a log and
/// woodcutting experience.
pub fn chop_hit(
    map: &mut WorldMap,
    idx: usize,
    inventory: &mut Inventory,
    skill: &mut WoodcuttingSkill,
) -> (r: ChopHit)
    requires
        idx < old(map).objects@.len() && old(map).objects@[idx as int].alive && old(
            map,
        ).objects@[idx as int].health == 1 ==> {
            &&& count_in(old(inventory)@, ItemId::Logs) + 1 <= u32::MAX
            &&& old(skill).xp + CHOP_XP <= u32::MAX
            &&& exists|l: nat|
                l >= old(skill).level && old(skill).xp + CHOP_XP < #[trigger] xp_threshold(l + 1)
                    && xp_threshold(l + 1) <= u32::MAX
        },
    ensures
        final(map).tiles == old(map).tiles,
        final(map).objects@.len() == old(map).objects@.len(),
        old(map).wf() ==> final(map).wf(),
        old(map).objects_in_map() ==> final(map).objects_in_map(),
        forall|j: int|
            0 <= j < old(map).objects@.len() && !old(map).objects@[j].alive ==> !(
            #[trigger] final(map).objects@[j]).alive,
        forall|j: int|
            0 <= j < old(map).objects@.len() && j != idx ==> #[trigger] final(map).objects@[j]
                == old(map).objects@[j],
        idx >= old(map).objects@.len() ==> r == ChopHit::NoTarget && final(map).objects@ == old(
            map,
        ).objects@ && final(inventory)@ == old(inventory)@ && *final(skill) == *old(skill),
        idx < old(map).objects@.len() ==> final(map).objects@[idx as int] == chopped(
            old(map).objects@[idx as int],
        ),
        idx < old(map).objects@.len() ==> {
            let o = old(map).objects@[idx as int];
            let n = final(map).objects@[idx as int];
            &&& !o.alive || o.health == 0 ==> r == ChopHit::Stop && n == o
            &&& o.alive && o.health > 1 ==> r == ChopHit::Hit && n == WorldObject {
                health: (o.health - 1) as u32,
                ..o
            }
            &&& o.alive && o.health == 1 ==> r == ChopHit::Felled && n == WorldObject {
                health: 0,
                alive: false,
                ..o
            }
            &&& r != ChopHit::Felled ==> final(inventory)@ == old(inventory)@ && *final(skill)
                == *old(skill)
            &&& r == ChopHit::Felled ==> {
                &&& final(inventory)@ == old(inventory)@.insert(
                    ItemId::Logs,
                    (count_in(old(inventory)@, ItemId::Logs) + 1) as u32,
                )
                &&& final(skill).xp == old(skill).xp + CHOP_XP
                &&& final(skill).level >= old(skill).level
                &&& final(skill).xp < xp_threshold((final(skill).level + 1) as nat)
                &&& forall|l: nat|
                    old(skill).level <= l < final(skill).level ==> final(skill).xp
                        >= #[trigger] xp_threshold(l + 1)
                &&& skill_consistent(old(skill).xp as nat, old(skill).level as nat) ==> skill_consistent(
                    final(skill).xp as nat,
                    final(skill).level as nat,
                )
            }
        },
{
    if idx >= map.objects.len() {
        return ChopHit::NoTarget;
    }
    let mut obj = map.objects[idx];
    if !(obj.alive && obj.health > 0) {
        return ChopHit::Stop;
    }
    obj.health = obj.health - 1;
    if obj.health == 0 {
        obj.alive = false;
        map.objects.set(idx, obj);
        inventory.add(ItemId::Logs, 1);
        skill.add_xp(CHOP_XP);
        ChopHit::Felled
    } else {
        map.objects.set(idx, obj);
        ChopHit::Hit
    }
}

/// What a click on the single-player screen hits.
#[derive(Clone, Copy, PartialEq, Eq, Structural, Debug)]
pub enum SoloClick {
    /// The inventory button: the inventory panel was toggled.
    InventoryButton,
    /// The skills button: the skills panel was toggled.
    SkillsButton,
    /// An open panel or the portrait took the click.
    Absorbed,
    /// The click falls on the world.
    World,
}

/// Side of a single-player HUD button, and its margin from the screen edge.
pub const SOLO_BUTTON: i32 = 24;
pub const SOLO_MARGIN: i32 = 8;

/// The single-player inventory button: bottom right.
pub open spec fn on_solo_inventory_button(sx: int, sy: int, w: int, h: int) -> bool {
    let bx = w - SOLO_BUTTON - SOLO_MARGIN;
    let by = h - SOLO_BUTTON - SOLO_MARGIN;
    bx <= sx < bx + SOLO_BUTTON && by <= sy < by + SOLO_BUTTON
}

/// The single-player skills button: just above the inventory button.
pub open spec fn on_solo_skills_button(sx: int, sy: int, w: int, h: int) -> bool {
    let bx = w - SOLO_BUTTON - SOLO_MARGIN;
    let by = h - SOLO_BUTTON - SOLO_MARGIN - SOLO_BUTTON - 4;
    bx <= sx < bx + SOLO_BUTTON && by <= sy < by + SOLO_BUTTON
}

/// The open inventory panel (110 x 80, left of the buttons).
pub open spec fn on_solo_inventory_panel(sx: int, sy: int, w: int, h: int) -> bool {
    let px = w - 110 - SOLO_BUTTON - 16;
    let py = h - 80 - 8;
    px <= sx < px + 110 && py <= sy < py + 80
}

/// The open skills panel (120 x 50, left of the buttons).
pub open spec fn on_solo_skills_panel(sx: int, sy: int, w: int, h: int) -> bool {
    let px = w - 120 - SOLO_BUTTON - 16;
    let py = h - SOLO_BUTTON - 4 - 24 - 50 + 16;
    px <= sx < px + 120 && py <= sy < py + 50
}

/// The portrait in the top-left corner.
pub open spec fn on_solo_portrait(sx: int, sy: int) -> bool {
    sx < 52 && sy < 52
}

/// Handles a click at `(sx, sy)` on a `w` x `h` single-player screen: the
/// two buttons toggle their panels, a click on an open panel or on the
/// portrait is taken by it, and any other click falls on the world.
pub fn single_player_click(hud: &mut HudState, sx: i32, sy: i32, w: i32, h: i32) -> (r: SoloClick)
    requires
        w >= 0,
        h >= 0,
    ensures
        final(hud).map_open == old(hud).map_open,
        w - 32 <= sx < w - 8 && h - 32 <= sy < h - 8 ==> r == SoloClick::InventoryButton
            && final(hud).inventory_open != old(hud).inventory_open,
        w - 32 <= sx < w - 8 && h - 60 <= sy < h - 36 ==> r == SoloClick::SkillsButton
            && final(hud).skills_open != old(hud).skills_open,
        sx < 52 && sy < 52 && sx < w - 32 ==> r == SoloClick::Absorbed,
        sx < w - 160 && !(sx < 52 && sy < 52) ==> r == SoloClick::World && final(hud).inventory_open == old(
            hud,
        ).inventory_open && final(hud).skills_open == old(hud).skills_open,
        on_solo_inventory_button(sx as int, sy as int, w as int, h as int) ==> {
            &&& r == SoloClick::InventoryButton
            &&& final(hud).inventory_open == !old(hud).inventory_open
            &&& final(hud).skills_open == old(hud).skills_open
        },
        !on_solo_inventory_button(sx as int, sy as int, w as int, h as int)
            && on_solo_skills_button(sx as int, sy as int, w as int, h as int) ==> {
            &&& r == SoloClick::SkillsButton
            &&& final(hud).skills_open == !old(hud).skills_open
            &&& final(hud).inventory_open == old(hud).inventory_open
        },
        !on_solo_inventory_button(sx as int, sy as int, w as int, h as int)
            && !on_solo_skills_button(sx as int, sy as int, w as int, h as int) ==> {
            &&& final(hud).inventory_open == old(hud).inventory_open
            &&& final(hud).skills_open == old(hud).skills_open
            &&& r == (if (old(hud).inventory_open && on_solo_inventory_panel(
                sx as int,
                sy as int,
                w as int,
                h as int,
            )) || (old(hud).skills_open && on_solo_skills_panel(
                sx as int,
                sy as int,
                w as int,
                h as int,
            )) || on_solo_portrait(sx as int, sy as int) {
                SoloClick::Absorbed
            } else {
                SoloClick::World
            })
        },
{
    let btn_x = w - SOLO_BUTTON - SOLO_MARGIN;
    let inv_btn_y = h - SOLO_BUTTON - SOLO_MARGIN;
    let skills_btn_y = inv_btn_y - SOLO_BUTTON - 4;
    if sx >= btn_x && sx < btn_x + SOLO_BUTTON && sy >= inv_btn_y && sy < inv_btn_y + SOLO_BUTTON {
        hud.inventory_open = !hud.inventory_open;
        return SoloClick::InventoryButton;
    }
    if sx >= btn_x && sx < btn_x + SOLO_BUTTON && sy >= skills_btn_y && sy < skills_btn_y
        + SOLO_BUTTON {
        hud.skills_open = !hud.skills_open;
        return SoloClick::SkillsButton;
    }
    if hud.inventory_open {
        let px = w - 110 - SOLO_BUTTON - 16;
        let py = h - 80 - 8;
        if sx >= px && sx < px + 110 && sy >= py && sy < py + 80 {
            return SoloClick::Absorbed;
        }
    }
    if hud.skills_open {
        let px = w - 120 - SOLO_BUTTON - 16;
        let py = h - SOLO_BUTTON - 4 - 24 - 50 + 16;
        if sx >= px && sx < px + 120 && sy >= py && sy < py + 50 {
            return SoloClick::Absorbed;
        }
    }
    if sx < 52 && sy < 52 {
        return SoloClick::Absorbed;
    }
    SoloClick::World
}

} // verus!
