use game_core::chopping::{chop_hit, plan_click, single_player_click, ChopHit, ClickPlan, SoloClick, CHOP_XP};
use game_core::client::{
    plan_local_path, plan_server_path, welcome_map, GameState, HudClick, HudState, LoginAction, LoginForm,
    MAX_NAME_LEN,
};
use game_core::item::{Inventory, ItemId};
use game_core::pathfind::astar;
use game_core::protocol::{take_player_id, ObjectUpdate};
use game_core::skills::WoodcuttingSkill;
use game_core::world::{ObjectKind, TileType, WorldMap, WorldObject, MAP_H, MAP_W};

fn typed(form: &LoginForm) -> String {
    form.username.iter().collect()
}

fn press(form: &mut LoginForm, keys: &[&str]) {
    for k in keys {
        form.on_key(k, true);
    }
}

#[test]
fn login_form_starts_empty() {
    let form = LoginForm::new();
    assert_eq!(form.state, GameState::Login);
    assert!(form.username.is_empty());
    assert!(form.connection_requested.is_none());
}

#[test]
fn typing_lowercases_letters() {
    let mut form = LoginForm::new();
    press(&mut form, &["B", "o", "B", " ", "7"]);
    assert_eq!(typed(&form), "bob 7");
}

#[test]
fn other_keys_are_ignored() {
    let mut form = LoginForm::new();
    press(&mut form, &["a", "!", "Shift", "ArrowLeft", "é", "-", "b"]);
    assert_eq!(typed(&form), "ab");
}

#[test]
fn key_releases_are_ignored() {
    let mut form = LoginForm::new();
    form.on_key("a", false);
    form.on_key("Enter", false);
    assert!(form.username.is_empty());
    assert_eq!(form.state, GameState::Login);
}

#[test]
fn name_length_is_capped() {
    let mut form = LoginForm::new();
    for _ in 0..20 {
        form.on_key("x", true);
    }
    assert_eq!(form.username.len(), MAX_NAME_LEN);
    assert_eq!(MAX_NAME_LEN, 12);
}

#[test]
fn backspace_deletes_last_character() {
    let mut form = LoginForm::new();
    press(&mut form, &["a", "b", "Backspace"]);
    assert_eq!(typed(&form), "a");
    press(&mut form, &["Backspace", "Backspace"]);
    assert_eq!(typed(&form), "");
}

#[test]
fn enter_with_a_name_connects() {
    let mut form = LoginForm::new();
    press(&mut form, &["Z", "e", "d", "Enter"]);
    assert_eq!(form.state, GameState::Connecting);
    let (name, tutorial) = form.connection_requested.clone().unwrap();
    assert_eq!(name.iter().collect::<String>(), "zed");
    assert!(!tutorial);
}

#[test]
fn enter_without_a_name_does_nothing() {
    let mut form = LoginForm::new();
    form.on_key("Enter", true);
    assert_eq!(form.state, GameState::Login);
    assert!(form.connection_requested.is_none());
}

#[test]
fn keys_after_connecting_are_ignored() {
    let mut form = LoginForm::new();
    press(&mut form, &["a", "Enter", "b", "Backspace"]);
    assert_eq!(typed(&form), "a");
    assert_eq!(form.state, GameState::Connecting);
}

#[test]
fn join_button() {
    let mut form = LoginForm::new();
    form.apply_login_action(LoginAction::Join);
    assert_eq!(form.state, GameState::Login);
    press(&mut form, &["k", "i", "m"]);
    form.apply_login_action(LoginAction::Join);
    assert_eq!(form.state, GameState::Connecting);
    let (name, tutorial) = form.connection_requested.clone().unwrap();
    assert_eq!(name.iter().collect::<String>(), "kim");
    assert!(!tutorial);
}

#[test]
fn tutorial_button_without_a_name() {
    let mut form = LoginForm::new();
    form.apply_login_action(LoginAction::Tutorial);
    assert_eq!(form.state, GameState::Connecting);
    let (name, tutorial) = form.connection_requested.clone().unwrap();
    assert_eq!(name.iter().collect::<String>(), "learner");
    assert!(tutorial);
}

#[test]
fn tutorial_button_with_a_name() {
    let mut form = LoginForm::new();
    press(&mut form, &["a", "l"]);
    form.apply_login_action(LoginAction::Tutorial);
    let (name, tutorial) = form.connection_requested.clone().unwrap();
    assert_eq!(name.iter().collect::<String>(), "al");
    assert!(tutorial);
}

#[test]
fn click_outside_login_buttons() {
    let mut form = LoginForm::new();
    press(&mut form, &["a"]);
    form.apply_login_action(LoginAction::Nowhere);
    assert_eq!(form.state, GameState::Login);
    assert!(form.connection_requested.is_none());
}

#[test]
fn hud_buttons_toggle_panels() {
    let mut hud = HudState::new();
    assert!(!hud.inventory_open && !hud.skills_open && !hud.map_open);
    // on an 800 x 600 screen the inventory button spans x 680..716, y 560..596
    assert_eq!(hud.handle_click(690, 570, 800, 600), HudClick::InventoryButton);
    assert!(hud.inventory_open);
    // the skills button, x 720..760, closes the inventory
    assert_eq!(hud.handle_click(730, 570, 800, 600), HudClick::SkillsButton);
    assert!(hud.skills_open && !hud.inventory_open);
    assert_eq!(hud.handle_click(730, 570, 800, 600), HudClick::SkillsButton);
    assert!(!hud.skills_open);
}

#[test]
fn hud_map_button_and_closing_the_map() {
    let mut hud = HudState::new();
    assert_eq!(hud.handle_click(770, 20, 800, 600), HudClick::MapButton);
    assert!(hud.map_open);
    assert_eq!(hud.handle_click(100, 100, 800, 600), HudClick::CloseMap);
    assert!(!hud.map_open);
    assert_eq!(hud.handle_click(100, 100, 800, 600), HudClick::World);
}

#[test]
fn hud_button_edges() {
    let mut hud = HudState::new();
    assert_eq!(hud.handle_click(679, 570, 800, 600), HudClick::World);
    assert_eq!(hud.handle_click(680, 560, 800, 600), HudClick::InventoryButton);
    assert_eq!(hud.handle_click(715, 595, 800, 600), HudClick::InventoryButton);
    assert_eq!(hud.handle_click(680, 596, 800, 600), HudClick::World);
}

#[test]
fn local_path_to_a_clicked_tile() {
    let map = WorldMap::generate_tutorial();
    let path = plan_local_path(&map, (10, 10), (12, 10)).unwrap();
    assert_eq!(path, vec![(11, 10), (12, 10)]);
}

#[test]
fn local_path_stops_next_to_a_tree() {
    let map = WorldMap::generate_tutorial();
    let path = plan_local_path(&map, (10, 10), (15, 10)).unwrap();
    assert_eq!(path.last(), Some(&(14, 10)));
    assert_eq!(path.len(), 4);
}

#[test]
fn local_path_clamps_clicks_off_the_map() {
    let map = WorldMap { tiles: vec![vec![TileType::Grass; MAP_W]; MAP_H], objects: Vec::new() };
    let path = plan_local_path(&map, (MAP_W - 3, MAP_H - 1), (MAP_W + 50, MAP_H + 50)).unwrap();
    assert_eq!(path, vec![(MAP_W - 2, MAP_H - 1), (MAP_W - 1, MAP_H - 1)]);
}

#[test]
fn local_path_into_the_sea_is_refused() {
    let map = WorldMap::generate_tutorial();
    assert!(plan_local_path(&map, (10, 10), (100, 100)).is_none());
}

#[test]
fn local_path_to_own_tile_is_none() {
    let map = WorldMap::generate_tutorial();
    assert!(plan_local_path(&map, (10, 10), (10, 10)).is_none());
}

#[test]
fn server_path_cases() {
    let map = WorldMap::generate_tutorial();
    assert!(plan_server_path(&map, (10, 10), (MAP_W, 3)).is_none());
    assert!(plan_server_path(&map, (10, 10), (10, 10)).is_none());
    assert!(plan_server_path(&map, (10, 10), (0, 0)).is_none());
    let to_tree = plan_server_path(&map, (10, 10), (15, 9)).unwrap();
    assert_eq!(to_tree.last(), Some(&(14, 9)));
    let walk = plan_server_path(&map, (10, 10), (10, 13)).unwrap();
    assert_eq!(walk, vec![(10, 11), (10, 12), (10, 13)]);
}

#[test]
fn click_on_tree_plans_a_chop() {
    let map = WorldMap::generate_tutorial();
    match plan_click(&map, (10, 10), (15, 10)) {
        ClickPlan::Chop { target_idx, path } => {
            assert_eq!(target_idx, 0);
            assert_eq!(path.last(), Some(&(14, 10)));
            assert_eq!(path.len(), 4);
        }
        ClickPlan::Walk { .. } => panic!("expected a chop"),
    }
}

#[test]
fn click_on_tree_top_plans_a_chop() {
    let map = WorldMap::generate_tutorial();
    assert!(matches!(plan_click(&map, (10, 9), (15, 9)), ClickPlan::Chop { target_idx: 0, .. }));
}

#[test]
fn chop_from_where_the_hero_stands() {
    let map = WorldMap::generate_tutorial();
    match plan_click(&map, (14, 10), (15, 10)) {
        ClickPlan::Chop { target_idx, path } => {
            assert_eq!(target_idx, 0);
            assert!(path.is_empty());
        }
        ClickPlan::Walk { .. } => panic!("expected a chop"),
    }
}

#[test]
fn click_on_rock_walks_instead() {
    let mut map = WorldMap { tiles: vec![vec![TileType::Grass; MAP_W]; MAP_H], objects: Vec::new() };
    map.objects.push(WorldObject { kind: ObjectKind::Rock, tile_x: 12, tile_y: 10, health: 5, alive: true });
    match plan_click(&map, (10, 10), (12, 10)) {
        ClickPlan::Walk { route } => assert!(route.is_none()),
        ClickPlan::Chop { .. } => panic!("rocks are not chopped"),
    }
}

#[test]
fn click_on_grass_walks() {
    let map = WorldMap::generate_tutorial();
    match plan_click(&map, (10, 10), (10, 12)) {
        ClickPlan::Walk { route } => assert_eq!(route, Some(vec![(10, 11), (10, 12)])),
        ClickPlan::Chop { .. } => panic!("expected a walk"),
    }
    assert!(matches!(plan_click(&map, (10, 10), (10, 10)), ClickPlan::Walk { route: None }));
}

#[test]
fn chopping_a_tree_down() {
    let mut map = WorldMap::generate_tutorial();
    let mut inv = Inventory::new();
    let mut skill = WoodcuttingSkill::new();
    assert_eq!(chop_hit(&mut map, 0, &mut inv, &mut skill), ChopHit::Hit);
    assert_eq!(map.objects[0].health, 2);
    assert_eq!(chop_hit(&mut map, 0, &mut inv, &mut skill), ChopHit::Hit);
    assert_eq!(map.objects[0].health, 1);
    assert_eq!(inv.count(ItemId::Logs), 0);
    assert_eq!(chop_hit(&mut map, 0, &mut inv, &mut skill), ChopHit::Felled);
    assert_eq!(map.objects[0].health, 0);
    assert!(!map.objects[0].alive);
    assert_eq!(inv.count(ItemId::Logs), 1);
    assert_eq!(skill.xp, CHOP_XP);
    assert_eq!(CHOP_XP, 25);
    assert_eq!(skill.level, 1);
    assert!(map.is_walkable(15, 10));
    assert_eq!(chop_hit(&mut map, 0, &mut inv, &mut skill), ChopHit::Stop);
    assert_eq!(inv.count(ItemId::Logs), 1);
    assert_eq!(skill.xp, 25);
}

#[test]
fn felling_raises_the_level() {
    let mut map = WorldMap::generate_tutorial();
    map.objects[0].health = 1;
    let mut inv = Inventory::new();
    inv.add(ItemId::Logs, 3);
    let mut skill = WoodcuttingSkill::new();
    skill.add_xp(90);
    assert_eq!(chop_hit(&mut map, 0, &mut inv, &mut skill), ChopHit::Felled);
    assert_eq!(inv.count(ItemId::Logs), 4);
    assert_eq!(skill.xp, 115);
    assert_eq!(skill.level, 2);
}

#[test]
fn chop_without_target() {
    let mut map = WorldMap::generate_tutorial();
    let mut inv = Inventory::new();
    let mut skill = WoodcuttingSkill::new();
    assert_eq!(chop_hit(&mut map, 5, &mut inv, &mut skill), ChopHit::NoTarget);
    assert_eq!(map.objects[0].health, 3);
}

#[test]
fn single_player_buttons() {
    let mut hud = HudState::new();
    // 800 x 600: inventory button at (768, 568), skills button just above at (768, 540)
    assert_eq!(single_player_click(&mut hud, 770, 570, 800, 600), SoloClick::InventoryButton);
    assert!(hud.inventory_open);
    assert_eq!(single_player_click(&mut hud, 770, 545, 800, 600), SoloClick::SkillsButton);
    assert!(hud.skills_open && hud.inventory_open);
    assert_eq!(single_player_click(&mut hud, 770, 570, 800, 600), SoloClick::InventoryButton);
    assert!(!hud.inventory_open);
    assert!(!hud.map_open);
}

#[test]
fn single_player_panels_and_portrait_take_clicks() {
    let mut hud = HudState::new();
    // the inventory panel spans x 650..760, y 512..592 when open
    assert_eq!(single_player_click(&mut hud, 660, 520, 800, 600), SoloClick::World);
    hud.inventory_open = true;
    assert_eq!(single_player_click(&mut hud, 660, 520, 800, 600), SoloClick::Absorbed);
    // the skills panel spans x 640..760, y 514..564 when open
    hud.inventory_open = false;
    hud.skills_open = true;
    assert_eq!(single_player_click(&mut hud, 645, 515, 800, 600), SoloClick::Absorbed);
    assert_eq!(single_player_click(&mut hud, 10, 10, 800, 600), SoloClick::Absorbed);
    assert_eq!(single_player_click(&mut hud, 52, 10, 800, 600), SoloClick::World);
    assert_eq!(single_player_click(&mut hud, 400, 300, 800, 600), SoloClick::World);
}

#[test]
fn object_update_fields() {
    let u = ObjectUpdate { map_index: 4, alive: false };
    assert_eq!(u.map_index, 4);
    assert!(!u.alive);
}

#[test]
fn backspace_undoes_the_last_character() {
    let mut form = LoginForm::new();
    press(&mut form, &["a", "b"]);
    press(&mut form, &["Q", "Backspace"]);
    assert_eq!(typed(&form), "ab");
    press(&mut form, &[" ", "Backspace"]);
    assert_eq!(typed(&form), "ab");
}

#[test]
fn welcome_sets_up_the_map_and_starts_the_game() {
    let mut form = LoginForm::new();
    press(&mut form, &["a", "Enter"]);
    form.on_welcome();
    assert_eq!(form.state, GameState::Playing);
    assert_eq!(typed(&form), "a");
    let tutorial = welcome_map(7, true).unwrap();
    assert_eq!(tutorial.objects, WorldMap::generate_tutorial().objects);
    assert_eq!(tutorial.tile_at(5, 5), TileType::Grass);
    let world = welcome_map(7, false).unwrap();
    assert_eq!(world.objects, WorldMap::generate(7).objects);
    assert!(welcome_map(u32::MAX, false).is_none());
    assert!(welcome_map(u32::MAX - 100, false).is_some());
}

#[test]
fn client_prediction_matches_the_server() {
    let map = WorldMap::generate(12345);
    let hero = (MAP_W / 2, MAP_H / 2);
    let mut checked = 0;
    for (x, y) in [(110, 95), (90, 120), (60, 60), (140, 30), (15, 12), (26, 26)] {
        let walkable = map.is_walkable(x, y);
        let blocked = map.object_index_at(x, y).is_some();
        if !(walkable || blocked) {
            continue;
        }
        let predicted = plan_local_path(&map, hero, (x, y));
        let served = plan_server_path(&map, hero, (x, y));
        assert_eq!(predicted.is_some(), served.is_some(), "at {:?}", (x, y));
        if let (Some(p), Some(q)) = (&predicted, &served) {
            assert_eq!(p.len(), q.len());
        }
        checked += 1;
    }
    assert!(checked >= 4);
    // a click on open water does not move the player on the server
    assert!(plan_server_path(&map, hero, (15, 12)).is_none());
}

#[test]
fn chop_path_is_the_search_result() {
    let map = WorldMap::generate(42);
    let hero = (MAP_W / 2, MAP_H / 2);
    let mut found = 0;
    for i in 0..map.objects.len() {
        let o = map.objects[i];
        if o.kind != ObjectKind::Tree || o.tile_y < 80 || o.tile_y > 120 || o.tile_x < 80 || o.tile_x > 120 {
            continue;
        }
        let t = (o.tile_x, o.tile_y);
        if let ClickPlan::Chop { path, .. } = plan_click(&map, hero, t) {
            let adj = map.adjacent_walkable_tile(t.0, t.1, hero.0, hero.1).unwrap();
            assert_eq!(path, astar(&map, hero, adj));
            found += 1;
        }
    }
    assert!(found > 0);
}

#[test]
fn server_path_is_the_search_result() {
    let map = WorldMap::generate(12345);
    let hero = (MAP_W / 2, MAP_H / 2);
    for t in [(110, 95), (90, 120), (60, 60), (140, 30)] {
        if map.is_walkable(t.0, t.1) {
            let served = plan_server_path(&map, hero, t).unwrap();
            assert_eq!(served, astar(&map, hero, t));
            assert_eq!(plan_local_path(&map, hero, t).unwrap(), served);
        }
    }
}

#[test]
fn player_ids_are_handed_out_in_turn() {
    let mut next = 1u32;
    assert_eq!(take_player_id(&mut next), 1);
    assert_eq!(take_player_id(&mut next), 2);
    assert_eq!(next, 3);
}

#[test]
fn side_panels_never_both_open() {
    let mut hud = HudState::new();
    for &(x, y) in &[(690, 570), (730, 570), (690, 570), (690, 570), (730, 570), (770, 20), (100, 100)] {
        hud.handle_click(x, y, 800, 600);
        assert!(!(hud.inventory_open && hud.skills_open));
    }
}
