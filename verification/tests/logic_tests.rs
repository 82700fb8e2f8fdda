use laberinto::caster::{ray_step, RayStep};
use laberinto::game::{transition, wall_interaction, GameEvent, WallPrompt};
use laberinto::inventory::Inventory;
use laberinto::item::{default_item_name, ItemState};
use laberinto::maze::{can_move_to, find_char_cell, find_char_position, fix_map_in_maze, maze_from_lines, spawn_items_from_config};
use laberinto::menu::{GameState, Menu};
use laberinto::special_wall::SpecialWall;

fn maze(rows: &[&str]) -> Vec<Vec<char>> {
    maze_from_lines(&rows.iter().map(|r| r.to_string()).collect())
}

#[test]
fn inventory_keeps_each_item_once() {
    let mut inv = Inventory::new();
    assert_eq!(inv.count(), 0);
    assert!(inv.add_item('1'));
    assert!(!inv.add_item('1'));
    assert_eq!(inv.collected_items, vec!['1']);
    assert!(inv.add_item('2'));
    assert!(!inv.has_all_items());
    assert!(inv.add_item('3'));
    assert!(inv.has_all_items());
    assert_eq!(inv.count(), 3);
    assert!(inv.contains('2'));
    assert!(!inv.contains('4'));
}

#[test]
fn offering_the_same_item_twice_equals_once() {
    let mut a = Inventory::new();
    a.add_item('b');
    let mut b = Inventory::new();
    b.add_item('b');
    b.add_item('b');
    assert_eq!(a.collected_items, b.collected_items);
}

#[test]
fn menu_has_the_three_maps() {
    let menu = Menu::new();
    assert_eq!(menu.selected_option, 0);
    assert_eq!(menu.options.len(), 3);
    assert_eq!(menu.options[0].name, "colibri");
    assert_eq!(menu.options[1].file_path, "mazeOrca.txt");
    assert_eq!(menu.options[2].display_name, "Mapa Vaca");
    assert_eq!(menu.options[2].broken_map_texture, "assets/Vaca/mVacaRoto.png");
    assert_eq!(menu.options[2].fixed_map_texture, "assets/Vaca/mVacaRoto.png");
    let c = &menu.options[1].item_configs[2];
    assert_eq!((c.char_key, c.texture_key), ('h', '6'));
    assert_eq!(c.texture_path, "assets/Orca/fOrca3.png");
    assert_eq!(c.item_name, "Cola de Orca");
}

#[test]
fn menu_selection_stops_at_the_ends() {
    let mut menu = Menu::new();
    assert_eq!(menu.handle_input(true, false, false), None);
    assert_eq!(menu.selected_option, 0);
    menu.handle_input(false, true, false);
    menu.handle_input(false, true, false);
    menu.handle_input(false, true, false);
    assert_eq!(menu.selected_option, 2);
    assert_eq!(menu.handle_input(false, false, true), Some(2));
    assert_eq!(menu.handle_input(true, true, true), Some(2));
}

#[test]
fn menu_down_then_up_returns() {
    let mut menu = Menu::new();
    menu.handle_input(false, true, false);
    menu.handle_input(true, false, false);
    assert_eq!(menu.selected_option, 0);
}

#[test]
fn maze_rows_are_the_lines() {
    let m = maze(&["+-+", "|i", ""]);
    assert_eq!(m, vec![vec!['+', '-', '+'], vec!['|', 'i'], vec![]]);
}

#[test]
fn first_occurrence_in_row_major_order() {
    let m = maze(&["+--", "| *", "*i "]);
    assert_eq!(find_char_cell(&m, '*'), Some((1, 2)));
    assert_eq!(find_char_position(&m, '*', 100), Some((200, 100)));
    assert_eq!(find_char_position(&m, 'i', 100), Some((100, 200)));
    assert_eq!(find_char_position(&m, 'g', 100), None);
}

#[test]
fn items_spawn_from_the_first_matching_configuration() {
    let m = maze(&["b c", "h b"]);
    let menu = Menu::new();
    let items = spawn_items_from_config(&m, 100, &menu.options[0].item_configs);
    let got: Vec<(usize, usize, char, String)> = items.into_iter().map(|s| (s.x, s.y, s.texture_key, s.name)).collect();
    assert_eq!(
        got,
        vec![
            (0, 0, '1', "Cabeza de colibri".to_string()),
            (200, 0, '2', "Cola de colibri".to_string()),
            (0, 100, '3', "Alas de colibri".to_string()),
            (200, 100, '1', "Cabeza de colibri".to_string()),
        ]
    );
}

#[test]
fn fixing_the_map_changes_only_the_first_broken_cell() {
    let mut m = maze(&["*|", "**"]);
    assert!(fix_map_in_maze(&mut m));
    assert_eq!(m, maze(&["$|", "**"]));
    assert!(fix_map_in_maze(&mut m));
    assert_eq!(m, maze(&["$|", "$*"]));
    let mut plain = maze(&["||"]);
    assert!(!fix_map_in_maze(&mut plain));
    assert_eq!(plain, maze(&["||"]));
}

#[test]
fn player_moves_only_onto_floor_or_goal() {
    let m = maze(&["| g", "-"]);
    assert!(!can_move_to(&m, 0, 0));
    assert!(can_move_to(&m, 1, 0));
    assert!(can_move_to(&m, 2, 0));
    assert!(!can_move_to(&m, 3, 0));
    assert!(!can_move_to(&m, 1, 1));
    assert!(!can_move_to(&m, 0, 5));
}

#[test]
fn ray_steps_through_the_maze() {
    let m = maze(&["|  *", "   b"]);
    assert_eq!(ray_step(&m, 5, 5, 10, None), RayStep::Hit { impact: '|', maxhit: 5 });
    assert_eq!(ray_step(&m, 2, 7, 10, None), RayStep::Hit { impact: '|', maxhit: 7 });
    assert_eq!(ray_step(&m, 12, 3, 10, None), RayStep::Empty);
    assert_eq!(ray_step(&m, 35, 15, 10, None), RayStep::Empty);
    assert_eq!(ray_step(&m, 35, 5, 10, None), RayStep::Hit { impact: '*', maxhit: 5 });
    assert_eq!(ray_step(&m, 35, 5, 10, Some('$')), RayStep::Hit { impact: '$', maxhit: 5 });
    assert_eq!(ray_step(&m, 45, 5, 10, None), RayStep::Outside { maxhit: 5 });
    assert_eq!(ray_step(&m, 40, 7, 10, None), RayStep::Outside { maxhit: 7 });
    assert_eq!(ray_step(&m, 3, 25, 10, None), RayStep::Outside { maxhit: 3 });
    assert_eq!(ray_step(&m, 9, 25, 10, None), RayStep::Outside { maxhit: 5 });
}

#[test]
fn wall_shows_restored_map_once_unlocked() {
    let mut wall = SpecialWall::new();
    assert_eq!(wall.get_texture_key(), '*');
    wall.unlock();
    assert!(wall.is_unlocked);
    assert_eq!(wall.get_texture_key(), '$');
}

#[test]
fn item_default_names() {
    assert_eq!(default_item_name('b'), "Llave Azul");
    assert_eq!(default_item_name('c'), "Moneda");
    assert_eq!(default_item_name('h'), "Poci\u{f3}n");
    assert_eq!(default_item_name('x'), "Item");
    assert_ne!(ItemState::Idle, ItemState::Fading);
}

#[test]
fn screens_follow_the_events() {
    assert_eq!(transition(GameState::Menu, GameEvent::MapChosen), GameState::Playing);
    assert_eq!(transition(GameState::Playing, GameEvent::Escape), GameState::Menu);
    assert_eq!(transition(GameState::Playing, GameEvent::WallTimerDone), GameState::Victory);
    assert_eq!(transition(GameState::Victory, GameEvent::Enter), GameState::Menu);
    assert_eq!(transition(GameState::Menu, GameEvent::WallTimerDone), GameState::Menu);
    assert_eq!(transition(GameState::Victory, GameEvent::Escape), GameState::Victory);
    assert_eq!(transition(GameState::Paused, GameEvent::Enter), GameState::Paused);
    assert_eq!(transition(GameState::Playing, GameEvent::Idle), GameState::Playing);
}

#[test]
fn wall_unlocks_only_with_all_pieces() {
    let mut inv = Inventory::new();
    let mut wall = SpecialWall::new();
    inv.add_item('1');
    inv.add_item('2');
    assert_eq!(wall_interaction(&wall, &inv, true), (WallPrompt::MissingPieces { collected: 2 }, false));
    inv.add_item('3');
    assert_eq!(wall_interaction(&wall, &inv, false), (WallPrompt::RestoreMap, false));
    assert_eq!(wall_interaction(&wall, &inv, true), (WallPrompt::RestoreMap, true));
    wall.unlock();
    assert_eq!(wall_interaction(&wall, &inv, true), (WallPrompt::Restored, false));
}
