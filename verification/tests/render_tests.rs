use laberinto::caster::{ray_visit, RayStep};
use laberinto::color::Color;
use laberinto::framebuffer::Framebuffer;
use laberinto::inventory::Inventory;
use laberinto::maze::maze_from_lines;
use laberinto::menu::Menu;
use laberinto::render::{draw_cell, render_maze, render_victory_screen};
use laberinto::render_inventory::{count_label, decimal_string, render_inventory, IconSampling};
use laberinto::render_items::{draw_item, ItemSprite};
use laberinto::render_menu::render_menu;
use laberinto::item::ItemState;
use laberinto::render_minimap::{
    draw_minimap_background, draw_minimap_border, draw_minimap_item, draw_player_on_minimap, minimap_cell_color,
    minimap_item_color, render_minimap, render_minimap_cells, MinimapItem, PlayerArrow,
};
use laberinto::render_world::{draw_world_column, WorldColumn};
use laberinto::textures::{ImageData, TextureManager};

fn count(fb: &Framebuffer, c: Color, xs: std::ops::Range<u32>, ys: std::ops::Range<u32>) -> usize {
    let mut n = 0;
    for x in xs {
        for y in ys.clone() {
            if fb.get_pixel(x, y) == c {
                n += 1;
            }
        }
    }
    n
}

#[test]
fn victory_screen_layers() {
    let mut fb = Framebuffer::new(300, 300, Color::black());
    render_victory_screen(&mut fb);
    let veil = Color::new(0, 0, 0, 200);
    let gold = Color::new(255, 215, 0, 255);
    let grey = Color::new(200, 200, 200, 255);
    assert_eq!(fb.get_pixel(0, 299), veil);
    assert_eq!(fb.get_pixel(299, 0), veil);
    assert!(count(&fb, gold, 0..300, 100..128) > 0);
    assert_eq!(count(&fb, gold, 0..300, 0..100), 0);
    assert!(count(&fb, grey, 0..300, 250..264) > 0);
    assert_eq!(fb.current_color(), grey);
}

#[test]
fn menu_screen_marks_the_selected_map() {
    let mut fb = Framebuffer::new(400, 300, Color::black());
    let menu = Menu::new();
    render_menu(&mut fb, &menu);
    let gold = Color::new(255, 215, 0, 255);
    let grey = Color::new(150, 150, 150, 255);
    let dim = Color::new(100, 100, 100, 255);
    assert_eq!(fb.get_pixel(0, 0), Color::new(20, 20, 40, 255));
    assert_eq!(fb.get_pixel(191, 146), gold);
    assert_eq!(fb.get_pixel(128, 170), gold);
    assert_eq!(fb.get_pixel(146, 250), grey);
    assert_eq!(fb.get_pixel(83, 200), dim);
    assert_eq!(fb.current_color(), dim);
}

#[test]
fn top_down_view_draws_walls_and_player() {
    let maze = maze_from_lines(&vec!["| ".to_string(), " -".to_string()]);
    let mut fb = Framebuffer::new(6, 6, Color::black());
    render_maze(&mut fb, &maze, 2, 5, 5);
    let red = Color::red();
    assert_eq!(count(&fb, red, 0..2, 0..2), 4);
    assert_eq!(count(&fb, red, 2..4, 2..4), 4);
    assert_eq!(count(&fb, red, 0..6, 0..6), 8);
    assert_eq!(fb.get_pixel(5, 5), Color::white());
    assert_eq!(fb.current_color(), Color::white());
}

#[test]
fn floor_cells_are_not_drawn() {
    let mut fb = Framebuffer::new(4, 4, Color::black());
    draw_cell(&mut fb, 0, 0, 2, ' ');
    assert_eq!(count(&fb, Color::black(), 0..4, 0..4), 16);
    assert_eq!(fb.current_color(), Color::white());
    draw_cell(&mut fb, 2, 2, 2, '+');
    assert_eq!(count(&fb, Color::red(), 0..4, 0..4), 4);
}

#[test]
fn inventory_panel_slots_and_counter() {
    let mut fb = Framebuffer::new(300, 200, Color::black());
    let mut tm = TextureManager::new();
    tm.insert_image('1', ImageData { width: 1, height: 1, data: vec![9, 8, 7, 255] });
    tm.insert_image('3', ImageData { width: 1, height: 1, data: vec![9, 8, 7, 0] });
    let mut inv = Inventory::new();
    inv.add_item('1');
    inv.add_item('2');
    inv.add_item('3');
    inv.add_item('4');
    let table = || IconSampling { cols: vec![0; 50], rows: vec![0; 50] };
    let samplings = vec![table(), table(), table()];
    render_inventory(&mut fb, &inv, &tm, &samplings);
    assert_eq!(fb.get_pixel(25, 25), Color::new(0, 0, 0, 180));
    assert_eq!(fb.get_pixel(20, 20), Color::white());
    assert_eq!(fb.get_pixel(239, 109), Color::white());
    assert_eq!(fb.get_pixel(40, 40), Color::new(9, 8, 7, 255));
    assert_eq!(fb.get_pixel(89, 89), Color::new(9, 8, 7, 255));
    assert_eq!(fb.get_pixel(100, 40), Color::white());
    assert_eq!(fb.get_pixel(160, 40), Color::new(50, 50, 50, 255));
    assert_eq!(fb.get_pixel(95, 40), Color::new(0, 0, 0, 180));
    // "4/3" is 3 bytes at scale 2: 36 pixels wide, from x = 132.
    assert_eq!(fb.get_pixel(132, 124), Color::white());
    assert_eq!(fb.get_pixel(131, 124), Color::black());
    assert_eq!(fb.current_color(), Color::white());
}

#[test]
fn minimap_pieces() {
    assert_eq!(minimap_cell_color('|'), Color::new(100, 100, 100, 255));
    assert_eq!(minimap_cell_color('g'), Color::new(0, 255, 0, 255));
    assert_eq!(minimap_cell_color(' '), Color::new(30, 30, 30, 255));
    assert_eq!(minimap_cell_color('x'), Color::new(50, 50, 50, 255));
    assert_eq!(minimap_item_color('c'), Color::new(255, 215, 0, 255));
    assert_eq!(minimap_item_color('q'), Color::white());

    let maze = maze_from_lines(&vec!["|g".to_string(), " x".to_string()]);
    let mut fb = Framebuffer::new(8, 8, Color::black());
    draw_minimap_background(&mut fb, 0, 0, 8);
    assert_eq!(fb.get_pixel(7, 7), Color::new(0, 0, 0, 200));
    render_minimap_cells(&mut fb, &maze, 1, 1, &vec![0, 2, 4], 2);
    assert_eq!(fb.get_pixel(2, 2), Color::new(100, 100, 100, 255));
    assert_eq!(fb.get_pixel(3, 1), Color::new(0, 255, 0, 255));
    assert_eq!(fb.get_pixel(1, 4), Color::new(30, 30, 30, 255));
    assert_eq!(fb.get_pixel(4, 4), Color::new(50, 50, 50, 255));
    assert_eq!(fb.get_pixel(5, 5), Color::new(0, 0, 0, 200));

    draw_minimap_item(&mut fb, 6, 6, 'b');
    assert_eq!(count(&fb, Color::new(0, 150, 255, 255), 0..8, 0..8), 9);
}

#[test]
fn minimap_border_is_two_pixels_wide() {
    let mut fb = Framebuffer::new(10, 10, Color::black());
    draw_minimap_border(&mut fb, 1, 1, 6);
    let w = Color::white();
    assert_eq!(fb.get_pixel(1, 1), w);
    assert_eq!(fb.get_pixel(2, 2), w);
    assert_eq!(fb.get_pixel(3, 3), Color::black());
    assert_eq!(fb.get_pixel(5, 5), w);
    assert_eq!(fb.get_pixel(6, 6), w);
    assert_eq!(fb.get_pixel(7, 7), Color::black());
    assert_eq!(count(&fb, w, 0..10, 0..10), 36 - 4);
}

#[test]
fn item_sprite_skips_transparent_texels_and_fades() {
    let mut tm = TextureManager::new();
    // 2 x 1 image: an opaque red texel and a transparent one.
    tm.insert_image('7', ImageData { width: 2, height: 1, data: vec![255, 0, 0, 255, 0, 255, 0, 5] });
    let mut fb = Framebuffer::new(10, 10, Color::black());
    let sprite = ItemSprite {
        x_start: 3,
        y_start: 4,
        cols: vec![0, 1, 0],
        rows: vec![0, 0],
        fade: (0..=255u8).map(|a| a / 2).collect(),
    };
    draw_item(&mut fb, &tm, '7', &sprite);
    let red_faded = Color::new(255, 0, 0, 127);
    assert_eq!(fb.get_pixel(3, 4), red_faded);
    assert_eq!(fb.get_pixel(3, 5), red_faded);
    assert_eq!(fb.get_pixel(5, 5), red_faded);
    assert_eq!(fb.get_pixel(4, 4), Color::black());
    assert_eq!(fb.get_pixel(4, 5), Color::black());
    assert_eq!(fb.get_pixel(6, 4), Color::black());
    assert_eq!(fb.get_pixel(3, 6), Color::black());
    assert_eq!(count(&fb, red_faded, 0..10, 0..10), 4);
}

#[test]
fn item_sprite_off_screen_is_clipped() {
    let mut tm = TextureManager::new();
    tm.insert_image('7', ImageData { width: 1, height: 1, data: vec![1, 2, 3, 255] });
    let mut fb = Framebuffer::new(4, 4, Color::black());
    let sprite = ItemSprite { x_start: -1, y_start: 3, cols: vec![0, 0], rows: vec![0, 0], fade: (0..=255u8).collect() };
    draw_item(&mut fb, &tm, '7', &sprite);
    assert_eq!(fb.get_pixel(0, 3), Color::new(1, 2, 3, 255));
    assert_eq!(count(&fb, Color::new(1, 2, 3, 255), 0..4, 0..4), 1);
}

fn arrow_at(x: i32, y: i32) -> PlayerArrow {
    PlayerArrow { x, y, size: 3, tip: (x + 3, y), back_left: (x - 1, y + 1), back_right: (x - 1, y - 1) }
}

#[test]
fn player_arrow_outline_over_square() {
    let mut fb = Framebuffer::new(40, 40, Color::black());
    draw_player_on_minimap(&mut fb, 10, 10, &arrow_at(10, 10));
    let bright = Color::new(255, 50, 50, 255);
    let light = Color::new(255, 100, 100, 255);
    // Centre to tip along the row of the player.
    for x in 20..=23 {
        assert_eq!(fb.get_pixel(x, 20), bright);
    }
    assert_eq!(fb.get_pixel(19, 19), bright);
    assert_eq!(fb.get_pixel(19, 21), bright);
    // The rest of the 7 x 7 square is light red.
    assert_eq!(fb.get_pixel(17, 17), light);
    assert_eq!(fb.get_pixel(23, 23), light);
    assert_eq!(fb.get_pixel(16, 20), Color::black());
    assert_eq!(fb.get_pixel(24, 24), Color::black());
    assert_eq!(fb.current_color(), bright);
}

#[test]
fn minimap_in_the_bottom_left_corner() {
    let mut fb = Framebuffer::new(300, 300, Color::black());
    let maze = maze_from_lines(&vec!["|g".to_string(), " x".to_string()]);
    let items = vec![
        MinimapItem { dx: 50, dy: 50, texture_key: 'b', collected: false, state: ItemState::Idle },
        MinimapItem { dx: 10, dy: 110, texture_key: 'c', collected: true, state: ItemState::Idle },
        MinimapItem { dx: 110, dy: 110, texture_key: 'h', collected: false, state: ItemState::Fading },
    ];
    render_minimap(&mut fb, &maze, &vec![0, 100], 100, &items, &arrow_at(150, 150));
    let white = Color::white();
    // The frame: two pixels wide, 200 pixels square at (20, 80).
    assert_eq!(fb.get_pixel(20, 80), white);
    assert_eq!(fb.get_pixel(21, 150), white);
    assert_eq!(fb.get_pixel(219, 279), white);
    assert_eq!(fb.get_pixel(150, 278), white);
    // The cells, by kind.
    assert_eq!(fb.get_pixel(100, 100), Color::new(100, 100, 100, 255));
    assert_eq!(fb.get_pixel(150, 100), Color::new(0, 255, 0, 255));
    assert_eq!(fb.get_pixel(50, 200), Color::new(30, 30, 30, 255));
    assert_eq!(fb.get_pixel(200, 200), Color::new(50, 50, 50, 255));
    // Only the idle, uncollected item has a dot.
    assert_eq!(fb.get_pixel(70, 130), Color::new(0, 150, 255, 255));
    assert_eq!(fb.get_pixel(69, 129), Color::new(0, 150, 255, 255));
    assert_eq!(fb.get_pixel(30, 190), Color::new(30, 30, 30, 255));
    assert_eq!(fb.get_pixel(130, 190), Color::new(50, 50, 50, 255));
    // The arrow on top of the cells.
    assert_eq!(fb.get_pixel(170, 230), Color::new(255, 50, 50, 255));
    assert_eq!(fb.get_pixel(167, 227), Color::new(255, 100, 100, 255));
    // Nothing outside the minimap.
    assert_eq!(fb.get_pixel(10, 10), Color::black());
    assert_eq!(fb.get_pixel(250, 150), Color::black());
    assert_eq!(fb.current_color(), white);
}

fn two_by_two() -> ImageData {
    ImageData {
        width: 2,
        height: 2,
        data: vec![10, 20, 30, 255, 40, 50, 60, 255, 70, 80, 90, 255, 100, 110, 120, 200],
    }
}

#[test]
fn world_column_ceiling_wall_floor() {
    let mut tm = TextureManager::new();
    tm.insert_dimensions('+', 2, 2);
    tm.insert_image('+', two_by_two());
    let mut fb = Framebuffer::new(3, 10, Color::black());
    let sky = Color::new(1, 1, 1, 255);
    let ground = Color::new(2, 2, 2, 255);
    let column = WorldColumn {
        ceiling: vec![sky, sky],
        tx: 5,
        rows: vec![0, 1, 7],
        fog_r: (0..=255u8).map(|v| v / 2).collect(),
        fog_g: (0..=255u8).collect(),
        fog_b: (0..=255u8).map(|v| 255 - v).collect(),
        floor: vec![ground, ground, ground],
    };
    draw_world_column(&mut fb, &tm, 1, '+', &column);
    assert_eq!(fb.get_pixel(1, 0), sky);
    assert_eq!(fb.get_pixel(1, 1), sky);
    assert_eq!(fb.get_pixel(1, 2), Color::new(20, 50, 195, 255));
    assert_eq!(fb.get_pixel(1, 3), Color::new(50, 110, 135, 200));
    assert_eq!(fb.get_pixel(1, 4), Color::new(50, 110, 135, 200));
    assert_eq!(fb.get_pixel(1, 5), ground);
    assert_eq!(fb.get_pixel(1, 7), ground);
    assert_eq!(fb.get_pixel(1, 8), Color::black());
    assert_eq!(fb.get_pixel(0, 3), Color::black());
    assert_eq!(fb.get_pixel(2, 3), Color::black());
}

#[test]
fn world_column_clamps_to_the_recorded_size() {
    let mut tm = TextureManager::new();
    tm.insert_dimensions('|', 1, 1);
    tm.insert_image('|', two_by_two());
    let mut fb = Framebuffer::new(2, 2, Color::black());
    let identity: Vec<u8> = (0..=255u8).collect();
    let column = WorldColumn {
        ceiling: vec![],
        tx: 1,
        rows: vec![1, 1],
        fog_r: identity.clone(),
        fog_g: identity.clone(),
        fog_b: identity,
        floor: vec![],
    };
    draw_world_column(&mut fb, &tm, 0, '|', &column);
    // The recorded size is 1 x 1, so every wall row shows texel (0, 0).
    assert_eq!(fb.get_pixel(0, 0), Color::new(10, 20, 30, 255));
    assert_eq!(fb.get_pixel(0, 1), Color::new(10, 20, 30, 255));
    assert_eq!(fb.get_pixel(1, 0), Color::black());
}

#[test]
fn ray_trace_marks_only_the_cells_it_passes() {
    let maze = maze_from_lines(&vec!["|  ".to_string()]);
    let mut fb = Framebuffer::new(40, 20, Color::black());
    fb.set_current_color(Color::white());
    assert_eq!(ray_visit(&mut fb, &maze, 15, 5, 10, None, true), RayStep::Empty);
    assert_eq!(fb.get_pixel(15, 5), Color::white());
    assert_eq!(ray_visit(&mut fb, &maze, 5, 5, 10, None, true), RayStep::Hit { impact: '|', maxhit: 5 });
    assert_eq!(fb.get_pixel(5, 5), Color::black());
    assert_eq!(ray_visit(&mut fb, &maze, 25, 5, 10, None, false), RayStep::Empty);
    assert_eq!(fb.get_pixel(25, 5), Color::black());
    assert_eq!(ray_visit(&mut fb, &maze, 35, 5, 10, None, true), RayStep::Outside { maxhit: 5 });
    assert_eq!(fb.get_pixel(35, 5), Color::black());
    assert_eq!(count(&fb, Color::white(), 0..40, 0..20), 1);
}

#[test]
fn counter_labels_are_decimal() {
    assert_eq!(decimal_string(0), "0");
    assert_eq!(decimal_string(7), "7");
    assert_eq!(decimal_string(10), "10");
    assert_eq!(decimal_string(1204), "1204");
    assert_eq!(count_label(2), "2/3");
    assert_eq!(count_label(13), "13/3");
    assert_eq!(count_label(usize::MAX), format!("{}/3", usize::MAX));
}
