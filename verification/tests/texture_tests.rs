use laberinto::color::Color;
use laberinto::menu::Menu;
use laberinto::textures::{base_texture_files, get_pixel_color, map_texture_files, ImageData, TextureManager};

fn image() -> ImageData {
    ImageData { width: 2, height: 1, data: vec![1, 2, 3, 4, 5, 6, 7, 8] }
}

#[test]
fn image_pixels_and_white_outside() {
    let img = image();
    assert_eq!(get_pixel_color(&img, 0, 0), Color::new(1, 2, 3, 4));
    assert_eq!(get_pixel_color(&img, 1, 0), Color::new(5, 6, 7, 8));
    assert_eq!(get_pixel_color(&img, 2, 0), Color::white());
    assert_eq!(get_pixel_color(&img, -1, 0), Color::white());
    assert_eq!(get_pixel_color(&img, 0, 1), Color::white());
}

#[test]
fn manager_clamps_texels_and_defaults() {
    let mut tm = TextureManager::new();
    assert!(!tm.has_image('1'));
    tm.insert_dimensions('1', 2, 1);
    tm.insert_image('1', image());
    assert!(tm.has_image('1'));
    assert_eq!(tm.get_pixel_color('1', 9, 9), Color::new(5, 6, 7, 8));
    assert_eq!(tm.get_pixel_color('1', 0, 0), Color::new(1, 2, 3, 4));
    assert_eq!(tm.get_pixel_color('2', 0, 0), Color::white());
    assert_eq!(tm.get_dimensions('1'), (2, 1));
    assert_eq!(tm.get_width('1'), 2);
    assert_eq!(tm.get_height('1'), 1);
    assert_eq!(tm.get_dimensions('z'), (128, 128));
    assert_eq!(tm.get_width('z'), 128);
}

#[test]
fn transparency_threshold_is_alpha_ten() {
    let tm = TextureManager::new();
    assert!(tm.is_pixel_transparent(0, 0x09FF_FFFF));
    assert!(!tm.is_pixel_transparent(0, 0x0A00_0000));
    assert!(tm.is_pixel_transparent(7, 0));
    assert!(!tm.is_pixel_transparent(7, 0xFF00_0000));
}

#[test]
fn dimensions_can_be_recorded_without_an_image() {
    let mut tm = TextureManager::new();
    tm.insert_dimensions('*', 640, 480);
    assert_eq!(tm.get_dimensions('*'), (640, 480));
    assert!(!tm.has_image('*'));
    assert_eq!(tm.get_pixel_color('*', 3, 3), Color::white());
}

#[test]
fn wall_textures_loaded_at_start() {
    let files = base_texture_files();
    assert_eq!(files, vec![('+', "assets/fondoV.png"), ('|', "assets/fondo1.png"), ('-', "assets/fondo1.png")]);
}

#[test]
fn map_textures_are_broken_then_restored() {
    let menu = Menu::new();
    let option = &menu.options[0];
    let files = map_texture_files(option);
    assert_eq!(files.len(), 2);
    assert_eq!(files[0], ('*', option.broken_map_texture.clone()));
    assert_eq!(files[1], ('$', option.fixed_map_texture.clone()));
    assert_eq!(files[0].1, "assets/Colibri/mColibriRota.png");
    assert_eq!(files[1].1, "assets/Colibri/mColibri.png");
}
