//! Game logic of a small raycasting maze: a software framebuffer with a bitmap
//! font, the maze grid and its queries, the inventory, the map-selection menu,
//! the special wall, texture sampling and the minimap layout.

pub mod caster;
pub mod color;
pub mod framebuffer;
pub mod game;
pub mod inventory;
pub mod item;
pub mod maze;
pub mod menu;
pub mod render;
pub mod render_inventory;
pub mod render_items;
pub mod render_menu;
pub mod render_minimap;
pub mod render_world;
pub mod special_wall;
pub mod text;
pub mod textures;
