# laberinto

A small first-person maze game drawn by ray casting into a software
framebuffer. The player walks a maze read from a text file, picks up three
pieces of a map, and restores the broken map on a special wall to finish the
level.

The crate is split in two.

- `src/` is the game's logic as a library whose functions carry `requires` /
  `ensures` contracts proved with Verus: the framebuffer and its drawing
  primitives, the bitmap font, the maze grid and its queries, what a ray meets
  at each point, the inventory, the map-selection menu, the screen flow, the
  special wall, texture sampling, and the drawing of the menu, the inventory
  panel, the minimap, the items and the columns of the first-person view.
  Drawing contracts say which pixels end up in which colour: a drawing is a
  stack of layers (a shape and a colour each) painted over the framebuffer in
  order.
- `app/` is the program around it: the window and keyboard, reading maze files
  and images, uploading textures, and everything computed in floating point
  (ray marching, perspective projection, fog, animations, the minimap's
  scale). It hands the library plain integers: pixel positions, texel tables
  and shading tables.

`tests/` holds the tests of the library.
