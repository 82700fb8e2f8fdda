use vstd::prelude::*;

verus! {

/// The screens of the game.
#[derive(Clone, Copy, Debug, PartialEq, Eq, Structural)]
pub enum GameState {
    Menu,
    Playing,
    Paused,
    Victory,
}

/// How a map character becomes a collectable item.
pub struct ItemConfig {
    /// The maze character that marks where the item lies.
    pub char_key: char,
    /// The key of the item's texture.
    pub texture_key: char,
    /// The image file of the texture.
    pub texture_path: String,
    /// The name shown when the item is picked up.
    pub item_name: String,
}

/// A selectable map.
pub struct MapOption {
    pub name: String,
    pub file_path: String,
    pub display_name: String,
    pub item_configs: Vec<ItemConfig>,
    /// Texture of the broken map on the special wall.
    pub broken_map_texture: String,
    /// Texture of the restored map on the special wall.
    pub fixed_map_texture: String,
}

/// The map-selection menu.
pub struct Menu {
    pub selected_option: usize,
    pub options: Vec<MapOption>,
}

/// `c` has the given fields.
pub open spec fn config_is(c: ItemConfig, char_key: char, texture_key: char, path: Seq<char>, name: Seq<char>) -> bool {
    &&& c.char_key == char_key
    &&& c.texture_key == texture_key
    &&& c.texture_path@ == path
    &&& c.item_name@ == name
}

/// `o` has the given fields and three item configurations.
pub open spec fn option_is(
    o: MapOption,
    name: Seq<char>,
    file_path: Seq<char>,
    display_name: Seq<char>,
    broken: Seq<char>,
    fixed: Seq<char>,
) -> bool {
    &&& o.name@ == name
    &&& o.file_path@ == file_path
    &&& o.display_name@ == display_name
    &&& o.broken_map_texture@ == broken
    &&& o.fixed_map_texture@ == fixed
    &&& o.item_configs@.len() == 3
}

/// The selection after the arrow keys: up moves toward the first option
/// unless already there, then down moves toward the last unless already there.
pub open spec fn menu_move(selected: int, len: int, up: bool, down: bool) -> int {
    let s1 = if up && selected > 0 { selected - 1 } else { selected };
    if down && s1 < len - 1 { s1 + 1 } else { s1 }
}

fn item_config(char_key: char, texture_key: char, texture_path: &str, item_name: &str) -> (c: ItemConfig)
    ensures
        config_is(c, char_key, texture_key, texture_path@, item_name@),
{
    ItemConfig {
        char_key,
        texture_key,
        texture_path: String::from_str(texture_path),
        item_name: String::from_str(item_name),
    }
}

impl Menu {
    /// The selection points at one of the options.
    pub open spec fn wf(&self) -> bool {
        self.selected_option < self.options@.len()
    }

    /// The menu of the three maps, with the first selected.
    pub fn new() -> (menu: Menu)
        ensures
            menu.wf(),
            menu.selected_option == 0,
            menu.options@.len() == 3,
            option_is(menu.options@[0], "colibri"@, "mazeColibri.txt"@, "Mapa Colibri"@, "assets/Colibri/mColibriRota.png"@, "assets/Colibri/mColibri.png"@),
            config_is(menu.options@[0].item_configs@[0], 'b', '1', "assets/Colibri/fColibri1.png"@, "Cabeza de colibri"@),
            config_is(menu.options@[0].item_configs@[1], 'c', '2', "assets/Colibri/fColibri2.png"@, "Cola de colibri"@),
            config_is(menu.options@[0].item_configs@[2], 'h', '3', "assets/Colibri/fColibri3.png"@, "Alas de colibri"@),
            option_is(menu.options@[1], "orca"@, "mazeOrca.txt"@, "Mapa Orca"@, "assets/Orca/mOrcaRota.png"@, "assets/Orca/mOrca.png"@),
            config_is(menu.options@[1].item_configs@[0], 'b', '4', "assets/Orca/fOrca1.png"@, "Aleta de Orca"@),
            config_is(menu.options@[1].item_configs@[1], 'c', '5', "assets/Orca/fOrca2.png"@, "Cabeza de Orca"@),
            config_is(menu.options@[1].item_configs@[2], 'h', '6', "assets/Orca/fOrca3.png"@, "Cola de Orca"@),
            option_is(menu.options@[2], "vaca"@, "mazeVaca.txt"@, "Mapa Vaca"@, "assets/Vaca/mVacaRoto.png"@, "assets/Vaca/mVacaRoto.png"@),
            config_is(menu.options@[2].item_configs@[0], 'b', '7', "assets/Vaca/fVaca1.png"@, "Cabeza vaquita"@),
            config_is(menu.options@[2].item_configs@[1], 'c', '8', "assets/Vaca/fVaca2.png"@, "vaquita"@),
            config_is(menu.options@[2].item_configs@[2], 'h', '9', "assets/Vaca/fVaca1.png"@, "Cabeza vaquita"@),
    {
        let mut options: Vec<MapOption> = Vec::new();
    let mut configs0: Vec<ItemConfig> = Vec::new();
    configs0.push(item_config('b', '1', "assets/Colibri/fColibri1.png", "Cabeza de colibri"));
    configs0.push(item_config('c', '2', "assets/Colibri/fColibri2.png", "Cola de colibri"));
    configs0.push(item_config('h', '3', "assets/Colibri/fColibri3.png", "Alas de colibri"));
    options.push(MapOption {
        name: String::from_str("colibri"),
        file_path: String::from_str("mazeColibri.txt"),
        display_name: String::from_str("Mapa Colibri"),
        item_configs: configs0,
        broken_map_texture: String::from_str("assets/Colibri/mColibriRota.png"),
        fixed_map_texture: String::from_str("assets/Colibri/mColibri.png"),
    });
    let mut configs1: Vec<ItemConfig> = Vec::new();
    configs1.push(item_config('b', '4', "assets/Orca/fOrca1.png", "Aleta de Orca"));
    configs1.push(item_config('c', '5', "assets/Orca/fOrca2.png", "Cabeza de Orca"));
    configs1.push(item_config('h', '6', "assets/Orca/fOrca3.png", "Cola de Orca"));
    options.push(MapOption {
        name: String::from_str("orca"),
        file_path: String::from_str("mazeOrca.txt"),
        display_name: String::from_str("Mapa Orca"),
        item_configs: configs1,
        broken_map_texture: String::from_str("assets/Orca/mOrcaRota.png"),
        fixed_map_texture: String::from_str("assets/Orca/mOrca.png"),
    });
    let mut configs2: Vec<ItemConfig> = Vec::new();
    configs2.push(item_config('b', '7', "assets/Vaca/fVaca1.png", "Cabeza vaquita"));
    configs2.push(item_config('c', '8', "assets/Vaca/fVaca2.png", "vaquita"));
    configs2.push(item_config('h', '9', "assets/Vaca/fVaca1.png", "Cabeza vaquita"));
    options.push(MapOption {
        name: String::from_str("vaca"),
        file_path: String::from_str("mazeVaca.txt"),
        display_name: String::from_str("Mapa Vaca"),
        item_configs: configs2,
        broken_map_texture: String::from_str("assets/Vaca/mVacaRoto.png"),
        fixed_map_texture: String::from_str("assets/Vaca/mVacaRoto.png"),
    });
        Menu { selected_option: 0, options }
    }

    /// Moves the selection by the arrow keys pressed this frame (up first,
    /// then down, each stopping at the ends) and returns the selection when
    /// enter is pressed.
    pub fn handle_input(&mut self, up: bool, down: bool, enter: bool) -> (r: Option<usize>)
        requires
            down ==> old(self).options@.len() > 0,
        ensures
            final(self).options == old(self).options,
            final(self).selected_option == menu_move(
                old(self).selected_option as int,
                old(self).options@.len() as int,
                up,
                down,
            ),
            r == (if enter { Some(final(self).selected_option) } else { None::<usize> }),
            old(self).wf() ==> final(self).wf(),
    {
        if up {
            if self.selected_option > 0 {
                self.selected_option = self.selected_option - 1;
            }
        }
        if down {
            if self.selected_option < self.options.len() - 1 {
                self.selected_option = self.selected_option + 1;
            }
        }
        if enter {
            return Some(self.selected_option);
        }
        None
    }
}

/// The arrow keys keep the selection on an option.
pub proof fn lemma_menu_move_in_range(selected: int, len: int, up: bool, down: bool)
    requires
        0 <= selected < len,
    ensures
        0 <= menu_move(selected, len, up, down) < len,
{
}

/// Down then up returns to the same option, unless the first press hit the
/// last option; up then down likewise, unless it hit the first.
pub proof fn lemma_menu_move_undo(selected: int, len: int)
    requires
        0 <= selected < len,
    ensures
        selected < len - 1 ==> menu_move(menu_move(selected, len, false, true), len, true, false) == selected,
        selected > 0 ==> menu_move(menu_move(selected, len, true, false), len, false, true) == selected,
        menu_move(0, len, true, false) == 0,
        menu_move(len - 1, len, false, true) == len - 1,
{
}

} // verus!
