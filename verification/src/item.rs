use vstd::prelude::*;

verus! {

/// The animation state of an item: idle (bobbing and turning) or fading out
/// after being picked up.
#[derive(Clone, Copy, Debug, PartialEq, Eq, Structural)]
pub enum ItemState {
    Idle,
    Fading,
}

/// The name an item gets from its texture key before its configuration names it.
pub fn default_item_name(texture_key: char) -> (name: &'static str)
    ensures
        name@ == (if texture_key == 'b' {
            "Llave Azul"@
        } else if texture_key == 'c' {
            "Moneda"@
        } else if texture_key == 'h' {
            "Poción"@
        } else {
            "Item"@
        }),
{
    match texture_key {
        'b' => "Llave Azul",
        'c' => "Moneda",
        'h' => "Poción",
        _ => "Item",
    }
}


} // verus!
