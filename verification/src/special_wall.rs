use vstd::prelude::*;

verus! {

/// The lock of the special wall that shows the map: broken until the player
/// restores it.
pub struct SpecialWall {
    pub is_unlocked: bool,
}

impl SpecialWall {
    /// A locked wall.
    pub fn new() -> (w: SpecialWall)
        ensures
            !w.is_unlocked,
    {
        SpecialWall { is_unlocked: false }
    }

    /// Restores the map.
    pub fn unlock(&mut self)
        ensures
            final(self).is_unlocked,
    {
        self.is_unlocked = true;
    }

    /// The texture the wall shows: the restored map `'$'` once unlocked, the
    /// broken map `'*'` before.
    pub fn get_texture_key(&self) -> (k: char)
        ensures
            k == (if self.is_unlocked { '$' } else { '*' }),
    {
        if self.is_unlocked {
            '$'
        } else {
            '*'
        }
    }
}

} // verus!
