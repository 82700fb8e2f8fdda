use vstd::prelude::*;
use crate::inventory::{Inventory, pieces_needed, with_items, lemma_with_items_union};
use crate::menu::GameState;
use crate::special_wall::SpecialWall;

verus! {

/// What happened in a frame that can change the screen.
#[derive(Clone, Copy, Debug, PartialEq, Eq, Structural)]
pub enum GameEvent {
    /// Nothing that changes the screen.
    Idle,
    /// A map was chosen in the menu and loaded.
    MapChosen,
    /// Escape was pressed.
    Escape,
    /// The countdown after restoring the map ran out.
    WallTimerDone,
    /// Enter was pressed.
    Enter,
}

/// The screen after `event`: a chosen map starts play, escape during play
/// returns to the menu, the end of the restoration countdown wins the level,
/// and enter on the victory screen returns to the menu; anything else keeps
/// the screen.
pub open spec fn next_state(state: GameState, event: GameEvent) -> GameState {
    match (state, event) {
        (GameState::Menu, GameEvent::MapChosen) => GameState::Playing,
        (GameState::Playing, GameEvent::Escape) => GameState::Menu,
        (GameState::Playing, GameEvent::WallTimerDone) => GameState::Victory,
        (GameState::Victory, GameEvent::Enter) => GameState::Menu,
        _ => state,
    }
}

/// The screen after `event`.
pub fn transition(state: GameState, event: GameEvent) -> (s: GameState)
    ensures
        s == next_state(state, event),
{
    match (state, event) {
        (GameState::Menu, GameEvent::MapChosen) => GameState::Playing,
        (GameState::Playing, GameEvent::Escape) => GameState::Menu,
        (GameState::Playing, GameEvent::WallTimerDone) => GameState::Victory,
        (GameState::Victory, GameEvent::Enter) => GameState::Menu,
        _ => state,
    }
}

/// The message shown next to the special wall.
#[derive(Clone, Copy, Debug, PartialEq, Eq, Structural)]
pub enum WallPrompt {
    /// All pieces are held: the player may restore the map.
    RestoreMap,
    /// Pieces are missing; `collected` are held.
    MissingPieces { collected: usize },
    /// The map is restored and the countdown runs.
    Restored,
}

/// What happens when the player stands by the special wall: which message is
/// shown, and whether the wall is unlocked now (only when it is locked, every
/// piece is held and the restore key is pressed).
pub fn wall_interaction(wall: &SpecialWall, inventory: &Inventory, restore_pressed: bool) -> (r: (WallPrompt, bool))
    ensures
        r.1 == (!wall.is_unlocked && inventory.collected_items@.len() >= pieces_needed() && restore_pressed),
        r.0 == (if wall.is_unlocked {
            WallPrompt::Restored
        } else if inventory.collected_items@.len() >= pieces_needed() {
            WallPrompt::RestoreMap
        } else {
            WallPrompt::MissingPieces { collected: inventory.collected_items@.len() as usize }
        }),
{
    if !wall.is_unlocked {
        if inventory.has_all_items() {
            (WallPrompt::RestoreMap, restore_pressed)
        } else {
            (WallPrompt::MissingPieces { collected: inventory.count() }, false)
        }
    } else {
        (WallPrompt::Restored, false)
    }
}

/// The level is won only from play, and only when the restoration countdown
/// ends; no event ever pauses the game.
pub proof fn lemma_victory_only_after_restoring(state: GameState, event: GameEvent)
    ensures
        next_state(state, event) == GameState::Victory && state != GameState::Victory ==> state == GameState::Playing
            && event == GameEvent::WallTimerDone,
        next_state(state, event) == GameState::Paused ==> state == GameState::Paused,
        next_state(state, GameEvent::Idle) == state,
{
}

/// An inventory filled from empty by offering `keys` holds one entry per
/// distinct key, so the wall can be unlocked only after `pieces_needed`
/// different items have been picked up.
pub proof fn lemma_unlock_needs_distinct_pieces(keys: Seq<char>)
    ensures
        with_items(Seq::empty(), keys).len() == keys.to_set().len(),
        with_items(Seq::empty(), keys).len() >= pieces_needed() ==> keys.to_set().len() >= 3,
{
    let s = with_items(Seq::empty(), keys);
    lemma_with_items_union(Seq::empty(), keys);
    assert(s.to_set() =~= keys.to_set()) by {
        assert forall|x: char| s.to_set().contains(x) <==> keys.to_set().contains(x) by {
            assert(s.contains(x) <==> keys.contains(x));
            assert(!Seq::<char>::empty().contains(x));
        }
    }
    s.unique_seq_to_set();
}

} // verus!
