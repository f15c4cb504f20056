//! A voxel world: block definitions and their registry, chunks of blocks
//! with reads and writes, chunk meshes and collision cells, chunk loading
//! around loaders, and player input latching.
use vstd::prelude::*;

pub mod blockdefs;
pub mod chunks;
pub mod entity_map;
pub mod player;
pub mod voxels;

verus! {

/// The phase of the game: assets load first, then the world is played.
#[derive(Clone, Copy, Debug, PartialEq, Eq, Hash, Structural)]
pub enum GameState {
    Loading,
    Playing,
}

impl Default for GameState {
    fn default() -> (s: GameState)
        ensures
            s == GameState::Loading,
    {
        GameState::Loading
    }
}

/// The state after a loading check: play starts once both the texture
/// folder and the block definition folder have loaded; until then the state
/// stays as it is.
pub fn loading_step(state: GameState, textures_loaded: bool, definitions_loaded: bool) -> (next: GameState)
    ensures
        next == if textures_loaded && definitions_loaded { GameState::Playing } else { state },
{
    if !textures_loaded {
        return state;
    }
    if !definitions_loaded {
        return state;
    }
    GameState::Playing
}

} // verus!
