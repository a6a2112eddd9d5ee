//! A verified 2D tile-rendering core: an integer rectangle utility for
//! viewport culling, a scene data model of grouped tile layers, a stable
//! depth sorter, and a layer composer that turns a scene into an ordered
//! sequence of draw calls.

use vstd::prelude::*;

pub mod model;
pub mod render;
pub mod scene;
pub mod sort;
pub mod urect;
pub mod vec2;

verus! {

/// Top-level mode of the game shell around the renderer.
#[derive(Clone, Copy, Debug, PartialEq, Eq)]
pub enum GameState {
    TitleScreen,
    LoadingSave,
    UiInteraction,
}

} // verus!
