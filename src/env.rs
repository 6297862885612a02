//! Session settings: board size, the acceleration flag and the display glyphs.
use vstd::prelude::*;
use crate::bricks::MAX_EXTENT;

verus! {

#[derive(Debug, Clone, Copy)]
pub struct EnvConfig {
    pub feature_brick: bool,
    pub accelerate: bool,
    pub width: usize,
    pub height: usize,
    /// Glyphs for a full cell, the wall, an empty cell and the ghost.
    pub texture: [char; 4],
}

impl EnvConfig {
    /// Whether the board size is one a session can be built on.
    pub fn board_fits(&self) -> (r: bool)
        ensures
            r == (1 <= self.width <= MAX_EXTENT && 1 <= self.height <= MAX_EXTENT),
    {
        1 <= self.width && self.width <= MAX_EXTENT && 1 <= self.height && self.height
            <= MAX_EXTENT
    }
}

impl Default for EnvConfig {
    fn default() -> (r: EnvConfig)
        ensures
            r.feature_brick,
            r.accelerate,
            r.width == 10,
            r.height == 20,
            r.texture@ == seq!['#', 'H', ' ', '.'],
    {
        let r = EnvConfig {
            feature_brick: true,
            accelerate: true,
            width: 10,
            height: 20,
            texture: ['#', 'H', ' ', '.'],
        };
        assert(r.texture@ =~= seq!['#', 'H', ' ', '.']);
        r
    }
}

} // verus!
