//! The level data the renderer consumes: the global settings and the
//! placed terrain pieces and objects of one level, as plain values.

use vstd::prelude::*;

verus! {

/// Global level settings the renderer reads.
#[derive(Clone, Copy, Debug)]
pub struct LevelGlobals {
    /// Non-zero selects a special, pre-rendered backdrop instead of the
    /// terrain pieces.
    pub extended_graphic_set: u16,
    /// Which ground (graphic set) the level's pieces come from.
    pub normal_graphic_set: u16,
}

/// One placed terrain piece.
#[derive(Clone, Copy, Debug)]
pub struct TerrainEntry {
    pub terrain_id: usize,
    pub x: i32,
    pub y: i32,
    pub do_not_overwrite_existing_terrain: bool,
    pub is_upside_down: bool,
    pub remove_terrain: bool,
}

/// How a placed object blends over terrain.
#[derive(Clone, Copy, Debug)]
pub struct ObjectModifier {
    pub do_not_overwrite_existing_terrain: bool,
    pub must_have_terrain_underneath_to_be_visible: bool,
}

impl ObjectModifier {
    pub fn is_do_not_overwrite_existing_terrain(&self) -> (r: bool)
        ensures
            r == self.do_not_overwrite_existing_terrain,
    {
        self.do_not_overwrite_existing_terrain
    }

    pub fn is_must_have_terrain_underneath_to_be_visible(&self) -> (r: bool)
        ensures
            r == self.must_have_terrain_underneath_to_be_visible,
    {
        self.must_have_terrain_underneath_to_be_visible
    }
}

/// One placed object.
#[derive(Clone, Copy, Debug)]
pub struct ObjectEntry {
    pub obj_id: usize,
    pub x: i32,
    pub y: i32,
    pub is_upside_down: bool,
    pub modifier: ObjectModifier,
}

/// One level.
pub struct Level {
    pub name: String,
    pub globals: LevelGlobals,
    pub terrain: Vec<TerrainEntry>,
    pub objects: Vec<ObjectEntry>,
}

} // verus!
