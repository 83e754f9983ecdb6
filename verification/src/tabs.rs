//! Plain data carried by the editor's tabs.  The windowing around them is
//! shell work; what a tab remembers between frames lives here.

use vstd::prelude::*;

verus! {

/// View state of the tile grid inside a map tab.
#[derive(Debug)]
pub struct Tilemap {
    /// The tile the cursor currently paints with.
    pub selected_tile: usize,
}

impl Tilemap {
    /// A fresh grid view with the first tile selected.
    pub fn new() -> (r: Tilemap)
        ensures
            r.selected_tile == 0,
    {
        Tilemap { selected_tile: 0 }
    }
}

/// The per-tab state of one open map.
#[derive(Debug)]
pub struct MapTab {
    pub id: i32,
    pub name: String,
    pub selected_layer: usize,
    pub tilemap: Tilemap,
}

impl MapTab {
    /// A tab for map `id`, starting on the first layer.
    pub fn new(id: i32, name: String) -> (r: MapTab)
        ensures
            r.id == id,
            r.name@ == name@,
            r.selected_layer == 0,
            r.tilemap.selected_tile == 0,
    {
        MapTab { id, name, selected_layer: 0, tilemap: Tilemap::new() }
    }
}

/// The greeting tab shown before a project is opened.
#[derive(Debug)]
pub struct Started {}

impl Started {
    /// The greeting tab carries no state.
    pub fn new() -> (r: Started) {
        Started {  }
    }
}

} // verus!
