//! Per-player map data: grid cells and the buildings standing on them.
//! This data is peripheral to the session core; it is modelled here so the
//! registry can hand each new session its starting map.

use vstd::prelude::*;
use crate::digits::{int_dec, isize_to_dec, push_char};

verus! {

#[derive(Clone)]
pub struct Building {
    pub resource_name: String,
    pub upgrade_level: usize,
    pub base_upgrade_cost: usize,
    pub tick_money_base_value: usize,
}

pub struct MapGrid {
    pub x: isize,
    pub y: isize,
    pub building: Option<Building>,
}

/// The coordinate key of a cell: the two coordinates in decimal, joined
/// by an underscore.
pub open spec fn coord_key(x: int, y: int) -> Seq<char> {
    int_dec(x) + seq!['_'] + int_dec(y)
}

impl MapGrid {
    /// Renders this cell's coordinate key.
    pub fn to_string_coord(&self) -> (s: String)
        ensures
            s@ == coord_key(self.x as int, self.y as int),
    {
        let mut s = isize_to_dec(self.x);
        push_char(&mut s, '_');
        let ys = isize_to_dec(self.y);
        s.append(ys.as_str());
        proof {
            assert(s@ =~= coord_key(self.x as int, self.y as int));
        }
        s
    }
}

/// The starting building every new session's map carries on two of its cells.
pub open spec fn starting_building(b: Building) -> bool {
    &&& b.resource_name@ == "building_1"@
    &&& b.upgrade_level == 1
    &&& b.base_upgrade_cost == 100
    &&& b.tick_money_base_value == 1
}

/// Whether a sequence of cells is the starting map: an empty cell at the
/// origin and two cells with the starting building beside it.
pub open spec fn is_starting_map(cells: Seq<MapGrid>) -> bool {
    &&& cells.len() == 3
    &&& cells[0].x == 0 && cells[0].y == 0 && cells[0].building is None
    &&& cells[1].x == 0 && cells[1].y == 1 && cells[1].building is Some
        && starting_building(cells[1].building->0)
    &&& cells[2].x == 1 && cells[2].y == 0 && cells[2].building is Some
        && starting_building(cells[2].building->0)
}

/// Builds the starting map handed to every newly registered session.
pub fn starting_map() -> (cells: Vec<MapGrid>)
    ensures
        is_starting_map(cells@),
{
    let mut cells: Vec<MapGrid> = Vec::new();
    cells.push(MapGrid { x: 0, y: 0, building: None });
    cells.push(MapGrid { x: 0, y: 1, building: Some(fresh_starting_building()) });
    cells.push(MapGrid { x: 1, y: 0, building: Some(fresh_starting_building()) });
    cells
}

/// Builds one starting building.
fn fresh_starting_building() -> (b: Building)
    ensures
        starting_building(b),
{
    Building {
        resource_name: String::from_str("building_1"),
        upgrade_level: 1,
        base_upgrade_cost: 100,
        tick_money_base_value: 1,
    }
}

} // verus!
