//! Regions of the map.

use vstd::prelude::*;

verus! {

/// A region of the map and what it produces.
#[derive(Debug, Clone)]
pub struct Region {
    pub id: i32,
    pub name: String,
    pub product: String,
    pub country_id: Option<i32>,
    pub position_x: i32,
    pub position_y: i32,
}

impl Default for Region {
    fn default() -> (r: Self)
        ensures
            r.id == 0,
            r.name@.len() == 0,
            r.product@.len() == 0,
            r.country_id is None,
            r.position_x == 0,
            r.position_y == 0,
    {
        Region {
            id: 0,
            name: String::new(),
            product: String::new(),
            country_id: None,
            position_x: 0,
            position_y: 0,
        }
    }
}

impl Region {
    /// The region a new game records for the map entry `key => value`: the
    /// key as id, the entry's name, position and product, and no country.
    pub fn from_map_entry(key: i32, value: &Region) -> (r: Region)
        ensures
            r.id == key,
            r.name@ == value.name@,
            r.position_x == value.position_x,
            r.position_y == value.position_y,
            r.product@ == value.product@,
            r.country_id is None,
    {
        let mut s = Region::default();
        s.id = key;
        s.name = value.name.clone();
        s.position_x = value.position_x;
        s.position_y = value.position_y;
        s.product = value.product.clone();
        s
    }

    /// The id written when the region is stored: its own id, or none (so
    /// that storage assigns one) when it is zero.
    pub fn insert_id(&self) -> (r: Option<i32>)
        ensures
            r == (if self.id != 0 { Some(self.id) } else { None::<i32> }),
    {
        if self.id != 0 {
            Some(self.id)
        } else {
            None
        }
    }
}

} // verus!
