//! Items, their owners and names, and the row form they take in storage.

use vstd::prelude::*;

verus! {

/// An item stack.
#[derive(Debug, Clone)]
pub struct Item {
    pub count: i32,
    pub id: i32,
    pub name: ItemName,
    pub owner: ItemOwner,
}

/// An item as stored: the name as text, and the owner as three optional
/// ids of which at most one is meant to be set.
#[derive(Debug, Clone)]
pub struct DBItem {
    pub count: i32,
    pub id: i32,
    pub name: String,
    pub owner_citizen_id: Option<i32>,
    pub owner_city_id: Option<i32>,
    pub owner_country_id: Option<i32>,
}

/// Who holds an item.
#[derive(Debug, Clone, Copy, PartialEq, Eq, Structural)]
pub enum ItemOwner {
    Citizen(i32),
    City(i32),
    Country(i32),
    /// Nobody holds the item.
    Nobody,
}

/// The kinds of item.
#[derive(Debug, Clone, Copy, PartialEq, Eq, Structural)]
pub enum ItemName {
    Food,
    Resource,
    Weapon,
    Money,
}

impl Default for ItemOwner {
    fn default() -> (r: Self)
        ensures
            r == ItemOwner::Nobody,
    {
        ItemOwner::Nobody
    }
}

impl Default for ItemName {
    fn default() -> (r: Self)
        ensures
            r == ItemName::Food,
    {
        ItemName::Food
    }
}

impl Default for Item {
    fn default() -> (r: Self)
        ensures
            r == (Item { count: 0, id: 0, name: ItemName::Food, owner: ItemOwner::Nobody }),
    {
        Item { count: 0, id: 0, name: ItemName::Food, owner: ItemOwner::Nobody }
    }
}

/// The citizen holding the item, if a citizen does.
pub open spec fn spec_owner_citizen_id(o: ItemOwner) -> Option<i32> {
    match o {
        ItemOwner::Citizen(id) => Some(id),
        _ => None,
    }
}

/// The city holding the item, if a city does.
pub open spec fn spec_owner_city_id(o: ItemOwner) -> Option<i32> {
    match o {
        ItemOwner::City(id) => Some(id),
        _ => None,
    }
}

/// The country holding the item, if a country does.
pub open spec fn spec_owner_country_id(o: ItemOwner) -> Option<i32> {
    match o {
        ItemOwner::Country(id) => Some(id),
        _ => None,
    }
}

impl ItemOwner {
    /// The citizen holding the item, if a citizen does.
    pub fn to_owner_citizen_id(&self) -> (r: Option<i32>)
        ensures
            r == spec_owner_citizen_id(*self),
    {
        if let ItemOwner::Citizen(id) = self {
            Some(*id)
        } else {
            None
        }
    }

    /// The city holding the item, if a city does.
    pub fn to_owner_city_id(&self) -> (r: Option<i32>)
        ensures
            r == spec_owner_city_id(*self),
    {
        if let ItemOwner::City(id) = self {
            Some(*id)
        } else {
            None
        }
    }

    /// The country holding the item, if a country does.
    pub fn to_owner_country_id(&self) -> (r: Option<i32>)
        ensures
            r == spec_owner_country_id(*self),
    {
        if let ItemOwner::Country(id) = self {
            Some(*id)
        } else {
            None
        }
    }

    /// The owner recorded in a stored item: the citizen id if set, else the
    /// city id if set, else the country id if set, else nobody.
    pub open spec fn spec_from_db_ids(citizen: Option<i32>, city: Option<i32>, country: Option<i32>) -> ItemOwner {
        if let Some(id) = citizen {
            ItemOwner::Citizen(id)
        } else if let Some(id) = city {
            ItemOwner::City(id)
        } else if let Some(id) = country {
            ItemOwner::Country(id)
        } else {
            ItemOwner::Nobody
        }
    }

    /// The owner recorded in a stored item; see `spec_from_db_ids`.
    pub fn from_db_item(item: &DBItem) -> (r: ItemOwner)
        ensures
            r == ItemOwner::spec_from_db_ids(item.owner_citizen_id, item.owner_city_id, item.owner_country_id),
    {
        if let Some(id) = item.owner_citizen_id {
            ItemOwner::Citizen(id)
        } else if let Some(id) = item.owner_city_id {
            ItemOwner::City(id)
        } else if let Some(id) = item.owner_country_id {
            ItemOwner::Country(id)
        } else {
            ItemOwner::Nobody
        }
    }
}

/// The stored text of an item name.
pub open spec fn spec_item_name_text(name: ItemName) -> Seq<char> {
    match name {
        ItemName::Food => "Food"@,
        ItemName::Resource => "Resource"@,
        ItemName::Weapon => "Weapon"@,
        ItemName::Money => "Money"@,
    }
}

impl ItemName {
    /// The name as text: "Food", "Resource", "Weapon" or "Money".
    pub fn to_string(&self) -> (r: String)
        ensures
            r@ == spec_item_name_text(*self),
    {
        match self {
            ItemName::Food => "Food".to_string(),
            ItemName::Resource => "Resource".to_string(),
            ItemName::Weapon => "Weapon".to_string(),
            ItemName::Money => "Money".to_string(),
        }
    }

    /// Reads a stored name. The catch-all arm comes first, so every text,
    /// "Resource", "Weapon" and "Money" included, reads as `Food`.
    pub fn from_string(s: &str) -> (r: ItemName)
        ensures
            r == ItemName::Food,
    {
        let _ = s;
        ItemName::Food
    }
}

/// Storing an owner and reading it back gives the same owner: the three
/// ids written for an owner are read back as that owner.
pub proof fn lemma_owner_round_trip(o: ItemOwner)
    ensures
        ItemOwner::spec_from_db_ids(spec_owner_citizen_id(o), spec_owner_city_id(o), spec_owner_country_id(o)) == o,
{
}

/// The item a stored row describes: its id, count and owner, and the
/// name `from_string` reads, which is always `Food`.
pub open spec fn spec_item_from_db(row: DBItem) -> Item {
    Item {
        count: row.count,
        id: row.id,
        name: ItemName::Food,
        owner: ItemOwner::spec_from_db_ids(row.owner_citizen_id, row.owner_city_id, row.owner_country_id),
    }
}

/// An item written to storage and read back keeps its id, count and owner;
/// its name comes back as `Food`, so only a food item comes back whole.
pub proof fn lemma_item_round_trip(item: Item, row: DBItem)
    requires
        row.id == item.id,
        row.count == item.count,
        row.name@ == spec_item_name_text(item.name),
        row.owner_citizen_id == spec_owner_citizen_id(item.owner),
        row.owner_city_id == spec_owner_city_id(item.owner),
        row.owner_country_id == spec_owner_country_id(item.owner),
    ensures
        spec_item_from_db(row) == (Item { name: ItemName::Food, ..item }),
        item.name == ItemName::Food ==> spec_item_from_db(row) == item,
{
}

impl Item {
    /// The item a stored row describes.
    pub fn from_db_item(row: &DBItem) -> (r: Item)
        ensures
            r == spec_item_from_db(*row),
    {
        Item {
            id: row.id,
            name: ItemName::from_string(row.name.as_str()),
            count: row.count,
            owner: ItemOwner::from_db_item(row),
        }
    }

    /// The stored row of an item, as it is written to storage (the stored
    /// row gets its id from storage; `id` here carries the item's own).
    pub fn to_db_item(&self) -> (r: DBItem)
        ensures
            r.id == self.id,
            r.count == self.count,
            r.name@ == spec_item_name_text(self.name),
            r.owner_citizen_id == spec_owner_citizen_id(self.owner),
            r.owner_city_id == spec_owner_city_id(self.owner),
            r.owner_country_id == spec_owner_country_id(self.owner),
    {
        DBItem {
            count: self.count,
            id: self.id,
            name: self.name.to_string(),
            owner_citizen_id: self.owner.to_owner_citizen_id(),
            owner_city_id: self.owner.to_owner_city_id(),
            owner_country_id: self.owner.to_owner_country_id(),
        }
    }
}

} // verus!
