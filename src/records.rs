use vstd::prelude::*;

verus! {

/// Process-wide configuration shared read-only by every request.
pub struct AppState {
    /// Base of every scan target: a label points at `{root_url}/{route}/{id}`.
    pub root_url: String,
}

/// A physical place, such as a building, that holds containers.
pub struct Site {
    pub id: Option<i64>,
    pub name: String,
    pub note: Option<String>,
    pub photo: Option<Vec<u8>>,
}

/// A container of any size, possibly held by another container: a building
/// holds a toolchest, which holds a cabinet.
pub struct Container {
    pub id: Option<i64>,
    pub parent_container_id: Option<i64>,
    pub name: String,
    pub note: Option<String>,
    pub photo: Option<Vec<u8>>,
}

/// The fields of a container that a full update replaces.
pub struct PutContainer {
    pub parent_container_id: Option<i64>,
    pub name: String,
    pub note: Option<String>,
    pub photo: Option<Vec<u8>>,
}

/// A kind of item, not one piece of it: an M3 bolt, 20mm long.
pub struct Item {
    pub id: Option<i64>,
    pub name: String,
    pub note: Option<String>,
    pub photo: Option<Vec<u8>>,
}

/// Where an item is kept: container `container_id` holds `quantity` of item `item_id`.
pub struct ItemLocation {
    pub id: Option<i64>,
    pub item_id: i64,
    pub container_id: i64,
    pub quantity: Option<i64>,
}

/// The greeting served at the root route.
pub fn index() -> (r: &'static str)
    ensures
        r@ == "Hello, world!"@,
{
    "Hello, world!"
}

/// The state the server is launched with: scan targets resolve under `http://foobar.com`.
pub fn rocket() -> (r: AppState)
    ensures
        r.root_url@ == "http://foobar.com"@,
{
    AppState { root_url: String::from_str("http://foobar.com") }
}

} // verus!
