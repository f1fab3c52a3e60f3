use vstd::hash_map::{HashMapWithView, StringHashMap};
use vstd::prelude::*;

verus! {

broadcast use vstd::std_specs::hash::group_hash_axioms;

/// One checkpoint of a course.
pub struct Waypoint {
    pub x: i32,
    pub y: i32,
    pub z: i32,
    /// Positions, in the index, of the waypoints that must be reached first.
    pub gates: Vec<usize>,
    pub name: String,
    /// The 1-based source line that declared this waypoint.
    pub number: usize,
}

/// What a waypoint holds, as plain values.
pub struct WaypointView {
    pub x: i32,
    pub y: i32,
    pub z: i32,
    pub gates: Seq<usize>,
    pub name: Seq<char>,
    pub number: usize,
}

impl View for Waypoint {
    type V = WaypointView;

    open spec fn view(&self) -> WaypointView {
        WaypointView {
            x: self.x,
            y: self.y,
            z: self.z,
            gates: self.gates@,
            name: self.name@,
            number: self.number,
        }
    }
}

/// The position of the last waypoint named `name`, if any.
pub open spec fn last_named(ws: Seq<WaypointView>, name: Seq<char>) -> Option<usize>
    decreases ws.len(),
{
    if ws.len() == 0 {
        None
    } else if ws.last().name == name {
        Some((ws.len() - 1) as usize)
    } else {
        last_named(ws.drop_last(), name)
    }
}

/// The position of the last waypoint declared on line `number`, if any.
pub open spec fn last_numbered(ws: Seq<WaypointView>, number: usize) -> Option<usize>
    decreases ws.len(),
{
    if ws.len() == 0 {
        None
    } else if ws.last().number == number {
        Some((ws.len() - 1) as usize)
    } else {
        last_numbered(ws.drop_last(), number)
    }
}

/// Append-only sequence of waypoints, keyed both by name and by line number.
pub struct WaypointIndexMap {
    hash_map: StringHashMap<usize>,
    number_map: HashMapWithView<usize, usize>,
    vec: Vec<Waypoint>,
}

impl View for WaypointIndexMap {
    type V = Seq<WaypointView>;

    closed spec fn view(&self) -> Seq<WaypointView> {
        self.vec@.map_values(|w: Waypoint| w@)
    }
}

impl WaypointIndexMap {
    /// Both maps send each key to the last position that carries it.
    pub closed spec fn wf(&self) -> bool {
        &&& forall|k: Seq<char>|
            #![trigger self.hash_map@.contains_key(k)]
            #![trigger last_named(self@, k)]
            if self.hash_map@.contains_key(k) {
                last_named(self@, k) == Some(self.hash_map@[k])
            } else {
                last_named(self@, k) is None
            }
        &&& forall|k: usize|
            #![trigger self.number_map@.contains_key(k)]
            #![trigger last_numbered(self@, k)]
            if self.number_map@.contains_key(k) {
                last_numbered(self@, k) == Some(self.number_map@[k])
            } else {
                last_numbered(self@, k) is None
            }
    }

    pub fn new() -> (r: WaypointIndexMap)
        ensures
            r.wf(),
            r@ == Seq::<WaypointView>::empty(),
    {
        let r = WaypointIndexMap {
            hash_map: StringHashMap::new(),
            number_map: HashMapWithView::new(),
            vec: Vec::new(),
        };
        assert(r@ =~= Seq::<WaypointView>::empty());
        r
    }

    pub fn get_by_name(&self, name: &str) -> (r: Option<usize>)
        requires
            self.wf(),
        ensures
            r == last_named(self@, name@),
    {
        match self.hash_map.get(name) {
            Some(i) => Some(*i),
            None => None,
        }
    }

    pub fn get_by_number(&self, number: &usize) -> (r: Option<usize>)
        requires
            self.wf(),
        ensures
            r == last_numbered(self@, *number),
    {
        match self.number_map.get(number) {
            Some(i) => Some(*i),
            None => None,
        }
    }

    pub fn add(&mut self, waypoint: Waypoint)
        requires
            old(self).wf(),
        ensures
            final(self).wf(),
            final(self)@ == old(self)@.push(waypoint@),
    {
        let ghost before = self@;
        let name = waypoint.name.clone();
        let number = waypoint.number;
        self.vec.push(waypoint);
        let pos = self.vec.len() - 1;
        self.hash_map.insert(name, pos);
        self.number_map.insert(number, pos);
        assert(self@ =~= before.push(waypoint@));
        assert(self@.drop_last() =~= before);
    }

    pub fn len(&self) -> (r: usize)
        ensures
            r == self@.len(),
    {
        self.vec.len()
    }

    /// The waypoints in the order of insertion.
    pub fn waypoints(&self) -> (r: &Vec<Waypoint>)
        ensures
            r@.map_values(|w: Waypoint| w@) == self@,
    {
        &self.vec
    }
}

} // verus!
