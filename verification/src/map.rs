use vstd::prelude::*;

use crate::container::{find_within, found, replaced_within, same_container, Container};
use crate::position::{
    build_rectangular_area, contains_spec, line_fits, neighbors_spec, rectangular_area, rectangular_area_fits, sides_spec, Area,
    AreaSide, Position, Side,
};
use crate::tile::{is_library_tile, library_tile, TileDetails, TileType};

verus! {

/// A door of a room: where it is and the tile it is drawn with.
#[derive(Clone, Copy, Debug)]
pub struct Door {
    pub position: Position,
    pub tile_details: TileDetails,
}

/// A door at the given position, drawn with the library's door tile.
pub fn build_door(position: Position) -> (door: Door)
    ensures
        door.position == position,
        is_library_tile(door.tile_details, TileType::Door),
{
    Door { position, tile_details: library_tile(TileType::Door) }
}

/// A room of the map: its area (walls included), its doors, and the map's
/// entry and exit when they lie in it.
#[derive(Debug)]
pub struct Room {
    pub area: Area,
    pub doors: Vec<Door>,
    pub entry: Option<Position>,
    pub exit: Option<Position>,
}

impl Clone for Room {
    fn clone(&self) -> (r: Self)
        ensures
            r.area == self.area,
            r.doors@ == self.doors@,
            r.entry == self.entry,
            r.exit == self.exit,
    {
        let mut doors: Vec<Door> = Vec::new();
        let mut i: usize = 0;
        while i < self.doors.len()
            invariant
                i <= self.doors@.len(),
                doors@ == self.doors@.take(i as int),
            decreases self.doors@.len() - i,
        {
            doors.push(self.doors[i]);
            i += 1;
            assert(doors@ =~= self.doors@.take(i as int));
        }
        assert(self.doors@.take(i as int) =~= self.doors@);
        Room { area: self.area, doors, entry: self.entry, exit: self.exit }
    }
}

/// The first cell inside the walls of an area.
pub open spec fn inside_start(a: Area) -> Position {
    Position { x: (a.start_position.x + 1) as u16, y: (a.start_position.y + 1) as u16 }
}

/// The cells inside the walls of an area.
pub open spec fn inside_area(a: Area) -> Area {
    rectangular_area(inside_start(a), (a.width - 2) as u16, (a.height - 2) as u16)
}

/// A room with the given area and doors, and neither entry nor exit.
pub fn build_room(area: Area, doors: Vec<Door>) -> (room: Room)
    ensures
        room.area == area,
        room.doors@ == doors@,
        room.entry == None::<Position>,
        room.exit == None::<Position>,
{
    Room { area, doors, entry: None, exit: None }
}

impl Room {
    pub fn get_area(&self) -> (a: Area)
        ensures
            a == self.area,
    {
        self.area
    }

    pub fn get_doors(&self) -> (doors: &Vec<Door>)
        ensures
            doors@ == self.doors@,
    {
        &self.doors
    }

    pub fn get_entry(&self) -> (p: Option<Position>)
        ensures
            p == self.entry,
    {
        self.entry
    }

    pub fn get_exit(&self) -> (p: Option<Position>)
        ensures
            p == self.exit,
    {
        self.exit
    }

    /// The sides of the room's area (its walls).
    pub fn get_sides(&self) -> (sides: Vec<AreaSide>)
        requires
            line_fits(self.area.start_position, self.area.height, Side::RIGHT),
            line_fits(self.area.start_position, self.area.width, Side::BOTTOM),
        ensures
            sides@ == sides_spec(self.area),
    {
        self.area.get_sides()
    }

    pub fn set_entry(&mut self, entry: Option<Position>)
        ensures
            final(self).entry == entry,
            final(self).area == old(self).area,
            final(self).doors@ == old(self).doors@,
            final(self).exit == old(self).exit,
    {
        self.entry = entry;
    }

    pub fn set_exit(&mut self, exit: Option<Position>)
        ensures
            final(self).exit == exit,
            final(self).area == old(self).area,
            final(self).doors@ == old(self).doors@,
            final(self).entry == old(self).entry,
    {
        self.exit = exit;
    }

    /// The cells inside the room's walls: its area less the outer ring.
    pub fn get_inside_area(&self) -> (a: Area)
        requires
            self.area.width >= 2,
            self.area.height >= 2,
            self.area.start_position.x < u16::MAX,
            self.area.start_position.y < u16::MAX,
            rectangular_area_fits(inside_start(self.area), (self.area.width - 2) as u16, (self.area.height - 2) as u16),
        ensures
            a == inside_area(self.area),
    {
        let start = Position { x: self.area.start_position.x + 1, y: self.area.start_position.y + 1 };
        build_rectangular_area(start, self.area.width - 2, self.area.height - 2)
    }

    pub fn set_doors(&mut self, doors: Vec<Door>)
        ensures
            final(self).doors@ == doors@,
            final(self).area == old(self).area,
            final(self).entry == old(self).entry,
            final(self).exit == old(self).exit,
    {
        self.doors = doors;
    }
}

/// The tiles of a map, row by row (`tiles[y][x]`).
#[derive(Debug)]
pub struct Tiles {
    pub tiles: Vec<Vec<TileDetails>>,
}

/// Whether two tile grids hold the same rows.
pub open spec fn same_tiles(a: Tiles, b: Tiles) -> bool {
    &&& a.tiles@.len() == b.tiles@.len()
    &&& forall|y: int| 0 <= y < a.tiles@.len() ==> #[trigger] a.tiles@[y]@ == b.tiles@[y]@
}

impl Clone for Tiles {
    fn clone(&self) -> (r: Self)
        ensures
            same_tiles(r, *self),
    {
        let mut tiles: Vec<Vec<TileDetails>> = Vec::new();
        let mut y: usize = 0;
        while y < self.tiles.len()
            invariant
                y <= self.tiles@.len(),
                tiles@.len() == y,
                forall|k: int| 0 <= k < y ==> #[trigger] tiles@[k]@ == self.tiles@[k]@,
            decreases self.tiles@.len() - y,
        {
            let row = &self.tiles[y];
            let mut copy: Vec<TileDetails> = Vec::new();
            let mut x: usize = 0;
            while x < row.len()
                invariant
                    x <= row@.len(),
                    copy@ == row@.take(x as int),
                decreases row@.len() - x,
            {
                copy.push(row[x]);
                x += 1;
                assert(copy@ =~= row@.take(x as int));
            }
            assert(copy@ =~= row@);
            tiles.push(copy);
            y += 1;
        }
        Tiles { tiles }
    }
}

/// The tile at a position, when the rows reach that far.
pub open spec fn tile_at(t: Tiles, position: Position) -> Option<TileDetails> {
    if position.y < t.tiles@.len() && position.x < t.tiles@[position.y as int]@.len() {
        Some(t.tiles@[position.y as int]@[position.x as int])
    } else {
        None
    }
}

impl Tiles {
    pub fn get_tile(&self, position: Position) -> (r: Option<TileDetails>)
        ensures
            r == tile_at(*self, position),
    {
        let y = position.y as usize;
        let x = position.x as usize;
        if y < self.tiles.len() {
            let row = &self.tiles[y];
            if x < row.len() {
                return Some(row[x]);
            }
        }
        None
    }

    pub fn set_tile(&mut self, position: Position, tile: TileDetails)
        requires
            position.y < old(self).tiles@.len(),
            position.x < old(self).tiles@[position.y as int]@.len(),
        ensures
            final(self).tiles@.len() == old(self).tiles@.len(),
            forall|y: int| 0 <= y < old(self).tiles@.len() && y != position.y ==>
                #[trigger] final(self).tiles@[y]@ == old(self).tiles@[y]@,
            final(self).tiles@[position.y as int]@ == old(self).tiles@[position.y as int]@.update(position.x as int, tile),
            forall|p: Position| #[trigger] tile_at(*final(self), p) == if p == position { Some(tile) } else { tile_at(*old(self), p) },
    {
        let x = position.x as usize;
        let y = position.y as usize;
        self.tiles[y][x] = tile;
        proof {
            assert forall|p: Position| #[trigger] tile_at(*self, p) == if p == position { Some(tile) } else { tile_at(*old(self), p) } by {
                if p.y == position.y && p.x != position.x && p.x < old(self).tiles@[p.y as int]@.len() {
                    assert(self.tiles@[p.y as int]@[p.x as int] == old(self).tiles@[p.y as int]@[p.x as int]);
                }
            }
        }
    }
}


/// The containers lying on the map, at most one per position.
#[derive(Debug)]
pub struct ContainerMap {
    entries: Vec<(Position, Container)>,
}

/// No position appears twice among the entries.
pub open spec fn entries_wf(e: Seq<(Position, Container)>) -> bool {
    forall|i: int, j: int| 0 <= i < e.len() && 0 <= j < e.len() && i != j ==> #[trigger] e[i].0 != #[trigger] e[j].0
}

/// Whether some entry lies at the position.
pub open spec fn entries_has(e: Seq<(Position, Container)>, p: Position) -> bool {
    exists|i: int| 0 <= i < e.len() && #[trigger] e[i].0 == p
}

/// The container of the entry at the position, if any.
pub open spec fn entries_get(e: Seq<(Position, Container)>, p: Position) -> Option<Container> {
    if entries_has(e, p) {
        Some(e[choose|i: int| 0 <= i < e.len() && #[trigger] e[i].0 == p].1)
    } else {
        None
    }
}

proof fn lemma_entries_index(e: Seq<(Position, Container)>, i: int)
    requires
        entries_wf(e),
        0 <= i < e.len(),
    ensures
        entries_has(e, e[i].0),
        entries_get(e, e[i].0) == Some(e[i].1),
{
    assert(e[i].0 == e[i].0);
}

/// Replacing the container of one entry keeps the positions unique and
/// changes what lies at that position only.
proof fn lemma_entries_update(e: Seq<(Position, Container)>, i: int, n: (Position, Container))
    requires
        entries_wf(e),
        0 <= i < e.len(),
        n.0 == e[i].0,
    ensures
        entries_wf(e.update(i, n)),
        entries_get(e.update(i, n), n.0) == Some(n.1),
        forall|q: Position| q != n.0 ==> #[trigger] entries_get(e.update(i, n), q) == entries_get(e, q),
{
    let u = e.update(i, n);
    lemma_entries_index(u, i);
    assert forall|q: Position| q != n.0 implies #[trigger] entries_get(u, q) == entries_get(e, q) by {
        if entries_has(e, q) {
            let k = choose|k: int| 0 <= k < e.len() && #[trigger] e[k].0 == q;
            lemma_entries_index(e, k);
            lemma_entries_index(u, k);
        } else if entries_has(u, q) {
            let k = choose|k: int| 0 <= k < u.len() && #[trigger] u[k].0 == q;
            assert(e[k].0 == q);
        }
    }
}

impl ContainerMap {
    /// No position holds two containers.
    pub closed spec fn wf(&self) -> bool {
        entries_wf(self.entries@)
    }

    /// Whether a container lies at the position.
    pub closed spec fn has(&self, p: Position) -> bool {
        entries_has(self.entries@, p)
    }

    closed spec fn index_of(&self, p: Position) -> int {
        choose|i: int| 0 <= i < self.entries@.len() && #[trigger] self.entries@[i].0 == p
    }

    /// The container lying at the position, if any.
    pub closed spec fn get_spec(&self, p: Position) -> Option<Container> {
        entries_get(self.entries@, p)
    }

    /// The number of positions holding a container.
    pub closed spec fn size(&self) -> nat {
        self.entries@.len()
    }

    proof fn lemma_index(&self, i: int)
        requires
            self.wf(),
            0 <= i < self.entries@.len(),
        ensures
            self.has(self.entries@[i].0),
            self.index_of(self.entries@[i].0) == i,
            self.get_spec(self.entries@[i].0) == Some(self.entries@[i].1),
    {
        assert(self.entries@[i].0 == self.entries@[i].0);
    }

    /// A container lies at a position exactly when one is found there.
    pub proof fn lemma_has_iff_found(&self, p: Position)
        ensures
            self.has(p) == (self.get_spec(p) is Some),
    {
    }

    /// An empty map of containers.
    pub fn new() -> (m: ContainerMap)
        ensures
            m.wf(),
            m.size() == 0,
            forall|p: Position| m.get_spec(p) == None::<Container>,
            forall|p: Position| !m.has(p),
    {
        ContainerMap { entries: Vec::new() }
    }

    fn position_index(&self, pos: Position) -> (r: Option<usize>)
        requires
            self.wf(),
        ensures
            match r {
                Some(i) => i < self.entries@.len() && self.entries@[i as int].0 == pos && self.index_of(pos) == i,
                None => !self.has(pos),
            },
    {
        let mut i: usize = 0;
        while i < self.entries.len()
            invariant
                self.wf(),
                i <= self.entries@.len(),
                forall|k: int| 0 <= k < i ==> #[trigger] self.entries@[k].0 != pos,
            decreases self.entries@.len() - i,
        {
            if self.entries[i].0 == pos {
                proof { self.lemma_index(i as int); }
                return Some(i);
            }
            i += 1;
        }
        None
    }

    /// The number of positions holding a container.
    pub fn len(&self) -> (n: usize)
        ensures
            n == self.size(),
    {
        self.entries.len()
    }

    pub fn contains_key(&self, pos: &Position) -> (r: bool)
        requires
            self.wf(),
        ensures
            r == self.has(*pos),
    {
        self.position_index(*pos).is_some()
    }

    /// The container at the position.
    pub fn get(&self, pos: &Position) -> (r: Option<&Container>)
        requires
            self.wf(),
        ensures
            found(r) == self.get_spec(*pos),
    {
        match self.position_index(*pos) {
            Some(i) => Some(&self.entries[i].1),
            None => None,
        }
    }

    /// A mutable reference to the container at the position. Whatever is
    /// written through it becomes the container at that position.
    pub fn get_mut(&mut self, pos: &Position) -> (r: Option<&mut Container>)
        requires
            old(self).wf(),
        ensures
            final(self).wf(),
            final(self).size() == old(self).size(),
            match r {
                Some(c) => {
                    &&& old(self).get_spec(*pos) == Some(*c)
                    &&& final(self).get_spec(*pos) == Some(*final(c))
                    &&& forall|q: Position| q != *pos ==> #[trigger] final(self).get_spec(q) == old(self).get_spec(q)
                },
                None => {
                    &&& old(self).get_spec(*pos) == None::<Container>
                    &&& forall|q: Position| #[trigger] final(self).get_spec(q) == old(self).get_spec(q)
                },
            },
    {
        match self.position_index(*pos) {
            Some(i) => {
                proof {
                    old(self).lemma_index(i as int);
                    let e = self.entries@;
                    assert forall|n: (Position, Container)| n.0 == *pos implies {
                        &&& entries_wf(#[trigger] e.update(i as int, n))
                        &&& entries_get(e.update(i as int, n), *pos) == Some(n.1)
                        &&& forall|q: Position| q != *pos ==> #[trigger] entries_get(e.update(i as int, n), q) == entries_get(e, q)
                    } by {
                        lemma_entries_update(e, i as int, n);
                    }
                }
                let r = &mut self.entries[i].1;
                Some(r)
            },
            None => None,
        }
    }

    /// The positions and containers, each position once.
    pub fn into_entries(self) -> (entries: Vec<(Position, Container)>)
        requires
            self.wf(),
        ensures
            entries@.len() == self.size(),
            forall|i: int, j: int| 0 <= i < entries@.len() && 0 <= j < entries@.len() && i != j
                ==> #[trigger] entries@[i].0 != #[trigger] entries@[j].0,
            forall|i: int| 0 <= i < entries@.len() ==> self.get_spec((#[trigger] entries@[i]).0) == Some(entries@[i].1),
            forall|p: Position| #[trigger] self.has(p) ==> exists|i: int| 0 <= i < entries@.len() && #[trigger] entries@[i].0 == p,
    {
        proof {
            assert forall|i: int| 0 <= i < self.entries@.len() implies self.get_spec((#[trigger] self.entries@[i]).0) == Some(self.entries@[i].1) by {
                self.lemma_index(i);
            }
        }
        self.entries
    }

    /// Places a container at the position, giving back the one that lay there.
    pub fn insert(&mut self, pos: Position, container: Container) -> (previous: Option<Container>)
        requires
            old(self).wf(),
        ensures
            final(self).wf(),
            previous == old(self).get_spec(pos),
            final(self).get_spec(pos) == Some(container),
            forall|q: Position| q != pos ==> #[trigger] final(self).get_spec(q) == old(self).get_spec(q),
            final(self).size() == old(self).size() + (if old(self).has(pos) { 0int } else { 1 }),
    {
        let ghost old_entries = self.entries@;
        match self.position_index(pos) {
            Some(i) => {
                let mut old_entry = (pos, container);
                std::mem::swap(&mut self.entries[i], &mut old_entry);
                proof {
                    assert(self.entries@ == old_entries.update(i as int, (pos, container)));
                    self.lemma_index(i as int);
                    assert forall|q: Position| q != pos implies #[trigger] self.get_spec(q) == old(self).get_spec(q) by {
                        if old(self).has(q) {
                            let k = old(self).index_of(q);
                            old(self).lemma_index(k);
                            self.lemma_index(k);
                        } else {
                            if self.has(q) {
                                let k = self.index_of(q);
                                assert(old(self).entries@[k].0 == q);
                            }
                        }
                    }
                }
                Some(old_entry.1)
            },
            None => {
                self.entries.push((pos, container));
                proof {
                    let n = old_entries.len() as int;
                    self.lemma_index(n);
                    assert forall|q: Position| q != pos implies #[trigger] self.get_spec(q) == old(self).get_spec(q) by {
                        if old(self).has(q) {
                            let k = old(self).index_of(q);
                            old(self).lemma_index(k);
                            self.lemma_index(k);
                        } else {
                            if self.has(q) {
                                let k = self.index_of(q);
                                assert(old(self).entries@[k].0 == q);
                            }
                        }
                    }
                }
                None
            },
        }
    }
}

impl Clone for ContainerMap {
    /// A copy holding, at each position, a copy of the container there.
    fn clone(&self) -> (r: Self)
        ensures
            r.size() == self.size(),
            self.wf() ==> r.wf(),
            forall|p: Position| #[trigger] r.has(p) == self.has(p),
            self.wf() ==> forall|p: Position| #[trigger] self.has(p) ==> same_container(r.get_spec(p).unwrap(), self.get_spec(p).unwrap()),
    {
        let mut entries: Vec<(Position, Container)> = Vec::new();
        let mut i: usize = 0;
        while i < self.entries.len()
            invariant
                i <= self.entries@.len(),
                entries@.len() == i,
                forall|k: int| 0 <= k < i ==> (#[trigger] entries@[k]).0 == self.entries@[k].0,
                forall|k: int| 0 <= k < i ==> same_container(#[trigger] entries@[k].1, self.entries@[k].1),
            decreases self.entries@.len() - i,
        {
            let entry = &self.entries[i];
            entries.push((entry.0, entry.1.clone()));
            i += 1;
        }
        let r = ContainerMap { entries };
        proof {
            assert forall|p: Position| #[trigger] r.has(p) == self.has(p) by {
                if self.has(p) {
                    let k = choose|k: int| 0 <= k < self.entries@.len() && #[trigger] self.entries@[k].0 == p;
                    assert(r.entries@[k].0 == p);
                }
                if r.has(p) {
                    let k = choose|k: int| 0 <= k < r.entries@.len() && #[trigger] r.entries@[k].0 == p;
                    assert(self.entries@[k].0 == p);
                }
            }
            if self.wf() {
                assert forall|i: int, j: int| 0 <= i < r.entries@.len() && 0 <= j < r.entries@.len() && i != j
                    implies #[trigger] r.entries@[i].0 != #[trigger] r.entries@[j].0 by {
                    assert(r.entries@[i].0 == self.entries@[i].0);
                    assert(r.entries@[j].0 == self.entries@[j].0);
                }
                assert forall|p: Position| #[trigger] self.has(p) implies same_container(r.get_spec(p).unwrap(), self.get_spec(p).unwrap()) by {
                    let k = self.index_of(p);
                    self.lemma_index(k);
                    assert(r.entries@[k].0 == p);
                    r.lemma_index(k);
                }
            }
        }
        r
    }
}


/// The map of a level: its area, tiles, rooms, and the containers lying on it
/// outside rooms (loot containers, for example).
#[derive(Debug)]
pub struct GameMap {
    pub area: Area,
    pub tiles: Tiles,
    pub rooms: Vec<Room>,
    pub containers: ContainerMap,
}

/// Whether two rooms hold the same area, doors, entry and exit.
pub open spec fn same_room(a: Room, b: Room) -> bool {
    &&& a.area == b.area
    &&& a.doors@ == b.doors@
    &&& a.entry == b.entry
    &&& a.exit == b.exit
}

/// Whether two lists of rooms hold the same rooms in the same order.
pub open spec fn same_rooms(a: Seq<Room>, b: Seq<Room>) -> bool {
    &&& a.len() == b.len()
    &&& forall|i: int| 0 <= i < a.len() ==> same_room(#[trigger] a[i], b[i])
}

impl Clone for GameMap {
    /// A copy of the map: the same area, tiles and rooms, and a copy of each
    /// container.
    fn clone(&self) -> (r: Self)
        ensures
            r.area == self.area,
            same_tiles(r.tiles, self.tiles),
            same_rooms(r.rooms@, self.rooms@),
            r.containers.size() == self.containers.size(),
            self.containers.wf() ==> r.containers.wf(),
            forall|p: Position| #[trigger] r.containers.has(p) == self.containers.has(p),
            self.containers.wf() ==> forall|p: Position| #[trigger] self.containers.has(p)
                ==> same_container(r.containers.get_spec(p).unwrap(), self.containers.get_spec(p).unwrap()),
    {
        let mut rooms: Vec<Room> = Vec::new();
        let mut i: usize = 0;
        while i < self.rooms.len()
            invariant
                i <= self.rooms@.len(),
                rooms@.len() == i,
                forall|k: int| 0 <= k < i ==> same_room(#[trigger] rooms@[k], self.rooms@[k]),
            decreases self.rooms@.len() - i,
        {
            rooms.push(self.rooms[i].clone());
            i += 1;
        }
        GameMap { area: self.area, tiles: self.tiles.clone(), rooms, containers: self.containers.clone() }
    }
}

/// The container at `pos` that stands for the same item as `target`: the
/// container lying there, or else the first one inside it (in pre-order).
pub open spec fn find_container_spec(m: GameMap, target: Container, pos: Position) -> Option<Container> {
    match m.containers.get_spec(pos) {
        Some(c) => if c.id() == target.id() { Some(c) } else { find_within(c, target.id()) },
        None => None,
    }
}

/// Whether `new` is the container `old` after changing, through a reference,
/// the container found in it for `id` into `sub`: `old` itself when it stands
/// for `id`, else the first container found inside it.
pub open spec fn changed_found(old: Container, new: Container, id: u128, sub: Container) -> bool {
    if old.id() == id {
        new == sub
    } else {
        replaced_within(old, new, id, sub)
    }
}

/// Whether a tile can be paved over: any traversable tile, or no tile at all.
pub open spec fn paveable_spec(t: Option<TileDetails>) -> bool {
    match t {
        Some(tile) => tile.tile_type == TileType::NoTile || tile.traversable,
        None => false,
    }
}

/// The neighbours of `position` that lie in `area`, when `position` itself does.
pub open spec fn map_neighbors_spec(area: Area, position: Position) -> Seq<Position> {
    if contains_spec(area, position) {
        neighbors_spec(position).filter(|n: Position| contains_spec(area, n))
    } else {
        Seq::empty()
    }
}

impl GameMap {
    pub open spec fn wf(&self) -> bool {
        self.containers.wf()
    }

    /// Whether the tile rows reach the given column and row.
    pub fn in_bounds(&self, x: usize, y: usize) -> (r: bool)
        ensures
            r == (y < self.tiles.tiles@.len() && x < self.tiles.tiles@[y as int]@.len()),
    {
        if y < self.tiles.tiles.len() {
            if x < self.tiles.tiles[y].len() {
                return true;
            }
        }
        false
    }

    pub fn position_in_bounds(&self, position: Position) -> (r: bool)
        ensures
            r == tile_at(self.tiles, position).is_some(),
    {
        self.in_bounds(position.x as usize, position.y as usize)
    }

    /// A copy of the rooms.
    pub fn get_rooms(&self) -> (rooms: Vec<Room>)
        ensures
            rooms@.len() == self.rooms@.len(),
            forall|i: int| 0 <= i < rooms@.len() ==> same_room(#[trigger] rooms@[i], self.rooms@[i]),
    {
        let mut rooms: Vec<Room> = Vec::new();
        let mut i: usize = 0;
        while i < self.rooms.len()
            invariant
                i <= self.rooms@.len(),
                rooms@.len() == i,
                forall|k: int| 0 <= k < i ==> same_room(#[trigger] rooms@[k], self.rooms@[k]),
            decreases self.rooms@.len() - i,
        {
            rooms.push(self.rooms[i].clone());
            i += 1;
        }
        rooms
    }

    /// The container lying at the position.
    pub fn get_container(&self, position: Position) -> (r: Option<&Container>)
        requires
            self.wf(),
        ensures
            found(r) == self.containers.get_spec(position),
    {
        self.containers.get(&position)
    }

    /// A mutable reference to the container lying at the position.
    pub fn get_container_at_position_mut(&mut self, position: Position) -> (r: Option<&mut Container>)
        requires
            old(self).wf(),
        ensures
            final(self).wf(),
            final(self).area == old(self).area,
            final(self).tiles == old(self).tiles,
            final(self).rooms == old(self).rooms,
            match r {
                Some(c) => {
                    &&& old(self).containers.get_spec(position) == Some(*c)
                    &&& final(self).containers.get_spec(position) == Some(*final(c))
                    &&& forall|q: Position| q != position ==> #[trigger] final(self).containers.get_spec(q) == old(self).containers.get_spec(q)
                },
                None => {
                    &&& old(self).containers.get_spec(position) == None::<Container>
                    &&& forall|q: Position| #[trigger] final(self).containers.get_spec(q) == old(self).containers.get_spec(q)
                },
            },
    {
        self.containers.get_mut(&position)
    }

    /// Replaces the container at the position by `new` when both stand for the
    /// same item; otherwise leaves the map as it is.
    pub fn replace_container(&mut self, pos: Position, new: Container)
        requires
            old(self).wf(),
        ensures
            final(self).wf(),
            final(self).area == old(self).area,
            final(self).tiles == old(self).tiles,
            final(self).rooms == old(self).rooms,
            match old(self).containers.get_spec(pos) {
                Some(c) => if c.id() == new.id() {
                    &&& final(self).containers.get_spec(pos) == Some(new)
                    &&& forall|q: Position| q != pos ==> #[trigger] final(self).containers.get_spec(q) == old(self).containers.get_spec(q)
                } else {
                    forall|q: Position| #[trigger] final(self).containers.get_spec(q) == old(self).containers.get_spec(q)
                },
                None => forall|q: Position| #[trigger] final(self).containers.get_spec(q) == old(self).containers.get_spec(q),
            },
    {
        if let Some(old_container) = self.containers.get_mut(&pos) {
            if old_container.id_equals(&new) {
                *old_container = new;
            }
        }
    }

    /// The containers at the position: the one lying there, if any.
    pub fn find_containers(&self, position: Position) -> (containers: Vec<&Container>)
        requires
            self.wf(),
        ensures
            containers@.len() <= 1,
            containers@.len() == 1 <==> self.containers.get_spec(position).is_some(),
            containers@.len() == 1 ==> self.containers.get_spec(position) == Some(*containers@[0]),
    {
        let mut containers: Vec<&Container> = Vec::new();
        if let Some(map_c) = self.containers.get(&position) {
            containers.push(map_c);
        }
        containers
    }

    /// The containers at the position (at most one), for changing them.
    pub fn find_containers_mut(&mut self, position: Position) -> (containers: Vec<&mut Container>)
        requires
            old(self).wf(),
        ensures
            final(self).wf(),
            final(self).area == old(self).area,
            final(self).tiles == old(self).tiles,
            final(self).rooms == old(self).rooms,
            containers@.len() <= 1,
            containers@.len() == 1 <==> old(self).containers.get_spec(position) is Some,
            containers@.len() == 1 ==> {
                &&& old(self).containers.get_spec(position) == Some(*containers@[0])
                &&& final(self).containers.get_spec(position) == Some(*final(containers@[0]))
                &&& forall|q: Position| q != position ==> #[trigger] final(self).containers.get_spec(q) == old(self).containers.get_spec(q)
            },
            containers@.len() == 0 ==> forall|q: Position| #[trigger] final(self).containers.get_spec(q) == old(self).containers.get_spec(q),
    {
        let mut containers: Vec<&mut Container> = Vec::new();
        if let Some(map_c) = self.containers.get_mut(&position) {
            containers.push(map_c);
        }
        containers
    }

    /// The containers lying on the map, for changing them.
    pub fn get_containers_mut(&mut self) -> (containers: &mut ContainerMap)
        ensures
            *containers == old(self).containers,
            final(self).containers == *final(containers),
            final(self).area == old(self).area,
            final(self).tiles == old(self).tiles,
            final(self).rooms == old(self).rooms,
    {
        &mut self.containers
    }

    /// The container at the position that stands for the same item as
    /// `target`: the container lying there, or one inside it.
    pub fn find_container(&self, target: &Container, pos: Position) -> (r: Option<&Container>)
        requires
            self.wf(),
        ensures
            found(r) == find_container_spec(*self, *target, pos),
    {
        let candidates = self.find_containers(pos);
        if candidates.len() == 1 {
            let c = candidates[0];
            if c.id_equals(target) {
                return Some(c);
            }
            return c.find(target.get_self_item());
        }
        None
    }

    /// The container at the position that stands for the same item as
    /// `target` (the container lying there, or one inside it), for changing
    /// it: what is written through the reference lands in that place.
    pub fn find_container_mut(&mut self, target: &Container, pos: Position) -> (r: Option<&mut Container>)
        requires
            old(self).wf(),
        ensures
            final(self).wf(),
            final(self).area == old(self).area,
            final(self).tiles == old(self).tiles,
            final(self).rooms == old(self).rooms,
            forall|q: Position| q != pos ==> #[trigger] final(self).containers.get_spec(q) == old(self).containers.get_spec(q),
            match r {
                Some(c) => {
                    &&& find_container_spec(*old(self), *target, pos) == Some(*c)
                    &&& final(self).containers.get_spec(pos) is Some
                    &&& changed_found(old(self).containers.get_spec(pos).unwrap(), final(self).containers.get_spec(pos).unwrap(),
                        target.id(), *final(c))
                },
                None => {
                    &&& find_container_spec(*old(self), *target, pos) is None
                    &&& final(self).containers.get_spec(pos) == old(self).containers.get_spec(pos)
                },
            },
    {
        let mut candidates = self.find_containers_mut(pos);
        if candidates.len() == 1 {
            let c = candidates.pop().unwrap();
            if c.id_equals(target) {
                return Some(c);
            }
            return c.find_mut(target.get_self_item());
        }
        None
    }

    pub fn is_paveable(&self, position: Position) -> (r: bool)
        ensures
            r == paveable_spec(tile_at(self.tiles, position)),
    {
        match self.tiles.get_tile(position) {
            Some(tile) => {
                if tile.tile_type == TileType::NoTile {
                    true
                } else {
                    tile.traversable
                }
            },
            None => false,
        }
    }

    pub fn is_traversable(&self, position: Position) -> (r: bool)
        ensures
            r == (match tile_at(self.tiles, position) {
                Some(tile) => tile.traversable,
                None => false,
            }),
    {
        match self.tiles.get_tile(position) {
            Some(tile) => tile.traversable,
            None => false,
        }
    }

    /// The neighbours of a position of the map that lie on the map too.
    pub fn get_neighbors(&self, position: Position) -> (results: Vec<Position>)
        ensures
            results@ == map_neighbors_spec(self.area, position),
    {
        let mut results: Vec<Position> = Vec::new();
        let area = self.area;
        if area.contains_position(position) {
            let neighbors = position.get_neighbors();
            let ghost keep = |n: Position| contains_spec(area, n);
            let mut i: usize = 0;
            while i < neighbors.len()
                invariant
                    i <= neighbors@.len(),
                    area == self.area,
                    keep == (|n: Position| contains_spec(area, n)),
                    results@ == neighbors@.take(i as int).filter(keep),
                decreases neighbors@.len() - i,
            {
                let n = neighbors[i];
                proof {
                    reveal_with_fuel(Seq::<_>::filter, 1);
                    assert(neighbors@.take(i + 1).drop_last() =~= neighbors@.take(i as int));
                }
                if area.contains_position(n) {
                    results.push(n);
                }
                i += 1;
            }
            assert(neighbors@.take(neighbors@.len() as int) =~= neighbors@);
        }
        results
    }
}

} // verus!
