use vstd::prelude::*;

use rand::Rng;
use rand_pcg::Pcg64;

use crate::container::{Container, ContainerType};
use crate::items::new_uuid;
use crate::map::{
    build_door, build_room, inside_area, inside_start, same_rooms, same_tiles, ContainerMap, Door, GameMap, Room, Tiles,
};
use crate::position::{
    AreaSide, area_positions, rectangular_area_fits, span, build_square_area, can_fit_spec, contains_spec, grown_area, intersects_spec,
    line_fits, mid_point_spec, side_from_index, sides_spec, well_formed_area, Area, Position, Side,
};
use crate::progress::{MultiStepProgress, Step};
use crate::tile::{build_library, is_library_tile, TileDetails, TileLibrary, TileType};

verus! {

/// The permuted congruential generator the map generator draws from.
#[verifier::external_type_specification]
#[verifier::external_body]
pub struct ExLcg128Xsl64(rand_pcg::Lcg128Xsl64);

/// A copy of the generator in the same state (`Clone` of `rand_pcg::Pcg64`,
/// which copies the generator's state and increment).
#[verifier::external_body]
fn copy_rng(rng: &Pcg64) -> (r: Pcg64)
    ensures
        r == *rng,
{
    rng.clone()
}

/// A value of `0..len` drawn from the generator (`rand::Rng::random_range` on
/// `usize`, which panics on an empty range). Which value comes out depends on
/// the generator's state; only the range is stated.
#[verifier::external_body]
fn random_below(rng: &mut Pcg64, len: usize) -> (r: usize)
    requires
        len > 0,
    ensures
        r < len,
{
    rng.random_range(0..len)
}

/// A value of `low..=high` drawn from the generator (`rand::Rng::random_range`
/// on `u16`, which panics on an empty range). Only the range is stated.
#[verifier::external_body]
fn random_u16_between(rng: &mut Pcg64, low: u16, high: u16) -> (r: u16)
    requires
        low <= high,
    ensures
        low <= r <= high,
{
    rng.random_range(low..=high)
}

/// A value of `low..=high` drawn from the generator (`rand::Rng::random_range`
/// on `i32`, which panics on an empty range). Only the range is stated.
#[verifier::external_body]
fn random_i32_between(rng: &mut Pcg64, low: i32, high: i32) -> (r: i32)
    requires
        low <= high,
    ensures
        low <= r <= high,
{
    rng.random_range(low..=high)
}

/// A side of an area drawn from the generator: an index of `0..=3` picks the
/// left, right, top or bottom side.
pub fn random_side(rng: &mut Pcg64) -> (side: Side)
    ensures
        side == Side::LEFT || side == Side::RIGHT || side == Side::TOP || side == Side::BOTTOM,
{
    let index = random_i32_between(rng, 0, 3);
    side_from_index(index as u32)
}

/// Generates the rooms of a map: squares placed at random where they fit the
/// map and keep clear of the rooms already placed, each with doors in the
/// middle of some of its sides.
pub struct MapGenerator {
    pub min_room_size: u16,
    pub max_room_size: u16,
    pub room_area_quota_percentage: u16,
    pub max_door_count: u16,
    pub tile_library: TileLibrary,
    pub map_area: Area,
    pub taken_positions: Vec<Position>,
    pub possible_room_positions: Vec<Position>,
    pub rng: Pcg64,
    pub progress: MultiStepProgress,
    pub map: GameMap,
}

fn step(id: &str, description: &str) -> (s: Step)
    ensures
        s.id@ == id@,
        s.description@ == description@,
{
    Step { id: String::from_str(id), description: String::from_str(description) }
}

/// A generator for the given area drawing from a copy of `rng`: rooms of 3 to 6
/// cells a side, until they take 30% of the area, with up to 4 doors each.
pub fn build_generator(rng: &Pcg64, map_area: Area) -> (g: MapGenerator)
    ensures
        g.min_room_size == 3,
        g.max_room_size == 6,
        g.room_area_quota_percentage == 30,
        g.max_door_count == 4,
        g.tile_library.wf(),
        g.map_area == map_area,
        g.taken_positions@.len() == 0,
        g.possible_room_positions@.len() == 0,
        g.rng == *rng,
        g.progress.wf(),
        g.progress.current() == 0,
        g.progress.all_steps().len() == 6,
        g.map.area == map_area,
        g.map.tiles.tiles@.len() == 0,
        g.map.rooms@.len() == 0,
        g.map.containers.wf(),
        g.map.containers.size() == 0,
{
    let mut map_generation_steps: Vec<Step> = Vec::new();
    map_generation_steps.push(step("mapgen", "Generating map..."));
    map_generation_steps.push(step("entry/exits", "Adding entry/exit..."));
    map_generation_steps.push(step("rooms", "Applying rooms..."));
    map_generation_steps.push(step("pathfinding", "Pathfinding..."));
    map_generation_steps.push(step("containers", "Generating containers..."));
    map_generation_steps.push(step("completed", "DONE! [ any key to start ]"));

    let progress = MultiStepProgress::for_steps_not_started(map_generation_steps);

    MapGenerator {
        min_room_size: 3,
        max_room_size: 6,
        room_area_quota_percentage: 30,
        max_door_count: 4,
        tile_library: build_library(),
        map_area,
        taken_positions: Vec::new(),
        possible_room_positions: Vec::new(),
        rng: copy_rng(rng),
        progress,
        map: GameMap { area: map_area, tiles: Tiles { tiles: Vec::new() }, rooms: Vec::new(), containers: ContainerMap::new() },
    }
}


/// The square area of `size` cells a side starting at `p`.
pub open spec fn square_at(p: Position, size: u16) -> Area {
    Area {
        start_position: p,
        end_position: Position { x: (p.x + size - 1) as u16, y: (p.y + size - 1) as u16 },
        width: size,
        height: size,
    }
}

/// Whether a door at `p` lies in the middle of one of the sides of `area`, and
/// on none of the sides of `map_area` (the edges of the map).
pub open spec fn door_spot(area: Area, map_area: Area, p: Position) -> bool {
    &&& exists|k: int| 0 <= k < 4 && p == mid_point_spec(#[trigger] sides_spec(area)[k])
    &&& forall|j: int| 0 <= j < 4 ==> !contains_spec(#[trigger] sides_spec(map_area)[j].area, p)
}

/// Whether the room has at most `max_doors` doors, each a door tile placed on a
/// door spot of the room.
pub open spec fn doors_placed(room: Room, map_area: Area, max_doors: u16) -> bool {
    &&& room.doors@.len() <= max_doors
    &&& doors_on_distinct_sides(room.doors@, room.area)
    &&& forall|i: int| 0 <= i < room.doors@.len() ==> {
        &&& door_spot(room.area, map_area, #[trigger] room.doors@[i].position)
        &&& is_library_tile(room.doors@[i].tile_details, TileType::Door)
    }
}

/// Whether `ks` names, for each door, the side of `area` in whose middle it
/// stands, no side twice.
pub open spec fn door_sides(doors: Seq<Door>, area: Area, ks: Seq<int>) -> bool {
    &&& ks.len() == doors.len()
    &&& forall|i: int| 0 <= i < ks.len() ==> 0 <= #[trigger] ks[i] < 4
        && doors[i].position == mid_point_spec(sides_spec(area)[ks[i]])
    &&& forall|i: int, j: int| 0 <= i < j < ks.len() ==> #[trigger] ks[i] != #[trigger] ks[j]
}

/// Whether each door stands in the middle of a different side of the area
/// (at most one door to a side).
pub open spec fn doors_on_distinct_sides(doors: Seq<Door>, area: Area) -> bool {
    exists|ks: Seq<int>| #[trigger] door_sides(doors, area, ks)
}

/// Whether `sides` holds `side`.
fn has_side(sides: &Vec<Side>, side: Side) -> (r: bool)
    ensures
        r == sides@.contains(side),
{
    let mut i: usize = 0;
    while i < sides.len()
        invariant
            i <= sides@.len(),
            forall|k: int| 0 <= k < i ==> sides@[k] != side,
        decreases sides@.len() - i,
    {
        if sides[i] == side {
            return true;
        }
        i += 1;
    }
    false
}

/// The index of the first area side that is `side`.
fn side_position(sides: &Vec<AreaSide>, side: Side) -> (r: Option<usize>)
    ensures
        match r {
            Some(k) => k < sides@.len() && sides@[k as int].side == side,
            None => forall|k: int| 0 <= k < sides@.len() ==> sides@[k].side != side,
        },
{
    let mut i: usize = 0;
    while i < sides.len()
        invariant
            i <= sides@.len(),
            forall|k: int| 0 <= k < i ==> sides@[k].side != side,
        decreases sides@.len() - i,
    {
        if sides[i].side == side {
            return Some(i);
        }
        i += 1;
    }
    None
}

/// What the generator needs of its own settings: its map's sides can be
/// built, and rooms get at least one door.
pub open spec fn settings_ok(g: &MapGenerator) -> bool {
    &&& g.max_door_count >= 1
    &&& line_fits(g.map_area.start_position, g.map_area.height, Side::RIGHT)
    &&& line_fits(g.map_area.start_position, g.map_area.width, Side::BOTTOM)
}

/// Whether two generators have the same settings, tile library and map area.
pub open spec fn same_settings(a: &MapGenerator, b: &MapGenerator) -> bool {
    &&& a.min_room_size == b.min_room_size
    &&& a.max_room_size == b.max_room_size
    &&& a.room_area_quota_percentage == b.room_area_quota_percentage
    &&& a.max_door_count == b.max_door_count
    &&& a.tile_library == b.tile_library
    &&& a.map_area == b.map_area
}

/// Whether two generators have the same settings and the same map.
pub open spec fn same_setup(a: &MapGenerator, b: &MapGenerator) -> bool {
    &&& same_settings(a, b)
    &&& a.map == b.map
}

impl MapGenerator {
    /// A room covering the square of `size` cells a side at `room_pos`, with a
    /// random number of doors (1 to `max_door_count` tries): each try picks a
    /// side at random and, when that side was not picked before and its middle
    /// is off the edges of the map, puts a door there.
    pub fn generate_room(&mut self, room_pos: Position, size: u16) -> (room: Room)
        requires
            settings_ok(old(self)),
            size >= 1,
            room_pos.x + size - 1 <= u16::MAX,
            room_pos.y + size - 1 <= u16::MAX,
        ensures
            room.area == square_at(room_pos, size),
            room.entry is None,
            room.exit is None,
            doors_placed(room, old(self).map_area, old(self).max_door_count),
            same_setup(old(self), final(self)),
            final(self).taken_positions == old(self).taken_positions,
            final(self).possible_room_positions == old(self).possible_room_positions,
    {
        let room_area = build_square_area(room_pos, size);
        let mut room = build_room(room_area, Vec::new());
        let mut chosen_sides: Vec<Side> = Vec::new();
        let room_sides = room.get_sides();

        let mut doors: Vec<Door> = Vec::new();

        let door_count = random_u16_between(&mut self.rng, 1, self.max_door_count);
        let map_area = self.map_area;
        let map_sides = map_area.get_sides();

        let mut x: u16 = 0;
        let ghost mut ks: Seq<int> = Seq::empty();
        proof {
            assert(door_sides(doors@, room_area, ks));
        }
        while x < door_count
            invariant
                x <= door_count <= self.max_door_count,
                door_sides(doors@, room_area, ks),
                forall|i: int| 0 <= i < ks.len() ==> chosen_sides@.contains(#[trigger] sides_spec(room_area)[ks[i]].side),
                room.area == room_area,
                room_area == square_at(room_pos, size),
                size >= 1,
                room_pos.x + size - 1 <= u16::MAX,
                room_pos.y + size - 1 <= u16::MAX,
                room_sides@ == sides_spec(room_area),
                map_area == self.map_area,
                map_sides@ == sides_spec(map_area),
                doors@.len() <= x,
                same_setup(old(self), self),
                self.taken_positions == old(self).taken_positions,
                self.possible_room_positions == old(self).possible_room_positions,
                forall|i: int| 0 <= i < doors@.len() ==> {
                    &&& door_spot(room_area, map_area, #[trigger] doors@[i].position)
                    &&& is_library_tile(doors@[i].tile_details, TileType::Door)
                },
            decreases door_count - x,
        {
            let side = random_side(&mut self.rng);
            if !has_side(&chosen_sides, side) {
                let ghost chosen0 = chosen_sides@;
                chosen_sides.push(side);
                proof {
                    assert forall|i: int| 0 <= i < ks.len() implies chosen_sides@.contains(#[trigger] sides_spec(room_area)[ks[i]].side) by {
                        let m = choose|m: int| 0 <= m < chosen0.len() && chosen0[m] == sides_spec(room_area)[ks[i]].side;
                        assert(chosen_sides@[m] == chosen0[m]);
                    }
                }

                let side_idx = side_position(&room_sides, side);
                proof {
                    assert(sides_spec(room_area)[0].side == Side::LEFT);
                    assert(sides_spec(room_area)[1].side == Side::RIGHT);
                    assert(sides_spec(room_area)[2].side == Side::TOP);
                    assert(sides_spec(room_area)[3].side == Side::BOTTOM);
                }
                let k = side_idx.unwrap();
                let area_side = room_sides[k];
                let door_position = area_side.get_mid_point();

                // Doors never go on the edges of the map
                let mut valid_pos = true;
                let mut j: usize = 0;
                while j < map_sides.len()
                    invariant
                        j <= map_sides@.len(),
                        map_sides@ == sides_spec(map_area),
                        valid_pos == forall|i: int| 0 <= i < j ==> !contains_spec(#[trigger] map_sides@[i].area, door_position),
                    decreases map_sides@.len() - j,
                {
                    if map_sides[j].area.contains_position(door_position) {
                        valid_pos = false;
                    }
                    j += 1;
                }

                if valid_pos {
                    let door = build_door(door_position);
                    proof {
                        assert(door_position == mid_point_spec(sides_spec(room_area)[k as int]));
                        assert forall|i: int| 0 <= i < 4 implies !contains_spec(#[trigger] sides_spec(map_area)[i].area, door_position) by {
                            assert(map_sides@[i] == sides_spec(map_area)[i]);
                        }
                        assert(door_spot(room_area, map_area, door.position));
                    }
                    let ghost before = doors@;
                    let ghost ks0 = ks;
                    doors.push(door);
                    proof {
                        ks = ks0.push(k as int);
                        assert forall|i: int| 0 <= i < ks0.len() implies ks0[i] != k as int by {
                            assert(chosen0.contains(sides_spec(room_area)[ks0[i]].side));
                            if ks0[i] == k as int {
                                assert(sides_spec(room_area)[k as int].side == side);
                            }
                        }
                        assert(door_sides(doors@, room_area, ks)) by {
                            assert forall|i: int| 0 <= i < ks.len() implies 0 <= #[trigger] ks[i] < 4
                                && doors@[i].position == mid_point_spec(sides_spec(room_area)[ks[i]]) by {
                                if i < ks0.len() {
                                    assert(ks[i] == ks0[i]);
                                    assert(doors@[i] == before[i]);
                                }
                            }
                            assert forall|i: int, j: int| 0 <= i < j < ks.len() implies #[trigger] ks[i] != #[trigger] ks[j] by {
                                if j < ks0.len() {
                                    assert(ks[i] == ks0[i] && ks[j] == ks0[j]);
                                } else {
                                    assert(ks[i] == ks0[i]);
                                }
                            }
                        }
                        assert forall|i: int| 0 <= i < ks.len() implies chosen_sides@.contains(#[trigger] sides_spec(room_area)[ks[i]].side) by {
                            if i < ks0.len() {
                                assert(ks[i] == ks0[i]);
                            } else {
                                assert(chosen_sides@[chosen_sides@.len() - 1] == side);
                            }
                        }
                    }
                    assert forall|i: int| 0 <= i < doors@.len() implies {
                        &&& door_spot(room_area, map_area, #[trigger] doors@[i].position)
                        &&& is_library_tile(doors@[i].tile_details, TileType::Door)
                    } by {
                        if i < before.len() {
                            assert(doors@[i] == before[i]);
                        }
                    }
                }
            }
            x += 1;
        }
        room.set_doors(doors);
        room
    }
}


/// The positions `find_possible_room_positions` lists for a map ending at
/// `end`: `x` from 1 to `end.x - 2`, and for each `x`, `y` from 1 to `end.y - 2`.
pub open spec fn interior_grid(end: Position) -> Seq<Position> {
    let nx: int = if end.x >= 2 { end.x - 2 } else { 0 };
    let ny: int = if end.y >= 2 { end.y - 2 } else { 0 };
    Seq::new((nx * ny) as nat, |i: int| Position { x: (1 + i / ny) as u16, y: (1 + i % ny) as u16 })
}

/// Whether every position in the list leaves room for a room of `max_size`
/// cells without leaving the `u16` range.
pub open spec fn positions_bounded(ps: Seq<Position>, max_size: u16) -> bool {
    forall|i: int| 0 <= i < ps.len() ==> (#[trigger] ps[i]).x + max_size < u16::MAX && ps[i].y + max_size < u16::MAX
}

impl MapGenerator {
    /// Lists every position at least one cell inside the map's edges as a
    /// possible room position.
    pub fn find_possible_room_positions(&mut self)
        requires
            old(self).map_area.end_position.x >= 1,
            old(self).map_area.end_position.y >= 1,
        ensures
            final(self).possible_room_positions@ == old(self).possible_room_positions@ + interior_grid(old(self).map_area.end_position),
            same_setup(old(self), final(self)),
            final(self).taken_positions == old(self).taken_positions,
    {
        let map_end = self.map_area.end_position;
        let ghost start = self.possible_room_positions@;
        let ghost target = interior_grid(map_end);
        let ghost ny: int = if map_end.y >= 2 { map_end.y - 2 } else { 0 };
        let x_end = map_end.x - 1;
        let y_end = map_end.y - 1;
        let mut x: u16 = 1;
        while x < x_end
            invariant
                x_end == map_end.x - 1,
                y_end == map_end.y - 1,
                map_end == self.map_area.end_position,
                1 <= x,
                x_end >= 1 ==> x <= x_end,
                x_end < 1 ==> x == 1,
                ny == (if map_end.y >= 2 { map_end.y - 2 } else { 0int }),
                target == interior_grid(map_end),
                self.possible_room_positions@.len() == start.len() + (x - 1) * ny,
                forall|i: int| 0 <= i < start.len() ==> #[trigger] self.possible_room_positions@[i] == start[i],
                forall|i: int| 0 <= i < (x - 1) * ny ==> #[trigger] self.possible_room_positions@[start.len() + i] == target[i],
                same_setup(old(self), self),
                self.taken_positions == old(self).taken_positions,
            decreases x_end - x,
        {
            let mut y: u16 = 1;
            let ghost base = (x - 1) * ny;
            while y < y_end
                invariant
                    x_end == map_end.x - 1,
                    y_end == map_end.y - 1,
                    map_end == self.map_area.end_position,
                    1 <= x < x_end,
                    1 <= y,
                    y_end >= 1 ==> y <= y_end,
                    y_end < 1 ==> y == 1,
                    ny == (if map_end.y >= 2 { map_end.y - 2 } else { 0int }),
                    target == interior_grid(map_end),
                    base == (x - 1) * ny,
                    self.possible_room_positions@.len() == start.len() + base + (y - 1),
                    forall|i: int| 0 <= i < start.len() ==> #[trigger] self.possible_room_positions@[i] == start[i],
                    forall|i: int| 0 <= i < base + (y - 1) ==> #[trigger] self.possible_room_positions@[start.len() + i] == target[i],
                    same_setup(old(self), self),
                    self.taken_positions == old(self).taken_positions,
                decreases y_end - y,
            {
                proof {
                    let i = base + (y - 1);
                    let k = x - 1;
                    let j = y - 1;
                    assert(ny == y_end - 1);
                    crate::position::lemma_index_split(i, k, j, ny);
                    assert(i < (x_end - 1) * ny) by (nonlinear_arith)
                        requires
                            i == k * ny + j,
                            j < ny,
                            k + 1 <= x_end - 1,
                            ny > 0;
                    assert(target[i] == Position { x, y });
                }
                let ghost before = self.possible_room_positions@;
                self.possible_room_positions.push(Position { x, y });
                proof {
                    assert forall|i: int| 0 <= i < base + (y + 1 - 1) implies #[trigger] self.possible_room_positions@[start.len() + i] == target[i] by {
                        if i < base + (y - 1) {
                            assert(self.possible_room_positions@[start.len() + i] == before[start.len() + i]);
                        }
                    }
                }
                y += 1;
            }
            proof {
                if y_end > 1 {
                    assert(y == y_end);
                } else {
                    assert(ny == 0);
                }
                assert(x * ny == (x - 1) * ny + ny) by (nonlinear_arith);
            }
            x += 1;
        }
        proof {
            let nx: int = if map_end.x >= 2 { map_end.x - 2 } else { 0 };
            if x_end > 1 {
                assert(x == x_end);
                assert(x - 1 == nx);
            } else {
                assert(nx == 0);
                assert(nx * ny == 0);
                assert(x - 1 == 0);
            }
            assert(target.len() == nx * ny);
            assert(self.possible_room_positions@.len() == start.len() + nx * ny);
            assert forall|i: int| 0 <= i < self.possible_room_positions@.len() implies
                self.possible_room_positions@[i] == (start + target)[i] by {
                if i >= start.len() {
                    let j = i - start.len();
                    assert(self.possible_room_positions@[start.len() + j] == target[j]);
                }
            }
            assert(self.possible_room_positions@ =~= start + target);
        }
    }

    /// Moves `position` from the possible room positions to the taken ones,
    /// when it is listed (its first occurrence).
    pub fn remove_possible_position(&mut self, position: Position) -> (r: Option<Position>)
        ensures
            same_setup(old(self), final(self)),
            old(self).possible_room_positions@.contains(position) ==> {
                &&& r == Some(position)
                &&& final(self).taken_positions@ == old(self).taken_positions@.push(position)
                &&& exists|k: int| {
                    &&& 0 <= k < old(self).possible_room_positions@.len()
                    &&& #[trigger] old(self).possible_room_positions@[k] == position
                    &&& forall|j: int| 0 <= j < k ==> old(self).possible_room_positions@[j] != position
                    &&& final(self).possible_room_positions@ == old(self).possible_room_positions@.remove(k)
                }
            },
            !old(self).possible_room_positions@.contains(position) ==> {
                &&& r is None
                &&& final(self).taken_positions == old(self).taken_positions
                &&& final(self).possible_room_positions == old(self).possible_room_positions
            },
    {
        let mut i: usize = 0;
        while i < self.possible_room_positions.len()
            invariant
                i <= self.possible_room_positions@.len(),
                forall|j: int| 0 <= j < i ==> self.possible_room_positions@[j] != position,
                same_setup(old(self), self),
                self.possible_room_positions == old(self).possible_room_positions,
                self.taken_positions == old(self).taken_positions,
            decreases self.possible_room_positions@.len() - i,
        {
            if self.possible_room_positions[i] == position {
                let ghost k = i as int;
                assert(old(self).possible_room_positions@[k] == position);
                self.possible_room_positions.remove(i);
                self.taken_positions.push(position);
                return Some(position);
            }
            i += 1;
        }
        proof {
            if old(self).possible_room_positions@.contains(position) {
                let k = choose|k: int| 0 <= k < old(self).possible_room_positions@.len() && old(self).possible_room_positions@[k] == position;
                assert(self.possible_room_positions@[k] != position);
            }
        }
        None
    }
}


/// Whether the room is a square of `min_size` to `max_size` cells a side that
/// fits in the map, with no entry or exit yet, and with its doors placed.
pub open spec fn room_in_map(room: Room, map_area: Area, min_size: u16, max_size: u16, max_doors: u16) -> bool {
    &&& min_size <= room.area.width <= max_size
    &&& room.area == square_at(room.area.start_position, room.area.width)
    &&& can_fit_spec(map_area, room.area.start_position, room.area.width)
    &&& room.entry is None
    &&& room.exit is None
    &&& doors_placed(room, map_area, max_doors)
}

/// Whether no room reaches into an earlier room or the ring of cells around it,
/// as `intersects_or_touches` tells.
pub open spec fn rooms_apart(rooms: Seq<Room>) -> bool {
    forall|i: int, j: int| 0 <= i < j < rooms.len() ==> !intersects_spec(grown_area(#[trigger] rooms[i].area), #[trigger] rooms[j].area)
}

/// What generating rooms needs: the generator's settings hold, room sizes run
/// from at least 1 up, the map reaches past its origin, and no room, area
/// total or percentage total can leave the `u16` range.
pub open spec fn generation_ok(g: &MapGenerator) -> bool {
    &&& settings_ok(g)
    &&& 1 <= g.min_room_size <= g.max_room_size
    &&& g.map_area.end_position.x >= 1
    &&& g.map_area.end_position.y >= 1
    &&& g.map_area.end_position.x + g.max_room_size < u16::MAX
    &&& g.map_area.end_position.y + g.max_room_size < u16::MAX
    &&& g.map_area.width * g.map_area.height + g.max_room_size * g.max_room_size <= u16::MAX
    &&& g.room_area_quota_percentage + 100 <= u16::MAX
    &&& positions_bounded(g.possible_room_positions@, g.max_room_size)
}

proof fn lemma_interior_grid_bounded(end: Position, max_size: u16)
    requires
        end.x + max_size < u16::MAX,
        end.y + max_size < u16::MAX,
    ensures
        positions_bounded(interior_grid(end), max_size),
{
    let g = interior_grid(end);
    let nx: int = if end.x >= 2 { end.x - 2 } else { 0 };
    let ny: int = if end.y >= 2 { end.y - 2 } else { 0 };
    assert forall|i: int| 0 <= i < g.len() implies (#[trigger] g[i]).x + max_size < u16::MAX && g[i].y + max_size < u16::MAX by {
        assert(ny > 0) by (nonlinear_arith)
            requires 0 <= i < nx * ny, nx >= 0, ny >= 0;
        vstd::arithmetic::div_mod::lemma_fundamental_div_mod(i, ny);
        assert(i / ny < nx) by (nonlinear_arith)
            requires 0 <= i < nx * ny, ny > 0, i == ny * (i / ny) + i % ny, 0 <= i % ny < ny;
        assert(i / ny >= 0) by (nonlinear_arith)
            requires 0 <= i, ny > 0;
    }
}

proof fn lemma_bounded_append(a: Seq<Position>, b: Seq<Position>, max_size: u16)
    requires
        positions_bounded(a, max_size),
        positions_bounded(b, max_size),
    ensures
        positions_bounded(a + b, max_size),
{
    assert forall|i: int| 0 <= i < (a + b).len() implies (#[trigger] (a + b)[i]).x + max_size < u16::MAX && (a + b)[i].y + max_size < u16::MAX by {
        if i < a.len() {
            assert((a + b)[i] == a[i]);
        } else {
            assert((a + b)[i] == b[i - a.len()]);
        }
    }
}

/// The share of the map a room takes, in whole percent rounded down.
fn area_usage_percentage(room_area: u16, total_area: u16) -> (r: u16)
    requires
        0 < total_area,
        room_area <= total_area,
    ensures
        r == (room_area as int) * 100 / (total_area as int),
        r <= 100,
{
    let r = (room_area as u32) * 100 / (total_area as u32);
    assert(r <= 100) by (nonlinear_arith)
        requires r == (room_area as int) * 100 / (total_area as int), room_area <= total_area, total_area > 0;
    r as u16
}

/// The list with the first occurrence of `q` taken out (the list itself when
/// `q` is not in it).
pub open spec fn remove_first(ps: Seq<Position>, q: Position) -> Seq<Position>
    decreases ps.len(),
{
    if ps.len() == 0 {
        ps
    } else if ps[0] == q {
        ps.drop_first()
    } else {
        seq![ps[0]] + remove_first(ps.drop_first(), q)
    }
}

/// The list after taking out, in turn, the first occurrence of each of `qs`.
pub open spec fn remove_all(ps: Seq<Position>, qs: Seq<Position>) -> Seq<Position>
    decreases qs.len(),
{
    if qs.len() == 0 {
        ps
    } else {
        remove_first(remove_all(ps, qs.drop_last()), qs.last())
    }
}

/// Those of `qs` that are still in the list when their turn comes to be
/// taken out of it, in the order they are taken out.
pub open spec fn found_in_turn(ps: Seq<Position>, qs: Seq<Position>) -> Seq<Position>
    decreases qs.len(),
{
    if qs.len() == 0 {
        Seq::empty()
    } else {
        found_in_turn(ps, qs.drop_last())
            + if remove_all(ps, qs.drop_last()).contains(qs.last()) { seq![qs.last()] } else { Seq::empty() }
    }
}

proof fn lemma_remove_first_at(ps: Seq<Position>, q: Position, k: int)
    requires
        0 <= k < ps.len(),
        ps[k] == q,
        forall|j: int| 0 <= j < k ==> ps[j] != q,
    ensures
        remove_first(ps, q) == ps.remove(k),
    decreases ps.len(),
{
    if k == 0 {
        assert(ps.drop_first() =~= ps.remove(0));
    } else {
        lemma_remove_first_at(ps.drop_first(), q, k - 1);
        assert(seq![ps[0]] + ps.drop_first().remove(k - 1) =~= ps.remove(k));
    }
}

proof fn lemma_remove_first_absent(ps: Seq<Position>, q: Position)
    requires
        !ps.contains(q),
    ensures
        remove_first(ps, q) == ps,
    decreases ps.len(),
{
    if ps.len() > 0 {
        assert(ps[0] != q);
        assert(!ps.drop_first().contains(q)) by {
            if ps.drop_first().contains(q) {
                let j = choose|j: int| 0 <= j < ps.drop_first().len() && ps.drop_first()[j] == q;
                assert(ps[j + 1] == q);
            }
        }
        lemma_remove_first_absent(ps.drop_first(), q);
        assert(seq![ps[0]] + ps.drop_first() =~= ps);
    }
}

impl MapGenerator {
    /// Removes each of `positions` from the possible room positions, in turn;
    /// each one found moves to the taken positions.
    fn remove_possible_positions(&mut self, positions: &Vec<Position>)
        ensures
            same_setup(old(self), final(self)),
            final(self).possible_room_positions@ == remove_all(old(self).possible_room_positions@, positions@),
            final(self).taken_positions@ == old(self).taken_positions@ + found_in_turn(old(self).possible_room_positions@, positions@),
            final(self).possible_room_positions@.len() <= old(self).possible_room_positions@.len(),
            positions@.len() > 0 && old(self).possible_room_positions@.contains(positions@[0])
                ==> final(self).possible_room_positions@.len() < old(self).possible_room_positions@.len(),
            forall|j: int| 0 <= j < final(self).possible_room_positions@.len()
                ==> old(self).possible_room_positions@.contains(#[trigger] final(self).possible_room_positions@[j]),
            forall|j: int| 0 <= j < old(self).possible_room_positions@.len()
                ==> final(self).possible_room_positions@.contains(#[trigger] old(self).possible_room_positions@[j])
                || found_in_turn(old(self).possible_room_positions@, positions@).contains(old(self).possible_room_positions@[j]),
            forall|j: int| 0 <= j < found_in_turn(old(self).possible_room_positions@, positions@).len()
                ==> positions@.contains(#[trigger] found_in_turn(old(self).possible_room_positions@, positions@)[j]),
    {
        let ghost len0 = self.possible_room_positions@.len();
        let ghost ps0 = self.possible_room_positions@;
        let mut i: usize = 0;
        while i < positions.len()
            invariant
                i <= positions@.len(),
                same_setup(old(self), self),
                ps0 == old(self).possible_room_positions@,
                self.possible_room_positions@ == remove_all(ps0, positions@.take(i as int)),
                self.taken_positions@ == old(self).taken_positions@ + found_in_turn(ps0, positions@.take(i as int)),
                self.possible_room_positions@.len() <= len0,
                len0 == old(self).possible_room_positions@.len(),
                i > 0 && positions@.len() > 0 && old(self).possible_room_positions@.contains(positions@[0])
                    ==> self.possible_room_positions@.len() < len0,
                i == 0 ==> self.possible_room_positions == old(self).possible_room_positions,
                forall|j: int| 0 <= j < self.possible_room_positions@.len()
                    ==> ps0.contains(#[trigger] self.possible_room_positions@[j]),
                forall|j: int| 0 <= j < ps0.len()
                    ==> self.possible_room_positions@.contains(#[trigger] ps0[j])
                    || found_in_turn(ps0, positions@.take(i as int)).contains(ps0[j]),
                forall|j: int| 0 <= j < found_in_turn(ps0, positions@.take(i as int)).len()
                    ==> positions@.contains(#[trigger] found_in_turn(ps0, positions@.take(i as int))[j]),
            decreases positions@.len() - i,
        {
            let ghost before = self.possible_room_positions@;
            let ghost found0 = found_in_turn(ps0, positions@.take(i as int));
            self.remove_possible_position(positions[i]);
            proof {
                let x = positions@[i as int];
                let t1 = positions@.take(i + 1);
                assert(t1.drop_last() =~= positions@.take(i as int));
                assert(t1.last() == x);
                let found1 = found_in_turn(ps0, t1);
                if before.contains(x) {
                    let k = choose|k: int| {
                        &&& 0 <= k < before.len()
                        &&& #[trigger] before[k] == x
                        &&& forall|j: int| 0 <= j < k ==> before[j] != x
                        &&& self.possible_room_positions@ == before.remove(k)
                    };
                    lemma_remove_first_at(before, x, k);
                    assert(found1 == found0 + seq![x]);
                    assert(self.taken_positions@ =~= old(self).taken_positions@ + found1);
                    let after = self.possible_room_positions@;
                    assert forall|j: int| 0 <= j < after.len() implies
                        ps0.contains(#[trigger] after[j]) by {
                        if j < k {
                            assert(after[j] == before[j]);
                        } else {
                            assert(after[j] == before[j + 1]);
                        }
                    }
                    assert forall|j: int| 0 <= j < ps0.len() implies
                        after.contains(#[trigger] ps0[j]) || found1.contains(ps0[j]) by {
                        let y = ps0[j];
                        if found0.contains(y) {
                            let m = choose|m: int| 0 <= m < found0.len() && found0[m] == y;
                            assert(found1[m] == y);
                        } else if y == x {
                            assert(found1[found0.len() as int] == y);
                        } else {
                            assert(before.contains(y));
                            let m = choose|m: int| 0 <= m < before.len() && before[m] == y;
                            if m < k {
                                assert(after[m] == y);
                            } else {
                                assert(after[m - 1] == y);
                            }
                        }
                    }
                    assert forall|j: int| 0 <= j < found1.len() implies positions@.contains(#[trigger] found1[j]) by {
                        if j < found0.len() {
                            assert(found1[j] == found0[j]);
                        } else {
                            assert(found1[j] == positions@[i as int]);
                        }
                    }
                } else {
                    lemma_remove_first_absent(before, x);
                    assert(found1 =~= found0);
                }
            }
            i += 1;
        }
        proof {
            assert(positions@.take(positions@.len() as int) =~= positions@);
        }
    }
}


/// The positions `generate_rooms` draws rooms from: those listed before it
/// runs, then every position one cell inside the map's edges.
pub open spec fn room_candidates(g: &MapGenerator) -> Seq<Position> {
    g.possible_room_positions@ + interior_grid(g.map_area.end_position)
}

/// How much of a map of `total_area` cells the rooms take, as room
/// generation counts it: the sum of each room's share in whole percent,
/// rounded down.
pub open spec fn rooms_usage(rooms: Seq<Room>, total_area: int) -> int
    decreases rooms.len(),
{
    if rooms.len() == 0 {
        0
    } else {
        rooms_usage(rooms.drop_last(), total_area) + (rooms.last().area.width * rooms.last().area.height) * 100 / total_area
    }
}

proof fn lemma_square_within_total(size: u16, width: u16, height: u16)
    requires
        size <= width,
        size <= height,
    ensures
        size * size <= width * height,
{
    assert(size * size <= width * height) by (nonlinear_arith)
        requires size <= width, size <= height, size >= 0;
}

/// The cells the rooms cover, summed.
pub open spec fn rooms_area(rooms: Seq<Room>) -> int
    decreases rooms.len(),
{
    if rooms.len() == 0 {
        0
    } else {
        rooms_area(rooms.drop_last()) + rooms.last().area.width * rooms.last().area.height
    }
}

/// Whether a room of `s` cells a side at `q` is refused next to `rooms`: it
/// does not fit the map, it reaches into one of the rooms or the ring of cells
/// around it, or the rooms already cover the map's `total_area` cells.
pub open spec fn placement_refused(map_area: Area, rooms: Seq<Room>, q: Position, s: u16, total_area: int) -> bool {
    ||| !can_fit_spec(map_area, q, s)
    ||| exists|i: int| 0 <= i < rooms.len() && intersects_spec(grown_area(#[trigger] rooms[i].area), square_at(q, s))
    ||| rooms_area(rooms) >= total_area
}

/// Why a position may stop being a possible room position: it lies in one of
/// the rooms, or in the square of a size the generator draws from, at one of
/// its candidate positions, that is refused next to the rooms.
pub open spec fn position_cleared(g: &MapGenerator, rooms: Seq<Room>, t: Position) -> bool {
    ||| exists|i: int| 0 <= i < rooms.len() && contains_spec(#[trigger] rooms[i].area, t)
    ||| exists|q: Position, s: u16| #![trigger contains_spec(square_at(q, s), t)]
        room_candidates(g).contains(q) && g.min_room_size <= s <= g.max_room_size
        && contains_spec(square_at(q, s), t)
        && placement_refused(g.map_area, rooms, q, s, g.map_area.width * g.map_area.height)
}

/// The positions taken since `before`, in the order they were taken.
pub open spec fn newly_taken(before: &MapGenerator, after: &MapGenerator) -> Seq<Position> {
    after.taken_positions@.subrange(before.taken_positions@.len() as int, after.taken_positions@.len() as int)
}

/// What generating `rooms` from `before` leaves in `after`, whatever the random
/// draws: the rooms lie in the map and keep apart, each at a candidate
/// position; every candidate is either still possible or newly taken, and
/// each newly taken position lies in a room or in a refused square; the
/// earlier taken positions stay first; and the rooms reach the quota unless
/// no possible position is left.
pub open spec fn generation_outcome(rooms: Seq<Room>, before: &MapGenerator, after: &MapGenerator) -> bool {
    &&& forall|i: int| 0 <= i < rooms.len() ==> room_in_map(#[trigger] rooms[i], before.map_area,
        before.min_room_size, before.max_room_size, before.max_door_count)
    &&& rooms_apart(rooms)
    &&& forall|i: int| 0 <= i < rooms.len() ==> room_candidates(before).contains(#[trigger] rooms[i].area.start_position)
    &&& forall|j: int| 0 <= j < after.possible_room_positions@.len()
        ==> room_candidates(before).contains(#[trigger] after.possible_room_positions@[j])
    &&& after.taken_positions@.len() >= before.taken_positions@.len()
    &&& after.taken_positions@.subrange(0, before.taken_positions@.len() as int) == before.taken_positions@
    &&& forall|i: int| 0 <= i < room_candidates(before).len()
        ==> after.possible_room_positions@.contains(#[trigger] room_candidates(before)[i])
        || newly_taken(before, after).contains(room_candidates(before)[i])
    &&& forall|j: int| 0 <= j < newly_taken(before, after).len()
        ==> position_cleared(before, rooms, #[trigger] newly_taken(before, after)[j])
    &&& rooms_usage(rooms, before.map_area.width * before.map_area.height) >= before.room_area_quota_percentage
        || after.possible_room_positions@.len() == 0
}

proof fn lemma_cleared_push(g: &MapGenerator, rooms: Seq<Room>, r: Room, t: Position)
    requires
        position_cleared(g, rooms, t),
    ensures
        position_cleared(g, rooms.push(r), t),
{
    let rs = rooms.push(r);
    assert(rs.drop_last() =~= rooms);
    assert(r.area.width * r.area.height >= 0) by (nonlinear_arith);
    assert(rooms_area(rs) >= rooms_area(rooms));
    if exists|i: int| 0 <= i < rooms.len() && contains_spec(#[trigger] rooms[i].area, t) {
        let i = choose|i: int| 0 <= i < rooms.len() && contains_spec(#[trigger] rooms[i].area, t);
        assert(rs[i] == rooms[i]);
    } else {
        let (q, s) = choose|q: Position, s: u16| #![trigger contains_spec(square_at(q, s), t)]
            room_candidates(g).contains(q) && g.min_room_size <= s <= g.max_room_size
            && contains_spec(square_at(q, s), t)
            && placement_refused(g.map_area, rooms, q, s, g.map_area.width * g.map_area.height);
        if exists|i: int| 0 <= i < rooms.len() && intersects_spec(grown_area(#[trigger] rooms[i].area), square_at(q, s)) {
            let i = choose|i: int| 0 <= i < rooms.len() && intersects_spec(grown_area(#[trigger] rooms[i].area), square_at(q, s));
            assert(rs[i] == rooms[i]);
        }
        assert(placement_refused(g.map_area, rs, q, s, g.map_area.width * g.map_area.height));
        assert(contains_spec(square_at(q, s), t));
    }
}

proof fn lemma_outcome_transfer(rooms: Seq<Room>, b1: &MapGenerator, b2: &MapGenerator, a1: &MapGenerator, a2: &MapGenerator)
    requires
        generation_outcome(rooms, b1, a1),
        same_settings(b1, b2),
        b1.possible_room_positions@ == b2.possible_room_positions@,
        b1.taken_positions@ == b2.taken_positions@,
        a1.possible_room_positions@ == a2.possible_room_positions@,
        a1.taken_positions@ == a2.taken_positions@,
    ensures
        generation_outcome(rooms, b2, a2),
{
    assert(room_candidates(b1) == room_candidates(b2));
    assert(newly_taken(b1, a1) == newly_taken(b2, a2));
    assert forall|j: int| 0 <= j < newly_taken(b2, a2).len()
        implies position_cleared(b2, rooms, #[trigger] newly_taken(b2, a2)[j]) by {
        let t = newly_taken(b2, a2)[j];
        assert(position_cleared(b1, rooms, newly_taken(b1, a1)[j]));
        if !(exists|i: int| 0 <= i < rooms.len() && contains_spec(#[trigger] rooms[i].area, t)) {
            let (q, s) = choose|q: Position, s: u16| #![trigger contains_spec(square_at(q, s), t)]
                room_candidates(b1).contains(q) && b1.min_room_size <= s <= b1.max_room_size
                && contains_spec(square_at(q, s), t)
                && placement_refused(b1.map_area, rooms, q, s, b1.map_area.width * b1.map_area.height);
            assert(contains_spec(square_at(q, s), t));
        }
    }
}

/// One try of a room of `s` cells a side at `q`, as `try_place_room` makes it
/// with `g`'s settings, taking the possible positions `p0`, the taken
/// positions `t0` and the rooms `r0` (covering `area_total` cells of the
/// map's `total` cells) to `p1`, `t1` and `r1`: the room is placed when the
/// square fits the map, keeps clear of the rooms and the rooms cover less than
/// the map; placed or not, the square's cells stop being possible positions.
pub open spec fn room_try(
    g: &MapGenerator,
    p0: Seq<Position>,
    t0: Seq<Position>,
    r0: Seq<Room>,
    p1: Seq<Position>,
    t1: Seq<Position>,
    r1: Seq<Room>,
    q: Position,
    s: u16,
    area_total: int,
    total: int,
) -> bool {
    let sq = square_at(q, s);
    let placed = can_fit_spec(g.map_area, q, s)
        && (forall|i: int| 0 <= i < r0.len() ==> !intersects_spec(grown_area(#[trigger] r0[i].area), sq))
        && area_total < total;
    &&& p1 == remove_all(p0, area_positions(sq))
    &&& t1 == t0 + found_in_turn(p0, area_positions(sq))
    &&& placed ==> {
        &&& r1.len() == r0.len() + 1
        &&& r1.drop_last() == r0
        &&& r1.last().area == sq
        &&& r1.last().entry is None
        &&& r1.last().exit is None
        &&& doors_placed(r1.last(), g.map_area, g.max_door_count)
    }
    &&& !placed ==> r1 == r0
}

/// One draw of `generate_rooms` at `q`, from `p0`, `t0`, `r0` to `p1`, `t1`,
/// `r1`: a try with a size between `g`'s smallest and largest room size and,
/// when it places no room, a second try there with another such size.
pub open spec fn room_draw(
    g: &MapGenerator,
    p0: Seq<Position>,
    t0: Seq<Position>,
    r0: Seq<Room>,
    p1: Seq<Position>,
    t1: Seq<Position>,
    r1: Seq<Room>,
    q: Position,
) -> bool {
    let total = g.map_area.width * g.map_area.height;
    exists|s1: u16, pm: Seq<Position>, tm: Seq<Position>, rm: Seq<Room>| {
        &&& g.min_room_size <= s1 <= g.max_room_size
        &&& #[trigger] room_try(g, p0, t0, r0, pm, tm, rm, q, s1, rooms_area(r0), total)
        &&& if rm.len() > r0.len() {
            p1 == pm && t1 == tm && r1 == rm
        } else {
            exists|s2: u16| g.min_room_size <= s2 <= g.max_room_size
                && #[trigger] room_try(g, pm, tm, rm, p1, t1, r1, q, s2, rooms_area(rm), total)
        }
    }
}

/// The draws `generate_rooms` makes with `g`'s settings: `ps`, `ts` and `rs`
/// hold the possible positions, the taken positions and the rooms before the
/// first draw (the candidates, `g`'s taken positions, no rooms) and after each
/// draw; draw `k` happens at a possible position `qs[k]` while the rooms are
/// under the quota.
pub open spec fn room_draws(
    g: &MapGenerator,
    ps: Seq<Seq<Position>>,
    ts: Seq<Seq<Position>>,
    rs: Seq<Seq<Room>>,
    qs: Seq<Position>,
) -> bool {
    &&& ps.len() == qs.len() + 1
    &&& ts.len() == qs.len() + 1
    &&& rs.len() == qs.len() + 1
    &&& ps[0] == room_candidates(g)
    &&& ts[0] == g.taken_positions@
    &&& rs[0] == Seq::<Room>::empty()
    &&& forall|k: int| 0 <= k < qs.len() ==> #[trigger] draw_at(g, ps, ts, rs, qs, k)
}

/// Draw `k` of `room_draws`.
pub open spec fn draw_at(
    g: &MapGenerator,
    ps: Seq<Seq<Position>>,
    ts: Seq<Seq<Position>>,
    rs: Seq<Seq<Room>>,
    qs: Seq<Position>,
    k: int,
) -> bool {
    &&& rooms_usage(rs[k], g.map_area.width * g.map_area.height) < g.room_area_quota_percentage
    &&& ps[k].contains(qs[k])
    &&& room_draw(g, ps[k], ts[k], rs[k], ps[k + 1], ts[k + 1], rs[k + 1], qs[k])
}

impl MapGenerator {
    /// Tries a room of `size` cells a side at `position`. The room is placed
    /// when the square fits the map, keeps clear of every room of `rooms`
    /// (`intersects_or_touches`) and the rooms so far cover less than
    /// `total_area` cells: a room with random doors is generated there and
    /// added to `rooms`. Placed or not, the cells of the square stop being
    /// possible room positions.
    pub fn try_place_room(&mut self, rooms: &mut Vec<Room>, position: Position, size: u16, room_area_total: u16, total_area: u16) -> (placed: bool)
        requires
            settings_ok(old(self)),
            size >= 1,
            position.x + size < u16::MAX,
            position.y + size < u16::MAX,
        ensures
            placed == (can_fit_spec(old(self).map_area, position, size)
                && (forall|i: int| 0 <= i < old(rooms)@.len()
                    ==> !intersects_spec(grown_area(#[trigger] old(rooms)@[i].area), square_at(position, size)))
                && room_area_total < total_area),
            same_setup(old(self), final(self)),
            final(self).possible_room_positions@
                == remove_all(old(self).possible_room_positions@, area_positions(square_at(position, size))),
            final(self).taken_positions@ == old(self).taken_positions@
                + found_in_turn(old(self).possible_room_positions@, area_positions(square_at(position, size))),
            room_try(old(self), old(self).possible_room_positions@, old(self).taken_positions@, old(rooms)@,
                final(self).possible_room_positions@, final(self).taken_positions@, final(rooms)@,
                position, size, room_area_total as int, total_area as int),
            placed ==> final(rooms)@.len() == old(rooms)@.len() + 1,
            placed ==> final(rooms)@.drop_last() == old(rooms)@,
            placed ==> final(rooms)@.last().area == square_at(position, size),
            placed ==> final(rooms)@.last().entry is None,
            placed ==> final(rooms)@.last().exit is None,
            placed ==> doors_placed(final(rooms)@.last(), old(self).map_area, old(self).max_door_count),
            !placed ==> final(rooms)@ == old(rooms)@,
            final(self).possible_room_positions@.len() <= old(self).possible_room_positions@.len(),
            old(self).possible_room_positions@.contains(position)
                ==> final(self).possible_room_positions@.len() < old(self).possible_room_positions@.len(),
            forall|j: int| 0 <= j < final(self).possible_room_positions@.len()
                ==> old(self).possible_room_positions@.contains(#[trigger] final(self).possible_room_positions@[j]),
            forall|j: int| 0 <= j < old(self).possible_room_positions@.len()
                ==> final(self).possible_room_positions@.contains(#[trigger] old(self).possible_room_positions@[j])
                || found_in_turn(old(self).possible_room_positions@, area_positions(square_at(position, size)))
                    .contains(old(self).possible_room_positions@[j]),
            forall|j: int| 0 <= j < found_in_turn(old(self).possible_room_positions@, area_positions(square_at(position, size))).len()
                ==> contains_spec(square_at(position, size),
                    #[trigger] found_in_turn(old(self).possible_room_positions@, area_positions(square_at(position, size)))[j]),
    {
        let potential_area = build_square_area(position, size);
        proof {
            assert(potential_area == square_at(position, size));
            crate::position::lemma_area_positions_exact(potential_area);
            assert(area_positions(potential_area).len() > 0) by (nonlinear_arith)
                requires size >= 1, area_positions(potential_area).len() == (size as int) * (size as int);
            assert(area_positions(potential_area)[0] == position);
        }
        let mut position_taken = false;
        let mut k: usize = 0;
        while k < rooms.len()
            invariant
                k <= rooms@.len(),
                rooms@ == old(rooms)@,
                position_taken == exists|i: int| 0 <= i < k && intersects_spec(grown_area(#[trigger] rooms@[i].area), potential_area),
            decreases rooms@.len() - k,
        {
            let taken_area = rooms[k].get_area();
            if taken_area.intersects_or_touches(potential_area) {
                position_taken = true;
            }
            k += 1;
        }

        if self.map_area.can_fit(position, size) && !position_taken && room_area_total < total_area {
            let room = self.generate_room(position, size);
            let room_positions = room.get_area().get_positions();
            self.remove_possible_positions(&room_positions);
            rooms.push(room);
            proof {
                assert(rooms@.drop_last() =~= old(rooms)@);
            }
            true
        } else {
            // Remove the positions regardless
            let unusable = potential_area.get_positions();
            self.remove_possible_positions(&unusable);
            false
        }
    }

    /// Lists the possible room positions, then, until the rooms take the
    /// quota of the map's area or no possible position is left, picks a
    /// possible position at random and tries up to two random sizes there
    /// (`try_place_room`).
    pub fn generate_rooms(&mut self) -> (rooms: Vec<Room>)
        requires
            generation_ok(old(self)),
        ensures
            same_setup(old(self), final(self)),
            generation_outcome(rooms@, old(self), final(self)),
            exists|ps: Seq<Seq<Position>>, ts: Seq<Seq<Position>>, rs: Seq<Seq<Room>>, qs: Seq<Position>| {
                &&& #[trigger] room_draws(old(self), ps, ts, rs, qs)
                &&& final(self).possible_room_positions@ == ps.last()
                &&& final(self).taken_positions@ == ts.last()
                &&& rooms@ == rs.last()
            },
            rooms@.len() == 0 && old(self).room_area_quota_percentage > 0 && room_candidates(old(self)).len() > 0
                ==> exists|i: int| 0 <= i < room_candidates(old(self)).len()
                    && !can_fit_spec(old(self).map_area, #[trigger] room_candidates(old(self))[i], old(self).max_room_size),
    {
        let ghost cand = room_candidates(self);
        let ghost t0 = self.taken_positions@.len();
        let ghost mut tried = false;
        let total_area = self.map_area.get_total_area();
        let mut room_area_total: u16 = 0;
        let mut remaining_area_total: u16 = total_area - room_area_total;
        let mut total_area_usage_percentage: u16 = 0;

        let mut rooms: Vec<Room> = Vec::new();
        proof {
            lemma_interior_grid_bounded(self.map_area.end_position, self.max_room_size);
            lemma_bounded_append(self.possible_room_positions@, interior_grid(self.map_area.end_position), self.max_room_size);
        }
        self.find_possible_room_positions();
        proof {
            assert(self.taken_positions@.subrange(0, t0 as int) =~= old(self).taken_positions@);
            assert(newly_taken(old(self), self) =~= Seq::<Position>::empty());
        }
        let ghost mut ps: Seq<Seq<Position>> = seq![self.possible_room_positions@];
        let ghost mut ts: Seq<Seq<Position>> = seq![self.taken_positions@];
        let ghost mut rs: Seq<Seq<Room>> = seq![Seq::<Room>::empty()];
        let ghost mut qs: Seq<Position> = Seq::empty();
        proof {
            assert(rooms@ =~= Seq::<Room>::empty());
        }
        assert(self.max_room_size * self.max_room_size >= 1) by (nonlinear_arith)
            requires self.max_room_size >= 1;
        while total_area_usage_percentage < self.room_area_quota_percentage && self.possible_room_positions.len() > 0
            invariant
                generation_ok(self),
                same_setup(old(self), self),
                total_area == self.map_area.width * self.map_area.height,
                room_area_total < total_area + self.max_room_size * self.max_room_size,
                total_area_usage_percentage <= self.room_area_quota_percentage + 100,
                forall|i: int| 0 <= i < rooms@.len() ==> room_in_map(#[trigger] rooms@[i], self.map_area,
                    self.min_room_size, self.max_room_size, self.max_door_count),
                rooms_apart(rooms@),
                cand == room_candidates(old(self)),
                positions_bounded(cand, self.max_room_size),
                t0 == old(self).taken_positions@.len(),
                total_area_usage_percentage == rooms_usage(rooms@, total_area as int),
                room_area_total == rooms_area(rooms@),
                forall|i: int| 0 <= i < rooms@.len() ==> cand.contains(#[trigger] rooms@[i].area.start_position),
                forall|j: int| 0 <= j < self.possible_room_positions@.len()
                    ==> cand.contains(#[trigger] self.possible_room_positions@[j]),
                self.taken_positions@.len() >= t0,
                self.taken_positions@.subrange(0, t0 as int) == old(self).taken_positions@,
                forall|i: int| 0 <= i < cand.len() ==> self.possible_room_positions@.contains(#[trigger] cand[i])
                    || newly_taken(old(self), self).contains(cand[i]),
                forall|j: int| 0 <= j < newly_taken(old(self), self).len()
                    ==> position_cleared(old(self), rooms@, #[trigger] newly_taken(old(self), self)[j]),
                tried || self.possible_room_positions@ == cand,
                tried && rooms@.len() == 0 ==> exists|i: int| 0 <= i < cand.len()
                    && !can_fit_spec(self.map_area, #[trigger] cand[i], self.max_room_size),
                room_draws(old(self), ps, ts, rs, qs),
                self.possible_room_positions@ == ps.last(),
                self.taken_positions@ == ts.last(),
                rooms@ == rs.last(),
            decreases self.possible_room_positions@.len(),
        {
            let ghost len0 = self.possible_room_positions@.len();
            let ghost drawn_from = newly_taken(old(self), self);
            proof {
                assert forall|j: int| 0 <= j < drawn_from.len() implies position_cleared(old(self), rooms@, #[trigger] drawn_from[j]) by {
                    assert(drawn_from[j] == newly_taken(old(self), self)[j]);
                }
            }
            let random_pos = random_below(&mut self.rng, self.possible_room_positions.len());
            let position = self.possible_room_positions[random_pos];
            proof {
                assert(position == self.possible_room_positions@[random_pos as int]);
                assert(cand.contains(self.possible_room_positions@[random_pos as int]));
                assert(drawn_from =~= newly_taken(old(self), self));
                assert forall|j: int| 0 <= j < newly_taken(old(self), self).len()
                    implies position_cleared(old(self), rooms@, #[trigger] newly_taken(old(self), self)[j]) by {
                    assert(newly_taken(old(self), self)[j] == drawn_from[j]);
                }
                let m = choose|m: int| 0 <= m < cand.len() && cand[m] == position;
                assert(position.x + self.max_room_size < u16::MAX && position.y + self.max_room_size < u16::MAX) by {
                    assert(cand[m] == position);
                }
            }

            let ghost p_s = self.possible_room_positions@;
            let ghost t_s = self.taken_positions@;
            let ghost r_s = rooms@;
            let ghost mut s1: u16 = 0;
            let ghost mut s2: u16 = 0;
            let ghost mut pm: Seq<Position> = p_s;
            let ghost mut tm: Seq<Position> = t_s;
            let ghost mut rm: Seq<Room> = r_s;
            proof {
                assert(p_s.contains(position)) by {
                    assert(p_s[random_pos as int] == position);
                }
                assert(rooms_usage(r_s, total_area as int) < old(self).room_area_quota_percentage);
            }
            // Try each position up to 2 times with a different size
            let mut attempt: u8 = 0;
            let mut placed = false;
            while attempt < 2 && !placed
                invariant
                    generation_ok(self),
                    same_setup(old(self), self),
                    total_area == self.map_area.width * self.map_area.height,
                    room_area_total < total_area + self.max_room_size * self.max_room_size,
                    total_area_usage_percentage <= self.room_area_quota_percentage + 100,
                    !placed ==> total_area_usage_percentage < self.room_area_quota_percentage,
                    forall|i: int| 0 <= i < rooms@.len() ==> room_in_map(#[trigger] rooms@[i], self.map_area,
                        self.min_room_size, self.max_room_size, self.max_door_count),
                    rooms_apart(rooms@),
                    attempt <= 2,
                    position.x + self.max_room_size < u16::MAX,
                    position.y + self.max_room_size < u16::MAX,
                    self.possible_room_positions@.len() <= len0,
                    attempt == 0 && !placed ==> self.possible_room_positions@.contains(position),
                    attempt > 0 || placed ==> self.possible_room_positions@.len() < len0,
                    cand == room_candidates(old(self)),
                    positions_bounded(cand, self.max_room_size),
                    t0 == old(self).taken_positions@.len(),
                    cand.contains(position),
                    total_area_usage_percentage == rooms_usage(rooms@, total_area as int),
                    room_area_total == rooms_area(rooms@),
                    forall|i: int| 0 <= i < rooms@.len() ==> cand.contains(#[trigger] rooms@[i].area.start_position),
                    forall|j: int| 0 <= j < self.possible_room_positions@.len()
                        ==> cand.contains(#[trigger] self.possible_room_positions@[j]),
                    self.taken_positions@.len() >= t0,
                    self.taken_positions@.subrange(0, t0 as int) == old(self).taken_positions@,
                    forall|i: int| 0 <= i < cand.len() ==> self.possible_room_positions@.contains(#[trigger] cand[i])
                        || newly_taken(old(self), self).contains(cand[i]),
                    forall|j: int| 0 <= j < newly_taken(old(self), self).len()
                        ==> position_cleared(old(self), rooms@, #[trigger] newly_taken(old(self), self)[j]),
                    placed ==> rooms@.len() > 0,
                    !placed && attempt > 0 && rooms@.len() == 0 ==> !can_fit_spec(self.map_area, position, self.max_room_size),
                    tried && rooms@.len() == 0 ==> exists|i: int| 0 <= i < cand.len()
                        && !can_fit_spec(self.map_area, #[trigger] cand[i], self.max_room_size),
                    attempt == 0 && !placed ==> self.possible_room_positions@ == p_s
                        && self.taken_positions@ == t_s && rooms@ == r_s,
                    attempt > 0 || placed ==> old(self).min_room_size <= s1 <= old(self).max_room_size
                        && room_try(old(self), p_s, t_s, r_s, pm, tm, rm, position, s1, rooms_area(r_s), total_area as int),
                    attempt == 0 && placed ==> rm.len() > r_s.len() && self.possible_room_positions@ == pm
                        && self.taken_positions@ == tm && rooms@ == rm,
                    attempt > 0 ==> rm == r_s,
                    attempt == 1 && !placed ==> self.possible_room_positions@ == pm
                        && self.taken_positions@ == tm && rooms@ == rm,
                    (attempt == 1 && placed) || attempt == 2 ==> old(self).min_room_size <= s2 <= old(self).max_room_size
                        && room_try(old(self), pm, tm, rm, self.possible_room_positions@, self.taken_positions@, rooms@,
                            position, s2, rooms_area(rm), total_area as int),
                decreases 2 - attempt + (if placed { 0int } else { 1int }),
            {
                let ghost before_draw = newly_taken(old(self), self);
                proof {
                    assert forall|j: int| 0 <= j < before_draw.len() implies position_cleared(old(self), rooms@, #[trigger] before_draw[j]) by {
                        assert(before_draw[j] == newly_taken(old(self), self)[j]);
                    }
                }
                let size = random_u16_between(&mut self.rng, self.min_room_size, self.max_room_size);
                let ghost rooms0 = rooms@;
                let ghost possible0 = self.possible_room_positions@;
                let ghost taken0 = self.taken_positions@;
                let ghost gen0 = *self;
                let ghost new0 = newly_taken(old(self), self);
                proof {
                    assert(new0 =~= before_draw);
                    assert forall|j: int| 0 <= j < new0.len() implies position_cleared(old(self), rooms0, #[trigger] new0[j]) by {
                        assert(new0[j] == before_draw[j]);
                    }
                }
                let placed_now = self.try_place_room(&mut rooms, position, size, room_area_total, total_area);
                proof {
                    if attempt == 0 {
                        s1 = size;
                        pm = self.possible_room_positions@;
                        tm = self.taken_positions@;
                        rm = rooms@;
                    } else {
                        s2 = size;
                    }
                }
                proof {
                    let sq = square_at(position, size);
                    let found = found_in_turn(possible0, area_positions(sq));
                    let new1 = newly_taken(old(self), self);
                    assert(self.taken_positions@ == taken0 + found);
                    assert(new1 =~= new0 + found);
                    assert(self.taken_positions@.subrange(0, t0 as int) =~= taken0.subrange(0, t0 as int));
                    assert forall|j: int| 0 <= j < self.possible_room_positions@.len()
                        implies cand.contains(#[trigger] self.possible_room_positions@[j]) by {
                        let q = self.possible_room_positions@[j];
                        assert(possible0.contains(q));
                        let m = choose|m: int| 0 <= m < possible0.len() && possible0[m] == q;
                        assert(cand.contains(possible0[m]));
                    }
                    assert forall|i: int| 0 <= i < cand.len() implies self.possible_room_positions@.contains(#[trigger] cand[i])
                        || new1.contains(cand[i]) by {
                        let c = cand[i];
                        if possible0.contains(c) {
                            let m = choose|m: int| 0 <= m < possible0.len() && possible0[m] == c;
                            if found.contains(c) {
                                let n = choose|n: int| 0 <= n < found.len() && found[n] == c;
                                assert(new1[new0.len() + n] == c);
                            }
                        } else {
                            assert(new0.contains(c));
                            let n = choose|n: int| 0 <= n < new0.len() && new0[n] == c;
                            assert(new1[n] == c);
                        }
                    }
                    if placed_now {
                        let r = rooms@.last();
                        assert(rooms@.drop_last() == rooms0);
                        assert forall|j: int| 0 <= j < new1.len()
                            implies position_cleared(old(self), rooms@, #[trigger] new1[j]) by {
                            let t = new1[j];
                            if j < new0.len() {
                                assert(new0[j] == t);
                                assert(position_cleared(old(self), rooms0, new0[j]));
                                lemma_cleared_push(old(self), rooms0, r, t);
                                assert(rooms0.push(r) =~= rooms@);
                            } else {
                                assert(found[j - new0.len()] == t);
                                assert(contains_spec(sq, t));
                                assert(contains_spec(rooms@[rooms@.len() - 1].area, t));
                            }
                        }
                    } else {
                        assert(rooms@ == rooms0);
                        assert(placement_refused(self.map_area, rooms0, position, size, total_area as int));
                        assert forall|j: int| 0 <= j < new1.len()
                            implies position_cleared(old(self), rooms@, #[trigger] new1[j]) by {
                            let t = new1[j];
                            if j < new0.len() {
                                assert(new0[j] == t);
                            } else {
                                assert(found[j - new0.len()] == t);
                                assert(contains_spec(square_at(position, size), t));
                            }
                        }
                        if rooms0.len() == 0 {
                            if room_area_total >= total_area {
                                assert(self.map_area.width == 0 || self.map_area.height == 0) by (nonlinear_arith)
                                    requires total_area == self.map_area.width * self.map_area.height, total_area == 0;
                            }
                            assert(!can_fit_spec(self.map_area, position, self.max_room_size));
                        }
                    }
                }
                if placed_now {
                    proof {
                        let r = rooms@.last();
                        assert(rooms@.drop_last() == rooms0);
                        lemma_square_within_total(size, self.map_area.width, self.map_area.height);
                        assert(self.max_room_size * self.max_room_size <= u16::MAX);
                        assert(size * size <= self.max_room_size * self.max_room_size) by (nonlinear_arith)
                            requires size <= self.max_room_size, size >= 0;
                        assert forall|i: int, j: int| 0 <= i < j < rooms@.len() implies
                            !intersects_spec(grown_area(#[trigger] rooms@[i].area), #[trigger] rooms@[j].area) by {
                            assert(rooms@[i] == rooms0[i] || i == rooms0.len());
                            if j < rooms0.len() {
                                assert(rooms@[i] == rooms0[i]);
                                assert(rooms@[j] == rooms0[j]);
                            } else {
                                assert(rooms@[i] == rooms0[i]);
                            }
                        }
                        assert forall|i: int| 0 <= i < rooms@.len() implies room_in_map(#[trigger] rooms@[i], self.map_area,
                            self.min_room_size, self.max_room_size, self.max_door_count) by {
                            if i < rooms0.len() {
                                assert(rooms@[i] == rooms0[i]);
                            }
                        }
                        assert forall|i: int| 0 <= i < rooms@.len() implies cand.contains(#[trigger] rooms@[i].area.start_position) by {
                            if i < rooms0.len() {
                                assert(rooms@[i] == rooms0[i]);
                            }
                        }
                    }
                    let room_area = rooms[rooms.len() - 1].get_area().get_total_area();
                    room_area_total = room_area_total + room_area;
                    if remaining_area_total >= room_area_total {
                        remaining_area_total = remaining_area_total - room_area_total;
                    }
                    let area_usage_percentage = area_usage_percentage(room_area, total_area);
                    total_area_usage_percentage = total_area_usage_percentage + area_usage_percentage;
                    placed = true;
                } else {
                    attempt = attempt + 1;
                }
            }
            proof {
                if rooms@.len() == 0 {
                    assert(cand.contains(position));
                    let m = choose|m: int| 0 <= m < cand.len() && cand[m] == position;
                    assert(!can_fit_spec(self.map_area, cand[m], self.max_room_size));
                }
                tried = true;
                let p_e = self.possible_room_positions@;
                let t_e = self.taken_positions@;
                let r_e = rooms@;
                assert(room_draw(old(self), p_s, t_s, r_s, p_e, t_e, r_e, position)) by {
                    assert(room_try(old(self), p_s, t_s, r_s, pm, tm, rm, position, s1, rooms_area(r_s), total_area as int));
                    if rm.len() <= r_s.len() {
                        assert(room_try(old(self), pm, tm, rm, p_e, t_e, r_e, position, s2, rooms_area(rm), total_area as int));
                    }
                }
                let ps0 = ps;
                let ts0 = ts;
                let rs0 = rs;
                let qs0 = qs;
                ps = ps0.push(p_e);
                ts = ts0.push(t_e);
                rs = rs0.push(r_e);
                qs = qs0.push(position);
                assert(ps[0] == ps0[0] && ts[0] == ts0[0] && rs[0] == rs0[0]);
                assert forall|k: int| 0 <= k < qs.len() implies #[trigger] draw_at(old(self), ps, ts, rs, qs, k) by {
                    if k < qs0.len() {
                        assert(ps[k] == ps0[k] && ps[k + 1] == ps0[k + 1]);
                        assert(ts[k] == ts0[k] && ts[k + 1] == ts0[k + 1]);
                        assert(rs[k] == rs0[k] && rs[k + 1] == rs0[k + 1]);
                        assert(qs[k] == qs0[k]);
                        assert(draw_at(old(self), ps0, ts0, rs0, qs0, k));
                    } else {
                        assert(ps[k] == p_s && ts[k] == t_s && rs[k] == r_s && qs[k] == position);
                        assert(ps[k + 1] == p_e && ts[k + 1] == t_e && rs[k + 1] == r_e);
                    }
                }
            }
        }
        rooms
    }
}


/// Every cell of a placed room lies in the map.
pub proof fn lemma_room_inside_map(room: Room, map_area: Area, min_size: u16, max_size: u16, max_doors: u16, p: Position)
    requires
        room_in_map(room, map_area, min_size, max_size, max_doors),
        contains_spec(room.area, p),
    ensures
        contains_spec(map_area, p),
{
    crate::position::lemma_can_fit_square_inside(map_area, room.area.start_position, room.area.width, p);
}

/// Every door of a placed room lies on the room's wall, in the middle of one
/// of its sides, and on none of the map's edges.
pub proof fn lemma_doors_on_walls(room: Room, map_area: Area, min_size: u16, max_size: u16, max_doors: u16, i: int)
    requires
        room_in_map(room, map_area, min_size, max_size, max_doors),
        0 <= i < room.doors@.len(),
    ensures
        exists|k: int| 0 <= k < 4 && contains_spec(#[trigger] sides_spec(room.area)[k].area, room.doors@[i].position),
        contains_spec(room.area, room.doors@[i].position),
        forall|j: int| 0 <= j < 4 ==> !contains_spec(#[trigger] sides_spec(map_area)[j].area, room.doors@[i].position),
{
    let a = room.area;
    let d = room.doors@[i].position;
    assert(door_spot(a, map_area, d));
    let k = choose|k: int| 0 <= k < 4 && d == mid_point_spec(#[trigger] sides_spec(a)[k]);
    assert(well_formed_area(a));
    assert(well_formed_area(sides_spec(a)[k].area));
    crate::position::lemma_mid_point_on_side(sides_spec(a)[k]);
    crate::position::lemma_square_sides_on_edges(a, d);
    assert(contains_spec(sides_spec(a)[k].area, d));
}

/// Rooms whose sizes differ by at most 3 cells (as with `build_generator`'s 3
/// to 6) and that keep apart as `intersects_or_touches` tells really keep
/// apart: no cell of a later room lies in an earlier room or in the ring of
/// cells around it.
pub proof fn lemma_rooms_keep_apart(
    rooms: Seq<Room>,
    map_area: Area,
    min_size: u16,
    max_size: u16,
    max_doors: u16,
    i: int,
    j: int,
    p: Position,
)
    requires
        max_size <= min_size + 3,
        map_area.end_position.x < u16::MAX,
        map_area.end_position.y < u16::MAX,
        forall|k: int| 0 <= k < rooms.len() ==> room_in_map(#[trigger] rooms[k], map_area, min_size, max_size, max_doors),
        rooms_apart(rooms),
        0 <= i < j < rooms.len(),
        contains_spec(rooms[j].area, p),
    ensures
        !contains_spec(grown_area(rooms[i].area), p),
        !contains_spec(rooms[i].area, p),
{
    let a = rooms[i].area;
    let b = rooms[j].area;
    assert(room_in_map(rooms[i], map_area, min_size, max_size, max_doors));
    assert(room_in_map(rooms[j], map_area, min_size, max_size, max_doors));
    assert(!intersects_spec(grown_area(a), b));
}


/// Whether the rows hold one row per row of the area, each holding one
/// empty (`NoTile`) tile per column of the area.
pub open spec fn blank_grid(rows: Seq<Vec<TileDetails>>, area: Area) -> bool {
    &&& rows.len() == span(area.start_position.y, area.end_position.y)
    &&& forall|y: int| 0 <= y < rows.len() ==> {
        &&& (#[trigger] rows[y])@.len() == span(area.start_position.x, area.end_position.x)
        &&& forall|x: int| 0 <= x < rows[y]@.len() ==> is_library_tile(#[trigger] rows[y]@[x], TileType::NoTile)
    }
}

/// Whether every placed room is in the map and clear of the earlier ones.
pub open spec fn rooms_generated(rooms: Seq<Room>, g: &MapGenerator) -> bool {
    &&& forall|i: int| 0 <= i < rooms.len() ==> room_in_map(#[trigger] rooms[i], g.map_area,
        g.min_room_size, g.max_room_size, g.max_door_count)
    &&& rooms_apart(rooms)
}

impl MapGenerator {
    /// A grid of empty tiles covering the map's area, row by row.
    pub fn build_empty_tiles(&mut self) -> (rows: Vec<Vec<TileDetails>>)
        requires
            old(self).tile_library.wf(),
            old(self).map_area.end_position.x < u16::MAX,
            old(self).map_area.end_position.y < u16::MAX,
        ensures
            *final(self) == *old(self),
            blank_grid(rows@, old(self).map_area),
    {
        let mut map_tiles: Vec<Vec<TileDetails>> = Vec::new();
        let start = self.map_area.start_position;
        let end = self.map_area.end_position;
        let mut y = start.y;
        while y <= end.y
            invariant
                start == self.map_area.start_position,
                end == self.map_area.end_position,
                end.y < u16::MAX,
                end.x < u16::MAX,
                self.tile_library.wf(),
                start.y <= y,
                start.y <= end.y ==> y <= end.y + 1,
                start.y > end.y ==> y == start.y,
                map_tiles@.len() == y - start.y,
                forall|k: int| 0 <= k < map_tiles@.len() ==> {
                    &&& (#[trigger] map_tiles@[k])@.len() == span(start.x, end.x)
                    &&& forall|x: int| 0 <= x < map_tiles@[k]@.len() ==> is_library_tile(#[trigger] map_tiles@[k]@[x], TileType::NoTile)
                },
            decreases end.y + 1 - y,
        {
            let mut row: Vec<TileDetails> = Vec::new();
            let mut x = start.x;
            while x <= end.x
                invariant
                    start == self.map_area.start_position,
                    end == self.map_area.end_position,
                    end.x < u16::MAX,
                    self.tile_library.wf(),
                    start.x <= x,
                    start.x <= end.x ==> x <= end.x + 1,
                    start.x > end.x ==> x == start.x,
                    row@.len() == x - start.x,
                    forall|i: int| 0 <= i < row@.len() ==> is_library_tile(#[trigger] row@[i], TileType::NoTile),
                decreases end.x + 1 - x,
            {
                row.push(self.tile_library.get(TileType::NoTile));
                x += 1;
            }
            let ghost before = map_tiles@;
            map_tiles.push(row);
            proof {
                assert forall|k: int| 0 <= k < map_tiles@.len() implies {
                    &&& (#[trigger] map_tiles@[k])@.len() == span(start.x, end.x)
                    &&& forall|x: int| 0 <= x < map_tiles@[k]@.len() ==> is_library_tile(#[trigger] map_tiles@[k]@[x], TileType::NoTile)
                } by {
                    if k < before.len() {
                        assert(map_tiles@[k] == before[k]);
                    }
                }
            }
            y += 1;
        }
        map_tiles
    }

    /// Builds the map: empty tiles over the map's area, no containers, and the
    /// generated rooms. Returns a copy of it.
    pub fn build_map(&mut self) -> (m: GameMap)
        requires
            generation_ok(old(self)),
            old(self).tile_library.wf(),
        ensures
            same_settings(old(self), final(self)),
            final(self).map.area == old(self).map_area,
            blank_grid(final(self).map.tiles.tiles@, old(self).map_area),
            final(self).map.containers.wf(),
            final(self).map.containers.size() == 0,
            rooms_generated(final(self).map.rooms@, old(self)),
            generation_outcome(final(self).map.rooms@, old(self), final(self)),
            m.area == final(self).map.area,
            same_tiles(m.tiles, final(self).map.tiles),
            same_rooms(m.rooms@, final(self).map.rooms@),
            m.containers.wf(),
            m.containers.size() == 0,
    {
        let map_area = self.map_area;
        let map_tiles = self.build_empty_tiles();
        let map = GameMap { area: map_area, tiles: Tiles { tiles: map_tiles }, rooms: Vec::new(), containers: ContainerMap::new() };
        self.map = map;
        let ghost mid = *self;
        let rooms = self.generate_rooms();
        let ghost after = *self;
        self.map.rooms = rooms;
        proof {
            lemma_outcome_transfer(self.map.rooms@, &mid, old(self), &after, self);
        }
        self.map.clone()
    }
}


/// Whether a tile is one that floor containers are laid on: any tile but an
/// empty one, a wall, a door, an entry or an exit.
pub open spec fn floor_tile(tile: Option<TileDetails>) -> bool {
    match tile {
        Some(td) => td.tile_type != TileType::NoTile && td.tile_type != TileType::Wall
            && td.tile_type != TileType::Door && td.tile_type != TileType::Entry && td.tile_type != TileType::Exit,
        None => false,
    }
}

/// Whether the container is an empty `AREA` container for the floor: a
/// weightless, valueless `"Floor"` item drawn as `$`, taking up to 999999.
pub open spec fn floor_container(c: Container) -> bool {
    &&& c.kind() == ContainerType::AREA
    &&& c.limit() == 999999
    &&& c.inside() == Seq::<Container>::empty()
    &&& c.self_item()@.name == "Floor"@
    &&& c.self_item()@.symbol.character == '$'
    &&& c.self_item()@.weight == 0
    &&& c.self_item()@.value == 0
}

/// Whether a position comes before `(x, y)` in row order (rows from the top,
/// each row from the left).
pub open spec fn before_in_rows(p: Position, x: int, y: int) -> bool {
    p.y < y || (p.y == y && p.x < x)
}

impl MapGenerator {
    /// A floor container for every cell of the map's area whose tile is a
    /// floor tile.
    pub fn build_area_containers(&self) -> (containers: ContainerMap)
        requires
            self.map_area.end_position.x < u16::MAX,
            self.map_area.end_position.y < u16::MAX,
        ensures
            containers.wf(),
            forall|p: Position| (#[trigger] containers.get_spec(p)) is Some
                == (contains_spec(self.map_area, p) && floor_tile(crate::map::tile_at(self.map.tiles, p))),
            forall|p: Position| #[trigger] containers.get_spec(p) matches Some(c) ==> floor_container(c),
    {
        let mut area_containers = ContainerMap::new();
        let start = self.map_area.start_position;
        let end = self.map_area.end_position;
        let mut y = start.y;
        while y <= end.y
            invariant
                start == self.map_area.start_position,
                end == self.map_area.end_position,
                end.x < u16::MAX,
                end.y < u16::MAX,
                start.y <= y,
                start.y <= end.y ==> y <= end.y + 1,
                start.y > end.y ==> y == start.y,
                area_containers.wf(),
                forall|p: Position| (#[trigger] area_containers.get_spec(p)) is Some
                    == (before_in_rows(p, start.x as int, y as int) && contains_spec(self.map_area, p)
                        && floor_tile(crate::map::tile_at(self.map.tiles, p))),
                forall|p: Position| #[trigger] area_containers.get_spec(p) matches Some(c) ==> floor_container(c),
            decreases end.y + 1 - y,
        {
            let mut x = start.x;
            while x <= end.x
                invariant
                    start == self.map_area.start_position,
                    end == self.map_area.end_position,
                    end.x < u16::MAX,
                    start.y <= y <= end.y,
                    start.x <= x,
                    start.x <= end.x ==> x <= end.x + 1,
                    start.x > end.x ==> x == start.x,
                    area_containers.wf(),
                    forall|p: Position| (#[trigger] area_containers.get_spec(p)) is Some
                        == (before_in_rows(p, x as int, y as int) && contains_spec(self.map_area, p)
                            && floor_tile(crate::map::tile_at(self.map.tiles, p))),
                    forall|p: Position| #[trigger] area_containers.get_spec(p) matches Some(c) ==> floor_container(c),
                decreases end.x + 1 - x,
            {
                let position = Position { x, y };
                match self.map.tiles.get_tile(position) {
                    Some(td) => {
                        if td.tile_type != TileType::NoTile && td.tile_type != TileType::Wall && td.tile_type != TileType::Door
                            && td.tile_type != TileType::Entry && td.tile_type != TileType::Exit {
                            proof { reveal_strlit("Floor"); }
                            let area_container = Container::new(new_uuid(), String::from_str("Floor"), '$', 0, 0, ContainerType::AREA, 999999);
                            area_containers.insert(position, area_container);
                        }
                    },
                    None => {},
                }
                proof {
                    assert forall|p: Position| (#[trigger] area_containers.get_spec(p)) is Some
                        == (before_in_rows(p, x + 1, y as int) && contains_spec(self.map_area, p)
                            && floor_tile(crate::map::tile_at(self.map.tiles, p))) by {
                        if p != position {
                            assert(before_in_rows(p, x + 1, y as int) == before_in_rows(p, x as int, y as int));
                        }
                    }
                }
                x += 1;
            }
            proof {
                assert forall|p: Position| (#[trigger] area_containers.get_spec(p)) is Some
                    == (before_in_rows(p, start.x as int, y + 1) && contains_spec(self.map_area, p)
                        && floor_tile(crate::map::tile_at(self.map.tiles, p))) by {
                    if contains_spec(self.map_area, p) && p.y == y {
                        assert(before_in_rows(p, x as int, y as int));
                    }
                }
            }
            y += 1;
        }
        proof {
            assert forall|p: Position| (#[trigger] area_containers.get_spec(p)) is Some
                == (contains_spec(self.map_area, p) && floor_tile(crate::map::tile_at(self.map.tiles, p))) by {
                if contains_spec(self.map_area, p) {
                    assert(before_in_rows(p, start.x as int, y as int));
                }
            }
        }
        area_containers
    }

    /// Lays a floor container on every cell of the map whose tile is a floor
    /// tile, in place of any container there.
    pub fn add_area_containers(&mut self)
        requires
            old(self).map_area.end_position.x < u16::MAX,
            old(self).map_area.end_position.y < u16::MAX,
            old(self).map.containers.wf(),
        ensures
            same_settings(old(self), final(self)),
            final(self).map.area == old(self).map.area,
            final(self).map.tiles == old(self).map.tiles,
            final(self).map.rooms == old(self).map.rooms,
            final(self).map.containers.wf(),
            forall|p: Position| contains_spec(old(self).map_area, p) && floor_tile(crate::map::tile_at(old(self).map.tiles, p))
                ==> ((#[trigger] final(self).map.containers.get_spec(p)) matches Some(c) && floor_container(c)),
            forall|p: Position| !(contains_spec(old(self).map_area, p) && floor_tile(crate::map::tile_at(old(self).map.tiles, p)))
                ==> #[trigger] final(self).map.containers.get_spec(p) == old(self).map.containers.get_spec(p),
    {
        let area_containers = self.build_area_containers();
        let ghost built = area_containers;
        let entries = area_containers.into_entries();
        proof {
            assert forall|k: int| 0 <= k < entries@.len() implies
                contains_spec(self.map_area, (#[trigger] entries@[k]).0)
                    && floor_tile(crate::map::tile_at(self.map.tiles, entries@[k].0))
                    && floor_container(entries@[k].1) by {
                assert(built.get_spec(entries@[k].0) == Some(entries@[k].1));
            }
        }
        let mut i: usize = 0;
        while i < entries.len()
            invariant
                i <= entries@.len(),
                same_settings(old(self), self),
                self.map.area == old(self).map.area,
                self.map.tiles == old(self).map.tiles,
                self.map.rooms == old(self).map.rooms,
                self.map.containers.wf(),
                forall|a: int, b: int| 0 <= a < entries@.len() && 0 <= b < entries@.len() && a != b
                    ==> #[trigger] entries@[a].0 != #[trigger] entries@[b].0,
                forall|k: int| 0 <= k < entries@.len() ==>
                    contains_spec(old(self).map_area, (#[trigger] entries@[k]).0)
                        && floor_tile(crate::map::tile_at(old(self).map.tiles, entries@[k].0))
                        && floor_container(entries@[k].1),
                forall|k: int| 0 <= k < i ==>
                    ((#[trigger] self.map.containers.get_spec(entries@[k].0)) matches Some(c) && floor_container(c)),
                forall|p: Position| (forall|k: int| 0 <= k < i ==> #[trigger] entries@[k].0 != p)
                    ==> #[trigger] self.map.containers.get_spec(p) == old(self).map.containers.get_spec(p),
            decreases entries@.len() - i,
        {
            let pos = entries[i].0;
            let container = entries[i].1.clone();
            proof {
                crate::container::lemma_same_container(container, entries@[i as int].1);
                assert(container.inside() =~= Seq::<Container>::empty());
            }
            self.map.containers.insert(pos, container);
            i += 1;
        }
        proof {
            assert forall|p: Position| contains_spec(old(self).map_area, p) && floor_tile(crate::map::tile_at(old(self).map.tiles, p))
                implies ((#[trigger] self.map.containers.get_spec(p)) matches Some(c) && floor_container(c)) by {
                assert(built.get_spec(p) is Some);
                built.lemma_has_iff_found(p);
                assert(built.has(p));
                let k = choose|k: int| 0 <= k < entries@.len() && #[trigger] entries@[k].0 == p;
                assert(self.map.containers.get_spec(entries@[k].0) is Some);
            }
            assert forall|p: Position| !(contains_spec(old(self).map_area, p) && floor_tile(crate::map::tile_at(old(self).map.tiles, p)))
                implies #[trigger] self.map.containers.get_spec(p) == old(self).map.containers.get_spec(p) by {
                assert forall|k: int| 0 <= k < i implies #[trigger] entries@[k].0 != p by {}
            }
        }
    }
}


/// Where a walk over the cells `x0 <= x < x1`, `y0 <= y < y1` (column by
/// column) last stops, when it stops only at `exit` if the room has one, and
/// everywhere otherwise.
pub open spec fn last_spot(x0: int, x1: int, y0: int, y1: int, exit: Option<Position>) -> Option<Position> {
    match exit {
        Some(e) => if x0 <= e.x < x1 && y0 <= e.y < y1 { Some(e) } else { None },
        None => if x0 < x1 && y0 < y1 { Some(Position { x: (x1 - 1) as u16, y: (y1 - 1) as u16 }) } else { None },
    }
}

/// The last cell of `x0 <= x < x1`, `y0 <= y < y1` (walking column by column)
/// that is `exit` when an exit is given, or any cell otherwise.
fn last_open_spot(x0: u16, x1: u32, y0: u16, y1: u32, exit: Option<Position>) -> (r: Option<Position>)
    requires
        x1 <= u16::MAX as u32 + 1,
        y1 <= u16::MAX as u32 + 1,
    ensures
        r == last_spot(x0 as int, x1 as int, y0 as int, y1 as int, exit),
{
    let mut target: Option<Position> = None;
    let mut x: u32 = x0 as u32;
    while x < x1
        invariant
            x0 <= x,
            x0 <= x1 ==> x <= x1,
            x0 > x1 ==> x == x0,
            x1 <= u16::MAX as u32 + 1,
            y1 <= u16::MAX as u32 + 1,
            target == match exit {
                Some(e) => if x0 <= e.x < x && y0 <= e.y < y1 { Some(e) } else { None },
                None => if x0 < x && y0 < y1 { Some(Position { x: (x - 1) as u16, y: (y1 - 1) as u16 }) } else { None },
            },
        decreases x1 - x,
    {
        let mut y: u32 = y0 as u32;
        while y < y1
            invariant
                x0 <= x < x1,
                x1 <= u16::MAX as u32 + 1,
                y1 <= u16::MAX as u32 + 1,
                y0 <= y,
                y0 <= y1 ==> y <= y1,
                y0 > y1 ==> y == y0,
                target == match exit {
                    Some(e) => if (x0 <= e.x < x && y0 <= e.y < y1) || (e.x == x && y0 <= e.y < y) { Some(e) } else { None },
                    None => if y0 < y { Some(Position { x: x as u16, y: (y - 1) as u16 }) }
                        else if x0 < x && y0 < y1 { Some(Position { x: (x - 1) as u16, y: (y1 - 1) as u16 }) } else { None },
                },
            decreases y1 - y,
        {
            let possible_target = Position { x: x as u16, y: y as u16 };
            let mut skip = false;
            if let Some(ex) = exit {
                if possible_target != ex {
                    skip = true;
                }
            }
            if !skip {
                target = Some(possible_target);
            }
            y += 1;
        }
        x += 1;
    }
    target
}

impl MapGenerator {
    /// Puts the room given with an entry in place of the map's room at
    /// `entry_index`, then the room given with an exit in place of the one at
    /// `exit_index` (so, at one index, the room with the exit stays).
    pub fn set_entry_and_exit_rooms(&mut self, entry_index: usize, entry_room: Room, exit_index: usize, exit_room: Room)
        requires
            entry_index < old(self).map.rooms@.len(),
            exit_index < old(self).map.rooms@.len(),
        ensures
            same_settings(old(self), final(self)),
            final(self).map.area == old(self).map.area,
            final(self).map.tiles == old(self).map.tiles,
            final(self).map.containers == old(self).map.containers,
            final(self).map.rooms@ == old(self).map.rooms@.update(entry_index as int, entry_room).update(exit_index as int, exit_room),
    {
        self.map.rooms.set(entry_index, entry_room);
        self.map.rooms.set(exit_index, exit_room);
    }

    /// The room with its entry set: the last cell inside its walls (walking
    /// column by column), or its exit when it has one inside its walls.
    pub fn add_entry(&self, room: Room) -> (r: Option<Room>)
        requires
            room.area.width >= 2,
            room.area.height >= 2,
            room.area.start_position.x < u16::MAX,
            room.area.start_position.y < u16::MAX,
            rectangular_area_fits(inside_start(room.area), (room.area.width - 2) as u16, (room.area.height - 2) as u16),
        ensures
            match last_spot(inside_area(room.area).start_position.x as int, inside_area(room.area).end_position.x + 1,
                inside_area(room.area).start_position.y as int, inside_area(room.area).end_position.y + 1, room.exit) {
                Some(t) => r matches Some(updated) && updated.entry == Some(t) && updated.area == room.area
                    && updated.doors@ == room.doors@ && updated.exit == room.exit,
                None => r is None,
            },
    {
        let mut updated_room = room.clone();
        let inside_area = updated_room.get_inside_area();
        let target = last_open_spot(
            inside_area.start_position.x,
            inside_area.end_position.x as u32 + 1,
            inside_area.start_position.y,
            inside_area.end_position.y as u32 + 1,
            room.get_exit(),
        );
        if let Some(t) = target {
            updated_room.set_entry(Some(t));
            return Some(updated_room);
        } else {
            return None;
        }
    }

    /// The room with its exit set: the last cell inside its walls but off
    /// their last column and row (walking column by column), or its present
    /// exit when it has one there.
    pub fn add_exit(&self, room: Room) -> (r: Option<Room>)
        requires
            room.area.width >= 2,
            room.area.height >= 2,
            room.area.start_position.x < u16::MAX,
            room.area.start_position.y < u16::MAX,
            rectangular_area_fits(inside_start(room.area), (room.area.width - 2) as u16, (room.area.height - 2) as u16),
        ensures
            match last_spot(inside_area(room.area).start_position.x as int, inside_area(room.area).end_position.x as int,
                inside_area(room.area).start_position.y as int, inside_area(room.area).end_position.y as int, room.exit) {
                Some(t) => r matches Some(updated) && updated.exit == Some(t) && updated.area == room.area
                    && updated.doors@ == room.doors@ && updated.entry == room.entry,
                None => r is None,
            },
    {
        let mut updated_room = room.clone();
        let inside_area = updated_room.get_inside_area();
        let target = last_open_spot(
            inside_area.start_position.x,
            inside_area.end_position.x as u32,
            inside_area.start_position.y,
            inside_area.end_position.y as u32,
            room.get_exit(),
        );
        if let Some(t) = target {
            updated_room.set_exit(Some(t));
            return Some(updated_room);
        } else {
            return None;
        }
    }
}


/// Whether the position lies within the rows and columns of the tiles.
pub open spec fn in_grid(t: Tiles, p: Position) -> bool {
    p.y < t.tiles@.len() && p.x < t.tiles@[p.y as int]@.len()
}

/// Whether two tile grids have the same rows, each as long as the other's.
pub open spec fn same_shape(a: Tiles, b: Tiles) -> bool {
    &&& a.tiles@.len() == b.tiles@.len()
    &&& forall|y: int| 0 <= y < a.tiles@.len() ==> #[trigger] a.tiles@[y]@.len() == b.tiles@[y]@.len()
}

/// The last door of the list standing at `p`.
pub open spec fn last_door_at(doors: Seq<Door>, p: Position) -> Option<Door>
    decreases doors.len(),
{
    if doors.len() == 0 {
        None
    } else if doors.last().position == p {
        Some(doors.last())
    } else {
        last_door_at(doors.drop_last(), p)
    }
}

/// Whether `p` lies on one of the sides (the walls) of the area.
pub open spec fn on_wall(a: Area, p: Position) -> bool {
    exists|k: int| 0 <= k < 4 && contains_spec(#[trigger] sides_spec(a)[k].area, p)
}

/// Whether drawing the room writes a tile at `p`: a door, a wall, its entry or
/// exit, or a cell inside its walls.
pub open spec fn room_writes(room: Room, p: Position) -> bool {
    ||| last_door_at(room.doors@, p) is Some
    ||| on_wall(room.area, p)
    ||| room.entry == Some(p)
    ||| room.exit == Some(p)
    ||| contains_spec(inside_area(room.area), p)
}

/// What drawing a room needs: its inside can be computed, its walls and
/// inside can be listed, and every cell it writes lies in the grid.
pub open spec fn room_drawable(room: Room, tiles: Tiles) -> bool {
    &&& room.area.width >= 2
    &&& room.area.height >= 2
    &&& room.area.start_position.x < u16::MAX
    &&& room.area.start_position.y < u16::MAX
    &&& rectangular_area_fits(inside_start(room.area), (room.area.width - 2) as u16, (room.area.height - 2) as u16)
    &&& inside_area(room.area).end_position.x < u16::MAX
    &&& inside_area(room.area).end_position.y < u16::MAX
    &&& line_fits(room.area.start_position, room.area.height, Side::RIGHT)
    &&& line_fits(room.area.start_position, room.area.width, Side::BOTTOM)
    &&& forall|k: int| 0 <= k < 4 ==> (#[trigger] sides_spec(room.area)[k]).area.end_position.x < u16::MAX
        && sides_spec(room.area)[k].area.end_position.y < u16::MAX
    &&& forall|p: Position| room_writes(room, p) ==> in_grid(tiles, p)
}

proof fn lemma_last_door_some(doors: Seq<Door>, i: int)
    requires
        0 <= i < doors.len(),
    ensures
        last_door_at(doors, doors[i].position) is Some,
    decreases doors.len(),
{
    if doors.last().position != doors[i].position {
        assert(i < doors.len() - 1);
        lemma_last_door_some(doors.drop_last(), i);
    }
}

proof fn lemma_drawable_same_shape(r1: Room, r2: Room, before: Tiles, after: Tiles)
    requires
        crate::map::same_room(r1, r2),
        room_drawable(r2, before),
        same_shape(after, before),
    ensures
        room_drawable(r1, after),
{
    assert forall|p: Position| room_writes(r1, p) implies in_grid(after, p) by {
        assert(room_writes(r2, p));
        assert(in_grid(before, p));
    }
}

/// Sets each of the positions to the tile.
fn paint(tiles: &mut Tiles, positions: &Vec<Position>, tile: TileDetails)
    requires
        forall|i: int| 0 <= i < positions@.len() ==> in_grid(*old(tiles), #[trigger] positions@[i]),
    ensures
        same_shape(*final(tiles), *old(tiles)),
        forall|p: Position| #[trigger] crate::map::tile_at(*final(tiles), p)
            == if positions@.contains(p) { Some(tile) } else { crate::map::tile_at(*old(tiles), p) },
{
    let mut i: usize = 0;
    while i < positions.len()
        invariant
            i <= positions@.len(),
            same_shape(*tiles, *old(tiles)),
            forall|k: int| 0 <= k < positions@.len() ==> in_grid(*old(tiles), #[trigger] positions@[k]),
            forall|p: Position| #[trigger] crate::map::tile_at(*tiles, p)
                == if positions@.take(i as int).contains(p) { Some(tile) } else { crate::map::tile_at(*old(tiles), p) },
        decreases positions@.len() - i,
    {
        let position = positions[i];
        let ghost before = *tiles;
        proof {
            assert(in_grid(*old(tiles), positions@[i as int]));
        }
        tiles.set_tile(position, tile);
        proof {
            assert forall|p: Position| #[trigger] crate::map::tile_at(*tiles, p)
                == if positions@.take(i + 1).contains(p) { Some(tile) } else { crate::map::tile_at(*old(tiles), p) } by {
                if p == position {
                    assert(positions@.take(i + 1)[i as int] == p);
                } else {
                    if positions@.take(i + 1).contains(p) {
                        let k = choose|k: int| 0 <= k < i + 1 && #[trigger] positions@.take(i + 1)[k] == p;
                        assert(k < i);
                        assert(positions@.take(i as int)[k] == p);
                    }
                    if positions@.take(i as int).contains(p) {
                        let k = choose|k: int| 0 <= k < i && #[trigger] positions@.take(i as int)[k] == p;
                        assert(positions@.take(i + 1)[k] == p);
                    }
                    assert(crate::map::tile_at(*tiles, p) == crate::map::tile_at(before, p));
                }
            }
        }
        i += 1;
    }
    assert(positions@.take(positions@.len() as int) =~= positions@);
}


/// What drawing the room leaves at `p`: the tile of the last door there, else
/// a wall on its sides, else its exit, else its entry, else the room's floor
/// inside its walls; elsewhere the tile stays as it was.
pub open spec fn drawn(room: Room, before: Tiles, after: Tiles, p: Position) -> bool {
    match last_door_at(room.doors@, p) {
        Some(d) => crate::map::tile_at(after, p) == Some(d.tile_details),
        None => if on_wall(room.area, p) {
            crate::map::tile_at(after, p) matches Some(t) && is_library_tile(t, TileType::Wall)
        } else if room.exit == Some(p) {
            crate::map::tile_at(after, p) matches Some(t) && is_library_tile(t, TileType::Exit)
        } else if room.entry == Some(p) {
            crate::map::tile_at(after, p) matches Some(t) && is_library_tile(t, TileType::Entry)
        } else if contains_spec(inside_area(room.area), p) {
            crate::map::tile_at(after, p) matches Some(t) && is_library_tile(t, TileType::Room)
        } else {
            crate::map::tile_at(after, p) == crate::map::tile_at(before, p)
        },
    }
}

/// The index of the first occurrence of `position` in the list.
fn position_in(positions: &Vec<Position>, position: Position) -> (r: Option<usize>)
    ensures
        match r {
            Some(k) => k < positions@.len() && positions@[k as int] == position,
            None => !positions@.contains(position),
        },
{
    let mut i: usize = 0;
    while i < positions.len()
        invariant
            i <= positions@.len(),
            forall|j: int| 0 <= j < i ==> positions@[j] != position,
        decreases positions@.len() - i,
    {
        if positions[i] == position {
            return Some(i);
        }
        i += 1;
    }
    None
}

/// Removing the one occurrence of `q` from a list without repeats takes out
/// `q` and nothing else.
proof fn lemma_remove_unique(ps: Seq<Position>, k: int, q: Position)
    requires
        ps.no_duplicates(),
        0 <= k < ps.len(),
        ps[k] == q,
    ensures
        ps.remove(k).no_duplicates(),
        forall|p: Position| #[trigger] ps.remove(k).contains(p) == (ps.contains(p) && p != q),
{
    let r = ps.remove(k);
    assert forall|p: Position| #[trigger] r.contains(p) == (ps.contains(p) && p != q) by {
        if r.contains(p) {
            let j = choose|j: int| 0 <= j < r.len() && r[j] == p;
            if j < k {
                assert(ps[j] == p);
            } else {
                assert(ps[j + 1] == p);
            }
        }
        if ps.contains(p) && p != q {
            let j = choose|j: int| 0 <= j < ps.len() && ps[j] == p;
            if j < k {
                assert(r[j] == p);
            } else {
                assert(j != k);
                assert(r[j - 1] == p);
            }
        }
    }
    assert forall|i: int, j: int| 0 <= i < r.len() && 0 <= j < r.len() && i != j implies r[i] != r[j] by {
        let ii = if i < k { i } else { i + 1 };
        let jj = if j < k { j } else { j + 1 };
        assert(r[i] == ps[ii]);
        assert(r[j] == ps[jj]);
    }
}

impl MapGenerator {
    /// Draws a room on the map: its entry and exit tiles, floor inside its
    /// walls, wall tiles on its sides, and its doors.
    pub fn add_room_to_map(&mut self, room: &Room)
        requires
            room_drawable(*room, old(self).map.tiles),
        ensures
            same_settings(old(self), final(self)),
            final(self).map.area == old(self).map.area,
            final(self).map.rooms == old(self).map.rooms,
            final(self).map.containers == old(self).map.containers,
            same_shape(final(self).map.tiles, old(self).map.tiles),
            forall|p: Position| drawn(*room, old(self).map.tiles, final(self).map.tiles, p),
    {
        let ghost t0 = self.map.tiles;
        let tile_library = build_library();
        let room_tile = tile_library.get(TileType::Room);
        let wall_tile = tile_library.get(TileType::Wall);
        let entry_tile = tile_library.get(TileType::Entry);
        let exit_tile = tile_library.get(TileType::Exit);

        let inside_area = room.get_inside_area();
        let mut inside_positions = inside_area.get_positions();
        proof {
            crate::position::lemma_area_positions_exact(inside_area);
        }
        if let Some(entry_pos) = room.get_entry() {
            proof {
                assert(room_writes(*room, entry_pos));
            }
            self.map.tiles.set_tile(entry_pos, entry_tile);
            if let Some(idx) = position_in(&inside_positions, entry_pos) {
                proof {
                    lemma_remove_unique(inside_positions@, idx as int, entry_pos);
                }
                inside_positions.remove(idx);
            }
        }
        let ghost te = self.map.tiles;
        proof {
            assert forall|p: Position| #[trigger] crate::map::tile_at(te, p) == if room.entry == Some(p) {
                Some(entry_tile)
            } else {
                crate::map::tile_at(t0, p)
            } by {}
            assert(same_shape(te, t0));
        }
        if let Some(exit_pos) = room.get_exit() {
            proof {
                assert(room_writes(*room, exit_pos));
                assert(in_grid(t0, exit_pos));
            }
            self.map.tiles.set_tile(exit_pos, exit_tile);
            if let Some(idx) = position_in(&inside_positions, exit_pos) {
                proof {
                    lemma_remove_unique(inside_positions@, idx as int, exit_pos);
                }
                inside_positions.remove(idx);
            }
        }
        let ghost t1 = self.map.tiles;
        proof {
            assert forall|p: Position| #[trigger] crate::map::tile_at(t1, p) == if room.exit == Some(p) {
                Some(exit_tile)
            } else if room.entry == Some(p) {
                Some(entry_tile)
            } else {
                crate::map::tile_at(t0, p)
            } by {}
            assert forall|p: Position| #[trigger] inside_positions@.contains(p)
                == (contains_spec(inside_area, p) && room.entry != Some(p) && room.exit != Some(p)) by {}
        }

        proof {
            assert(same_shape(t1, t0));
            assert forall|i: int| 0 <= i < inside_positions@.len() implies in_grid(t1, #[trigger] inside_positions@[i]) by {
                let q = inside_positions@[i];
                assert(inside_positions@.contains(q));
                assert(room_writes(*room, q));
            }
        }
        paint(&mut self.map.tiles, &inside_positions, room_tile);
        let ghost t2 = self.map.tiles;

        let sides = room.get_sides();
        let mut k: usize = 0;
        while k < sides.len()
            invariant
                k <= 4,
                sides@ == sides_spec(room.area),
                room_drawable(*room, t0),
                same_shape(self.map.tiles, t0),
                same_settings(old(self), self),
                self.map.area == old(self).map.area,
                self.map.rooms == old(self).map.rooms,
                self.map.containers == old(self).map.containers,
                is_library_tile(wall_tile, TileType::Wall),
                forall|p: Position| #[trigger] crate::map::tile_at(self.map.tiles, p)
                    == if exists|j: int| 0 <= j < k && contains_spec(#[trigger] sides_spec(room.area)[j].area, p) {
                        Some(wall_tile)
                    } else {
                        crate::map::tile_at(t2, p)
                    },
            decreases 4 - k,
        {
            let side_area = sides[k].area;
            let side_positions = side_area.get_positions();
            proof {
                crate::position::lemma_area_positions_exact(side_area);
                assert forall|i: int| 0 <= i < side_positions@.len() implies in_grid(self.map.tiles, #[trigger] side_positions@[i]) by {
                    let q = side_positions@[i];
                    assert(contains_spec(sides_spec(room.area)[k as int].area, q));
                    assert(on_wall(room.area, q));
                    assert(room_writes(*room, q));
                }
            }
            let ghost before = self.map.tiles;
            paint(&mut self.map.tiles, &side_positions, wall_tile);
            proof {
                assert forall|p: Position| #[trigger] crate::map::tile_at(self.map.tiles, p)
                    == if exists|j: int| 0 <= j < k + 1 && contains_spec(#[trigger] sides_spec(room.area)[j].area, p) {
                        Some(wall_tile)
                    } else {
                        crate::map::tile_at(t2, p)
                    } by {
                    if contains_spec(sides_spec(room.area)[k as int].area, p) {
                        assert(side_positions@.contains(p));
                    } else {
                        assert(!side_positions@.contains(p));
                        if exists|j: int| 0 <= j < k + 1 && contains_spec(#[trigger] sides_spec(room.area)[j].area, p) {
                            let j = choose|j: int| 0 <= j < k + 1 && contains_spec(#[trigger] sides_spec(room.area)[j].area, p);
                            assert(j < k);
                        }
                    }
                }
            }
            k += 1;
        }
        let ghost t3 = self.map.tiles;

        let doors = room.get_doors();
        let mut i: usize = 0;
        while i < doors.len()
            invariant
                i <= doors@.len(),
                doors@ == room.doors@,
                room_drawable(*room, t0),
                same_shape(self.map.tiles, t0),
                same_settings(old(self), self),
                self.map.area == old(self).map.area,
                self.map.rooms == old(self).map.rooms,
                self.map.containers == old(self).map.containers,
                forall|p: Position| #[trigger] crate::map::tile_at(self.map.tiles, p)
                    == match last_door_at(doors@.take(i as int), p) {
                        Some(d) => Some(d.tile_details),
                        None => crate::map::tile_at(t3, p),
                    },
            decreases doors@.len() - i,
        {
            let door = doors[i];
            proof {
                let taken = doors@.take(i + 1);
                assert(taken.drop_last() =~= doors@.take(i as int));
                assert(taken.last() == door);
                lemma_last_door_some(room.doors@, i as int);
                assert(room_writes(*room, door.position));
            }
            self.map.tiles.set_tile(door.position, door.tile_details);
            proof {
                let taken = doors@.take(i + 1);
                assert forall|p: Position| #[trigger] crate::map::tile_at(self.map.tiles, p)
                    == match last_door_at(taken, p) {
                        Some(d) => Some(d.tile_details),
                        None => crate::map::tile_at(t3, p),
                    } by {
                    assert(taken.drop_last() =~= doors@.take(i as int));
                }
            }
            i += 1;
        }
        proof {
            assert(doors@.take(doors@.len() as int) =~= room.doors@);
            assert forall|p: Position| drawn(*room, t0, self.map.tiles, p) by {
                if last_door_at(room.doors@, p) is None {
                    if !on_wall(room.area, p) {
                        assert(!exists|j: int| 0 <= j < 4 && contains_spec(#[trigger] sides_spec(room.area)[j].area, p));
                    }
                }
            }
        }
    }

    /// Draws every room of the map on it, in the order of the map's rooms: at
    /// each cell, the last room that draws there decides the tile.
    pub fn add_rooms_to_map(&mut self)
        requires
            forall|i: int| 0 <= i < old(self).map.rooms@.len() ==> room_drawable(#[trigger] old(self).map.rooms@[i], old(self).map.tiles),
        ensures
            same_settings(old(self), final(self)),
            final(self).map.area == old(self).map.area,
            final(self).map.rooms == old(self).map.rooms,
            final(self).map.containers == old(self).map.containers,
            same_shape(final(self).map.tiles, old(self).map.tiles),
            forall|p: Position| #[trigger] all_drawn(old(self).map.rooms@, old(self).map.tiles, final(self).map.tiles, p),
    {
        let rooms = self.map.get_rooms();
        let mut i: usize = 0;
        while i < rooms.len()
            invariant
                i <= rooms@.len(),
                same_rooms(rooms@, self.map.rooms@),
                same_settings(old(self), self),
                self.map.area == old(self).map.area,
                self.map.rooms == old(self).map.rooms,
                same_shape(self.map.tiles, old(self).map.tiles),
                self.map.containers == old(self).map.containers,
                forall|j: int| 0 <= j < old(self).map.rooms@.len() ==> room_drawable(#[trigger] old(self).map.rooms@[j], old(self).map.tiles),
                forall|p: Position| #[trigger] all_drawn(old(self).map.rooms@.take(i as int), old(self).map.tiles, self.map.tiles, p),
            decreases rooms@.len() - i,
        {
            proof {
                let r = rooms@[i as int];
                assert(crate::map::same_room(r, old(self).map.rooms@[i as int]));
                lemma_drawable_same_shape(r, old(self).map.rooms@[i as int], old(self).map.tiles, self.map.tiles);
            }
            let ghost before = self.map.tiles;
            self.add_room_to_map(&rooms[i]);
            proof {
                let rs = old(self).map.rooms@;
                let room = rs[i as int];
                let taken = rs.take(i + 1);
                assert(taken.drop_last() =~= rs.take(i as int));
                assert(taken.last() == room);
                assert forall|p: Position| #[trigger] all_drawn(taken, old(self).map.tiles, self.map.tiles, p) by {
                    assert(drawn(rooms@[i as int], before, self.map.tiles, p));
                    assert(all_drawn(rs.take(i as int), old(self).map.tiles, before, p));
                    lemma_last_room_writes(rs.take(i as int), p);
                    if !room_writes(room, p) {
                        assert(crate::map::tile_at(self.map.tiles, p) == crate::map::tile_at(before, p));
                    }
                }
            }
            i += 1;
        }
        proof {
            assert(old(self).map.rooms@.take(rooms@.len() as int) =~= old(self).map.rooms@);
        }
    }
}


/// The last room of the list that draws something at `p`.
pub open spec fn last_room_writing(rooms: Seq<Room>, p: Position) -> Option<Room>
    decreases rooms.len(),
{
    if rooms.len() == 0 {
        None
    } else if room_writes(rooms.last(), p) {
        Some(rooms.last())
    } else {
        last_room_writing(rooms.drop_last(), p)
    }
}

/// What drawing the rooms in turn leaves at `p`: what the last room drawing
/// there draws, or, where no room draws, the tile as it was.
pub open spec fn all_drawn(rooms: Seq<Room>, before: Tiles, after: Tiles, p: Position) -> bool {
    match last_room_writing(rooms, p) {
        Some(r) => drawn(r, before, after, p),
        None => crate::map::tile_at(after, p) == crate::map::tile_at(before, p),
    }
}

proof fn lemma_last_room_writes(rooms: Seq<Room>, p: Position)
    ensures
        last_room_writing(rooms, p) matches Some(r) ==> room_writes(r, p),
    decreases rooms.len(),
{
    if rooms.len() > 0 && !room_writes(rooms.last(), p) {
        lemma_last_room_writes(rooms.drop_last(), p);
    }
}

/// The rooms `generate_rooms` places (of at least 2 cells a side) can all be
/// drawn on the blank grid `build_map` lays over a map starting at the origin.
pub proof fn lemma_generated_rooms_drawable(g: &MapGenerator)
    requires
        g.map_area.start_position == (Position { x: 0, y: 0 }),
        g.map_area.end_position.x + g.max_room_size < u16::MAX,
        g.map_area.end_position.y + g.max_room_size < u16::MAX,
        g.min_room_size >= 2,
        blank_grid(g.map.tiles.tiles@, g.map_area),
        rooms_generated(g.map.rooms@, g),
    ensures
        forall|i: int| 0 <= i < g.map.rooms@.len() ==> room_drawable(#[trigger] g.map.rooms@[i], g.map.tiles),
{
    assert forall|i: int| 0 <= i < g.map.rooms@.len() implies room_drawable(#[trigger] g.map.rooms@[i], g.map.tiles) by {
        let room = g.map.rooms@[i];
        let a = room.area;
        assert(room_in_map(room, g.map_area, g.min_room_size, g.max_room_size, g.max_door_count));
        assert forall|p: Position| contains_spec(a, p) implies in_grid(g.map.tiles, p) by {
            lemma_room_inside_map(room, g.map_area, g.min_room_size, g.max_room_size, g.max_door_count, p);
            assert(g.map.tiles.tiles@[p.y as int]@.len() == span(0, g.map_area.end_position.x));
        }
        assert forall|p: Position| room_writes(room, p) implies in_grid(g.map.tiles, p) by {
            crate::position::lemma_square_sides_on_edges(a, p);
            if last_door_at(room.doors@, p) is Some {
                let k = lemma_last_door_index(room.doors@, p);
                lemma_doors_on_walls(room, g.map_area, g.min_room_size, g.max_room_size, g.max_door_count, k);
            }
            if on_wall(a, p) {
                let k = choose|k: int| 0 <= k < 4 && contains_spec(#[trigger] sides_spec(a)[k].area, p);
                assert(contains_spec(sides_spec(a)[k].area, p));
            }
        }
    }
}

proof fn lemma_last_door_index(doors: Seq<Door>, p: Position) -> (k: int)
    requires
        last_door_at(doors, p) is Some,
    ensures
        0 <= k < doors.len(),
        doors[k].position == p,
    decreases doors.len(),
{
    if doors.last().position == p {
        doors.len() - 1
    } else {
        lemma_last_door_index(doors.drop_last(), p)
    }
}

} // verus!
