use vstd::prelude::*;

use crate::container::{container_type_name, Container, ContainerType};
use crate::errors::{ErrorType, ErrorWrapper};
use crate::map::{tile_at, Door, GameMap, Room};
use crate::position::{contains_spec, Position};
use crate::text::{decimal, push_decimal};
use crate::tile::TileType;

verus! {

/// The first door at the position, if any.
pub open spec fn door_at(doors: Seq<Door>, pos: Position) -> Option<Door>
    decreases doors.len(),
{
    if doors.len() == 0 {
        None
    } else if doors[0].position == pos {
        Some(doors[0])
    } else {
        door_at(doors.drop_first(), pos)
    }
}

/// "There's a {name} here."
pub open spec fn there_is_a(name: Seq<char>) -> Seq<char> {
    "There's a "@ + name + " here."@
}

/// Describes a door of the room lying at the position, if there is one.
pub fn describe_position_in_room(pos: Position, room: &Room) -> (r: Option<String>)
    ensures
        match door_at(room.doors@, pos) {
            Some(door) => r matches Some(s) && s@ == there_is_a(door.tile_details.name@),
            None => r.is_none(),
        },
{
    proof {
        reveal_strlit("There's a ");
        reveal_strlit(" here.");
    }
    let doors = room.get_doors();
    let mut i: usize = 0;
    assert(doors@.skip(0) =~= doors@);
    while i < doors.len()
        invariant
            i <= doors@.len(),
            doors@ == room.doors@,
            door_at(doors@, pos) == door_at(doors@.skip(i as int), pos),
        decreases doors@.len() - i,
    {
        assert(doors@.skip(i as int)[0] == doors@[i as int]);
        assert(doors@.skip(i as int).drop_first() =~= doors@.skip(i + 1));
        if doors[i].position == pos {
            let mut s = String::from_str("There's a ");
            s.append(doors[i].tile_details.name);
            s.append(" here.");
            return Some(s);
        }
        i += 1;
    }
    None
}

/// What `describe_position_container` says of a floor-level container.
pub open spec fn container_description(c: Container) -> Seq<char> {
    let name = c.self_item()@.display_name();
    let count = c.inside().len();
    if name == "Floor"@ {
        if count > 1 {
            "There's "@ + decimal(count) + " items on the Floor here."@
        } else if count == 1 {
            "There's a "@ + c.inside()[0].self_item()@.display_name() + " on the "@ + name + " here."@
        } else {
            "The Floor is empty here."@
        }
    } else {
        there_is_a(name)
    }
}

/// Describes what lies in an area container: the items on a floor, or the
/// container itself. Only area containers can be described.
pub fn describe_position_container(c: &Container) -> (r: Result<String, ErrorWrapper>)
    ensures
        c.kind() == ContainerType::AREA ==> (r matches Ok(s) && s@ == container_description(*c)),
        c.kind() != ContainerType::AREA ==> (r matches Err(e) && e.wf() && e.error_type == ErrorType::INTERNAL
            && e.text() == "Unexpected input! Cannot describe position with container of type "@
                + container_type_name(c.kind()) + "."@),
{
    proof {
        reveal_strlit("Unexpected input! Cannot describe position with container of type ");
        reveal_strlit(".");
        reveal_strlit("Floor");
        reveal_strlit("There's ");
        reveal_strlit(" items on the Floor here.");
        reveal_strlit("There's a ");
        reveal_strlit(" on the ");
        reveal_strlit(" here.");
        reveal_strlit("The Floor is empty here.");
    }
    let item_count = c.get_top_level_count();
    let container_type = c.get_container_type();
    if container_type != ContainerType::AREA {
        let mut message = String::from_str("Unexpected input! Cannot describe position with container of type ");
        message.append(container_type.name().as_str());
        message.append(".");
        return ErrorWrapper::internal_result(message);
    }
    let c_item_name = c.get_self_item().get_name();
    if c_item_name == String::from_str("Floor") {
        if item_count > 1 {
            let mut s = String::from_str("There's ");
            push_decimal(&mut s, item_count as u64);
            s.append(" items on the Floor here.");
            Ok(s)
        } else if item_count == 1 {
            let top_item_name = c.get_contents()[0].get_self_item().get_name();
            let mut s = String::from_str("There's a ");
            s.append(top_item_name.as_str());
            s.append(" on the ");
            s.append(c_item_name.as_str());
            s.append(" here.");
            Ok(s)
        } else {
            Ok(String::from_str("The Floor is empty here."))
        }
    } else {
        let mut s = String::from_str("There's a ");
        s.append(c_item_name.as_str());
        s.append(" here.");
        Ok(s)
    }
}

/// The first room whose area holds the position, if any.
pub open spec fn room_at(rooms: Seq<Room>, pos: Position) -> Option<Room>
    decreases rooms.len(),
{
    if rooms.len() == 0 {
        None
    } else if contains_spec(rooms[0].area, pos) {
        Some(rooms[0])
    } else {
        room_at(rooms.drop_first(), pos)
    }
}

/// The description of a position, or `None` when describing the container
/// lying there fails.
pub open spec fn position_description(m: GameMap, pos: Position) -> Option<Seq<char>> {
    let nothing = "There's nothing here."@;
    let door = match room_at(m.rooms@, pos) {
        Some(room) => door_at(room.doors@, pos),
        None => None,
    };
    if door is Some {
        Some(there_is_a(door.unwrap().tile_details.name@))
    } else {
        match tile_at(m.tiles, pos) {
            None => Some(nothing),
            Some(tile) => if tile.tile_type == TileType::NoTile {
                Some(nothing)
            } else if tile.tile_type == TileType::Wall || tile.tile_type == TileType::Window {
                Some(there_is_a(tile.name@))
            } else {
                let first = if tile.tile_type == TileType::Room { "You're in a room."@ } else { there_is_a(tile.name@) };
                match m.containers.get_spec(pos) {
                    Some(c) => if c.kind() == ContainerType::AREA {
                        Some(first + " "@ + container_description(c))
                    } else {
                        None
                    },
                    None => Some(first),
                }
            },
        }
    }
}

fn find_room<'a>(rooms: &'a Vec<Room>, pos: Position) -> (r: Option<&'a Room>)
    ensures
        match r {
            Some(room) => room_at(rooms@, pos) == Some(*room),
            None => room_at(rooms@, pos).is_none(),
        },
{
    let mut i: usize = 0;
    assert(rooms@.skip(0) =~= rooms@);
    while i < rooms.len()
        invariant
            i <= rooms@.len(),
            room_at(rooms@, pos) == room_at(rooms@.skip(i as int), pos),
        decreases rooms@.len() - i,
    {
        assert(rooms@.skip(i as int)[0] == rooms@[i as int]);
        assert(rooms@.skip(i as int).drop_first() =~= rooms@.skip(i + 1));
        if rooms[i].area.contains_position(pos) {
            return Some(&rooms[i]);
        }
        i += 1;
    }
    None
}

/// Describes what the player sees at a position of the map: a door, a wall or
/// window, the tile, and what lies there. Fails when there is no map, or when
/// the container lying there is not an area container.
pub fn describe_position(pos: Position, map: Option<&GameMap>) -> (r: Result<String, ErrorWrapper>)
    requires
        map matches Some(m) ==> m.wf(),
    ensures
        match map {
            Some(m) => match position_description(*m, pos) {
                Some(d) => r matches Ok(s) && s@ == d,
                None => r matches Err(e) && e.error_type == ErrorType::INTERNAL,
            },
            None => r matches Err(e) && e.wf() && e.error_type == ErrorType::INTERNAL
                && e.text() == "Look usage failure, no map on level!"@,
        },
{
    proof {
        reveal_strlit("There's nothing here.");
        reveal_strlit("You're in a room.");
        reveal_strlit("There's a ");
        reveal_strlit(" here.");
        reveal_strlit(" ");
        reveal_strlit("Look usage failure, no map on level!");
    }
    if let Some(map) = map {
        if let Some(room) = find_room(&map.rooms, pos) {
            let prompt = describe_position_in_room(pos, room);
            if let Some(p) = prompt {
                return Ok(p);
            }
        }
        match map.tiles.get_tile(pos) {
            Some(tile) => {
                if tile.tile_type == TileType::NoTile {
                    Ok(String::from_str("There's nothing here."))
                } else if tile.tile_type == TileType::Wall || tile.tile_type == TileType::Window {
                    let mut s = String::from_str("There's a ");
                    s.append(tile.name);
                    s.append(" here.");
                    Ok(s)
                } else {
                    let mut first_description = if tile.tile_type == TileType::Room {
                        String::from_str("You're in a room.")
                    } else {
                        let mut s = String::from_str("There's a ");
                        s.append(tile.name);
                        s.append(" here.");
                        s
                    };
                    if let Some(c) = map.containers.get(&pos) {
                        match describe_position_container(c) {
                            Ok(d) => {
                                first_description.append(" ");
                                first_description.append(d.as_str());
                                Ok(first_description)
                            },
                            Err(e) => Err(e),
                        }
                    } else {
                        Ok(first_description)
                    }
                }
            },
            None => Ok(String::from_str("There's nothing here.")),
        }
    } else {
        ErrorWrapper::internal_result(String::from_str("Look usage failure, no map on level!"))
    }
}

} // verus!
