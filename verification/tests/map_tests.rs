use arq::container::{Container, ContainerType};
use arq::map::{build_door, build_room, ContainerMap, GameMap, Tiles};
use arq::position::{build_square_area, Position};
use arq::tile::{build_library, TileType};
use uuid::Uuid;

fn new_id() -> u128 {
    Uuid::new_v4().as_u128()
}

#[test]
fn test_build_map() {
    let tile_library = build_library();
    assert_eq!(9, tile_library.len());

    let rom = tile_library.get(TileType::Room).clone();
    let wall = tile_library.get(TileType::Wall).clone();

    let room_pos = Position { x: 0, y: 0 };
    let room_area = build_square_area(room_pos, 3);
    let doors = Vec::new();

    let room = build_room(room_area, doors);

    let mut rooms = Vec::new();
    rooms.push(room);

    let map_pos = Position { x: 0, y: 0 };
    let map_area = build_square_area(map_pos, 3);
    let map = GameMap {
        area: map_area,
        tiles: Tiles { tiles: vec![
            vec![wall.clone(), wall.clone(), wall.clone()],
            vec![wall.clone(), rom.clone(), wall.clone()],
            vec![wall.clone(), wall.clone(), wall.clone()],
        ] },
        rooms,
        containers: ContainerMap::new(),
    };

    assert_eq!(3, map.tiles.tiles.len());
    assert_eq!(3, map.tiles.tiles[0].len());
    assert_eq!(3, map.tiles.tiles[1].len());
    assert_eq!(3, map.tiles.tiles[2].len());
}

#[test]
fn test_adjust_map() {
    let tile_library = build_library();
    assert_eq!(9, tile_library.len());

    let wall = tile_library.get(TileType::Wall).clone();

    let room_pos = Position { x: 0, y: 0 };
    let room_area = build_square_area(room_pos, 3);
    let room = build_room(room_area, Vec::new());

    let mut rooms = Vec::new();
    rooms.push(room);

    let map_pos = Position { x: 0, y: 0 };
    let map_area = build_square_area(map_pos, 3);
    let mut map = GameMap {
        area: map_area,
        tiles: Tiles { tiles: vec![
            vec![wall.clone(), wall.clone(), wall.clone()],
        ] },
        rooms,
        containers: ContainerMap::new(),
    };

    assert_eq!(1, map.tiles.tiles.len());

    // WHEN we push an item to the first row
    map.tiles.tiles[0].push(wall.clone());
    // THEN we expect it to go from 3 to 4 items long
    assert_eq!(4, map.tiles.tiles[0].len());

    // THEN we expect it to be available at 0,1
    assert_eq!(TileType::Wall, map.tiles.tiles[0][1].tile_type);

    // AND WHEN we push an new row to the map
    map.tiles.tiles.push(vec![wall.clone()]);
    // THEN we expect the length to increase
    assert_eq!(1, map.tiles.tiles[1].len());
    // AND the new tile to be available at 1,0
    assert_eq!(TileType::Wall, map.tiles.tiles[1][0].tile_type);
}

#[test]
fn test_build_library() {
    let library = build_library();
    assert_eq!(9, library.len());
}

fn build_3x3_map() -> GameMap {
    let tile_library = build_library();
    let rom = tile_library.get(TileType::Room);
    let wall = tile_library.get(TileType::Wall);
    GameMap {
        area: build_square_area(Position { x: 0, y: 0 }, 3),
        tiles: Tiles { tiles: vec![
            vec![wall, wall, wall],
            vec![wall, rom, wall],
            vec![wall, wall, wall],
        ] },
        rooms: Vec::new(),
        containers: ContainerMap::new(),
    }
}

#[test]
fn tile_library_entries_match_their_type() {
    let library = build_library();
    let door = library.get(TileType::Door);
    assert_eq!(TileType::Door, door.tile_type);
    assert_eq!("Door", door.name);
    assert!(door.traversable);
    assert_eq!('=', door.symbol.character);
    let no_tile = library.get(TileType::NoTile);
    assert_eq!("Empty", no_tile.name);
    assert!(!no_tile.traversable);
}

#[test]
fn get_tile_reads_back_set_tile() {
    let library = build_library();
    let mut map = build_3x3_map();
    let pos = Position { x: 2, y: 1 };
    assert_eq!(TileType::Wall, map.tiles.get_tile(pos).unwrap().tile_type);
    map.tiles.set_tile(pos, library.get(TileType::Door));
    assert_eq!(TileType::Door, map.tiles.get_tile(pos).unwrap().tile_type);
    assert_eq!(TileType::Wall, map.tiles.get_tile(Position { x: 0, y: 1 }).unwrap().tile_type);
    assert!(map.tiles.get_tile(Position { x: 3, y: 1 }).is_none());
    assert!(map.tiles.get_tile(Position { x: 0, y: 3 }).is_none());
}

#[test]
fn traversable_and_paveable_tiles() {
    let library = build_library();
    let mut map = build_3x3_map();
    assert!(map.is_traversable(Position { x: 1, y: 1 }));
    assert!(!map.is_traversable(Position { x: 0, y: 0 }));
    assert!(!map.is_traversable(Position { x: 5, y: 5 }));
    assert!(map.is_paveable(Position { x: 1, y: 1 }));
    assert!(!map.is_paveable(Position { x: 0, y: 1 }));
    assert!(!map.is_paveable(Position { x: 9, y: 9 }));
    map.tiles.set_tile(Position { x: 0, y: 0 }, library.get(TileType::NoTile));
    assert!(map.is_paveable(Position { x: 0, y: 0 }));
    assert!(map.in_bounds(2, 2));
    assert!(!map.in_bounds(3, 2));
    assert!(map.position_in_bounds(Position { x: 2, y: 0 }));
    assert!(!map.position_in_bounds(Position { x: 0, y: 3 }));
}

#[test]
fn map_neighbors_stay_on_the_map() {
    let map = build_3x3_map();
    let corner = map.get_neighbors(Position { x: 0, y: 0 });
    assert_eq!(vec![Position { x: 1, y: 0 }, Position { x: 0, y: 1 }], corner);
    let centre = map.get_neighbors(Position { x: 1, y: 1 });
    assert_eq!(4, centre.len());
    let edge = map.get_neighbors(Position { x: 2, y: 1 });
    assert_eq!(vec![Position { x: 1, y: 1 }, Position { x: 2, y: 0 }, Position { x: 2, y: 2 }], edge);
    assert!(map.get_neighbors(Position { x: 3, y: 3 }).is_empty());
}

#[test]
fn containers_found_by_position_and_identity() {
    let mut map = build_3x3_map();
    let pos = Position { x: 1, y: 1 };
    let mut chest = Container::new(new_id(), "Chest".to_owned(), '$', 1000, 1, ContainerType::OBJECT, 100);
    let mut bag = Container::new(new_id(), "Bag".to_owned(), '$', 1000, 1, ContainerType::OBJECT, 10);
    let carton = Container::new(new_id(), "Carton".to_owned(), '$', 1000, 1, ContainerType::OBJECT, 5);
    let carton_copy = carton.clone();
    bag.push(vec![carton]);
    let bag_copy = bag.clone();
    chest.push(vec![bag]);
    let chest_copy = chest.clone();
    assert!(map.containers.insert(pos, chest).is_none());

    assert!(map.get_container(pos).unwrap().id_equals(&chest_copy));
    assert!(map.get_container(Position { x: 0, y: 0 }).is_none());
    assert_eq!(1, map.find_containers(pos).len());
    assert_eq!(0, map.find_containers(Position { x: 2, y: 2 }).len());

    assert!(map.find_container(&chest_copy, pos).unwrap().id_equals(&chest_copy));
    assert!(map.find_container(&bag_copy, pos).unwrap().id_equals(&bag_copy));
    assert!(map.find_container(&carton_copy, pos).unwrap().id_equals(&carton_copy));
    assert!(map.find_container(&carton_copy, Position { x: 0, y: 1 }).is_none());
    assert_eq!(2, map.get_container(pos).unwrap().get_total_count());
}

#[test]
fn replace_container_only_replaces_the_same_container() {
    let mut map = build_3x3_map();
    let pos = Position { x: 1, y: 1 };
    let id = new_id();
    let chest = Container::new(id, "Chest".to_owned(), '$', 1000, 1, ContainerType::OBJECT, 100);
    map.containers.insert(pos, chest);

    let other = Container::new(new_id(), "Other".to_owned(), '$', 1000, 1, ContainerType::OBJECT, 100);
    map.replace_container(pos, other);
    assert_eq!("Chest", map.get_container(pos).unwrap().get_self_item().get_name());

    let mut renamed = Container::new(id, "Open Chest".to_owned(), '$', 1000, 1, ContainerType::OBJECT, 100);
    renamed.push(vec![Container::new(new_id(), "Coin".to_owned(), 'c', 1, 1, ContainerType::ITEM, 0)]);
    map.replace_container(pos, renamed);
    let now = map.get_container(pos).unwrap();
    assert_eq!("Open Chest", now.get_self_item().get_name());
    assert_eq!(1, now.get_top_level_count());
}

#[test]
fn container_at_position_can_be_changed_in_place() {
    let mut map = build_3x3_map();
    let pos = Position { x: 1, y: 1 };
    map.containers.insert(pos, Container::new(new_id(), "Floor".to_owned(), 'X', 1000, 1, ContainerType::AREA, 100));
    if let Some(floor) = map.get_container_at_position_mut(pos) {
        floor.push(vec![Container::new(new_id(), "Bag".to_owned(), 'X', 1000, 1, ContainerType::OBJECT, 100)]);
    }
    assert_eq!(1, map.get_container(pos).unwrap().get_top_level_count());
    assert!(map.get_container_at_position_mut(Position { x: 0, y: 0 }).is_none());
    assert_eq!(1, map.get_containers_mut().len());
}

#[test]
fn rooms_are_copied_with_their_doors() {
    let mut map = build_3x3_map();
    let door = build_door(Position { x: 1, y: 0 });
    map.rooms.push(build_room(build_square_area(Position { x: 0, y: 0 }, 3), vec![door]));
    let rooms = map.get_rooms();
    assert_eq!(1, rooms.len());
    assert_eq!(1, rooms[0].get_doors().len());
    assert_eq!(Position { x: 1, y: 0 }, rooms[0].get_doors()[0].position);
    assert_eq!("Door", rooms[0].get_doors()[0].tile_details.name);
    assert!(rooms[0].get_entry().is_none());
    assert!(rooms[0].get_exit().is_none());
}
