use arq::container::ContainerType;
use arq::map::{build_door, build_room, Tiles};
use arq::map_generator::build_generator;
use arq::tile::{library_tile, TileType};
use arq::position::{build_square_area, Position};
use rand_pcg::Pcg64;
use rand_seeder::Seeder;

#[test]
fn test_build_generator() {
    // GIVEN a 12x12 map board
    let map_area = build_square_area(Position { x: 0, y: 0 }, 12);
    let rng: &mut Pcg64 = &mut Seeder::from("test".to_string()).into_rng();
    let generator = build_generator(rng, map_area);

    assert_eq!(3, generator.min_room_size);
    assert_eq!(6, generator.max_room_size);
    assert_eq!(30, generator.room_area_quota_percentage);
    assert_eq!(4, generator.max_door_count);
    assert!(generator.tile_library.len() > 0);
    assert_eq!(map_area, generator.map_area);
    assert_eq!(0, generator.taken_positions.len());
    assert_eq!(0, generator.possible_room_positions.len());
}

#[test]
fn test_generate_room() {
    let map_area = build_square_area(Position { x: 0, y: 0 }, 12);
    let rng: &mut Pcg64 = &mut Seeder::from("test".to_string()).into_rng();
    let mut generator = build_generator(rng, map_area);

    let room = generator.generate_room(Position { x: 0, y: 0 }, 3);
    let expected_area = build_square_area(Position { x: 0, y: 0 }, 3);
    assert_eq!(expected_area, room.get_area());
    assert!(!room.get_doors().is_empty());
}

#[test]
fn test_generate_rooms() {
    let map_size = 12;
    let map_area = build_square_area(Position { x: 0, y: 0 }, map_size);
    let rng: &mut Pcg64 = &mut Seeder::from("test".to_string()).into_rng();
    let mut generator = build_generator(rng, map_area);

    let rooms = generator.generate_rooms();
    assert_ne!(0, rooms.len());

    for room in rooms {
        let area = room.get_area();
        let start_pos = area.start_position;
        assert!(start_pos.x <= 12 && start_pos.y < 12, "Expected room start position < 12 for x,y, but was: {}, {}", start_pos.x, start_pos.y);
        let end_pos = area.end_position;
        assert!(end_pos.x <= 12 && end_pos.y < 12, "Expected room end position < 12 for x,y, but was: {}, {}", end_pos.x, end_pos.y);
    }
}

#[test]
fn test_find_possible_room_positions() {
    // GIVEN a 5x5 map, whose end position is (4, 4)
    let map_area = build_square_area(Position { x: 0, y: 0 }, 5);
    let rng: &mut Pcg64 = &mut Seeder::from("test".to_string()).into_rng();
    let mut generator = build_generator(rng, map_area);

    generator.find_possible_room_positions();

    // THEN every position from 1 to 2 along each axis is listed, column by column
    let expected = vec![
        Position { x: 1, y: 1 },
        Position { x: 1, y: 2 },
        Position { x: 2, y: 1 },
        Position { x: 2, y: 2 },
    ];
    assert_eq!(expected, generator.possible_room_positions);
}

#[test]
fn test_remove_possible_position() {
    let map_area = build_square_area(Position { x: 0, y: 0 }, 5);
    let rng: &mut Pcg64 = &mut Seeder::from("test".to_string()).into_rng();
    let mut generator = build_generator(rng, map_area);
    generator.find_possible_room_positions();

    assert_eq!(Some(Position { x: 2, y: 1 }), generator.remove_possible_position(Position { x: 2, y: 1 }));
    assert_eq!(3, generator.possible_room_positions.len());
    assert_eq!(vec![Position { x: 2, y: 1 }], generator.taken_positions);

    // A position that is not listed is left alone
    assert_eq!(None, generator.remove_possible_position(Position { x: 2, y: 1 }));
    assert_eq!(3, generator.possible_room_positions.len());
    assert_eq!(1, generator.taken_positions.len());
}

#[test]
fn test_generated_rooms_keep_apart_and_inside() {
    for seed in ["test", "other", "third", "arq"] {
        let map_area = build_square_area(Position { x: 0, y: 0 }, 30);
        let rng: &mut Pcg64 = &mut Seeder::from(seed.to_string()).into_rng();
        let mut generator = build_generator(rng, map_area);
        let rooms = generator.generate_rooms();
        assert!(!rooms.is_empty());
        for (i, room) in rooms.iter().enumerate() {
            let area = room.get_area();
            assert!(area.width >= 3 && area.width <= 6);
            assert_eq!(area.width, area.height);
            assert!(map_area.can_fit(area.start_position, area.width));
            for door in room.get_doors() {
                // Doors lie on the room's walls, never on the map's edges
                assert!(area.contains_position(door.position));
                assert!(door.position.x != 0 && door.position.y != 0 && door.position.x != 29 && door.position.y != 29);
            }
            for other in rooms.iter().skip(i + 1) {
                assert!(!area.intersects_or_touches(other.get_area()));
                for p in other.get_area().get_positions() {
                    assert!(!area.contains_position(p));
                }
            }
        }
    }
}

#[test]
fn test_generator_builds_map() {
    let map_area = build_square_area(Position { x: 0, y: 0 }, 12);
    let rng: &mut Pcg64 = &mut Seeder::from("test".to_string()).into_rng();
    let mut generator = build_generator(rng, map_area);

    let map = generator.build_map();

    assert_eq!(map_area, map.area);
    assert_eq!(12, map.tiles.tiles.len());
    for row in &map.tiles.tiles {
        assert_eq!(12, row.len());
        for tile in row {
            assert_eq!(TileType::NoTile, tile.tile_type);
        }
    }
    assert_eq!(generator.map.rooms.len(), map.rooms.len());
    assert_ne!(0, map.rooms.len());
    assert_eq!(0, map.containers.len());
}

#[test]
fn test_add_area_containers() {
    let map_area = build_square_area(Position { x: 0, y: 0 }, 4);
    let rng: &mut Pcg64 = &mut Seeder::from("test".to_string()).into_rng();
    let mut generator = build_generator(rng, map_area);
    generator.map.tiles = Tiles { tiles: generator.build_empty_tiles() };
    generator.map.tiles.set_tile(Position::new(1, 1), library_tile(TileType::Room));
    generator.map.tiles.set_tile(Position::new(2, 1), library_tile(TileType::Corridor));
    generator.map.tiles.set_tile(Position::new(2, 2), library_tile(TileType::Wall));

    generator.add_area_containers();

    // Only the room and corridor tiles get floor containers
    let containers = &generator.map.containers;
    assert_eq!(2, containers.len());
    let floor = containers.get(&Position::new(1, 1)).unwrap();
    assert_eq!("Floor", floor.get_self_item().get_name());
    assert_eq!(ContainerType::AREA, floor.get_container_type());
    assert_eq!(999999, floor.get_weight_limit());
    assert!(containers.contains_key(&Position::new(2, 1)));
    assert!(!containers.contains_key(&Position::new(2, 2)));
    assert!(!containers.contains_key(&Position::new(0, 0)));
}

#[test]
fn test_add_entry_exit_and_draw_room() {
    let map_area = build_square_area(Position { x: 0, y: 0 }, 12);
    let rng: &mut Pcg64 = &mut Seeder::from("test".to_string()).into_rng();
    let mut generator = build_generator(rng, map_area);
    generator.map.tiles = Tiles { tiles: generator.build_empty_tiles() };

    // A 4x4 room at (3, 5) with a door on its left wall
    let room = build_room(build_square_area(Position::new(3, 5), 4), vec![build_door(Position::new(3, 6))]);
    let inside = room.get_inside_area();
    assert_eq!(Position::new(4, 6), inside.start_position);
    assert_eq!(Position::new(5, 7), inside.end_position);

    // The entry goes to the last cell inside the walls
    let room = generator.add_entry(room).unwrap();
    assert_eq!(Some(Position::new(5, 7)), room.get_entry());
    // The exit walks the cells inside the walls but off their last column and row
    let room = generator.add_exit(room).unwrap();
    assert_eq!(Some(Position::new(4, 6)), room.get_exit());

    generator.add_room_to_map(&room);
    let tiles = &generator.map.tiles;
    let tile_type = |x: u16, y: u16| tiles.get_tile(Position::new(x, y)).unwrap().tile_type;
    assert_eq!(TileType::Wall, tile_type(3, 5));
    assert_eq!(TileType::Wall, tile_type(6, 8));
    assert_eq!(TileType::Wall, tile_type(6, 6));
    assert_eq!(TileType::Door, tile_type(3, 6));
    assert_eq!(TileType::Exit, tile_type(4, 6));
    assert_eq!(TileType::Entry, tile_type(5, 7));
    assert_eq!(TileType::Room, tile_type(5, 6));
    assert_eq!(TileType::Room, tile_type(4, 7));
    assert_eq!(TileType::NoTile, tile_type(0, 0));
    assert_eq!(TileType::NoTile, tile_type(7, 5));
}

#[test]
fn test_add_exit_in_smallest_room() {
    // A 3x3 room has a single cell inside, which an exit walk never reaches
    let map_area = build_square_area(Position { x: 0, y: 0 }, 12);
    let rng: &mut Pcg64 = &mut Seeder::from("test".to_string()).into_rng();
    let generator = build_generator(rng, map_area);
    let room = build_room(build_square_area(Position::new(2, 2), 3), Vec::new());
    assert!(generator.add_exit(room.clone()).is_none());
    let with_entry = generator.add_entry(room).unwrap();
    assert_eq!(Some(Position::new(3, 3)), with_entry.get_entry());
}

#[test]
fn test_add_rooms_to_map() {
    let map_area = build_square_area(Position { x: 0, y: 0 }, 20);
    let rng: &mut Pcg64 = &mut Seeder::from("test".to_string()).into_rng();
    let mut generator = build_generator(rng, map_area);
    generator.build_map();
    generator.add_rooms_to_map();
    for room in &generator.map.rooms {
        let area = room.get_area();
        let corner = generator.map.tiles.get_tile(area.start_position).unwrap();
        assert!(corner.tile_type == TileType::Wall || corner.tile_type == TileType::Door);
        let inside = room.get_inside_area().start_position;
        assert_eq!(TileType::Room, generator.map.tiles.get_tile(inside).unwrap().tile_type);
        for door in room.get_doors() {
            assert_eq!(TileType::Door, generator.map.tiles.get_tile(door.position).unwrap().tile_type);
        }
    }
}

#[test]
fn test_generators_from_one_seed_agree() {
    let map_area = build_square_area(Position { x: 0, y: 0 }, 16);
    let rng: Pcg64 = Seeder::from("same".to_string()).into_rng();
    // The generator draws from its own copy: the given generator is not advanced
    let mut first = build_generator(&rng, map_area);
    let mut second = build_generator(&rng, map_area);
    let rooms_a: Vec<_> = first.generate_rooms().iter().map(|r| r.get_area()).collect();
    let rooms_b: Vec<_> = second.generate_rooms().iter().map(|r| r.get_area()).collect();
    assert_eq!(rooms_a, rooms_b);
    assert!(!rooms_a.is_empty());
}

#[test]
fn test_try_place_room() {
    let map_area = build_square_area(Position { x: 0, y: 0 }, 12);
    let rng: &mut Pcg64 = &mut Seeder::from("test".to_string()).into_rng();
    let mut generator = build_generator(rng, map_area);
    generator.find_possible_room_positions();
    let listed = generator.possible_room_positions.len();
    let mut rooms = Vec::new();

    // A 3x3 room fits at (1, 1): placed, and its 9 cells stop being possible
    assert!(generator.try_place_room(&mut rooms, Position::new(1, 1), 3, 0, 144));
    assert_eq!(1, rooms.len());
    assert_eq!(Position::new(1, 1), rooms[0].get_area().start_position);
    assert_eq!(3, rooms[0].get_area().width);
    assert_eq!(listed - 9, generator.possible_room_positions.len());
    assert!(!generator.possible_room_positions.contains(&Position::new(2, 2)));
    assert_eq!(9, generator.taken_positions.len());

    // A room touching the first one is refused, but its cells are cleared
    assert!(!generator.try_place_room(&mut rooms, Position::new(4, 1), 3, 9, 144));
    assert_eq!(1, rooms.len());
    assert!(!generator.possible_room_positions.contains(&Position::new(5, 2)));

    // A room that does not fit the map is refused
    assert!(!generator.try_place_room(&mut rooms, Position::new(10, 10), 3, 9, 144));
    // So is one once the rooms cover the map's area
    assert!(!generator.try_place_room(&mut rooms, Position::new(6, 6), 3, 144, 144));
    assert_eq!(1, rooms.len());
}
