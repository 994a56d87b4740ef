use arq::container::{Container, ContainerType};
use arq::look::{describe_position, describe_position_container, describe_position_in_room};
use arq::map::{build_door, build_room, ContainerMap, GameMap, Tiles};
use arq::position::{build_square_area, Position};
use arq::tile::{build_library, TileType};
use uuid::Uuid;

fn new_id() -> u128 {
    Uuid::new_v4().as_u128()
}

fn build_test_map(container_position: Position, area_container: Container) -> GameMap {
    let tile_library = build_library();
    let rom = tile_library.get(TileType::Room).clone();
    let wall = tile_library.get(TileType::Wall).clone();
    let map_pos = Position { x: 0, y: 0 };
    let map_area = build_square_area(map_pos, 3);

    let mut area_containers = ContainerMap::new();
    area_containers.insert(container_position.clone(), area_container);
    GameMap {
        area: map_area,
        tiles: Tiles { tiles: vec![
            vec![wall.clone(), wall.clone(), wall.clone()],
            vec![wall.clone(), rom.clone(), wall.clone()],
            vec![wall.clone(), wall.clone(), wall.clone()],
        ] },
        rooms: Vec::new(),
        containers: area_containers,
    }
}

#[test]
fn test_describe_door_position_in_room() {
    // GIVEN a room with a door
    let start_position = Position { x: 0, y: 0 };
    let area = build_square_area(start_position, 3);

    let door_position = Position { x: 1, y: 0 };
    let door = build_door(door_position);
    let mut doors = Vec::new();
    doors.push(door);
    let room = build_room(area, doors);

    // WHEN we call to describe a door position
    let prompt = describe_position_in_room(door_position, &room);

    // THEN we expect the prompt to reflect this
    assert!(prompt.is_some());
    assert_eq!("There's a Door here.", prompt.unwrap());
}

#[test]
fn test_describe_position_container() {
    // GIVEN a valid a container (AREA) containing 3 OBJECT containers
    let mut container = Container::new(new_id(), "Floor".to_owned(), 'X', 1000, 1, ContainerType::AREA, 100);
    let container1 = Container::new(new_id(), "Test Container 1".to_owned(), 'X', 1000, 1, ContainerType::OBJECT, 100);
    let container2 = Container::new(new_id(), "Test Container 2".to_owned(), 'X', 1000, 1, ContainerType::OBJECT, 100);
    let container3 = Container::new(new_id(), "Test Container 3".to_owned(), 'X', 1000, 1, ContainerType::OBJECT, 100);
    container.push(vec![container1, container2, container3]);
    assert_eq!(3, container.get_total_count());

    // WHEN we call to describe this
    let prompt = describe_position_container(&container);

    // THEN we expect
    assert!(prompt.is_ok());
    assert_eq!("There's 3 items on the Floor here.", prompt.unwrap());
}

#[test]
fn test_describe_position_container_single_item() {
    let mut container = Container::new(new_id(), "Floor".to_owned(), 'X', 1000, 1, ContainerType::AREA, 100);
    let item = Container::new(new_id(), "Gold Bar".to_owned(), 'X', 1000, 1, ContainerType::ITEM, 100);
    container.push(vec![item]);
    assert_eq!(1, container.get_total_count());

    let prompt = describe_position_container(&container);

    assert!(prompt.is_ok());
    assert_eq!("There's a Gold Bar on the Floor here.", prompt.unwrap());
}

#[test]
fn test_describe_position_container_multi_item() {
    let mut container = Container::new(new_id(), "Floor".to_owned(), 'X', 1000, 1, ContainerType::AREA, 100);
    let item1 = Container::new(new_id(), "Gold Bar".to_owned(), 'X', 1000, 1, ContainerType::ITEM, 1);
    let item2 = Container::new(new_id(), "Silver Bar".to_owned(), 'X', 1000, 1, ContainerType::ITEM, 1);
    let item3 = Container::new(new_id(), "Bronze Bar".to_owned(), 'X', 1000, 1, ContainerType::ITEM, 1);
    container.push(vec![item1, item2, item3]);
    assert_eq!(3, container.get_total_count());

    let prompt = describe_position_container(&container);

    assert!(prompt.is_ok());
    assert_eq!("There's 3 items on the Floor here.", prompt.unwrap());
}

#[test]
fn test_describe_position_container_object() {
    let mut container = Container::new(new_id(), "Floor".to_owned(), 'X', 1000, 1, ContainerType::AREA, 100);
    let bag = Container::new(new_id(), "Bag".to_owned(), 'X', 1000, 1, ContainerType::OBJECT, 1);
    container.push(vec![bag]);
    assert_eq!(1, container.get_total_count());

    let prompt = describe_position_container(&container);

    assert!(prompt.is_ok());
    assert_eq!("There's a Bag on the Floor here.", prompt.unwrap());
}

#[test]
fn test_describe_position_container_multi_object() {
    let mut container = Container::new(new_id(), "Floor".to_owned(), 'X', 1000, 1, ContainerType::AREA, 100);
    let bag = Container::new(new_id(), "Bag".to_owned(), 'X', 1000, 1, ContainerType::OBJECT, 1);
    let box1 = Container::new(new_id(), "Box".to_owned(), 'X', 1000, 1, ContainerType::OBJECT, 1);
    container.push(vec![bag, box1]);
    assert_eq!(2, container.get_total_count());

    let prompt = describe_position_container(&container);

    assert!(prompt.is_ok());
    assert_eq!("There's 2 items on the Floor here.", prompt.unwrap());
}

#[test]
fn test_describe_position_container_mixed() {
    let mut container = Container::new(new_id(), "Floor".to_owned(), 'X', 1000, 1, ContainerType::AREA, 100);
    let bag = Container::new(new_id(), "Bag".to_owned(), 'X', 1000, 1, ContainerType::OBJECT, 1);
    let gold_bar = Container::new(new_id(), "Gold Bar".to_owned(), 'X', 1000, 1, ContainerType::ITEM, 1);
    let box1 = Container::new(new_id(), "Box".to_owned(), 'X', 1000, 1, ContainerType::OBJECT, 1);
    let silver_bar = Container::new(new_id(), "Silver Bar".to_owned(), 'X', 1000, 1, ContainerType::ITEM, 1);

    container.push(vec![bag, gold_bar, box1, silver_bar]);
    assert_eq!(4, container.get_total_count());

    let prompt = describe_position_container(&container);

    assert!(prompt.is_ok());
    assert_eq!("There's 4 items on the Floor here.", prompt.unwrap());
}

#[test]
fn test_describe_room_position_multiple_items() {
    let mut source_container = Container::new(new_id(), "Floor".to_owned(), 'X', 1000, 1, ContainerType::AREA, 100);
    let container1 = Container::new(new_id(), "Test Container 1".to_owned(), 'X', 1000, 1, ContainerType::OBJECT, 100);
    let container2 = Container::new(new_id(), "Test Container 2".to_owned(), 'X', 1000, 1, ContainerType::OBJECT, 100);
    let container3 = Container::new(new_id(), "Test Container 3".to_owned(), 'X', 1000, 1, ContainerType::OBJECT, 100);
    source_container.push(vec![container1, container2, container3]);
    assert_eq!(3, source_container.get_total_count());

    let _source = source_container.clone();
    let container_pos = Position { x: 1, y: 1 };
    let map = build_test_map(container_pos, source_container);

    let prompt = describe_position(container_pos, Some(&map));

    assert!(prompt.is_ok());
    assert_eq!("You're in a room. There's 3 items on the Floor here.", prompt.unwrap());
}

#[test]
fn test_describe_area_multiple_items() {
    let mut source_container = Container::new(new_id(), "Floor".to_owned(), 'X', 1000, 1, ContainerType::AREA, 100);
    let container1 = Container::new(new_id(), "Test Container 1".to_owned(), 'X', 1000, 1, ContainerType::OBJECT, 100);
    let container2 = Container::new(new_id(), "Test Container 2".to_owned(), 'X', 1000, 1, ContainerType::OBJECT, 100);
    let container3 = Container::new(new_id(), "Test Container 3".to_owned(), 'X', 1000, 1, ContainerType::OBJECT, 100);
    source_container.push(vec![container1, container2, container3]);
    assert_eq!(3, source_container.get_total_count());

    let _source = source_container.clone();
    let container_pos = Position { x: 1, y: 1 };
    let map = build_test_map(container_pos, source_container);

    let prompt = describe_position(container_pos, Some(&map));

    assert!(prompt.is_ok());
    assert_eq!("You're in a room. There's 3 items on the Floor here.", prompt.unwrap());
}

#[test]
fn test_describe_area_single_item() {
    let mut source_container = Container::new(new_id(), "Floor".to_owned(), 'X', 1000, 1, ContainerType::AREA, 100);
    let bag = Container::new(new_id(), "Bag".to_owned(), 'X', 1000, 1, ContainerType::OBJECT, 100);
    source_container.push(vec![bag]);
    assert_eq!(1, source_container.get_total_count());
    let _source = source_container.clone();
    let container_pos = Position { x: 1, y: 1 };
    let map = build_test_map(container_pos, source_container);

    let prompt = describe_position(container_pos, Some(&map));

    assert!(prompt.is_ok());
    assert_eq!("You're in a room. There's a Bag on the Floor here.", prompt.unwrap());
}

#[test]
fn test_describe_area_chest() {
    let mut source_container = Container::new(new_id(), "Floor".to_owned(), 'X', 1000, 1, ContainerType::AREA, 100);
    let mut chest = Container::new(new_id(), "Chest".to_owned(), 'X', 1000, 1, ContainerType::OBJECT, 100);
    let bag = Container::new(new_id(), "Bag".to_owned(), 'X', 1000, 1, ContainerType::OBJECT, 10);
    let item1 = Container::new(new_id(), "Test Item 1".to_owned(), 'X', 1000, 1, ContainerType::OBJECT, 1);
    let item2 = Container::new(new_id(), "Test Item 2".to_owned(), 'X', 1000, 1, ContainerType::OBJECT, 1);

    chest.push(vec![bag, item1, item2]);
    source_container.push(vec![chest]);
    assert_eq!(4, source_container.get_total_count());
    let _source = source_container.clone();
    let container_pos = Position { x: 1, y: 1 };
    let map = build_test_map(container_pos, source_container);

    let prompt = describe_position(container_pos, Some(&map));

    assert!(prompt.is_ok());
    assert_eq!("You're in a room. There's a Chest on the Floor here.", prompt.unwrap());
}

#[test]
fn test_describe_area_empty() {
    let source_container = Container::new(new_id(), "Floor".to_owned(), 'X', 1000, 1, ContainerType::AREA, 100);
    assert_eq!(0, source_container.get_total_count());
    let _source = source_container.clone();
    let container_pos = Position { x: 1, y: 1 };
    let map = build_test_map(container_pos, source_container);

    let prompt = describe_position(container_pos, Some(&map));

    assert!(prompt.is_ok());
    assert_eq!("You're in a room. The Floor is empty here.", prompt.unwrap());
}

#[test]
fn test_describe_area_nothing() {
    let mut source_container = Container::new(new_id(), "Floor".to_owned(), 'X', 1000, 1, ContainerType::AREA, 100);
    let bag = Container::new(new_id(), "Bag".to_owned(), 'X', 1000, 1, ContainerType::OBJECT, 100);
    source_container.push(vec![bag]);
    assert_eq!(1, source_container.get_total_count());
    let _source = source_container.clone();
    let container_pos = Position { x: 1, y: 1 };
    let map = build_test_map(container_pos, source_container);

    let prompt = describe_position(Position { x: 1, y: 3 }, Some(&map));

    assert!(prompt.is_ok());
    assert_eq!("There's nothing here.", prompt.unwrap());
}

#[test]
fn test_describe_area_invalid_container_type() {
    let source_container = Container::new(new_id(), "Floor".to_owned(), 'X', 1000, 1, ContainerType::OBJECT, 100);
    let container_pos = Position { x: 1, y: 1 };
    let map = build_test_map(container_pos, source_container);

    let prompt = describe_position(container_pos, Some(&map));

    assert!(prompt.is_err());
    let expected = format!("Unexpected input! Cannot describe position with container of type {}.", ContainerType::OBJECT.name());
    assert_eq!(expected, prompt.err().unwrap().to_string());
}

#[test]
fn describing_without_a_map_fails() {
    let prompt = describe_position(Position { x: 1, y: 1 }, None);
    assert_eq!("Look usage failure, no map on level!", prompt.err().unwrap().to_string());
}

#[test]
fn describing_walls_and_room_doors() {
    let mut map = build_test_map(Position { x: 1, y: 1 }, Container::new(new_id(), "Floor".to_owned(), 'X', 1000, 1, ContainerType::AREA, 100));
    assert_eq!("There's a Wall here.", describe_position(Position { x: 0, y: 0 }, Some(&map)).unwrap());
    map.rooms.push(build_room(build_square_area(Position { x: 0, y: 0 }, 3), vec![build_door(Position { x: 2, y: 1 })]));
    assert_eq!("There's a Door here.", describe_position(Position { x: 2, y: 1 }, Some(&map)).unwrap());
    assert_eq!("There's a Chest here.", describe_position_container(&Container::new(new_id(), "Chest".to_owned(), 'X', 1000, 1, ContainerType::AREA, 100)).unwrap());
}
