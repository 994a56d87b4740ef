use arq::container::{Container, ContainerType};
use arq::container_util::{find_container_mut, find_copying_items};
use arq::items::{Item, MaterialType};
use arq::map::{ContainerMap, GameMap, Tiles};
use arq::position::{build_square_area, Position};
use uuid::Uuid;

fn new_id() -> u128 {
    Uuid::new_v4().as_u128()
}

fn build_item(name: &str) -> Item {
    Item::new(new_id(), name.to_owned(), MaterialType::UNKNOWN, 'X', 1000, 1)
}

// A chest holding a bag (which holds a bar) and a loose coin
fn build_chest() -> (Container, Item, Item, Item) {
    let bar = build_item("Bar");
    let coin = build_item("Coin");
    let mut bag = Container::new(new_id(), "Bag".to_owned(), '$', 500, 5, ContainerType::OBJECT, 10);
    bag.push(vec![Container::wrap(bar.clone())]);
    let bag_item = bag.get_self_item().clone();
    let mut chest = Container::new(new_id(), "Chest".to_owned(), '$', 5000, 50, ContainerType::OBJECT, 100);
    chest.push(vec![bag, Container::wrap(coin.clone())]);
    (chest, bag_item, bar, coin)
}

fn build_map_with(position: Position, container: Container) -> GameMap {
    let mut containers = ContainerMap::new();
    containers.insert(position, container);
    GameMap { area: build_square_area(Position::new(0, 0), 3), tiles: Tiles { tiles: Vec::new() }, rooms: Vec::new(), containers }
}

#[test]
fn test_find_mut_writes_in_place() {
    let (mut chest, _bag_item, bar, _coin) = build_chest();
    {
        let found = chest.find_mut(&bar).expect("The bar should be found inside the bag");
        assert_eq!("Bar", found.get_self_item().get_name());
        found.push(vec![Container::wrap(build_item("Dust"))]);
    }
    // The change landed on the bar inside the bag
    let bar_container = chest.find(&bar).unwrap();
    assert_eq!(1, bar_container.get_top_level_count());
    assert_eq!(4, chest.get_total_count());
}

#[test]
fn test_find_mut_missing_item() {
    let (mut chest, _bag_item, _bar, _coin) = build_chest();
    let stranger = build_item("Stranger");
    assert!(chest.find_mut(&stranger).is_none());
    assert_eq!(3, chest.get_total_count());
}

#[test]
fn test_find_copying_items() {
    let (chest, bag_item, bar, coin) = build_chest();
    let stranger = build_item("Stranger");
    let copies = find_copying_items(chest, vec![coin.clone(), stranger, bar.clone(), bag_item.clone()]);
    // The stranger is passed over, the others come in the order asked for
    assert_eq!(3, copies.len());
    assert_eq!(coin.get_id(), copies[0].get_self_item_id());
    assert_eq!(bar.get_id(), copies[1].get_self_item_id());
    assert_eq!(bag_item.get_id(), copies[2].get_self_item_id());
    // A copy of the bag holds a copy of the bar
    assert_eq!(1, copies[2].get_top_level_count());
}

#[test]
fn test_map_find_container_mut() {
    let (chest, bag_item, bar, _coin) = build_chest();
    let chest_copy = chest.clone();
    let position = Position::new(1, 1);
    let mut map = build_map_with(position, chest);

    // The container lying at the position itself
    let found = map.find_container_mut(&chest_copy, position).unwrap();
    assert_eq!("Chest", found.get_self_item().get_name());

    // A container inside it, changed in place
    let bag_target = Container::wrap(bag_item.clone());
    {
        let bag = map.find_container_mut(&bag_target, position).unwrap();
        bag.push(vec![Container::wrap(build_item("Pebble"))]);
    }
    assert_eq!(2, map.find_container(&bag_target, position).unwrap().get_top_level_count());

    // Nothing at another position
    assert!(map.find_container_mut(&chest_copy, Position::new(0, 0)).is_none());
    // A bar target is found inside the bag
    let bar_target = Container::wrap(bar.clone());
    assert!(map.find_container_mut(&bar_target, position).is_some());
    assert_eq!(1, map.find_containers_mut(position).len());
    assert_eq!(0, map.find_containers_mut(Position::new(2, 2)).len());
}

#[test]
fn test_util_find_container_mut() {
    let (chest, bag_item, bar, coin) = build_chest();
    let chest_copy = chest.clone();
    let position = Position::new(1, 1);
    let mut map = build_map_with(position, chest);

    // The container at the position
    assert!(find_container_mut(&mut map, position, &chest_copy).is_ok());

    // The bar lies inside a child (the bag) of the chest
    let bar_target = Container::wrap(bar.clone());
    {
        let found = find_container_mut(&mut map, position, &bar_target).unwrap();
        assert_eq!("Bar", found.get_self_item().get_name());
    }

    // The bag and the coin are children of the chest: a search inside the
    // children does not find the children themselves
    let bag_target = Container::wrap(bag_item);
    let error = find_container_mut(&mut map, position, &bag_target).err().unwrap();
    assert_eq!("Failed to find container on the map after searching position and children", error.to_string());
    let coin_target = Container::wrap(coin);
    assert!(find_container_mut(&mut map, position, &coin_target).is_err());

    // Nothing lies at another position
    let error = find_container_mut(&mut map, Position::new(0, 0), &chest_copy).err().unwrap();
    assert_eq!("Failed to find any container on the map at position", error.to_string());
}
