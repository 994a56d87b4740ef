use vstd::prelude::*;

use crate::container::{same_container, Container};
use crate::items::Item;
use crate::position::Position;

verus! {

/// A container of the player's inventory.
#[derive(Clone, Debug)]
pub struct PlayerInventoryContainer {
    pub container: Container,
}

/// A container lying on the map.
#[derive(Clone, Debug)]
pub struct WorldContainer {
    pub container: Container,
    pub position: Position,
}

/// A place in the player's inventory, given by the item lying there.
#[derive(Clone, Debug)]
pub struct PlayerInventoryItemPosition {
    pub target_position_item: Item,
}

/// A place in a container on the map, given by the item lying there.
#[derive(Clone, Debug)]
pub struct WorldContainerItemPosition {
    pub target_position_item: Item,
    pub position: Position,
}

/// Where items are moved from.
#[derive(Clone, Debug)]
pub enum SourceContainerScope {
    PlayerInventory(PlayerInventoryContainer),
    WorldContainer(WorldContainer),
}

/// Where items are moved to: a container, or a place beside an item.
#[derive(Clone, Debug)]
pub enum TargetContainerScope {
    PlayerInventory(PlayerInventoryContainer),
    PlayerInventoryItemPosition(PlayerInventoryItemPosition),
    WorldContainer(WorldContainer),
    WorldContainerItemPosition(WorldContainerItemPosition),
}

/// The container of a source.
pub open spec fn source_container(s: SourceContainerScope) -> Container {
    match s {
        SourceContainerScope::PlayerInventory(p) => p.container,
        SourceContainerScope::WorldContainer(w) => w.container,
    }
}

/// The container of a target, when it names one.
pub open spec fn target_container(t: TargetContainerScope) -> Option<Container> {
    match t {
        TargetContainerScope::PlayerInventory(p) => Some(p.container),
        TargetContainerScope::WorldContainer(w) => Some(w.container),
        _ => None,
    }
}

/// The item a target stands for: its container's item, or the item beside
/// which items go.
pub open spec fn target_item(t: TargetContainerScope) -> Item {
    match t {
        TargetContainerScope::PlayerInventory(p) => p.container.self_item(),
        TargetContainerScope::PlayerInventoryItemPosition(p) => p.target_position_item,
        TargetContainerScope::WorldContainer(w) => w.container.self_item(),
        TargetContainerScope::WorldContainerItemPosition(w) => w.target_position_item,
    }
}

impl SourceContainerScope {
    pub fn get_self_item(&self) -> (item: &Item)
        ensures
            *item == source_container(*self).self_item(),
    {
        match self {
            SourceContainerScope::PlayerInventory(other_pic) => other_pic.container.get_self_item(),
            SourceContainerScope::WorldContainer(other_wc) => other_wc.container.get_self_item(),
        }
    }

    pub fn get_container(&self) -> (c: &Container)
        ensures
            *c == source_container(*self),
    {
        match self {
            SourceContainerScope::PlayerInventory(other_pic) => &other_pic.container,
            SourceContainerScope::WorldContainer(other_wc) => &other_wc.container,
        }
    }

    pub fn is_player_scope(&self) -> (r: bool)
        ensures
            r == (*self is PlayerInventory),
    {
        match self {
            SourceContainerScope::PlayerInventory(_pic) => true,
            SourceContainerScope::WorldContainer(_wc) => false,
        }
    }

    pub fn is_world_scope(&self) -> (r: bool)
        ensures
            r == (*self is WorldContainer),
    {
        match self {
            SourceContainerScope::PlayerInventory(_pic) => false,
            SourceContainerScope::WorldContainer(_wc) => true,
        }
    }

    /// Whether both sources name containers standing for the same item.
    pub fn matches(&self, other: &SourceContainerScope) -> (r: bool)
        ensures
            r == (source_container(*self).id() == source_container(*other).id()),
    {
        match other {
            SourceContainerScope::PlayerInventory(other_pic) => self.matches_item(other_pic.container.get_self_item()),
            SourceContainerScope::WorldContainer(other_wc) => self.matches_item(other_wc.container.get_self_item()),
        }
    }

    /// Whether the target names a container standing for the same item as this source's.
    pub fn matches_target(&self, other: &TargetContainerScope) -> (r: bool)
        ensures
            r == (target_container(*other) matches Some(c) && c.id() == source_container(*self).id()),
    {
        match other {
            TargetContainerScope::PlayerInventory(other_pic) => self.matches_item(other_pic.container.get_self_item()),
            TargetContainerScope::WorldContainer(other_wc) => self.matches_item(other_wc.container.get_self_item()),
            _ => false,
        }
    }

    /// Whether this source's container stands for the given item.
    pub fn matches_item(&self, item: &Item) -> (r: bool)
        ensures
            r == (source_container(*self).id() == item@.id),
    {
        match self {
            SourceContainerScope::PlayerInventory(pic) => pic.container.id_equals_uuid(item.get_id()),
            SourceContainerScope::WorldContainer(wc) => wc.container.id_equals_uuid(item.get_id()),
        }
    }
}

impl TargetContainerScope {
    pub fn get_self_item(&self) -> (item: &Item)
        ensures
            *item == target_item(*self),
    {
        match self {
            TargetContainerScope::PlayerInventory(other_pic) => other_pic.container.get_self_item(),
            TargetContainerScope::PlayerInventoryItemPosition(piip) => &piip.target_position_item,
            TargetContainerScope::WorldContainer(other_wc) => other_wc.container.get_self_item(),
            TargetContainerScope::WorldContainerItemPosition(wcip) => &wcip.target_position_item,
        }
    }

    /// A copy of the target's container, when it names one.
    pub fn get_container(&self) -> (c: Option<Container>)
        ensures
            c.is_some() == target_container(*self).is_some(),
            c matches Some(copy) ==> same_container(copy, target_container(*self).unwrap()),
    {
        match self {
            TargetContainerScope::PlayerInventory(other_pic) => Some(other_pic.container.clone()),
            TargetContainerScope::PlayerInventoryItemPosition(_piip) => None,
            TargetContainerScope::WorldContainer(other_wc) => Some(other_wc.container.clone()),
            TargetContainerScope::WorldContainerItemPosition(_wcip) => None,
        }
    }

    pub fn is_targeting_another_container(&self) -> (r: bool)
        ensures
            r == target_container(*self).is_some(),
    {
        match self {
            TargetContainerScope::PlayerInventory(_other_pic) => true,
            TargetContainerScope::PlayerInventoryItemPosition(_piip) => false,
            TargetContainerScope::WorldContainer(_other_wc) => true,
            TargetContainerScope::WorldContainerItemPosition(_wcip) => false,
        }
    }

    pub fn is_targeting_item_position(&self) -> (r: bool)
        ensures
            r == target_container(*self).is_none(),
    {
        match self {
            TargetContainerScope::PlayerInventory(_other_pic) => false,
            TargetContainerScope::PlayerInventoryItemPosition(_piip) => true,
            TargetContainerScope::WorldContainer(_other_wc) => false,
            TargetContainerScope::WorldContainerItemPosition(_wcip) => true,
        }
    }

    pub fn is_player_scope(&self) -> (r: bool)
        ensures
            r == (*self is PlayerInventory || *self is PlayerInventoryItemPosition),
    {
        match self {
            TargetContainerScope::PlayerInventory(_pic) => true,
            TargetContainerScope::PlayerInventoryItemPosition(_piip) => true,
            TargetContainerScope::WorldContainer(_wc) => false,
            TargetContainerScope::WorldContainerItemPosition(_wcip) => false,
        }
    }

    pub fn is_world_scope(&self) -> (r: bool)
        ensures
            r == (*self is WorldContainer || *self is WorldContainerItemPosition),
    {
        match self {
            TargetContainerScope::PlayerInventory(_pic) => false,
            TargetContainerScope::PlayerInventoryItemPosition(_piip) => false,
            TargetContainerScope::WorldContainer(_wc) => true,
            TargetContainerScope::WorldContainerItemPosition(_wcip) => true,
        }
    }

    /// Whether this target names a container standing for the same item as the source's.
    pub fn matches_source(&self, other: &SourceContainerScope) -> (r: bool)
        ensures
            r == (target_container(*self) matches Some(c) && c.id() == source_container(*other).id()),
    {
        match other {
            SourceContainerScope::PlayerInventory(other_pic) => self.matches_item(other_pic.container.get_self_item()),
            SourceContainerScope::WorldContainer(other_wc) => self.matches_item(other_wc.container.get_self_item()),
        }
    }

    /// Whether this target names a container standing for the given item.
    pub fn matches_item(&self, item: &Item) -> (r: bool)
        ensures
            r == (target_container(*self) matches Some(c) && c.id() == item@.id),
    {
        match self {
            TargetContainerScope::PlayerInventory(pic) => pic.container.id_equals_uuid(item.get_id()),
            TargetContainerScope::WorldContainer(wc) => wc.container.id_equals_uuid(item.get_id()),
            _ => false,
        }
    }
}

/// A request to move items from a source to a target.
#[derive(Clone, Debug)]
pub struct MoveItemsRequestV2 {
    pub source: SourceContainerScope,
    pub target: TargetContainerScope,
    pub to_move: Vec<Item>,
}

/// The source and target after a move.
#[derive(Clone, Debug)]
pub struct UpdatedScopes {
    pub source: SourceContainerScope,
    pub target: TargetContainerScope,
}

/// The answer to a move: the request, the updated scopes and the items left behind.
#[derive(Clone, Debug)]
pub struct MoveItemsResponseV2 {
    pub request: MoveItemsRequestV2,
    pub success: bool,
    pub updated_scopes: UpdatedScopes,
    pub unmoved: Vec<Item>,
    pub message: String,
}

impl MoveItemsResponseV2 {
    pub fn all_items_moved(&self) -> (r: bool)
        ensures
            r == (self.unmoved@.len() == 0),
    {
        self.unmoved.len() == 0
    }
}

/// A request to take items from a container on the map into the player's
/// inventory.
#[derive(Debug)]
pub struct TakeItemsRequest {
    pub source: Container,
    pub to_take: Vec<Item>,
    pub position: Option<Position>,
}

/// The answer to a take: the source's identifier, the items left behind and
/// a message.
#[derive(Debug)]
pub struct TakeItemsResponse {
    pub container_id: u128,
    pub untaken: Vec<Item>,
    pub message: String,
}

/// A request to drop items from the player's inventory at a position.
#[derive(Debug)]
pub struct DropItemsRequest {
    pub source: Container,
    pub to_drop: Vec<Item>,
    pub position: Option<Position>,
}

/// The answer to a drop: the source's identifier, the items still held and a
/// message.
#[derive(Debug)]
pub struct DropItemsResponse {
    pub container_id: u128,
    pub undropped: Vec<Item>,
    pub message: String,
}

} // verus!
