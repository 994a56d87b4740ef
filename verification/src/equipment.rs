use vstd::prelude::*;

use crate::container::{find_within, lemma_found_has_id, lemma_same_container, lemma_write_then_find, replaced_within, Container, ContainerType, container_type_name};
use crate::errors::{ErrorType, ErrorWrapper};
use crate::items::{Item, ItemType, ItemView};

verus! {

/// The places an item can be worn or held.
#[derive(Clone, Copy, Debug, PartialEq, Eq, Structural, Hash)]
pub enum EquipmentSlot {
    HEAD,
    TORSO,
    LEGS,
    FEET,
    PRIMARY,
    SECONDARY,
}

/// The position of a slot in `all_equipment_slots`.
pub open spec fn slot_index(s: EquipmentSlot) -> int {
    match s {
        EquipmentSlot::HEAD => 0,
        EquipmentSlot::TORSO => 1,
        EquipmentSlot::LEGS => 2,
        EquipmentSlot::FEET => 3,
        EquipmentSlot::PRIMARY => 4,
        EquipmentSlot::SECONDARY => 5,
    }
}

/// The display name of a slot.
pub open spec fn slot_name(s: EquipmentSlot) -> Seq<char> {
    match s {
        EquipmentSlot::HEAD => "HEAD"@,
        EquipmentSlot::TORSO => "TORSO"@,
        EquipmentSlot::LEGS => "LEGS"@,
        EquipmentSlot::FEET => "FEET"@,
        EquipmentSlot::PRIMARY => "PRIMARY"@,
        EquipmentSlot::SECONDARY => "SECONDARY"@,
    }
}

/// Every slot, in the order head, torso, legs, feet, primary, secondary.
pub open spec fn all_slots_spec() -> Seq<EquipmentSlot> {
    seq![
        EquipmentSlot::HEAD,
        EquipmentSlot::TORSO,
        EquipmentSlot::LEGS,
        EquipmentSlot::FEET,
        EquipmentSlot::PRIMARY,
        EquipmentSlot::SECONDARY,
    ]
}

impl EquipmentSlot {
    pub fn name(&self) -> (s: String)
        ensures
            s@ == slot_name(*self),
    {
        proof {
            reveal_strlit("HEAD");
            reveal_strlit("TORSO");
            reveal_strlit("LEGS");
            reveal_strlit("FEET");
            reveal_strlit("PRIMARY");
            reveal_strlit("SECONDARY");
        }
        match self {
            EquipmentSlot::HEAD => String::from_str("HEAD"),
            EquipmentSlot::TORSO => String::from_str("TORSO"),
            EquipmentSlot::LEGS => String::from_str("LEGS"),
            EquipmentSlot::FEET => String::from_str("FEET"),
            EquipmentSlot::PRIMARY => String::from_str("PRIMARY"),
            EquipmentSlot::SECONDARY => String::from_str("SECONDARY"),
        }
    }
}

/// Every slot, in the order head, torso, legs, feet, primary, secondary.
pub fn all_equipment_slots() -> (slots: Vec<EquipmentSlot>)
    ensures
        slots@ == all_slots_spec(),
{
    let slots = vec![
        EquipmentSlot::HEAD,
        EquipmentSlot::TORSO,
        EquipmentSlot::LEGS,
        EquipmentSlot::FEET,
        EquipmentSlot::PRIMARY,
        EquipmentSlot::SECONDARY,
    ];
    assert(slots@ =~= all_slots_spec());
    slots
}

/// The hands a weapon can be held in.
#[derive(Clone, Copy, Debug, PartialEq, Eq, Structural)]
pub enum WeaponSlot {
    PRIMARY,
    SECONDARY,
}

impl WeaponSlot {
    pub fn to_equipment_slot(&self) -> (slot: EquipmentSlot)
        ensures
            slot == (match self {
                WeaponSlot::PRIMARY => EquipmentSlot::PRIMARY,
                WeaponSlot::SECONDARY => EquipmentSlot::SECONDARY,
            }),
    {
        match self {
            WeaponSlot::PRIMARY => EquipmentSlot::PRIMARY,
            WeaponSlot::SECONDARY => EquipmentSlot::SECONDARY,
        }
    }
}

/// The slots an item of the given type can be equipped into.
pub open spec fn potential_slots_spec(t: ItemType) -> Seq<EquipmentSlot> {
    match t {
        ItemType::WEAPON(_) => seq![EquipmentSlot::PRIMARY, EquipmentSlot::SECONDARY],
        ItemType::HEADGEAR => seq![EquipmentSlot::HEAD],
        ItemType::TORSO => seq![EquipmentSlot::TORSO],
        ItemType::LEGS => seq![EquipmentSlot::LEGS],
        _ => Seq::empty(),
    }
}

/// The slots an item of the given type can be equipped into.
pub fn get_potential_slots(item_type: ItemType) -> (slots: Vec<EquipmentSlot>)
    ensures
        slots@ == potential_slots_spec(item_type),
{
    let slots = match item_type {
        ItemType::WEAPON(_w) => vec![EquipmentSlot::PRIMARY, EquipmentSlot::SECONDARY],
        ItemType::HEADGEAR => vec![EquipmentSlot::HEAD],
        ItemType::TORSO => vec![EquipmentSlot::TORSO],
        ItemType::LEGS => vec![EquipmentSlot::LEGS],
        _ => Vec::new(),
    };
    assert(slots@ =~= potential_slots_spec(item_type));
    slots
}

/// The items a character wears or holds, at most one per slot.
#[derive(Clone, Debug)]
pub struct Equipment {
    slots: Vec<Option<Item>>,
}

impl Equipment {
    /// One entry per slot.
    pub closed spec fn wf(&self) -> bool {
        self.slots@.len() == 6
    }

    /// The item in a slot, if any.
    pub closed spec fn item_in(&self, slot: EquipmentSlot) -> Option<Item> {
        self.slots@[slot_index(slot)]
    }

    /// Equipment with every slot empty.
    pub fn new() -> (e: Equipment)
        ensures
            e.wf(),
            forall|s: EquipmentSlot| #[trigger] e.item_in(s) == None::<Item>,
    {
        let slots: Vec<Option<Item>> = vec![None, None, None, None, None, None];
        Equipment { slots }
    }

    fn index_of(slot: &EquipmentSlot) -> (i: usize)
        ensures
            i == slot_index(*slot),
    {
        match slot {
            EquipmentSlot::HEAD => 0,
            EquipmentSlot::TORSO => 1,
            EquipmentSlot::LEGS => 2,
            EquipmentSlot::FEET => 3,
            EquipmentSlot::PRIMARY => 4,
            EquipmentSlot::SECONDARY => 5,
        }
    }

    pub fn is_slot_filled(&self, slot: EquipmentSlot) -> (r: bool)
        requires
            self.wf(),
        ensures
            r == self.item_in(slot).is_some(),
    {
        self.slots[Self::index_of(&slot)].is_some()
    }

    /// Puts the item of a wrapped-item container into an empty slot. Fails,
    /// leaving the equipment as it was, when the slot is taken or the container
    /// is not a wrapped item.
    pub fn equip(&mut self, container_item: Container, slot: EquipmentSlot) -> (r: Result<(), ErrorWrapper>)
        requires
            old(self).wf(),
        ensures
            final(self).wf(),
            old(self).item_in(slot).is_none() && container_item.kind() == ContainerType::ITEM ==> {
                &&& r is Ok
                &&& final(self).item_in(slot) == Some(container_item.self_item())
                &&& forall|s: EquipmentSlot| s != slot ==> #[trigger] final(self).item_in(s) == old(self).item_in(s)
            },
            old(self).item_in(slot).is_none() && container_item.kind() != ContainerType::ITEM ==> {
                &&& *final(self) == *old(self)
                &&& r matches Err(e) && e.error_type == ErrorType::INTERNAL && e.wf()
                    && e.text() == "Unsupported container_type: "@ + container_type_name(container_item.kind())
            },
            old(self).item_in(slot).is_some() ==> {
                &&& *final(self) == *old(self)
                &&& r matches Err(e) && e.error_type == ErrorType::INTERNAL && e.wf()
                    && e.text() == "Cannot equip. Equipment slot: "@ + slot_name(slot) + " is already taken."@
            },
    {
        proof {
            reveal_strlit("Unsupported container_type: ");
            reveal_strlit("Cannot equip. Equipment slot: ");
            reveal_strlit(" is already taken.");
        }
        if !self.is_slot_filled(slot) {
            match container_item.get_container_type() {
                ContainerType::ITEM => {
                    let item = container_item.get_self_item().clone();
                    self.slots.set(Self::index_of(&slot), Some(item));
                    Ok(())
                },
                ct => {
                    let mut message = String::from_str("Unsupported container_type: ");
                    message.append(ct.name().as_str());
                    ErrorWrapper::internal_result(message)
                },
            }
        } else {
            let mut message = String::from_str("Cannot equip. Equipment slot: ");
            message.append(slot.name().as_str());
            message.append(" is already taken.");
            ErrorWrapper::internal_result(message)
        }
    }

    /// The item in a slot, if any.
    pub fn get_item(&self, slot: EquipmentSlot) -> (r: Option<&Item>)
        requires
            self.wf(),
        ensures
            match r {
                Some(item) => self.item_in(slot) == Some(*item),
                None => self.item_in(slot).is_none(),
            },
    {
        self.slots[Self::index_of(&slot)].as_ref()
    }

    /// Takes the item out of a filled slot, wrapped in a container. Fails,
    /// leaving the equipment as it was, when the slot is empty.
    pub fn unequip(&mut self, slot: EquipmentSlot) -> (r: Result<Container, ErrorWrapper>)
        requires
            old(self).wf(),
        ensures
            final(self).wf(),
            old(self).item_in(slot) matches Some(item) ==> {
                &&& r matches Ok(c) && c.self_item() == item && c.kind() == ContainerType::ITEM
                    && c.inside().len() == 0 && c.limit() == 0
                &&& final(self).item_in(slot).is_none()
                &&& forall|s: EquipmentSlot| s != slot ==> #[trigger] final(self).item_in(s) == old(self).item_in(s)
            },
            old(self).item_in(slot).is_none() ==> {
                &&& *final(self) == *old(self)
                &&& r matches Err(e) && e.error_type == ErrorType::INTERNAL && e.wf()
                    && e.text() == "Cannot un-equip. Equipment slot: "@ + slot_name(slot) + " is empty."@
            },
    {
        proof {
            reveal_strlit("Cannot un-equip. Equipment slot: ");
            reveal_strlit(" is empty.");
        }
        let i = Self::index_of(&slot);
        if self.slots[i].is_some() {
            let mut taken: Option<Item> = None;
            std::mem::swap(&mut self.slots[i], &mut taken);
            let item = taken.unwrap();
            Ok(Container::wrap(item))
        } else {
            let mut message = String::from_str("Cannot un-equip. Equipment slot: ");
            message.append(slot.name().as_str());
            message.append(" is empty.");
            ErrorWrapper::internal_result(message)
        }
    }

    /// The filled slots and their items, in slot order.
    pub fn get_slots(&self) -> (slots: Vec<(EquipmentSlot, Item)>)
        requires
            self.wf(),
        ensures
            forall|k: int| 0 <= k < slots@.len() ==> self.item_in(#[trigger] slots@[k].0) == Some(slots@[k].1),
            forall|s: EquipmentSlot| self.item_in(s).is_some() ==> exists|k: int| 0 <= k < slots@.len() && #[trigger] slots@[k].0 == s,
    {
        let all = all_equipment_slots();
        let mut slots: Vec<(EquipmentSlot, Item)> = Vec::new();
        let mut i: usize = 0;
        while i < all.len()
            invariant
                self.wf(),
                i <= all@.len(),
                all@ == all_slots_spec(),
                forall|k: int| 0 <= k < slots@.len() ==> self.item_in(#[trigger] slots@[k].0) == Some(slots@[k].1),
                forall|s: EquipmentSlot| self.item_in(s).is_some() && slot_index(s) < i ==>
                    exists|k: int| 0 <= k < slots@.len() && #[trigger] slots@[k].0 == s,
            decreases all@.len() - i,
        {
            let slot = all[i];
            assert(slot_index(slot) == i);
            let ghost before = slots@;
            if let Some(item) = &self.slots[Self::index_of(&slot)] {
                slots.push((slot, item.clone()));
                assert(slots@[slots@.len() - 1].0 == slot);
            }
            assert forall|s: EquipmentSlot| self.item_in(s).is_some() && slot_index(s) < i + 1 implies
                exists|k: int| 0 <= k < slots@.len() && #[trigger] slots@[k].0 == s by {
                if slot_index(s) < i {
                    let k = choose|k: int| 0 <= k < before.len() && #[trigger] before[k].0 == s;
                    assert(slots@[k] == before[k]);
                } else {
                    assert(s == slot);
                    assert(slots@[slots@.len() - 1].0 == slot);
                }
            }
            i += 1;
        }
        slots
    }
}

/// Equipping an empty slot and then unequipping it gives the item back, wrapped,
/// and leaves the slot empty again.
pub proof fn lemma_equip_unequip_round_trip(before: Equipment, equipped: Equipment, after: Equipment, item: Item, slot: EquipmentSlot)
    requires
        before.wf(),
        equipped.wf(),
        after.wf(),
        before.item_in(slot).is_none(),
        equipped.item_in(slot) == Some(item),
        forall|s: EquipmentSlot| s != slot ==> #[trigger] equipped.item_in(s) == before.item_in(s),
        after.item_in(slot).is_none(),
        forall|s: EquipmentSlot| s != slot ==> #[trigger] after.item_in(s) == equipped.item_in(s),
    ensures
        forall|s: EquipmentSlot| #[trigger] after.item_in(s) == before.item_in(s),
{
}


/// The first of `slots` that equipping the container `c` takes: none when
/// `c` is not a wrapped item, else the first slot that is empty in `eq`.
pub open spec fn first_free_slot(eq: Equipment, c: Container, slots: Seq<EquipmentSlot>) -> Option<EquipmentSlot>
    decreases slots.len(),
{
    if c.kind() != ContainerType::ITEM || slots.len() == 0 {
        None
    } else if eq.item_in(slots[0]) is None {
        Some(slots[0])
    } else {
        first_free_slot(eq, c, slots.drop_first())
    }
}

/// The slot `first_free_slot` picks is the first empty one of `slots`; when
/// it picks none for a wrapped item, every one of `slots` is filled.
proof fn lemma_first_free_slot_empty(eq: Equipment, c: Container, slots: Seq<EquipmentSlot>)
    ensures
        first_free_slot(eq, c, slots) matches Some(s) ==> eq.item_in(s) is None
            && exists|j: int| 0 <= j < slots.len() && slots[j] == s
                && forall|i: int| 0 <= i < j ==> (#[trigger] eq.item_in(slots[i])) is Some,
        first_free_slot(eq, c, slots) is None && c.kind() == ContainerType::ITEM
            ==> forall|i: int| 0 <= i < slots.len() ==> (#[trigger] eq.item_in(slots[i])) is Some,
    decreases slots.len(),
{
    if c.kind() == ContainerType::ITEM && slots.len() > 0 {
        if eq.item_in(slots[0]) is None {
            assert(slots[0] == slots[0]);
        } else {
            let rest = slots.drop_first();
            lemma_first_free_slot_empty(eq, c, rest);
            if let Some(s) = first_free_slot(eq, c, rest) {
                let j = choose|j: int| 0 <= j < rest.len() && rest[j] == s
                    && forall|i: int| 0 <= i < j ==> (#[trigger] eq.item_in(rest[i])) is Some;
                assert(slots[j + 1] == s);
                assert forall|i: int| 0 <= i < j + 1 implies (#[trigger] eq.item_in(slots[i])) is Some by {
                    if i > 0 {
                        assert(slots[i] == rest[i - 1]);
                    }
                }
            } else {
                assert forall|i: int| 0 <= i < slots.len() implies (#[trigger] eq.item_in(slots[i])) is Some by {
                    if i > 0 {
                        assert(slots[i] == rest[i - 1]);
                    }
                }
            }
        }
    }
}

/// Equipping an unequipped item puts it into the first of the slots its type
/// can take (`get_potential_slots`) that is empty: the slot it takes was
/// empty and is one of those slots, every one before it was filled, and only
/// that slot changes. When all of them are filled, nothing changes.
pub proof fn lemma_equip_takes_first_free_slot(
    inv0: Container,
    inv1: Container,
    eq0: Equipment,
    eq1: Equipment,
    item: Item,
    change: Option<Item>,
)
    requires
        find_within(inv0, item@.id) matches Some(c) && c.self_item()@.equipment_slot is None
            && c.kind() == ContainerType::ITEM,
        equip_step(inv0, inv1, eq0, eq1, item, change),
    ensures
        ({
            let c = find_within(inv0, item@.id).unwrap();
            let slots = potential_slots_spec(c.self_item()@.item_type);
            match change {
                Some(changed) => changed@.equipment_slot matches Some(s) && {
                    &&& eq0.item_in(s) is None
                    &&& eq1.item_in(s) == Some(c.self_item())
                    &&& forall|t: EquipmentSlot| t != s ==> #[trigger] eq1.item_in(t) == eq0.item_in(t)
                    &&& exists|j: int| 0 <= j < slots.len() && slots[j] == s
                        && forall|i: int| 0 <= i < j ==> (#[trigger] eq0.item_in(slots[i])) is Some
                },
                None => eq1 == eq0 && inv1 == inv0
                    && forall|i: int| 0 <= i < slots.len() ==> (#[trigger] eq0.item_in(slots[i])) is Some,
            }
        }),
{
    let c = find_within(inv0, item@.id).unwrap();
    lemma_first_free_slot_empty(eq0, c, potential_slots_spec(c.self_item()@.item_type));
}

/// Whether `inv1` is `inv0` with the container found for `id` (which was
/// `c`) now standing for an item whose view is `v`, and otherwise the same.
pub open spec fn item_changed_in(inv0: Container, inv1: Container, id: u128, c: Container, v: ItemView) -> bool {
    exists|c2: Container| {
        &&& #[trigger] replaced_within(inv0, inv1, id, c2)
        &&& c2.self_item()@ == v
        &&& c2.kind() == c.kind()
        &&& c2.limit() == c.limit()
        &&& c2.inside() == c.inside()
    }
}

/// Whether `eq1` is `eq0` with only `slot` changed, to hold `item`.
pub open spec fn slot_set(eq0: Equipment, eq1: Equipment, slot: EquipmentSlot, item: Option<Item>) -> bool {
    &&& eq1.wf()
    &&& eq1.item_in(slot) == item
    &&& forall|t: EquipmentSlot| t != slot ==> #[trigger] eq1.item_in(t) == eq0.item_in(t)
}

/// What equipping (or unequipping) `item` does, from inventory `inv0` and
/// equipment `eq0` to `inv1` and `eq1`, with `change` the item changed:
/// - an item the inventory does not hold changes nothing;
/// - an equipped item leaves its slot, and its own slot is cleared;
/// - any other item goes into the first of its potential slots it can take
///   (see `first_free_slot`), which its own slot then names; when there is
///   none, nothing changes.
pub open spec fn equip_step(inv0: Container, inv1: Container, eq0: Equipment, eq1: Equipment, item: Item, change: Option<Item>) -> bool {
    match find_within(inv0, item@.id) {
        None => inv1 == inv0 && eq1 == eq0 && change is None,
        Some(c) => match c.self_item()@.equipment_slot {
            Some(s) => {
                &&& slot_set(eq0, eq1, s, None)
                &&& change is Some
                &&& change.unwrap()@ == (ItemView { equipment_slot: None, ..c.self_item()@ })
                &&& item_changed_in(inv0, inv1, item@.id, c, change.unwrap()@)
            },
            None => match first_free_slot(eq0, c, potential_slots_spec(c.self_item()@.item_type)) {
                Some(s) => {
                    &&& slot_set(eq0, eq1, s, Some(c.self_item()))
                    &&& change is Some
                    &&& change.unwrap()@ == (ItemView { equipment_slot: Some(s), ..c.self_item()@ })
                    &&& item_changed_in(inv0, inv1, item@.id, c, change.unwrap()@)
                },
                None => inv1 == inv0 && eq1 == eq0 && change is None,
            },
        },
    }
}

/// Whether `invs` and `eqs` are the inventories and equipments, from `inv0`
/// and `eq0` on, as the items are equipped in turn, with `changes` the items
/// each step changed.
pub open spec fn equip_chain(
    inv0: Container,
    eq0: Equipment,
    invs: Seq<Container>,
    eqs: Seq<Equipment>,
    changes: Seq<Option<Item>>,
    items: Seq<Item>,
) -> bool {
    &&& invs.len() == items.len() + 1
    &&& eqs.len() == items.len() + 1
    &&& changes.len() == items.len()
    &&& invs[0] == inv0
    &&& eqs[0] == eq0
    &&& forall|k: int| 0 <= k < items.len() ==> equip_step(#[trigger] invs[k], invs[k + 1], eqs[k], eqs[k + 1], items[k], changes[k])
}

/// The changed items, in order.
pub open spec fn changed_items(changes: Seq<Option<Item>>) -> Seq<Item>
    decreases changes.len(),
{
    if changes.len() == 0 {
        Seq::empty()
    } else {
        let rest = changed_items(changes.drop_last());
        match changes.last() {
            Some(i) => rest.push(i),
            None => rest,
        }
    }
}

/// What equipping the items needs so as not to fail: whenever an item the
/// inventory holds is marked equipped in a slot, that slot holds something.
pub open spec fn equip_completes(items: Seq<Item>, inv0: Container, eq0: Equipment) -> bool {
    forall|k: int, invs: Seq<Container>, eqs: Seq<Equipment>, changes: Seq<Option<Item>>|
        0 <= k < items.len() && #[trigger] equip_chain(inv0, eq0, invs, eqs, changes, items.take(k)) ==> (
            find_within(invs.last(), items[k]@.id) matches Some(c)
                ==> (c.self_item()@.equipment_slot matches Some(s) ==> eqs.last().item_in(s) is Some))
}

/// Equips, in turn, each of the items the inventory holds (at any depth):
/// an equipped one is unequipped, any other goes into the first of its
/// potential slots it can take (see `equip_step`). The changed items come
/// back, in order; with no items to equip, nothing happens and nothing comes
/// back.
pub fn equip_items(items: &Vec<Item>, inventory: &mut Container, equipment: &mut Equipment) -> (r: Option<Vec<Item>>)
    requires
        old(equipment).wf(),
        equip_completes(items@, *old(inventory), *old(equipment)),
    ensures
        final(equipment).wf(),
        items@.len() == 0 ==> r is None && *final(inventory) == *old(inventory) && *final(equipment) == *old(equipment),
        items@.len() > 0 ==> exists|invs: Seq<Container>, eqs: Seq<Equipment>, changes: Seq<Option<Item>>| {
            &&& #[trigger] equip_chain(*old(inventory), *old(equipment), invs, eqs, changes, items@)
            &&& *final(inventory) == invs.last()
            &&& *final(equipment) == eqs.last()
            &&& r matches Some(modified) && modified@ == changed_items(changes)
        },
{
    if items.len() == 0 {
        return None;
    }
    let ghost inv0 = *inventory;
    let ghost eq0 = *equipment;
    let ghost mut invs: Seq<Container> = seq![inv0];
    let ghost mut eqs: Seq<Equipment> = seq![eq0];
    let ghost mut changes: Seq<Option<Item>> = Seq::empty();
    let mut modified: Vec<Item> = Vec::new();
    let mut i: usize = 0;
    proof {
        assert(equip_chain(inv0, eq0, invs, eqs, changes, items@.take(0)));
    }
    while i < items.len()
        invariant
            i <= items@.len(),
            equip_completes(items@, inv0, eq0),
            equip_chain(inv0, eq0, invs, eqs, changes, items@.take(i as int)),
            *inventory == invs.last(),
            *equipment == eqs.last(),
            equipment.wf(),
            modified@ == changed_items(changes),
        decreases items@.len() - i,
    {
        let to_equip = &items[i];
        let ghost inv_k = *inventory;
        let ghost eq_k = *equipment;
        let ghost invs0 = invs;
        let ghost eqs0 = eqs;
        let ghost changes0 = changes;
        let ghost mut change: Option<Item> = None;
        match inventory.find(to_equip) {
            Some(found_c) => {
                let c_copy = found_c.clone();
                let ghost c0 = find_within(inv_k, to_equip@.id).unwrap();
                proof {
                    lemma_same_container(c_copy, c0);
                }
                if c_copy.get_self_item().is_equipped() {
                    let equipped_slot = c_copy.get_self_item().get_equipment_slot().unwrap();
                    let _taken = equipment.unequip(equipped_slot).unwrap();
                    let c = inventory.find_mut(to_equip).unwrap();
                    let result_item = c.get_self_item_mut();
                    result_item.unequip();
                    let changed = result_item.clone();
                    proof {
                        change = Some(changed);
                    }
                    modified.push(changed);
                } else {
                    let potential_slots = get_potential_slots(c_copy.get_self_item().get_item_type());
                    let mut chosen: Option<EquipmentSlot> = None;
                    let mut j: usize = 0;
                    proof {
                        assert(potential_slots@.skip(0) =~= potential_slots@);
                    }
                    while j < potential_slots.len()
                        invariant_except_break
                            chosen is None,
                            *equipment == eq_k,
                        invariant
                            j <= potential_slots@.len(),
                            potential_slots@ == potential_slots_spec(c0.self_item()@.item_type),
                            equipment.wf(),
                            c_copy.kind() == c0.kind(),
                            c_copy.self_item() == c0.self_item(),
                            first_free_slot(eq_k, c0, potential_slots@) == first_free_slot(eq_k, c0, potential_slots@.skip(j as int)),
                        ensures
                            match chosen {
                                Some(s) => first_free_slot(eq_k, c0, potential_slots@) == Some(s)
                                    && slot_set(eq_k, *equipment, s, Some(c0.self_item())),
                                None => first_free_slot(eq_k, c0, potential_slots@) is None && *equipment == eq_k,
                            },
                        decreases potential_slots@.len() - j,
                    {
                        let slot = potential_slots[j];
                        let ghost rest = potential_slots@.skip(j as int);
                        proof {
                            assert(rest[0] == slot);
                            assert(rest.drop_first() =~= potential_slots@.skip(j + 1));
                        }
                        let copy = c_copy.clone();
                        proof {
                            lemma_same_container(copy, c_copy);
                        }
                        let equip_result = equipment.equip(copy, slot);
                        if equip_result.is_ok() {
                            proof {
                                assert(eq_k.item_in(slot) is None && c0.kind() == ContainerType::ITEM);
                                assert(first_free_slot(eq_k, c0, rest) == Some(slot));
                            }
                            chosen = Some(slot);
                            break;
                        }
                        proof {
                            assert(eq_k.item_in(slot) is Some || c0.kind() != ContainerType::ITEM);
                            assert(first_free_slot(eq_k, c0, rest) == first_free_slot(eq_k, c0, rest.drop_first()));
                        }
                        j += 1;
                    }
                    proof {
                        if chosen is None {
                            assert(potential_slots@.skip(potential_slots@.len() as int).len() == 0);
                        }
                    }
                    if let Some(slot) = chosen {
                        let c = inventory.find_mut(to_equip).unwrap();
                        let result_item = c.get_self_item_mut();
                        result_item.set_equipment_slot(Some(slot));
                        let changed = result_item.clone();
                        proof {
                            change = Some(changed);
                        }
                        modified.push(changed);
                    }
                }
            },
            None => {},
        }
        proof {
            invs = invs0.push(*inventory);
            eqs = eqs0.push(*equipment);
            changes = changes0.push(change);
            let t1 = items@.take(i + 1);
            assert(t1.drop_last() =~= items@.take(i as int));
            assert(changes.drop_last() =~= changes0);
            assert(equip_step(inv_k, *inventory, eq_k, *equipment, items@[i as int], change));
            assert forall|k: int| 0 <= k < t1.len() implies equip_step(#[trigger] invs[k], invs[k + 1], eqs[k], eqs[k + 1], t1[k], changes[k]) by {
                if k < i {
                    assert(invs[k] == invs0[k] && invs[k + 1] == invs0[k + 1]);
                    assert(eqs[k] == eqs0[k] && eqs[k + 1] == eqs0[k + 1]);
                    assert(changes[k] == changes0[k]);
                    assert(t1[k] == items@.take(i as int)[k]);
                }
            }
        }
        i += 1;
    }
    proof {
        assert(items@.take(items@.len() as int) =~= items@);
    }
    Some(modified)
}

/// Equipping an item twice gives the equipment back as it was, and the item
/// its own slot back: the first time puts an unequipped item into a free slot
/// (or changes nothing when none is free), the second takes it off again.
pub proof fn lemma_equip_twice_restores(
    inv0: Container,
    inv1: Container,
    inv2: Container,
    eq0: Equipment,
    eq1: Equipment,
    eq2: Equipment,
    item: Item,
    change1: Option<Item>,
    change2: Option<Item>,
)
    requires
        eq0.wf(),
        find_within(inv0, item@.id) matches Some(c) && c.self_item()@.equipment_slot is None,
        equip_step(inv0, inv1, eq0, eq1, item, change1),
        equip_step(inv1, inv2, eq1, eq2, item, change2),
    ensures
        forall|s: EquipmentSlot| #[trigger] eq2.item_in(s) == eq0.item_in(s),
        find_within(inv2, item@.id) matches Some(c2)
            && c2.self_item()@ == find_within(inv0, item@.id).unwrap().self_item()@,
{
    let id = item@.id;
    let c = find_within(inv0, id).unwrap();
    lemma_found_has_id(inv0, id);
    lemma_first_free_slot_empty(eq0, c, potential_slots_spec(c.self_item()@.item_type));
    match first_free_slot(eq0, c, potential_slots_spec(c.self_item()@.item_type)) {
        Some(s) => {
            let v1 = change1.unwrap()@;
            let c1 = choose|c2: Container| {
                &&& #[trigger] replaced_within(inv0, inv1, id, c2)
                &&& c2.self_item()@ == v1
                &&& c2.kind() == c.kind()
                &&& c2.limit() == c.limit()
                &&& c2.inside() == c.inside()
            };
            lemma_write_then_find(inv0, inv1, id, c1);
            let v2 = change2.unwrap()@;
            let c2 = choose|c3: Container| {
                &&& #[trigger] replaced_within(inv1, inv2, id, c3)
                &&& c3.self_item()@ == v2
                &&& c3.kind() == c1.kind()
                &&& c3.limit() == c1.limit()
                &&& c3.inside() == c1.inside()
            };
            lemma_write_then_find(inv1, inv2, id, c2);
            assert(c2.self_item()@ == c.self_item()@);
        },
        None => {},
    }
}

} // verus!
