use vstd::prelude::*;

use crate::equipment::EquipmentSlot;
use crate::text::space_joined;
use crate::tile::{Colour, Symbol};

verus! {

/// The kinds of blade a bladed weapon can have.
#[derive(Clone, Copy, Debug, PartialEq, Eq, Structural)]
pub enum BladedWeaponType {
    ARMING,
}

#[derive(Clone, Copy, Debug, PartialEq, Eq, Structural)]
pub struct Weapon {
    pub damage: i32,
}

#[derive(Clone, Copy, Debug, PartialEq, Eq, Structural)]
pub enum ItemType {
    ITEM,
    CONTAINER,
    WEAPON(Weapon),
    HEADGEAR,
    TORSO,
    LEGS,
}

#[derive(Clone, Copy, Debug, PartialEq, Eq, Structural)]
pub enum MaterialType {
    CLOTH,
    LEATHER,
    WOOD,
    STONE,
    BRONZE,
    TIN,
    IRON,
    STEEL,
    SILVER,
    GOLD,
    UNKNOWN,
}

/// The display name of a material.
pub open spec fn material_name(m: MaterialType) -> Seq<char> {
    match m {
        MaterialType::CLOTH => "Cloth"@,
        MaterialType::LEATHER => "Leather"@,
        MaterialType::WOOD => "Wood"@,
        MaterialType::STONE => "Stone"@,
        MaterialType::BRONZE => "Bronze"@,
        MaterialType::TIN => "Tin"@,
        MaterialType::IRON => "Iron"@,
        MaterialType::STEEL => "Steel"@,
        MaterialType::SILVER => "Silver"@,
        MaterialType::GOLD => "Gold"@,
        MaterialType::UNKNOWN => "Unknown"@,
    }
}

/// The simplified density of a material in grams per cubic centimetre.
pub open spec fn material_density(m: MaterialType) -> i32 {
    match m {
        MaterialType::CLOTH => 2,
        MaterialType::LEATHER => 2,
        MaterialType::WOOD => 1,
        MaterialType::STONE => 3,
        MaterialType::BRONZE => 9,
        MaterialType::TIN => 7,
        MaterialType::IRON => 8,
        MaterialType::STEEL => 8,
        MaterialType::SILVER => 10,
        MaterialType::GOLD => 19,
        MaterialType::UNKNOWN => 1,
    }
}

impl MaterialType {
    pub fn name(&self) -> (s: String)
        ensures
            s@ == material_name(*self),
    {
        proof {
            reveal_strlit("Cloth");
            reveal_strlit("Leather");
            reveal_strlit("Wood");
            reveal_strlit("Stone");
            reveal_strlit("Bronze");
            reveal_strlit("Tin");
            reveal_strlit("Iron");
            reveal_strlit("Steel");
            reveal_strlit("Silver");
            reveal_strlit("Gold");
            reveal_strlit("Unknown");
        }
        match self {
            MaterialType::CLOTH => String::from_str("Cloth"),
            MaterialType::LEATHER => String::from_str("Leather"),
            MaterialType::WOOD => String::from_str("Wood"),
            MaterialType::STONE => String::from_str("Stone"),
            MaterialType::BRONZE => String::from_str("Bronze"),
            MaterialType::TIN => String::from_str("Tin"),
            MaterialType::IRON => String::from_str("Iron"),
            MaterialType::STEEL => String::from_str("Steel"),
            MaterialType::SILVER => String::from_str("Silver"),
            MaterialType::GOLD => String::from_str("Gold"),
            MaterialType::UNKNOWN => String::from_str("Unknown"),
        }
    }

    /// Simplified density in grams per cubic centimetre (kg/m3 divided by 1000,
    /// rounded half up).
    pub fn density_grams_cm3(&self) -> (d: i32)
        ensures
            d == material_density(*self),
    {
        match self {
            MaterialType::CLOTH => 2,
            MaterialType::LEATHER => 2,
            MaterialType::WOOD => 1,
            MaterialType::STONE => 3,
            MaterialType::BRONZE => 9,
            MaterialType::TIN => 7,
            MaterialType::IRON => 8,
            MaterialType::STEEL => 8,
            MaterialType::SILVER => 10,
            MaterialType::GOLD => 19,
            MaterialType::UNKNOWN => 1,
        }
    }
}

/// Every material has a positive density.
pub proof fn lemma_material_density_positive(m: MaterialType)
    ensures
        material_density(m) >= 1,
{
}

#[derive(Debug, PartialEq, Eq)]
pub enum ItemForm {
    COIN,
    BAR,
    BLADED(BladedWeaponType),
    OTHER(String),
}

impl Clone for ItemForm {
    fn clone(&self) -> (r: Self)
        ensures
            r == *self,
    {
        match self {
            ItemForm::COIN => ItemForm::COIN,
            ItemForm::BAR => ItemForm::BAR,
            ItemForm::BLADED(b) => ItemForm::BLADED(*b),
            ItemForm::OTHER(s) => ItemForm::OTHER(s.clone()),
        }
    }
}

/// The display name of an item form; a free-form item is named by its description.
pub open spec fn form_name(f: ItemForm) -> Seq<char> {
    match f {
        ItemForm::COIN => "Coin"@,
        ItemForm::BAR => "Bar"@,
        ItemForm::BLADED(_) => "Sword"@,
        ItemForm::OTHER(description) => description@,
    }
}

impl ItemForm {
    pub fn name(self) -> (s: String)
        ensures
            s@ == form_name(self),
    {
        proof {
            reveal_strlit("Coin");
            reveal_strlit("Bar");
            reveal_strlit("Sword");
        }
        match self {
            ItemForm::COIN => String::from_str("Coin"),
            ItemForm::BAR => String::from_str("Bar"),
            ItemForm::BLADED(_sword_type) => String::from_str("Sword"),
            ItemForm::OTHER(description) => description,
        }
    }
}

/// An object of the game world. Its identifier is the 128-bit value of a
/// random (version 4) UUID; its weight is held in grams.
#[derive(Debug, PartialEq)]
pub struct Item {
    id: u128,
    pub item_type: ItemType,
    item_form: ItemForm,
    material_type: MaterialType,
    name: String,
    pub symbol: Symbol,
    pub weight: u32,
    pub value: i32,
    equipment_slot: Option<EquipmentSlot>,
}

impl Clone for Item {
    fn clone(&self) -> (r: Self)
        ensures
            r == *self,
    {
        Item {
            id: self.id,
            item_type: self.item_type,
            item_form: self.item_form.clone(),
            material_type: self.material_type,
            name: self.name.clone(),
            symbol: self.symbol,
            weight: self.weight,
            value: self.value,
            equipment_slot: self.equipment_slot,
        }
    }
}

/// A fresh random (version 4) UUID as its 128-bit value.
#[verifier::external_body]
pub(crate) fn new_uuid() -> (id: u128)
    ensures
        (id >> 76u128) & 0xfu128 == 4,
{
    uuid::Uuid::new_v4().as_u128()
}

/// What an item holds, with its name as text.
pub struct ItemView {
    pub id: u128,
    pub item_type: ItemType,
    pub item_form: ItemForm,
    pub material_type: MaterialType,
    pub name: Seq<char>,
    pub symbol: Symbol,
    pub weight: u32,
    pub value: i32,
    pub equipment_slot: Option<EquipmentSlot>,
}

impl ItemView {
    /// The name made of the material and the form, such as "Steel Sword".
    pub open spec fn default_name(self) -> Seq<char> {
        material_name(self.material_type) + " "@ + form_name(self.item_form)
    }

    /// The name shown for the item: its own name, or the default name when it has none.
    pub open spec fn display_name(self) -> Seq<char> {
        if self.name.len() == 0 { self.default_name() } else { self.name }
    }
}

impl View for Item {
    type V = ItemView;

    closed spec fn view(&self) -> ItemView {
        ItemView {
            id: self.id,
            item_type: self.item_type,
            item_form: self.item_form,
            material_type: self.material_type,
            name: self.name@,
            symbol: self.symbol,
            weight: self.weight,
            value: self.value,
            equipment_slot: self.equipment_slot,
        }
    }
}

impl Item {

    pub fn get_id(&self) -> (id: u128)
        ensures
            id == self@.id,
    {
        self.id
    }

    pub fn get_name(&self) -> (s: String)
        ensures
            s@ == self@.display_name(),
    {
        if self.name.as_str().is_empty() {
            self.get_default_name()
        } else {
            self.name.clone()
        }
    }

    pub fn get_default_name(&self) -> (s: String)
        ensures
            s@ == self@.default_name(),
    {
        let material = self.material_type.name();
        let form = self.item_form.clone().name();
        space_joined(material, form)
    }

    pub fn set_name(&mut self, name: String)
        ensures
            final(self)@ == (ItemView { name: name@, ..old(self)@ }),
    {
        self.name = name;
    }

    pub fn get_weight(&self) -> (w: u32)
        ensures
            w == self@.weight,
    {
        self.weight
    }

    pub fn get_value(&self) -> (v: i32)
        ensures
            v == self@.value,
    {
        self.value
    }

    pub fn is_container(&self) -> (r: bool)
        ensures
            r == (self@.item_type == ItemType::CONTAINER),
    {
        self.item_type == ItemType::CONTAINER
    }

    /// What kind of item this is.
    pub fn get_item_type(&self) -> (t: ItemType)
        ensures
            t == self@.item_type,
    {
        self.item_type
    }

    pub fn is_equipped(&self) -> (r: bool)
        ensures
            r == self@.equipment_slot.is_some(),
    {
        self.equipment_slot.is_some()
    }

    /// Whether this item carries the given identifier.
    pub fn id_equals_value(&self, id: u128) -> (r: bool)
        ensures
            r == (self@.id == id),
    {
        self.id == id
    }

    /// Whether both items carry the same identifier.
    pub fn id_equals(&self, other: &Item) -> (r: bool)
        ensures
            r == (self@.id == other@.id),
    {
        self.id == other.id
    }

    pub fn set_equipment_slot(&mut self, slot: Option<EquipmentSlot>)
        ensures
            final(self)@ == (ItemView { equipment_slot: slot, ..old(self)@ }),
    {
        self.equipment_slot = slot;
    }

    pub fn get_equipment_slot(&self) -> (slot: Option<EquipmentSlot>)
        ensures
            slot == self@.equipment_slot,
    {
        self.equipment_slot
    }

    pub fn unequip(&mut self)
        ensures
            final(self)@ == (ItemView { equipment_slot: None, ..old(self)@ }),
    {
        self.equipment_slot = None;
    }

    /// A plain item of unknown material with a fresh random identifier, its form
    /// described by its name.
    pub fn with_defaults(name: String, weight: u32, value: i32) -> (item: Item)
        ensures
            item@.item_type == ItemType::ITEM,
            item@.item_form == ItemForm::OTHER(name),
            item@.material_type == MaterialType::UNKNOWN,
            item@.name == name@,
            item@.symbol == (Symbol { character: 'X', colour: Colour::White }),
            item@.weight == weight,
            item@.value == value,
            item@.equipment_slot == None::<EquipmentSlot>,
    {
        let id = new_uuid();
        Item {
            id,
            item_type: ItemType::ITEM,
            item_form: ItemForm::OTHER(name.clone()),
            material_type: MaterialType::UNKNOWN,
            name,
            symbol: Symbol { character: 'X', colour: Colour::White },
            weight,
            value,
            equipment_slot: None,
        }
    }

    /// A plain item whose form is described by its name.
    pub fn new(id: u128, name: String, material_type: MaterialType, symbol: char, weight: u32, value: i32) -> (item: Item)
        ensures
            item@ == (ItemView {
                id,
                item_type: ItemType::ITEM,
                item_form: ItemForm::OTHER(name),
                material_type,
                name: name@,
                symbol: Symbol { character: symbol, colour: Colour::White },
                weight,
                value,
                equipment_slot: None,
            }),
    {
        Item {
            id,
            item_type: ItemType::ITEM,
            item_form: ItemForm::OTHER(name.clone()),
            material_type,
            name,
            symbol: Symbol::new(symbol, Colour::White),
            weight,
            value,
            equipment_slot: None,
        }
    }

    pub fn new_with_form(
        id: u128,
        name: String,
        material_type: MaterialType,
        item_form: ItemForm,
        symbol: char,
        weight: u32,
        value: i32,
    ) -> (item: Item)
        ensures
            item@ == (ItemView {
                id,
                item_type: ItemType::ITEM,
                item_form,
                material_type,
                name: name@,
                symbol: Symbol { character: symbol, colour: Colour::White },
                weight,
                value,
                equipment_slot: None,
            }),
    {
        Item {
            id,
            item_type: ItemType::ITEM,
            item_form,
            material_type,
            name,
            symbol: Symbol::new(symbol, Colour::White),
            weight,
            value,
            equipment_slot: None,
        }
    }

    /// The item that stands for a container, such as a bag or a chest.
    pub fn container_item(id: u128, name: String, symbol: char, weight: u32, value: i32) -> (item: Item)
        ensures
            item@ == (ItemView {
                id,
                item_type: ItemType::CONTAINER,
                item_form: ItemForm::OTHER(name),
                material_type: MaterialType::UNKNOWN,
                name: name@,
                symbol: Symbol { character: symbol, colour: Colour::White },
                weight,
                value,
                equipment_slot: None,
            }),
    {
        Item {
            id,
            item_type: ItemType::CONTAINER,
            item_form: ItemForm::OTHER(name.clone()),
            material_type: MaterialType::UNKNOWN,
            name,
            symbol: Symbol::new(symbol, Colour::White),
            weight,
            value,
            equipment_slot: None,
        }
    }

    pub fn weapon(
        id: u128,
        name: String,
        item_form: ItemForm,
        material_type: MaterialType,
        symbol: char,
        weight: u32,
        value: i32,
        weapon: Weapon,
    ) -> (item: Item)
        ensures
            item@ == (ItemView {
                id,
                item_type: ItemType::WEAPON(weapon),
                item_form,
                material_type,
                name: name@,
                symbol: Symbol { character: symbol, colour: Colour::White },
                weight,
                value,
                equipment_slot: None,
            }),
    {
        Item {
            id,
            item_type: ItemType::WEAPON(weapon),
            item_form,
            material_type,
            name,
            symbol: Symbol::new(symbol, Colour::White),
            weight,
            value,
            equipment_slot: None,
        }
    }
}

} // verus!
