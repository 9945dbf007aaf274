//! References to game items: an item type and a number within that type.
use vstd::prelude::*;

verus! {

/// The item tables of the game, in the order of their type numbers 1 to 14.
#[derive(Debug, Clone, Copy, PartialEq, Eq, Structural)]
pub enum ItemType {
    Face,
    Head,
    Body,
    Hands,
    Feet,
    Back,
    Jewellery,
    Weapon,
    SubWeapon,
    Consumable,
    Gem,
    Material,
    Quest,
    Vehicle,
}

/// The item type with type number `n` (1 to 14).
pub open spec fn item_type_of_number(n: int) -> Option<ItemType> {
    if n == 1 {
        Some(ItemType::Face)
    } else if n == 2 {
        Some(ItemType::Head)
    } else if n == 3 {
        Some(ItemType::Body)
    } else if n == 4 {
        Some(ItemType::Hands)
    } else if n == 5 {
        Some(ItemType::Feet)
    } else if n == 6 {
        Some(ItemType::Back)
    } else if n == 7 {
        Some(ItemType::Jewellery)
    } else if n == 8 {
        Some(ItemType::Weapon)
    } else if n == 9 {
        Some(ItemType::SubWeapon)
    } else if n == 10 {
        Some(ItemType::Consumable)
    } else if n == 11 {
        Some(ItemType::Gem)
    } else if n == 12 {
        Some(ItemType::Material)
    } else if n == 13 {
        Some(ItemType::Quest)
    } else if n == 14 {
        Some(ItemType::Vehicle)
    } else {
        None
    }
}

impl ItemType {
    /// The item type with type number `n`.
    pub fn from_base1000(n: usize) -> (r: Option<ItemType>)
        ensures
            r == item_type_of_number(n as int),
    {
        match n {
            1 => Some(ItemType::Face),
            2 => Some(ItemType::Head),
            3 => Some(ItemType::Body),
            4 => Some(ItemType::Hands),
            5 => Some(ItemType::Feet),
            6 => Some(ItemType::Back),
            7 => Some(ItemType::Jewellery),
            8 => Some(ItemType::Weapon),
            9 => Some(ItemType::SubWeapon),
            10 => Some(ItemType::Consumable),
            11 => Some(ItemType::Gem),
            12 => Some(ItemType::Material),
            13 => Some(ItemType::Quest),
            14 => Some(ItemType::Vehicle),
            _ => None,
        }
    }

    /// Worn or wielded items: everything from faces to sub weapons, and vehicle parts.
    pub open spec fn spec_is_equipment(self) -> bool {
        !(self is Consumable || self is Gem || self is Material || self is Quest)
    }

    /// Worn or wielded items: everything from faces to sub weapons, and vehicle parts.
    pub fn is_equipment_item(&self) -> (r: bool)
        ensures
            r == self.spec_is_equipment(),
    {
        match self {
            ItemType::Consumable | ItemType::Gem | ItemType::Material | ItemType::Quest => false,
            _ => true,
        }
    }
}

/// An item: its type and its number within that type.
#[derive(Debug, Clone, Copy, PartialEq, Eq, Structural)]
pub struct ItemReference {
    pub item_type: ItemType,
    pub item_number: usize,
}

impl ItemReference {
    pub fn new(item_type: ItemType, item_number: usize) -> (r: ItemReference)
        ensures
            r.item_type == item_type,
            r.item_number == item_number,
    {
        ItemReference { item_type, item_number }
    }
}

/// What a combined item code `type * 1000 + number` stands for; number 0 is no item.
pub open spec fn spec_decode_item_base1000(code: int) -> Option<ItemReference> {
    match item_type_of_number(code / 1000) {
        Some(t) => if code % 1000 == 0 {
            None
        } else {
            Some(ItemReference { item_type: t, item_number: (code % 1000) as usize })
        },
        None => None,
    }
}

/// Splits a combined item code `type * 1000 + number`.
pub fn decode_item_base1000(code: usize) -> (r: Option<ItemReference>)
    ensures
        r == spec_decode_item_base1000(code as int),
{
    let item_type = ItemType::from_base1000(code / 1000)?;
    let item_number = code % 1000;
    if item_number == 0 {
        None
    } else {
        Some(ItemReference::new(item_type, item_number))
    }
}

} // verus!
