//! The normalized item record.

use crate::decimal::Decimal;
use vstd::prelude::*;

verus! {

/// The gameplay stats of one item, one field per column of the table.
#[derive(Clone, Debug, PartialEq, Eq)]
pub struct Item {
    /// The display name; the feed's identifier until a name is resolved.
    pub name: String,
    pub damage: i32,
    pub damage_melee: i32,
    pub damage_ranged: i32,
    pub attack_speed: i32,
    pub strength: i32,
    pub agility: i32,
    pub intellect: i32,
    /// Armor taken from the target; negative where the item removes armor.
    pub armor_corruption: i32,
    pub magic_damage: i32,
    /// The chance of the magic proc for a melee carrier, as a ratio.
    pub magic_chance_melee: Decimal,
    /// The chance of the magic proc for a ranged carrier, as a ratio.
    pub magic_chance_ranged: Decimal,
    /// The critical-hit multiplier, as a ratio; one where the item has none.
    pub crit_multiplier: Decimal,
    /// The critical-hit chance, as a ratio.
    pub crit_chance: Decimal,
    pub cost: i32,
    pub is_neutral_item: bool,
    /// Set as long as no recognized bonus has been found for the item.
    pub is_useless_item: bool,
}

/// An [`Item`] with its name as a sequence of characters.
pub struct ItemView {
    pub name: Seq<char>,
    pub damage: i32,
    pub damage_melee: i32,
    pub damage_ranged: i32,
    pub attack_speed: i32,
    pub strength: i32,
    pub agility: i32,
    pub intellect: i32,
    pub armor_corruption: i32,
    pub magic_damage: i32,
    pub magic_chance_melee: Decimal,
    pub magic_chance_ranged: Decimal,
    pub crit_multiplier: Decimal,
    pub crit_chance: Decimal,
    pub cost: i32,
    pub is_neutral_item: bool,
    pub is_useless_item: bool,
}

impl View for Item {
    type V = ItemView;

    open spec fn view(&self) -> ItemView {
        ItemView {
            name: self.name@,
            damage: self.damage,
            damage_melee: self.damage_melee,
            damage_ranged: self.damage_ranged,
            attack_speed: self.attack_speed,
            strength: self.strength,
            agility: self.agility,
            intellect: self.intellect,
            armor_corruption: self.armor_corruption,
            magic_damage: self.magic_damage,
            magic_chance_melee: self.magic_chance_melee,
            magic_chance_ranged: self.magic_chance_ranged,
            crit_multiplier: self.crit_multiplier,
            crit_chance: self.crit_chance,
            cost: self.cost,
            is_neutral_item: self.is_neutral_item,
            is_useless_item: self.is_useless_item,
        }
    }
}

/// The record of an item named `name` of which nothing is known yet: no
/// bonus, a critical-hit multiplier of one, no cost, not neutral, useless.
pub open spec fn blank_item(name: Seq<char>) -> ItemView {
    ItemView {
        name,
        damage: 0,
        damage_melee: 0,
        damage_ranged: 0,
        attack_speed: 0,
        strength: 0,
        agility: 0,
        intellect: 0,
        armor_corruption: 0,
        magic_damage: 0,
        magic_chance_melee: Decimal { negative: false, mantissa: 0, exponent: 0 },
        magic_chance_ranged: Decimal { negative: false, mantissa: 0, exponent: 0 },
        crit_multiplier: Decimal { negative: false, mantissa: 1, exponent: 0 },
        crit_chance: Decimal { negative: false, mantissa: 0, exponent: 0 },
        cost: 0,
        is_neutral_item: false,
        is_useless_item: true,
    }
}

impl Item {
    /// The blank record of an item named `name`.
    pub fn named(name: String) -> (item: Item)
        ensures
            item@ == blank_item(name@),
    {
        Item {
            name,
            damage: 0,
            damage_melee: 0,
            damage_ranged: 0,
            attack_speed: 0,
            strength: 0,
            agility: 0,
            intellect: 0,
            armor_corruption: 0,
            magic_damage: 0,
            magic_chance_melee: Decimal::zero(),
            magic_chance_ranged: Decimal::zero(),
            crit_multiplier: Decimal::one(),
            crit_chance: Decimal::zero(),
            cost: 0,
            is_neutral_item: false,
            is_useless_item: true,
        }
    }
}

impl Default for Item {
    /// The blank record under the name `Unset`.
    fn default() -> (item: Item)
        ensures
            item@ == blank_item("Unset"@),
    {
        Item::named("Unset".to_string())
    }
}

} // verus!
