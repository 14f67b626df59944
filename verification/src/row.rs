//! The tables as rows of text: one row for each record, one cell for each
//! column, every number and flag written out.

use crate::hero::{Hero, HeroView};
use crate::item::{Item, ItemView};
use crate::render::{
    bool_text, bool_to_text, decimal_text, decimal_to_text, integer_text, integer_to_text,
};
use vstd::prelude::*;

verus! {

/// The cells of a row as sequences of characters.
pub open spec fn cell_views(row: Seq<String>) -> Seq<Seq<char>> {
    row.map_values(|cell: String| cell@)
}

/// The rows of a sheet as sequences of cells.
pub open spec fn row_views(rows: Seq<Vec<String>>) -> Seq<Seq<Seq<char>>> {
    rows.map_values(|row: Vec<String>| cell_views(row@))
}

/// The row of an item, one cell for each field of the record in the
/// order of the record: name, the flat bonuses, the armor corruption, the
/// magic proc, the critical hit, cost, the neutral flag and the useless flag.
pub open spec fn item_row_of(item: ItemView) -> Seq<Seq<char>> {
    seq![
        item.name,
        integer_text(item.damage as int),
        integer_text(item.damage_melee as int),
        integer_text(item.damage_ranged as int),
        integer_text(item.attack_speed as int),
        integer_text(item.strength as int),
        integer_text(item.agility as int),
        integer_text(item.intellect as int),
        integer_text(item.armor_corruption as int),
        integer_text(item.magic_damage as int),
        decimal_text(item.magic_chance_melee),
        decimal_text(item.magic_chance_ranged),
        decimal_text(item.crit_multiplier),
        decimal_text(item.crit_chance),
        integer_text(item.cost as int),
        bool_text(item.is_neutral_item),
        bool_text(item.is_useless_item),
    ]
}

/// The row of a hero: name, primary attribute, attack type, base attack
/// time and base attack speed.
pub open spec fn hero_row_of(hero: HeroView) -> Seq<Seq<char>> {
    seq![
        hero.name,
        hero.primary_attribute,
        hero.attack_type,
        decimal_text(hero.base_attack_time),
        integer_text(hero.base_attack_speed as int),
    ]
}

/// The rows of an item table, in its order.
pub open spec fn item_rows_of(items: Seq<Item>) -> Seq<Seq<Seq<char>>> {
    items.map_values(|item: Item| item_row_of(item@))
}

/// The rows of a hero table, in its order.
pub open spec fn hero_rows_of(heroes: Seq<Hero>) -> Seq<Seq<Seq<char>>> {
    heroes.map_values(|hero: Hero| hero_row_of(hero@))
}

/// Writes the row of an item.
pub fn item_row(item: &Item) -> (row: Vec<String>)
    ensures
        cell_views(row@) == item_row_of(item@),
{
    let mut row: Vec<String> = Vec::new();
    row.push(item.name.clone());
    row.push(integer_to_text(item.damage));
    row.push(integer_to_text(item.damage_melee));
    row.push(integer_to_text(item.damage_ranged));
    row.push(integer_to_text(item.attack_speed));
    row.push(integer_to_text(item.strength));
    row.push(integer_to_text(item.agility));
    row.push(integer_to_text(item.intellect));
    row.push(integer_to_text(item.armor_corruption));
    row.push(integer_to_text(item.magic_damage));
    row.push(decimal_to_text(item.magic_chance_melee));
    row.push(decimal_to_text(item.magic_chance_ranged));
    row.push(decimal_to_text(item.crit_multiplier));
    row.push(decimal_to_text(item.crit_chance));
    row.push(integer_to_text(item.cost));
    row.push(bool_to_text(item.is_neutral_item));
    row.push(bool_to_text(item.is_useless_item));
    assert(cell_views(row@) =~= item_row_of(item@));
    row
}

/// Writes the row of a hero.
pub fn hero_row(hero: &Hero) -> (row: Vec<String>)
    ensures
        cell_views(row@) == hero_row_of(hero@),
{
    let mut row: Vec<String> = Vec::new();
    row.push(hero.name.clone());
    row.push(hero.primary_attribute.clone());
    row.push(hero.attack_type.clone());
    row.push(decimal_to_text(hero.base_attack_time));
    row.push(integer_to_text(hero.base_attack_speed));
    assert(cell_views(row@) =~= hero_row_of(hero@));
    row
}

/// Writes the rows of an item table.
pub fn item_rows(items: &Vec<Item>) -> (rows: Vec<Vec<String>>)
    ensures
        row_views(rows@) == item_rows_of(items@),
{
    let mut rows: Vec<Vec<String>> = Vec::new();
    let mut i: usize = 0;
    while i < items.len()
        invariant
            i <= items.len(),
            row_views(rows@) == item_rows_of(items@).take(i as int),
        decreases items.len() - i,
    {
        let ghost before = rows@;
        let row = item_row(&items[i]);
        rows.push(row);
        assert(row_views(rows@) =~= row_views(before).push(item_row_of(items@[i as int]@)));
        i += 1;
    }
    assert(item_rows_of(items@).take(i as int) =~= item_rows_of(items@));
    rows
}

/// Writes the rows of a hero table.
pub fn hero_rows(heroes: &Vec<Hero>) -> (rows: Vec<Vec<String>>)
    ensures
        row_views(rows@) == hero_rows_of(heroes@),
{
    let mut rows: Vec<Vec<String>> = Vec::new();
    let mut i: usize = 0;
    while i < heroes.len()
        invariant
            i <= heroes.len(),
            row_views(rows@) == hero_rows_of(heroes@).take(i as int),
        decreases heroes.len() - i,
    {
        let ghost before = rows@;
        let row = hero_row(&heroes[i]);
        rows.push(row);
        assert(row_views(rows@) =~= row_views(before).push(hero_row_of(heroes@[i as int]@)));
        i += 1;
    }
    assert(hero_rows_of(heroes@).take(i as int) =~= hero_rows_of(heroes@));
    rows
}

} // verus!
