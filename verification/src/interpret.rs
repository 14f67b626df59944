//! The interpreter of attribute bags.
//!
//! A bag is searched for the recognized keys in their fixed order. The first
//! key found decides what the bag does to the record, and the rest of the bag
//! is not looked at: a second recognized key in the same bag is dropped.

use crate::bag::AttributeBag;
use crate::coerce::{integer_of, ratio_of, Raw, RawValue};
use crate::decimal::Decimal;
use crate::error::FeedError;
use crate::item::{Item, ItemView};
use crate::keys::{is_ratio_key, key_name, recognized_keys, BonusKey, KEY_COUNT};
use crate::rules::{policy_in, Policy, RuleSet, RuleView};
use vstd::prelude::*;

verus! {

/// The first recognized key, from place `from` of the search order on,
/// under which `bag` holds a value.
pub open spec fn first_recognized_from(bag: Map<Seq<char>, Raw>, from: int) -> Option<BonusKey>
    decreases KEY_COUNT - from,
{
    if from < 0 || from >= KEY_COUNT {
        None
    } else if bag.dom().contains(key_name(recognized_keys()[from])) {
        Some(recognized_keys()[from])
    } else {
        first_recognized_from(bag, from + 1)
    }
}

/// The first recognized key under which `bag` holds a value.
pub open spec fn first_recognized(bag: Map<Seq<char>, Raw>) -> Option<BonusKey> {
    first_recognized_from(bag, 0)
}

/// Whether `v` fits 32 bits.
pub open spec fn fits_i32(v: int) -> bool {
    i32::MIN <= v <= i32::MAX
}

/// The integer to write under a policy, if it can be written.
pub open spec fn signed_integer(policy: Policy, n: i32) -> Option<i32> {
    if policy != Policy::Negate {
        Some(n)
    } else if n == i32::MIN {
        None
    } else {
        Some((-n) as i32)
    }
}

/// The ratio to write under a policy.
pub open spec fn signed_ratio(policy: Policy, r: Decimal) -> Decimal {
    if policy == Policy::Negate {
        Decimal { negative: !r.negative, mantissa: r.mantissa, exponent: r.exponent }
    } else {
        r
    }
}

/// What an integer bonus does to a record: the record after it, and
/// whether the bonus counts as found.
///
/// A bonus to all stats is added to each of the three, and counts for
/// nothing where it is zero. Every other bonus replaces what its field held.
pub open spec fn with_integer(key: BonusKey, n: i32, item: ItemView) -> Result<
    (ItemView, bool),
    FeedError,
> {
    match key {
        BonusKey::Strength => Ok((ItemView { strength: n, ..item }, true)),
        BonusKey::Agility => Ok((ItemView { agility: n, ..item }, true)),
        BonusKey::Intellect => Ok((ItemView { intellect: n, ..item }, true)),
        BonusKey::AllStats => if n == 0 {
            Ok((item, false))
        } else if fits_i32(item.strength + n) && fits_i32(item.agility + n) && fits_i32(
            item.intellect + n,
        ) {
            Ok(
                (
                    ItemView {
                        strength: (item.strength + n) as i32,
                        agility: (item.agility + n) as i32,
                        intellect: (item.intellect + n) as i32,
                        ..item
                    },
                    true,
                ),
            )
        } else {
            Err(FeedError::OutOfRange)
        },
        BonusKey::Damage => Ok((ItemView { damage: n, ..item }, true)),
        BonusKey::DamageMelee => Ok((ItemView { damage_melee: n, ..item }, true)),
        BonusKey::DamageRanged => Ok((ItemView { damage_ranged: n, ..item }, true)),
        BonusKey::AttackSpeed => Ok((ItemView { attack_speed: n, ..item }, true)),
        BonusKey::ArmorCorruption | BonusKey::Armor => Ok(
            (ItemView { armor_corruption: n, ..item }, true),
        ),
        BonusKey::ChainDamage | BonusKey::ChanceDamage => Ok(
            (ItemView { magic_damage: n, ..item }, true),
        ),
        _ => Ok((item, false)),
    }
}

/// What a ratio bonus does to a record. The chance of a chain or bonus proc
/// has no direction and goes to both chance fields; a bash chance goes to
/// the field of its direction.
pub open spec fn with_ratio(key: BonusKey, r: Decimal, item: ItemView) -> ItemView {
    match key {
        BonusKey::ChainChance | BonusKey::BonusChance => ItemView {
            magic_chance_melee: r,
            magic_chance_ranged: r,
            ..item
        },
        BonusKey::BashChanceMelee => ItemView { magic_chance_melee: r, ..item },
        BonusKey::BashChanceRanged => ItemView { magic_chance_ranged: r, ..item },
        BonusKey::CritMultiplier => ItemView { crit_multiplier: r, ..item },
        BonusKey::CritChance => ItemView { crit_chance: r, ..item },
        _ => item,
    }
}

/// What the value of `key` does to a record under `policy`.
///
/// An ignored key leaves the record alone, whatever its value. Otherwise the
/// value is read as the key's kind of number, which fails on a value that is
/// none, and written with the policy's sign.
pub open spec fn written(key: BonusKey, policy: Policy, value: Raw, item: ItemView) -> Result<
    (ItemView, bool),
    FeedError,
> {
    if policy == Policy::Ignore {
        Ok((item, false))
    } else if is_ratio_key(key) {
        match ratio_of(value) {
            Ok(r) => Ok((with_ratio(key, signed_ratio(policy, r), item), true)),
            Err(e) => Err(e),
        }
    } else {
        match integer_of(value) {
            Ok(n) => match signed_integer(policy, n) {
                Some(m) => with_integer(key, m, item),
                None => Err(FeedError::OutOfRange),
            },
            Err(e) => Err(e),
        }
    }
}

/// What a bag does to the record of the item `identifier`: the value of
/// its first recognized key is written as the rules say; a bag without a
/// recognized key does nothing.
pub open spec fn interpreted(
    rules: Seq<RuleView>,
    identifier: Seq<char>,
    bag: Map<Seq<char>, Raw>,
    item: ItemView,
) -> Result<(ItemView, bool), FeedError> {
    match first_recognized(bag) {
        None => Ok((item, false)),
        Some(key) => written(key, policy_in(rules, identifier, key), bag[key_name(key)], item),
    }
}

/// Whether a call that changes a record in place did what `expected` says:
/// on success the record is the expected one and the flag is returned, on
/// failure the record is as it was.
pub open spec fn carried_out(
    expected: Result<(ItemView, bool), FeedError>,
    before: ItemView,
    after: ItemView,
    returned: Result<bool, FeedError>,
) -> bool {
    match expected {
        Ok((record, found)) => returned == Ok::<bool, FeedError>(found) && after == record,
        Err(e) => returned == Err::<bool, FeedError>(e) && after == before,
    }
}

/// Writes an integer bonus into the record.
fn write_integer(key: BonusKey, n: i32, item: &mut Item) -> (r: Result<bool, FeedError>)
    ensures
        carried_out(with_integer(key, n, old(item)@), old(item)@, final(item)@, r),
{
    match key {
        BonusKey::Strength => {
            item.strength = n;
        },
        BonusKey::Agility => {
            item.agility = n;
        },
        BonusKey::Intellect => {
            item.intellect = n;
        },
        BonusKey::AllStats => {
            if n == 0 {
                return Ok(false);
            }
            let strength = item.strength.checked_add(n);
            let agility = item.agility.checked_add(n);
            let intellect = item.intellect.checked_add(n);
            match (strength, agility, intellect) {
                (Some(s), Some(a), Some(i)) => {
                    item.strength = s;
                    item.agility = a;
                    item.intellect = i;
                },
                _ => {
                    return Err(FeedError::OutOfRange);
                },
            }
        },
        BonusKey::Damage => {
            item.damage = n;
        },
        BonusKey::DamageMelee => {
            item.damage_melee = n;
        },
        BonusKey::DamageRanged => {
            item.damage_ranged = n;
        },
        BonusKey::AttackSpeed => {
            item.attack_speed = n;
        },
        BonusKey::ArmorCorruption | BonusKey::Armor => {
            item.armor_corruption = n;
        },
        BonusKey::ChainDamage | BonusKey::ChanceDamage => {
            item.magic_damage = n;
        },
        _ => {
            return Ok(false);
        },
    }
    Ok(true)
}

/// Writes a ratio bonus into the record.
fn write_ratio(key: BonusKey, r: Decimal, item: &mut Item)
    ensures
        final(item)@ == with_ratio(key, r, old(item)@),
{
    match key {
        BonusKey::ChainChance | BonusKey::BonusChance => {
            item.magic_chance_melee = r;
            item.magic_chance_ranged = r;
        },
        BonusKey::BashChanceMelee => {
            item.magic_chance_melee = r;
        },
        BonusKey::BashChanceRanged => {
            item.magic_chance_ranged = r;
        },
        BonusKey::CritMultiplier => {
            item.crit_multiplier = r;
        },
        BonusKey::CritChance => {
            item.crit_chance = r;
        },
        _ => {},
    }
}

/// Writes the value found under `key` into the record, as `policy` says.
/// Returns whether the key counts as found.
pub fn write_bonus(key: BonusKey, policy: Policy, value: &RawValue, item: &mut Item) -> (r: Result<
    bool,
    FeedError,
>)
    ensures
        carried_out(written(key, policy, value@, old(item)@), old(item)@, final(item)@, r),
{
    if policy == Policy::Ignore {
        return Ok(false);
    }
    if key.is_ratio() {
        match value.to_ratio() {
            Ok(ratio) => {
                let signed = if policy == Policy::Negate {
                    Decimal {
                        negative: !ratio.negative,
                        mantissa: ratio.mantissa,
                        exponent: ratio.exponent,
                    }
                } else {
                    ratio
                };
                write_ratio(key, signed, item);
                Ok(true)
            },
            Err(e) => Err(e),
        }
    } else {
        match value.to_integer() {
            Ok(n) => {
                if policy == Policy::Negate {
                    if n == i32::MIN {
                        Err(FeedError::OutOfRange)
                    } else {
                        write_integer(key, -n, item)
                    }
                } else {
                    write_integer(key, n, item)
                }
            },
            Err(e) => Err(e),
        }
    }
}

/// Interprets one bag of the item `identifier`: finds the bag's first
/// recognized key and writes its value into the record as the rules say.
/// Returns whether a bonus was found. On an error the record is as it was.
pub fn interpret_bag(rules: &RuleSet, identifier: &str, bag: &AttributeBag, item: &mut Item) -> (r:
    Result<bool, FeedError>)
    ensures
        carried_out(
            interpreted(rules@, identifier@, bag@, old(item)@),
            old(item)@,
            final(item)@,
            r,
        ),
{
    let mut i: usize = 0;
    while i < KEY_COUNT
        invariant
            i <= KEY_COUNT,
            first_recognized(bag@) == first_recognized_from(bag@, i as int),
            *item == *old(item),
        decreases KEY_COUNT - i,
    {
        match BonusKey::at(i) {
            None => {},
            Some(key) => {
                match bag.get(key.name()) {
                    None => {},
                    Some(value) => {
                        let policy = rules.policy(identifier, key);
                        return write_bonus(key, policy, value, item);
                    },
                }
            },
        }
        i += 1;
    }
    Ok(false)
}

} // verus!
