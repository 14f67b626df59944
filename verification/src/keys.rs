//! The bonus keys that the normalizer knows, in the order in which a bag is
//! searched for them.

use vstd::prelude::*;

verus! {

/// A recognized bonus key.
#[derive(Clone, Copy, Debug, PartialEq, Eq, Structural)]
pub enum BonusKey {
    Strength,
    Agility,
    Intellect,
    AllStats,
    Damage,
    DamageMelee,
    DamageRanged,
    AttackSpeed,
    ArmorCorruption,
    Armor,
    ChainDamage,
    ChanceDamage,
    ChainChance,
    BonusChance,
    BashChanceMelee,
    BashChanceRanged,
    CritMultiplier,
    CritChance,
}

/// How many keys are recognized.
pub const KEY_COUNT: usize = 18;

/// The recognized keys, first to last in the order of the search.
pub open spec fn recognized_keys() -> Seq<BonusKey> {
    seq![
        BonusKey::Strength,
        BonusKey::Agility,
        BonusKey::Intellect,
        BonusKey::AllStats,
        BonusKey::Damage,
        BonusKey::DamageMelee,
        BonusKey::DamageRanged,
        BonusKey::AttackSpeed,
        BonusKey::ArmorCorruption,
        BonusKey::Armor,
        BonusKey::ChainDamage,
        BonusKey::ChanceDamage,
        BonusKey::ChainChance,
        BonusKey::BonusChance,
        BonusKey::BashChanceMelee,
        BonusKey::BashChanceRanged,
        BonusKey::CritMultiplier,
        BonusKey::CritChance,
    ]
}

/// The name under which the feed writes a key.
pub open spec fn key_name(key: BonusKey) -> Seq<char> {
    match key {
        BonusKey::Strength => "bonus_strength"@,
        BonusKey::Agility => "bonus_agility"@,
        BonusKey::Intellect => "bonus_intellect"@,
        BonusKey::AllStats => "bonus_all_stats"@,
        BonusKey::Damage => "bonus_damage"@,
        BonusKey::DamageMelee => "bonus_damage_melee"@,
        BonusKey::DamageRanged => "bonus_damage_range"@,
        BonusKey::AttackSpeed => "bonus_attack_speed"@,
        BonusKey::ArmorCorruption => "corruption_armor"@,
        BonusKey::Armor => "armor"@,
        BonusKey::ChainDamage => "chain_damage"@,
        BonusKey::ChanceDamage => "bonus_chance_damage"@,
        BonusKey::ChainChance => "chain_chance"@,
        BonusKey::BonusChance => "bonus_chance"@,
        BonusKey::BashChanceMelee => "bash_chance_melee"@,
        BonusKey::BashChanceRanged => "bash_chance_ranged"@,
        BonusKey::CritMultiplier => "crit_multiplier"@,
        BonusKey::CritChance => "crit_chance"@,
    }
}

/// Whether the key's value is a percentage, stored as a ratio; the other
/// keys hold integers.
pub open spec fn is_ratio_key(key: BonusKey) -> bool {
    match key {
        BonusKey::ChainChance
        | BonusKey::BonusChance
        | BonusKey::BashChanceMelee
        | BonusKey::BashChanceRanged
        | BonusKey::CritMultiplier
        | BonusKey::CritChance => true,
        _ => false,
    }
}

impl BonusKey {
    /// The name under which the feed writes this key.
    pub fn name(self) -> (name: &'static str)
        ensures
            name@ == key_name(self),
    {
        match self {
            BonusKey::Strength => "bonus_strength",
            BonusKey::Agility => "bonus_agility",
            BonusKey::Intellect => "bonus_intellect",
            BonusKey::AllStats => "bonus_all_stats",
            BonusKey::Damage => "bonus_damage",
            BonusKey::DamageMelee => "bonus_damage_melee",
            BonusKey::DamageRanged => "bonus_damage_range",
            BonusKey::AttackSpeed => "bonus_attack_speed",
            BonusKey::ArmorCorruption => "corruption_armor",
            BonusKey::Armor => "armor",
            BonusKey::ChainDamage => "chain_damage",
            BonusKey::ChanceDamage => "bonus_chance_damage",
            BonusKey::ChainChance => "chain_chance",
            BonusKey::BonusChance => "bonus_chance",
            BonusKey::BashChanceMelee => "bash_chance_melee",
            BonusKey::BashChanceRanged => "bash_chance_ranged",
            BonusKey::CritMultiplier => "crit_multiplier",
            BonusKey::CritChance => "crit_chance",
        }
    }

    /// Whether this key's value is a percentage.
    pub fn is_ratio(self) -> (ratio: bool)
        ensures
            ratio == is_ratio_key(self),
    {
        match self {
            BonusKey::ChainChance
            | BonusKey::BonusChance
            | BonusKey::BashChanceMelee
            | BonusKey::BashChanceRanged
            | BonusKey::CritMultiplier
            | BonusKey::CritChance => true,
            _ => false,
        }
    }

    /// The key at place `index` of the search order, if there is one.
    pub fn at(index: usize) -> (key: Option<BonusKey>)
        ensures
            key == if index < KEY_COUNT {
                Some(recognized_keys()[index as int])
            } else {
                None
            },
    {
        match index {
            0 => Some(BonusKey::Strength),
            1 => Some(BonusKey::Agility),
            2 => Some(BonusKey::Intellect),
            3 => Some(BonusKey::AllStats),
            4 => Some(BonusKey::Damage),
            5 => Some(BonusKey::DamageMelee),
            6 => Some(BonusKey::DamageRanged),
            7 => Some(BonusKey::AttackSpeed),
            8 => Some(BonusKey::ArmorCorruption),
            9 => Some(BonusKey::Armor),
            10 => Some(BonusKey::ChainDamage),
            11 => Some(BonusKey::ChanceDamage),
            12 => Some(BonusKey::ChainChance),
            13 => Some(BonusKey::BonusChance),
            14 => Some(BonusKey::BashChanceMelee),
            15 => Some(BonusKey::BashChanceRanged),
            16 => Some(BonusKey::CritMultiplier),
            17 => Some(BonusKey::CritChance),
            _ => None,
        }
    }
}

} // verus!
