//! The hero normalizer: a field-for-field mapping of the hero feed.

use crate::coerce::{Raw, RawValue};
use crate::decimal::{decimal_of_integer, Decimal};
use crate::error::FeedError;
use crate::normalize::optional_view;
use vstd::prelude::*;

verus! {

/// The base attack speed of every hero. The feed does not hold it.
pub const BASE_ATTACK_SPEED: i32 = 100;

/// The flat record of one hero.
#[derive(Clone, Debug, PartialEq, Eq)]
pub struct Hero {
    pub name: String,
    pub primary_attribute: String,
    pub attack_type: String,
    /// The base attack time, in seconds.
    pub base_attack_time: Decimal,
    pub base_attack_speed: i32,
}

/// A [`Hero`] with its texts as sequences of characters.
pub struct HeroView {
    pub name: Seq<char>,
    pub primary_attribute: Seq<char>,
    pub attack_type: Seq<char>,
    pub base_attack_time: Decimal,
    pub base_attack_speed: i32,
}

impl View for Hero {
    type V = HeroView;

    open spec fn view(&self) -> HeroView {
        HeroView {
            name: self.name@,
            primary_attribute: self.primary_attribute@,
            attack_type: self.attack_type@,
            base_attack_time: self.base_attack_time,
            base_attack_speed: self.base_attack_speed,
        }
    }
}

/// One entry of the hero feed, as it was read.
#[derive(Clone, Debug, PartialEq, Eq)]
pub struct RawHero {
    /// The value under `localized_name`, where the entry has one.
    pub localized_name: Option<RawValue>,
    /// The value under `primary_attr`, where the entry has one.
    pub primary_attr: Option<RawValue>,
    /// The value under `attack_type`, where the entry has one.
    pub attack_type: Option<RawValue>,
    /// The value under `attack_rate`, where the entry has one.
    pub attack_rate: Option<RawValue>,
}

/// A [`RawHero`] over sequences.
pub struct RawHeroView {
    pub localized_name: Option<Raw>,
    pub primary_attr: Option<Raw>,
    pub attack_type: Option<Raw>,
    pub attack_rate: Option<Raw>,
}

impl View for RawHero {
    type V = RawHeroView;

    open spec fn view(&self) -> RawHeroView {
        RawHeroView {
            localized_name: optional_view(self.localized_name),
            primary_attr: optional_view(self.primary_attr),
            attack_type: optional_view(self.attack_type),
            attack_rate: optional_view(self.attack_rate),
        }
    }
}

/// The views of a list of raw heroes.
pub open spec fn raw_hero_views(raws: Seq<RawHero>) -> Seq<RawHeroView> {
    raws.map_values(|raw: RawHero| raw@)
}

/// The views of a list of heroes.
pub open spec fn hero_views(heroes: Seq<Hero>) -> Seq<HeroView> {
    heroes.map_values(|hero: Hero| hero@)
}

/// A required text field: it must be there and be a text.
pub open spec fn required_text(value: Option<Raw>) -> Result<Seq<char>, FeedError> {
    match value {
        Some(Raw::Text(text)) => Ok(text),
        _ => Err(FeedError::MalformedInput),
    }
}

/// A required number field: it must be there and be a JSON number. A text
/// does not count, whatever it writes.
pub open spec fn required_number(value: Option<Raw>) -> Result<Decimal, FeedError> {
    match value {
        Some(Raw::Integer(n)) => Ok(decimal_of_integer(n)),
        Some(Raw::Decimal(d)) => Ok(d),
        _ => Err(FeedError::MalformedInput),
    }
}

/// The record of one raw hero. Every field is required; the fields are
/// read in the order name, primary attribute, attack type, attack rate.
pub open spec fn normalized_hero(raw: RawHeroView) -> Result<HeroView, FeedError> {
    match required_text(raw.localized_name) {
        Err(e) => Err(e),
        Ok(name) => match required_text(raw.primary_attr) {
            Err(e) => Err(e),
            Ok(primary_attribute) => match required_text(raw.attack_type) {
                Err(e) => Err(e),
                Ok(attack_type) => match required_number(raw.attack_rate) {
                    Err(e) => Err(e),
                    Ok(base_attack_time) => Ok(
                        HeroView {
                            name,
                            primary_attribute,
                            attack_type,
                            base_attack_time,
                            base_attack_speed: BASE_ATTACK_SPEED,
                        },
                    ),
                },
            },
        },
    }
}

/// The table of a hero feed: one record for each entry, in the order of
/// the feed. The first entry that fails fails the run.
pub open spec fn normalized_heroes(raws: Seq<RawHeroView>) -> Result<Seq<HeroView>, FeedError>
    decreases raws.len(),
{
    if raws.len() == 0 {
        Ok(Seq::empty())
    } else {
        match normalized_heroes(raws.drop_last()) {
            Err(e) => Err(e),
            Ok(heroes) => match normalized_hero(raws.last()) {
                Err(e) => Err(e),
                Ok(hero) => Ok(heroes.push(hero)),
            },
        }
    }
}

/// Reads a required text field.
pub fn read_text(value: &Option<RawValue>) -> (r: Result<String, FeedError>)
    ensures
        match required_text(optional_view(*value)) {
            Ok(text) => r is Ok && r->Ok_0@ == text,
            Err(e) => r == Err::<String, FeedError>(e),
        },
{
    match value {
        Some(RawValue::Text(text)) => Ok(text.clone()),
        _ => Err(FeedError::MalformedInput),
    }
}

/// Reads a required number field.
pub fn read_number(value: &Option<RawValue>) -> (r: Result<Decimal, FeedError>)
    ensures
        r == required_number(optional_view(*value)),
{
    match value {
        Some(RawValue::Integer(n)) => Ok(Decimal::from_integer(*n)),
        Some(RawValue::Decimal(d)) => Ok(*d),
        _ => Err(FeedError::MalformedInput),
    }
}

/// Normalizes one raw hero.
pub fn normalize_hero(raw: &RawHero) -> (r: Result<Hero, FeedError>)
    ensures
        match normalized_hero(raw@) {
            Ok(hero) => r is Ok && r->Ok_0@ == hero,
            Err(e) => r is Err && r->Err_0 == e,
        },
{
    let name = match read_text(&raw.localized_name) {
        Err(e) => {
            return Err(e);
        },
        Ok(text) => text,
    };
    let primary_attribute = match read_text(&raw.primary_attr) {
        Err(e) => {
            return Err(e);
        },
        Ok(text) => text,
    };
    let attack_type = match read_text(&raw.attack_type) {
        Err(e) => {
            return Err(e);
        },
        Ok(text) => text,
    };
    let base_attack_time = match read_number(&raw.attack_rate) {
        Err(e) => {
            return Err(e);
        },
        Ok(number) => number,
    };
    Ok(
        Hero {
            name,
            primary_attribute,
            attack_type,
            base_attack_time,
            base_attack_speed: BASE_ATTACK_SPEED,
        },
    )
}

/// Once the entries up to some place have failed, the whole feed fails the
/// same.
proof fn lemma_hero_failure_stays(raws: Seq<RawHeroView>, upto: int)
    requires
        0 <= upto <= raws.len(),
        normalized_heroes(raws.take(upto)) is Err,
    ensures
        normalized_heroes(raws) == normalized_heroes(raws.take(upto)),
    decreases raws.len() - upto,
{
    if upto < raws.len() {
        assert(raws.take(upto + 1).drop_last() =~= raws.take(upto));
        lemma_hero_failure_stays(raws, upto + 1);
    } else {
        assert(raws.take(upto) =~= raws);
    }
}

/// Normalizes a hero feed.
pub fn normalize_heroes(raws: &Vec<RawHero>) -> (r: Result<Vec<Hero>, FeedError>)
    ensures
        match normalized_heroes(raw_hero_views(raws@)) {
            Ok(heroes) => r is Ok && hero_views(r->Ok_0@) == heroes,
            Err(e) => r is Err && r->Err_0 == e,
        },
{
    let ghost all = raw_hero_views(raws@);
    let mut heroes: Vec<Hero> = Vec::new();
    let mut i: usize = 0;
    assert(all.take(0) =~= Seq::empty());
    assert(hero_views(heroes@) =~= Seq::empty());
    while i < raws.len()
        invariant
            i <= raws.len(),
            all == raw_hero_views(raws@),
            normalized_heroes(all.take(i as int)) == Ok::<Seq<HeroView>, FeedError>(
                hero_views(heroes@),
            ),
        decreases raws.len() - i,
    {
        proof {
            assert(all.take(i + 1).drop_last() =~= all.take(i as int));
            assert(all.take(i + 1).last() == raws@[i as int]@);
        }
        match normalize_hero(&raws[i]) {
            Err(e) => {
                proof {
                    lemma_hero_failure_stays(all, i + 1);
                }
                return Err(e);
            },
            Ok(hero) => {
                let ghost before = heroes@;
                heroes.push(hero);
                assert(hero_views(heroes@) =~= hero_views(before).push(hero@));
            },
        }
        i += 1;
    }
    assert(all.take(i as int) =~= all);
    Ok(heroes)
}

} // verus!
