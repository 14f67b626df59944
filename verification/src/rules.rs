//! The exceptions that single items make to the meaning of a bonus key.
//!
//! The feed uses one key for passive bonuses and for effects that an item
//! only has while an ability is active, and one item writes its armor
//! corruption under a key that means something else everywhere else. What to
//! do with a key on a given item is written down here as a table of rules,
//! which the interpreter consults and never hard-codes.

use crate::keys::BonusKey;
use crate::text::same_text;
use vstd::prelude::*;

verus! {

/// What to do with the value of a key.
#[derive(Clone, Copy, Debug, PartialEq, Eq, Structural)]
pub enum Policy {
    /// Write the value.
    Apply,
    /// Leave the record as it is; the key counts as not found.
    Ignore,
    /// Write the value with its sign turned.
    Negate,
}

/// One line of the table: the policy for a key on one item, or on every
/// item where `item` is `None`.
#[derive(Clone, Debug, PartialEq, Eq)]
pub struct Rule {
    pub item: Option<String>,
    pub key: BonusKey,
    pub policy: Policy,
}

/// A [`Rule`] with its item as a sequence of characters.
pub struct RuleView {
    pub item: Option<Seq<char>>,
    pub key: BonusKey,
    pub policy: Policy,
}

impl View for Rule {
    type V = RuleView;

    open spec fn view(&self) -> RuleView {
        RuleView {
            item: match self.item {
                Some(name) => Some(name@),
                None => None,
            },
            key: self.key,
            policy: self.policy,
        }
    }
}

/// A table of rules. Of the rules that speak of an item and a key, the first
/// decides; where none does, the value is written.
#[derive(Clone, Debug, PartialEq, Eq)]
pub struct RuleSet {
    pub rules: Vec<Rule>,
}

impl View for RuleSet {
    type V = Seq<RuleView>;

    open spec fn view(&self) -> Seq<RuleView> {
        self.rules@.map_values(|rule: Rule| rule@)
    }
}

/// Whether `rule` speaks of `key` on the item `item`.
pub open spec fn rule_covers(rule: RuleView, item: Seq<char>, key: BonusKey) -> bool {
    rule.key == key && (rule.item is None || rule.item == Some(item))
}

/// The policy that the rules from place `from` on give to `key` on `item`.
pub open spec fn policy_from(rules: Seq<RuleView>, from: int, item: Seq<char>, key: BonusKey)
    -> Policy
    decreases rules.len() - from,
{
    if from < 0 || from >= rules.len() {
        Policy::Apply
    } else if rule_covers(rules[from], item, key) {
        rules[from].policy
    } else {
        policy_from(rules, from + 1, item, key)
    }
}

/// The policy that a table gives to `key` on `item`.
pub open spec fn policy_in(rules: Seq<RuleView>, item: Seq<char>, key: BonusKey) -> Policy {
    policy_from(rules, 0, item, key)
}

/// The rule that `key` is to be treated by `policy` on the item `item`.
pub open spec fn rule_for(item: Seq<char>, key: BonusKey, policy: Policy) -> RuleView {
    RuleView { item: Some(item), key, policy }
}

/// The table of the known exceptions.
///
/// The damage of the enchanted quiver, the attack speed of the hurricane
/// pike and the critical hits of the bloodthorn belong to an active ability
/// and are left out. The key `armor` is the armor corruption of the orb of
/// corrosion, written as a loss; on every other item it is left out.
pub open spec fn standard_rules() -> Seq<RuleView> {
    seq![
        rule_for("item_enchanted_quiver"@, BonusKey::Damage, Policy::Ignore),
        rule_for("item_hurricane_pike"@, BonusKey::AttackSpeed, Policy::Ignore),
        rule_for("item_bloodthorn"@, BonusKey::CritMultiplier, Policy::Ignore),
        rule_for("item_bloodthorn"@, BonusKey::CritChance, Policy::Ignore),
        rule_for("item_orb_of_corrosion"@, BonusKey::Armor, Policy::Negate),
        RuleView { item: None, key: BonusKey::Armor, policy: Policy::Ignore },
    ]
}

impl RuleSet {
    /// The empty table, under which every value is written.
    pub fn new() -> (set: RuleSet)
        ensures
            set@ == Seq::<RuleView>::empty(),
    {
        let set = RuleSet { rules: Vec::new() };
        assert(set@ =~= Seq::<RuleView>::empty());
        set
    }

    /// Adds a rule behind those that are there.
    pub fn add(&mut self, rule: Rule)
        ensures
            final(self)@ == old(self)@.push(rule@),
    {
        self.rules.push(rule);
        assert(self@ =~= old(self)@.push(rule@));
    }

    /// The table of the known exceptions.
    pub fn standard() -> (set: RuleSet)
        ensures
            set@ == standard_rules(),
    {
        let mut set = RuleSet::new();
        set.add(
            Rule {
                item: Some("item_enchanted_quiver".to_string()),
                key: BonusKey::Damage,
                policy: Policy::Ignore,
            },
        );
        set.add(
            Rule {
                item: Some("item_hurricane_pike".to_string()),
                key: BonusKey::AttackSpeed,
                policy: Policy::Ignore,
            },
        );
        set.add(
            Rule {
                item: Some("item_bloodthorn".to_string()),
                key: BonusKey::CritMultiplier,
                policy: Policy::Ignore,
            },
        );
        set.add(
            Rule {
                item: Some("item_bloodthorn".to_string()),
                key: BonusKey::CritChance,
                policy: Policy::Ignore,
            },
        );
        set.add(
            Rule {
                item: Some("item_orb_of_corrosion".to_string()),
                key: BonusKey::Armor,
                policy: Policy::Negate,
            },
        );
        set.add(Rule { item: None, key: BonusKey::Armor, policy: Policy::Ignore });
        assert(set@ =~= standard_rules());
        set
    }

    /// The policy for `key` on the item `item`.
    pub fn policy(&self, item: &str, key: BonusKey) -> (policy: Policy)
        ensures
            policy == policy_in(self@, item@, key),
    {
        let mut i: usize = 0;
        while i < self.rules.len()
            invariant
                i <= self.rules.len(),
                policy_in(self@, item@, key) == policy_from(self@, i as int, item@, key),
            decreases self.rules.len() - i,
        {
            let rule = &self.rules[i];
            assert(self@[i as int] == rule@);
            if rule.key == key {
                let covers: bool = match &rule.item {
                    None => true,
                    Some(name) => same_text(name.as_str(), item),
                };
                if covers {
                    return rule.policy;
                }
            }
            i += 1;
        }
        Policy::Apply
    }
}

} // verus!
