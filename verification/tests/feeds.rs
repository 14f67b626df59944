use dota_data::decimal::Decimal;
use dota_data::error::FeedError;
use dota_data::document::{read_heroes, read_items, read_names};
use dota_data::feed::{get_heroes_data, get_item_stats, get_real_item_names};
use dota_data::json::parse_json;
use dota_data::normalize::RawItemDefinition;
use dota_data::coerce::RawValue;
use dota_data::hero::{normalize_hero, normalize_heroes, read_number, read_text, RawHero, BASE_ATTACK_SPEED};
use dota_data::item::Item;
use dota_data::names::{resolve_display_names, DisplayNameIndex, NameEntry, PREFIX_LENGTH};
use dota_data::normalize::BagList;

fn read_item_feed(text: &str) -> Result<Vec<RawItemDefinition>, FeedError> {
    match parse_json(text) {
        Some(document) => read_items(&document),
        None => Err(FeedError::MalformedInput),
    }
}

fn read_name_feed(text: &str) -> Result<DisplayNameIndex, FeedError> {
    match parse_json(text) {
        Some(document) => read_names(&document),
        None => Err(FeedError::MalformedInput),
    }
}

fn read_hero_feed(text: &str) -> Result<Vec<RawHero>, FeedError> {
    match parse_json(text) {
        Some(document) => read_heroes(&document),
        None => Err(FeedError::MalformedInput),
    }
}

fn ratio(d: Decimal) -> f64 {
    let sign = if d.negative { "-" } else { "" };
    format!("{}{}e{}", sign, d.mantissa, d.exponent).parse::<f64>().unwrap()
}

const ITEMS: &str = r#"{
  "DOTAAbilities": {
    "Version": "1",
    "item_orb_of_corrosion": {
      "ItemCost": "925",
      "AbilitySpecial": [
        {"var_type": "FIELD_INTEGER", "armor": 3},
        {"var_type": "FIELD_INTEGER", "bonus_damage": "5"}
      ]
    },
    "item_blink": {
      "ItemCost": "2250",
      "AbilitySpecial": [
        {"var_type": "FIELD_INTEGER", "blink_range": "1200"}
      ]
    },
    "item_old_thing": {
      "IsObsolete": "1",
      "ItemCost": "never",
      "AbilitySpecial": 7
    },
    "item_javelin": {
      "ItemCost": "",
      "ItemIsNeutralDrop": "1",
      "AbilitySpecial": [
        {"bonus_chance": "25"},
        {"bonus_chance_damage": 70.9},
        {"crit_chance": 12.5},
        {"crit_multiplier": 175}
      ]
    },
    "item_platemail": {
      "ItemCost": "1400",
      "ItemIsNeutralDrop": "0",
      "AbilitySpecial": [
        {"armor": "10"}
      ]
    }
  }
}"#;

#[test]
fn item_feed_is_read_in_document_order() {
    let raws = read_item_feed(ITEMS).unwrap();
    let names: Vec<&str> = raws.iter().map(|raw| raw.identifier.as_str()).collect();
    assert_eq!(
        names,
        vec!["item_blink", "item_javelin", "item_old_thing", "item_orb_of_corrosion", "item_platemail"]
    );
}

#[test]
fn item_feed_keeps_values_as_encoded() {
    let raws = read_item_feed(ITEMS).unwrap();
    let javelin = &raws[1];
    assert_eq!(javelin.obsolete, None);
    assert_eq!(javelin.cost, Some(RawValue::Text(String::new())));
    assert_eq!(javelin.neutral_drop, Some(RawValue::Text("1".to_string())));
    match &javelin.bags {
        BagList::Bags(bags) => {
            assert_eq!(bags.len(), 4);
            assert_eq!(bags[0].get("bonus_chance"), Some(&RawValue::Text("25".to_string())));
            assert_eq!(
                bags[1].get("bonus_chance_damage"),
                Some(&RawValue::Decimal(Decimal { negative: false, mantissa: 709, exponent: -1 }))
            );
            assert_eq!(bags[3].get("crit_multiplier"), Some(&RawValue::Integer(175)));
            assert_eq!(bags[3].get("crit_chance"), None);
        },
        BagList::Malformed => panic!("bags expected"),
    }
    let old = &raws[2];
    assert_eq!(old.obsolete, Some(RawValue::Text("1".to_string())));
    assert_eq!(old.bags, BagList::Malformed);
}

#[test]
fn item_stats_from_json_text() {
    let items = get_item_stats(ITEMS, false).unwrap();
    let names: Vec<&str> = items.iter().map(|item| item.name.as_str()).collect();
    assert_eq!(names, vec!["item_blink", "item_javelin", "item_orb_of_corrosion", "item_platemail"]);

    let blink = &items[0];
    assert!(blink.is_useless_item);
    assert_eq!(blink.cost, 2250);

    let javelin = &items[1];
    assert!(!javelin.is_useless_item);
    assert!(javelin.is_neutral_item);
    assert_eq!(javelin.cost, 0);
    assert_eq!(ratio(javelin.magic_chance_melee), 0.25);
    assert_eq!(ratio(javelin.magic_chance_ranged), 0.25);
    assert_eq!(javelin.magic_damage, 70);
    assert_eq!(ratio(javelin.crit_chance), 0.125);
    assert_eq!(ratio(javelin.crit_multiplier), 1.75);

    let orb = &items[2];
    assert_eq!(orb.armor_corruption, -3);
    assert_eq!(orb.damage, 5);
    assert_eq!(orb.cost, 925);
    assert!(!orb.is_useless_item);

    let platemail = &items[3];
    assert_eq!(platemail.armor_corruption, 0);
    assert!(platemail.is_useless_item);
    assert!(!platemail.is_neutral_item);
    assert_eq!(platemail.cost, 1400);
}

#[test]
fn useless_items_are_dropped_on_request() {
    let items = get_item_stats(ITEMS, true).unwrap();
    let names: Vec<&str> = items.iter().map(|item| item.name.as_str()).collect();
    assert_eq!(names, vec!["item_javelin", "item_orb_of_corrosion"]);
}

#[test]
fn rerunning_on_the_same_text_gives_the_same_table() {
    assert_eq!(get_item_stats(ITEMS, false), get_item_stats(ITEMS, false));
    assert_eq!(get_item_stats(ITEMS, true), get_item_stats(ITEMS, true));
    let copy = ITEMS.to_string();
    assert_eq!(get_item_stats(&copy, true), get_item_stats(ITEMS, true));
}

#[test]
fn version_marker_is_no_item() {
    let items = get_item_stats(r#"{"DOTAAbilities": {"Version": "1"}}"#, false).unwrap();
    assert!(items.is_empty());
    let items = get_item_stats(r#"{"DOTAAbilities": {"Version": {"bonus_damage": 1}, "version": {}}}"#, false).unwrap();
    assert_eq!(items.len(), 1);
    assert_eq!(items[0].name, "version");
}

#[test]
fn text_that_is_no_item_document_is_malformed() {
    for text in [
        "",
        "not json",
        "[]",
        "12",
        "{}",
        r#"{"Abilities": {}}"#,
        r#"{"DOTAAbilities": []}"#,
        r#"{"DOTAAbilities": "x"}"#,
        r#"{"DOTAAbilities": {}} trailing"#,
    ] {
        assert_eq!(get_item_stats(text, false), Err(FeedError::MalformedInput), "{:?}", text);
        assert_eq!(read_item_feed(text), Err(FeedError::MalformedInput), "{:?}", text);
    }
}

#[test]
fn item_entry_that_is_no_object_is_malformed() {
    let text = r#"{"DOTAAbilities": {"item_a": 5}}"#;
    let raws = read_item_feed(text).unwrap();
    assert_eq!(raws.len(), 1);
    assert_eq!(raws[0].bags, BagList::Malformed);
    assert_eq!(get_item_stats(text, false), Err(FeedError::MalformedInput));
}

#[test]
fn cost_that_is_a_json_number_is_malformed() {
    let text = r#"{"DOTAAbilities": {"item_a": {"ItemCost": 5}}}"#;
    assert_eq!(get_item_stats(text, false), Err(FeedError::MalformedInput));
}

#[test]
fn ability_block_must_be_an_array_of_objects() {
    for block in ["{}", "\"x\"", "[1]", "[{}, []]", "null", "[null]"] {
        let text = format!(r#"{{"DOTAAbilities": {{"item_a": {{"AbilitySpecial": {}}}}}}}"#, block);
        assert_eq!(get_item_stats(&text, false), Err(FeedError::MalformedInput), "{}", block);
    }
    let text = r#"{"DOTAAbilities": {"item_a": {"AbilitySpecial": []}}}"#;
    assert_eq!(get_item_stats(text, false).unwrap().len(), 1);
}

#[test]
fn json_values_of_other_kinds_under_a_recognized_key_are_malformed() {
    for value in ["true", "null", "[]", "{}"] {
        let text = format!(
            r#"{{"DOTAAbilities": {{"item_a": {{"AbilitySpecial": [{{"bonus_damage": {}}}]}}}}}}"#,
            value
        );
        assert_eq!(get_item_stats(&text, false), Err(FeedError::MalformedInput), "{}", value);
        let text = format!(
            r#"{{"DOTAAbilities": {{"item_a": {{"AbilitySpecial": [{{"other": {}}}]}}}}}}"#,
            value
        );
        assert_eq!(get_item_stats(&text, false).unwrap().len(), 1, "{}", value);
    }
}

#[test]
fn json_numbers_of_every_form() {
    let text = r#"{"DOTAAbilities": {"item_a": {"AbilitySpecial": [
        {"bonus_damage": 24.9},
        {"bonus_strength": -7},
        {"bonus_agility": 1e2},
        {"bonus_intellect": 18446744073709551615},
        {"crit_chance": 2.5e1},
        {"bash_chance_melee": 10},
        {"bash_chance_ranged": 0.5}
    ]}}}"#;
    let items = get_item_stats(text, true).unwrap();
    let item = &items[0];
    assert_eq!(item.damage, 24);
    assert_eq!(item.strength, -7);
    assert_eq!(item.agility, 100);
    assert_eq!(item.intellect, i32::MAX);
    assert_eq!(ratio(item.crit_chance), 0.25);
    assert_eq!(ratio(item.magic_chance_melee), 0.1);
    assert_eq!(ratio(item.magic_chance_ranged), 0.005);
}

#[test]
fn duplicate_keys_keep_the_last_value() {
    let text = r#"{"DOTAAbilities": {"item_a": {"ItemCost": "1", "ItemCost": "2",
        "AbilitySpecial": [{"bonus_damage": 1, "bonus_damage": 2}]}}}"#;
    let items = get_item_stats(text, true).unwrap();
    assert_eq!(items[0].cost, 2);
    assert_eq!(items[0].damage, 2);
}

const NAMES: &str = r#"{
  "blink": {"id": 1, "dname": "Blink Dagger", "cost": 2250},
  "javelin": {"id": 2},
  "platemail": 5,
  "orb_of_corrosion": {"dname": 9}
}"#;

fn named(names: &[&str]) -> Vec<Item> {
    names.iter().map(|name| Item::named(name.to_string())).collect()
}

#[test]
fn prefix_length_is_that_of_the_category() {
    assert_eq!(PREFIX_LENGTH, "item_".len());
}

#[test]
fn display_name_replaces_the_identifier() {
    let mut index = DisplayNameIndex::new();
    index.insert("blink".to_string(), NameEntry::DisplayName("Blink Dagger".to_string()));
    let mut items = named(&["item_blink"]);
    assert_eq!(resolve_display_names(&mut items, &index), Ok(()));
    assert_eq!(items[0].name, "Blink Dagger");
}

#[test]
fn item_without_an_index_entry_keeps_its_identifier() {
    let mut index = DisplayNameIndex::new();
    index.insert("blink".to_string(), NameEntry::DisplayName("Blink Dagger".to_string()));
    let mut items = named(&["item_dagon", "item_blink", "item_blinkx", "item_"]);
    assert_eq!(resolve_display_names(&mut items, &index), Ok(()));
    let names: Vec<&str> = items.iter().map(|item| item.name.as_str()).collect();
    assert_eq!(names, vec!["item_dagon", "Blink Dagger", "item_blinkx", "item_"]);
}

#[test]
fn renaming_touches_the_name_only() {
    let mut index = DisplayNameIndex::new();
    index.insert("blink".to_string(), NameEntry::DisplayName("Blink Dagger".to_string()));
    let mut item = Item::named("item_blink".to_string());
    item.cost = 2250;
    item.damage = 3;
    item.is_useless_item = false;
    let mut items = vec![item.clone()];
    assert_eq!(resolve_display_names(&mut items, &index), Ok(()));
    item.name = "Blink Dagger".to_string();
    assert_eq!(items, vec![item]);
}

#[test]
fn entry_without_a_display_name_keeps_the_identifier() {
    let mut index = DisplayNameIndex::new();
    index.insert("javelin".to_string(), NameEntry::NoDisplayName);
    let mut items = named(&["item_javelin"]);
    assert_eq!(resolve_display_names(&mut items, &index), Ok(()));
    assert_eq!(items[0].name, "item_javelin");
}

#[test]
fn name_shorter_than_the_prefix_is_malformed() {
    let mut index = DisplayNameIndex::new();
    index.insert(String::new(), NameEntry::DisplayName("Nothing".to_string()));
    for short in ["", "item", "ab", "é"] {
        let mut items = named(&["item_blink", short]);
        assert_eq!(resolve_display_names(&mut items, &index), Err(FeedError::MalformedInput));
        assert_eq!(items, named(&["item_blink", short]));
        assert_eq!(index.lookup(short), Err(FeedError::MalformedInput));
    }
    let mut items = named(&["abcde"]);
    assert_eq!(resolve_display_names(&mut items, &index), Ok(()));
    assert_eq!(items[0].name, "Nothing");
}

#[test]
fn prefix_is_counted_in_bytes() {
    let mut index = DisplayNameIndex::new();
    index.insert("de".to_string(), NameEntry::DisplayName("Found".to_string()));
    index.insert("e".to_string(), NameEntry::DisplayName("Wrong".to_string()));
    let mut items = named(&["\u{e9}abcde", "abcdede", "ééxde"]);
    assert_eq!(resolve_display_names(&mut items, &index), Ok(()));
    let names: Vec<&str> = items.iter().map(|item| item.name.as_str()).collect();
    assert_eq!(names, vec!["Found", "Found", "Found"]);
}

#[test]
fn prefix_that_ends_inside_a_character_is_malformed() {
    let index = DisplayNameIndex::new();
    for name in ["abcdéf", "ééé", "abc\u{1f600}x"] {
        assert!(name.len() >= PREFIX_LENGTH && !name.is_char_boundary(PREFIX_LENGTH));
        assert_eq!(index.lookup(name), Err(FeedError::MalformedInput));
        let mut items = named(&[name]);
        assert_eq!(resolve_display_names(&mut items, &index), Err(FeedError::MalformedInput));
        assert_eq!(items, named(&[name]));
    }
}

#[test]
fn short_name_is_that_of_the_byte_slice() {
    let mut index = DisplayNameIndex::new();
    for name in ["item_blink", "item_", "abcdefgh", "éabcde", "ééxyz", "abcde\u{1f600}"] {
        index.insert(name[5..].to_string(), NameEntry::DisplayName(format!("<{}>", &name[5..])));
    }
    for name in ["item_blink", "item_", "abcdefgh", "éabcde", "ééxyz", "abcde\u{1f600}"] {
        assert_eq!(index.lookup(name), Ok(Some(format!("<{}>", &name[5..]))), "{:?}", name);
    }
}

#[test]
fn malformed_entry_fails_only_when_looked_up() {
    let mut index = DisplayNameIndex::new();
    index.insert("blink".to_string(), NameEntry::DisplayName("Blink Dagger".to_string()));
    index.insert("platemail".to_string(), NameEntry::Malformed);
    let mut items = named(&["item_blink", "item_dagon"]);
    assert_eq!(resolve_display_names(&mut items, &index), Ok(()));
    let mut items = named(&["item_blink", "item_platemail", "item_dagon"]);
    assert_eq!(resolve_display_names(&mut items, &index), Err(FeedError::MalformedInput));
    assert_eq!(items, named(&["item_blink", "item_platemail", "item_dagon"]));
}

#[test]
fn index_keeps_the_entry_written_last() {
    let mut index = DisplayNameIndex::new();
    assert_eq!(index.get("blink"), None);
    index.insert("blink".to_string(), NameEntry::NoDisplayName);
    index.insert("blink".to_string(), NameEntry::DisplayName("Blink Dagger".to_string()));
    assert_eq!(index.get("blink"), Some(&NameEntry::DisplayName("Blink Dagger".to_string())));
    assert_eq!(index.lookup("item_blink"), Ok(Some("Blink Dagger".to_string())));
    assert_eq!(index.lookup("item_dagon"), Ok(None));
    assert_eq!(index.lookup("blink"), Ok(None));
}

#[test]
fn name_feed_from_json_text() {
    let index = read_name_feed(NAMES).unwrap();
    assert_eq!(index.get("blink"), Some(&NameEntry::DisplayName("Blink Dagger".to_string())));
    assert_eq!(index.get("javelin"), Some(&NameEntry::NoDisplayName));
    assert_eq!(index.get("platemail"), Some(&NameEntry::Malformed));
    assert_eq!(index.get("orb_of_corrosion"), Some(&NameEntry::Malformed));
    assert_eq!(index.get("dagon"), None);
}

#[test]
fn real_item_names_from_json_text() {
    let mut items = named(&["item_blink", "item_javelin", "item_dagon"]);
    assert_eq!(get_real_item_names(&mut items, NAMES), Ok(()));
    let names: Vec<&str> = items.iter().map(|item| item.name.as_str()).collect();
    assert_eq!(names, vec!["Blink Dagger", "item_javelin", "item_dagon"]);
}

#[test]
fn blink_scenario_from_json_text() {
    let mut items = named(&["item_blink"]);
    assert_eq!(get_real_item_names(&mut items, r#"{"blink": {"dname": "Blink Dagger"}}"#), Ok(()));
    assert_eq!(items[0].name, "Blink Dagger");
}

#[test]
fn real_item_names_fail_on_a_malformed_entry_that_is_needed() {
    let mut items = named(&["item_blink", "item_platemail"]);
    assert_eq!(get_real_item_names(&mut items, NAMES), Err(FeedError::MalformedInput));
    assert_eq!(items, named(&["item_blink", "item_platemail"]));
    let mut items = named(&["item_orb_of_corrosion"]);
    assert_eq!(get_real_item_names(&mut items, NAMES), Err(FeedError::MalformedInput));
}

#[test]
fn name_feed_that_is_no_object_is_malformed() {
    for text in ["", "[]", "nope", "3"] {
        assert_eq!(read_name_feed(text), Err(FeedError::MalformedInput));
        let mut items = named(&["item_blink"]);
        assert_eq!(get_real_item_names(&mut items, text), Err(FeedError::MalformedInput));
        assert_eq!(items, named(&["item_blink"]));
    }
}

#[test]
fn whole_pipeline_from_two_feeds() {
    let mut items = get_item_stats(ITEMS, true).unwrap();
    let names = r#"{"javelin": {"dname": "Javelin"}, "blink": {"dname": "Blink Dagger"}}"#;
    assert_eq!(get_real_item_names(&mut items, names), Ok(()));
    let shown: Vec<&str> = items.iter().map(|item| item.name.as_str()).collect();
    assert_eq!(shown, vec!["Javelin", "item_orb_of_corrosion"]);
    assert_eq!(items[0].magic_damage, 70);
}

const HEROES: &str = r#"{
  "1": {"id": 1, "localized_name": "Anti-Mage", "primary_attr": "agi", "attack_type": "Melee", "attack_rate": 1.4},
  "2": {"id": 2, "localized_name": "Axe", "primary_attr": "str", "attack_type": "Melee", "attack_rate": 1.7},
  "10": {"id": 10, "localized_name": "Morphling", "primary_attr": "agi", "attack_type": "Ranged", "attack_rate": 2}
}"#;

#[test]
fn heroes_from_json_text() {
    let heroes = get_heroes_data(HEROES).unwrap();
    let names: Vec<&str> = heroes.iter().map(|hero| hero.name.as_str()).collect();
    assert_eq!(names, vec!["Anti-Mage", "Morphling", "Axe"]);
    assert_eq!(heroes[0].primary_attribute, "agi");
    assert_eq!(heroes[0].attack_type, "Melee");
    assert_eq!(ratio(heroes[0].base_attack_time), 1.4);
    assert_eq!(heroes[0].base_attack_speed, 100);
    assert_eq!(heroes[1].attack_type, "Ranged");
    assert_eq!(ratio(heroes[1].base_attack_time), 2.0);
    assert_eq!(ratio(heroes[2].base_attack_time), 1.7);
    assert_eq!(heroes[2].primary_attribute, "str");
}

#[test]
fn base_attack_speed_is_fixed() {
    assert_eq!(BASE_ATTACK_SPEED, 100);
    let heroes = get_heroes_data(HEROES).unwrap();
    assert!(heroes.iter().all(|hero| hero.base_attack_speed == BASE_ATTACK_SPEED));
}

#[test]
fn hero_feed_is_read_field_for_field() {
    let raws = read_hero_feed(HEROES).unwrap();
    assert_eq!(raws.len(), 3);
    assert_eq!(raws[2].localized_name, Some(RawValue::Text("Axe".to_string())));
    assert_eq!(raws[1].attack_rate, Some(RawValue::Integer(2)));
    assert_eq!(
        raws[0].attack_rate,
        Some(RawValue::Decimal(Decimal { negative: false, mantissa: 14, exponent: -1 }))
    );
}

fn raw_hero() -> RawHero {
    RawHero {
        localized_name: Some(RawValue::Text("Axe".to_string())),
        primary_attr: Some(RawValue::Text("str".to_string())),
        attack_type: Some(RawValue::Text("Melee".to_string())),
        attack_rate: Some(RawValue::Decimal(Decimal { negative: false, mantissa: 17, exponent: -1 })),
    }
}

#[test]
fn hero_is_mapped_field_for_field() {
    let hero = normalize_hero(&raw_hero()).unwrap();
    assert_eq!(hero.name, "Axe");
    assert_eq!(hero.primary_attribute, "str");
    assert_eq!(hero.attack_type, "Melee");
    assert_eq!(hero.base_attack_time, Decimal { negative: false, mantissa: 17, exponent: -1 });
    assert_eq!(hero.base_attack_speed, 100);
}

#[test]
fn every_hero_field_is_required() {
    let mut raw = raw_hero();
    raw.localized_name = None;
    assert_eq!(normalize_hero(&raw), Err(FeedError::MalformedInput));
    let mut raw = raw_hero();
    raw.primary_attr = None;
    assert_eq!(normalize_hero(&raw), Err(FeedError::MalformedInput));
    let mut raw = raw_hero();
    raw.attack_type = Some(RawValue::Integer(1));
    assert_eq!(normalize_hero(&raw), Err(FeedError::MalformedInput));
    let mut raw = raw_hero();
    raw.attack_rate = None;
    assert_eq!(normalize_hero(&raw), Err(FeedError::MalformedInput));
    let mut raw = raw_hero();
    raw.attack_rate = Some(RawValue::Text("1.7".to_string()));
    assert_eq!(normalize_hero(&raw), Err(FeedError::MalformedInput));
    assert_eq!(normalize_heroes(&vec![raw_hero(), raw]), Err(FeedError::MalformedInput));
    assert_eq!(normalize_heroes(&vec![raw_hero(), raw_hero()]).unwrap().len(), 2);
}

#[test]
fn required_fields_one_by_one() {
    assert_eq!(read_text(&Some(RawValue::Text("x".to_string()))), Ok("x".to_string()));
    assert_eq!(read_text(&None), Err(FeedError::MalformedInput));
    assert_eq!(read_text(&Some(RawValue::Other)), Err(FeedError::MalformedInput));
    assert_eq!(read_number(&Some(RawValue::Integer(-2))), Ok(Decimal { negative: true, mantissa: 2, exponent: 0 }));
    assert_eq!(read_number(&None), Err(FeedError::MalformedInput));
    assert_eq!(read_number(&Some(RawValue::Other)), Err(FeedError::MalformedInput));
}

#[test]
fn hero_feed_failures() {
    for text in ["", "[]", "x"] {
        assert_eq!(get_heroes_data(text), Err(FeedError::MalformedInput));
        assert_eq!(read_hero_feed(text), Err(FeedError::MalformedInput));
    }
    assert_eq!(get_heroes_data(r#"{"1": 5}"#), Err(FeedError::MalformedInput));
    assert_eq!(
        get_heroes_data(r#"{"1": {"localized_name": "Axe", "primary_attr": "str", "attack_type": "Melee"}}"#),
        Err(FeedError::MalformedInput)
    );
    assert_eq!(
        get_heroes_data(r#"{"1": {"localized_name": "Axe", "primary_attr": "str", "attack_type": "Melee", "attack_rate": "1.7"}}"#),
        Err(FeedError::MalformedInput)
    );
    assert_eq!(get_heroes_data("{}"), Ok(Vec::new()));
}
