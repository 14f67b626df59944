use dota_data::coerce::parse_integer;
use dota_data::decimal::{parse_decimal, Decimal};
use dota_data::feed::{get_heroes_data, get_item_stats};
use dota_data::hero::Hero;
use dota_data::item::Item;
use dota_data::render::{bool_to_text, decimal_to_text, integer_to_text, PLAIN_LIMIT};
use dota_data::row::{hero_row, hero_rows, item_row, item_rows};
use dota_data::error::FeedError;
use dota_data::wiki::{
    category_name, get_item_names, get_url_for_item, item_entries, item_entry, overview_names,
    second_anchor, ItemEntry,
};

fn decimal(negative: bool, mantissa: u128, exponent: i64) -> Decimal {
    Decimal { negative, mantissa, exponent }
}

#[test]
fn integer_text_is_that_of_to_string() {
    for n in [0, 1, -1, 9, 10, 11, 99, 100, 1400, -1400, 2147483647, -2147483648, 1000000] {
        assert_eq!(integer_to_text(n), n.to_string());
    }
}

#[test]
fn integer_text_reads_back() {
    for n in [0, 7, -7, 10, 1234567890, i32::MAX, i32::MIN] {
        assert_eq!(parse_integer(&integer_to_text(n)), Some(n));
    }
}

#[test]
fn truth_values_as_text() {
    assert_eq!(bool_to_text(true), "true");
    assert_eq!(bool_to_text(false), "false");
}

#[test]
fn decimal_text_of_ratios() {
    assert_eq!(decimal_to_text(decimal(false, 25, -2)), "0.25");
    assert_eq!(decimal_to_text(decimal(false, 125, -3)), "0.125");
    assert_eq!(decimal_to_text(decimal(false, 175, -2)), "1.75");
    assert_eq!(decimal_to_text(decimal(false, 14, -1)), "1.4");
    assert_eq!(decimal_to_text(decimal(true, 3, -1)), "-0.3");
    assert_eq!(decimal_to_text(decimal(false, 5, -3)), "0.005");
    assert_eq!(decimal_to_text(decimal(false, 12345, -2)), "123.45");
}

#[test]
fn decimal_text_of_whole_numbers() {
    assert_eq!(decimal_to_text(decimal(false, 1, 0)), "1");
    assert_eq!(decimal_to_text(decimal(false, 0, 0)), "0");
    assert_eq!(decimal_to_text(decimal(true, 12, 0)), "-12");
    assert_eq!(decimal_to_text(decimal(false, 12, 2)), "1200");
    assert_eq!(decimal_to_text(decimal(false, u128::MAX, 0)), u128::MAX.to_string());
}

#[test]
fn decimal_text_leaves_needless_zeros_out() {
    assert_eq!(decimal_to_text(decimal(false, 100, -2)), "1");
    assert_eq!(decimal_to_text(decimal(false, 250, -3)), "0.25");
    assert_eq!(decimal_to_text(decimal(false, 1000, -2)), "10");
    assert_eq!(decimal_to_text(decimal(false, 1000, -5)), "0.01");
    assert_eq!(decimal_to_text(decimal(false, 0, -2)), "0");
    assert_eq!(decimal_to_text(decimal(false, 0, 7)), "0");
    assert_eq!(decimal_to_text(decimal(true, 0, -2)), "-0");
    assert_eq!(decimal_to_text(decimal(false, 120, 1)), "1200");
}

#[test]
fn decimal_text_is_that_of_the_float() {
    for text in ["0.25", "1.75", "12.5", "100", "0", "1", "-0.5", "70.9", "0.001", "3"] {
        let d = parse_decimal(text).unwrap();
        let f = text.parse::<f64>().unwrap();
        assert_eq!(decimal_to_text(d), f.to_string(), "{:?}", text);
    }
    for percentage in ["25", "17", "100", "175", "12.5", "0", "33", "140", "5"] {
        let d = parse_decimal(percentage).unwrap().hundredth().unwrap();
        let f = percentage.parse::<f32>().unwrap() / 100.0;
        assert_eq!(decimal_to_text(d), f.to_string(), "{:?}", percentage);
    }
}

#[test]
fn decimal_text_beyond_the_plain_limit() {
    assert_eq!(PLAIN_LIMIT, 50);
    assert_eq!(decimal_to_text(decimal(false, 1, 50)), format!("1{}", "0".repeat(50)));
    assert_eq!(decimal_to_text(decimal(false, 1, 51)), "1e51");
    assert_eq!(decimal_to_text(decimal(false, 1, -50)), format!("0.{}1", "0".repeat(49)));
    assert_eq!(decimal_to_text(decimal(true, 15, -51)), "-15e-51");
    assert_eq!(decimal_to_text(decimal(false, 7, i64::MAX)), "7e9223372036854775807");
    assert_eq!(decimal_to_text(decimal(false, 7, i64::MIN)), "7e-9223372036854775808");
    assert_eq!(decimal_to_text(decimal(false, 1000, -53)), format!("0.{}1", "0".repeat(49)));
}

#[test]
fn decimal_text_reads_back_as_the_same_number() {
    for d in [
        decimal(false, 25, -2),
        decimal(true, 125, -3),
        decimal(false, 7, 3),
        decimal(false, 1, 60),
        decimal(true, 9, -60),
        decimal(false, 0, 0),
        decimal(false, u128::MAX, -10),
    ] {
        let text = decimal_to_text(d);
        let back = parse_decimal(&text).unwrap();
        assert_eq!(back.negative, d.negative, "{:?}", text);
        assert_eq!(decimal_to_text(back), text);
    }
}

#[test]
fn item_row_has_the_columns_in_order() {
    let mut item = Item::named("Javelin".to_string());
    item.cost = 1100;
    item.damage = 1;
    item.damage_melee = 2;
    item.damage_ranged = 3;
    item.attack_speed = 4;
    item.strength = 5;
    item.agility = 6;
    item.intellect = 7;
    item.armor_corruption = -8;
    item.magic_damage = 70;
    item.magic_chance_melee = decimal(false, 25, -2);
    item.magic_chance_ranged = decimal(false, 3, -1);
    item.crit_multiplier = decimal(false, 175, -2);
    item.crit_chance = decimal(false, 125, -3);
    item.is_neutral_item = true;
    item.is_useless_item = false;
    assert_eq!(
        item_row(&item),
        vec![
            "Javelin", "1", "2", "3", "4", "5", "6", "7", "-8", "70", "0.25", "0.3", "1.75", "0.125",
            "1100", "true", "false"
        ]
    );
}

#[test]
fn blank_item_row() {
    assert_eq!(
        item_row(&Item::default()),
        vec![
            "Unset", "0", "0", "0", "0", "0", "0", "0", "0", "0", "0", "0", "1", "0", "0", "false",
            "true"
        ]
    );
}

#[test]
fn item_row_of_a_default_item_with_name_and_cost() {
    let mut item = Item::default();
    item.name = "Blink Dagger".to_string();
    item.cost = 2250;
    assert_eq!(
        item_row(&item),
        vec![
            "Blink Dagger", "0", "0", "0", "0", "0", "0", "0", "0", "0", "0", "0", "1", "0", "2250",
            "false", "true"
        ]
    );
}

#[test]
fn hero_row_has_the_columns_in_order() {
    let hero = Hero {
        name: "Axe".to_string(),
        primary_attribute: "str".to_string(),
        attack_type: "Melee".to_string(),
        base_attack_time: decimal(false, 17, -1),
        base_attack_speed: 100,
    };
    assert_eq!(hero_row(&hero), vec!["Axe", "str", "Melee", "1.7", "100"]);
}

#[test]
fn rows_follow_the_table() {
    let items = get_item_stats(
        r#"{"DOTAAbilities": {"item_b": {"ItemCost": "5", "AbilitySpecial": [{"crit_chance": 30}]},
            "item_a": {"AbilitySpecial": [{"bonus_damage": "9"}]}}}"#,
        true,
    )
    .unwrap();
    let rows = item_rows(&items);
    assert_eq!(rows.len(), 2);
    assert_eq!(rows[0][0], "item_a");
    assert_eq!(rows[0][1], "9");
    assert_eq!(rows[1][0], "item_b");
    assert_eq!(rows[1][13], "0.3");
    assert_eq!(rows[1][14], "5");
    assert_eq!(rows[1][16], "false");
    assert!(rows.iter().all(|row| row.len() == 17));
    assert!(item_rows(&Vec::new()).is_empty());

    let heroes = get_heroes_data(
        r#"{"1": {"localized_name": "Anti-Mage", "primary_attr": "agi", "attack_type": "Melee", "attack_rate": 1.4}}"#,
    )
    .unwrap();
    assert_eq!(hero_rows(&heroes), vec![vec!["Anti-Mage", "agi", "Melee", "1.4", "100"]]);
    assert!(hero_rows(&Vec::new()).is_empty());
}

#[test]
fn page_address_has_underscores_for_spaces() {
    assert_eq!(get_url_for_item("Blink Dagger"), "https://dota2.fandom.com/wiki/Blink_Dagger");
    assert_eq!(get_url_for_item("Javelin"), "https://dota2.fandom.com/wiki/Javelin");
    assert_eq!(get_url_for_item(""), "https://dota2.fandom.com/wiki/");
    assert_eq!(get_url_for_item(" a  b "), "https://dota2.fandom.com/wiki/_a__b_");
    assert_eq!(get_url_for_item("Eul's Scepter of Divinity"), "https://dota2.fandom.com/wiki/Eul's_Scepter_of_Divinity");
    assert_eq!(get_url_for_item("Żółw x"), "https://dota2.fandom.com/wiki/Żółw_x");
}

#[test]
fn overview_lists_by_category() {
    let expected = [
        (0, "Basics Items"),
        (4, "Basics Items"),
        (5, "Upgraded Items"),
        (10, "Upgraded Items"),
        (11, "Neutral Items"),
        (17, "Neutral Items"),
        (18, "Roshan Drop"),
        (19, "Unreleased Items"),
        (20, "Removed Items"),
        (21, "Removed Items"),
        (22, "Event Items"),
        (28, "Event Items"),
        (29, "No idea"),
        (usize::MAX, "No idea"),
    ];
    for (index, category) in expected {
        assert_eq!(category_name(index), category);
    }
    let entry = item_entry("Aegis of the Immortal".to_string(), 18);
    assert_eq!(entry.name, "Aegis of the Immortal");
    assert_eq!(entry.category, "Roshan Drop");
}

#[test]
fn decimal_text_reads_back_over_a_range_of_numbers() {
    for mantissa in [0u128, 1, 5, 10, 25, 100, 125, 1000, 12345, 99999, 1000000] {
        for exponent in -8i64..=8 {
            for negative in [false, true] {
                let d = decimal(negative, mantissa, exponent);
                let text = decimal_to_text(d);
                let back = parse_decimal(&text).unwrap();
                assert_eq!(back.negative, negative, "{:?}", text);
                assert_eq!(decimal_to_text(back), text);
                let expected: f64 = format!("{}e{}", mantissa, exponent).parse().unwrap();
                let read: f64 = text.trim_start_matches('-').parse().unwrap();
                assert_eq!(read, expected, "{:?}", text);
            }
        }
    }
}

fn entry(name: &str, category: &str) -> ItemEntry {
    ItemEntry { name: name.to_string(), category: category.to_string() }
}

fn names(row: &[Option<&str>]) -> Vec<Option<String>> {
    row.iter().map(|name| name.map(|n| n.to_string())).collect()
}

#[test]
fn second_anchor_names_the_item() {
    let anchors = |texts: &[&str]| texts.iter().map(|t| t.to_string()).collect::<Vec<String>>();
    assert_eq!(second_anchor(&anchors(&[])), None);
    assert_eq!(second_anchor(&anchors(&["icon"])), None);
    assert_eq!(second_anchor(&anchors(&["icon", "Clarity"])), Some("Clarity".to_string()));
    assert_eq!(second_anchor(&anchors(&["icon", "Clarity", "more"])), Some("Clarity".to_string()));
}

#[test]
fn entries_take_the_category_of_their_list() {
    let mut lists = vec![names(&[Some("Clarity"), Some("Tango")])];
    for _ in 1..18 {
        lists.push(Vec::new());
    }
    lists.push(names(&[Some("Aegis of the Immortal")]));
    lists.push(names(&[]));
    lists.push(names(&[Some("Ring of Aquila"), Some("Poor Man's Shield")]));
    assert_eq!(
        item_entries(&lists),
        Some(vec![
            entry("Clarity", "Basics Items"),
            entry("Tango", "Basics Items"),
            entry("Aegis of the Immortal", "Roshan Drop"),
            entry("Ring of Aquila", "Removed Items"),
            entry("Poor Man's Shield", "Removed Items"),
        ])
    );
    assert_eq!(item_entries(&Vec::new()), Some(Vec::new()));
    assert_eq!(item_entries(&vec![Vec::new(), Vec::new()]), Some(Vec::new()));
}

#[test]
fn a_division_without_a_name_leaves_no_entries() {
    assert_eq!(item_entries(&vec![names(&[None])]), None);
    assert_eq!(item_entries(&vec![names(&[Some("Clarity"), None, Some("Tango")])]), None);
    assert_eq!(item_entries(&vec![names(&[Some("Clarity")]), names(&[Some("Tango"), None])]), None);
}

const OVERVIEW: &str = r#"
<p><a href="/wiki/Shop">Shop</a></p>
<div class="itemlist">
  <div><a href="/wiki/Clarity"><img alt="icon"></a> <a href="/wiki/Clarity">Clarity</a></div>
  <div><a href="/wiki/Tango"><img alt="icon"></a> <a href="/wiki/Tango">Tango</a> <a>more</a></div>
</div>
<div class="other"><div><a>no</a><a>item</a></div></div>
<div class="itemlist"></div>
<div class="itemlist wide">
  <div><a>x</a><a>Boots of <b>Speed</b></a></div>
</div>
"#;

#[test]
fn overview_names_come_list_by_list() {
    assert_eq!(
        overview_names(OVERVIEW),
        Ok(vec![
            names(&[Some("Clarity"), Some("Tango")]),
            names(&[]),
            names(&[Some("Boots of <b>Speed</b>")]),
        ])
    );
    assert_eq!(overview_names(""), Ok(Vec::new()));
    assert_eq!(overview_names("no lists here"), Ok(Vec::new()));
}

#[test]
fn item_names_from_the_overview_page() {
    assert_eq!(
        get_item_names(OVERVIEW),
        Ok(vec![
            entry("Clarity", "Basics Items"),
            entry("Tango", "Basics Items"),
            entry("Boots of <b>Speed</b>", "Basics Items"),
        ])
    );
    assert_eq!(get_item_names(""), Ok(Vec::new()));
}

#[test]
fn a_division_with_one_anchor_is_malformed() {
    let page = r#"<div class="itemlist"><div><a>a</a><a>Clarity</a></div><div><a>only</a></div></div>"#;
    assert_eq!(overview_names(page), Ok(vec![names(&[Some("Clarity"), None])]));
    assert_eq!(get_item_names(page), Err(FeedError::MalformedInput));
    let page = r#"<div class="itemlist"><div></div></div>"#;
    assert_eq!(get_item_names(page), Err(FeedError::MalformedInput));
}
