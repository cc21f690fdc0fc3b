//! The persisted catalog document: writing, strict reading, and the
//! round trip.

use math_defense::catalog_parse::parse_catalog;
use math_defense::level::{Catalog, Level, Operation, Wave, WaveGroup};
use math_defense::persistence::{check_catalog, default_catalog, load_catalog, save_catalog};

fn chars(s: &str) -> Vec<char> {
    s.chars().collect()
}

fn groups_equal(a: &WaveGroup, b: &WaveGroup) -> bool {
    a.operation == b.operation && a.speed_milli == b.speed_milli && a.num_ships == b.num_ships
        && a.max_number == b.max_number && a.min_number == b.min_number
}

fn catalogs_equal(a: &Catalog, b: &Catalog) -> bool {
    a.levels.len() == b.levels.len()
        && a.levels.iter().zip(b.levels.iter()).all(|(la, lb)| {
            la.title == lb.title && la.background_file == lb.background_file
                && la.unlocked == lb.unlocked && la.waves.len() == lb.waves.len()
                && la.waves.iter().zip(lb.waves.iter()).all(|(wa, wb)| {
                    wa.groups.len() == wb.groups.len()
                        && wa.groups.iter().zip(wb.groups.iter()).all(|(ga, gb)| {
                            groups_equal(ga, gb)
                        })
                })
        })
}

#[test]
fn default_catalog_shape() {
    let c = default_catalog();
    assert!(check_catalog(&c));
    assert_eq!(c.levels.len(), 5);
    assert_eq!(c.levels[0].title, "Addition Attack!");
    assert_eq!(c.levels[4].title, "The Final Assault!");
    assert_eq!(c.levels[0].unlocked, vec![true, true, true, true]);
    assert_eq!(c.levels[1].unlocked, vec![false, false, false, false]);
    for l in &c.levels {
        assert_eq!(l.waves.len(), 3);
    }
    assert_eq!(c.levels[3].waves[0].groups[0].operation, Operation::Divide);
    assert_eq!(c.levels[3].waves[0].groups[0].max_number, 6);
    assert_eq!(c.levels[4].waves[2].groups.len(), 4);
}

#[test]
fn default_round_trips() {
    let c = default_catalog();
    let text = save_catalog(&c);
    let back = parse_catalog(&chars(&text)).expect("the written document must read back");
    assert!(catalogs_equal(&c, &back));
}

#[test]
fn speed_fraction_round_trips() {
    let mut c = default_catalog();
    c.levels[0].waves[0].groups[0].speed_milli = 2_750;
    c.levels[0].waves[1].groups[0].speed_milli = 3_000;
    c.levels[0].waves[2].groups[0].speed_milli = 4_005;
    let text = save_catalog(&c);
    assert!(text.contains("2.75"));
    assert!(text.contains("4.005"));
    let back = parse_catalog(&chars(&text)).expect("fractional speeds must read back");
    assert_eq!(back.levels[0].waves[0].groups[0].speed_milli, 2_750);
    assert_eq!(back.levels[0].waves[1].groups[0].speed_milli, 3_000);
    assert_eq!(back.levels[0].waves[2].groups[0].speed_milli, 4_005);
}

#[test]
fn reader_accepts_free_order_and_whitespace() {
    let doc = r#"  [ {
        "title" : "One",
        "unlocked": [true , false, false, false],
        "background_file": "/bg.jpg",
        "waves": [ { "groups": [ {
            "speed": 2.5, "operation": "Add",
            "min_number": 0, "max_number": 5, "num_ships": 4
        } ] } ]
    } ]  "#;
    let c = parse_catalog(&chars(doc)).expect("reordered fields must read");
    assert_eq!(c.levels[0].title, "One");
    assert_eq!(c.levels[0].waves[0].groups[0].speed_milli, 2_500);
    assert_eq!(c.levels[0].waves[0].groups[0].num_ships, 4);
}

#[test]
fn reader_is_strict() {
    // An unknown field.
    let unknown = r#"[{"title":"a","unlocked":[true,true,true,true],"background_file":"b",
        "waves":[],"extra":1}]"#;
    assert!(parse_catalog(&chars(unknown)).is_none());
    // A duplicate field.
    let dup = r#"[{"title":"a","title":"b","unlocked":[true,true,true,true],
        "background_file":"c","waves":[]}]"#;
    assert!(parse_catalog(&chars(dup)).is_none());
    // A missing field.
    let missing = r#"[{"title":"a","unlocked":[true,true,true,true],"waves":[]}]"#;
    assert!(parse_catalog(&chars(missing)).is_none());
    // Trailing text.
    let trailing = "[] []";
    assert!(parse_catalog(&chars(trailing)).is_none());
    // A wrong unlock arity.
    let arity = r#"[{"title":"a","unlocked":[true,true,true],"background_file":"b","waves":[]}]"#;
    assert!(parse_catalog(&chars(arity)).is_none());
    // Not a document at all.
    assert!(parse_catalog(&chars("")).is_none());
    assert!(parse_catalog(&chars("{}")).is_none());
}

#[test]
fn load_falls_back_to_default() {
    let (c, used_default) = load_catalog(&chars("not a catalog"));
    assert!(used_default);
    assert!(catalogs_equal(&c, &default_catalog()));
    // An empty level array reads, but fails the semantic check.
    let (c2, used_default2) = load_catalog(&chars("[]"));
    assert!(used_default2);
    assert!(check_catalog(&c2));
}

#[test]
fn persisted_reload_is_identity() {
    // Any well-formed persisted catalog survives load then save unchanged.
    let mut c = default_catalog();
    c.levels[2].unlocked = vec![true, false, true, false];
    let text = save_catalog(&c);
    let (loaded, used_default) = load_catalog(&chars(&text));
    assert!(!used_default);
    let text2 = save_catalog(&loaded);
    assert_eq!(text, text2);
    assert!(catalogs_equal(&c, &loaded));
}

#[test]
fn written_document_is_json() {
    // Cross-check the writer against an independent reader.
    let c = default_catalog();
    let text = save_catalog(&c);
    let v: serde_json::Value = serde_json::from_str(&text).expect("the document must be valid");
    let levels = v.as_array().expect("a top-level array");
    assert_eq!(levels.len(), 5);
    assert_eq!(levels[0]["title"], "Addition Attack!");
    assert_eq!(levels[0]["unlocked"][0], true);
    assert_eq!(levels[1]["waves"][0]["groups"][0]["operation"], "Subtract");
    assert_eq!(levels[0]["waves"][0]["groups"][0]["speed"], 2.5);
    assert_eq!(levels[0]["waves"][0]["groups"][0]["num_ships"], 5);
}

#[test]
fn rejects_catalog_without_first_level_unlocked() {
    let mut c = default_catalog();
    c.levels[0].unlocked = vec![true, false, true, true];
    assert!(!check_catalog(&c));
    let text = save_catalog(&c);
    let (_, used_default) = load_catalog(&chars(&text));
    assert!(used_default);
}

#[test]
fn validates_group_bounds() {
    let mut c = default_catalog();
    c.levels[0].waves[0].groups[0].min_number = 9;
    c.levels[0].waves[0].groups[0].max_number = 9;
    assert!(!check_catalog(&c));
    let c2 = Catalog {
        levels: vec![Level {
            title: String::from("x"),
            background_file: String::from("y"),
            unlocked: vec![true, true, true, true],
            waves: vec![Wave {
                groups: vec![WaveGroup {
                    operation: Operation::Divide,
                    speed_milli: 1_000,
                    num_ships: 1,
                    min_number: 0,
                    max_number: 1,
                }],
            }],
        }],
    };
    // A division group needs room for a nonzero divisor.
    assert!(!check_catalog(&c2));
}
