use move_web::address::{dependency_files, is_move_path, name_less, named_address_table, parse_address_map, parse_address_maps};

#[test]
fn address_map_splits_name_and_address() {
    let (name, addr) = parse_address_map("std:0x1").unwrap();
    assert_eq!(name, "std");
    assert_eq!(addr, "0x1");
}

#[test]
fn address_map_takes_second_token_only() {
    let (name, addr) = parse_address_map("a:b:c").unwrap();
    assert_eq!(name, "a");
    assert_eq!(addr, "b");
}

#[test]
fn address_map_allows_empty_address() {
    let (name, addr) = parse_address_map("std:").unwrap();
    assert_eq!(name, "std");
    assert_eq!(addr, "");
}

#[test]
fn address_map_without_colon_fails() {
    let e = parse_address_map("std0x1").unwrap_err();
    assert_eq!(e, "Not found address name in address_map");
}

#[test]
fn address_maps_parse_every_entry() {
    let v = parse_address_maps("std:0x1,sui:0x2").unwrap();
    assert_eq!(v.len(), 2);
    assert_eq!(v[0], ("std".to_string(), "0x1".to_string()));
    assert_eq!(v[1], ("sui".to_string(), "0x2".to_string()));
}

#[test]
fn address_maps_fail_on_any_malformed_entry() {
    let e = parse_address_maps("std:0x1,broken,sui:0x2").unwrap_err();
    assert_eq!(e, "Not found address name in address_map");
    assert!(parse_address_maps("").is_err());
    assert!(parse_address_maps("std:0x1,").is_err());
}

#[test]
fn address_table_is_ordered_by_name() {
    let pairs = vec![
        ("sui".to_string(), "0x2".to_string()),
        ("std".to_string(), "0x1".to_string()),
        ("Alice".to_string(), "0x3".to_string()),
    ];
    let t = named_address_table(&pairs);
    let names: Vec<&str> = t.iter().map(|p| p.0.as_str()).collect();
    assert_eq!(names, vec!["Alice", "std", "sui"]);
}

#[test]
fn address_table_keeps_last_address_for_a_name() {
    let pairs = vec![
        ("std".to_string(), "0x1".to_string()),
        ("app".to_string(), "0x5".to_string()),
        ("std".to_string(), "0x9".to_string()),
    ];
    let t = named_address_table(&pairs);
    assert_eq!(t, vec![("app".to_string(), "0x5".to_string()), ("std".to_string(), "0x9".to_string())]);
    assert!(named_address_table(&vec![]).is_empty());
}

#[test]
fn names_compare_like_strings() {
    assert!(name_less("std", "sui"));
    assert!(!name_less("sui", "std"));
    assert!(name_less("st", "std"));
    assert!(!name_less("std", "std"));
    assert!(name_less("Z", "a"));
}

#[test]
fn only_move_files_are_dependencies() {
    let deps = dependency_files(&vec!["../std/sources/vector.move", "../std", "a.mov", "x.move.bak", ".move"]);
    assert_eq!(deps, vec!["../std/sources/vector.move".to_string(), ".move".to_string()]);
    assert!(dependency_files(&vec![]).is_empty());
}

#[test]
fn move_path_suffix() {
    assert!(is_move_path("coin.move"));
    assert!(!is_move_path("move"));
    assert!(!is_move_path("coin.MOVE"));
}
