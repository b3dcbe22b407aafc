use profiling::callgraph::{insert_ascending, location_to_function, resolve_locations};
use profiling::flamegraph::{find_function, function_name};
use profiling::profile::{Function, Line, Location};
use profiling::storage::{get_profile_path, profile_file_name};
use profiling::string_map::StringMap;
use profiling::text::{decimal_string, push_decimal, same_text};
use std::path::PathBuf;

#[test]
fn decimal_string_is_what_std_prints() {
    for n in [0u64, 1, 9, 10, 11, 99, 100, 101, 12345, 1 << 32, u64::MAX - 1, u64::MAX] {
        assert_eq!(decimal_string(n), n.to_string());
    }
    assert_eq!(decimal_string(18446744073709551615), "18446744073709551615");
}

#[test]
fn push_decimal_appends() {
    let mut s = "n=".to_string();
    push_decimal(&mut s, 407);
    push_decimal(&mut s, 0);
    assert_eq!(s, "n=4070");
}

#[test]
fn same_text_compares_contents() {
    assert!(same_text("", ""));
    assert!(same_text("cpu", "cpu"));
    assert!(!same_text("cpu", "cpv"));
    assert!(!same_text("cpu", "cp"));
}

#[test]
fn insert_ascending_keeps_order_and_adds_nothing_twice() {
    let mut v = Vec::new();
    for x in [5u64, 1, 9, 5, 3, 1, 0, 9, u64::MAX] {
        insert_ascending(&mut v, x);
    }
    assert_eq!(v, vec![0, 1, 3, 5, 9, u64::MAX]);
}

#[test]
fn location_to_function_takes_the_first_line() {
    let locations = vec![
        Location { id: 1, line: vec![Line { function_id: 10, line: 0 }] },
        Location { id: 2, line: vec![] },
        Location {
            id: 3,
            line: vec![Line { function_id: 30, line: 0 }, Line { function_id: 31, line: 0 }],
        },
        Location { id: 1, line: vec![Line { function_id: 11, line: 0 }] },
    ];
    let map = location_to_function(&locations);
    assert_eq!(map.len(), 2);
    assert_eq!(map.get(&1), Some(&11));
    assert_eq!(map.get(&2), None);
    assert_eq!(map.get(&3), Some(&30));
    assert_eq!(resolve_locations(&vec![3, 2, 1, 7, 3], &map), vec![30, 11, 30]);
}

#[test]
fn find_function_gives_the_first_entry() {
    let table = vec![
        Function { id: 1, name: 5 },
        Function { id: 2, name: 6 },
        Function { id: 1, name: 7 },
    ];
    assert_eq!(find_function(&table, 1), Some(Function { id: 1, name: 5 }));
    assert_eq!(find_function(&table, 2), Some(Function { id: 2, name: 6 }));
    assert_eq!(find_function(&table, 3), None);
}

#[test]
fn function_name_reads_the_string_table() {
    let table = vec![String::new(), "main".to_string()];
    assert_eq!(function_name(&table, 0), "");
    assert_eq!(function_name(&table, 1), "main");
    assert_eq!(function_name(&table, 2), "unknown");
    assert_eq!(function_name(&table, -1), "unknown");
    assert_eq!(function_name(&table, i64::MAX), "unknown");
    assert_eq!(function_name(&table, i64::MIN), "unknown");
}

#[test]
fn profile_paths_lie_below_data() {
    assert_eq!(profile_file_name("pb"), "profile.pb");
    assert_eq!(profile_file_name(""), "profile.");
    assert_eq!(
        get_profile_path("abc", "json"),
        PathBuf::from("data").join("abc").join("profile.json")
    );
    assert_ne!(get_profile_path("abc", "json"), get_profile_path("abd", "json"));
    assert_ne!(get_profile_path("abc", "json"), get_profile_path("abc", "pb"));
}

fn components_of(path: &PathBuf) -> Vec<String> {
    path.components().map(|c| c.as_os_str().to_str().unwrap().to_string()).collect()
}

#[test]
fn a_profile_path_has_three_components() {
    let path = get_profile_path("123e4567-e89b-42d3-a456-426614174000", "pb");
    assert_eq!(
        components_of(&path),
        vec!["data", "123e4567-e89b-42d3-a456-426614174000", "profile.pb"]
    );
    assert_eq!(components_of(&get_profile_path("a.b_c-D9", "")), vec!["data", "a.b_c-D9", "profile."]);
    assert_eq!(
        components_of(&get_profile_path("...", "tar.gz")),
        vec!["data", "...", "profile.tar.gz"]
    );
    assert_eq!(
        path.parent().map(|dir| components_of(&dir.to_path_buf())),
        Some(vec![
            "data".to_string(),
            "123e4567-e89b-42d3-a456-426614174000".to_string()
        ])
    );
}

#[test]
fn a_profile_path_of_other_texts_is_what_join_makes_of_them() {
    for (id, extension) in [("", "pb"), (".", "pb"), ("..", "pb"), ("a/b", "json"), ("/abs", "x/y")] {
        assert_eq!(
            get_profile_path(id, extension),
            PathBuf::from("data").join(id).join(format!("profile.{}", extension))
        );
    }
}

#[test]
fn a_string_map_keeps_one_value_for_each_key() {
    let mut map: StringMap<u64> = StringMap::new();
    assert_eq!(map.len(), 0);
    assert_eq!(map.get("a"), None);
    map.insert("a".to_string(), 1);
    map.insert("b".to_string(), 2);
    map.insert("a".to_string(), 3);
    map.insert(String::new(), 4);
    assert_eq!(map.len(), 3);
    assert_eq!(map.get("a"), Some(&3));
    assert_eq!(map.get("b"), Some(&2));
    assert_eq!(map.get(""), Some(&4));
    assert_eq!(map.get("c"), None);
    assert!(map.contains_key("b"));
    assert!(!map.contains_key("B"));
}
