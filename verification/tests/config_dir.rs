use forgia::config_dir::find_config_dir_from;

#[test]
fn walks_up_and_finds_matching_ancestor() {
    let marker_dir = "/fake/root";
    let start = "/fake/root/target/debug/deps";
    let has_biomes = |d: &str| d == marker_dir;
    let found = find_config_dir_from(start, has_biomes);
    assert_eq!(found, Some("/fake/root/config".to_string()));
}

#[test]
fn returns_none_when_no_ancestor_matches() {
    let start = "/fake/a/b/c";
    let has_biomes = |_: &str| false;
    assert_eq!(find_config_dir_from(start, has_biomes), None);
}

#[test]
fn stops_at_first_match_not_deepest() {
    let start = "/fake/outer/inner";
    let has_biomes = |d: &str| d == "/fake/outer/inner" || d == "/fake/outer";
    let found = find_config_dir_from(start, has_biomes);
    assert_eq!(found, Some("/fake/outer/inner/config".to_string()));
}

#[test]
fn a_relative_start_walks_up_to_the_empty_path() {
    let visited = std::cell::RefCell::new(Vec::new());
    let found = find_config_dir_from("a/b", |d: &str| {
        visited.borrow_mut().push(d.to_string());
        false
    });
    assert_eq!(found, None);
    assert_eq!(*visited.borrow(), vec!["a/b".to_string(), "a".to_string(), "".to_string()]);
}
