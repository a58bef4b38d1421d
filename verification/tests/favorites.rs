use launcher::favorites::{
    favorites_dir, favorites_path, find_favorite, is_favorite, load_favorites, read_or_none,
    save_favorites, toggle_favorite,
};

fn list(ids: &[&str]) -> Vec<String> {
    ids.iter().map(|s| s.to_string()).collect()
}

#[test]
fn missing_or_broken_file_means_no_favorites() {
    assert!(load_favorites(None).is_empty());
    assert!(load_favorites(Some("")).is_empty());
    assert!(load_favorites(Some("{\"a\": 1}")).is_empty());
    assert!(load_favorites(Some("[\"a\", 1]")).is_empty());
    assert!(load_favorites(Some("[\"a\"")).is_empty());
    assert!(read_or_none(None).is_empty());
    assert_eq!(read_or_none(Some(list(&["a"]))), list(&["a"]));
}

#[test]
fn file_is_a_json_list() {
    assert_eq!(load_favorites(Some("[\"b.desktop\",\"a.desktop\"]")), list(&["b.desktop", "a.desktop"]));
    assert_eq!(load_favorites(Some(" [ ] ")), list(&[]));
    assert_eq!(
        save_favorites(&list(&["b.desktop", "a.desktop"])).unwrap(),
        "[\n  \"b.desktop\",\n  \"a.desktop\"\n]"
    );
    assert_eq!(save_favorites(&list(&[])).unwrap(), "[]");
}

#[test]
fn saved_favorites_are_loaded_again() {
    for favs in [
        list(&[]),
        list(&["firefox.desktop"]),
        list(&["a", "b", "a"]),
        list(&["\"quoted\"", "back\\slash", "line\nbreak", "tab\t", "\u{1}", "ü€\u{1f600}", ""]),
    ] {
        let text = save_favorites(&favs).unwrap();
        assert_eq!(load_favorites(Some(&text)), favs);
    }
}

#[test]
fn paths_are_below_home() {
    assert_eq!(favorites_dir("/home/me"), "/home/me/.config");
    assert_eq!(favorites_path("/home/me"), "/home/me/.config/launcher-favorites.json");
    assert_eq!(favorites_path(""), ".config/launcher-favorites.json");
}

#[test]
fn star_adds_at_the_end() {
    let mut favs = list(&["a", "b"]);
    toggle_favorite(&mut favs, "c");
    assert_eq!(favs, list(&["a", "b", "c"]));
}

#[test]
fn star_removes_the_first() {
    let mut favs = list(&["a", "b", "c", "b"]);
    assert_eq!(find_favorite(&favs, "b"), Some(1));
    toggle_favorite(&mut favs, "b");
    assert_eq!(favs, list(&["a", "c", "b"]));
}

#[test]
fn star_twice_changes_nothing() {
    let mut favs = list(&["a", "b"]);
    toggle_favorite(&mut favs, "c");
    assert!(is_favorite(&favs, "c"));
    toggle_favorite(&mut favs, "c");
    assert_eq!(favs, list(&["a", "b"]));
    assert!(!is_favorite(&favs, "c"));
    assert_eq!(find_favorite(&favs, "c"), None);
}
