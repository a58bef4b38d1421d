use launcher::desktop::{load_applications, AppEntry, DesktopInfo, ScannedFile};
use launcher::listing::{index_by_id, rank, search_apps, search_lowered, sort_by_name, Rank};

fn file(name: &str, description: &str, keywords: &[&str], generic: Option<&str>) -> ScannedFile {
    ScannedFile {
        name: format!("{}.desktop", name),
        path: format!("/apps/{}.desktop", name),
        priority: 1,
        info: Some(DesktopInfo {
            name: name.to_string(),
            description: Some(description.to_string()),
            icon: None,
            keywords: keywords.iter().map(|k| k.to_string()).collect(),
            generic_name: generic.map(|g| g.to_string()),
            categories: None,
            no_display: false,
            hidden: false,
        }),
    }
}

fn apps() -> Vec<AppEntry> {
    load_applications(vec![
        file("Term", "Command line", &["Shell"], None),
        file("Xterm", "Old terminal", &[], None),
        file("Files", "Browse", &["folder"], Some("File Manager")),
        file("Gimp", "Edit images", &["paint"], Some("Image Editor")),
        file("Console", "Terminal emulator", &[], None),
    ])
}

fn found(apps: &Vec<AppEntry>, query: &str) -> Vec<String> {
    search_apps(apps, query).into_iter().map(|i| apps[i].name.clone()).collect()
}

#[test]
fn search_puts_better_matches_first() {
    let apps = apps();
    assert_eq!(found(&apps, "term"), ["Term", "Xterm", "Console"]);
}

#[test]
fn search_ignores_case() {
    let apps = apps();
    assert_eq!(found(&apps, "GIMP"), ["Gimp"]);
    assert_eq!(found(&apps, "SHELL"), ["Term"]);
    assert!(search_lowered(&apps, "GIMP").is_empty());
}

#[test]
fn search_reads_all_texts() {
    let apps = apps();
    assert_eq!(found(&apps, "browse"), ["Files"]);
    assert_eq!(found(&apps, "folder"), ["Files"]);
    assert_eq!(found(&apps, "file manager"), ["Files"]);
    assert!(found(&apps, "nothing like it").is_empty());
}

#[test]
fn empty_query_matches_everything() {
    let apps = apps();
    assert_eq!(search_lowered(&apps, ""), [0, 1, 2, 3, 4]);
}

#[test]
fn ranks_of_one_application() {
    let apps = apps();
    let term = apps.iter().find(|a| a.name == "Term").unwrap();
    assert!(matches!(rank(term, "term"), Rank::Exact));
    assert!(matches!(rank(term, "ter"), Rank::Title));
    assert!(matches!(rank(term, "command"), Rank::Other));
    assert!(matches!(rank(term, "Term"), Rank::NoMatch));
}

#[test]
fn index_knows_each_id() {
    let apps = apps();
    let index = index_by_id(&apps);
    for i in 0..apps.len() {
        assert_eq!(index.get(apps[i].desktop_id.as_str()), Some(&i));
    }
    assert_eq!(index.get("missing.desktop"), None);
}

#[test]
fn index_keeps_the_first_of_two() {
    let mut twice = apps();
    twice.extend(apps());
    let index = index_by_id(&twice);
    assert_eq!(index.get(twice[0].desktop_id.as_str()), Some(&0));
}

#[test]
fn sorting_is_by_name_and_stable() {
    let mut list = apps();
    list.reverse();
    list.extend(apps());
    let all: Vec<usize> = (0..list.len()).collect();
    let sorted = sort_by_name(&list, &all);
    let mut expected = all.clone();
    expected.sort_by(|&a, &b| list[a].name_lower.cmp(&list[b].name_lower));
    assert_eq!(sorted, expected);
    assert_eq!(sort_by_name(&list, &sorted), sorted);
    assert!(sort_by_name(&list, &vec![]).is_empty());
}
