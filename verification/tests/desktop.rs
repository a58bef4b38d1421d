use launcher::desktop::{
    assess, choose_category, load_applications, map_category, organize_by_category, search_paths,
    watch_dirs, AppEntry, Claim, DesktopInfo, Loader, ScannedFile,
};
use launcher::icon::IconSource;

fn info(name: &str) -> DesktopInfo {
    DesktopInfo {
        name: name.to_string(),
        description: None,
        icon: None,
        keywords: vec![],
        generic_name: None,
        categories: None,
        no_display: false,
        hidden: false,
    }
}

fn file(name: &str, priority: i32, info: Option<DesktopInfo>) -> ScannedFile {
    ScannedFile {
        name: name.to_string(),
        path: format!("/dir{}/{}", priority, name),
        priority,
        info,
    }
}

fn names(apps: &Vec<AppEntry>) -> Vec<String> {
    apps.iter().map(|a| a.name.clone()).collect()
}

fn with_categories(name: &str, cats: Option<&str>) -> ScannedFile {
    let mut i = info(name);
    i.categories = cats.map(|c| c.to_string());
    file(&format!("{}.desktop", name), 1, Some(i))
}

#[test]
fn directories_of_the_user_come_first() {
    let paths = search_paths("/home/me");
    let expected = [
        ("/home/me/.local/share/applications", 4),
        ("/home/me/.local/share/flatpak/exports/share/applications", 3),
        ("/usr/share/applications", 2),
        ("/var/lib/flatpak/exports/share/applications", 1),
    ];
    assert_eq!(paths.len(), expected.len());
    for (have, want) in paths.iter().zip(expected) {
        assert_eq!((have.0.as_str(), have.1), want);
    }
    let watched = watch_dirs("/home/me");
    assert_eq!(watched, paths.iter().map(|p| p.0.clone()).collect::<Vec<_>>());
    assert_eq!(watch_dirs("")[0], ".local/share/applications");
}

#[test]
fn entry_holds_lowered_texts() {
    let i = DesktopInfo {
        name: "GIMP Ä".to_string(),
        description: Some("Edit Images".to_string()),
        icon: Some(IconSource::Themed(vec!["gimp".to_string()])),
        keywords: vec!["Photo".to_string(), "PAINT".to_string()],
        generic_name: Some("Image Editor".to_string()),
        categories: Some("Graphics;".to_string()),
        no_display: false,
        hidden: false,
    };
    let apps = load_applications(vec![file("Gimp.desktop", 2, Some(i))]);
    assert_eq!(apps.len(), 1);
    let a = &apps[0];
    assert_eq!(a.name, "GIMP Ä");
    assert_eq!(a.name_lower, "gimp ä");
    assert_eq!(a.description, "Edit Images");
    assert_eq!(a.keywords, "photo paint");
    assert_eq!(a.generic_name, "image editor");
    assert_eq!(a.search_text, "edit images photo paint image editor");
    assert_eq!(a.desktop_id, "Gimp.desktop");
    assert_eq!(a.desktop_path, "/dir2/Gimp.desktop");
    assert_eq!(a.categories.as_deref(), Some("Graphics;"));
    assert!(matches!(&a.icon, Some(IconSource::Themed(n)) if n.len() == 1 && n[0] == "gimp"));
}

#[test]
fn entry_without_texts_keeps_the_gaps() {
    let apps = load_applications(vec![file("x.desktop", 1, Some(info("X")))]);
    assert_eq!(apps[0].search_text, "  ");
    assert_eq!(apps[0].description, "");
}

#[test]
fn applications_are_ordered_by_lower_name() {
    let apps = load_applications(vec![
        file("c.desktop", 1, Some(info("zebra"))),
        file("a.desktop", 1, Some(info("Beta"))),
        file("b.desktop", 1, Some(info("alpha"))),
    ]);
    assert_eq!(names(&apps), ["alpha", "Beta", "zebra"]);
}

#[test]
fn other_files_are_ignored() {
    let apps = load_applications(vec![
        file("mimeinfo.cache", 4, Some(info("Cache"))),
        file("x.desktop.bak", 4, Some(info("Backup"))),
    ]);
    assert!(apps.is_empty());
}

#[test]
fn higher_priority_wins_in_any_order() {
    let up = vec![
        file("x.desktop", 1, Some(info("System"))),
        file("X.Desktop", 1, Some(info("Ignored suffix"))),
        file("X.desktop", 4, Some(info("User"))),
    ];
    assert_eq!(names(&load_applications(up)), ["User"]);
    let down = vec![
        file("X.desktop", 4, Some(info("User"))),
        file("x.desktop", 1, Some(info("System"))),
    ];
    assert_eq!(names(&load_applications(down)), ["User"]);
    let equal = vec![
        file("x.desktop", 2, Some(info("First"))),
        file("X.desktop", 2, Some(info("Second"))),
    ];
    assert_eq!(names(&load_applications(equal)), ["First"]);
}

#[test]
fn hidden_masks_lower_priority() {
    let mut hidden = info("Hidden");
    hidden.hidden = true;
    let mut no_display = info("NoDisplay");
    no_display.no_display = true;
    let apps = load_applications(vec![
        file("a.desktop", 4, Some(hidden)),
        file("b.desktop", 4, Some(no_display)),
        file("c.desktop", 4, None),
        file("a.desktop", 2, Some(info("A"))),
        file("b.desktop", 2, Some(info("B"))),
        file("c.desktop", 2, Some(info("C"))),
        file("d.desktop", 2, Some(info("D"))),
    ]);
    assert_eq!(names(&apps), ["D"]);
}

#[test]
fn nameless_file_masks_nothing() {
    let apps = load_applications(vec![
        file("a.desktop", 4, Some(info(""))),
        file("a.desktop", 2, Some(info("A"))),
    ]);
    assert_eq!(names(&apps), ["A"]);
}

#[test]
fn loader_says_which_files_to_read() {
    let mut loader = Loader::new();
    assert!(loader.wants("a.desktop", 4));
    assert!(!loader.wants("a.txt", 4));
    loader.record("A.desktop", "/x/A.desktop", 3, Some(info("A")));
    assert!(!loader.wants("a.desktop", 3));
    assert!(!loader.wants("a.desktop", 2));
    assert!(loader.wants("a.desktop", 4));
    assert!(!loader.is_open_to("a.desktop", 3));
    assert!(loader.is_open_to("A.desktop", 3));
    assert_eq!(names(&loader.finish()), ["A"]);
}

#[test]
fn claims_are_told_apart() {
    assert!(matches!(assess(&info("A")), Claim::Shown));
    assert!(matches!(assess(&info("")), Claim::Ignored));
    let mut hidden = info("");
    hidden.hidden = true;
    assert!(matches!(assess(&hidden), Claim::Hidden));
}

#[test]
fn categories_are_mapped() {
    let pairs = [
        ("AudioVideo", "Multimedia"),
        ("Audio", "Multimedia"),
        ("Video", "Multimedia"),
        ("Development", "Development"),
        ("Education", "Education"),
        ("Game", "Games"),
        ("Graphics", "Graphics"),
        ("Network", "Internet"),
        ("Office", "Office"),
        ("Science", "Science"),
        ("Settings", "Settings"),
        ("System", "System Tools"),
        ("Utility", "Accessories"),
    ];
    for (from, to) in pairs {
        assert_eq!(map_category(from), Some(to));
    }
    assert_eq!(map_category("GTK"), None);
    assert_eq!(map_category("game"), None);
}

#[test]
fn first_known_category_counts() {
    let cat = |s: &str| choose_category(&Some(s.to_string()));
    assert_eq!(choose_category(&None), "Other");
    assert_eq!(cat(""), "Other");
    assert_eq!(cat(";;"), "Other");
    assert_eq!(cat("GTK;GNOME;"), "Other");
    assert_eq!(cat("GTK; Network ;Office;"), "Internet");
    assert_eq!(cat("Office"), "Office");
    assert_eq!(cat("X;Utility"), "Accessories");
}

#[test]
fn apps_are_organized_by_category() {
    let apps = load_applications(vec![
        with_categories("a", Some("Office;")),
        with_categories("b", None),
        with_categories("c", Some("Game;")),
        with_categories("d", Some("Office;Game;")),
        with_categories("e", Some("Utility;")),
    ]);
    let cats = organize_by_category(&apps);
    let have: Vec<(String, Vec<usize>)> =
        cats.into_iter().map(|c| (c.name, c.apps)).collect();
    assert_eq!(
        have,
        [
            ("Accessories".to_string(), vec![4]),
            ("Games".to_string(), vec![2]),
            ("Office".to_string(), vec![0, 3]),
            ("Other".to_string(), vec![1]),
        ]
    );
    let mut all: Vec<usize> = have.iter().flat_map(|c| c.1.clone()).collect();
    all.sort();
    assert_eq!(all, [0, 1, 2, 3, 4]);
}

#[test]
fn no_apps_have_no_categories() {
    assert!(organize_by_category(&vec![]).is_empty());
}
