use launcher::app::App;
use launcher::desktop::{
    load_applications, organize_by_category, search_paths, AppEntry, DesktopInfo, ScannedFile,
};
use launcher::favorites::load_favorites;
use launcher::listing::{search_apps, sort_by_name};
use launcher::ui::{
    ActiveView, Effect, Key, LaunchStep, NavAction, Page, Row, RowMeta, Timer,
};

/// The screen as the effects make it.
struct Screen {
    one: Vec<Row>,
    two: Vec<Row>,
    list: ActiveView,
    button: Option<NavAction>,
    window: bool,
    panel: bool,
    focus_timer: bool,
}

impl Screen {
    fn new() -> Screen {
        Screen {
            one: vec![],
            two: vec![],
            list: ActiveView::One,
            button: None,
            window: false,
            panel: false,
            focus_timer: false,
        }
    }

    fn rows(&mut self, list: ActiveView) -> &mut Vec<Row> {
        match list {
            ActiveView::One => &mut self.one,
            ActiveView::Two => &mut self.two,
        }
    }

    fn run(&mut self, effects: Vec<Effect>) {
        for effect in effects {
            match effect {
                Effect::ClearList(list) => self.rows(list).clear(),
                Effect::AddRow(list, row) => self.rows(list).push(row),
                Effect::SlideTo(list) => self.list = list,
                Effect::SetNavButton(action) => self.button = Some(action),
                Effect::ShowWindow => self.window = true,
                Effect::HideWindow => self.window = false,
                Effect::SignalPanel(visible) => self.panel = visible,
                Effect::StartTimer(Timer::FocusOut) => self.focus_timer = true,
                Effect::StopFocusTimer => {
                    assert!(self.focus_timer);
                    self.focus_timer = false;
                }
                _ => {}
            }
        }
    }

    fn current(&mut self) -> Vec<(String, bool)> {
        let list = self.list;
        self.rows(list)
            .iter()
            .map(|r| match r {
                Row::App { idx, favorite, .. } => (idx.to_string(), *favorite),
                Row::Category { name, .. } => (name.clone(), false),
            })
            .collect()
    }
}

fn apps(names: &[(&str, &str)]) -> Vec<AppEntry> {
    load_applications(
        names
            .iter()
            .map(|(name, cats)| ScannedFile {
                name: format!("{}.desktop", name),
                path: format!("/apps/{}.desktop", name),
                priority: 2,
                info: Some(DesktopInfo {
                    name: name.to_string(),
                    description: None,
                    icon: None,
                    keywords: vec![],
                    generic_name: None,
                    categories: Some(cats.to_string()),
                    no_display: false,
                    hidden: false,
                }),
            })
            .collect(),
    )
}

fn some_apps() -> Vec<AppEntry> {
    apps(&[("a", "Game;"), ("b", "Office;"), ("c", "Game;"), ("d", "")])
}

fn check(app: &App, screen: &Screen) {
    assert_eq!(screen.list, app.current());
    assert_eq!(screen.window, app.is_visible());
    assert_eq!(screen.panel, app.is_visible());
    assert_eq!(app.pages()[0], Page::Favorites);
    assert!(app.pages()[1..].iter().all(|p| *p != Page::Favorites));
}

#[test]
fn screen_follows_a_long_walk() {
    let mut screen = Screen::new();
    let (mut app, effects) = App::new(Some("[\"c.desktop\"]"), some_apps(), false);
    screen.run(effects);
    check(&app, &screen);
    let mut seed: u32 = 12345;
    for _ in 0..3000 {
        seed = seed.wrapping_mul(1664525).wrapping_add(1013904223);
        let games = Some(RowMeta::Category { name: "Games".to_string() });
        let effects = match (seed >> 16) % 16 {
            0 => app.toggle_visibility(Some("[\"a.desktop\", \"c.desktop\"]")),
            1 => app.nav_action(NavAction::ShowCategories),
            2 => app.nav_action(NavAction::GoBack),
            3 => app.on_animation_end(),
            4 => app.on_search_changed("a"),
            5 => app.on_search_changed(""),
            6 => app.on_row_activated(&games),
            7 => app.on_favorite_clicked(1),
            8 => app.on_focus_out().effects,
            9 => app.on_focus_in(true).effects,
            10 => app.on_key_press(Key::Escape, false, true, &None).effects,
            11 => app.on_key_press(Key::Right, false, true, &games).effects,
            12 => app.on_key_press(Key::Left, false, true, &None).effects,
            13 => app.reload_applications(some_apps()),
            14 => app.on_launched(0, LaunchStep::GtkLaunch, true),
            _ => app.on_animation_end(),
        };
        screen.run(effects);
        check(&app, &screen);
    }
}

#[test]
fn pages_are_shown_as_they_are_opened() {
    let mut screen = Screen::new();
    let (mut app, effects) = App::new(Some("[\"c.desktop\", \"a.desktop\"]"), some_apps(), false);
    screen.run(effects);
    let favorites = screen.current();
    assert_eq!(favorites, [("2".to_string(), true), ("0".to_string(), true)]);
    screen.run(app.nav_action(NavAction::ShowCategories));
    let categories = screen.current();
    let names: Vec<&str> = categories.iter().map(|c| c.0.as_str()).collect();
    assert_eq!(names, ["All Applications", "Games", "Office", "Other"]);
    assert_eq!(screen.button, Some(NavAction::GoBack));
    app.on_animation_end();
    screen.run(app.on_row_activated(&Some(RowMeta::Category {
        name: "All Applications".to_string(),
    })));
    assert_eq!(screen.current().len(), 4);
    app.on_animation_end();
    screen.run(app.go_back());
    assert_eq!(screen.current(), categories);
    app.on_animation_end();
    screen.run(app.go_back());
    assert_eq!(screen.current(), favorites);
    assert_eq!(screen.button, Some(NavAction::ShowCategories));
}

#[test]
fn empty_search_gives_the_page_back() {
    let mut screen = Screen::new();
    let (mut app, effects) = App::new(Some("[\"c.desktop\"]"), some_apps(), false);
    screen.run(effects);
    let before = screen.current();
    screen.run(app.on_search_changed("b"));
    assert_eq!(screen.current(), [("1".to_string(), false)]);
    screen.run(app.on_search_changed(""));
    assert_eq!(screen.current(), before);
}

#[test]
fn toggling_twice_keeps_the_visibility() {
    for start_hidden in [false, true] {
        let (mut app, _) = App::new(None, some_apps(), start_hidden);
        let before = app.is_visible();
        app.toggle_visibility(None);
        assert_ne!(app.is_visible(), before);
        app.toggle_visibility(None);
        assert_eq!(app.is_visible(), before);
    }
}

#[test]
fn showing_again_shows_the_favorites() {
    let mut screen = Screen::new();
    let (mut app, effects) = App::new(None, some_apps(), false);
    screen.run(effects);
    screen.run(app.nav_action(NavAction::ShowCategories));
    screen.run(app.toggle_visibility(None));
    screen.run(app.toggle_visibility(Some("[\"b.desktop\"]")));
    assert_eq!(screen.current(), [("1".to_string(), true)]);
    assert_eq!(screen.button, Some(NavAction::ShowCategories));
}

#[test]
fn reload_shows_the_new_applications() {
    let mut screen = Screen::new();
    let (mut app, effects) = App::new(None, some_apps(), false);
    screen.run(effects);
    screen.run(app.on_row_activated(&Some(RowMeta::Category { name: "Games".to_string() })));
    assert_eq!(screen.current().len(), 2);
    screen.run(app.reload_applications(apps(&[("a", "Game;"), ("b", ""), ("c", "")])));
    assert_eq!(screen.current(), [("0".to_string(), false)]);
}

#[test]
fn star_keeps_a_category_page() {
    let mut screen = Screen::new();
    let (mut app, effects) = App::new(None, some_apps(), false);
    screen.run(effects);
    screen.run(app.on_row_activated(&Some(RowMeta::Category { name: "Games".to_string() })));
    screen.run(app.on_favorite_clicked(2));
    assert_eq!(screen.current(), [("0".to_string(), false), ("2".to_string(), true)]);
}

#[test]
fn saved_favorites_are_those_of_the_launcher() {
    let (mut app, _) = App::new(None, some_apps(), false);
    for idx in [2, 0, 3, 0, 1] {
        let effects = app.on_favorite_clicked(idx);
        match &effects[0] {
            Effect::SaveFavorites(text) => {
                assert_eq!(&load_favorites(Some(text)), app.favorites());
            }
            other => panic!("{:?}", other),
        }
    }
    assert_eq!(app.favorites(), &vec!["c.desktop", "d.desktop", "b.desktop"]);
}

#[test]
fn dragging_keeps_the_installed_favorites() {
    let (mut app, _) = App::new(
        Some("[\"c.desktop\", \"gone.desktop\", \"a.desktop\", \"b.desktop\"]"),
        some_apps(),
        false,
    );
    app.on_button_press(1, &Some(RowMeta::App { idx: 2, draggable: true }), 0);
    let mut rows: Vec<RowMeta> =
        [2, 0, 1].iter().map(|&idx| RowMeta::App { idx, draggable: true }).collect();
    let moved = rows.remove(0);
    rows.insert(2, moved);
    app.on_button_release(&rows);
    assert_eq!(app.favorites(), &vec!["a.desktop", "b.desktop", "c.desktop"]);
}

#[test]
fn category_page_is_in_the_order_of_names() {
    let list = some_apps();
    let all: Vec<usize> = (0..list.len()).collect();
    assert_eq!(sort_by_name(&list, &all), all);
}

#[test]
fn search_results_hold_no_application_twice() {
    let list = some_apps();
    let mut found = search_apps(&list, "");
    found.dedup();
    assert_eq!(found.len(), list.len());
}

#[test]
fn searched_directories_have_falling_priorities() {
    let dirs = search_paths("/home/me");
    assert!(dirs.windows(2).all(|w| w[0].1 > w[1].1));
}

#[test]
fn each_application_has_one_category() {
    let list = some_apps();
    let categories = organize_by_category(&list);
    for i in 0..list.len() {
        assert_eq!(categories.iter().filter(|c| c.apps.contains(&i)).count(), 1);
    }
    assert!(categories.iter().all(|c| !c.apps.is_empty()));
    assert!(categories.windows(2).all(|w| w[0].name < w[1].name));
    let again = organize_by_category(&list);
    assert_eq!(again.len(), categories.len());
    for (a, b) in again.iter().zip(&categories) {
        assert_eq!((&a.name, &a.apps), (&b.name, &b.apps));
    }
}
