use launcher::app::App;
use launcher::desktop::{load_applications, AppEntry, DesktopInfo, ScannedFile};
use launcher::ui::{
    category_icon, list_name, nav_button, star_icon, timer_delay, ActiveView, Direction, Effect,
    Key, LaunchStep, NavAction, Page, Propagation, Row, RowMeta, Timer,
};

const ONE: ActiveView = ActiveView::One;
const TWO: ActiveView = ActiveView::Two;

fn entries(list: &[(&str, &str)]) -> Vec<AppEntry> {
    load_applications(
        list.iter()
            .map(|(name, categories)| ScannedFile {
                name: format!("{}.desktop", name.to_lowercase()),
                path: format!("/apps/{}.desktop", name.to_lowercase()),
                priority: 1,
                info: Some(DesktopInfo {
                    name: name.to_string(),
                    description: None,
                    icon: None,
                    keywords: vec![],
                    generic_name: None,
                    categories: Some(categories.to_string()),
                    no_display: false,
                    hidden: false,
                }),
            })
            .collect(),
    )
}

/// Alpha (games), Beta (office), Gamma (games), with Gamma and Alpha as
/// favorites, and a favorite that is not installed between them.
fn three() -> Vec<AppEntry> {
    entries(&[("Gamma", "Game;"), ("Alpha", "Game;"), ("Beta", "Office;")])
}

const FAVORITES: &str = "[\"gamma.desktop\", \"gone.desktop\", \"alpha.desktop\"]";

fn visible_app() -> App {
    App::new(Some(FAVORITES), three(), false).0
}

fn fav(idx: usize) -> Row {
    Row::App { idx, favorite: true, draggable: true }
}

fn app_row(idx: usize, favorite: bool) -> Row {
    Row::App { idx, favorite, draggable: false }
}

fn cat(name: &str, icon: &str) -> Row {
    Row::Category { name: name.to_string(), icon: icon.to_string() }
}

fn adds(list: ActiveView, rows: Vec<Row>) -> Vec<Effect> {
    rows.into_iter().map(|r| Effect::AddRow(list, r)).collect()
}

fn joined(parts: Vec<Vec<Effect>>) -> Vec<Effect> {
    parts.into_iter().flatten().collect()
}

fn favorites_in(list: ActiveView) -> Vec<Effect> {
    joined(vec![
        adds(list, vec![fav(2), fav(0)]),
        vec![Effect::SetNavButton(NavAction::ShowCategories)],
    ])
}

fn shown_in(list: ActiveView) -> Vec<Effect> {
    vec![Effect::ShowList(list), Effect::SelectFirstRowSoon]
}

fn slid(list: ActiveView, direction: Direction, inside: Vec<Effect>) -> Vec<Effect> {
    joined(vec![
        vec![Effect::ClearList(list)],
        inside,
        vec![
            Effect::ShowList(list),
            Effect::SetTransition(direction),
            Effect::SlideTo(list),
            Effect::StartTimer(Timer::Animation),
        ],
    ])
}

fn categories_in(list: ActiveView) -> Vec<Effect> {
    joined(vec![
        adds(
            list,
            vec![
                cat("All Applications", "applications-other"),
                cat("Games", "applications-games"),
                cat("Office", "applications-office"),
            ],
        ),
        vec![Effect::SetNavButton(NavAction::GoBack)],
    ])
}

fn category_meta(name: &str) -> Option<RowMeta> {
    Some(RowMeta::Category { name: name.to_string() })
}

fn app_meta(idx: usize, draggable: bool) -> Option<RowMeta> {
    Some(RowMeta::App { idx, draggable })
}

#[test]
fn starts_with_the_favorites() {
    let (app, effects) = App::new(Some(FAVORITES), three(), false);
    assert_eq!(
        effects,
        joined(vec![
            favorites_in(ONE),
            shown_in(ONE),
            vec![
                Effect::WatchDirectories,
                Effect::ConnectWindow,
                Effect::ShowWindow,
                Effect::FocusList(ONE),
                Effect::SignalPanel(true),
            ],
        ])
    );
    assert!(app.is_visible());
    assert_eq!(app.pages(), &vec![Page::Favorites]);
    assert_eq!(app.current(), ONE);
    assert!(!app.is_dragging());
    assert_eq!(app.dragged_row(), None);
    assert_eq!(app.apps().len(), 3);
    assert_eq!(app.favorites(), &vec!["gamma.desktop", "gone.desktop", "alpha.desktop"]);
}

#[test]
fn starts_hidden_as_a_daemon() {
    let (app, effects) = App::new(None, three(), true);
    assert_eq!(
        effects,
        joined(vec![
            vec![Effect::SetNavButton(NavAction::ShowCategories)],
            shown_in(ONE),
            vec![Effect::WatchDirectories, Effect::ConnectWindow],
        ])
    );
    assert!(!app.is_visible());
    assert!(app.favorites().is_empty());
}

#[test]
fn toggling_hides_and_shows() {
    let mut app = visible_app();
    assert_eq!(
        app.toggle_visibility(Some("[]")),
        vec![Effect::HideWindow, Effect::SignalPanel(false)]
    );
    assert!(!app.is_visible());
    let effects = app.toggle_visibility(Some(FAVORITES));
    assert_eq!(
        effects,
        joined(vec![
            vec![Effect::ClearList(ONE), Effect::ClearSearch],
            favorites_in(ONE),
            shown_in(ONE),
            vec![
                Effect::BlockRowActivation,
                Effect::ShowWindow,
                Effect::PresentWindow,
                Effect::SelectFirstRowSoon,
                Effect::SignalPanel(true),
                Effect::StartTimer(Timer::RowActivation),
            ],
        ])
    );
    assert!(app.is_visible());
    assert_eq!(app.unblock_row_activation(), vec![Effect::UnblockRowActivation]);
}

#[test]
fn showing_loads_the_favorites_and_leaves_the_pages() {
    let mut app = visible_app();
    app.nav_action(NavAction::ShowCategories);
    app.hide_launcher();
    app.show_launcher(Some("[\"beta.desktop\"]"));
    assert_eq!(app.pages(), &vec![Page::Favorites]);
    assert_eq!(app.favorites(), &vec!["beta.desktop"]);
}

#[test]
fn categories_slide_in() {
    let mut app = visible_app();
    let effects = app.nav_action(NavAction::ShowCategories);
    assert_eq!(effects, slid(TWO, Direction::Forward, categories_in(TWO)));
    assert_eq!(app.current(), TWO);
    assert_eq!(app.pages(), &vec![Page::Favorites, Page::Categories]);
    assert_eq!(app.on_animation_end(), vec![Effect::SelectFirstRowSoon]);
}

#[test]
fn category_page_and_back() {
    let mut app = visible_app();
    app.nav_action(NavAction::ShowCategories);
    app.on_animation_end();
    let effects = app.on_row_activated(&category_meta("Games"));
    assert_eq!(
        effects,
        slid(
            ONE,
            Direction::Forward,
            joined(vec![
                adds(ONE, vec![app_row(0, true), app_row(2, true)]),
                vec![Effect::SetNavButton(NavAction::GoBack)],
            ])
        )
    );
    assert_eq!(
        app.pages(),
        &vec![Page::Favorites, Page::Categories, Page::Category("Games".to_string())]
    );
    app.on_animation_end();
    assert_eq!(app.go_back(), slid(TWO, Direction::Back, categories_in(TWO)));
    assert_eq!(app.pages(), &vec![Page::Favorites, Page::Categories]);
    app.on_animation_end();
    assert_eq!(
        app.nav_action(NavAction::GoBack),
        slid(ONE, Direction::Back, favorites_in(ONE))
    );
    assert_eq!(app.pages(), &vec![Page::Favorites]);
    app.on_animation_end();
    assert!(app.go_back().is_empty());
}

#[test]
fn back_opens_the_category_below() {
    let mut app = visible_app();
    app.on_row_activated(&category_meta("Office"));
    app.on_animation_end();
    app.on_row_activated(&category_meta("Games"));
    app.on_animation_end();
    assert_eq!(
        app.go_back(),
        slid(
            TWO,
            Direction::Back,
            joined(vec![
                adds(TWO, vec![app_row(1, false)]),
                vec![Effect::SetNavButton(NavAction::GoBack)],
            ])
        )
    );
    assert_eq!(app.pages(), &vec![Page::Favorites, Page::Category("Office".to_string())]);
}

#[test]
fn no_second_slide_while_one_runs() {
    let mut app = visible_app();
    app.nav_action(NavAction::ShowCategories);
    assert!(app.on_row_activated(&category_meta("Games")).is_empty());
    assert_eq!(app.pages().len(), 3);
    assert_eq!(app.current(), TWO);
}

#[test]
fn category_names_give_their_members() {
    let app = visible_app();
    assert_eq!(app.apps_for_category("All Applications"), vec![0, 1, 2]);
    assert_eq!(app.apps_for_category("Games"), vec![0, 2]);
    assert_eq!(app.apps_for_category("Office"), vec![1]);
    assert!(app.apps_for_category("Other").is_empty());
}

#[test]
fn searching_replaces_the_rows() {
    let mut app = visible_app();
    assert_eq!(
        app.on_search_changed("ALPHA"),
        joined(vec![
            vec![Effect::ClearList(ONE)],
            adds(ONE, vec![app_row(0, true)]),
            shown_in(ONE),
        ])
    );
    assert_eq!(
        app.on_search_changed("a"),
        joined(vec![
            vec![Effect::ClearList(ONE)],
            adds(ONE, vec![app_row(0, true), app_row(1, false), app_row(2, true)]),
            shown_in(ONE),
        ])
    );
    assert_eq!(app.pages(), &vec![Page::Favorites]);
}

#[test]
fn lowered_query_is_searched_as_it_is() {
    let mut app = visible_app();
    assert_eq!(
        app.on_lowered_search_changed("BETA", "beta"),
        joined(vec![
            vec![Effect::ClearList(ONE)],
            adds(ONE, vec![app_row(1, false)]),
            shown_in(ONE),
        ])
    );
    assert_eq!(
        app.on_lowered_search_changed("BETA", "BETA"),
        joined(vec![vec![Effect::ClearList(ONE)], shown_in(ONE)])
    );
}

#[test]
fn empty_search_restores_the_page() {
    let mut app = visible_app();
    app.on_search_changed("beta");
    assert_eq!(
        app.on_search_changed(""),
        joined(vec![vec![Effect::ClearList(ONE)], favorites_in(ONE), shown_in(ONE)])
    );
    app.nav_action(NavAction::ShowCategories);
    assert_eq!(
        app.on_search_changed(""),
        joined(vec![vec![Effect::ClearList(TWO)], categories_in(TWO), shown_in(TWO)])
    );
}

#[test]
fn at_most_twenty_results_are_shown() {
    let names: Vec<String> = (0..30).map(|i| format!("App{:02}", i)).collect();
    let list: Vec<(&str, &str)> = names.iter().map(|n| (n.as_str(), "")).collect();
    let (mut app, _) = App::new(None, entries(&list), false);
    let effects = app.on_search_changed("app");
    let rows: Vec<Row> = (0..20).map(|i| app_row(i, false)).collect();
    assert_eq!(
        effects,
        joined(vec![vec![Effect::ClearList(ONE)], adds(ONE, rows), shown_in(ONE)])
    );
}

#[test]
fn return_launches_the_selected_application() {
    let app = visible_app();
    let launch = |idx| vec![Effect::Launch { idx, step: LaunchStep::DesktopFile }];
    assert_eq!(app.on_search_activate("x", &app_meta(1, false), &vec![]), launch(1));
    assert_eq!(app.on_search_activate("x", &None, &vec![app_meta(2, false)]), launch(2));
    assert_eq!(app.launch_app(0), launch(0));
}

#[test]
fn return_runs_a_command_otherwise() {
    let app = visible_app();
    let shell = vec![Effect::RunShell("ls -l".to_string())];
    assert_eq!(app.on_search_activate("  ls -l ", &None, &vec![]), shell);
    assert_eq!(app.on_search_activate("ls -l", &category_meta("Games"), &vec![None]), shell);
    assert_eq!(
        app.on_search_activate("ls -l", &None, &vec![app_meta(0, false), app_meta(1, false)]),
        shell
    );
    assert!(app.on_search_activate("   ", &app_meta(1, false), &vec![]).is_empty());
}

#[test]
fn started_command_hides_the_launcher() {
    let mut app = visible_app();
    assert!(app.on_shell_started(false).is_empty());
    assert!(app.is_visible());
    assert_eq!(app.on_shell_started(true), vec![Effect::HideWindow, Effect::SignalPanel(false)]);
    assert!(!app.is_visible());
}

#[test]
fn launching_tries_three_ways() {
    let mut app = visible_app();
    assert_eq!(
        app.on_launched(1, LaunchStep::DesktopFile, false),
        vec![Effect::Launch { idx: 1, step: LaunchStep::GtkLaunch }]
    );
    assert_eq!(
        app.on_launched(1, LaunchStep::GtkLaunch, false),
        vec![Effect::Launch { idx: 1, step: LaunchStep::DbusLaunch }]
    );
    assert_eq!(
        app.on_launched(1, LaunchStep::DbusLaunch, false),
        vec![Effect::ReportLaunchFailure("Beta".to_string())]
    );
    assert!(app.is_visible());
    assert_eq!(
        app.on_launched(1, LaunchStep::GtkLaunch, true),
        vec![Effect::HideWindow, Effect::SignalPanel(false)]
    );
    assert!(!app.is_visible());
}

#[test]
fn rows_are_activated_unless_dragged() {
    let mut app = visible_app();
    assert!(app.on_row_activated(&None).is_empty());
    assert_eq!(
        app.on_row_activated(&app_meta(2, true)),
        vec![Effect::Launch { idx: 2, step: LaunchStep::DesktopFile }]
    );
    app.on_button_press(1, &app_meta(2, true), 7);
    assert!(app.on_row_activated(&app_meta(2, true)).is_empty());
}

#[test]
fn pointer_selects_rows() {
    let mut app = visible_app();
    assert_eq!(app.on_row_enter(4), vec![Effect::SelectRow(4)]);
    app.on_row_leave(4);
    assert_eq!(app.on_listbox_leave(), Propagation::Proceed);
    app.on_button_press(1, &app_meta(2, true), 7);
    assert!(app.on_row_enter(4).is_empty());
}

#[test]
fn buttons_of_the_pointer() {
    let mut app = visible_app();
    let menu = app.on_button_press(3, &app_meta(1, false), 5);
    assert_eq!(menu.effects, vec![Effect::ShowContextMenu(1)]);
    assert_eq!(menu.propagation, Propagation::Stop);
    let none = app.on_button_press(3, &category_meta("Games"), 5);
    assert!(none.effects.is_empty());
    assert_eq!(none.propagation, Propagation::Stop);
    let plain = app.on_button_press(1, &app_meta(1, false), 5);
    assert!(plain.effects.is_empty());
    assert_eq!(plain.propagation, Propagation::Proceed);
    assert!(!app.is_dragging());
    let drag = app.on_button_press(1, &app_meta(1, true), 5);
    assert_eq!(drag.effects, vec![Effect::SelectRow(5)]);
    assert_eq!(drag.propagation, Propagation::Proceed);
    assert_eq!(app.dragged_row(), Some(5));
    assert!(app.on_button_press(2, &app_meta(1, true), 6).effects.is_empty());
}

#[test]
fn dragging_moves_the_row() {
    let mut app = visible_app();
    assert!(app.drag_motion_to(Some((6, 1)), 0).is_empty());
    app.on_button_press(1, &app_meta(2, true), 5);
    assert_eq!(app.drag_motion_to(Some((6, 1)), 0), vec![Effect::MoveRow { row: 5, to: 1 }]);
    assert!(app.drag_motion_to(Some((5, 1)), 1).is_empty());
    assert!(app.drag_motion_to(Some((6, 1)), 1).is_empty());
    assert!(app.drag_motion_to(None, 1).is_empty());
}

#[test]
fn dropping_reorders_the_favorites() {
    let mut app = visible_app();
    let rows = vec![
        RowMeta::App { idx: 0, draggable: true },
        RowMeta::App { idx: 2, draggable: true },
    ];
    assert!(app.on_button_release(&rows).effects.is_empty());
    assert_eq!(app.favorites().len(), 3);
    app.on_button_press(1, &app_meta(2, true), 5);
    let r = app.on_button_release(&rows);
    assert_eq!(
        r.effects,
        vec![Effect::SaveFavorites("[\n  \"alpha.desktop\",\n  \"gamma.desktop\"\n]".to_string())]
    );
    assert_eq!(r.propagation, Propagation::Proceed);
    assert_eq!(app.favorites(), &vec!["alpha.desktop", "gamma.desktop"]);
    assert!(!app.is_dragging());
    assert_eq!(app.dragged_row(), None);
}

#[test]
fn dropping_skips_category_rows() {
    let mut app = visible_app();
    app.on_button_press(1, &app_meta(2, true), 5);
    app.on_button_release(&vec![
        RowMeta::Category { name: "Games".to_string() },
        RowMeta::App { idx: 1, draggable: true },
    ]);
    assert_eq!(app.favorites(), &vec!["beta.desktop"]);
}

#[test]
fn star_on_the_favorites_page() {
    let (mut app, _) = App::new(Some("[\"gamma.desktop\", \"alpha.desktop\"]"), three(), false);
    assert_eq!(
        app.on_favorite_clicked(2),
        joined(vec![
            vec![Effect::SaveFavorites("[\n  \"alpha.desktop\"\n]".to_string())],
            adds(ONE, vec![fav(0)]),
            vec![Effect::SetNavButton(NavAction::ShowCategories)],
            shown_in(ONE),
        ])
    );
    assert_eq!(app.favorites(), &vec!["alpha.desktop"]);
    assert_eq!(app.pages(), &vec![Page::Favorites]);
}

#[test]
fn star_on_a_category_page() {
    let mut app = visible_app();
    app.on_row_activated(&category_meta("Office"));
    app.on_animation_end();
    let effects = app.on_favorite_clicked(1);
    assert_eq!(
        effects[1..],
        joined(vec![
            vec![Effect::ClearList(TWO)],
            adds(TWO, vec![app_row(1, true)]),
            vec![Effect::SetNavButton(NavAction::GoBack)],
            shown_in(TWO),
        ])
    );
    assert!(matches!(effects[0], Effect::SaveFavorites(_)));
    assert_eq!(app.favorites().last().unwrap(), "beta.desktop");
    assert_eq!(app.pages(), &vec![Page::Favorites, Page::Category("Office".to_string())]);
}

#[test]
fn star_above_the_categories_changes_no_rows() {
    let mut app = visible_app();
    app.nav_action(NavAction::ShowCategories);
    app.on_animation_end();
    app.on_search_changed("beta");
    let effects = app.on_favorite_clicked(1);
    assert_eq!(effects.len(), 1);
    assert!(matches!(effects[0], Effect::SaveFavorites(_)));
}

#[test]
fn changed_directories_are_reloaded_once() {
    let mut app = visible_app();
    assert!(app.on_desktop_dir_changed(None).is_empty());
    assert!(app.on_desktop_dir_changed(Some("mimeinfo.cache")).is_empty());
    assert_eq!(
        app.on_desktop_dir_changed(Some("new.desktop")),
        vec![Effect::StartTimer(Timer::Reload)]
    );
    assert!(app.on_desktop_dir_changed(Some("new.desktop")).is_empty());
    app.reload_applications(three());
    assert_eq!(
        app.on_desktop_dir_changed(Some("new.desktop")),
        vec![Effect::StartTimer(Timer::Reload)]
    );
}

#[test]
fn reload_refreshes_the_visible_page() {
    let mut app = visible_app();
    let more = entries(&[("Gamma", "Game;"), ("Alpha", "Game;"), ("Beta", "Office;"), ("Gone", "")]);
    assert_eq!(
        app.reload_applications(more),
        joined(vec![
            vec![Effect::ClearList(ONE)],
            adds(ONE, vec![fav(2), fav(3), fav(0)]),
            vec![Effect::SetNavButton(NavAction::ShowCategories)],
            shown_in(ONE),
        ])
    );
    assert_eq!(app.apps_for_category("Other"), vec![3]);
    app.hide_launcher();
    assert!(app.reload_applications(three()).is_empty());
    assert_eq!(app.apps().len(), 3);
}

#[test]
fn lost_focus_hides_after_a_while() {
    let mut app = visible_app();
    let r = app.on_focus_out();
    assert_eq!(r.effects, vec![Effect::StartTimer(Timer::FocusOut)]);
    assert_eq!(r.propagation, Propagation::Proceed);
    assert_eq!(
        app.on_focus_out().effects,
        vec![Effect::StopFocusTimer, Effect::StartTimer(Timer::FocusOut)]
    );
    assert_eq!(
        app.hide_launcher(),
        vec![Effect::StopFocusTimer, Effect::HideWindow, Effect::SignalPanel(false)]
    );
    assert_eq!(app.hide_launcher(), vec![Effect::HideWindow, Effect::SignalPanel(false)]);
}

#[test]
fn regained_focus_stops_the_timer() {
    let mut app = visible_app();
    app.on_focus_out();
    assert_eq!(
        app.on_focus_in(true).effects,
        vec![Effect::StopFocusTimer, Effect::FocusList(ONE), Effect::RedrawSearch]
    );
    assert!(app.on_focus_in(false).effects.is_empty());
}

#[test]
fn down_leaves_the_search_entry() {
    let app = visible_app();
    let down = app.on_search_entry_key_press(Key::Down);
    assert_eq!(down.effects, vec![Effect::SelectFirstRow]);
    assert_eq!(down.propagation, Propagation::Proceed);
    assert!(app.on_search_entry_key_press(Key::Up).effects.is_empty());
}

#[test]
fn escape_goes_back_then_hides() {
    let mut app = visible_app();
    app.nav_action(NavAction::ShowCategories);
    app.on_animation_end();
    let back = app.on_key_press(Key::Escape, true, false, &None);
    assert_eq!(back.effects, slid(ONE, Direction::Back, favorites_in(ONE)));
    assert_eq!(back.propagation, Propagation::Stop);
    let out = app.on_key_press(Key::Escape, false, true, &None);
    assert_eq!(out.effects, vec![Effect::HideWindow, Effect::SignalPanel(false)]);
    assert_eq!(out.propagation, Propagation::Stop);
}

#[test]
fn arrows_up_and_down_focus_the_list() {
    let mut app = visible_app();
    for key in [Key::Up, Key::Down] {
        let r = app.on_key_press(key, true, false, &None);
        assert_eq!(r.effects, vec![Effect::FocusList(ONE)]);
        assert_eq!(r.propagation, Propagation::Proceed);
        assert!(app.on_key_press(key, false, true, &None).effects.is_empty());
    }
}

#[test]
fn arrow_right_opens() {
    let mut app = visible_app();
    let r = app.on_key_press(Key::Right, false, true, &app_meta(2, true));
    assert_eq!(r.effects, slid(TWO, Direction::Forward, categories_in(TWO)));
    assert_eq!(r.propagation, Propagation::Stop);
    app.on_animation_end();
    let still = app.on_key_press(Key::Right, false, true, &None);
    assert!(still.effects.is_empty());
    assert_eq!(still.propagation, Propagation::Stop);
    app.on_key_press(Key::Right, false, true, &category_meta("Office"));
    assert_eq!(app.pages().last(), Some(&Page::Category("Office".to_string())));
    let typing = app.on_key_press(Key::Right, true, false, &category_meta("Games"));
    assert!(typing.effects.is_empty());
    assert_eq!(typing.propagation, Propagation::Proceed);
}

#[test]
fn arrow_left_goes_back_or_searches() {
    let mut app = visible_app();
    let top = app.on_key_press(Key::Left, false, true, &None);
    assert_eq!(top.effects, vec![Effect::FocusSearch]);
    assert_eq!(top.propagation, Propagation::Proceed);
    app.nav_action(NavAction::ShowCategories);
    app.on_animation_end();
    assert!(app.on_key_press(Key::Left, true, false, &None).effects.is_empty());
    let back = app.on_key_press(Key::Left, false, true, &None);
    assert_eq!(back.effects, slid(ONE, Direction::Back, favorites_in(ONE)));
    assert_eq!(back.propagation, Propagation::Stop);
}

#[test]
fn other_keys_start_a_search() {
    let mut app = visible_app();
    let r = app.on_key_press(Key::Other, false, true, &None);
    assert_eq!(r.effects, vec![Effect::FocusSearch]);
    assert_eq!(r.propagation, Propagation::Proceed);
    assert!(app.on_key_press(Key::Other, true, false, &None).effects.is_empty());
    for key in [Key::Return, Key::KeypadEnter] {
        let enter = app.on_key_press(key, false, true, &None);
        assert!(enter.effects.is_empty());
        assert_eq!(enter.propagation, Propagation::Proceed);
    }
}

#[test]
fn texts_and_icons_of_the_window() {
    assert_eq!(list_name(ONE), "view1");
    assert_eq!(list_name(TWO), "view2");
    assert_eq!(ONE.other(), TWO);
    assert_eq!(TWO.other(), ONE);
    assert_eq!(timer_delay(Timer::RowActivation), 150);
    assert_eq!(timer_delay(Timer::Animation), 260);
    assert_eq!(timer_delay(Timer::Reload), 500);
    assert_eq!(timer_delay(Timer::FocusOut), 500);
    let forward = nav_button(NavAction::ShowCategories);
    assert_eq!((forward.label, forward.icon, forward.arrow), ("All Applications", "folder", true));
    let back = nav_button(NavAction::GoBack);
    assert_eq!((back.label, back.icon, back.arrow), ("Back", "go-previous", false));
    assert_eq!(star_icon(true), "starred");
    assert_eq!(star_icon(false), "non-starred");
}

#[test]
fn icons_of_categories() {
    for (name, icon) in [
        ("Multimedia", "applications-multimedia"),
        ("Development", "applications-development"),
        ("Education", "applications-science"),
        ("Games", "applications-games"),
        ("Graphics", "applications-graphics"),
        ("Internet", "applications-internet"),
        ("Office", "applications-office"),
        ("Science", "applications-science"),
        ("Settings", "preferences-system"),
        ("System Tools", "applications-system"),
        ("Accessories", "applications-accessories"),
        ("Other", "applications-other"),
        ("Elsewhere", "folder"),
    ] {
        assert_eq!(category_icon(name), icon);
    }
}
