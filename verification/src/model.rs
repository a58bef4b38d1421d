//! The launcher as a mathematical state machine: its state, and for each
//! event the next state and what the window is told to do.
use vstd::prelude::*;

use crate::desktop::{self, CategoryModel, EntryModel};
use crate::favorites;
use crate::listing;
use crate::text;
use crate::ui::{
    self, ActiveView, Direction, Effect, Key, LaunchStep, NavAction, Page, Propagation, Row,
    RowMeta, Timer,
};

verus! {

pub type Effects = Seq<Effect<Seq<char>>>;

/// The state of the launcher.
#[verifier::ext_equal]
pub struct AppModel {
    /// The applications, in the order of their names.
    pub apps: Seq<EntryModel>,
    /// The categories of the applications.
    pub categories: Seq<CategoryModel>,
    /// The desktop ids of the favorites.
    pub favorites: Seq<Seq<char>>,
    /// The pages that lead to the one that is shown, which is the last.
    pub stack: Seq<Page<Seq<char>>>,
    /// The list that is shown.
    pub current: ActiveView,
    /// A row is being dragged.
    pub dragging: bool,
    /// The row that is being dragged.
    pub drag_row: Option<u64>,
    /// The row below the pointer.
    pub hovered: Option<u64>,
    /// The lists are sliding.
    pub animating: bool,
    /// The window is shown.
    pub visible: bool,
    /// The timer that hides the launcher is running.
    pub focus_timer: bool,
    /// The timer that loads the applications again is running.
    pub reload_pending: bool,
}

/// The next state, and what the window is told to do.
#[verifier::ext_equal]
pub struct Outcome {
    pub app: AppModel,
    pub effects: Effects,
}

/// The effects that put `rows` into the list.
pub open spec fn row_effects(list: ActiveView, rows: Seq<Row<Seq<char>>>) -> Effects {
    rows.map_values(|row: Row<Seq<char>>| Effect::AddRow(list, row))
}

/// The button below a page.
pub open spec fn nav_of(page: Page<Seq<char>>) -> NavAction {
    if page is Favorites {
        NavAction::ShowCategories
    } else {
        NavAction::GoBack
    }
}

/// The name of the category that holds all applications.
pub open spec fn all_applications() -> Seq<char> {
    "All Applications"@
}

/// At most this many results of a search are shown.
pub const SEARCH_LIMIT: usize = 20;

/// The desktop ids of the rows that stand for applications, in their order.
pub open spec fn row_ids(apps: Seq<EntryModel>, rows: Seq<RowMeta<Seq<char>>>) -> Seq<Seq<char>>
    decreases rows.len(),
{
    if rows.len() == 0 {
        seq![]
    } else {
        let before = row_ids(apps, rows.drop_last());
        match rows.last() {
            RowMeta::App { idx, draggable } => before.push(apps[idx as int].desktop_id),
            RowMeta::Category { name } => before,
        }
    }
}

/// The row stands for the application at a position of `apps`, or for a
/// category.
pub open spec fn row_within(apps: Seq<EntryModel>, row: RowMeta<Seq<char>>) -> bool {
    row matches RowMeta::App { idx, draggable } ==> idx < apps.len()
}

/// The application that a row stands for.
pub open spec fn app_of(row: Option<RowMeta<Seq<char>>>) -> Option<usize> {
    match row {
        Some(RowMeta::App { idx, draggable }) => Some(idx),
        _ => None,
    }
}

impl AppModel {
    /// The categories are those of the applications.
    pub open spec fn wf(self) -> bool {
        desktop::is_organized(self.apps, self.categories)
    }

    /// The favorites page: the installed favorites, in their order.
    pub open spec fn favorite_rows(self) -> Seq<Row<Seq<char>>> {
        listing::shown_favorites(self.apps, self.favorites).map_values(
            |i: usize| Row::App { idx: i, favorite: true, draggable: true },
        )
    }

    /// The categories page: all applications, then the categories by name.
    pub open spec fn category_rows(self) -> Seq<Row<Seq<char>>> {
        seq![Row::Category { name: all_applications(), icon: "applications-other"@ }]
            + self.categories.map_values(
            |c: CategoryModel| Row::Category { name: c.name, icon: ui::icon_of_category(c.name) },
        )
    }

    /// Rows for the applications at the positions `idxs`, each with its star.
    pub open spec fn app_rows(self, idxs: Seq<usize>) -> Seq<Row<Seq<char>>> {
        idxs.map_values(
            |i: usize|
                Row::App {
                    idx: i,
                    favorite: self.favorites.contains(self.apps[i as int].desktop_id),
                    draggable: false,
                },
        )
    }

    /// The positions of the applications of a category.
    pub open spec fn members_of(self, name: Seq<char>) -> Seq<usize> {
        if name == all_applications() {
            Seq::new(self.apps.len(), |i: int| i as usize)
        } else {
            desktop::members(self.apps, name)
        }
    }

    /// The rows of a page.
    pub open spec fn rows_of(self, page: Page<Seq<char>>) -> Seq<Row<Seq<char>>> {
        match page {
            Page::Favorites => self.favorite_rows(),
            Page::Categories => self.category_rows(),
            Page::Category(name) => self.app_rows(
                listing::by_name(self.apps, self.members_of(name)),
            ),
        }
    }

    /// The list gets the rows of the page, and the button that belongs to it.
    pub open spec fn populate(self, list: ActiveView, page: Page<Seq<char>>) -> Effects {
        row_effects(list, self.rows_of(page)).push(Effect::SetNavButton(nav_of(page)))
    }

    /// The current list gets the rows of the page on top of what it has.
    pub open spec fn populate_current(self, page: Page<Seq<char>>) -> Effects {
        self.populate(self.current, page) + seq![
            Effect::ShowList(self.current),
            Effect::SelectFirstRowSoon,
        ]
    }

    /// The lists slide to the page, unless they are still sliding.
    pub open spec fn slide(self, direction: Direction, page: Page<Seq<char>>) -> Outcome {
        let next = self.current.spec_other();
        if self.animating {
            Outcome { app: self, effects: seq![] }
        } else {
            Outcome {
                app: AppModel { animating: true, current: next, ..self },
                effects: seq![Effect::ClearList(next)] + self.populate(next, page) + seq![
                    Effect::ShowList(next),
                    Effect::SetTransition(direction),
                    Effect::SlideTo(next),
                    Effect::StartTimer(Timer::Animation),
                ],
            }
        }
    }

    /// The favorites become the only page.
    pub open spec fn favorites_view(self, animate: bool, direction: Direction) -> Outcome {
        let app = AppModel { stack: seq![Page::Favorites], ..self };
        if animate {
            app.slide(direction, Page::Favorites)
        } else {
            Outcome { app, effects: app.populate_current(Page::Favorites) }
        }
    }

    /// The categories page is opened on top.
    pub open spec fn categories_view(self, direction: Direction) -> Outcome {
        AppModel { stack: self.stack.push(Page::Categories), ..self }.slide(
            direction,
            Page::Categories,
        )
    }

    /// The page of a category is opened on top.
    pub open spec fn category_view(
        self,
        name: Seq<char>,
        direction: Direction,
        animate: bool,
    ) -> Outcome {
        let page = Page::Category(name);
        let app = AppModel { stack: self.stack.push(page), ..self };
        if animate {
            app.slide(direction, page)
        } else {
            Outcome {
                app,
                effects: seq![Effect::ClearList(self.current)] + app.populate_current(page),
            }
        }
    }

    /// The page is opened on top; the favorites become the only page.
    pub open spec fn open_page(self, page: Page<Seq<char>>, direction: Direction) -> Outcome {
        match page {
            Page::Favorites => self.favorites_view(true, direction),
            Page::Categories => self.categories_view(direction),
            Page::Category(name) => self.category_view(name, direction, true),
        }
    }

    /// The page below the top is opened again in place of the two.
    pub open spec fn back(self) -> Outcome {
        let depth = self.stack.len();
        if depth <= 1 {
            Outcome { app: self, effects: seq![] }
        } else {
            AppModel { stack: self.stack.take(depth - 2), ..self }.open_page(
                self.stack[depth - 2],
                Direction::Back,
            )
        }
    }

    /// The page on top is shown again in the current list.
    pub open spec fn restored(self) -> Outcome {
        if self.stack.len() == 0 {
            self.favorites_view(false, Direction::Back)
        } else {
            Outcome {
                app: self,
                effects: seq![Effect::ClearList(self.current)] + self.populate_current(
                    self.stack.last(),
                ),
            }
        }
    }

    /// The positions of the results that are shown for a query in lower case.
    pub open spec fn results(self, query: Seq<char>) -> Seq<usize> {
        let found = listing::found(self.apps, query);
        if found.len() <= SEARCH_LIMIT {
            found
        } else {
            found.take(SEARCH_LIMIT as int)
        }
    }

    /// The current list shows the results for a query in lower case.
    pub open spec fn search_results(self, query: Seq<char>) -> Effects {
        seq![Effect::ClearList(self.current)] + row_effects(
            self.current,
            self.app_rows(self.results(query)),
        ) + seq![Effect::ShowList(self.current), Effect::SelectFirstRowSoon]
    }

    /// The text of the search entry has changed to `query`, which is `low` in
    /// lower case.
    pub open spec fn searched(self, query: Seq<char>, low: Seq<char>) -> Outcome {
        if query.len() > 0 {
            Outcome { app: self, effects: self.search_results(low) }
        } else {
            self.restored()
        }
    }

    /// The window is hidden.
    pub open spec fn hidden(self) -> Outcome {
        Outcome {
            app: AppModel { focus_timer: false, visible: false, ..self },
            effects: self.stop_focus_timer() + seq![
                Effect::HideWindow,
                Effect::SignalPanel(false),
            ],
        }
    }

    /// The timer that hides the launcher is stopped, where it is running.
    pub open spec fn stop_focus_timer(self) -> Effects {
        if self.focus_timer {
            seq![Effect::StopFocusTimer]
        } else {
            seq![]
        }
    }

    /// The window is shown, with the favorites `favorites`.
    pub open spec fn shown(self, favorites: Seq<Seq<char>>) -> Outcome {
        let cleared = AppModel { favorites, stack: seq![], ..self };
        let opened = cleared.favorites_view(false, Direction::Back);
        Outcome {
            app: AppModel { visible: true, ..opened.app },
            effects: seq![Effect::ClearList(self.current), Effect::ClearSearch] + opened.effects
                + seq![
                Effect::BlockRowActivation,
                Effect::ShowWindow,
                Effect::PresentWindow,
                Effect::SelectFirstRowSoon,
                Effect::SignalPanel(true),
                Effect::StartTimer(Timer::RowActivation),
            ],
        }
    }

    /// The window is hidden where it is shown, and shown where it is hidden.
    pub open spec fn toggled(self, favorites: Seq<Seq<char>>) -> Outcome {
        if self.visible {
            self.hidden()
        } else {
            self.shown(favorites)
        }
    }

    /// The star of the application at position `idx` has been clicked.
    pub open spec fn star_clicked(self, idx: int) -> Outcome {
        let favorites = favorites::toggled(self.favorites, self.apps[idx].desktop_id);
        let app = AppModel { favorites, ..self };
        let below = AppModel { stack: self.stack.drop_last(), ..app };
        let saved = seq![Effect::SaveFavorites(favorites::strings_json(favorites))];
        let next = if self.stack.len() == 0 {
            Outcome { app, effects: seq![] }
        } else {
            match self.stack.last() {
                Page::Favorites => below.favorites_view(false, Direction::Back),
                Page::Category(name) => below.category_view(name, Direction::Forward, false),
                Page::Categories => Outcome { app, effects: seq![] },
            }
        };
        Outcome { app: next.app, effects: saved + next.effects }
    }

    /// A row has been activated.
    pub open spec fn row_activated(self, row: Option<RowMeta<Seq<char>>>) -> Outcome {
        match row {
            Some(RowMeta::Category { name }) => self.category_view(name, Direction::Forward, true),
            Some(RowMeta::App { idx, draggable }) => if self.dragging {
                Outcome { app: self, effects: seq![] }
            } else {
                self.launch(idx)
            },
            None => Outcome { app: self, effects: seq![] },
        }
    }

    /// The application is to be started, in the first way.
    pub open spec fn launch(self, idx: usize) -> Outcome {
        Outcome {
            app: self,
            effects: seq![Effect::Launch { idx, step: LaunchStep::DesktopFile }],
        }
    }

    /// Starting the application in the way `step` went well, or failed.
    pub open spec fn launched(self, idx: usize, step: LaunchStep, ok: bool) -> Outcome {
        if ok {
            self.hidden()
        } else {
            Outcome {
                app: self,
                effects: seq![
                    match step {
                        LaunchStep::DesktopFile => Effect::Launch {
                            idx,
                            step: LaunchStep::GtkLaunch,
                        },
                        LaunchStep::GtkLaunch => Effect::Launch {
                            idx,
                            step: LaunchStep::DbusLaunch,
                        },
                        LaunchStep::DbusLaunch => Effect::ReportLaunchFailure(
                            self.apps[idx as int].name,
                        ),
                    },
                ],
            }
        }
    }

    /// Return has been pressed in the search entry, which holds `query`;
    /// `selected` is the selected row, and `rows` are the rows of the list.
    pub open spec fn search_activated(
        self,
        query: Seq<char>,
        selected: Option<RowMeta<Seq<char>>>,
        rows: Seq<Option<RowMeta<Seq<char>>>>,
    ) -> Outcome {
        let command = text::trimmed(query);
        if command.len() == 0 {
            Outcome { app: self, effects: seq![] }
        } else if app_of(selected) is Some {
            self.launch(app_of(selected)->0)
        } else if rows.len() == 1 && app_of(rows[0]) is Some {
            self.launch(app_of(rows[0])->0)
        } else {
            Outcome { app: self, effects: seq![Effect::RunShell(command)] }
        }
    }

    /// The pointer has come to a row.
    pub open spec fn row_entered(self, row: u64) -> Outcome {
        if self.dragging {
            Outcome { app: self, effects: seq![] }
        } else {
            Outcome {
                app: AppModel { hovered: Some(row), ..self },
                effects: seq![Effect::SelectRow(row)],
            }
        }
    }

    /// The pointer has left a row.
    pub open spec fn row_left(self, row: u64) -> AppModel {
        if !self.dragging && self.hovered == Some(row) {
            AppModel { hovered: None, ..self }
        } else {
            self
        }
    }

    /// A button of the pointer has been pressed on a row.
    pub open spec fn button_pressed(
        self,
        button: u32,
        meta: Option<RowMeta<Seq<char>>>,
        row: u64,
    ) -> (Outcome, Propagation) {
        let nothing = Outcome { app: self, effects: seq![] };
        if button == 3 {
            (
                match app_of(meta) {
                    Some(idx) => Outcome {
                        app: self,
                        effects: seq![Effect::ShowContextMenu(idx)],
                    },
                    None => nothing,
                },
                Propagation::Stop,
            )
        } else if button == 1 && (meta matches Some(RowMeta::App { idx, draggable })
            && draggable) {
            (
                Outcome {
                    app: AppModel { dragging: true, drag_row: Some(row), ..self },
                    effects: seq![Effect::SelectRow(row)],
                },
                Propagation::Proceed,
            )
        } else {
            (nothing, Propagation::Proceed)
        }
    }

    /// The pointer is dragged over the row `target`, if any, which stands at
    /// `target_index`; the dragged row stands at `drag_index`.
    pub open spec fn drag_effects(
        self,
        target: Option<(u64, i32)>,
        drag_index: i32,
    ) -> Effects {
        match (self.drag_row, target) {
            (Some(row), Some((over, index))) => if self.dragging && over != row && drag_index
                != index {
                seq![Effect::MoveRow { row, to: index }]
            } else {
                seq![]
            },
            _ => seq![],
        }
    }

    /// The button of the pointer has been released; `rows` are the rows of the
    /// list.
    pub open spec fn button_released(self, rows: Seq<RowMeta<Seq<char>>>) -> Outcome {
        if self.dragging {
            let favorites = row_ids(self.apps, rows);
            Outcome {
                app: AppModel { dragging: false, drag_row: None, favorites, ..self },
                effects: seq![Effect::SaveFavorites(favorites::strings_json(favorites))],
            }
        } else {
            Outcome { app: self, effects: seq![] }
        }
    }

    /// A file of a watched directory has changed; `name` is its name.
    pub open spec fn directory_changed(self, name: Option<Seq<char>>) -> Outcome {
        if !self.reload_pending && (name matches Some(n) && text::has_suffix(n, ".desktop"@)) {
            Outcome {
                app: AppModel { reload_pending: true, ..self },
                effects: seq![Effect::StartTimer(Timer::Reload)],
            }
        } else {
            Outcome { app: self, effects: seq![] }
        }
    }

    /// The applications have been loaded again.
    pub open spec fn reloaded(
        self,
        apps: Seq<EntryModel>,
        categories: Seq<CategoryModel>,
    ) -> Outcome {
        let app = AppModel { apps, categories, reload_pending: false, ..self };
        if self.visible {
            app.restored()
        } else {
            Outcome { app, effects: seq![] }
        }
    }

    /// The window has lost the focus.
    pub open spec fn focus_lost(self) -> Outcome {
        Outcome {
            app: AppModel { focus_timer: true, ..self },
            effects: self.stop_focus_timer().push(Effect::StartTimer(Timer::FocusOut)),
        }
    }

    /// The window has got the focus; `search_empty` says whether the search
    /// entry is empty.
    pub open spec fn focus_gained(self, search_empty: bool) -> Outcome {
        Outcome {
            app: AppModel { focus_timer: false, ..self },
            effects: self.stop_focus_timer() + (if search_empty {
                seq![Effect::FocusList(self.current), Effect::RedrawSearch]
            } else {
                seq![]
            }),
        }
    }

    /// The lists have stopped sliding.
    pub open spec fn animation_ended(self) -> Outcome {
        Outcome {
            app: AppModel { animating: false, ..self },
            effects: seq![Effect::SelectFirstRowSoon],
        }
    }

    /// The button below the list has been pressed.
    pub open spec fn nav_pressed(self, action: NavAction) -> Outcome {
        match action {
            NavAction::ShowCategories => self.categories_view(Direction::Forward),
            NavAction::GoBack => self.back(),
        }
    }

    /// The right arrow key has been pressed outside the search entry.
    pub open spec fn right_pressed(self, selected: Option<RowMeta<Seq<char>>>) -> Outcome {
        match selected {
            Some(RowMeta::Category { name }) => self.category_view(name, Direction::Forward, true),
            _ => if self.stack.len() > 0 && self.stack.last() is Favorites {
                self.categories_view(Direction::Forward)
            } else {
                Outcome { app: self, effects: seq![] }
            },
        }
    }

    /// A key has been pressed; `search_focused` and `list_focused` say what
    /// has the focus, and `selected` is the selected row.
    pub open spec fn key_pressed(
        self,
        key: Key,
        search_focused: bool,
        list_focused: bool,
        selected: Option<RowMeta<Seq<char>>>,
    ) -> (Outcome, Propagation) {
        let nothing = Outcome { app: self, effects: seq![] };
        let deep = self.stack.len() > 1;
        match key {
            Key::Escape => (
                if deep {
                    self.back()
                } else {
                    self.hidden()
                },
                Propagation::Stop,
            ),
            Key::Up | Key::Down => (
                if list_focused {
                    nothing
                } else {
                    Outcome { app: self, effects: seq![Effect::FocusList(self.current)] }
                },
                Propagation::Proceed,
            ),
            Key::Return | Key::KeypadEnter => (nothing, Propagation::Proceed),
            _ => if search_focused {
                (nothing, Propagation::Proceed)
            } else if key is Right {
                (self.right_pressed(selected), Propagation::Stop)
            } else if key is Left && deep {
                (self.back(), Propagation::Stop)
            } else {
                (
                    Outcome { app: self, effects: seq![Effect::FocusSearch] },
                    Propagation::Proceed,
                )
            },
        }
    }
}

/// The launcher when it starts.
pub open spec fn started(
    favorites: Seq<Seq<char>>,
    apps: Seq<EntryModel>,
    categories: Seq<CategoryModel>,
    start_hidden: bool,
) -> Outcome {
    let opened = AppModel {
        apps,
        categories,
        favorites,
        stack: seq![],
        current: ActiveView::One,
        dragging: false,
        drag_row: None,
        hovered: None,
        animating: false,
        visible: false,
        focus_timer: false,
        reload_pending: false,
    }.favorites_view(false, Direction::Back);
    let watching = opened.effects + seq![Effect::WatchDirectories, Effect::ConnectWindow];
    Outcome {
        app: AppModel { visible: !start_hidden, ..opened.app },
        effects: if start_hidden {
            watching
        } else {
            watching + seq![
                Effect::ShowWindow,
                Effect::FocusList(ActiveView::One),
                Effect::SignalPanel(true),
            ]
        },
    }
}

} // verus!
