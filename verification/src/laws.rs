//! What holds of the launcher as a whole, whatever happens to it.
use vstd::prelude::*;

use crate::desktop::{self, CategoryModel, EntryModel};
use crate::listing;
use crate::model::{self, AppModel, Effects, Outcome, SEARCH_LIMIT};
use crate::text;
use crate::ui::{
    ActiveView, Direction, Effect, Key, LaunchStep, NavAction, Page, Row, RowMeta, Timer,
};

verus! {

/// Something that happens to the launcher.
pub enum Event {
    /// The launcher is told to show or hide itself; the favorites are those in
    /// the file.
    Toggled { favorites: Seq<Seq<char>> },
    /// The launcher is closed, or has been without the focus for too long.
    Closed,
    NavPressed(NavAction),
    AnimationEnded,
    /// The search entry holds `query`, which is `low` in lower case.
    Searched { query: Seq<char>, low: Seq<char> },
    SearchActivated {
        query: Seq<char>,
        selected: Option<RowMeta<Seq<char>>>,
        children: Seq<Option<RowMeta<Seq<char>>>>,
    },
    ShellStarted { ok: bool },
    Launched { idx: usize, step: LaunchStep, ok: bool },
    RowActivated(Option<RowMeta<Seq<char>>>),
    RowEntered(u64),
    RowLeft(u64),
    ListLeft,
    ButtonPressed { button: u32, meta: Option<RowMeta<Seq<char>>>, row: u64 },
    ButtonReleased { rows: Seq<RowMeta<Seq<char>>> },
    StarClicked(usize),
    DirectoryChanged(Option<Seq<char>>),
    Reloaded { apps: Seq<EntryModel>, categories: Seq<CategoryModel> },
    FocusLost,
    FocusGained { search_empty: bool },
    KeyPressed {
        key: Key,
        search_focused: bool,
        list_focused: bool,
        selected: Option<RowMeta<Seq<char>>>,
    },
}

/// What the launcher does on an event.
pub open spec fn step(app: AppModel, event: Event) -> Outcome {
    match event {
        Event::Toggled { favorites } => app.toggled(favorites),
        Event::Closed => app.hidden(),
        Event::NavPressed(action) => app.nav_pressed(action),
        Event::AnimationEnded => app.animation_ended(),
        Event::Searched { query, low } => app.searched(query, low),
        Event::SearchActivated { query, selected, children } => app.search_activated(
            query,
            selected,
            children,
        ),
        Event::ShellStarted { ok } => if ok {
            app.hidden()
        } else {
            Outcome { app, effects: seq![] }
        },
        Event::Launched { idx, step, ok } => app.launched(idx, step, ok),
        Event::RowActivated(row) => app.row_activated(row),
        Event::RowEntered(row) => app.row_entered(row),
        Event::RowLeft(row) => Outcome { app: app.row_left(row), effects: seq![] },
        Event::ListLeft => Outcome {
            app: AppModel { hovered: None, ..app },
            effects: seq![],
        },
        Event::ButtonPressed { button, meta, row } => app.button_pressed(button, meta, row).0,
        Event::ButtonReleased { rows } => app.button_released(rows),
        Event::StarClicked(idx) => app.star_clicked(idx as int),
        Event::DirectoryChanged(name) => app.directory_changed(name),
        Event::Reloaded { apps, categories } => app.reloaded(apps, categories),
        Event::FocusLost => app.focus_lost(),
        Event::FocusGained { search_empty } => app.focus_gained(search_empty),
        Event::KeyPressed { key, search_focused, list_focused, selected } => app.key_pressed(
            key,
            search_focused,
            list_focused,
            selected,
        ).0,
    }
}

/// The favorites are the first page, and no other.
pub open spec fn well_stacked(app: AppModel) -> bool {
    &&& app.stack.len() > 0
    &&& app.stack[0] is Favorites
    &&& forall|i: int| 0 < i < app.stack.len() ==> !(#[trigger] app.stack[i] is Favorites)
}

/// Whatever happens, the favorites stay the first page and occur nowhere else.
pub proof fn law_favorites_come_first(app: AppModel, event: Event)
    requires
        well_stacked(app),
    ensures
        well_stacked(step(app, event).app),
{
    match event {
        Event::Toggled { favorites } => {
            assert(well_stacked(app.shown(favorites).app));
        },
        Event::NavPressed(action) => {
            lemma_nav_stacked(app, action);
        },
        Event::Searched { query, low } => {
            assert(app.searched(query, low).app == app);
        },
        Event::SearchActivated { query, selected, children } => {
            assert(app.search_activated(query, selected, children).app == app);
        },
        Event::Launched { idx, step, ok } => {
            assert(app.launched(idx, step, ok).app.stack == app.stack);
        },
        Event::RowActivated(row) => {
            lemma_row_activated_stacked(app, row);
        },
        Event::ButtonPressed { button, meta, row } => {
            assert(app.button_pressed(button, meta, row).0.app.stack == app.stack);
        },
        Event::ButtonReleased { rows } => {
            assert(app.button_released(rows).app.stack == app.stack);
        },
        Event::StarClicked(idx) => {
            lemma_star_stacked(app, idx as int);
        },
        Event::DirectoryChanged(name) => {
            assert(app.directory_changed(name).app.stack == app.stack);
        },
        Event::Reloaded { apps, categories } => {
            assert(app.reloaded(apps, categories).app.stack == app.stack);
        },
        Event::KeyPressed { key, search_focused, list_focused, selected } => {
            lemma_key_stacked(app, key, search_focused, list_focused, selected);
        },
        _ => {
            assert(step(app, event).app.stack == app.stack);
        },
    }
}

proof fn lemma_nav_stacked(app: AppModel, action: NavAction)
    requires
        well_stacked(app),
    ensures
        well_stacked(app.nav_pressed(action).app),
{
    lemma_back_stack(app);
    lemma_opened_stack(app, seq![], Direction::Forward, true);
}

proof fn lemma_row_activated_stacked(app: AppModel, row: Option<RowMeta<Seq<char>>>)
    requires
        well_stacked(app),
    ensures
        well_stacked(app.row_activated(row).app),
{
    if let Some(RowMeta::Category { name }) = row {
        lemma_opened_stack(app, name, Direction::Forward, true);
    }
}

proof fn lemma_star_stacked(app: AppModel, idx: int)
    requires
        well_stacked(app),
    ensures
        well_stacked(app.star_clicked(idx).app),
        app.stack.last() is Category ==> app.star_clicked(idx).app.stack == app.stack,
{
    if let Page::Category(name) = app.stack.last() {
        assert(app.star_clicked(idx).app.stack =~= app.stack);
    }
}

proof fn lemma_key_stacked(
    app: AppModel,
    key: Key,
    search_focused: bool,
    list_focused: bool,
    selected: Option<RowMeta<Seq<char>>>,
)
    requires
        well_stacked(app),
    ensures
        well_stacked(app.key_pressed(key, search_focused, list_focused, selected).0.app),
{
    lemma_back_stack(app);
    lemma_opened_stack(app, seq![], Direction::Forward, true);
    if let Some(RowMeta::Category { name }) = selected {
        lemma_opened_stack(app, name, Direction::Forward, true);
    }
    assert(app.hidden().app.stack == app.stack);
    assert(well_stacked(app.right_pressed(selected).app));
}

/// Opening a page puts it on top.
proof fn lemma_opened_stack(
    app: AppModel,
    name: Seq<char>,
    direction: Direction,
    animate: bool,
)
    ensures
        app.category_view(name, direction, animate).app.stack == app.stack.push(
            Page::Category(name),
        ),
        app.categories_view(direction).app.stack == app.stack.push(Page::Categories),
        well_stacked(app) ==> well_stacked(app.category_view(name, direction, animate).app),
        well_stacked(app) ==> well_stacked(app.categories_view(direction).app),
{
}

/// The launcher starts on the favorites page.
pub proof fn law_starts_at_favorites(
    favorites: Seq<Seq<char>>,
    apps: Seq<EntryModel>,
    categories: Seq<CategoryModel>,
    start_hidden: bool,
)
    ensures
        well_stacked(model::started(favorites, apps, categories, start_hidden).app),
        model::started(favorites, apps, categories, start_hidden).app.stack == seq![
            Page::<Seq<char>>::Favorites,
        ],
        model::started(favorites, apps, categories, start_hidden).app.visible == !start_hidden,
{
}

/// Going back takes the page on top away, and nothing from the favorites.
proof fn lemma_back_stack(app: AppModel)
    requires
        well_stacked(app),
    ensures
        app.back().app.stack == (if app.stack.len() > 1 {
            app.stack.drop_last()
        } else {
            app.stack
        }),
{
    let depth = app.stack.len() as int;
    if depth > 1 {
        let below = app.stack.take(depth - 2);
        let previous = app.stack[depth - 2];
        if depth == 2 {
            assert(app.stack.drop_last() =~= seq![Page::<Seq<char>>::Favorites]);
        } else {
            assert(!(previous is Favorites));
            assert(below.push(previous) =~= app.stack.drop_last());
        }
    }
}

/// The categories stay those of the applications.
pub proof fn law_categories_stay_organized(app: AppModel, event: Event)
    requires
        app.wf(),
        event matches Event::Reloaded { apps, categories } ==> desktop::is_organized(
            apps,
            categories,
        ),
    ensures
        step(app, event).app.wf(),
{
}

/// Going back undoes opening the page of a category, and opening the
/// categories.
pub proof fn law_back_undoes_opening(
    app: AppModel,
    name: Seq<char>,
    direction: Direction,
    animate: bool,
)
    requires
        well_stacked(app),
    ensures
        app.category_view(name, direction, animate).app.back().app.stack == app.stack,
        app.categories_view(direction).app.back().app.stack == app.stack,
{
    lemma_opened_stack(app, name, direction, animate);
    let one = app.category_view(name, direction, animate).app;
    let two = app.categories_view(direction).app;
    assert(well_stacked(one));
    assert(well_stacked(two));
    lemma_back_stack(one);
    lemma_back_stack(two);
    assert(one.stack.drop_last() =~= app.stack);
    assert(two.stack.drop_last() =~= app.stack);
}

/// Escape takes the page on top away, and hides the launcher on the favorites
/// page.
pub proof fn law_escape_leads_out(
    app: AppModel,
    search_focused: bool,
    list_focused: bool,
    selected: Option<RowMeta<Seq<char>>>,
)
    requires
        well_stacked(app),
    ensures
        ({
            let after = app.key_pressed(Key::Escape, search_focused, list_focused, selected).0.app;
            if app.stack.len() > 1 {
                after.stack == app.stack.drop_last() && after.visible == app.visible
            } else {
                after.stack == app.stack && !after.visible
            }
        }),
{
    lemma_back_stack(app);
}

/// What the effects make of the screen, apart from a drag: the rows of the two
/// lists, the list that is shown, the button below it, whether the window is
/// shown and what the panel says of that, and whether the timer that hides the
/// launcher is running.
#[verifier::ext_equal]
pub struct Screen {
    pub one: Seq<Row<Seq<char>>>,
    pub two: Seq<Row<Seq<char>>>,
    pub list: ActiveView,
    pub button: Option<NavAction>,
    pub window: bool,
    pub panel: bool,
    pub focus_timer: bool,
}

impl Screen {
    /// The rows of a list.
    pub open spec fn rows(self, list: ActiveView) -> Seq<Row<Seq<char>>> {
        match list {
            ActiveView::One => self.one,
            ActiveView::Two => self.two,
        }
    }

    pub open spec fn with_rows(self, list: ActiveView, rows: Seq<Row<Seq<char>>>) -> Screen {
        match list {
            ActiveView::One => Screen { one: rows, ..self },
            ActiveView::Two => Screen { two: rows, ..self },
        }
    }

    /// The screen after one effect.
    pub open spec fn after(self, effect: Effect<Seq<char>>) -> Screen {
        match effect {
            Effect::ClearList(list) => self.with_rows(list, seq![]),
            Effect::AddRow(list, row) => self.with_rows(list, self.rows(list).push(row)),
            Effect::SlideTo(list) => Screen { list, ..self },
            Effect::SetNavButton(action) => Screen { button: Some(action), ..self },
            Effect::ShowWindow => Screen { window: true, ..self },
            Effect::HideWindow => Screen { window: false, ..self },
            Effect::SignalPanel(visible) => Screen { panel: visible, ..self },
            Effect::StartTimer(Timer::FocusOut) => Screen { focus_timer: true, ..self },
            Effect::StopFocusTimer => Screen { focus_timer: false, ..self },
            _ => self,
        }
    }

    /// The screen after some effects, one after another.
    pub open spec fn after_all(self, effects: Effects) -> Screen
        decreases effects.len(),
    {
        if effects.len() == 0 {
            self
        } else {
            self.after_all(effects.drop_last()).after(effects.last())
        }
    }

    /// The screen is in the state in which the launcher believes it to be.
    pub open spec fn mirrors(self, app: AppModel) -> bool {
        &&& self.list == app.current
        &&& self.window == app.visible
        &&& self.panel == app.visible
        &&& self.focus_timer == app.focus_timer
    }

    /// The current list shows the rows of the page on top, above its button.
    pub open spec fn shows_top(self, app: AppModel) -> bool {
        &&& app.stack.len() > 0
        &&& self.rows(app.current) == app.rows_of(app.stack.last())
        &&& self.button == Some(model::nav_of(app.stack.last()))
    }
}

/// Effects one after another do what they do together.
pub(crate) proof fn lemma_after_concat(screen: Screen, a: Effects, b: Effects)
    ensures
        screen.after_all(a + b) == screen.after_all(a).after_all(b),
    decreases b.len(),
{
    if b.len() == 0 {
        assert(a + b =~= a);
    } else {
        assert((a + b).drop_last() =~= a + b.drop_last());
        lemma_after_concat(screen, a, b.drop_last());
    }
}

/// Row effects add their rows to the list, and do nothing else.
pub(crate) proof fn lemma_after_rows(screen: Screen, list: ActiveView, rows: Seq<Row<Seq<char>>>)
    ensures
        screen.after_all(model::row_effects(list, rows)) == screen.with_rows(
            list,
            screen.rows(list) + rows,
        ),
    decreases rows.len(),
{
    let effects = model::row_effects(list, rows);
    if rows.len() == 0 {
        assert(screen.rows(list) + rows =~= screen.rows(list));
    } else {
        assert(effects.drop_last() =~= model::row_effects(list, rows.drop_last()));
        lemma_after_rows(screen, list, rows.drop_last());
        assert((screen.rows(list) + rows.drop_last()).push(rows.last()) =~= screen.rows(list)
            + rows);
    }
}

/// Populating a list adds the rows of the page to it, and sets the button.
pub(crate) proof fn lemma_after_populate(
    screen: Screen,
    app: AppModel,
    list: ActiveView,
    page: Page<Seq<char>>,
)
    ensures
        screen.after_all(app.populate(list, page)) == (Screen {
            button: Some(model::nav_of(page)),
            ..screen.with_rows(list, screen.rows(list) + app.rows_of(page))
        }),
{
    let effects = app.populate(list, page);
    assert(effects.drop_last() =~= model::row_effects(list, app.rows_of(page)));
    lemma_after_rows(screen, list, app.rows_of(page));
}

/// A few effects, one by one.
pub(crate) proof fn lemma_after_few(screen: Screen, effects: Effects)
    ensures
        effects.len() == 0 ==> screen.after_all(effects) == screen,
        effects.len() == 1 ==> screen.after_all(effects) == screen.after(effects[0]),
        effects.len() == 2 ==> screen.after_all(effects) == screen.after(effects[0]).after(
            effects[1],
        ),
        effects.len() == 3 ==> screen.after_all(effects) == screen.after(effects[0]).after(
            effects[1],
        ).after(effects[2]),
        effects.len() == 4 ==> screen.after_all(effects) == screen.after(effects[0]).after(
            effects[1],
        ).after(effects[2]).after(effects[3]),
        effects.len() == 6 ==> screen.after_all(effects) == screen.after(effects[0]).after(
            effects[1],
        ).after(effects[2]).after(effects[3]).after(effects[4]).after(effects[5]),
{
    reveal_with_fuel(Screen::after_all, 7);
}

pub(crate) proof fn lemma_after_populate_current(screen: Screen, app: AppModel, page: Page<Seq<char>>)
    ensures
        screen.after_all(app.populate_current(page)) == screen.after_all(
            app.populate(app.current, page),
        ),
{
    let tail = seq![Effect::<Seq<char>>::ShowList(app.current), Effect::SelectFirstRowSoon];
    lemma_after_concat(screen, app.populate(app.current, page), tail);
    lemma_after_few(screen.after_all(app.populate(app.current, page)), tail);
}

pub(crate) proof fn lemma_after_clear_and_populate(screen: Screen, app: AppModel, page: Page<Seq<char>>)
    ensures
        ({
            let effects = seq![Effect::ClearList(app.current)] + app.populate_current(page);
            let after = screen.after_all(effects);
            after == (Screen {
                button: Some(model::nav_of(page)),
                ..screen.with_rows(app.current, app.rows_of(page))
            })
        }),
{
    let clear = seq![Effect::<Seq<char>>::ClearList(app.current)];
    let cleared = screen.after_all(clear);
    lemma_after_concat(screen, clear, app.populate_current(page));
    lemma_after_few(screen, clear);
    lemma_after_populate_current(cleared, app, page);
    lemma_after_populate(cleared, app, app.current, page);
    assert(cleared.rows(app.current) + app.rows_of(page) =~= app.rows_of(page));
}

/// Sliding to a page shows it on the other list, unless the lists are sliding
/// already.
pub(crate) proof fn lemma_after_slide(
    screen: Screen,
    app: AppModel,
    direction: Direction,
    page: Page<Seq<char>>,
)
    ensures
        ({
            let next = app.current.spec_other();
            let after = screen.after_all(app.slide(direction, page).effects);
            if app.animating {
                after == screen
            } else {
                after == (Screen {
                    button: Some(model::nav_of(page)),
                    list: next,
                    ..screen.with_rows(next, app.rows_of(page))
                })
            }
        }),
{
    let next = app.current.spec_other();
    if !app.animating {
        let clear = seq![Effect::<Seq<char>>::ClearList(next)];
        let fill = app.populate(next, page);
        let tail = seq![
            Effect::<Seq<char>>::ShowList(next),
            Effect::SetTransition(direction),
            Effect::SlideTo(next),
            Effect::StartTimer(Timer::Animation),
        ];
        let cleared = screen.after_all(clear);
        lemma_after_few(screen, clear);
        lemma_after_concat(screen, clear, fill);
        lemma_after_concat(screen, clear + fill, tail);
        lemma_after_populate(cleared, app, next, page);
        lemma_after_few(cleared.after_all(fill), tail);
        assert(cleared.rows(next) + app.rows_of(page) =~= app.rows_of(page));
    }
}

proof fn lemma_after_back(screen: Screen, app: AppModel)
    requires
        screen.mirrors(app),
    ensures
        screen.after_all(app.back().effects).mirrors(app.back().app),
{
    let depth = app.stack.len() as int;
    if depth > 1 {
        let below = AppModel { stack: app.stack.take(depth - 2), ..app };
        let page = app.stack[depth - 2];
        let opened = AppModel {
            stack: match page {
                Page::Favorites => seq![Page::Favorites],
                _ => below.stack.push(page),
            },
            ..app
        };
        lemma_after_slide(screen, opened, Direction::Back, page);
        assert(app.back() == opened.slide(Direction::Back, page));
    }
}

proof fn lemma_after_hidden(screen: Screen, app: AppModel)
    requires
        screen.mirrors(app),
    ensures
        screen.after_all(app.hidden().effects).mirrors(app.hidden().app),
{
    let stop = app.stop_focus_timer();
    let tail = seq![Effect::<Seq<char>>::HideWindow, Effect::SignalPanel(false)];
    lemma_after_concat(screen, stop, tail);
    lemma_after_few(screen, stop);
    lemma_after_few(screen.after_all(stop), tail);
}

proof fn lemma_after_shown(screen: Screen, app: AppModel, favorites: Seq<Seq<char>>)
    requires
        screen.mirrors(app),
    ensures
        screen.after_all(app.shown(favorites).effects).mirrors(app.shown(favorites).app),
        screen.after_all(app.shown(favorites).effects).shows_top(app.shown(favorites).app),
{
    let cleared = AppModel { favorites, stack: seq![Page::Favorites], ..app };
    let clear = seq![Effect::<Seq<char>>::ClearList(app.current), Effect::ClearSearch];
    let fill = cleared.populate_current(Page::Favorites);
    let tail = seq![
        Effect::<Seq<char>>::BlockRowActivation,
        Effect::ShowWindow,
        Effect::PresentWindow,
        Effect::SelectFirstRowSoon,
        Effect::SignalPanel(true),
        Effect::StartTimer(Timer::RowActivation),
    ];
    assert(app.shown(favorites).effects =~= clear + fill + tail);
    let after_clear = screen.after_all(clear);
    lemma_after_few(screen, clear);
    lemma_after_concat(screen, clear, fill);
    lemma_after_concat(screen, clear + fill, tail);
    lemma_after_populate_current(after_clear, cleared, Page::Favorites);
    lemma_after_populate(after_clear, cleared, app.current, Page::Favorites);
    lemma_after_few(after_clear.after_all(fill), tail);
    assert(after_clear.rows(app.current) + cleared.rows_of(Page::Favorites) =~= cleared.rows_of(
        Page::Favorites,
    ));
    let shown = app.shown(favorites).app;
    assert(shown.rows_of(Page::Favorites) =~= cleared.rows_of(Page::Favorites));
}

/// The effect leaves what [`Screen::mirrors`] speaks of alone.
spec fn quiet(effect: Effect<Seq<char>>) -> bool {
    match effect {
        Effect::SlideTo(_) | Effect::ShowWindow | Effect::HideWindow | Effect::SignalPanel(_)
        | Effect::StopFocusTimer => false,
        Effect::StartTimer(timer) => timer != Timer::FocusOut,
        _ => true,
    }
}

spec fn all_quiet(effects: Effects) -> bool {
    forall|i: int| 0 <= i < effects.len() ==> quiet(#[trigger] effects[i])
}

proof fn lemma_quiet(screen: Screen, effects: Effects, app: AppModel)
    requires
        all_quiet(effects),
        screen.mirrors(app),
    ensures
        screen.after_all(effects).mirrors(app),
    decreases effects.len(),
{
    if effects.len() > 0 {
        let front = effects.drop_last();
        assert forall|i: int| 0 <= i < front.len() implies quiet(#[trigger] front[i]) by {
            assert(front[i] == effects[i]);
        }
        lemma_quiet(screen, front, app);
        assert(quiet(effects[effects.len() - 1]));
    }
}

proof fn lemma_populate_quiet(app: AppModel, page: Page<Seq<char>>)
    ensures
        all_quiet(app.populate_current(page)),
        all_quiet(seq![Effect::ClearList(app.current)] + app.populate_current(page)),
{
    let rows = model::row_effects(app.current, app.rows_of(page));
    assert(all_quiet(rows));
    assert(all_quiet(app.populate(app.current, page)));
    assert(all_quiet(app.populate_current(page)));
}

proof fn lemma_restored_quiet(app: AppModel)
    ensures
        all_quiet(app.restored().effects),
        app.restored().app.current == app.current,
        app.restored().app.visible == app.visible,
        app.restored().app.focus_timer == app.focus_timer,
{
    if app.stack.len() == 0 {
        let opened = AppModel { stack: seq![Page::Favorites], ..app };
        lemma_populate_quiet(opened, Page::Favorites);
    } else {
        lemma_populate_quiet(app, app.stack.last());
    }
}

proof fn lemma_search_quiet(app: AppModel, low: Seq<char>)
    ensures
        all_quiet(app.search_results(low)),
{
    let rows = model::row_effects(app.current, app.app_rows(app.results(low)));
    assert(all_quiet(rows));
}

proof fn lemma_star_mirrored(screen: Screen, app: AppModel, idx: int)
    requires
        screen.mirrors(app),
    ensures
        screen.after_all(app.star_clicked(idx).effects).mirrors(app.star_clicked(idx).app),
{
    let favorites = crate::favorites::toggled(app.favorites, app.apps[idx].desktop_id);
    let starred = AppModel { favorites, ..app };
    if app.stack.len() > 0 {
        let below = AppModel { stack: app.stack.drop_last(), ..starred };
        match app.stack.last() {
            Page::Favorites => {
                let opened = AppModel { stack: seq![Page::Favorites], ..below };
                lemma_populate_quiet(opened, Page::Favorites);
            },
            Page::Category(name) => {
                let opened = AppModel { stack: below.stack.push(Page::Category(name)), ..below };
                lemma_populate_quiet(opened, Page::Category(name));
            },
            Page::Categories => {},
        }
    }
    assert(all_quiet(app.star_clicked(idx).effects));
    lemma_quiet(screen, app.star_clicked(idx).effects, app.star_clicked(idx).app);
}

proof fn lemma_categories_mirrored(screen: Screen, app: AppModel, direction: Direction)
    requires
        screen.mirrors(app),
    ensures
        screen.after_all(app.categories_view(direction).effects).mirrors(
            app.categories_view(direction).app,
        ),
{
    let opened = AppModel { stack: app.stack.push(Page::Categories), ..app };
    lemma_after_slide(screen, opened, direction, Page::Categories);
}

proof fn lemma_category_mirrored(
    screen: Screen,
    app: AppModel,
    name: Seq<char>,
    direction: Direction,
)
    requires
        screen.mirrors(app),
    ensures
        screen.after_all(app.category_view(name, direction, true).effects).mirrors(
            app.category_view(name, direction, true).app,
        ),
{
    let page = Page::Category(name);
    let opened = AppModel { stack: app.stack.push(page), ..app };
    lemma_after_slide(screen, opened, direction, page);
}

proof fn lemma_key_mirrored(
    screen: Screen,
    app: AppModel,
    key: Key,
    search_focused: bool,
    list_focused: bool,
    selected: Option<RowMeta<Seq<char>>>,
)
    requires
        screen.mirrors(app),
    ensures
        ({
            let next = app.key_pressed(key, search_focused, list_focused, selected).0;
            screen.after_all(next.effects).mirrors(next.app)
        }),
{
    lemma_after_back(screen, app);
    lemma_after_hidden(screen, app);
    lemma_categories_mirrored(screen, app, Direction::Forward);
    if let Some(RowMeta::Category { name }) = selected {
        lemma_category_mirrored(screen, app, name, Direction::Forward);
    }
    lemma_after_few(screen, seq![Effect::<Seq<char>>::FocusSearch]);
    lemma_after_few(screen, seq![Effect::<Seq<char>>::FocusList(app.current)]);
    assert(screen.after_all(seq![]) == screen);
}

proof fn lemma_focus_mirrored(screen: Screen, app: AppModel, search_empty: bool)
    requires
        screen.mirrors(app),
    ensures
        screen.after_all(app.focus_lost().effects).mirrors(app.focus_lost().app),
        screen.after_all(app.focus_gained(search_empty).effects).mirrors(
            app.focus_gained(search_empty).app,
        ),
{
    let stop = app.stop_focus_timer();
    let tail = if search_empty {
        seq![Effect::<Seq<char>>::FocusList(app.current), Effect::RedrawSearch]
    } else {
        seq![]
    };
    lemma_after_few(screen, stop);
    assert(app.focus_lost().effects.drop_last() =~= stop);
    lemma_after_concat(screen, stop, tail);
    lemma_after_few(screen.after_all(stop), tail);
}

proof fn lemma_launched_mirrored(
    screen: Screen,
    app: AppModel,
    idx: usize,
    step: LaunchStep,
    ok: bool,
)
    requires
        screen.mirrors(app),
    ensures
        screen.after_all(app.launched(idx, step, ok).effects).mirrors(
            app.launched(idx, step, ok).app,
        ),
{
    if ok {
        lemma_after_hidden(screen, app);
    } else {
        assert(all_quiet(app.launched(idx, step, ok).effects));
        lemma_quiet(screen, app.launched(idx, step, ok).effects, app);
    }
}

proof fn lemma_row_activated_mirrored(
    screen: Screen,
    app: AppModel,
    row: Option<RowMeta<Seq<char>>>,
)
    requires
        screen.mirrors(app),
    ensures
        screen.after_all(app.row_activated(row).effects).mirrors(app.row_activated(row).app),
{
    if let Some(RowMeta::Category { name }) = row {
        lemma_category_mirrored(screen, app, name, Direction::Forward);
    } else {
        assert(all_quiet(app.row_activated(row).effects));
        lemma_quiet(screen, app.row_activated(row).effects, app);
    }
}

/// The events that neither open a page nor show or hide the window.
proof fn lemma_small_steps_mirrored(screen: Screen, app: AppModel, event: Event)
    requires
        screen.mirrors(app),
        event is AnimationEnded || event is SearchActivated || event is RowEntered
            || event is RowLeft || event is ListLeft || event is ButtonPressed
            || event is ButtonReleased || event is DirectoryChanged,
    ensures
        screen.after_all(step(app, event).effects).mirrors(step(app, event).app),
{
    let next = step(app, event);
    assert(all_quiet(next.effects));
    lemma_quiet(screen, next.effects, next.app);
}

/// Whatever happens, the effects keep the screen in the state in which the
/// launcher believes it to be: the window is shown exactly while the launcher
/// is visible, the panel says so, the list on screen is the current one, and
/// the timer that hides the launcher runs exactly while the launcher counts on
/// it, so that there is never a second one.
pub proof fn law_screen_follows(screen: Screen, app: AppModel, event: Event)
    requires
        screen.mirrors(app),
    ensures
        screen.after_all(step(app, event).effects).mirrors(step(app, event).app),
{
    let next = step(app, event);
    match event {
        Event::Toggled { favorites } => {
            lemma_after_hidden(screen, app);
            lemma_after_shown(screen, app, favorites);
        },
        Event::Closed => {
            lemma_after_hidden(screen, app);
        },
        Event::NavPressed(action) => {
            lemma_after_back(screen, app);
            lemma_categories_mirrored(screen, app, Direction::Forward);
        },
        Event::Searched { query, low } => {
            lemma_search_quiet(app, low);
            lemma_restored_quiet(app);
            lemma_quiet(screen, next.effects, next.app);
        },
        Event::ShellStarted { ok } => {
            lemma_after_hidden(screen, app);
        },
        Event::Launched { idx, step, ok } => {
            lemma_launched_mirrored(screen, app, idx, step, ok);
        },
        Event::RowActivated(row) => {
            lemma_row_activated_mirrored(screen, app, row);
        },
        Event::StarClicked(idx) => {
            lemma_star_mirrored(screen, app, idx as int);
        },
        Event::Reloaded { apps, categories } => {
            let loaded = AppModel { apps, categories, reload_pending: false, ..app };
            lemma_restored_quiet(loaded);
            lemma_quiet(screen, next.effects, next.app);
        },
        Event::FocusLost => {
            lemma_focus_mirrored(screen, app, true);
        },
        Event::FocusGained { search_empty } => {
            lemma_focus_mirrored(screen, app, search_empty);
        },
        Event::KeyPressed { key, search_focused, list_focused, selected } => {
            lemma_key_mirrored(screen, app, key, search_focused, list_focused, selected);
        },
        _ => {
            lemma_small_steps_mirrored(screen, app, event);
        },
    }
}

/// The screen of a launcher that has just started mirrors it, and shows the
/// favorites.
pub proof fn law_screen_at_start(
    screen: Screen,
    favorites: Seq<Seq<char>>,
    apps: Seq<EntryModel>,
    categories: Seq<CategoryModel>,
    start_hidden: bool,
)
    requires
        screen.one.len() == 0,
        screen.list == ActiveView::One,
        !screen.window,
        !screen.panel,
        !screen.focus_timer,
    ensures
        ({
            let start = model::started(favorites, apps, categories, start_hidden);
            let after = screen.after_all(start.effects);
            after.mirrors(start.app) && after.shows_top(start.app)
        }),
{
    let start = model::started(favorites, apps, categories, start_hidden);
    let app = AppModel { visible: false, ..start.app };
    let fill = app.populate_current(Page::Favorites);
    let watch = seq![Effect::<Seq<char>>::WatchDirectories, Effect::ConnectWindow];
    let tail = if start_hidden {
        seq![]
    } else {
        seq![
            Effect::<Seq<char>>::ShowWindow,
            Effect::FocusList(ActiveView::One),
            Effect::SignalPanel(true),
        ]
    };
    assert(start.effects =~= fill + watch + tail);
    lemma_after_concat(screen, fill, watch);
    lemma_after_concat(screen, fill + watch, tail);
    lemma_after_populate_current(screen, app, Page::Favorites);
    lemma_after_populate(screen, app, ActiveView::One, Page::Favorites);
    lemma_after_few(screen.after_all(fill), watch);
    lemma_after_few(screen.after_all(fill + watch), tail);
    assert(screen.rows(ActiveView::One) + app.rows_of(Page::Favorites) =~= app.rows_of(
        Page::Favorites,
    ));
    assert(start.app.rows_of(Page::Favorites) =~= app.rows_of(Page::Favorites));
}

/// A page that is opened while the lists stand still is what the screen shows
/// then.
pub proof fn law_opened_page_is_shown(
    screen: Screen,
    app: AppModel,
    page: Page<Seq<char>>,
    direction: Direction,
)
    requires
        !app.animating,
    ensures
        screen.after_all(app.open_page(page, direction).effects).shows_top(
            app.open_page(page, direction).app,
        ),
        app.open_page(page, direction).app.stack.last() == page,
{
    let opened = AppModel {
        stack: match page {
            Page::Favorites => seq![Page::Favorites],
            _ => app.stack.push(page),
        },
        ..app
    };
    lemma_after_slide(screen, opened, direction, page);
    let after = app.open_page(page, direction).app;
    assert(app.open_page(page, direction) == opened.slide(direction, page));
    assert(after.rows_of(page) =~= opened.rows_of(page));
}

/// Going back while the lists stand still shows the page below the top.
pub proof fn law_back_shows_page_below(screen: Screen, app: AppModel)
    requires
        !app.animating,
        app.stack.len() > 1,
    ensures
        screen.after_all(app.back().effects).shows_top(app.back().app),
        app.back().app.stack.last() == app.stack[app.stack.len() - 2],
{
    let depth = app.stack.len() as int;
    let below = AppModel { stack: app.stack.take(depth - 2), ..app };
    law_opened_page_is_shown(screen, below, app.stack[depth - 2], Direction::Back);
}

/// Emptying the search entry shows the page on top again.
pub proof fn law_empty_search_shows_page(screen: Screen, app: AppModel, low: Seq<char>)
    requires
        app.stack.len() > 0,
    ensures
        screen.after_all(app.searched(seq![], low).effects).shows_top(app),
        app.searched(seq![], low).app == app,
{
    lemma_after_clear_and_populate(screen, app, app.stack.last());
}

/// Applications that were loaded again are on screen at once where the
/// launcher is visible.
pub proof fn law_reload_refreshes_screen(
    screen: Screen,
    app: AppModel,
    apps: Seq<EntryModel>,
    categories: Seq<CategoryModel>,
)
    requires
        app.visible,
        app.stack.len() > 0,
    ensures
        screen.after_all(app.reloaded(apps, categories).effects).shows_top(
            app.reloaded(apps, categories).app,
        ),
        !app.reloaded(apps, categories).app.reload_pending,
{
    let loaded = AppModel { apps, categories, reload_pending: false, ..app };
    lemma_after_clear_and_populate(screen, loaded, app.stack.last());
}

/// Showing the launcher shows the favorites, whatever was shown before.
pub proof fn law_showing_shows_favorites(
    screen: Screen,
    app: AppModel,
    favorites: Seq<Seq<char>>,
)
    requires
        screen.mirrors(app),
        !app.visible,
    ensures
        ({
            let next = app.toggled(favorites);
            let after = screen.after_all(next.effects);
            &&& after.window
            &&& after.shows_top(next.app)
            &&& next.app.stack == seq![Page::<Seq<char>>::Favorites]
            &&& next.app.favorites == favorites
        }),
{
    lemma_after_shown(screen, app, favorites);
}

/// Toggling twice leaves the launcher visible, or hidden, as it was.
pub proof fn law_toggle_twice(app: AppModel, a: Seq<Seq<char>>, b: Seq<Seq<char>>)
    ensures
        app.toggled(a).app.visible != app.visible,
        app.toggled(a).app.toggled(b).app.visible == app.visible,
{
}

/// The rows stand for applications that there are, or for categories.
pub open spec fn rows_within(apps: Seq<EntryModel>, rows: Seq<Row<Seq<char>>>) -> bool {
    forall|k: int|
        0 <= k < rows.len() ==> (#[trigger] rows[k] matches Row::App { idx, favorite, draggable }
            ==> idx < apps.len())
}

/// Every application that a page or a search puts into a list is there.
pub proof fn law_rows_stand_for_apps(app: AppModel, page: Page<Seq<char>>, query: Seq<char>)
    requires
        app.apps.len() <= usize::MAX,
    ensures
        rows_within(app.apps, app.rows_of(page)),
        rows_within(app.apps, app.app_rows(app.results(query))),
{
    listing::law_favorites_are_shown_in_order(app.apps, app.favorites);
    listing::law_search_finds_matches(app.apps, query);
    let found = listing::found(app.apps, query);
    assert forall|k: int| 0 <= k < app.results(query).len() implies #[trigger] app.results(query)[k]
        < app.apps.len() by {
        assert(found.contains(found[k]));
    }
    if let Page::Category(name) = page {
        let members = app.members_of(name);
        let sorted = listing::by_name(app.apps, members);
        lemma_members_within(app, name);
        listing::law_sort_orders_by_name(app.apps, members);
        assert forall|k: int| 0 <= k < sorted.len() implies #[trigger] sorted[k]
            < app.apps.len() by {
            broadcast use vstd::seq_lib::group_to_multiset_ensures;

            assert(sorted.contains(sorted[k]));
            assert(sorted.to_multiset().count(sorted[k]) > 0);
            assert(members.to_multiset().count(sorted[k]) > 0);
            assert(members.contains(sorted[k]));
            let c = members.index_of(sorted[k]);
            assert(members[c] < app.apps.len());
        }
    }
}

pub(crate) proof fn lemma_members_within(app: AppModel, name: Seq<char>)
    requires
        app.apps.len() <= usize::MAX,
    ensures
        listing::within(app.apps, app.members_of(name)),
        listing::increasing(app.members_of(name)),
{
    let members = app.members_of(name);
    if name != model::all_applications() {
        desktop::law_members_increase(app.apps, name);
        assert forall|k: int| 0 <= k < members.len() implies #[trigger] members[k]
            < app.apps.len() by {
            assert(members.contains(members[k]));
        }
    }
}

/// As long as the applications stand in the order of their names, the page of
/// a category shows its members as they stand there.
pub proof fn law_category_page_keeps_order(app: AppModel, name: Seq<char>)
    requires
        app.apps.len() <= usize::MAX,
        desktop::sorted_by_name(app.apps),
    ensures
        app.rows_of(Page::Category(name)) == app.app_rows(app.members_of(name)),
{
    let members = app.members_of(name);
    lemma_members_within(app, name);
    assert forall|a: int, b: int| 0 <= a <= b < members.len() implies text::at_most(
        #[trigger] listing::lower_name(app.apps, members[a]),
        #[trigger] listing::lower_name(app.apps, members[b]),
    ) by {
        assert(members[a] <= members[b]) by {
            if a < b {
                assert(members[a] < members[b]);
            }
        }
        assert(members[b] < app.apps.len());
        assert(text::at_most(
            app.apps[members[a] as int].name_lower,
            app.apps[members[b] as int].name_lower,
        ));
    }
    listing::law_sort_keeps_order(app.apps, members);
}

/// A search shows the best matches, and not more of them than the limit; the
/// state of the launcher stays as it is.
pub proof fn law_search_shows_best(app: AppModel, query: Seq<char>, low: Seq<char>)
    requires
        query.len() > 0,
    ensures
        app.results(low).len() <= SEARCH_LIMIT,
        app.results(low) == listing::found(app.apps, low).take(app.results(low).len() as int),
        app.results(low).len() < SEARCH_LIMIT ==> app.results(low) == listing::found(app.apps, low),
        app.searched(query, low).app == app,
{
    let found = listing::found(app.apps, low);
    assert(found.take(found.len() as int) =~= found);
}

/// While the lists are sliding, no page is put on screen.
pub proof fn law_no_second_slide(app: AppModel, page: Page<Seq<char>>, direction: Direction)
    requires
        app.animating,
    ensures
        app.open_page(page, direction).effects.len() == 0,
        app.back().effects.len() == 0,
        app.open_page(page, direction).app.current == app.current,
{
}

/// However often files change, the applications are loaded again once, until
/// that has happened.
pub proof fn law_one_reload_at_a_time(
    app: AppModel,
    first: Option<Seq<char>>,
    second: Option<Seq<char>>,
)
    requires
        app.reload_pending || app.directory_changed(first).effects.len() > 0,
    ensures
        app.directory_changed(first).app.reload_pending,
        app.directory_changed(first).app.directory_changed(second).effects.len() == 0,
{
}

/// An application is tried to be started by its desktop file, then by
/// `gtk-launch`, then below `dbus-launch`; a failure is reported only after the
/// last, and the first success hides the launcher.
pub proof fn law_launch_order(app: AppModel, idx: usize, step: LaunchStep)
    ensures
        app.launch(idx).effects == seq![
            Effect::<Seq<char>>::Launch { idx, step: LaunchStep::DesktopFile },
        ],
        app.launched(idx, LaunchStep::DesktopFile, false).effects == seq![
            Effect::<Seq<char>>::Launch { idx, step: LaunchStep::GtkLaunch },
        ],
        app.launched(idx, LaunchStep::GtkLaunch, false).effects == seq![
            Effect::<Seq<char>>::Launch { idx, step: LaunchStep::DbusLaunch },
        ],
        app.launched(idx, LaunchStep::DbusLaunch, false).effects == seq![
            Effect::<Seq<char>>::ReportLaunchFailure(app.apps[idx as int].name),
        ],
        app.launched(idx, step, false).app == app,
        app.launched(idx, step, true) == app.hidden(),
{
}

/// Clicking a star on the page of a category leaves the pages as they are and
/// shows the page with the new stars; on the favorites page it leaves them as
/// they are too.
pub proof fn law_star_keeps_page(screen: Screen, app: AppModel, idx: int)
    requires
        well_stacked(app),
        app.stack.last() is Category || app.stack.last() is Favorites,
    ensures
        app.star_clicked(idx).app.stack == app.stack,
        app.stack.last() is Category ==> screen.after_all(
            app.star_clicked(idx).effects,
        ).shows_top(app.star_clicked(idx).app),
{
    let favorites = crate::favorites::toggled(app.favorites, app.apps[idx].desktop_id);
    let saved = seq![Effect::SaveFavorites(crate::favorites::strings_json(favorites))];
    let below = AppModel { favorites, stack: app.stack.drop_last(), ..app };
    if let Page::Category(name) = app.stack.last() {
        let page = Page::Category(name);
        let opened = AppModel { stack: below.stack.push(page), ..below };
        let shown = seq![Effect::ClearList(app.current)] + opened.populate_current(page);
        assert(app.star_clicked(idx).app.stack =~= app.stack);
        assert(app.star_clicked(idx).effects =~= saved + shown);
        lemma_after_concat(screen, saved, shown);
        lemma_after_clear_and_populate(screen.after_all(saved), opened, page);
    } else {
        if app.stack.len() > 1 {
            assert(!(app.stack[app.stack.len() - 1] is Favorites));
        }
        assert(app.star_clicked(idx).app.stack =~= app.stack);
    }
}

/// While a row is dragged, activating a row starts no application.
pub proof fn law_dragging_starts_nothing(app: AppModel, idx: usize, draggable: bool)
    requires
        app.dragging,
    ensures
        app.row_activated(Some(RowMeta::App { idx, draggable })).effects.len() == 0,
{
}

/// What a row of the favorites page stands for.
pub open spec fn favorite_metas(app: AppModel) -> Seq<RowMeta<Seq<char>>> {
    listing::shown_favorites(app.apps, app.favorites).map_values(
        |i: usize| RowMeta::App { idx: i, draggable: true },
    )
}

/// The desktop ids of one row.
spec fn ids_of(
    apps: Seq<EntryModel>,
    row: RowMeta<Seq<char>>,
) -> vstd::multiset::Multiset<Seq<char>> {
    match row {
        RowMeta::App { idx, draggable } => vstd::multiset::Multiset::singleton(
            apps[idx as int].desktop_id,
        ),
        RowMeta::Category { name } => vstd::multiset::Multiset::empty(),
    }
}

/// The ids of the rows are those of one of them and those of the others.
proof fn lemma_row_ids_remove(apps: Seq<EntryModel>, rows: Seq<RowMeta<Seq<char>>>, j: int)
    requires
        0 <= j < rows.len(),
    ensures
        model::row_ids(apps, rows).to_multiset() == model::row_ids(
            apps,
            rows.remove(j),
        ).to_multiset().add(ids_of(apps, rows[j])),
    decreases rows.len(),
{
    broadcast use vstd::seq_lib::group_to_multiset_ensures;

    let front = rows.drop_last();
    let last = rows.last();
    let ids = model::row_ids(apps, rows);
    assert(ids.to_multiset() =~= model::row_ids(apps, front).to_multiset().add(
        ids_of(apps, last),
    ));
    if j == rows.len() - 1 {
        assert(rows.remove(j) =~= front);
    } else {
        lemma_row_ids_remove(apps, front, j);
        let rest = rows.remove(j);
        assert(rest.drop_last() =~= front.remove(j));
        assert(rest.last() == last);
        assert(model::row_ids(apps, rest).to_multiset() =~= model::row_ids(
            apps,
            front.remove(j),
        ).to_multiset().add(ids_of(apps, last)));
        assert(ids.to_multiset() =~= model::row_ids(apps, rest).to_multiset().add(
            ids_of(apps, rows[j]),
        ));
    }
}

/// Rows that are rearranged have the same ids.
proof fn lemma_row_ids_rearranged(
    apps: Seq<EntryModel>,
    rows: Seq<RowMeta<Seq<char>>>,
    others: Seq<RowMeta<Seq<char>>>,
)
    requires
        rows.to_multiset() == others.to_multiset(),
    ensures
        model::row_ids(apps, rows).to_multiset() == model::row_ids(apps, others).to_multiset(),
    decreases rows.len(),
{
    broadcast use vstd::seq_lib::group_to_multiset_ensures;

    assert(rows.len() == rows.to_multiset().len());
    assert(others.len() == others.to_multiset().len());
    if rows.len() > 0 {
        let last = rows.last();
        assert(rows.contains(last));
        assert(others.to_multiset().count(last) > 0);
        assert(others.contains(last));
        let j = others.index_of(last);
        let front = rows.drop_last();
        assert(front =~= rows.remove(rows.len() - 1));
        assert(front.to_multiset() =~= others.remove(j).to_multiset());
        lemma_row_ids_rearranged(apps, front, others.remove(j));
        lemma_row_ids_remove(apps, rows, rows.len() - 1);
        lemma_row_ids_remove(apps, others, j);
    } else {
        assert(rows =~= others);
    }
}

proof fn lemma_ids_of_app_rows(apps: Seq<EntryModel>, idxs: Seq<usize>)
    ensures
        model::row_ids(
            apps,
            idxs.map_values(|i: usize| RowMeta::<Seq<char>>::App { idx: i, draggable: true }),
        ) == listing::ids_at(apps, idxs),
    decreases idxs.len(),
{
    let rows = idxs.map_values(|i: usize| RowMeta::<Seq<char>>::App { idx: i, draggable: true });
    if idxs.len() > 0 {
        let front = idxs.drop_last();
        lemma_ids_of_app_rows(apps, front);
        assert(rows.drop_last() =~= front.map_values(
            |i: usize| RowMeta::<Seq<char>>::App { idx: i, draggable: true },
        ));
        assert(listing::ids_at(apps, idxs) =~= listing::ids_at(apps, front).push(
            apps[idxs.last() as int].desktop_id,
        ));
    } else {
        assert(listing::ids_at(apps, idxs) =~= Seq::<Seq<char>>::empty());
    }
}

/// Moving a row in a list loses none and adds none.
pub proof fn law_moving_rearranges(rows: Seq<RowMeta<Seq<char>>>, from: int, to: int)
    requires
        0 <= from < rows.len(),
        0 <= to < rows.len(),
    ensures
        rows.remove(from).insert(to, rows[from]).to_multiset() == rows.to_multiset(),
{
    broadcast use vstd::seq_lib::group_to_multiset_ensures;

    assert(rows.to_multiset().count(rows[from]) > 0) by {
        assert(rows.contains(rows[from]));
    }
    assert(rows.remove(from).insert(to, rows[from]).to_multiset() =~= rows.to_multiset());
}

/// However the rows of the favorites page are rearranged by dragging, the
/// favorites are afterwards the installed ones that there were, in the order of
/// the rows; in the order in which the page showed them they are just these.
pub proof fn law_dragging_reorders_favorites(app: AppModel, rows: Seq<RowMeta<Seq<char>>>)
    requires
        app.apps.len() <= usize::MAX,
        app.dragging,
        rows.to_multiset() == favorite_metas(app).to_multiset(),
    ensures
        app.button_released(rows).app.favorites == model::row_ids(app.apps, rows),
        app.button_released(rows).app.favorites.to_multiset() == listing::installed(
            app.apps,
            app.favorites,
        ).to_multiset(),
        app.button_released(favorite_metas(app)).app.favorites == listing::installed(
            app.apps,
            app.favorites,
        ),
{
    let idxs = listing::shown_favorites(app.apps, app.favorites);
    lemma_row_ids_rearranged(app.apps, rows, favorite_metas(app));
    lemma_ids_of_app_rows(app.apps, idxs);
    listing::law_favorites_are_shown_in_order(app.apps, app.favorites);
}

} // verus!
