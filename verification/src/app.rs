//! The launcher: its state, and what it does on each event.
use vstd::hash_map::StringHashMap;
use vstd::prelude::*;

use crate::desktop::{self, organize_by_category, AppEntry, Category};
use crate::favorites::{self, is_favorite, load_favorites, save_favorites, toggle_favorite};
use crate::listing::{self, index_by_id, search_lowered, sort_by_name};
use crate::model::{self, AppModel, SEARCH_LIMIT};
use crate::text::{self, ends_with, same, to_lowercase, trim};
use crate::ui::{
    category_icon, ActiveView, Direction, Effect, Key, LaunchStep, NavAction, Page,
    Propagation, Response, Row, RowMeta, Timer,
};

verus! {

/// The state of the launcher.
pub struct App {
    all_apps: Vec<AppEntry>,
    by_id: StringHashMap<usize>,
    categories: Vec<Category>,
    favorites: Vec<String>,
    view_stack: Vec<Page>,
    current: ActiveView,
    dragging: bool,
    drag_row: Option<u64>,
    last_hovered_row: Option<u64>,
    is_animating: bool,
    visible: bool,
    focus_out_timeout: bool,
    reload_pending: bool,
}

impl View for App {
    type V = AppModel;

    closed spec fn view(&self) -> AppModel {
        AppModel {
            apps: self.all_apps.deep_view(),
            categories: self.categories.deep_view(),
            favorites: self.favorites.deep_view(),
            stack: self.view_stack.deep_view(),
            current: self.current,
            dragging: self.dragging,
            drag_row: self.drag_row,
            hovered: self.last_hovered_row,
            animating: self.is_animating,
            visible: self.visible,
            focus_timer: self.focus_out_timeout,
            reload_pending: self.reload_pending,
        }
    }
}

/// Tells the window one more thing to do.
fn emit(out: &mut Vec<Effect>, effect: Effect)
    ensures
        final(out).deep_view() == old(out).deep_view().push(effect@),
{
    let ghost before = out.deep_view();
    out.push(effect);
    assert(out.deep_view() =~= before.push(effect@));
}

/// No effects.
fn no_effects() -> (r: Vec<Effect>)
    ensures
        r.deep_view() == Seq::<Effect<Seq<char>>>::empty(),
{
    let r: Vec<Effect> = Vec::new();
    assert(r.deep_view() =~= Seq::<Effect<Seq<char>>>::empty());
    r
}

/// A copy of a page.
fn copy_page(page: &Page) -> (r: Page)
    ensures
        r@ == page@,
{
    match page {
        Page::Favorites => Page::Favorites,
        Page::Categories => Page::Categories,
        Page::Category(name) => Page::Category(name.clone()),
    }
}

impl App {
    /// The index and the categories are those of the applications.
    pub closed spec fn wf(&self) -> bool {
        &&& self.by_id@ == listing::id_index(self.all_apps.deep_view())
        &&& self@.wf()
    }

    /// The positions of the applications fit into the machine's integers.
    proof fn lemma_bounds(&self)
        ensures
            self@.apps.len() <= usize::MAX,
            self@.apps.len() == self.all_apps@.len(),
    {
        assert(self.all_apps.len() <= usize::MAX);
    }

    /// The positions of the applications of a category.
    pub fn apps_for_category(&self, name: &str) -> (r: Vec<usize>)
        requires
            self.wf(),
        ensures
            r@ == self@.members_of(name@),
            listing::within(self@.apps, r@),
    {
        let mut idxs: Vec<usize> = Vec::new();
        proof {
            self.lemma_bounds();
        }
        if same(name, "All Applications") {
            for i in 0..self.all_apps.len()
                invariant
                    idxs@ == Seq::new(i as nat, |k: int| k as usize),
            {
                idxs.push(i);
                assert(idxs@ =~= Seq::new((i + 1) as nat, |k: int| k as usize));
            }
            return idxs;
        }
        for k in 0..self.categories.len()
            invariant
                self.wf(),
                self@.apps.len() <= usize::MAX,
                name@ != model::all_applications(),
                forall|j: int| 0 <= j < k ==> (#[trigger] self@.categories[j]).name != name@,
        {
            if same(self.categories[k].name.as_str(), name) {
                let found = self.categories[k].apps.clone();
                proof {
                    assert(found@ =~= self@.categories[k as int].apps);
                    desktop::law_members_increase(self@.apps, name@);
                    assert forall|m: int| 0 <= m < found@.len() implies #[trigger] found@[m]
                        < self@.apps.len() by {
                        desktop::law_categories_hold_apps(
                            self@.apps,
                            self@.categories,
                            k as int,
                            m,
                        );
                    }
                }
                return found;
            }
        }
        proof {
            desktop::lemma_absent_category(self@.apps, self@.categories, name@);
        }
        idxs
    }

    /// Puts rows for the applications at the positions `idxs` into the list.
    fn add_app_rows(&self, list: ActiveView, idxs: &Vec<usize>, out: &mut Vec<Effect>)
        requires
            listing::within(self@.apps, idxs@),
        ensures
            final(out).deep_view() == old(out).deep_view() + model::row_effects(
                list,
                self@.app_rows(idxs@),
            ),
    {
        let ghost before = out.deep_view();
        let ghost rows = model::row_effects(list, self@.app_rows(idxs@));
        assert(before + rows.take(0) =~= before);
        for k in 0..idxs.len()
            invariant
                listing::within(self@.apps, idxs@),
                rows == model::row_effects(list, self@.app_rows(idxs@)),
                out.deep_view() == before + rows.take(k as int),
        {
            let idx = idxs[k];
            let favorite = is_favorite(&self.favorites, self.all_apps[idx].desktop_id.as_str());
            emit(out, Effect::AddRow(list, Row::App { idx, favorite, draggable: false }));
            assert(rows.take(k + 1) =~= rows.take(k as int).push(rows[k as int]));
            assert(before + rows.take(k + 1) =~= (before + rows.take(k as int)).push(
                rows[k as int],
            ));
        }
        assert(rows.take(idxs@.len() as int) =~= rows);
    }

    /// Puts the rows of the favorites page into the list.
    fn populate_favorites(&self, list: ActiveView, out: &mut Vec<Effect>)
        requires
            self.wf(),
        ensures
            final(out).deep_view() == old(out).deep_view() + self@.populate(list, Page::Favorites),
    {
        let ghost before = out.deep_view();
        let ghost favs = self@.favorites;
        for k in 0..self.favorites.len()
            invariant
                self.wf(),
                favs == self@.favorites,
                out.deep_view() == before + model::row_effects(
                    list,
                    (AppModel { favorites: favs.take(k as int), ..self@ }).favorite_rows(),
                ),
        {
            let ghost now = AppModel { favorites: favs.take(k as int), ..self@ };
            let ghost next = AppModel { favorites: favs.take(k + 1), ..self@ };
            assert(favs.take(k + 1).drop_last() =~= favs.take(k as int));
            assert(favs.take(k + 1).last() == self.favorites@[k as int]@);
            match self.by_id.get(self.favorites[k].as_str()) {
                Some(at) => {
                    let idx: usize = *at;
                    let row = Row::App { idx, favorite: true, draggable: true };
                    emit(out, Effect::AddRow(list, row));
                    assert(next.favorite_rows() =~= now.favorite_rows().push(row@));
                    assert(out.deep_view() =~= before + model::row_effects(
                        list,
                        next.favorite_rows(),
                    ));
                },
                None => {
                    assert(next.favorite_rows() =~= now.favorite_rows());
                },
            }
        }
        assert(favs.take(favs.len() as int) =~= favs);
        assert((AppModel { favorites: favs, ..self@ }) == self@);
        emit(out, Effect::SetNavButton(NavAction::ShowCategories));
        assert(out.deep_view() =~= before + self@.populate(list, Page::Favorites));
    }

    /// Puts the rows of the categories page into the list.
    fn populate_categories(&self, list: ActiveView, out: &mut Vec<Effect>)
        ensures
            final(out).deep_view() == old(out).deep_view() + self@.populate(
                list,
                Page::Categories,
            ),
    {
        let ghost before = out.deep_view();
        let ghost rows = model::row_effects(list, self@.category_rows());
        emit(
            out,
            Effect::AddRow(
                list,
                Row::Category {
                    name: "All Applications".to_owned(),
                    icon: "applications-other".to_owned(),
                },
            ),
        );
        assert(out.deep_view() =~= before + rows.take(1));
        for k in 0..self.categories.len()
            invariant
                rows == model::row_effects(list, self@.category_rows()),
                out.deep_view() == before + rows.take(k + 1),
        {
            let name = self.categories[k].name.as_str();
            emit(
                out,
                Effect::AddRow(
                    list,
                    Row::Category { name: name.to_owned(), icon: category_icon(name).to_owned() },
                ),
            );
            assert(rows.take(k + 2) =~= rows.take(k + 1).push(rows[k + 1]));
            assert(out.deep_view() =~= before + rows.take(k + 2));
        }
        assert(rows.take(rows.len() as int) =~= rows);
        emit(out, Effect::SetNavButton(NavAction::GoBack));
        assert(out.deep_view() =~= before + self@.populate(list, Page::Categories));
    }

    /// Puts the rows of the page of a category into the list.
    fn populate_category(&self, name: &str, list: ActiveView, out: &mut Vec<Effect>)
        requires
            self.wf(),
        ensures
            final(out).deep_view() == old(out).deep_view() + self@.populate(
                list,
                Page::Category(name@),
            ),
    {
        let ghost before = out.deep_view();
        let members = self.apps_for_category(name);
        let idxs = sort_by_name(&self.all_apps, &members);
        self.add_app_rows(list, &idxs, out);
        emit(out, Effect::SetNavButton(NavAction::GoBack));
        assert(out.deep_view() =~= before + self@.populate(list, Page::Category(name@)));
    }

    /// Puts the rows of the page into the list.
    fn populate(&self, page: &Page, list: ActiveView, out: &mut Vec<Effect>)
        requires
            self.wf(),
        ensures
            final(out).deep_view() == old(out).deep_view() + self@.populate(list, page@),
    {
        match page {
            Page::Favorites => self.populate_favorites(list, out),
            Page::Categories => self.populate_categories(list, out),
            Page::Category(name) => self.populate_category(name.as_str(), list, out),
        }
    }

    /// Puts the rows of the page into the current list and shows them.
    fn populate_current(&self, page: &Page, out: &mut Vec<Effect>)
        requires
            self.wf(),
        ensures
            final(out).deep_view() == old(out).deep_view() + self@.populate_current(page@),
    {
        let ghost before = out.deep_view();
        self.populate(page, self.current, out);
        emit(out, Effect::ShowList(self.current));
        emit(out, Effect::SelectFirstRowSoon);
        assert(out.deep_view() =~= before + self@.populate_current(page@));
    }

    /// Slides to the page, unless the lists are still sliding.
    fn animate_transition(&mut self, direction: Direction, page: &Page, out: &mut Vec<Effect>)
        requires
            old(self).wf(),
        ensures
            final(self).wf(),
            final(self)@ == old(self)@.slide(direction, page@).app,
            final(out).deep_view() == old(out).deep_view() + old(self)@.slide(
                direction,
                page@,
            ).effects,
    {
        let ghost before = out.deep_view();
        if self.is_animating {
            assert(out.deep_view() =~= before + old(self)@.slide(direction, page@).effects);
            return;
        }
        let next = self.current.other();
        emit(out, Effect::ClearList(next));
        self.populate(page, next, out);
        emit(out, Effect::ShowList(next));
        emit(out, Effect::SetTransition(direction));
        emit(out, Effect::SlideTo(next));
        self.is_animating = true;
        self.current = next;
        emit(out, Effect::StartTimer(Timer::Animation));
        assert(out.deep_view() =~= before + old(self)@.slide(direction, page@).effects);
    }

    /// Makes the favorites the only page.
    fn show_favorites_view(
        &mut self,
        animate: bool,
        direction: Direction,
        out: &mut Vec<Effect>,
    )
        requires
            old(self).wf(),
        ensures
            final(self).wf(),
            final(self)@ == old(self)@.favorites_view(animate, direction).app,
            final(out).deep_view() == old(out).deep_view() + old(self)@.favorites_view(
                animate,
                direction,
            ).effects,
    {
        let mut stack: Vec<Page> = Vec::new();
        stack.push(Page::Favorites);
        assert(stack.deep_view() =~= seq![Page::Favorites]);
        self.view_stack = stack;
        if animate {
            self.animate_transition(direction, &Page::Favorites, out);
        } else {
            self.populate_current(&Page::Favorites, out);
        }
    }

    /// Opens the categories page on top.
    fn show_categories_view(&mut self, direction: Direction, out: &mut Vec<Effect>)
        requires
            old(self).wf(),
        ensures
            final(self).wf(),
            final(self)@ == old(self)@.categories_view(direction).app,
            final(out).deep_view() == old(out).deep_view() + old(self)@.categories_view(
                direction,
            ).effects,
    {
        self.view_stack.push(Page::Categories);
        assert(self.view_stack.deep_view() =~= old(self)@.stack.push(Page::Categories));
        self.animate_transition(direction, &Page::Categories, out);
    }

    /// Opens the page of a category on top.
    fn show_category_apps(
        &mut self,
        name: &str,
        direction: Direction,
        animate: bool,
        out: &mut Vec<Effect>,
    )
        requires
            old(self).wf(),
        ensures
            final(self).wf(),
            final(self)@ == old(self)@.category_view(name@, direction, animate).app,
            final(out).deep_view() == old(out).deep_view() + old(self)@.category_view(
                name@,
                direction,
                animate,
            ).effects,
    {
        let ghost before = out.deep_view();
        let page = Page::Category(name.to_owned());
        self.view_stack.push(copy_page(&page));
        assert(self.view_stack.deep_view() =~= old(self)@.stack.push(page@));
        if animate {
            self.animate_transition(direction, &page, out);
        } else {
            emit(out, Effect::ClearList(self.current));
            self.populate_current(&page, out);
            assert(out.deep_view() =~= before + old(self)@.category_view(
                name@,
                direction,
                animate,
            ).effects);
        }
    }

    /// Opens the page below the top again, in place of the two.
    fn step_back(&mut self, out: &mut Vec<Effect>)
        requires
            old(self).wf(),
        ensures
            final(self).wf(),
            final(self)@ == old(self)@.back().app,
            final(out).deep_view() == old(out).deep_view() + old(self)@.back().effects,
    {
        let ghost before = out.deep_view();
        let depth = self.view_stack.len();
        if depth <= 1 {
            assert(out.deep_view() =~= before + old(self)@.back().effects);
            return;
        }
        let _ = self.view_stack.pop();
        let previous = self.view_stack.pop();
        assert(self.view_stack.deep_view() =~= old(self)@.stack.take(depth - 2));
        match previous {
            Some(Page::Favorites) => self.show_favorites_view(true, Direction::Back, out),
            Some(Page::Categories) => self.show_categories_view(Direction::Back, out),
            Some(Page::Category(name)) => {
                self.show_category_apps(name.as_str(), Direction::Back, true, out)
            },
            None => {},
        }
    }

    /// Shows the page on top again in the current list.
    fn restore_current_view(&mut self, out: &mut Vec<Effect>)
        requires
            old(self).wf(),
        ensures
            final(self).wf(),
            final(self)@ == old(self)@.restored().app,
            final(out).deep_view() == old(out).deep_view() + old(self)@.restored().effects,
    {
        let ghost before = out.deep_view();
        let depth = self.view_stack.len();
        if depth == 0 {
            self.show_favorites_view(false, Direction::Back, out);
            return;
        }
        emit(out, Effect::ClearList(self.current));
        self.populate_current(&self.view_stack[depth - 1], out);
        assert(out.deep_view() =~= before + old(self)@.restored().effects);
    }

    /// Hides the window.
    fn hide_window(&mut self, out: &mut Vec<Effect>)
        requires
            old(self).wf(),
        ensures
            final(self).wf(),
            final(self)@ == old(self)@.hidden().app,
            final(out).deep_view() == old(out).deep_view() + old(self)@.hidden().effects,
    {
        let ghost before = out.deep_view();
        if self.focus_out_timeout {
            self.focus_out_timeout = false;
            emit(out, Effect::StopFocusTimer);
        }
        emit(out, Effect::HideWindow);
        self.visible = false;
        emit(out, Effect::SignalPanel(false));
        assert(out.deep_view() =~= before + old(self)@.hidden().effects);
    }

    /// Asks for the favorites file to be written. Loading what is written
    /// gives the favorites back.
    fn emit_favorites(&self, out: &mut Vec<Effect>)
        ensures
            final(out).deep_view() == old(out).deep_view().push(
                Effect::SaveFavorites(favorites::strings_json(self@.favorites)),
            ),
            favorites::loaded(Some(favorites::strings_json(self@.favorites)))
                == self@.favorites,
    {
        if let Some(text) = save_favorites(&self.favorites) {
            emit(out, Effect::SaveFavorites(text));
        }
    }

    /// Starts the launcher with the favorites file `favorites_file` and the
    /// applications `apps`.
    pub fn new(
        favorites_file: Option<&str>,
        apps: Vec<AppEntry>,
        start_hidden: bool,
    ) -> (r: (App, Vec<Effect>))
        ensures
            r.0.wf(),
            r.0@ == model::started(
                favorites::loaded(favorites_file.deep_view()),
                apps.deep_view(),
                r.0@.categories,
                start_hidden,
            ).app,
            r.1.deep_view() == model::started(
                favorites::loaded(favorites_file.deep_view()),
                apps.deep_view(),
                r.0@.categories,
                start_hidden,
            ).effects,
            desktop::is_organized(apps.deep_view(), r.0@.categories),
    {
        let favorites = load_favorites(favorites_file);
        let by_id = index_by_id(&apps);
        let categories = organize_by_category(&apps);
        let view_stack: Vec<Page> = Vec::new();
        assert(view_stack.deep_view() =~= Seq::<Page<Seq<char>>>::empty());
        let mut app = App {
            all_apps: apps,
            by_id,
            categories,
            favorites,
            view_stack,
            current: ActiveView::One,
            dragging: false,
            drag_row: None,
            last_hovered_row: None,
            is_animating: false,
            visible: false,
            focus_out_timeout: false,
            reload_pending: false,
        };
        let ghost first = app@;
        let mut out = no_effects();
        app.show_favorites_view(false, Direction::Back, &mut out);
        emit(&mut out, Effect::WatchDirectories);
        emit(&mut out, Effect::ConnectWindow);
        if !start_hidden {
            emit(&mut out, Effect::ShowWindow);
            app.visible = true;
            emit(&mut out, Effect::FocusList(app.current));
            emit(&mut out, Effect::SignalPanel(true));
        }
        assert(out.deep_view() =~= model::started(
            first.favorites,
            first.apps,
            first.categories,
            start_hidden,
        ).effects);
        (app, out)
    }

    /// Shows the window where it is hidden, and hides it where it is shown.
    /// The favorites are read from `favorites_file` when it is shown.
    pub fn toggle_visibility(&mut self, favorites_file: Option<&str>) -> (r: Vec<Effect>)
        requires
            old(self).wf(),
        ensures
            final(self).wf(),
            final(self)@ == old(self)@.toggled(favorites::loaded(favorites_file.deep_view())).app,
            r.deep_view() == old(self)@.toggled(
                favorites::loaded(favorites_file.deep_view()),
            ).effects,
    {
        if self.visible {
            self.hide_launcher()
        } else {
            self.show_launcher(favorites_file)
        }
    }

    /// Shows the window, on the favorites page.
    pub fn show_launcher(&mut self, favorites_file: Option<&str>) -> (r: Vec<Effect>)
        requires
            old(self).wf(),
        ensures
            final(self).wf(),
            final(self)@ == old(self)@.shown(favorites::loaded(favorites_file.deep_view())).app,
            r.deep_view() == old(self)@.shown(
                favorites::loaded(favorites_file.deep_view()),
            ).effects,
    {
        let mut out = no_effects();
        self.favorites = load_favorites(favorites_file);
        emit(&mut out, Effect::ClearList(self.current));
        self.view_stack.clear();
        assert(self.view_stack.deep_view() =~= Seq::<Page<Seq<char>>>::empty());
        emit(&mut out, Effect::ClearSearch);
        self.show_favorites_view(false, Direction::Back, &mut out);
        emit(&mut out, Effect::BlockRowActivation);
        emit(&mut out, Effect::ShowWindow);
        emit(&mut out, Effect::PresentWindow);
        self.visible = true;
        emit(&mut out, Effect::SelectFirstRowSoon);
        emit(&mut out, Effect::SignalPanel(true));
        emit(&mut out, Effect::StartTimer(Timer::RowActivation));
        assert(out.deep_view() =~= old(self)@.shown(
            favorites::loaded(favorites_file.deep_view()),
        ).effects);
        out
    }

    /// Hides the window.
    pub fn hide_launcher(&mut self) -> (r: Vec<Effect>)
        requires
            old(self).wf(),
        ensures
            final(self).wf(),
            final(self)@ == old(self)@.hidden().app,
            r.deep_view() == old(self)@.hidden().effects,
    {
        let mut out = no_effects();
        self.hide_window(&mut out);
        assert(out.deep_view() =~= old(self)@.hidden().effects);
        out
    }

    /// The button below the list has been pressed.
    pub fn nav_action(&mut self, action: NavAction) -> (r: Vec<Effect>)
        requires
            old(self).wf(),
        ensures
            final(self).wf(),
            final(self)@ == old(self)@.nav_pressed(action).app,
            r.deep_view() == old(self)@.nav_pressed(action).effects,
    {
        let mut out = no_effects();
        match action {
            NavAction::ShowCategories => self.show_categories_view(Direction::Forward, &mut out),
            NavAction::GoBack => self.step_back(&mut out),
        }
        assert(out.deep_view() =~= old(self)@.nav_pressed(action).effects);
        out
    }

    /// Goes back to the page below the top.
    pub fn go_back(&mut self) -> (r: Vec<Effect>)
        requires
            old(self).wf(),
        ensures
            final(self).wf(),
            final(self)@ == old(self)@.back().app,
            r.deep_view() == old(self)@.back().effects,
    {
        let mut out = no_effects();
        self.step_back(&mut out);
        assert(out.deep_view() =~= old(self)@.back().effects);
        out
    }

    /// The lists have stopped sliding.
    pub fn on_animation_end(&mut self) -> (r: Vec<Effect>)
        requires
            old(self).wf(),
        ensures
            final(self).wf(),
            final(self)@ == old(self)@.animation_ended().app,
            r.deep_view() == old(self)@.animation_ended().effects,
    {
        let mut out = no_effects();
        self.is_animating = false;
        emit(&mut out, Effect::SelectFirstRowSoon);
        assert(out.deep_view() =~= old(self)@.animation_ended().effects);
        out
    }

    /// Rows can be activated again.
    pub fn unblock_row_activation(&self) -> (r: Vec<Effect>)
        ensures
            r.deep_view() == seq![Effect::<Seq<char>>::UnblockRowActivation],
    {
        let mut out = no_effects();
        emit(&mut out, Effect::UnblockRowActivation);
        assert(out.deep_view() =~= seq![Effect::<Seq<char>>::UnblockRowActivation]);
        out
    }

    /// Shows the results of a search in the current list; `low` is the query in
    /// lower case.
    fn show_search_results(&self, low: &str, out: &mut Vec<Effect>)
        ensures
            final(out).deep_view() == old(out).deep_view() + self@.search_results(low@),
    {
        let ghost before = out.deep_view();
        proof {
            self.lemma_bounds();
            listing::law_search_finds_matches(self@.apps, low@);
        }
        emit(out, Effect::ClearList(self.current));
        let mut results = search_lowered(&self.all_apps, low);
        assert forall|k: int| 0 <= k < results@.len() implies #[trigger] results@[k]
            < self@.apps.len() by {
            assert(listing::found(self@.apps, low@).contains(results@[k]));
        }
        results.truncate(SEARCH_LIMIT);
        assert(results@ =~= self@.results(low@));
        self.add_app_rows(self.current, &results, out);
        emit(out, Effect::ShowList(self.current));
        emit(out, Effect::SelectFirstRowSoon);
        assert(out.deep_view() =~= before + self@.search_results(low@));
    }

    /// The text of the search entry has changed to `query`, which is `low` in
    /// lower case.
    pub fn on_lowered_search_changed(&mut self, query: &str, low: &str) -> (r: Vec<Effect>)
        requires
            old(self).wf(),
        ensures
            final(self).wf(),
            final(self)@ == old(self)@.searched(query@, low@).app,
            r.deep_view() == old(self)@.searched(query@, low@).effects,
    {
        let mut out = no_effects();
        if !query.is_empty() {
            self.show_search_results(low, &mut out);
        } else {
            self.restore_current_view(&mut out);
        }
        assert(out.deep_view() =~= old(self)@.searched(query@, low@).effects);
        out
    }

    /// The text of the search entry has changed to `query`.
    pub fn on_search_changed(&mut self, query: &str) -> (r: Vec<Effect>)
        requires
            old(self).wf(),
        ensures
            final(self).wf(),
            final(self)@ == old(self)@.searched(query@, text::lowercase(query@)).app,
            r.deep_view() == old(self)@.searched(query@, text::lowercase(query@)).effects,
    {
        let low = to_lowercase(query);
        self.on_lowered_search_changed(query, low.as_str())
    }

    /// Return has been pressed in the search entry, which holds `query`;
    /// `selected` is the selected row of the current list, and `rows` are its
    /// rows.
    pub fn on_search_activate(
        &self,
        query: &str,
        selected: &Option<RowMeta>,
        rows: &Vec<Option<RowMeta>>,
    ) -> (r: Vec<Effect>)
        ensures
            r.deep_view() == self@.search_activated(
                query@,
                selected.deep_view(),
                rows.deep_view(),
            ).effects,
    {
        let mut out = no_effects();
        let command = trim(query);
        if command.is_empty() {
            return out;
        }
        if let Some(RowMeta::App { idx, .. }) = selected {
            return self.launch_app(*idx);
        }
        if rows.len() == 1 {
            if let Some(RowMeta::App { idx, .. }) = &rows[0] {
                return self.launch_app(*idx);
            }
        }
        emit(&mut out, Effect::RunShell(command.to_owned()));
        assert(out.deep_view() =~= seq![Effect::RunShell(text::trimmed(query@))]);
        out
    }

    /// The shell has been started, or could not be.
    pub fn on_shell_started(&mut self, ok: bool) -> (r: Vec<Effect>)
        requires
            old(self).wf(),
        ensures
            final(self).wf(),
            ok ==> final(self)@ == old(self)@.hidden().app && r.deep_view()
                == old(self)@.hidden().effects,
            !ok ==> final(self)@ == old(self)@ && r.deep_view() == Seq::<
                Effect<Seq<char>>,
            >::empty(),
    {
        if ok {
            self.hide_launcher()
        } else {
            no_effects()
        }
    }

    /// Starts the application at position `idx`.
    pub fn launch_app(&self, idx: usize) -> (r: Vec<Effect>)
        ensures
            r.deep_view() == self@.launch(idx).effects,
    {
        let mut out = no_effects();
        emit(&mut out, Effect::Launch { idx, step: LaunchStep::DesktopFile });
        assert(out.deep_view() =~= self@.launch(idx).effects);
        out
    }

    /// The application has been started in the way `step`, or could not be.
    pub fn on_launched(&mut self, idx: usize, step: LaunchStep, ok: bool) -> (r: Vec<Effect>)
        requires
            old(self).wf(),
            idx < old(self)@.apps.len(),
        ensures
            final(self).wf(),
            final(self)@ == old(self)@.launched(idx, step, ok).app,
            r.deep_view() == old(self)@.launched(idx, step, ok).effects,
    {
        if ok {
            return self.hide_launcher();
        }
        let mut out = no_effects();
        match step {
            LaunchStep::DesktopFile => emit(
                &mut out,
                Effect::Launch { idx, step: LaunchStep::GtkLaunch },
            ),
            LaunchStep::GtkLaunch => emit(
                &mut out,
                Effect::Launch { idx, step: LaunchStep::DbusLaunch },
            ),
            LaunchStep::DbusLaunch => emit(
                &mut out,
                Effect::ReportLaunchFailure(self.all_apps[idx].name.clone()),
            ),
        }
        assert(out.deep_view() =~= old(self)@.launched(idx, step, ok).effects);
        out
    }

    /// A row of a list has been activated.
    pub fn on_row_activated(&mut self, row: &Option<RowMeta>) -> (r: Vec<Effect>)
        requires
            old(self).wf(),
        ensures
            final(self).wf(),
            final(self)@ == old(self)@.row_activated(row.deep_view()).app,
            r.deep_view() == old(self)@.row_activated(row.deep_view()).effects,
    {
        let mut out = no_effects();
        match row {
            Some(RowMeta::Category { name }) => {
                self.show_category_apps(name.as_str(), Direction::Forward, true, &mut out);
                assert(out.deep_view() =~= old(self)@.row_activated(row.deep_view()).effects);
                out
            },
            Some(RowMeta::App { idx, .. }) => {
                if self.dragging {
                    out
                } else {
                    self.launch_app(*idx)
                }
            },
            None => out,
        }
    }

    /// The pointer has come to a row.
    pub fn on_row_enter(&mut self, row: u64) -> (r: Vec<Effect>)
        requires
            old(self).wf(),
        ensures
            final(self).wf(),
            final(self)@ == old(self)@.row_entered(row).app,
            r.deep_view() == old(self)@.row_entered(row).effects,
    {
        let mut out = no_effects();
        if !self.dragging {
            self.last_hovered_row = Some(row);
            emit(&mut out, Effect::SelectRow(row));
        }
        assert(out.deep_view() =~= old(self)@.row_entered(row).effects);
        out
    }

    /// The pointer has left a row.
    pub fn on_row_leave(&mut self, row: u64)
        requires
            old(self).wf(),
        ensures
            final(self).wf(),
            final(self)@ == old(self)@.row_left(row),
    {
        if !self.dragging {
            if let Some(hovered) = self.last_hovered_row {
                if hovered == row {
                    self.last_hovered_row = None;
                }
            }
        }
    }

    /// The pointer has left the list.
    pub fn on_listbox_leave(&mut self) -> (r: Propagation)
        requires
            old(self).wf(),
        ensures
            final(self).wf(),
            final(self)@ == (AppModel { hovered: None, ..old(self)@ }),
            r == Propagation::Proceed,
    {
        self.last_hovered_row = None;
        Propagation::Proceed
    }

    /// A button of the pointer has been pressed on the row `row`, which stands
    /// for `meta`.
    pub fn on_button_press(&mut self, button: u32, meta: &Option<RowMeta>, row: u64) -> (r:
        Response)
        requires
            old(self).wf(),
        ensures
            final(self).wf(),
            final(self)@ == old(self)@.button_pressed(button, meta.deep_view(), row).0.app,
            r.effects.deep_view() == old(self)@.button_pressed(
                button,
                meta.deep_view(),
                row,
            ).0.effects,
            r.propagation == old(self)@.button_pressed(button, meta.deep_view(), row).1,
    {
        let mut out = no_effects();
        let ghost told = old(self)@.button_pressed(button, meta.deep_view(), row).0.effects;
        if button == 3 {
            if let Some(RowMeta::App { idx, .. }) = meta {
                emit(&mut out, Effect::ShowContextMenu(*idx));
            }
            assert(out.deep_view() =~= told);
            return Response { effects: out, propagation: Propagation::Stop };
        }
        if button == 1 {
            if let Some(RowMeta::App { draggable, .. }) = meta {
                if *draggable {
                    self.dragging = true;
                    self.drag_row = Some(row);
                    emit(&mut out, Effect::SelectRow(row));
                }
            }
        }
        assert(out.deep_view() =~= told);
        Response { effects: out, propagation: Propagation::Proceed }
    }

    /// The pointer is dragged over the row `target`, if any, given with its
    /// position in the list; the dragged row stands at `drag_index`.
    pub fn drag_motion_to(&self, target: Option<(u64, i32)>, drag_index: i32) -> (r: Vec<Effect>)
        ensures
            r.deep_view() == self@.drag_effects(target, drag_index),
    {
        let mut out = no_effects();
        if self.dragging {
            if let (Some(row), Some((over, index))) = (self.drag_row, target) {
                if over != row && drag_index != index {
                    emit(&mut out, Effect::MoveRow { row, to: index });
                }
            }
        }
        assert(out.deep_view() =~= self@.drag_effects(target, drag_index));
        out
    }

    /// The button of the pointer has been released; `rows` are the rows of the
    /// current list. At the end of a drag the favorites take their order, and
    /// loading the file that is written gives them back.
    pub fn on_button_release(&mut self, rows: &Vec<RowMeta>) -> (r: Response)
        requires
            old(self).wf(),
            old(self)@.dragging ==> forall|k: int|
                0 <= k < rows.deep_view().len() ==> model::row_within(
                    old(self)@.apps,
                    #[trigger] rows.deep_view()[k],
                ),
        ensures
            final(self).wf(),
            final(self)@ == old(self)@.button_released(rows.deep_view()).app,
            r.effects.deep_view() == old(self)@.button_released(rows.deep_view()).effects,
            r.propagation == Propagation::Proceed,
            old(self)@.dragging ==> favorites::loaded(
                Some(favorites::strings_json(final(self)@.favorites)),
            ) == final(self)@.favorites,
    {
        let mut out = no_effects();
        if self.dragging {
            self.dragging = false;
            let mut order: Vec<String> = Vec::new();
            let ghost all = rows.deep_view();
            assert(order.deep_view() =~= Seq::<Seq<char>>::empty());
            assert(all.take(0) =~= Seq::<RowMeta<Seq<char>>>::empty());
            for k in 0..rows.len()
                invariant
                    all == rows.deep_view(),
                    forall|k: int|
                        0 <= k < all.len() ==> model::row_within(self@.apps, #[trigger] all[k]),
                    order.deep_view() == model::row_ids(self@.apps, all.take(k as int)),
            {
                assert(all.take(k + 1).drop_last() =~= all.take(k as int));
                assert(all.take(k + 1).last() == rows@[k as int]@);
                assert(model::row_within(self@.apps, all[k as int]));
                let ghost before = order.deep_view();
                if let RowMeta::App { idx, .. } = &rows[k] {
                    order.push(self.all_apps[*idx].desktop_id.clone());
                    assert(order.deep_view() =~= before.push(
                        self@.apps[*idx as int].desktop_id,
                    ));
                }
            }
            assert(all.take(all.len() as int) =~= all);
            self.favorites = order;
            self.emit_favorites(&mut out);
            self.drag_row = None;
        }
        assert(out.deep_view() =~= old(self)@.button_released(rows.deep_view()).effects);
        Response { effects: out, propagation: Propagation::Proceed }
    }

    /// The star of the application at position `idx` has been clicked. Loading
    /// the favorites file that is written gives the new favorites back.
    pub fn on_favorite_clicked(&mut self, idx: usize) -> (r: Vec<Effect>)
        requires
            old(self).wf(),
            idx < old(self)@.apps.len(),
        ensures
            final(self).wf(),
            final(self)@ == old(self)@.star_clicked(idx as int).app,
            r.deep_view() == old(self)@.star_clicked(idx as int).effects,
            favorites::loaded(Some(favorites::strings_json(final(self)@.favorites)))
                == final(self)@.favorites,
    {
        let mut out = no_effects();
        toggle_favorite(&mut self.favorites, self.all_apps[idx].desktop_id.as_str());
        self.emit_favorites(&mut out);
        let depth = self.view_stack.len();
        if depth > 0 {
            match copy_page(&self.view_stack[depth - 1]) {
                Page::Favorites => {
                    let _ = self.view_stack.pop();
                    assert(self.view_stack.deep_view() =~= old(self)@.stack.drop_last());
                    self.show_favorites_view(false, Direction::Back, &mut out);
                },
                Page::Category(name) => {
                    let _ = self.view_stack.pop();
                    assert(self.view_stack.deep_view() =~= old(self)@.stack.drop_last());
                    self.show_category_apps(name.as_str(), Direction::Forward, false, &mut out);
                },
                Page::Categories => {},
            }
        }
        assert(out.deep_view() =~= old(self)@.star_clicked(idx as int).effects);
        out
    }

    /// A file of a watched directory has changed; `name` is its name, where it
    /// is text.
    pub fn on_desktop_dir_changed(&mut self, name: Option<&str>) -> (r: Vec<Effect>)
        requires
            old(self).wf(),
        ensures
            final(self).wf(),
            final(self)@ == old(self)@.directory_changed(name.deep_view()).app,
            r.deep_view() == old(self)@.directory_changed(name.deep_view()).effects,
    {
        let mut out = no_effects();
        let is_desktop = match name {
            Some(n) => ends_with(n, ".desktop"),
            None => false,
        };
        if is_desktop && !self.reload_pending {
            self.reload_pending = true;
            emit(&mut out, Effect::StartTimer(Timer::Reload));
        }
        assert(out.deep_view() =~= old(self)@.directory_changed(name.deep_view()).effects);
        out
    }

    /// The applications have been loaded again.
    pub fn reload_applications(&mut self, apps: Vec<AppEntry>) -> (r: Vec<Effect>)
        requires
            old(self).wf(),
        ensures
            final(self).wf(),
            desktop::is_organized(apps.deep_view(), final(self)@.categories),
            final(self)@ == old(self)@.reloaded(apps.deep_view(), final(self)@.categories).app,
            r.deep_view() == old(self)@.reloaded(
                apps.deep_view(),
                final(self)@.categories,
            ).effects,
    {
        let mut out = no_effects();
        self.reload_pending = false;
        self.by_id = index_by_id(&apps);
        self.categories = organize_by_category(&apps);
        self.all_apps = apps;
        let ghost loaded = *self;
        if self.visible {
            self.restore_current_view(&mut out);
        }
        assert(out.deep_view() =~= old(self)@.reloaded(
            loaded@.apps,
            loaded@.categories,
        ).effects);
        out
    }

    /// The window has lost the focus.
    pub fn on_focus_out(&mut self) -> (r: Response)
        requires
            old(self).wf(),
        ensures
            final(self).wf(),
            final(self)@ == old(self)@.focus_lost().app,
            r.effects.deep_view() == old(self)@.focus_lost().effects,
            r.propagation == Propagation::Proceed,
    {
        let mut out = no_effects();
        if self.focus_out_timeout {
            emit(&mut out, Effect::StopFocusTimer);
        }
        emit(&mut out, Effect::StartTimer(Timer::FocusOut));
        self.focus_out_timeout = true;
        assert(out.deep_view() =~= old(self)@.focus_lost().effects);
        Response { effects: out, propagation: Propagation::Proceed }
    }

    /// The window has got the focus; `search_empty` says whether the search
    /// entry is empty.
    pub fn on_focus_in(&mut self, search_empty: bool) -> (r: Response)
        requires
            old(self).wf(),
        ensures
            final(self).wf(),
            final(self)@ == old(self)@.focus_gained(search_empty).app,
            r.effects.deep_view() == old(self)@.focus_gained(search_empty).effects,
            r.propagation == Propagation::Proceed,
    {
        let mut out = no_effects();
        if self.focus_out_timeout {
            self.focus_out_timeout = false;
            emit(&mut out, Effect::StopFocusTimer);
        }
        if search_empty {
            emit(&mut out, Effect::FocusList(self.current));
            emit(&mut out, Effect::RedrawSearch);
        }
        assert(out.deep_view() =~= old(self)@.focus_gained(search_empty).effects);
        Response { effects: out, propagation: Propagation::Proceed }
    }

    /// A key has been pressed in the search entry.
    pub fn on_search_entry_key_press(&self, key: Key) -> (r: Response)
        ensures
            r.effects.deep_view() == (if key is Down {
                seq![Effect::<Seq<char>>::SelectFirstRow]
            } else {
                seq![]
            }),
            r.propagation == Propagation::Proceed,
    {
        let mut out = no_effects();
        if key == Key::Down {
            emit(&mut out, Effect::SelectFirstRow);
            assert(out.deep_view() =~= seq![Effect::<Seq<char>>::SelectFirstRow]);
        }
        Response { effects: out, propagation: Propagation::Proceed }
    }

    /// A key has been pressed; `search_focused` and `list_focused` say what
    /// has the focus, and `selected` is the selected row of the current list.
    pub fn on_key_press(
        &mut self,
        key: Key,
        search_focused: bool,
        list_focused: bool,
        selected: &Option<RowMeta>,
    ) -> (r: Response)
        requires
            old(self).wf(),
        ensures
            final(self).wf(),
            final(self)@ == old(self)@.key_pressed(
                key,
                search_focused,
                list_focused,
                selected.deep_view(),
            ).0.app,
            r.effects.deep_view() == old(self)@.key_pressed(
                key,
                search_focused,
                list_focused,
                selected.deep_view(),
            ).0.effects,
            r.propagation == old(self)@.key_pressed(
                key,
                search_focused,
                list_focused,
                selected.deep_view(),
            ).1,
    {
        let mut out = no_effects();
        let depth = self.view_stack.len();
        let ghost told = old(self)@.key_pressed(
            key,
            search_focused,
            list_focused,
            selected.deep_view(),
        ).0.effects;
        if key == Key::Escape {
            if depth > 1 {
                self.step_back(&mut out);
            } else {
                self.hide_window(&mut out);
            }
            assert(out.deep_view() =~= told);
            return Response { effects: out, propagation: Propagation::Stop };
        }
        if key == Key::Up || key == Key::Down {
            if !list_focused {
                emit(&mut out, Effect::FocusList(self.current));
            }
            assert(out.deep_view() =~= told);
            return Response { effects: out, propagation: Propagation::Proceed };
        }
        if key == Key::Right && !search_focused {
            match selected {
                Some(RowMeta::Category { name }) => {
                    self.show_category_apps(name.as_str(), Direction::Forward, true, &mut out);
                },
                _ => {
                    if depth > 0 {
                        if let Page::Favorites = &self.view_stack[depth - 1] {
                            self.show_categories_view(Direction::Forward, &mut out);
                        }
                    }
                },
            }
            assert(out.deep_view() =~= told);
            return Response { effects: out, propagation: Propagation::Stop };
        }
        if key == Key::Left && !search_focused {
            if depth > 1 {
                self.step_back(&mut out);
                assert(out.deep_view() =~= told);
                return Response { effects: out, propagation: Propagation::Stop };
            }
        }
        if key == Key::Return || key == Key::KeypadEnter {
            return Response { effects: out, propagation: Propagation::Proceed };
        }
        if !search_focused {
            emit(&mut out, Effect::FocusSearch);
        }
        assert(out.deep_view() =~= told);
        Response { effects: out, propagation: Propagation::Proceed }
    }

    /// The applications.
    pub fn apps(&self) -> (r: &Vec<AppEntry>)
        ensures
            r.deep_view() == self@.apps,
    {
        &self.all_apps
    }

    /// The desktop ids of the favorites.
    pub fn favorites(&self) -> (r: &Vec<String>)
        ensures
            r.deep_view() == self@.favorites,
    {
        &self.favorites
    }

    /// The pages that lead to the one that is shown, which is the last.
    pub fn pages(&self) -> (r: &Vec<Page>)
        ensures
            r.deep_view() == self@.stack,
    {
        &self.view_stack
    }

    /// The list that is shown.
    pub fn current(&self) -> (r: ActiveView)
        ensures
            r == self@.current,
    {
        self.current
    }

    /// Whether the window is shown.
    pub fn is_visible(&self) -> (r: bool)
        ensures
            r == self@.visible,
    {
        self.visible
    }

    /// Whether a row is being dragged.
    pub fn is_dragging(&self) -> (r: bool)
        ensures
            r == self@.dragging,
    {
        self.dragging
    }

    /// The row that is being dragged, where there is one.
    pub fn dragged_row(&self) -> (r: Option<u64>)
        ensures
            r == (if self@.dragging {
                self@.drag_row
            } else {
                None
            }),
    {
        if self.dragging {
            self.drag_row
        } else {
            None
        }
    }
}

} // verus!
