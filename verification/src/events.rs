//! What each event does, for every state of the launcher: what the window
//! shows afterwards, what else it is told, and what stays as it is.
use vstd::prelude::*;

use crate::desktop::{self, CategoryModel, EntryModel};
use crate::favorites;
use crate::laws::{self, Screen};
use crate::listing;
use crate::model::{self, AppModel, Effects, Outcome};
use crate::text;
use crate::ui::{
    self, ActiveView, Direction, Effect, Key, LaunchStep, NavAction, Page, Propagation, Row,
    RowMeta, Timer,
};

verus! {

/// The button that belongs below a page.
pub open spec fn button_of(page: Page<Seq<char>>) -> Option<NavAction> {
    match page {
        Page::Favorites => Some(NavAction::ShowCategories),
        Page::Categories => Some(NavAction::GoBack),
        Page::Category(name) => Some(NavAction::GoBack),
    }
}

/// The effects are `count` and the last of them are `tail`.
pub open spec fn ends_with(effects: Effects, count: nat, tail: Effects) -> bool {
    &&& effects.len() == count
    &&& count >= tail.len()
    &&& effects.skip(count - tail.len()) == tail
}

/// Nothing happens.
pub open spec fn is_idle(app: AppModel, next: Outcome) -> bool {
    next.app == app && next.effects.len() == 0
}

/// The pages become `stack`. Where the lists stand still, the other list gets
/// the rows of the page on top and slides in, in this direction, with the
/// button of the page; where they are sliding already, the window is left
/// alone.
pub open spec fn slides_in(
    screen: Screen,
    app: AppModel,
    next: Outcome,
    stack: Seq<Page<Seq<char>>>,
    direction: Direction,
) -> bool {
    let to = next.app.current;
    let rows = app.rows_of(stack.last());
    if app.animating {
        next.app == (AppModel { stack, ..app }) && next.effects.len() == 0
    } else {
        &&& to != app.current
        &&& next.app == (AppModel { stack, current: to, animating: true, ..app })
        &&& screen.after_all(next.effects) == (Screen {
            list: to,
            button: button_of(stack.last()),
            ..screen.with_rows(to, rows)
        })
        &&& next.effects.first() == Effect::<Seq<char>>::ClearList(to)
        &&& ends_with(
            next.effects,
            rows.len() + 6,
            seq![
                Effect::ShowList(to),
                Effect::SetTransition(direction),
                Effect::SlideTo(to),
                Effect::StartTimer(Timer::Animation),
            ],
        )
    }
}

/// The current list gets the rows of `page` in place of what it has, and the
/// button of the page; the rows are shown, and the first is selected.
pub open spec fn redraws(
    screen: Screen,
    app: AppModel,
    effects: Effects,
    page: Page<Seq<char>>,
) -> bool {
    &&& screen.after_all(effects) == (Screen {
        button: button_of(page),
        ..screen.with_rows(app.current, app.rows_of(page))
    })
    &&& effects.first() == Effect::<Seq<char>>::ClearList(app.current)
    &&& ends_with(
        effects,
        app.rows_of(page).len() + 4,
        seq![Effect::ShowList(app.current), Effect::SelectFirstRowSoon],
    )
}

/// The current list gets the rows of the favorites behind what it has, and
/// the button of the page; the rows are shown, and the first is selected.
pub open spec fn adds_favorites(screen: Screen, app: AppModel, effects: Effects) -> bool {
    let page = Page::<Seq<char>>::Favorites;
    &&& screen.after_all(effects) == (Screen {
        button: button_of(page),
        ..screen.with_rows(app.current, screen.rows(app.current) + app.rows_of(page))
    })
    &&& ends_with(
        effects,
        app.rows_of(page).len() + 3,
        seq![Effect::ShowList(app.current), Effect::SelectFirstRowSoon],
    )
}

/// The timer that hides the launcher is stopped where it runs, the window
/// disappears, and the panel is told; nothing else changes.
pub open spec fn disappears(app: AppModel, next: Outcome) -> bool {
    let told = seq![Effect::<Seq<char>>::HideWindow, Effect::SignalPanel(false)];
    &&& next.app == (AppModel { visible: false, focus_timer: false, ..app })
    &&& app.focus_timer ==> next.effects == seq![Effect::<Seq<char>>::StopFocusTimer] + told
    &&& !app.focus_timer ==> next.effects == told
}

/// The rows of a page depend on the applications, their categories and the
/// favorites alone.
proof fn lemma_rows_depend(a: AppModel, b: AppModel, page: Page<Seq<char>>)
    requires
        a.apps == b.apps,
        a.categories == b.categories,
        a.favorites == b.favorites,
    ensures
        a.rows_of(page) == b.rows_of(page),
{
    assert(a.rows_of(page) =~= b.rows_of(page));
}

proof fn lemma_slides_in(
    screen: Screen,
    app: AppModel,
    stack: Seq<Page<Seq<char>>>,
    direction: Direction,
)
    ensures
        slides_in(
            screen,
            app,
            (AppModel { stack, ..app }).slide(direction, stack.last()),
            stack,
            direction,
        ),
{
    let opened = AppModel { stack, ..app };
    let page = stack.last();
    let next = opened.slide(direction, page);
    lemma_rows_depend(app, opened, page);
    laws::lemma_after_slide(screen, opened, direction, page);
    if !app.animating {
        let to = next.app.current;
        let tail = seq![
            Effect::<Seq<char>>::ShowList(to),
            Effect::SetTransition(direction),
            Effect::SlideTo(to),
            Effect::StartTimer(Timer::Animation),
        ];
        assert(next.effects.skip(next.effects.len() - 4) =~= tail);
    }
}

proof fn lemma_redraws(screen: Screen, app: AppModel, page: Page<Seq<char>>)
    ensures
        redraws(
            screen,
            app,
            seq![Effect::ClearList(app.current)] + app.populate_current(page),
            page,
        ),
{
    let effects = seq![Effect::ClearList(app.current)] + app.populate_current(page);
    laws::lemma_after_clear_and_populate(screen, app, page);
    assert(effects.skip(effects.len() - 2) =~= seq![
        Effect::ShowList(app.current),
        Effect::SelectFirstRowSoon,
    ]);
}

proof fn lemma_adds_favorites(screen: Screen, app: AppModel)
    ensures
        adds_favorites(screen, app, app.populate_current(Page::Favorites)),
{
    let effects = app.populate_current(Page::Favorites);
    laws::lemma_after_populate_current(screen, app, Page::Favorites);
    laws::lemma_after_populate(screen, app, app.current, Page::Favorites);
    assert(effects.skip(effects.len() - 2) =~= seq![
        Effect::ShowList(app.current),
        Effect::SelectFirstRowSoon,
    ]);
}

/// The favorites page shows the installed favorites in their order, each with
/// a filled star and free to be dragged: a further favorite adds the first
/// application of its desktop id at the end.
pub proof fn law_favorites_page_shows_installed(app: AppModel, i: int)
    requires
        0 <= i < app.apps.len() <= usize::MAX,
        forall|j: int|
            0 <= j < i ==> (#[trigger] app.apps[j]).desktop_id != app.apps[i].desktop_id,
    ensures
        ({
            let more = AppModel { favorites: app.favorites.push(app.apps[i].desktop_id), ..app };
            more.rows_of(Page::Favorites) == app.rows_of(Page::Favorites).push(
                Row::App { idx: i as usize, favorite: true, draggable: true },
            )
        }),
{
    listing::law_installed_favorite_is_shown_last(app.apps, app.favorites, i);
    let more = AppModel { favorites: app.favorites.push(app.apps[i].desktop_id), ..app };
    assert(more.rows_of(Page::Favorites) =~= app.rows_of(Page::Favorites).push(
        Row::App { idx: i as usize, favorite: true, draggable: true },
    ));
}

/// A favorite that is not installed has no row, and without favorites the
/// page is empty.
pub proof fn law_favorites_page_leaves_out_missing(app: AppModel, id: Seq<char>)
    requires
        app.apps.len() <= usize::MAX,
        forall|j: int| 0 <= j < app.apps.len() ==> (#[trigger] app.apps[j]).desktop_id != id,
    ensures
        (AppModel { favorites: app.favorites.push(id), ..app }).rows_of(Page::Favorites)
            == app.rows_of(Page::Favorites),
        (AppModel { favorites: seq![], ..app }).rows_of(Page::Favorites).len() == 0,
{
    listing::law_missing_favorite_is_not_shown(app.apps, app.favorites, id);
}

/// The categories page starts with all applications. Behind them a name
/// stands there if and only if an application belongs to it, the names in
/// order, each with its icon.
pub proof fn law_categories_page_shows_used_categories(app: AppModel, name: Seq<char>)
    requires
        app.wf(),
        app.apps.len() <= usize::MAX,
    ensures
        ({
            let rows = app.rows_of(Page::Categories);
            &&& rows.len() > 0
            &&& rows[0] == Row::Category {
                name: "All Applications"@,
                icon: "applications-other"@,
            }
            &&& (exists|i: int|
                0 <= i < app.apps.len() && desktop::category_of(
                    (#[trigger] app.apps[i]).categories,
                ) == name) <==> (exists|k: int|
                0 < k < rows.len() && #[trigger] rows[k] == (Row::Category {
                    name,
                    icon: ui::icon_of_category(name),
                }))
            &&& forall|k: int|
                0 <= k < rows.len() ==> (#[trigger] rows[k]) is Category && (k > 0
                    ==> rows[k]->icon == ui::icon_of_category(rows[k]->name))
            &&& forall|j: int, k: int|
                0 < j < k < rows.len() ==> text::at_most(
                    (#[trigger] rows[j])->name,
                    (#[trigger] rows[k])->name,
                ) && rows[j]->name != rows[k]->name
        }),
{
    let rows = app.rows_of(Page::Categories);
    let categories = app.categories;
    assert forall|k: int| 0 < k < rows.len() implies #[trigger] rows[k] == (Row::Category {
        name: categories[k - 1].name,
        icon: ui::icon_of_category(categories[k - 1].name),
    }) by {}
    if exists|i: int|
        0 <= i < app.apps.len() && desktop::category_of((#[trigger] app.apps[i]).categories)
            == name {
        let i = choose|i: int|
            0 <= i < app.apps.len() && desktop::category_of((#[trigger] app.apps[i]).categories)
                == name;
        assert(desktop::has_category(categories, name));
        let k = choose|k: int|
            0 <= k < categories.len() && (#[trigger] categories[k]).name == name;
        assert(rows[k + 1] == Row::Category { name, icon: ui::icon_of_category(name) });
    }
    if exists|k: int|
        0 < k < rows.len() && #[trigger] rows[k] == (Row::Category {
            name,
            icon: ui::icon_of_category(name),
        }) {
        let k = choose|k: int|
            0 < k < rows.len() && #[trigger] rows[k] == (Row::Category {
                name,
                icon: ui::icon_of_category(name),
            });
        assert(categories[k - 1].name == name);
        desktop::law_members_increase(app.apps, name);
        let i = categories[k - 1].apps[0];
        assert(desktop::members(app.apps, name).contains(i));
        assert(desktop::category_of(app.apps[i as int].categories) == name);
    }
    assert forall|j: int, k: int| 0 < j < k < rows.len() implies text::at_most(
        (#[trigger] rows[j])->name,
        (#[trigger] rows[k])->name,
    ) && rows[j]->name != rows[k]->name by {
        assert(text::at_most(categories[j - 1].name, categories[k - 1].name));
    }
}

/// The application at position `i` belongs on the page of the category.
pub open spec fn belongs(app: AppModel, name: Seq<char>, i: int) -> bool {
    &&& 0 <= i < app.apps.len()
    &&& name == "All Applications"@ || desktop::category_of(app.apps[i].categories) == name
}

/// The members of a category are the positions of the applications that
/// belong to it, in increasing order.
pub proof fn law_members_belong(app: AppModel, name: Seq<char>, i: usize, a: int, b: int)
    requires
        app.apps.len() <= usize::MAX,
    ensures
        app.members_of(name).contains(i) <==> belongs(app, name, i as int),
        0 <= a < b < app.members_of(name).len() ==> app.members_of(name)[a] < app.members_of(
            name,
        )[b],
{
    let members = app.members_of(name);
    laws::lemma_members_within(app, name);
    desktop::law_members_increase(app.apps, name);
    if name == "All Applications"@ {
        if i < app.apps.len() {
            assert(members[i as int] == i);
        }
        if members.contains(i) {
            let k = members.index_of(i);
            assert(members[k] < app.apps.len());
        }
    }
}

/// The page of a category shows its applications, or all of them, each once,
/// in the order of their names in lower case and where these are the same in
/// the order of the applications. A star is filled if and only if the
/// application is a favorite, and no row can be dragged.
pub proof fn law_category_page_shows_members(app: AppModel, name: Seq<char>, i: int)
    requires
        app.apps.len() <= usize::MAX,
    ensures
        ({
            let rows = app.rows_of(Page::Category(name));
            &&& belongs(app, name, i) ==> rows.contains(
                Row::App {
                    idx: i as usize,
                    favorite: app.favorites.contains(app.apps[i].desktop_id),
                    draggable: false,
                },
            )
            &&& forall|k: int|
                0 <= k < rows.len() ==> (#[trigger] rows[k] matches Row::App {
                    idx,
                    favorite,
                    draggable,
                } && belongs(app, name, idx as int) && favorite == app.favorites.contains(
                    app.apps[idx as int].desktop_id,
                ) && !draggable)
            &&& forall|j: int, k: int|
                0 <= j < k < rows.len() ==> {
                    let a = (#[trigger] rows[j])->idx;
                    let b = (#[trigger] rows[k])->idx;
                    &&& text::at_most(app.apps[a as int].name_lower, app.apps[b as int].name_lower)
                    &&& app.apps[a as int].name_lower == app.apps[b as int].name_lower ==> a < b
                    &&& a != b
                }
        }),
{
    broadcast use vstd::seq_lib::group_to_multiset_ensures;

    let members = app.members_of(name);
    let sorted = listing::by_name(app.apps, members);
    let rows = app.rows_of(Page::Category(name));
    laws::lemma_members_within(app, name);
    desktop::law_members_increase(app.apps, name);
    listing::law_sort_orders_by_name(app.apps, members);
    if belongs(app, name, i) {
        assert(members.contains(i as usize)) by {
            if name == "All Applications"@ {
                assert(members[i] == i as usize);
            }
        }
        assert(members.to_multiset().count(i as usize) > 0);
        assert(sorted.to_multiset().count(i as usize) > 0);
        assert(sorted.contains(i as usize));
        let k = sorted.index_of(i as usize);
        assert(rows[k] == Row::<Seq<char>>::App {
            idx: i as usize,
            favorite: app.favorites.contains(app.apps[i].desktop_id),
            draggable: false,
        });
    }
    assert forall|k: int| 0 <= k < sorted.len() implies belongs(
        app,
        name,
        (#[trigger] sorted[k]) as int,
    ) by {
        assert(sorted.contains(sorted[k]));
        assert(sorted.to_multiset().count(sorted[k]) > 0);
        assert(members.to_multiset().count(sorted[k]) > 0);
        assert(members.contains(sorted[k]));
        let m = members.index_of(sorted[k]);
        assert(members[m] < app.apps.len());
    }
    assert forall|k: int| 0 <= k < rows.len() implies (#[trigger] rows[k] matches Row::App {
        idx,
        favorite,
        draggable,
    } && belongs(app, name, idx as int) && favorite == app.favorites.contains(
        app.apps[idx as int].desktop_id,
    ) && !draggable) by {
        assert(belongs(app, name, sorted[k] as int));
    }
    assert forall|j: int, k: int| 0 <= j < k < rows.len() implies {
        let a = (#[trigger] rows[j])->idx;
        let b = (#[trigger] rows[k])->idx;
        &&& text::at_most(app.apps[a as int].name_lower, app.apps[b as int].name_lower)
        &&& app.apps[a as int].name_lower == app.apps[b as int].name_lower ==> a < b
        &&& a != b
    } by {
        assert(rows[j]->idx == sorted[j] && rows[k]->idx == sorted[k]);
        assert(text::at_most(
            listing::lower_name(app.apps, sorted[j]),
            listing::lower_name(app.apps, sorted[k]),
        ));
        if app.apps[sorted[j] as int].name_lower == app.apps[sorted[k] as int].name_lower {
            listing::law_sort_is_stable(app.apps, members, j, k);
        }
    }
}

/// Whatever page is on top, a query that is not empty replaces the rows of
/// the current list by those of its best matches, at most the limit of them,
/// each with its star. The rows are shown and the first is selected; the
/// launcher itself stays as it is.
pub proof fn law_search_shows_matches(
    screen: Screen,
    app: AppModel,
    query: Seq<char>,
    low: Seq<char>,
)
    requires
        query.len() > 0,
    ensures
        ({
            let next = app.searched(query, low);
            let found = listing::found(app.apps, low);
            let count = if found.len() <= 20 {
                found.len()
            } else {
                20
            };
            let rows = Seq::new(
                count,
                |k: int|
                    Row::<Seq<char>>::App {
                        idx: found[k],
                        favorite: app.favorites.contains(app.apps[found[k] as int].desktop_id),
                        draggable: false,
                    },
            );
            &&& next.app == app
            &&& screen.after_all(next.effects) == screen.with_rows(app.current, rows)
            &&& next.effects.first() == Effect::<Seq<char>>::ClearList(app.current)
            &&& ends_with(
                next.effects,
                count + 3,
                seq![Effect::ShowList(app.current), Effect::SelectFirstRowSoon],
            )
        }),
{
    let next = app.searched(query, low);
    let found = listing::found(app.apps, low);
    let rows = app.app_rows(app.results(low));
    let clear = seq![Effect::<Seq<char>>::ClearList(app.current)];
    let fill = model::row_effects(app.current, rows);
    let tail = seq![Effect::<Seq<char>>::ShowList(app.current), Effect::SelectFirstRowSoon];
    let cleared = screen.after_all(clear);
    laws::lemma_after_few(screen, clear);
    laws::lemma_after_concat(screen, clear, fill);
    laws::lemma_after_concat(screen, clear + fill, tail);
    laws::lemma_after_rows(cleared, app.current, rows);
    laws::lemma_after_few(cleared.after_all(fill), tail);
    assert(cleared.rows(app.current) + rows =~= rows);
    assert(next.effects.skip(next.effects.len() - 2) =~= tail);
    assert(rows =~= Seq::new(
        rows.len(),
        |k: int|
            Row::<Seq<char>>::App {
                idx: found[k],
                favorite: app.favorites.contains(app.apps[found[k] as int].desktop_id),
                draggable: false,
            },
    ));
}

/// An empty query shows the page on top again.
pub proof fn law_empty_search_redraws(screen: Screen, app: AppModel, low: Seq<char>)
    requires
        app.stack.len() > 0,
    ensures
        app.searched(seq![], low).app == app,
        redraws(screen, app, app.searched(seq![], low).effects, app.stack.last()),
{
    lemma_redraws(screen, app, app.stack.last());
}

/// Every search for a text of a listed application finds it: its name, its
/// description, its generic name, and each of its keywords.
pub proof fn law_search_finds_each_text(
    files: Seq<desktop::FileModel>,
    apps: Seq<EntryModel>,
    w: int,
    k: int,
) -> (i: int)
    requires
        desktop::is_listing(desktop::catalog(files), apps),
        desktop::decides(files, w),
        desktop::shows(files[w]),
        apps.len() <= usize::MAX,
    ensures
        0 <= i < apps.len(),
        apps[i].desktop_id == files[w].name,
        ({
            let info = files[w].info->0;
            let hit = |word: Seq<char>|
                listing::found(apps, text::lowercase(word)).contains(i as usize);
            &&& hit(info.name)
            &&& info.description matches Some(d) ==> hit(d)
            &&& info.generic_name matches Some(g) ==> hit(g)
            &&& 0 <= k < info.keywords.len() ==> hit(info.keywords[k])
        }),
{
    let i = desktop::law_shown_files_are_listed_once(files, apps, w);
    let info = files[w].info->0;
    let none = Seq::<char>::empty();
    let name = text::lowercase(info.name);
    text::law_part_is_found(none, name, none);
    assert(none + name + none =~= name);
    listing::law_search_reads_name_and_texts(apps, name, i as usize);
    if let Some(d) = info.description {
        listing::law_search_reads_name_and_texts(apps, text::lowercase(d), i as usize);
    }
    if let Some(g) = info.generic_name {
        listing::law_search_reads_name_and_texts(apps, text::lowercase(g), i as usize);
    }
    if 0 <= k < info.keywords.len() {
        listing::law_search_reads_name_and_texts(
            apps,
            text::lowercase(info.keywords[k]),
            i as usize,
        );
    }
    i
}

/// The button below the list opens the categories on top of any page, or
/// takes the page on top away; with one page left it does nothing then.
pub proof fn law_button_opens_or_goes_back(screen: Screen, app: AppModel)
    requires
        laws::well_stacked(app),
    ensures
        slides_in(
            screen,
            app,
            app.nav_pressed(NavAction::ShowCategories),
            app.stack.push(Page::Categories),
            Direction::Forward,
        ),
        app.stack.len() > 1 ==> slides_in(
            screen,
            app,
            app.nav_pressed(NavAction::GoBack),
            app.stack.drop_last(),
            Direction::Back,
        ),
        app.stack.len() == 1 ==> is_idle(app, app.nav_pressed(NavAction::GoBack)),
{
    lemma_slides_in(screen, app, app.stack.push(Page::Categories), Direction::Forward);
    lemma_back_slides_in(screen, app);
}

proof fn lemma_back_slides_in(screen: Screen, app: AppModel)
    requires
        laws::well_stacked(app),
    ensures
        app.stack.len() > 1 ==> slides_in(
            screen,
            app,
            app.back(),
            app.stack.drop_last(),
            Direction::Back,
        ),
        app.stack.len() == 1 ==> is_idle(app, app.back()),
{
    let depth = app.stack.len() as int;
    if depth > 1 {
        let below = app.stack.take(depth - 2);
        let previous = app.stack[depth - 2];
        if depth == 2 {
            assert(app.stack.drop_last() =~= seq![Page::<Seq<char>>::Favorites]);
        } else {
            assert(!(previous is Favorites));
            assert(below.push(previous) =~= app.stack.drop_last());
        }
        assert(app.back() == (AppModel { stack: app.stack.drop_last(), ..app }).slide(
            Direction::Back,
            previous,
        ));
        lemma_slides_in(screen, app, app.stack.drop_last(), Direction::Back);
    }
}

/// Activating the row of a category opens its page on top, in every state;
/// activating the row of an application, draggable or not, starts that
/// application by its desktop file and does nothing else, unless a row is
/// being dragged.
pub proof fn law_activated_rows_open_or_launch(
    screen: Screen,
    app: AppModel,
    name: Seq<char>,
    idx: usize,
    draggable: bool,
)
    ensures
        slides_in(
            screen,
            app,
            app.row_activated(Some(RowMeta::Category { name })),
            app.stack.push(Page::Category(name)),
            Direction::Forward,
        ),
        !app.dragging ==> {
            let next = app.row_activated(Some(RowMeta::App { idx, draggable }));
            &&& next.app == app
            &&& next.effects == seq![
                Effect::<Seq<char>>::Launch { idx, step: LaunchStep::DesktopFile },
            ]
        },
        app.dragging ==> is_idle(app, app.row_activated(Some(RowMeta::App { idx, draggable }))),
        is_idle(app, app.row_activated(None)),
{
    lemma_slides_in(screen, app, app.stack.push(Page::Category(name)), Direction::Forward);
}

/// Starting an application tries the three ways one after another; a success
/// hides the launcher whichever way it was, and only the failure of the last
/// is reported, by the name of the application.
pub proof fn law_launching_tries_all_ways(app: AppModel, idx: usize, step: LaunchStep)
    ensures
        app.launch(idx).app == app,
        app.launch(idx).effects == seq![
            Effect::<Seq<char>>::Launch { idx, step: LaunchStep::DesktopFile },
        ],
        disappears(app, app.launched(idx, step, true)),
        app.launched(idx, step, false).app == app,
        app.launched(idx, step, false).effects == seq![
            match step {
                LaunchStep::DesktopFile => Effect::<Seq<char>>::Launch {
                    idx,
                    step: LaunchStep::GtkLaunch,
                },
                LaunchStep::GtkLaunch => Effect::Launch { idx, step: LaunchStep::DbusLaunch },
                LaunchStep::DbusLaunch => Effect::ReportLaunchFailure(app.apps[idx as int].name),
            },
        ],
{
    lemma_disappears(app);
}

proof fn lemma_disappears(app: AppModel)
    ensures
        disappears(app, app.hidden()),
{
    let told = seq![Effect::<Seq<char>>::HideWindow, Effect::SignalPanel(false)];
    if app.focus_timer {
        assert(app.hidden().effects =~= seq![Effect::<Seq<char>>::StopFocusTimer] + told);
    } else {
        assert(app.hidden().effects =~= told);
    }
}

/// Return in the search entry does nothing for white space alone. Otherwise
/// it starts the selected application, or the only one in the list, or else
/// lets the shell run the query without the white space around it.
pub proof fn law_return_launches_or_runs(
    app: AppModel,
    query: Seq<char>,
    selected: Option<RowMeta<Seq<char>>>,
    rows: Seq<Option<RowMeta<Seq<char>>>>,
)
    ensures
        ({
            let next = app.search_activated(query, selected, rows);
            &&& next.app == app
            &&& if forall|k: int| 0 <= k < query.len() ==> text::white_space(#[trigger] query[k]) {
                next.effects.len() == 0
            } else if let Some(RowMeta::App { idx, draggable }) = selected {
                next.effects == seq![
                    Effect::<Seq<char>>::Launch { idx, step: LaunchStep::DesktopFile },
                ]
            } else if rows.len() == 1 && (rows[0] matches Some(row) && row is App) {
                next.effects == seq![
                    Effect::<Seq<char>>::Launch {
                        idx: rows[0]->0->idx,
                        step: LaunchStep::DesktopFile,
                    },
                ]
            } else {
                next.effects == seq![Effect::<Seq<char>>::RunShell(text::trimmed(query))]
            }
        }),
{
    text::law_white_space_trims_to_nothing(query);
}

/// A visible launcher disappears; a hidden one appears with the favorites of
/// the file, on their page alone, in the list that was current, with an empty
/// search entry. Rows cannot be activated until a timer has ended.
pub proof fn law_toggling_shows_and_hides(
    screen: Screen,
    app: AppModel,
    favorites: Seq<Seq<char>>,
)
    ensures
        app.visible ==> disappears(app, app.toggled(favorites)),
        !app.visible ==> appears(screen, app, favorites, app.toggled(favorites)),
        appears(screen, app, favorites, app.shown(favorites)),
        disappears(app, app.hidden()),
{
    lemma_disappears(app);
    let next = app.shown(favorites);
    let opened = AppModel { favorites, stack: seq![Page::Favorites], ..app };
    let clear = seq![Effect::<Seq<char>>::ClearList(app.current), Effect::ClearSearch];
    let fill = opened.populate_current(Page::Favorites);
    let tail = seq![
        Effect::<Seq<char>>::BlockRowActivation,
        Effect::ShowWindow,
        Effect::PresentWindow,
        Effect::SelectFirstRowSoon,
        Effect::SignalPanel(true),
        Effect::StartTimer(Timer::RowActivation),
    ];
    assert(next.effects =~= clear + fill + tail);
    let cleared = screen.after_all(clear);
    laws::lemma_after_few(screen, clear);
    laws::lemma_after_concat(screen, clear, fill);
    laws::lemma_after_concat(screen, clear + fill, tail);
    lemma_adds_favorites(cleared, opened);
    laws::lemma_after_few(cleared.after_all(fill), tail);
    let rows = next.app.rows_of(Page::Favorites);
    lemma_rows_depend(next.app, opened, Page::Favorites);
    assert(cleared.rows(app.current) + rows =~= rows);
    assert(next.effects.take(2) =~= clear);
    assert(next.effects.skip(next.effects.len() - 8) =~= seq![
        Effect::<Seq<char>>::ShowList(app.current),
        Effect::SelectFirstRowSoon,
        Effect::BlockRowActivation,
        Effect::ShowWindow,
        Effect::PresentWindow,
        Effect::SelectFirstRowSoon,
        Effect::SignalPanel(true),
        Effect::StartTimer(Timer::RowActivation),
    ]);
}

/// The launcher appears, on the page of these favorites.
pub open spec fn appears(
    screen: Screen,
    app: AppModel,
    favorites: Seq<Seq<char>>,
    next: Outcome,
) -> bool {
    let rows = next.app.rows_of(Page::Favorites);
    &&& next.app == (AppModel { favorites, stack: seq![Page::Favorites], visible: true, ..app })
    &&& screen.after_all(next.effects) == (Screen {
        window: true,
        panel: true,
        button: Some(NavAction::ShowCategories),
        ..screen.with_rows(app.current, rows)
    })
    &&& next.effects.take(2) == seq![
        Effect::<Seq<char>>::ClearList(app.current),
        Effect::ClearSearch,
    ]
    &&& ends_with(
        next.effects,
        rows.len() + 11,
        seq![
            Effect::ShowList(app.current),
            Effect::SelectFirstRowSoon,
            Effect::BlockRowActivation,
            Effect::ShowWindow,
            Effect::PresentWindow,
            Effect::SelectFirstRowSoon,
            Effect::SignalPanel(true),
            Effect::StartTimer(Timer::RowActivation),
        ],
    )
}

/// Clicking a star saves the favorites at once, with the application taken
/// out or put at the end, and keeps everything else. The page of a category
/// is drawn anew with the new stars, on the favorites page the rows of the
/// new favorites are added, and the rows above the categories stay.
pub proof fn law_star_saves_and_redraws(screen: Screen, app: AppModel, idx: int)
    requires
        laws::well_stacked(app),
    ensures
        ({
            let next = app.star_clicked(idx);
            let list = favorites::toggled(app.favorites, app.apps[idx].desktop_id);
            &&& next.app == (AppModel { favorites: list, ..app })
            &&& next.effects.len() > 0
            &&& next.effects[0] == Effect::SaveFavorites(favorites::strings_json(list))
            &&& match app.stack.last() {
                Page::Category(name) => redraws(
                    screen,
                    next.app,
                    next.effects.skip(1),
                    app.stack.last(),
                ),
                Page::Favorites => adds_favorites(screen, next.app, next.effects.skip(1)),
                Page::Categories => next.effects.len() == 1,
            }
        }),
{
    let next = app.star_clicked(idx);
    let list = favorites::toggled(app.favorites, app.apps[idx].desktop_id);
    let starred = AppModel { favorites: list, ..app };
    let below = AppModel { stack: app.stack.drop_last(), ..starred };
    match app.stack.last() {
        Page::Category(name) => {
            assert(below.stack.push(Page::Category(name)) =~= app.stack);
            let shown = seq![Effect::ClearList(app.current)] + starred.populate_current(
                app.stack.last(),
            );
            assert(next.effects.skip(1) =~= shown);
            lemma_redraws(screen, starred, app.stack.last());
        },
        Page::Favorites => {
            if app.stack.len() > 1 {
                assert(!(app.stack[app.stack.len() - 1] is Favorites));
            }
            assert(seq![Page::<Seq<char>>::Favorites] =~= app.stack);
            assert(next.effects.skip(1) =~= starred.populate_current(Page::Favorites));
            lemma_adds_favorites(screen, starred);
        },
        Page::Categories => {},
    }
}

/// The pointer selects the row that it comes to and forgets the one that it
/// leaves, unless a row is being dragged.
pub proof fn law_pointer_selects(app: AppModel, row: u64, other: u64)
    ensures
        !app.dragging ==> {
            &&& app.row_entered(row).app == (AppModel { hovered: Some(row), ..app })
            &&& app.row_entered(row).effects == seq![Effect::<Seq<char>>::SelectRow(row)]
            &&& app.row_entered(row).app.row_left(row) == (AppModel { hovered: None, ..app })
            &&& other != row ==> app.row_entered(row).app.row_left(other) == app.row_entered(
                row,
            ).app
        },
        app.dragging ==> is_idle(app, app.row_entered(row)) && app.row_left(row) == app,
        app.hovered is None ==> app.row_left(row) == app,
{
}

/// The right button shows the menu of an application and ends the event; the
/// left button picks a draggable row up and selects it. No other press does
/// anything.
pub proof fn law_buttons_of_the_pointer(
    app: AppModel,
    button: u32,
    idx: usize,
    draggable: bool,
    name: Seq<char>,
    row: u64,
)
    ensures
        ({
            let (next, spread) = app.button_pressed(
                button,
                Some(RowMeta::App { idx, draggable }),
                row,
            );
            &&& spread == (if button == 3 {
                Propagation::Stop
            } else {
                Propagation::Proceed
            })
            &&& if button == 3 {
                next.app == app && next.effects == seq![
                    Effect::<Seq<char>>::ShowContextMenu(idx),
                ]
            } else if button == 1 && draggable {
                &&& next.app == (AppModel { dragging: true, drag_row: Some(row), ..app })
                &&& next.effects == seq![Effect::<Seq<char>>::SelectRow(row)]
            } else {
                is_idle(app, next)
            }
        }),
        is_idle(app, app.button_pressed(button, None, row).0),
        is_idle(app, app.button_pressed(button, Some(RowMeta::Category { name }), row).0),
        button != 3 ==> app.button_pressed(button, None, row).1 == Propagation::Proceed
            && app.button_pressed(button, Some(RowMeta::Category { name }), row).1
            == Propagation::Proceed,
        button == 3 ==> app.button_pressed(button, None, row).1 == Propagation::Stop
            && app.button_pressed(button, Some(RowMeta::Category { name }), row).1
            == Propagation::Stop,
{
}

/// A dragged row moves to the place of another row that the pointer is over,
/// and to no other; without a drag nothing moves.
pub proof fn law_dragged_row_follows_the_pointer(
    app: AppModel,
    over: u64,
    index: i32,
    drag_index: i32,
)
    ensures
        app.drag_effects(None, drag_index).len() == 0,
        !app.dragging || app.drag_row is None ==> app.drag_effects(
            Some((over, index)),
            drag_index,
        ).len() == 0,
        app.drag_row == Some(over) || index == drag_index ==> app.drag_effects(
            Some((over, index)),
            drag_index,
        ).len() == 0,
        app.dragging && app.drag_row is Some && app.drag_row != Some(over) && index != drag_index
            ==> app.drag_effects(Some((over, index)), drag_index) == seq![
            Effect::<Seq<char>>::MoveRow { row: app.drag_row->0, to: index },
        ],
{
}

/// The rows of applications count for the favorites one after another, other
/// rows do not.
pub proof fn law_rows_give_their_ids(
    apps: Seq<EntryModel>,
    rows: Seq<RowMeta<Seq<char>>>,
    idx: usize,
    draggable: bool,
    name: Seq<char>,
)
    ensures
        model::row_ids(apps, Seq::empty()).len() == 0,
        model::row_ids(apps, rows.push(RowMeta::App { idx, draggable })) == model::row_ids(
            apps,
            rows,
        ).push(apps[idx as int].desktop_id),
        model::row_ids(apps, rows.push(RowMeta::Category { name })) == model::row_ids(apps, rows),
{
    assert(rows.push(RowMeta::App { idx, draggable }).drop_last() =~= rows);
    assert(rows.push(RowMeta::Category { name }).drop_last() =~= rows);
}

/// At the end of a drag the favorites become those of the rows and are saved,
/// and nothing is dragged any more; otherwise a release does nothing.
pub proof fn law_release_ends_the_drag(app: AppModel, rows: Seq<RowMeta<Seq<char>>>)
    ensures
        app.dragging ==> {
            let next = app.button_released(rows);
            let list = model::row_ids(app.apps, rows);
            &&& next.app == (AppModel { dragging: false, drag_row: None, favorites: list, ..app })
            &&& next.effects == seq![Effect::SaveFavorites(favorites::strings_json(list))]
        },
        !app.dragging ==> is_idle(app, app.button_released(rows)),
{
}

/// In every state without a pending reload, visible or hidden, a change of a
/// desktop file starts the reload timer; other files, and changes while a
/// reload is pending, do nothing.
pub proof fn law_changed_desktop_file_starts_reload(app: AppModel, name: Seq<char>)
    ensures
        !app.reload_pending ==> {
            let next = app.directory_changed(Some(name + ".desktop"@));
            &&& next.app == (AppModel { reload_pending: true, ..app })
            &&& next.effects == seq![Effect::<Seq<char>>::StartTimer(Timer::Reload)]
        },
        app.reload_pending || !text::has_suffix(name, ".desktop"@) ==> is_idle(
            app,
            app.directory_changed(Some(name)),
        ),
        is_idle(app, app.directory_changed(None)),
{
    let rest = text::law_suffix_is_the_end(name, ".desktop"@, name);
}

/// Loading again replaces the applications and their categories, and ends the
/// wait for it. A visible launcher draws the page on top anew, a hidden one
/// does nothing.
pub proof fn law_reload_replaces_the_applications(
    screen: Screen,
    app: AppModel,
    apps: Seq<EntryModel>,
    categories: Seq<CategoryModel>,
)
    requires
        app.stack.len() > 0,
    ensures
        ({
            let next = app.reloaded(apps, categories);
            &&& next.app == (AppModel { apps, categories, reload_pending: false, ..app })
            &&& app.visible ==> redraws(screen, next.app, next.effects, app.stack.last())
            &&& !app.visible ==> next.effects.len() == 0
        }),
{
    let loaded = AppModel { apps, categories, reload_pending: false, ..app };
    lemma_redraws(screen, loaded, app.stack.last());
}

/// An installed application is there when the launcher is shown the next time:
/// a change of its file, visible or hidden, leads to a reload, and after that
/// the favorites page has its rows from the new applications.
pub proof fn law_installed_application_appears(
    screen: Screen,
    app: AppModel,
    name: Seq<char>,
    apps: Seq<EntryModel>,
    categories: Seq<CategoryModel>,
    list: Seq<Seq<char>>,
)
    requires
        app.stack.len() > 0,
        !app.visible,
        !app.reload_pending,
    ensures
        ({
            let changed = app.directory_changed(Some(name + ".desktop"@));
            let loaded = changed.app.reloaded(apps, categories);
            let shown = loaded.app.toggled(list);
            let fresh = AppModel { apps, categories, favorites: list, ..app };
            &&& changed.effects.contains(Effect::<Seq<char>>::StartTimer(Timer::Reload))
            &&& shown.app.apps == apps
            &&& screen.after_all(shown.effects).rows(app.current) == fresh.rows_of(Page::Favorites)
        }),
{
    law_changed_desktop_file_starts_reload(app, name);
    let changed = app.directory_changed(Some(name + ".desktop"@));
    assert(changed.effects[0] == Effect::<Seq<char>>::StartTimer(Timer::Reload));
    law_reload_replaces_the_applications(screen, changed.app, apps, categories);
    let loaded = changed.app.reloaded(apps, categories);
    law_toggling_shows_and_hides(screen, loaded.app, list);
    let fresh = AppModel { apps, categories, favorites: list, ..app };
    lemma_rows_depend(loaded.app.toggled(list).app, fresh, Page::Favorites);
}

/// Without the focus the launcher has one running timer that will hide it,
/// started anew each time; with the focus it has none, and the list has the
/// keyboard unless something is typed in.
pub proof fn law_focus_starts_and_stops_the_timer(app: AppModel)
    ensures
        ({
            let stop = if app.focus_timer {
                seq![Effect::<Seq<char>>::StopFocusTimer]
            } else {
                seq![]
            };
            &&& app.focus_lost().app == (AppModel { focus_timer: true, ..app })
            &&& app.focus_lost().effects == stop.push(Effect::StartTimer(Timer::FocusOut))
            &&& app.focus_gained(true).app == (AppModel { focus_timer: false, ..app })
            &&& app.focus_gained(true).effects == stop.push(
                Effect::FocusList(app.current),
            ).push(Effect::RedrawSearch)
            &&& app.focus_gained(false).app == (AppModel { focus_timer: false, ..app })
            &&& app.focus_gained(false).effects == stop
        }),
{
    let stop = app.stop_focus_timer();
    assert(app.focus_gained(true).effects =~= stop.push(Effect::FocusList(app.current)).push(
        Effect::RedrawSearch,
    ));
    assert(app.focus_gained(false).effects =~= stop);
}

/// Once the lists have stopped, they can slide again, and the first row is
/// selected.
pub proof fn law_animation_ends(app: AppModel)
    ensures
        app.animation_ended().app == (AppModel { animating: false, ..app }),
        app.animation_ended().effects == seq![Effect::<Seq<char>>::SelectFirstRowSoon],
{
}

/// Escape goes back while there is a page below, and hides the launcher
/// otherwise; left and right lead through the pages unless the search entry
/// has the focus; the other arrows give the list the focus, Return and Enter
/// pass, and any other key goes to the search entry.
pub proof fn law_keys(
    screen: Screen,
    app: AppModel,
    key: Key,
    search_focused: bool,
    list_focused: bool,
    selected: Option<RowMeta<Seq<char>>>,
)
    requires
        laws::well_stacked(app),
    ensures
        ({
            let (next, spread) = app.key_pressed(key, search_focused, list_focused, selected);
            let deep = app.stack.len() > 1;
            match key {
                Key::Escape => {
                    &&& spread == Propagation::Stop
                    &&& deep ==> slides_in(
                        screen,
                        app,
                        next,
                        app.stack.drop_last(),
                        Direction::Back,
                    )
                    &&& !deep ==> disappears(app, next)
                },
                Key::Up | Key::Down => {
                    &&& spread == Propagation::Proceed
                    &&& next.app == app
                    &&& list_focused ==> next.effects.len() == 0
                    &&& !list_focused ==> next.effects == seq![
                        Effect::<Seq<char>>::FocusList(app.current),
                    ]
                },
                Key::Return | Key::KeypadEnter => is_idle(app, next) && spread
                    == Propagation::Proceed,
                Key::Right => if search_focused {
                    is_idle(app, next) && spread == Propagation::Proceed
                } else if let Some(RowMeta::Category { name }) = selected {
                    &&& spread == Propagation::Stop
                    &&& slides_in(
                        screen,
                        app,
                        next,
                        app.stack.push(Page::Category(name)),
                        Direction::Forward,
                    )
                } else {
                    &&& spread == Propagation::Stop
                    &&& !deep ==> slides_in(
                        screen,
                        app,
                        next,
                        app.stack.push(Page::Categories),
                        Direction::Forward,
                    )
                    &&& deep ==> is_idle(app, next)
                },
                Key::Left | Key::Other => if search_focused {
                    is_idle(app, next) && spread == Propagation::Proceed
                } else if key is Left && deep {
                    &&& spread == Propagation::Stop
                    &&& slides_in(screen, app, next, app.stack.drop_last(), Direction::Back)
                } else {
                    &&& spread == Propagation::Proceed
                    &&& next.app == app
                    &&& next.effects == seq![Effect::<Seq<char>>::FocusSearch]
                },
            }
        }),
{
    lemma_back_slides_in(screen, app);
    lemma_disappears(app);
    lemma_slides_in(screen, app, app.stack.push(Page::Categories), Direction::Forward);
    if let Some(RowMeta::Category { name }) = selected {
        lemma_slides_in(screen, app, app.stack.push(Page::Category(name)), Direction::Forward);
    }
    if app.stack.len() > 1 {
        assert(!(app.stack[app.stack.len() - 1] is Favorites));
    }
}

/// A launcher starts on the page of the favorites in the first list, watches
/// the directories and reports the events of its window; it shows itself at
/// once unless it is told to start hidden.
pub proof fn law_launcher_starts(
    screen: Screen,
    list: Seq<Seq<char>>,
    apps: Seq<EntryModel>,
    categories: Seq<CategoryModel>,
    start_hidden: bool,
)
    ensures
        ({
            let start = model::started(list, apps, categories, start_hidden);
            let rows = start.app.rows_of(Page::Favorites);
            let watch = seq![
                Effect::<Seq<char>>::ShowList(ActiveView::One),
                Effect::SelectFirstRowSoon,
                Effect::WatchDirectories,
                Effect::ConnectWindow,
            ];
            let show = seq![
                Effect::<Seq<char>>::ShowWindow,
                Effect::FocusList(ActiveView::One),
                Effect::SignalPanel(true),
            ];
            let drawn = Screen {
                button: Some(NavAction::ShowCategories),
                ..screen.with_rows(ActiveView::One, screen.one + rows)
            };
            &&& start.app == (AppModel {
                apps,
                categories,
                favorites: list,
                stack: seq![Page::Favorites],
                current: ActiveView::One,
                dragging: false,
                drag_row: None,
                hovered: None,
                animating: false,
                visible: !start_hidden,
                focus_timer: false,
                reload_pending: false,
            })
            &&& start_hidden ==> {
                &&& screen.after_all(start.effects) == drawn
                &&& ends_with(start.effects, rows.len() + 5, watch)
            }
            &&& !start_hidden ==> {
                &&& screen.after_all(start.effects) == (Screen {
                    window: true,
                    panel: true,
                    ..drawn
                })
                &&& ends_with(start.effects, rows.len() + 8, watch + show)
            }
        }),
{
    let start = model::started(list, apps, categories, start_hidden);
    let app = AppModel { visible: false, ..start.app };
    let fill = app.populate_current(Page::Favorites);
    let watch = seq![Effect::<Seq<char>>::WatchDirectories, Effect::ConnectWindow];
    let show = if start_hidden {
        seq![]
    } else {
        seq![
            Effect::<Seq<char>>::ShowWindow,
            Effect::FocusList(ActiveView::One),
            Effect::SignalPanel(true),
        ]
    };
    lemma_rows_depend(app, start.app, Page::Favorites);
    assert(start.effects =~= fill + watch + show);
    laws::lemma_after_concat(screen, fill, watch);
    laws::lemma_after_concat(screen, fill + watch, show);
    lemma_adds_favorites(screen, app);
    laws::lemma_after_few(screen.after_all(fill), watch);
    laws::lemma_after_few(screen.after_all(fill + watch), show);
    let first = seq![
        Effect::<Seq<char>>::ShowList(ActiveView::One),
        Effect::SelectFirstRowSoon,
        Effect::WatchDirectories,
        Effect::ConnectWindow,
    ];
    if start_hidden {
        assert(start.effects.skip(start.effects.len() - 4) =~= first);
    } else {
        assert(start.effects.skip(start.effects.len() - 7) =~= first + show);
    }
}

} // verus!
