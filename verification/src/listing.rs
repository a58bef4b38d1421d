//! Which applications a list shows, and in which order: the favorites, the
//! members of a category, the results of a search.
use vstd::hash_map::StringHashMap;
use vstd::prelude::*;

use crate::desktop::{AppEntry, EntryModel};
use crate::text::{self, contains, le, same, to_lowercase};

verus! {

/// The position of the first application of each desktop id.
pub open spec fn id_index(apps: Seq<EntryModel>) -> Map<Seq<char>, usize>
    decreases apps.len(),
{
    if apps.len() == 0 {
        Map::empty()
    } else {
        let before = id_index(apps.drop_last());
        let id = apps.last().desktop_id;
        if before.contains_key(id) {
            before
        } else {
            before.insert(id, (apps.len() - 1) as usize)
        }
    }
}

/// The position of the first application of each desktop id.
pub fn index_by_id(apps: &Vec<AppEntry>) -> (r: StringHashMap<usize>)
    ensures
        r@ == id_index(apps.deep_view()),
{
    let mut index = StringHashMap::<usize>::new();
    let ghost all = apps.deep_view();
    for i in 0..apps.len()
        invariant
            all == apps.deep_view(),
            index@ == id_index(all.take(i as int)),
    {
        assert(all.take(i + 1).drop_last() =~= all.take(i as int));
        if !index.contains_key(apps[i].desktop_id.as_str()) {
            index.insert(apps[i].desktop_id.clone(), i);
        }
    }
    assert(all.take(all.len() as int) =~= all);
    index
}

/// The index holds a desktop id if and only if an application has it, and
/// leads to the first that does.
pub proof fn law_index_finds_the_first(apps: Seq<EntryModel>, id: Seq<char>)
    requires
        apps.len() <= usize::MAX,
    ensures
        id_index(apps).contains_key(id) <==> exists|i: int|
            0 <= i < apps.len() && (#[trigger] apps[i]).desktop_id == id,
        id_index(apps).contains_key(id) ==> {
            let at = id_index(apps)[id];
            &&& at < apps.len()
            &&& apps[at as int].desktop_id == id
            &&& forall|i: int| 0 <= i < at ==> (#[trigger] apps[i]).desktop_id != id
        },
    decreases apps.len(),
{
    if apps.len() > 0 {
        let before = apps.drop_last();
        let n = before.len() as int;
        law_index_finds_the_first(before, id);
        assert(forall|i: int| 0 <= i < n ==> #[trigger] apps[i] == before[i]);
        assert(apps[n] == apps.last());
        if id_index(before).contains_key(id) {
            let at = id_index(before)[id] as int;
            assert(apps[at].desktop_id == id);
        }
    }
}

/// The positions of the favorites that are installed, in their order.
pub open spec fn shown_favorites(apps: Seq<EntryModel>, favorites: Seq<Seq<char>>) -> Seq<usize>
    decreases favorites.len(),
{
    if favorites.len() == 0 {
        seq![]
    } else {
        let before = shown_favorites(apps, favorites.drop_last());
        if id_index(apps).contains_key(favorites.last()) {
            before.push(id_index(apps)[favorites.last()])
        } else {
            before
        }
    }
}

/// The favorites that are installed, in their order.
pub open spec fn installed(apps: Seq<EntryModel>, favorites: Seq<Seq<char>>) -> Seq<Seq<char>>
    decreases favorites.len(),
{
    if favorites.len() == 0 {
        seq![]
    } else {
        let before = installed(apps, favorites.drop_last());
        if id_index(apps).contains_key(favorites.last()) {
            before.push(favorites.last())
        } else {
            before
        }
    }
}

/// The desktop ids of the applications at the positions `idxs`.
pub open spec fn ids_at(apps: Seq<EntryModel>, idxs: Seq<usize>) -> Seq<Seq<char>> {
    idxs.map_values(|i: usize| apps[i as int].desktop_id)
}

/// The list of favorites shows the installed favorites, in their order.
pub proof fn law_favorites_are_shown_in_order(apps: Seq<EntryModel>, favorites: Seq<Seq<char>>)
    requires
        apps.len() <= usize::MAX,
    ensures
        ids_at(apps, shown_favorites(apps, favorites)) == installed(apps, favorites),
        forall|k: int|
            0 <= k < shown_favorites(apps, favorites).len() ==> #[trigger] shown_favorites(
                apps,
                favorites,
            )[k] < apps.len(),
    decreases favorites.len(),
{
    if favorites.len() > 0 {
        law_favorites_are_shown_in_order(apps, favorites.drop_last());
        law_index_finds_the_first(apps, favorites.last());
    }
    assert(ids_at(apps, shown_favorites(apps, favorites)) =~= installed(apps, favorites));
}

/// How well an application matches a search in lower case: the name is the
/// query, the name holds it, the other texts hold it, or none of these.
#[derive(Debug, Clone, Copy, PartialEq, Eq, Structural)]
pub enum Rank {
    Exact,
    Title,
    Other,
    NoMatch,
}

/// How well `app` matches the query.
pub open spec fn rank_of(app: EntryModel, query: Seq<char>) -> Rank {
    if app.name_lower == query {
        Rank::Exact
    } else if text::has_part(app.name_lower, query) {
        Rank::Title
    } else if text::has_part(app.search_text, query) {
        Rank::Other
    } else {
        Rank::NoMatch
    }
}

/// The positions, in increasing order, of the applications of this rank.
pub open spec fn ranked(apps: Seq<EntryModel>, query: Seq<char>, rank: Rank) -> Seq<usize>
    decreases apps.len(),
{
    if apps.len() == 0 {
        seq![]
    } else if rank_of(apps.last(), query) == rank {
        ranked(apps.drop_last(), query, rank).push((apps.len() - 1) as usize)
    } else {
        ranked(apps.drop_last(), query, rank)
    }
}

/// The positions of the applications that match the query, the better matches
/// first.
pub open spec fn found(apps: Seq<EntryModel>, query: Seq<char>) -> Seq<usize> {
    ranked(apps, query, Rank::Exact) + ranked(apps, query, Rank::Title) + ranked(
        apps,
        query,
        Rank::Other,
    )
}

/// How well `app` matches the query, which is in lower case.
pub fn rank(app: &AppEntry, query: &str) -> (r: Rank)
    ensures
        r == rank_of(app@, query@),
{
    if same(app.name_lower.as_str(), query) {
        Rank::Exact
    } else if contains(app.name_lower.as_str(), query) {
        Rank::Title
    } else if contains(app.search_text.as_str(), query) {
        Rank::Other
    } else {
        Rank::NoMatch
    }
}

/// The applications that match a query in lower case, the better matches
/// first.
pub fn search_lowered(apps: &Vec<AppEntry>, query: &str) -> (r: Vec<usize>)
    ensures
        r@ == found(apps.deep_view(), query@),
{
    let mut exact: Vec<usize> = Vec::new();
    let mut title: Vec<usize> = Vec::new();
    let mut other: Vec<usize> = Vec::new();
    let ghost all = apps.deep_view();
    for i in 0..apps.len()
        invariant
            all == apps.deep_view(),
            exact@ == ranked(all.take(i as int), query@, Rank::Exact),
            title@ == ranked(all.take(i as int), query@, Rank::Title),
            other@ == ranked(all.take(i as int), query@, Rank::Other),
    {
        assert(all.take(i + 1).drop_last() =~= all.take(i as int));
        match rank(&apps[i], query) {
            Rank::Exact => exact.push(i),
            Rank::Title => title.push(i),
            Rank::Other => other.push(i),
            Rank::NoMatch => {},
        }
    }
    assert(all.take(all.len() as int) =~= all);
    exact.append(&mut title);
    exact.append(&mut other);
    exact
}

/// The applications that match a query, the better matches first.
pub fn search_apps(apps: &Vec<AppEntry>, query: &str) -> (r: Vec<usize>)
    ensures
        r@ == found(apps.deep_view(), text::lowercase(query@)),
{
    let query = to_lowercase(query);
    search_lowered(apps, query.as_str())
}

/// The positions of a rank are those of its applications, in increasing order.
proof fn lemma_ranked(apps: Seq<EntryModel>, query: Seq<char>, rank: Rank)
    requires
        apps.len() <= usize::MAX,
    ensures
        forall|i: usize|
            #[trigger] ranked(apps, query, rank).contains(i) <==> i < apps.len() && rank_of(
                apps[i as int],
                query,
            ) == rank,
        forall|a: int, b: int|
            0 <= a < b < ranked(apps, query, rank).len() ==> #[trigger] ranked(
                apps,
                query,
                rank,
            )[a] < #[trigger] ranked(apps, query, rank)[b],
    decreases apps.len(),
{
    if apps.len() > 0 {
        let before = apps.drop_last();
        let n = (apps.len() - 1) as usize;
        let short = ranked(before, query, rank);
        let whole = ranked(apps, query, rank);
        lemma_ranked(before, query, rank);
        assert forall|i: usize| #[trigger] whole.contains(i) <==> i < apps.len() && rank_of(
            apps[i as int],
            query,
        ) == rank by {
            if i < n {
                assert(apps[i as int] == before[i as int]);
                assert(short.contains(i) <==> rank_of(apps[i as int], query) == rank);
            } else {
                assert(!short.contains(i));
            }
            if whole.contains(i) {
                let p = whole.index_of(i);
                if p < short.len() {
                    assert(short[p] == i);
                }
            }
            if short.contains(i) {
                assert(whole[short.index_of(i)] == i);
            }
            if i == n && rank_of(apps[i as int], query) == rank {
                assert(whole[whole.len() - 1] == i);
            }
        }
        assert forall|a: int, b: int| 0 <= a < b < whole.len() implies #[trigger] whole[a]
            < #[trigger] whole[b] by {
            if b == short.len() {
                assert(short.contains(short[a]));
            } else {
                assert(short[a] < short[b]);
            }
        }
    }
}

/// A search finds every application that matches, and nothing else, each once.
pub proof fn law_search_finds_matches(apps: Seq<EntryModel>, query: Seq<char>)
    requires
        apps.len() <= usize::MAX,
    ensures
        found(apps, query).no_duplicates(),
        forall|i: usize|
            #[trigger] found(apps, query).contains(i) <==> i < apps.len() && rank_of(
                apps[i as int],
                query,
            ) != Rank::NoMatch,
{
    let a = ranked(apps, query, Rank::Exact);
    let b = ranked(apps, query, Rank::Title);
    let c = ranked(apps, query, Rank::Other);
    let all = found(apps, query);
    lemma_ranked(apps, query, Rank::Exact);
    lemma_ranked(apps, query, Rank::Title);
    lemma_ranked(apps, query, Rank::Other);
    assert forall|k: int| 0 <= k < all.len() implies a.contains(#[trigger] all[k]) || b.contains(
        all[k],
    ) || c.contains(all[k]) by {
        if k < a.len() {
            assert(a[k] == all[k]);
        } else if k < a.len() + b.len() {
            assert(b[k - a.len()] == all[k]);
        } else {
            assert(c[k - a.len() - b.len()] == all[k]);
        }
    }
    assert forall|i: usize| #[trigger] all.contains(i) <==> i < apps.len() && rank_of(
        apps[i as int],
        query,
    ) != Rank::NoMatch by {
        if a.contains(i) {
            assert(all[a.index_of(i)] == i);
        }
        if b.contains(i) {
            assert(all[a.len() + b.index_of(i)] == i);
        }
        if c.contains(i) {
            assert(all[a.len() + b.len() + c.index_of(i)] == i);
        }
        if all.contains(i) {
            assert(all[all.index_of(i)] == i);
        }
    }
    assert forall|x: int, y: int| 0 <= x < y < all.len() implies all[x] != all[y] by {
        if y < a.len() {
            assert(a[x] < a[y]);
        } else if y < a.len() + b.len() {
            assert(b.contains(b[y - a.len()]));
            if x < a.len() {
                assert(a.contains(a[x]));
            } else {
                assert(b[x - a.len()] < b[y - a.len()]);
            }
        } else {
            let m = a.len() + b.len();
            assert(c.contains(c[y - m]));
            if x < a.len() {
                assert(a.contains(a[x]));
            } else if x < m {
                assert(b.contains(b[x - a.len()]));
            } else {
                assert(c[x - m] < c[y - m]);
            }
        }
    }
}

/// The weight of a rank: a better match weighs less.
pub open spec fn weight(rank: Rank) -> int {
    match rank {
        Rank::Exact => 0,
        Rank::Title => 1,
        Rank::Other => 2,
        Rank::NoMatch => 3,
    }
}

/// In the results of a search a better match stands before a worse one, and
/// of two equally good ones the one that is listed first.
pub proof fn law_better_matches_first(apps: Seq<EntryModel>, query: Seq<char>, x: int, y: int)
    requires
        apps.len() <= usize::MAX,
        0 <= x < y < found(apps, query).len(),
    ensures
        ({
            let i = found(apps, query)[x];
            let j = found(apps, query)[y];
            let before = weight(rank_of(apps[i as int], query));
            let after = weight(rank_of(apps[j as int], query));
            before < after || before == after && i < j
        }),
{
    let a = ranked(apps, query, Rank::Exact);
    let b = ranked(apps, query, Rank::Title);
    let c = ranked(apps, query, Rank::Other);
    let m = a.len() + b.len();
    lemma_ranked(apps, query, Rank::Exact);
    lemma_ranked(apps, query, Rank::Title);
    lemma_ranked(apps, query, Rank::Other);
    if x < a.len() {
        assert(a.contains(a[x]));
    } else if x < m {
        assert(b.contains(b[x - a.len()]));
    } else {
        assert(c.contains(c[x - m]));
    }
    if y < a.len() {
        assert(a.contains(a[y]));
        assert(a[x] < a[y]);
    } else if y < m {
        assert(b.contains(b[y - a.len()]));
        if x >= a.len() {
            assert(b[x - a.len()] < b[y - a.len()]);
        }
    } else {
        assert(c.contains(c[y - m]));
        if x >= m {
            assert(c[x - m] < c[y - m]);
        }
    }
}

/// The name in lower case of the application at position `i`.
pub open spec fn lower_name(apps: Seq<EntryModel>, i: usize) -> Seq<char> {
    apps[i as int].name_lower
}

/// `sorted` with `i` put behind the last application whose name is not behind
/// the name of `i`.
pub open spec fn put_by_name(apps: Seq<EntryModel>, sorted: Seq<usize>, i: usize) -> Seq<usize>
    decreases sorted.len(),
{
    if sorted.len() == 0 || text::at_most(
        lower_name(apps, sorted.last()),
        lower_name(apps, i),
    ) {
        sorted.push(i)
    } else {
        put_by_name(apps, sorted.drop_last(), i).push(sorted.last())
    }
}

/// The positions `idxs` in the order of the names of their applications; equal
/// names keep their order.
pub open spec fn by_name(apps: Seq<EntryModel>, idxs: Seq<usize>) -> Seq<usize>
    decreases idxs.len(),
{
    if idxs.len() == 0 {
        seq![]
    } else {
        put_by_name(apps, by_name(apps, idxs.drop_last()), idxs.last())
    }
}

/// The positions are those of applications.
pub open spec fn within(apps: Seq<EntryModel>, idxs: Seq<usize>) -> bool {
    forall|k: int| 0 <= k < idxs.len() ==> #[trigger] idxs[k] < apps.len()
}

/// The positions stand in the order of the names of their applications.
pub open spec fn names_ordered(apps: Seq<EntryModel>, idxs: Seq<usize>) -> bool {
    forall|a: int, b: int|
        0 <= a <= b < idxs.len() ==> text::at_most(
            #[trigger] lower_name(apps, idxs[a]),
            #[trigger] lower_name(apps, idxs[b]),
        )
}

/// The positions strictly increase.
pub open spec fn increasing(idxs: Seq<usize>) -> bool {
    forall|a: int, b: int| 0 <= a < b < idxs.len() ==> #[trigger] idxs[a] < #[trigger] idxs[b]
}

/// Puts the position `i` into the ordered list `sorted`.
fn insert_index(apps: &Vec<AppEntry>, sorted: &mut Vec<usize>, i: usize)
    requires
        within(apps.deep_view(), old(sorted)@),
        i < apps@.len(),
    ensures
        final(sorted)@ == put_by_name(apps.deep_view(), old(sorted)@, i),
        within(apps.deep_view(), final(sorted)@),
{
    let ghost all = apps.deep_view();
    let ghost before = sorted@;
    let mut at: usize = sorted.len();
    assert(before.take(before.len() as int) =~= before);
    assert(put_by_name(all, before, i) =~= put_by_name(all, before, i) + before.skip(
        before.len() as int,
    ));
    while at > 0 && !le(apps[sorted[at - 1]].name_lower.as_str(), apps[i].name_lower.as_str())
        invariant
            all == apps.deep_view(),
            before == sorted@,
            within(all, before),
            i < all.len(),
            at <= before.len(),
            put_by_name(all, before, i) == put_by_name(all, before.take(at as int), i)
                + before.skip(at as int),
        decreases at,
    {
        let ghost part = before.take(at as int);
        assert(part.drop_last() =~= before.take(at - 1));
        assert(part.last() == before[at - 1]);
        assert(put_by_name(all, part, i) == put_by_name(all, before.take(at - 1), i).push(
            before[at - 1],
        ));
        assert(put_by_name(all, part, i) + before.skip(at as int) =~= put_by_name(
            all,
            before.take(at - 1),
            i,
        ) + before.skip(at - 1));
        at = at - 1;
    }
    assert(at > 0 ==> before.take(at as int).last() == before[at - 1]);
    assert(put_by_name(all, before.take(at as int), i) == before.take(at as int).push(i));
    sorted.insert(at, i);
    assert(sorted@ =~= put_by_name(all, before, i));
}

/// The positions `idxs` in the order of the names of their applications; equal
/// names keep their order.
pub fn sort_by_name(apps: &Vec<AppEntry>, idxs: &Vec<usize>) -> (r: Vec<usize>)
    requires
        within(apps.deep_view(), idxs@),
    ensures
        r@ == by_name(apps.deep_view(), idxs@),
        within(apps.deep_view(), r@),
{
    let mut sorted: Vec<usize> = Vec::new();
    for k in 0..idxs.len()
        invariant
            within(apps.deep_view(), idxs@),
            within(apps.deep_view(), sorted@),
            sorted@ == by_name(apps.deep_view(), idxs@.take(k as int)),
    {
        assert(idxs@.take(k + 1).drop_last() =~= idxs@.take(k as int));
        insert_index(apps, &mut sorted, idxs[k]);
    }
    assert(idxs@.take(idxs@.len() as int) =~= idxs@);
    sorted
}

/// Putting a position in keeps the order of the names and the positions that
/// were there.
proof fn lemma_put_by_name(apps: Seq<EntryModel>, sorted: Seq<usize>, i: usize)
    requires
        names_ordered(apps, sorted),
    ensures
        names_ordered(apps, put_by_name(apps, sorted, i)),
        put_by_name(apps, sorted, i).to_multiset() == sorted.to_multiset().insert(i),
        put_by_name(apps, sorted, i).len() == sorted.len() + 1,
    decreases sorted.len(),
{
    broadcast use vstd::seq_lib::group_to_multiset_ensures;

    let after = put_by_name(apps, sorted, i);
    if sorted.len() == 0 || text::at_most(
        lower_name(apps, sorted.last()),
        lower_name(apps, i),
    ) {
        text::lemma_at_most_reflexive(lower_name(apps, i));
        assert forall|a: int, b: int| 0 <= a <= b < after.len() implies text::at_most(
            #[trigger] lower_name(apps, after[a]),
            #[trigger] lower_name(apps, after[b]),
        ) by {
            if b == sorted.len() && a < b {
                let last = sorted.len() - 1;
                assert(text::at_most(
                    lower_name(apps, sorted[a]),
                    lower_name(apps, sorted[last]),
                ));
                text::lemma_at_most_transitive(
                    lower_name(apps, sorted[a]),
                    lower_name(apps, sorted[last]),
                    lower_name(apps, i),
                );
            } else if b < sorted.len() {
                assert(text::at_most(lower_name(apps, sorted[a]), lower_name(apps, sorted[b])));
            }
        }
    } else {
        let front = sorted.drop_last();
        let last = sorted.last();
        let name = lower_name(apps, last);
        assert forall|a: int, b: int| 0 <= a <= b < front.len() implies text::at_most(
            #[trigger] lower_name(apps, front[a]),
            #[trigger] lower_name(apps, front[b]),
        ) by {
            assert(text::at_most(lower_name(apps, sorted[a]), lower_name(apps, sorted[b])));
        }
        lemma_put_by_name(apps, front, i);
        let put = put_by_name(apps, front, i);
        text::lemma_at_most_total(name, lower_name(apps, i));
        text::lemma_at_most_reflexive(name);
        assert(sorted =~= front.push(last));
        assert(after.to_multiset() =~= sorted.to_multiset().insert(i));
        assert forall|a: int, b: int| 0 <= a <= b < after.len() implies text::at_most(
            #[trigger] lower_name(apps, after[a]),
            #[trigger] lower_name(apps, after[b]),
        ) by {
            if b < put.len() {
                assert(text::at_most(lower_name(apps, put[a]), lower_name(apps, put[b])));
            } else if a < put.len() {
                assert(put.to_multiset().count(put[a]) > 0) by {
                    assert(put.contains(put[a]));
                }
                if put[a] != i {
                    assert(front.to_multiset().count(put[a]) > 0);
                    assert(front.contains(put[a]));
                    let c = front.index_of(put[a]);
                    assert(text::at_most(
                        lower_name(apps, sorted[c]),
                        lower_name(apps, sorted[sorted.len() - 1]),
                    ));
                }
            }
        }
    }
}

/// Sorting orders the positions by the names of their applications, and keeps
/// each of them.
pub proof fn law_sort_orders_by_name(apps: Seq<EntryModel>, idxs: Seq<usize>)
    ensures
        names_ordered(apps, by_name(apps, idxs)),
        by_name(apps, idxs).to_multiset() == idxs.to_multiset(),
        by_name(apps, idxs).len() == idxs.len(),
    decreases idxs.len(),
{
    broadcast use vstd::seq_lib::group_to_multiset_ensures;

    if idxs.len() > 0 {
        law_sort_orders_by_name(apps, idxs.drop_last());
        lemma_put_by_name(apps, by_name(apps, idxs.drop_last()), idxs.last());
        assert(idxs =~= idxs.drop_last().push(idxs.last()));
    } else {
        assert(by_name(apps, idxs) =~= idxs);
    }
}

/// Positions whose names are in order already stay as they are.
pub proof fn law_sort_keeps_order(apps: Seq<EntryModel>, idxs: Seq<usize>)
    requires
        names_ordered(apps, idxs),
    ensures
        by_name(apps, idxs) == idxs,
    decreases idxs.len(),
{
    if idxs.len() > 0 {
        let front = idxs.drop_last();
        assert forall|a: int, b: int| 0 <= a <= b < front.len() implies text::at_most(
            #[trigger] lower_name(apps, front[a]),
            #[trigger] lower_name(apps, front[b]),
        ) by {
            assert(text::at_most(lower_name(apps, idxs[a]), lower_name(apps, idxs[b])));
        }
        law_sort_keeps_order(apps, front);
        if front.len() > 0 {
            assert(text::at_most(
                lower_name(apps, idxs[idxs.len() - 2]),
                lower_name(apps, idxs[idxs.len() - 1]),
            ));
        }
        assert(front.push(idxs.last()) =~= idxs);
    } else {
        assert(by_name(apps, idxs) =~= idxs);
    }
}

/// Positions whose name is not behind the name of an earlier one are greater
/// than it.
spec fn ties_increase(apps: Seq<EntryModel>, idxs: Seq<usize>) -> bool {
    forall|a: int, b: int|
        0 <= a < b < idxs.len() && text::at_most(
            #[trigger] lower_name(apps, idxs[b]),
            #[trigger] lower_name(apps, idxs[a]),
        ) ==> idxs[a] < idxs[b]
}

proof fn lemma_put_keeps_ties(apps: Seq<EntryModel>, sorted: Seq<usize>, i: usize)
    requires
        names_ordered(apps, sorted),
        ties_increase(apps, sorted),
        forall|k: int| 0 <= k < sorted.len() ==> #[trigger] sorted[k] < i,
    ensures
        ties_increase(apps, put_by_name(apps, sorted, i)),
    decreases sorted.len(),
{
    broadcast use vstd::seq_lib::group_to_multiset_ensures;

    let after = put_by_name(apps, sorted, i);
    if sorted.len() == 0 || text::at_most(
        lower_name(apps, sorted.last()),
        lower_name(apps, i),
    ) {
        assert forall|a: int, b: int|
            0 <= a < b < after.len() && text::at_most(
                #[trigger] lower_name(apps, after[b]),
                #[trigger] lower_name(apps, after[a]),
            ) implies after[a] < after[b] by {
            if b < sorted.len() {
                assert(text::at_most(lower_name(apps, sorted[b]), lower_name(apps, sorted[a])));
            }
        }
    } else {
        let front = sorted.drop_last();
        let last = sorted.last();
        assert forall|a: int, b: int| 0 <= a <= b < front.len() implies text::at_most(
            #[trigger] lower_name(apps, front[a]),
            #[trigger] lower_name(apps, front[b]),
        ) by {
            assert(text::at_most(lower_name(apps, sorted[a]), lower_name(apps, sorted[b])));
        }
        assert forall|a: int, b: int|
            0 <= a < b < front.len() && text::at_most(
                #[trigger] lower_name(apps, front[b]),
                #[trigger] lower_name(apps, front[a]),
            ) implies front[a] < front[b] by {
            assert(text::at_most(lower_name(apps, sorted[b]), lower_name(apps, sorted[a])));
        }
        assert forall|k: int| 0 <= k < front.len() implies #[trigger] front[k] < i by {
            assert(sorted[k] < i);
        }
        lemma_put_keeps_ties(apps, front, i);
        lemma_put_by_name(apps, front, i);
        let put = put_by_name(apps, front, i);
        assert forall|a: int, b: int|
            0 <= a < b < after.len() && text::at_most(
                #[trigger] lower_name(apps, after[b]),
                #[trigger] lower_name(apps, after[a]),
            ) implies after[a] < after[b] by {
            if b < put.len() {
                assert(text::at_most(lower_name(apps, put[b]), lower_name(apps, put[a])));
            } else if put[a] != i {
                assert(put.contains(put[a]));
                assert(put.to_multiset().count(put[a]) > 0);
                assert(front.to_multiset().count(put[a]) > 0);
                assert(front.contains(put[a]));
                let c = front.index_of(put[a]);
                assert(sorted[c] == put[a]);
                assert(text::at_most(
                    lower_name(apps, sorted[sorted.len() - 1]),
                    lower_name(apps, sorted[c]),
                ));
            }
        }
    }
}

proof fn lemma_ties(apps: Seq<EntryModel>, idxs: Seq<usize>)
    requires
        increasing(idxs),
    ensures
        ties_increase(apps, by_name(apps, idxs)),
    decreases idxs.len(),
{
    broadcast use vstd::seq_lib::group_to_multiset_ensures;

    if idxs.len() > 0 {
        let front = idxs.drop_last();
        let sorted = by_name(apps, front);
        assert(increasing(front)) by {
            assert forall|a: int, b: int| 0 <= a < b < front.len() implies #[trigger] front[a]
                < #[trigger] front[b] by {
                assert(idxs[a] < idxs[b]);
            }
        }
        lemma_ties(apps, front);
        law_sort_orders_by_name(apps, front);
        assert forall|k: int| 0 <= k < sorted.len() implies #[trigger] sorted[k] < idxs.last() by {
            assert(sorted.contains(sorted[k]));
            assert(sorted.to_multiset().count(sorted[k]) > 0);
            assert(front.to_multiset().count(sorted[k]) > 0);
            assert(front.contains(sorted[k]));
            let c = front.index_of(sorted[k]);
            assert(idxs[c] < idxs[idxs.len() - 1]);
        }
        lemma_put_keeps_ties(apps, sorted, idxs.last());
    }
}

/// Sorting keeps applications of the same name in the order in which they were.
pub proof fn law_sort_is_stable(apps: Seq<EntryModel>, idxs: Seq<usize>, a: int, b: int)
    requires
        increasing(idxs),
        0 <= a < b < by_name(apps, idxs).len(),
        lower_name(apps, by_name(apps, idxs)[a]) == lower_name(apps, by_name(apps, idxs)[b]),
    ensures
        by_name(apps, idxs)[a] < by_name(apps, idxs)[b],
{
    lemma_ties(apps, idxs);
    text::lemma_at_most_reflexive(lower_name(apps, by_name(apps, idxs)[a]));
}

/// A search finds an application if and only if its name or its search text
/// holds the query.
pub proof fn law_search_reads_name_and_texts(apps: Seq<EntryModel>, query: Seq<char>, i: usize)
    requires
        i < apps.len() <= usize::MAX,
    ensures
        found(apps, query).contains(i) <==> text::has_part(apps[i as int].name_lower, query)
            || text::has_part(apps[i as int].search_text, query),
{
    law_search_finds_matches(apps, query);
    let none = Seq::<char>::empty();
    text::law_part_is_found(none, query, none);
    assert(none + query + none =~= query);
}

/// Among the results of a search those whose name is the query come first,
/// then those whose name holds it, then those with other texts that hold it;
/// equally good ones stand in the order of the applications.
pub proof fn law_search_orders_by_name_first(
    apps: Seq<EntryModel>,
    query: Seq<char>,
    x: int,
    y: int,
)
    requires
        apps.len() <= usize::MAX,
        0 <= x < y < found(apps, query).len(),
    ensures
        ({
            let i = found(apps, query)[x];
            let j = found(apps, query)[y];
            let a = apps[i as int].name_lower;
            let b = apps[j as int].name_lower;
            &&& b == query ==> a == query && i < j
            &&& text::has_part(b, query) ==> text::has_part(a, query)
            &&& (a == query) == (b == query) && text::has_part(a, query) == text::has_part(b, query)
                ==> i < j
        }),
{
    law_better_matches_first(apps, query, x, y);
    let all = found(apps, query);
    let none = Seq::<char>::empty();
    text::law_part_is_found(none, query, none);
    assert(none + query + none =~= query);
    assert(all.contains(all[x]) && all.contains(all[y]));
    law_search_finds_matches(apps, query);
}

/// A further favorite adds the first application of its desktop id at the end
/// of the shown ones.
pub proof fn law_installed_favorite_is_shown_last(
    apps: Seq<EntryModel>,
    favorites: Seq<Seq<char>>,
    i: int,
)
    requires
        0 <= i < apps.len() <= usize::MAX,
        forall|j: int| 0 <= j < i ==> (#[trigger] apps[j]).desktop_id != apps[i].desktop_id,
    ensures
        shown_favorites(apps, favorites.push(apps[i].desktop_id)) == shown_favorites(
            apps,
            favorites,
        ).push(i as usize),
        installed(apps, favorites.push(apps[i].desktop_id)) == installed(apps, favorites).push(
            apps[i].desktop_id,
        ),
{
    let id = apps[i].desktop_id;
    law_index_finds_the_first(apps, id);
    assert(favorites.push(id).drop_last() =~= favorites);
    let at = id_index(apps)[id] as int;
    if i < at {
        assert(apps[i].desktop_id != id);
    }
}

/// A favorite that is not installed is not shown, and no favorites show
/// nothing.
pub proof fn law_missing_favorite_is_not_shown(
    apps: Seq<EntryModel>,
    favorites: Seq<Seq<char>>,
    id: Seq<char>,
)
    requires
        apps.len() <= usize::MAX,
        forall|j: int| 0 <= j < apps.len() ==> (#[trigger] apps[j]).desktop_id != id,
    ensures
        shown_favorites(apps, favorites.push(id)) == shown_favorites(apps, favorites),
        installed(apps, favorites.push(id)) == installed(apps, favorites),
        shown_favorites(apps, Seq::<Seq<char>>::empty()).len() == 0,
        installed(apps, Seq::<Seq<char>>::empty()).len() == 0,
{
    law_index_finds_the_first(apps, id);
    assert(favorites.push(id).drop_last() =~= favorites);
}

/// The rank of an application: its name is the query, or holds it, or its
/// other texts hold it, or none of these.
pub proof fn law_ranks(app: EntryModel, query: Seq<char>)
    ensures
        rank_of(app, query) == Rank::Exact <==> app.name_lower == query,
        rank_of(app, query) == Rank::Title <==> app.name_lower != query && text::has_part(
            app.name_lower,
            query,
        ),
        rank_of(app, query) == Rank::Other <==> !text::has_part(app.name_lower, query)
            && text::has_part(app.search_text, query),
{
    let none = Seq::<char>::empty();
    text::law_part_is_found(none, query, none);
    assert(none + query + none =~= query);
}

} // verus!
