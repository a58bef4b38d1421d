//! The favorites: a list of desktop ids, kept in a JSON file.
use vstd::prelude::*;

use crate::text::{self, join_path, same};

verus! {

/// The error type of `serde_json`.
#[verifier::external_type_specification]
#[verifier::external_body]
pub struct ExJsonError(serde_json::Error);

/// What `serde_json::from_str` reads from a text as a list of strings, or
/// none where it refuses the text.
pub uninterp spec fn json_strings(text: Seq<char>) -> Option<Seq<Seq<char>>>;

/// What `serde_json::to_string_pretty` writes for a list of strings.
pub uninterp spec fn strings_json(list: Seq<Seq<char>>) -> Seq<char>;

/// Calls `serde_json::from_str` for a list of strings. The contract claims
/// that success and the list depend on the text alone, and names them.
#[verifier::external_body]
fn from_json(text: &str) -> (r: Result<Vec<String>, serde_json::Error>)
    ensures
        match r {
            Ok(list) => json_strings(text@) == Some(list.deep_view()),
            Err(_) => json_strings(text@) is None,
        },
{
    serde_json::from_str::<Vec<String>>(text)
}

/// Calls `serde_json::to_string_pretty` on a list of strings. The contract
/// claims that this succeeds, as writing strings into memory never fails, that
/// the text depends on the list alone, and that reading it with
/// `serde_json::from_str` gives the list back.
#[verifier::external_body]
fn to_json(list: &Vec<String>) -> (r: Result<String, serde_json::Error>)
    ensures
        r is Ok,
        r matches Ok(text) ==> text@ == strings_json(list.deep_view()),
        r matches Ok(text) ==> json_strings(text@) == Some(list.deep_view()),
{
    serde_json::to_string_pretty(list)
}

/// The favorites that a file of the text `file` stands for; `file` is none
/// where there is no file or it cannot be read.
pub open spec fn loaded(file: Option<Seq<char>>) -> Seq<Seq<char>> {
    match file {
        Some(text) => favorites_or_none(json_strings(text)),
        None => seq![],
    }
}

/// The list that was read, or no favorites where none was.
pub open spec fn favorites_or_none(list: Option<Seq<Seq<char>>>) -> Seq<Seq<char>> {
    match list {
        Some(favorites) => favorites,
        None => seq![],
    }
}

/// The list that was read, or no favorites where none was.
pub fn read_or_none(list: Option<Vec<String>>) -> (r: Vec<String>)
    ensures
        r.deep_view() == favorites_or_none(list.deep_view()),
{
    match list {
        Some(favorites) => favorites,
        None => {
            let none: Vec<String> = Vec::new();
            assert(none.deep_view() =~= Seq::<Seq<char>>::empty());
            none
        },
    }
}

/// The favorites of a file of the text `file`; `file` is none where there is
/// no file or it cannot be read.
pub fn load_favorites(file: Option<&str>) -> (r: Vec<String>)
    ensures
        r.deep_view() == loaded(file.deep_view()),
{
    let list = match file {
        Some(text) => match from_json(text) {
            Ok(list) => Some(list),
            Err(_) => None,
        },
        None => None,
    };
    read_or_none(list)
}

/// The text of the file that keeps `favorites`. Loading it gives the same
/// favorites back.
pub fn save_favorites(favorites: &Vec<String>) -> (r: Option<String>)
    ensures
        r matches Some(text) && text@ == strings_json(favorites.deep_view()) && loaded(
            Some(text@),
        ) == favorites.deep_view(),
{
    match to_json(favorites) {
        Ok(text) => Some(text),
        Err(_) => None,
    }
}

/// The directory of the favorites file, below the home directory `home`.
pub open spec fn config_dir(home: Seq<char>) -> Seq<char> {
    text::below(home, ".config"@)
}

/// The directory that must exist before the favorites file is written.
pub fn favorites_dir(home: &str) -> (r: String)
    ensures
        r@ == config_dir(home@),
{
    join_path(home, ".config")
}

/// The path of the favorites file.
pub fn favorites_path(home: &str) -> (r: String)
    ensures
        r@ == text::below(config_dir(home@), "launcher-favorites.json"@),
{
    join_path(join_path(home, ".config").as_str(), "launcher-favorites.json")
}

/// The position of the first `id` in `list`, or its length.
pub open spec fn position(list: Seq<Seq<char>>, id: Seq<char>) -> nat
    decreases list.len(),
{
    if list.len() == 0 || list.first() == id {
        0
    } else {
        1 + position(list.drop_first(), id)
    }
}

/// What [`position`] finds is the first occurrence.
pub proof fn lemma_position(list: Seq<Seq<char>>, id: Seq<char>)
    ensures
        position(list, id) <= list.len(),
        position(list, id) < list.len() <==> list.contains(id),
        position(list, id) < list.len() ==> list[position(list, id) as int] == id,
        forall|k: int| 0 <= k < position(list, id) ==> list[k] != id,
    decreases list.len(),
{
    if list.len() > 0 {
        if list.first() == id {
            assert(list[0] == id);
        } else {
            let rest = list.drop_first();
            lemma_position(rest, id);
            assert(forall|k: int| 0 <= k < rest.len() ==> rest[k] == list[k + 1]);
            if list.contains(id) {
                let k = list.index_of(id);
                assert(rest[k - 1] == id);
            }
            assert forall|k: int| 0 <= k < position(list, id) implies list[k] != id by {
                if k > 0 {
                    assert(rest[k - 1] != id);
                }
            }
        }
    }
}

/// The favorites once the star of the application `id` has been clicked: the
/// first `id` is taken out, or `id` becomes the last.
pub open spec fn toggled(list: Seq<Seq<char>>, id: Seq<char>) -> Seq<Seq<char>> {
    let at = position(list, id);
    if at < list.len() {
        list.remove(at as int)
    } else {
        list.push(id)
    }
}

/// The position of the first `id` in `list`, where it is there.
pub fn find_favorite(list: &Vec<String>, id: &str) -> (r: Option<usize>)
    ensures
        match r {
            Some(at) => at == position(list.deep_view(), id@) && at < list@.len(),
            None => position(list.deep_view(), id@) == list@.len(),
        },
{
    let ghost all = list.deep_view();
    let mut at: usize = 0;
    assert(all.skip(0) =~= all);
    while at < list.len()
        invariant
            all == list.deep_view(),
            at <= all.len(),
            position(all, id@) == at + position(all.skip(at as int), id@),
        decreases all.len() - at,
    {
        assert(all.skip(at as int).first() == list@[at as int]@);
        if same(list[at].as_str(), id) {
            return Some(at);
        }
        assert(all.skip(at as int).drop_first() =~= all.skip(at + 1));
        at = at + 1;
    }
    None
}

/// Whether `id` is a favorite.
pub fn is_favorite(list: &Vec<String>, id: &str) -> (r: bool)
    ensures
        r == list.deep_view().contains(id@),
{
    proof {
        lemma_position(list.deep_view(), id@);
    }
    find_favorite(list, id).is_some()
}

/// Takes the first `id` out of `list`, or makes `id` the last.
pub fn toggle_favorite(list: &mut Vec<String>, id: &str)
    ensures
        final(list).deep_view() == toggled(old(list).deep_view(), id@),
{
    let ghost before = list.deep_view();
    match find_favorite(list, id) {
        Some(at) => {
            let _ = list.remove(at);
            assert(list.deep_view() =~= before.remove(at as int));
        },
        None => {
            list.push(id.to_owned());
            assert(list.deep_view() =~= before.push(id@));
        },
    }
}

/// Clicking the star of an application that is no favorite, and once more,
/// leaves the favorites as they were.
pub proof fn law_toggle_twice(list: Seq<Seq<char>>, id: Seq<char>)
    requires
        !list.contains(id),
    ensures
        toggled(list, id).contains(id),
        toggled(toggled(list, id), id) == list,
{
    lemma_position(list, id);
    let more = list.push(id);
    lemma_position(more, id);
    assert(more[list.len() as int] == id);
    let at = position(more, id) as int;
    if at < list.len() {
        assert(list[at] == id);
    }
    assert(more.remove(at) =~= list);
}

/// Clicking a star keeps the favorites free of duplicates, decides for the
/// other direction, and touches no other favorite.
pub proof fn law_toggle_switches(list: Seq<Seq<char>>, id: Seq<char>, other: Seq<char>)
    requires
        list.no_duplicates(),
    ensures
        toggled(list, id).no_duplicates(),
        toggled(list, id).contains(id) == !list.contains(id),
        other != id ==> toggled(list, id).contains(other) == list.contains(other),
{
    lemma_position(list, id);
    let after = toggled(list, id);
    let at = position(list, id) as int;
    if at < list.len() {
        if after.contains(id) {
            let k = after.index_of(id);
            assert(list[if k < at { k } else { k + 1 }] == id);
        }
        if other != id && list.contains(other) {
            let k = list.index_of(other);
            assert(after[if k < at { k } else { k - 1 }] == other);
        }
        if after.contains(other) {
            let k = after.index_of(other);
            assert(list[if k < at { k } else { k + 1 }] == other);
        }
    } else {
        assert(after[list.len() as int] == id);
        if list.contains(other) {
            assert(after[list.index_of(other)] == other);
        }
        if after.contains(other) && other != id {
            let k = after.index_of(other);
            assert(list[k] == other);
        }
    }
}

/// Clicking a star takes the first mention of a favorite out, and nothing
/// else; an application that is no favorite becomes the last.
pub proof fn law_toggle_takes_out_or_appends(
    before: Seq<Seq<char>>,
    id: Seq<char>,
    behind: Seq<Seq<char>>,
)
    requires
        !before.contains(id),
    ensures
        toggled(before + seq![id] + behind, id) == before + behind,
        toggled(before, id) == before + seq![id],
{
    let list = before + seq![id] + behind;
    lemma_position(list, id);
    lemma_position(before, id);
    assert(list[before.len() as int] == id);
    let at = position(list, id) as int;
    if at < before.len() {
        assert(before[at] == id);
    }
    assert(list.remove(before.len() as int) =~= before + behind);
    assert(before.push(id) =~= before + seq![id]);
}

/// The favorites are those that the text of the file stands for; without a
/// file, and where it stands for no list, there are none.
pub proof fn law_favorites_are_those_of_the_file(text: Seq<char>)
    ensures
        loaded(None).len() == 0,
        json_strings(text) is None ==> loaded(Some(text)).len() == 0,
        json_strings(text) matches Some(list) ==> loaded(Some(text)) == list,
{
}

/// The favorites file is a file of this name in the configuration directory
/// below the home directory.
pub proof fn law_favorites_file_is_below_home(home: Seq<char>)
    ensures
        config_dir(home) == text::below(home, ".config"@),
        text::below(config_dir(home), "launcher-favorites.json"@) == text::below(home, ".config"@)
            + seq!['/'] + "launcher-favorites.json"@,
        home.len() > 0 && home.last() != '/' ==> config_dir(home) == home + seq!['/'] + ".config"@,
{
    reveal_strlit(".config");
    text::law_paths_below_a_directory(home, ".config"@);
    assert(config_dir(home).last() == ".config"@.last());
    text::law_paths_below_a_directory(config_dir(home), "launcher-favorites.json"@);
}

} // verus!
