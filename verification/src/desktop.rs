//! The installed applications: which desktop file wins, what an entry holds,
//! and the categories that the entries fall into.
use vstd::prelude::*;
use vstd::string::*;

use crate::icon::{IconModel, IconSource};
use crate::text::{self, chars_of, ends_with, find_mark, join, join_path, le, same, to_lowercase, trim};

verus! {

/// What a desktop file says of its application.
pub struct DesktopInfo {
    pub name: String,
    pub description: Option<String>,
    pub icon: Option<IconSource>,
    pub keywords: Vec<String>,
    pub generic_name: Option<String>,
    pub categories: Option<String>,
    pub no_display: bool,
    pub hidden: bool,
}

/// [`DesktopInfo`] over mathematical sequences.
#[verifier::ext_equal]
pub struct InfoModel {
    pub name: Seq<char>,
    pub description: Option<Seq<char>>,
    pub icon: Option<IconModel>,
    pub keywords: Seq<Seq<char>>,
    pub generic_name: Option<Seq<char>>,
    pub categories: Option<Seq<char>>,
    pub no_display: bool,
    pub hidden: bool,
}

/// The view of an optional icon.
pub open spec fn icon_view(icon: Option<IconSource>) -> Option<IconModel> {
    match icon {
        Some(source) => Some(source@),
        None => None,
    }
}

impl View for DesktopInfo {
    type V = InfoModel;

    open spec fn view(&self) -> InfoModel {
        InfoModel {
            name: self.name@,
            description: self.description.deep_view(),
            icon: icon_view(self.icon),
            keywords: self.keywords.deep_view(),
            generic_name: self.generic_name.deep_view(),
            categories: self.categories.deep_view(),
            no_display: self.no_display,
            hidden: self.hidden,
        }
    }
}

/// An application that the launcher can show and start.
pub struct AppEntry {
    pub name: String,
    pub name_lower: String,
    pub search_text: String,
    pub description: String,
    pub icon: Option<IconSource>,
    pub desktop_id: String,
    pub desktop_path: String,
    pub categories: Option<String>,
    pub keywords: String,
    pub generic_name: String,
}

/// [`AppEntry`] over mathematical sequences.
#[verifier::ext_equal]
pub struct EntryModel {
    pub name: Seq<char>,
    pub name_lower: Seq<char>,
    pub search_text: Seq<char>,
    pub description: Seq<char>,
    pub icon: Option<IconModel>,
    pub desktop_id: Seq<char>,
    pub desktop_path: Seq<char>,
    pub categories: Option<Seq<char>>,
    pub keywords: Seq<char>,
    pub generic_name: Seq<char>,
}

impl View for AppEntry {
    type V = EntryModel;

    open spec fn view(&self) -> EntryModel {
        EntryModel {
            name: self.name@,
            name_lower: self.name_lower@,
            search_text: self.search_text@,
            description: self.description@,
            icon: icon_view(self.icon),
            desktop_id: self.desktop_id@,
            desktop_path: self.desktop_path@,
            categories: self.categories.deep_view(),
            keywords: self.keywords@,
            generic_name: self.generic_name@,
        }
    }
}

impl DeepView for AppEntry {
    type V = EntryModel;

    open spec fn deep_view(&self) -> EntryModel {
        self@
    }
}

/// The directories that are searched, the ones of the user first, each with
/// its priority: on duplicate desktop ids the higher priority wins.
pub open spec fn search_dirs(home: Seq<char>) -> Seq<(Seq<char>, i32)> {
    seq![
        (text::below(home, ".local/share/applications"@), 4i32),
        (text::below(home, ".local/share/flatpak/exports/share/applications"@), 3i32),
        ("/usr/share/applications"@, 2i32),
        ("/var/lib/flatpak/exports/share/applications"@, 1i32),
    ]
}

/// The directories to search below the home directory `home` and in the
/// system, with their priorities.
pub fn search_paths(home: &str) -> (r: Vec<(String, i32)>)
    ensures
        r.deep_view() == search_dirs(home@),
{
    let mut dirs: Vec<(String, i32)> = Vec::new();
    dirs.push((join_path(home, ".local/share/applications"), 4));
    dirs.push((join_path(home, ".local/share/flatpak/exports/share/applications"), 3));
    dirs.push(("/usr/share/applications".to_owned(), 2));
    dirs.push(("/var/lib/flatpak/exports/share/applications".to_owned(), 1));
    assert(dirs.deep_view() =~= search_dirs(home@));
    dirs
}

/// The directories that are watched for changes: the ones that are searched.
pub fn watch_dirs(home: &str) -> (r: Vec<String>)
    ensures
        r.deep_view() == search_dirs(home@).map_values(|d: (Seq<char>, i32)| d.0),
{
    let mut dirs: Vec<String> = Vec::new();
    dirs.push(join_path(home, ".local/share/applications"));
    dirs.push(join_path(home, ".local/share/flatpak/exports/share/applications"));
    dirs.push("/usr/share/applications".to_owned());
    dirs.push("/var/lib/flatpak/exports/share/applications".to_owned());
    assert(dirs.deep_view() =~= search_dirs(home@).map_values(|d: (Seq<char>, i32)| d.0));
    dirs
}

/// The texts of a desktop file in lower case.
pub struct LoweredInfo {
    pub name: String,
    pub description: String,
    pub keywords: Vec<String>,
    pub generic_name: String,
}

/// [`LoweredInfo`] over mathematical sequences.
#[verifier::ext_equal]
pub struct LoweredModel {
    pub name: Seq<char>,
    pub description: Seq<char>,
    pub keywords: Seq<Seq<char>>,
    pub generic_name: Seq<char>,
}

impl View for LoweredInfo {
    type V = LoweredModel;

    open spec fn view(&self) -> LoweredModel {
        LoweredModel {
            name: self.name@,
            description: self.description@,
            keywords: self.keywords.deep_view(),
            generic_name: self.generic_name@,
        }
    }
}

/// `s`, or the empty text where there is none.
pub open spec fn or_empty(s: Option<Seq<char>>) -> Seq<char> {
    match s {
        Some(t) => t,
        None => seq![],
    }
}

/// The texts of `info` in lower case.
pub open spec fn lowered(info: InfoModel) -> LoweredModel {
    LoweredModel {
        name: text::lowercase(info.name),
        description: text::lowercase(or_empty(info.description)),
        keywords: info.keywords.map_values(|k: Seq<char>| text::lowercase(k)),
        generic_name: match info.generic_name {
            Some(g) => text::lowercase(g),
            None => seq![],
        },
    }
}

/// The entry of the desktop file `desktop_id` at `path`, given its texts in
/// lower case.
pub open spec fn assembled(
    desktop_id: Seq<char>,
    path: Seq<char>,
    info: InfoModel,
    low: LoweredModel,
) -> EntryModel {
    let keywords = text::joined(low.keywords, " "@);
    EntryModel {
        name: info.name,
        name_lower: low.name,
        search_text: low.description + " "@ + keywords + " "@ + low.generic_name,
        description: or_empty(info.description),
        icon: info.icon,
        desktop_id,
        desktop_path: path,
        categories: info.categories,
        keywords,
        generic_name: low.generic_name,
    }
}

/// The entry of the desktop file `desktop_id` at `path`.
pub open spec fn entry_of(desktop_id: Seq<char>, path: Seq<char>, info: InfoModel) -> EntryModel {
    assembled(desktop_id, path, info, lowered(info))
}

/// The texts of `info` in lower case.
pub fn lower_info(info: &DesktopInfo) -> (r: LoweredInfo)
    ensures
        r@ == lowered(info@),
{
    let mut keywords: Vec<String> = Vec::new();
    for i in 0..info.keywords.len()
        invariant
            keywords.deep_view() == info.keywords.deep_view().take(i as int).map_values(
                |k: Seq<char>| text::lowercase(k),
            ),
    {
        let ghost before = keywords.deep_view();
        keywords.push(to_lowercase(info.keywords[i].as_str()));
        assert(keywords.deep_view() =~= before.push(
            text::lowercase(info.keywords.deep_view()[i as int]),
        ));
        assert(keywords.deep_view() =~= info.keywords.deep_view().take(i + 1).map_values(
            |k: Seq<char>| text::lowercase(k),
        ));
    }
    assert(info.keywords.deep_view().take(info.keywords@.len() as int)
        =~= info.keywords.deep_view());
    let description = match &info.description {
        Some(d) => to_lowercase(d.as_str()),
        None => to_lowercase(String::new().as_str()),
    };
    let generic_name = match &info.generic_name {
        Some(g) => to_lowercase(g.as_str()),
        None => String::new(),
    };
    LoweredInfo {
        name: to_lowercase(info.name.as_str()),
        description,
        keywords,
        generic_name,
    }
}

/// Puts the entry of a desktop file together.
pub fn assemble_entry(
    desktop_id: &str,
    path: &str,
    info: DesktopInfo,
    low: LoweredInfo,
) -> (r: AppEntry)
    ensures
        r@ == assembled(desktop_id@, path@, info@, low@),
{
    let keywords = join(&low.keywords, " ");
    let mut search_text = low.description;
    search_text.append(" ");
    search_text.append(keywords.as_str());
    search_text.append(" ");
    search_text.append(low.generic_name.as_str());
    let description = match info.description {
        Some(d) => d,
        None => String::new(),
    };
    AppEntry {
        name: info.name,
        name_lower: low.name,
        search_text,
        description,
        icon: info.icon,
        desktop_id: desktop_id.to_owned(),
        desktop_path: path.to_owned(),
        categories: info.categories,
        keywords,
        generic_name: low.generic_name,
    }
}

/// What the loader knows of a desktop id: the priority of the directory that
/// decided on it, and the entry, or none where the application is hidden.
#[verifier::ext_equal]
pub struct SlotModel {
    pub priority: i32,
    pub entry: Option<EntryModel>,
}

/// A desktop id in lower case, with what is known of it.
pub struct Slot {
    pub key: String,
    pub priority: i32,
    pub entry: Option<AppEntry>,
}

impl Slot {
    pub open spec fn model(&self) -> SlotModel {
        SlotModel { priority: self.priority, entry: self.entry.deep_view() }
    }
}

/// What a desktop file means for its desktop id.
pub enum Claim {
    /// The file says nothing: it has no name to show.
    Ignored,
    /// The application is not shown, nor any of lower priority.
    Hidden,
    /// The application is shown.
    Shown,
}

/// What a desktop file means for its desktop id; `info` is none where the
/// file could not be read.
pub open spec fn claim_of(info: Option<InfoModel>) -> Claim {
    match info {
        None => Claim::Hidden,
        Some(i) => if i.no_display || i.hidden {
            Claim::Hidden
        } else if i.name.len() == 0 {
            Claim::Ignored
        } else {
            Claim::Shown
        },
    }
}

/// A file of a searched directory.
#[verifier::ext_equal]
pub struct FileModel {
    pub name: Seq<char>,
    pub path: Seq<char>,
    pub priority: i32,
    pub info: Option<InfoModel>,
}

pub type Catalog = Map<Seq<char>, SlotModel>;

/// The id `key` is still open to a file from a directory of priority
/// `priority`.
pub open spec fn open_to(known: Catalog, key: Seq<char>, priority: i32) -> bool {
    !(known.contains_key(key) && known[key].priority >= priority)
}

/// The file `name` from a directory of priority `priority` has to be read.
pub open spec fn wanted(known: Catalog, name: Seq<char>, priority: i32) -> bool {
    text::has_suffix(name, ".desktop"@) && open_to(known, text::lowercase(name), priority)
}

/// What is known once the file has been looked at.
pub open spec fn with_file(known: Catalog, file: FileModel) -> Catalog {
    if !wanted(known, file.name, file.priority) {
        known
    } else {
        match claim_of(file.info) {
            Claim::Ignored => known,
            Claim::Hidden => known.insert(
                text::lowercase(file.name),
                SlotModel { priority: file.priority, entry: None },
            ),
            Claim::Shown => known.insert(
                text::lowercase(file.name),
                SlotModel {
                    priority: file.priority,
                    entry: Some(entry_of(file.name, file.path, file.info->0)),
                },
            ),
        }
    }
}

/// What is known once all of `files` have been looked at, one after another.
pub open spec fn catalog(files: Seq<FileModel>) -> Catalog
    decreases files.len(),
{
    if files.len() == 0 {
        Map::empty()
    } else {
        with_file(catalog(files.drop_last()), files.last())
    }
}

/// Collects the desktop files of the searched directories.
pub struct Loader {
    slots: Vec<Slot>,
}

impl Loader {
    /// No desktop id occurs twice.
    pub closed spec fn wf(&self) -> bool {
        forall|i: int, j: int|
            0 <= i < j < self.slots@.len() ==> self.slots@[i].key@ != self.slots@[j].key@
    }

    closed spec fn holds(&self, key: Seq<char>, i: int) -> bool {
        0 <= i < self.slots@.len() && self.slots@[i].key@ == key
    }

    /// What is known of each desktop id, in lower case.
    pub closed spec fn known(&self) -> Catalog {
        Map::new(
            |key: Seq<char>| exists|i: int| self.holds(key, i),
            |key: Seq<char>| self.slots@[choose|i: int| self.holds(key, i)].model(),
        )
    }

    proof fn lemma_known(&self, i: int)
        requires
            self.wf(),
            0 <= i < self.slots@.len(),
        ensures
            self.known().contains_key(self.slots@[i].key@),
            self.known()[self.slots@[i].key@] == self.slots@[i].model(),
    {
        assert(self.holds(self.slots@[i].key@, i));
    }

    /// A loader that has seen no file.
    pub fn new() -> (r: Loader)
        ensures
            r.wf(),
            r.known() == Map::<Seq<char>, SlotModel>::empty(),
    {
        let r = Loader { slots: Vec::new() };
        assert(r.known() =~= Map::<Seq<char>, SlotModel>::empty());
        r
    }

    /// The position of `key`.
    fn find(&self, key: &str) -> (r: Option<usize>)
        requires
            self.wf(),
        ensures
            match r {
                Some(i) => self.holds(key@, i as int),
                None => !self.known().contains_key(key@),
            },
    {
        for i in 0..self.slots.len()
            invariant
                forall|k: int| 0 <= k < i ==> self.slots@[k].key@ != key@,
        {
            if same(self.slots[i].key.as_str(), key) {
                return Some(i);
            }
        }
        None
    }

    /// Whether `key` is still open to a directory of priority `priority`.
    pub fn is_open_to(&self, key: &str, priority: i32) -> (r: bool)
        requires
            self.wf(),
        ensures
            r == open_to(self.known(), key@, priority),
    {
        match self.find(key) {
            Some(i) => {
                proof {
                    self.lemma_known(i as int);
                }
                self.slots[i].priority < priority
            },
            None => true,
        }
    }

    /// Settles `key` at `priority`, with the entry to show, or none.
    pub fn settle(&mut self, key: &str, priority: i32, entry: Option<AppEntry>)
        requires
            old(self).wf(),
        ensures
            final(self).wf(),
            final(self).known() == old(self).known().insert(
                key@,
                SlotModel { priority, entry: entry.deep_view() },
            ),
    {
        let ghost before = *self;
        let slot = Slot { key: key.to_owned(), priority, entry };
        let ghost model = slot.model();
        match self.find(key) {
            Some(i) => {
                self.slots.set(i, slot);
                proof {
                    let after = *self;
                    assert(after.wf());
                    assert forall|k: Seq<char>|
                        after.known().contains_key(k) == before.known().insert(
                            key@,
                            model,
                        ).contains_key(k) by {
                        if before.known().contains_key(k) {
                            let j = choose|j: int| before.holds(k, j);
                            assert(after.holds(k, j));
                        }
                        if after.known().contains_key(k) {
                            let j = choose|j: int| after.holds(k, j);
                            assert(before.holds(k, j));
                        }
                        assert(after.holds(key@, i as int));
                    }
                    assert forall|k: Seq<char>| after.known().contains_key(k) implies #[trigger] after.known()[k]
                        == before.known().insert(key@, model)[k] by {
                        let j = choose|j: int| after.holds(k, j);
                        after.lemma_known(j);
                        before.lemma_known(j);
                        after.lemma_known(i as int);
                    }
                    assert(after.known() =~= before.known().insert(key@, model));
                }
            },
            None => {
                self.slots.push(slot);
                proof {
                    let after = *self;
                    let n = before.slots@.len() as int;
                    assert forall|i: int| 0 <= i < n implies before.slots@[i].key@ != key@ by {
                        assert(before.slots@[i].key@ == key@ ==> before.holds(key@, i));
                    }
                    assert(after.wf());
                    assert forall|k: Seq<char>|
                        after.known().contains_key(k) == before.known().insert(
                            key@,
                            model,
                        ).contains_key(k) by {
                        if before.known().contains_key(k) {
                            let j = choose|j: int| before.holds(k, j);
                            assert(after.holds(k, j));
                        }
                        if after.known().contains_key(k) && k != key@ {
                            let j = choose|j: int| after.holds(k, j);
                            assert(before.holds(k, j));
                        }
                        assert(after.holds(key@, n));
                    }
                    assert forall|k: Seq<char>| after.known().contains_key(k) implies #[trigger] after.known()[k]
                        == before.known().insert(key@, model)[k] by {
                        let j = choose|j: int| after.holds(k, j);
                        after.lemma_known(j);
                        if j < n {
                            before.lemma_known(j);
                        }
                    }
                    assert(after.known() =~= before.known().insert(key@, model));
                }
            },
        }
    }

    /// Whether the file `name` of a directory of priority `priority` has to be
    /// read.
    pub fn wants(&self, name: &str, priority: i32) -> (r: bool)
        requires
            self.wf(),
        ensures
            r == wanted(self.known(), name@, priority),
    {
        ends_with(name, ".desktop") && self.is_open_to(to_lowercase(name).as_str(), priority)
    }

    /// Takes the file `name` at `path`, of a directory of priority `priority`,
    /// into account; `info` is none where the file could not be read.
    pub fn record(&mut self, name: &str, path: &str, priority: i32, info: Option<DesktopInfo>)
        requires
            old(self).wf(),
        ensures
            final(self).wf(),
            final(self).known() == with_file(
                old(self).known(),
                (FileModel { name: name@, path: path@, priority, info: info_view(info) }),
            ),
    {
        if !self.wants(name, priority) {
            return;
        }
        let key = to_lowercase(name);
        match info {
            None => {
                self.settle(key.as_str(), priority, None);
            },
            Some(i) => {
                match assess(&i) {
                    Claim::Ignored => {},
                    Claim::Hidden => {
                        self.settle(key.as_str(), priority, None);
                    },
                    Claim::Shown => {
                        let low = lower_info(&i);
                        let entry = assemble_entry(name, path, i, low);
                        self.settle(key.as_str(), priority, Some(entry));
                    },
                }
            },
        }
    }

    /// The applications to show, ordered by their names in lower case.
    pub fn finish(self) -> (r: Vec<AppEntry>)
        requires
            self.wf(),
        ensures
            is_listing(self.known(), r.deep_view()),
    {
        let ghost all = self.slots@;
        let mut slots = self.slots;
        let mut out: Vec<AppEntry> = Vec::new();
        let ghost mut from: Seq<int> = seq![];
        while slots.len() > 0
            invariant
                slots@.len() <= all.len(),
                slots@ == all.take(slots@.len() as int),
                sorted_by_name(out.deep_view()),
                from.len() == out@.len(),
                from.no_duplicates(),
                forall|i: int|
                    #![trigger from[i]]
                    0 <= i < from.len() ==> {
                        &&& slots@.len() <= from[i] < all.len()
                        &&& all[from[i]].entry.deep_view() == Some(out@[i]@)
                    },
                forall|j: int|
                    slots@.len() <= j < all.len() && (#[trigger] all[j]).entry is Some
                        ==> from.contains(j),
            decreases slots@.len(),
        {
            let ghost n = slots@.len() - 1;
            let last = slots.pop();
            if let Some(slot) = last {
                assert(slot == all[n]);
                assert(slots@ =~= all.take(n));
                if let Some(entry) = slot.entry {
                    let ghost old_from = from;
                    let ghost old_out = out@;
                    let at = insert_by_name(&mut out, entry);
                    proof {
                        from = old_from.insert(at as int, n);
                        assert forall|i: int| #![trigger from[i]] 0 <= i < from.len() implies {
                            &&& slots@.len() <= from[i] < all.len()
                            &&& all[from[i]].entry.deep_view() == Some(out@[i]@)
                        } by {
                            if i < at {
                                assert(from[i] == old_from[i]);
                                assert(out@[i] == old_out[i]);
                            } else if i > at {
                                assert(from[i] == old_from[i - 1]);
                                assert(out@[i] == old_out[i - 1]);
                            }
                        }
                        assert forall|j: int|
                            slots@.len() <= j < all.len() && (
                            #[trigger] all[j]).entry is Some implies from.contains(j) by {
                            if j == n {
                                assert(from[at as int] == n);
                            } else {
                                let i = old_from.index_of(j);
                                assert(old_from.contains(j));
                                assert(old_from[i] == j);
                                if i < at {
                                    assert(from[i] == j);
                                } else {
                                    assert(from[i + 1] == j);
                                }
                            }
                        }
                    }
                }
            }
        }
        proof {
            let keys = from.map_values(|j: int| all[j].key@);
            assert(keys.no_duplicates()) by {
                assert forall|i: int, j: int| 0 <= i < j < keys.len() implies keys[i]
                    != keys[j] by {
                    assert(from[i] != from[j]);
                    if from[i] < from[j] {
                        assert(all[from[i]].key@ != all[from[j]].key@);
                    } else {
                        assert(all[from[j]].key@ != all[from[i]].key@);
                    }
                }
            }
            assert forall|i: int| 0 <= i < keys.len() implies {
                &&& self.known().contains_key(#[trigger] keys[i])
                &&& self.known()[keys[i]].entry == Some(out.deep_view()[i])
            } by {
                self.lemma_known(from[i]);
            }
            assert forall|key: Seq<char>|
                self.known().contains_key(key) && self.known()[key].entry is Some implies (
            #[trigger] keys.contains(key)) by {
                let j = choose|j: int| self.holds(key, j);
                self.lemma_known(j);
                assert(from.contains(j));
                let i = from.index_of(j);
                assert(keys[i] == key);
            }
            assert(lists(self.known(), out.deep_view(), keys));
        }
        out
    }
}

/// The view of what was read from a desktop file.
pub open spec fn info_view(info: Option<DesktopInfo>) -> Option<InfoModel> {
    match info {
        Some(i) => Some(i@),
        None => None,
    }
}

/// What the desktop file means for its desktop id.
pub fn assess(info: &DesktopInfo) -> (r: Claim)
    ensures
        r == claim_of(Some(info@)),
{
    if info.no_display || info.hidden {
        Claim::Hidden
    } else if info.name.as_str().is_empty() {
        Claim::Ignored
    } else {
        Claim::Shown
    }
}

/// The entries are ordered by their names in lower case.
pub open spec fn sorted_by_name(apps: Seq<EntryModel>) -> bool {
    forall|i: int, j: int|
        0 <= i <= j < apps.len() ==> text::at_most(
            #[trigger] apps[i].name_lower,
            #[trigger] apps[j].name_lower,
        )
}

/// `apps` are the shown entries of `known`, the one of `keys[i]` at `i`: each
/// id that has one occurs once.
pub open spec fn lists(known: Catalog, apps: Seq<EntryModel>, keys: Seq<Seq<char>>) -> bool {
    &&& keys.len() == apps.len()
    &&& keys.no_duplicates()
    &&& forall|i: int|
        0 <= i < keys.len() ==> {
            &&& known.contains_key(#[trigger] keys[i])
            &&& known[keys[i]].entry == Some(apps[i])
        }
    &&& forall|key: Seq<char>|
        known.contains_key(key) && known[key].entry is Some ==> #[trigger] keys.contains(key)
}

/// `apps` are the shown entries of `known`, each once, in the order of their
/// names.
pub open spec fn is_listing(known: Catalog, apps: Seq<EntryModel>) -> bool {
    &&& sorted_by_name(apps)
    &&& exists|keys: Seq<Seq<char>>| lists(known, apps, keys)
}

/// Puts `entry` into the ordered list `apps`, in front of the first entry that
/// it is not behind, and returns its position.
fn insert_by_name(apps: &mut Vec<AppEntry>, entry: AppEntry) -> (at: usize)
    requires
        sorted_by_name(old(apps).deep_view()),
    ensures
        at <= old(apps)@.len(),
        final(apps)@ == old(apps)@.insert(at as int, entry),
        sorted_by_name(final(apps).deep_view()),
{
    let ghost name = entry.name_lower@;
    let ghost before = apps.deep_view();
    let mut at: usize = 0;
    while at < apps.len() && !le(entry.name_lower.as_str(), apps[at].name_lower.as_str())
        invariant
            at <= apps@.len(),
            apps.deep_view() == before,
            name == entry.name_lower@,
            forall|k: int| 0 <= k < at ==> text::at_most((#[trigger] before[k]).name_lower, name),
        decreases apps@.len() - at,
    {
        proof {
            text::lemma_at_most_total(name, before[at as int].name_lower);
        }
        at = at + 1;
    }
    apps.insert(at, entry);
    proof {
        let after = apps.deep_view();
        assert(after =~= before.insert(at as int, entry@));
        assert forall|i: int, j: int| 0 <= i <= j < after.len() implies text::at_most(
            #[trigger] after[i].name_lower,
            #[trigger] after[j].name_lower,
        ) by {
            text::lemma_at_most_reflexive(name);
            if j == at && i < at {
                assert(after[i] == before[i]);
            } else if i == at && j > at {
                assert(after[j] == before[j - 1]);
                assert(text::at_most(before[at as int].name_lower, before[j - 1].name_lower));
                text::lemma_at_most_transitive(
                    name,
                    before[at as int].name_lower,
                    before[j - 1].name_lower,
                );
            } else if i != at {
                let a = if i < at { i } else { i - 1 };
                let b = if j < at { j } else { j - 1 };
                assert(after[i] == before[a] && after[j] == before[b]);
            }
        }
    }
    at
}

/// A file of a searched directory.
pub struct ScannedFile {
    pub name: String,
    pub path: String,
    pub priority: i32,
    pub info: Option<DesktopInfo>,
}

impl View for ScannedFile {
    type V = FileModel;

    open spec fn view(&self) -> FileModel {
        FileModel {
            name: self.name@,
            path: self.path@,
            priority: self.priority,
            info: info_view(self.info),
        }
    }
}

impl DeepView for ScannedFile {
    type V = FileModel;

    open spec fn deep_view(&self) -> FileModel {
        self@
    }
}

/// The applications to show, from the files of the searched directories in
/// the order in which they were found.
pub fn load_applications(files: Vec<ScannedFile>) -> (r: Vec<AppEntry>)
    ensures
        is_listing(catalog(files.deep_view()), r.deep_view()),
{
    let ghost all = files.deep_view();
    let mut loader = Loader::new();
    assert(all.take(0) =~= Seq::<FileModel>::empty());
    for file in it: files
        invariant
            loader.wf(),
            it.seq() == files@,
            all == files.deep_view(),
            loader.known() == catalog(all.take(it.index())),
    {
        let ghost i = it.index();
        assert(all.take(i + 1).drop_last() =~= all.take(i));
        assert(all.take(i + 1).last() == file@);
        loader.record(file.name.as_str(), file.path.as_str(), file.priority, file.info);
    }
    assert(all.take(all.len() as int) =~= all);
    loader.finish()
}

/// The launcher's category for a category of the desktop entry standard.
pub open spec fn mapped_category(cat: Seq<char>) -> Option<Seq<char>> {
    if cat == "AudioVideo"@ || cat == "Audio"@ || cat == "Video"@ {
        Some("Multimedia"@)
    } else if cat == "Development"@ {
        Some("Development"@)
    } else if cat == "Education"@ {
        Some("Education"@)
    } else if cat == "Game"@ {
        Some("Games"@)
    } else if cat == "Graphics"@ {
        Some("Graphics"@)
    } else if cat == "Network"@ {
        Some("Internet"@)
    } else if cat == "Office"@ {
        Some("Office"@)
    } else if cat == "Science"@ {
        Some("Science"@)
    } else if cat == "Settings"@ {
        Some("Settings"@)
    } else if cat == "System"@ {
        Some("System Tools"@)
    } else if cat == "Utility"@ {
        Some("Accessories"@)
    } else {
        None
    }
}

/// The launcher's category for a category of the desktop entry standard.
pub fn map_category(cat: &str) -> (r: Option<&'static str>)
    ensures
        r.deep_view() == mapped_category(cat@),
{
    if same(cat, "AudioVideo") || same(cat, "Audio") || same(cat, "Video") {
        Some("Multimedia")
    } else if same(cat, "Development") {
        Some("Development")
    } else if same(cat, "Education") {
        Some("Education")
    } else if same(cat, "Game") {
        Some("Games")
    } else if same(cat, "Graphics") {
        Some("Graphics")
    } else if same(cat, "Network") {
        Some("Internet")
    } else if same(cat, "Office") {
        Some("Office")
    } else if same(cat, "Science") {
        Some("Science")
    } else if same(cat, "Settings") {
        Some("Settings")
    } else if same(cat, "System") {
        Some("System Tools")
    } else if same(cat, "Utility") {
        Some("Accessories")
    } else {
        None
    }
}

/// The launcher's category of the first of `cats` that has one.
pub open spec fn first_mapped(cats: Seq<Seq<char>>) -> Option<Seq<char>>
    decreases cats.len(),
{
    if cats.len() == 0 {
        None
    } else {
        let cat = text::trimmed(cats.first());
        if cat.len() > 0 && mapped_category(cat) is Some {
            mapped_category(cat)
        } else {
            first_mapped(cats.drop_first())
        }
    }
}

/// The category of an application whose desktop file gives the list `cats`,
/// separated by semicolons.
pub open spec fn category_of(cats: Option<Seq<char>>) -> Seq<char> {
    match cats {
        Some(list) => match first_mapped(text::pieces(list, ';')) {
            Some(name) => name,
            None => "Other"@,
        },
        None => "Other"@,
    }
}

/// The category of an application whose desktop file gives the list `cats`.
pub fn choose_category(cats: &Option<String>) -> (r: &'static str)
    ensures
        r@ == category_of(cats.deep_view()),
{
    let list = match cats {
        None => {
            return "Other";
        },
        Some(list) => list.as_str(),
    };
    let chars = chars_of(list);
    let mut from: usize = 0;
    assert(list@.skip(0) =~= list@);
    loop
        invariant
            chars@ == list@,
            from <= list@.len(),
            cats.deep_view() == Some(list@),
            first_mapped(text::pieces(list@, ';')) == first_mapped(
                text::pieces(list@.skip(from as int), ';'),
            ),
        ensures
            first_mapped(text::pieces(list@, ';')) is None,
        decreases list@.len() - from,
    {
        let to = find_mark(&chars, ';', from);
        let cat = trim(list.substring_char(from, to));
        let ghost rest = list@.skip(from as int);
        assert(list@.subrange(from as int, to as int) =~= rest.take(to - from));
        let ghost parts = text::pieces(rest, ';');
        assert(parts.first() =~= rest.take(to - from)) by {
            assert(rest.take(rest.len() as int) =~= rest);
        }
        assert(text::trimmed(parts.first()) == cat@);
        if !cat.is_empty() {
            if let Some(name) = map_category(cat) {
                return name;
            }
        }
        assert(first_mapped(parts) == first_mapped(parts.drop_first()));
        if to == chars.len() {
            assert(parts.drop_first() =~= Seq::<Seq<char>>::empty());
            break;
        }
        assert(rest.skip(to - from + 1) =~= list@.skip(to + 1));
        assert(parts.drop_first() =~= text::pieces(list@.skip(to + 1), ';'));
        from = to + 1;
    }
    "Other"
}

/// A category, with the positions of its applications.
pub struct Category {
    pub name: String,
    pub apps: Vec<usize>,
}

/// [`Category`] over mathematical sequences.
#[verifier::ext_equal]
pub struct CategoryModel {
    pub name: Seq<char>,
    pub apps: Seq<usize>,
}

impl View for Category {
    type V = CategoryModel;

    open spec fn view(&self) -> CategoryModel {
        CategoryModel { name: self.name@, apps: self.apps@ }
    }
}

impl DeepView for Category {
    type V = CategoryModel;

    open spec fn deep_view(&self) -> CategoryModel {
        self@
    }
}

/// The positions, in increasing order, of the applications of category `name`
/// among `apps`.
pub open spec fn members(apps: Seq<EntryModel>, name: Seq<char>) -> Seq<usize>
    decreases apps.len(),
{
    if apps.len() == 0 {
        seq![]
    } else if category_of(apps.last().categories) == name {
        members(apps.drop_last(), name).push((apps.len() - 1) as usize)
    } else {
        members(apps.drop_last(), name)
    }
}

/// The names of the categories strictly increase.
pub open spec fn names_increase(categories: Seq<CategoryModel>) -> bool {
    forall|i: int, j: int|
        0 <= i < j < categories.len() ==> {
            &&& text::at_most(#[trigger] categories[i].name, #[trigger] categories[j].name)
            &&& categories[i].name != categories[j].name
        }
}

/// `categories` has `name` at some position.
pub open spec fn has_category(categories: Seq<CategoryModel>, name: Seq<char>) -> bool {
    exists|k: int| 0 <= k < categories.len() && (#[trigger] categories[k]).name == name
}

/// `categories` are the categories that an application of `apps` has, in the
/// order of their names, each with all of its applications.
pub open spec fn is_organized(apps: Seq<EntryModel>, categories: Seq<CategoryModel>) -> bool {
    &&& names_increase(categories)
    &&& forall|k: int|
        0 <= k < categories.len() ==> {
            &&& (#[trigger] categories[k]).apps == members(apps, categories[k].name)
            &&& categories[k].apps.len() > 0
        }
    &&& forall|i: int|
        0 <= i < apps.len() ==> has_category(
            categories,
            category_of((#[trigger] apps[i]).categories),
        )
}

/// The position of the first category whose name is not before `name`.
fn category_position(categories: &Vec<Category>, name: &str) -> (at: usize)
    ensures
        at <= categories@.len(),
        forall|k: int|
            0 <= k < at ==> {
                &&& text::at_most(#[trigger] categories.deep_view()[k].name, name@)
                &&& categories.deep_view()[k].name != name@
            },
        at < categories@.len() ==> text::at_most(name@, categories.deep_view()[at as int].name),
{
    let mut at: usize = 0;
    while at < categories.len() && !le(name, categories[at].name.as_str())
        invariant
            at <= categories@.len(),
            forall|k: int|
                0 <= k < at ==> {
                    &&& text::at_most(#[trigger] categories.deep_view()[k].name, name@)
                    &&& categories.deep_view()[k].name != name@
                },
        decreases categories@.len() - at,
    {
        proof {
            let other = categories.deep_view()[at as int].name;
            text::lemma_at_most_total(name@, other);
            text::lemma_at_most_reflexive(name@);
        }
        at = at + 1;
    }
    at
}

/// The categories of `apps`, in the order of their names, each with the
/// positions of its applications.
pub fn organize_by_category(apps: &Vec<AppEntry>) -> (r: Vec<Category>)
    ensures
        is_organized(apps.deep_view(), r.deep_view()),
{
    let mut categories: Vec<Category> = Vec::new();
    let ghost all = apps.deep_view();
    for i in 0..apps.len()
        invariant
            all == apps.deep_view(),
            is_organized(all.take(i as int), categories.deep_view()),
    {
        let name = choose_category(&apps[i].categories);
        let at = category_position(&categories, name);
        let ghost before = categories.deep_view();
        let ghost seen = all.take(i as int);
        let ghost now = all.take(i + 1);
        assert(now.drop_last() =~= seen);
        assert(now.last() == all[i as int]);
        assert(forall|other: Seq<char>|
            other != name@ ==> #[trigger] members(now, other) == members(seen, other));
        if at < categories.len() && same(categories[at].name.as_str(), name) {
            categories[at].apps.push(i);
            proof {
                let after = categories.deep_view();
                assert(after =~= before.update(
                    at as int,
                    CategoryModel { name: name@, apps: before[at as int].apps.push(i) },
                ));
                assert(names_increase(after));
                assert forall|k: int| 0 <= k < now.len() implies has_category(
                    after,
                    category_of((#[trigger] now[k]).categories),
                ) by {
                    let c = category_of(now[k].categories);
                    if k < i {
                        assert(now[k] == seen[k]);
                        let p = choose|p: int|
                            0 <= p < before.len() && (#[trigger] before[p]).name == c;
                        assert(after[p].name == c);
                    } else {
                        assert(after[at as int].name == c);
                    }
                }
            }
        } else {
            proof {
                lemma_no_members(seen, before, name@, at as int);
            }
            let mut first: Vec<usize> = Vec::new();
            first.push(i);
            categories.insert(at, Category { name: name.to_owned(), apps: first });
            proof {
                let after = categories.deep_view();
                let added = CategoryModel { name: name@, apps: seq![i] };
                assert(after =~= before.insert(at as int, added));
                assert(members(now, name@) =~= seq![i]);
                lemma_inserted_category(before, added, at as int);
                assert forall|k: int| 0 <= k < after.len() implies {
                    &&& (#[trigger] after[k]).apps == members(now, after[k].name)
                    &&& after[k].apps.len() > 0
                } by {
                    if k < at {
                        assert(after[k] == before[k]);
                    } else if k > at {
                        assert(after[k] == before[k - 1]);
                        assert(after[k].name != name@);
                    }
                }
                assert forall|k: int| 0 <= k < now.len() implies has_category(
                    after,
                    category_of((#[trigger] now[k]).categories),
                ) by {
                    let c = category_of(now[k].categories);
                    if k < i {
                        assert(now[k] == seen[k]);
                        let p = choose|p: int|
                            0 <= p < before.len() && (#[trigger] before[p]).name == c;
                        if p < at {
                            assert(after[p].name == c);
                        } else {
                            assert(after[p + 1].name == c);
                        }
                    } else {
                        assert(after[at as int].name == c);
                    }
                }
            }
        }
    }
    assert(all.take(all.len() as int) =~= all);
    categories
}

/// A category that stands nowhere has no application.
proof fn lemma_no_members(
    apps: Seq<EntryModel>,
    categories: Seq<CategoryModel>,
    name: Seq<char>,
    at: int,
)
    requires
        is_organized(apps, categories),
        0 <= at <= categories.len(),
        forall|k: int| 0 <= k < at ==> (#[trigger] categories[k]).name != name,
        at < categories.len() ==> categories[at].name != name && text::at_most(
            name,
            categories[at].name,
        ),
    ensures
        members(apps, name) == Seq::<usize>::empty(),
        forall|k: int| 0 <= k < categories.len() ==> (#[trigger] categories[k]).name != name,
{
    assert forall|k: int| 0 <= k < categories.len() implies (#[trigger] categories[k]).name
        != name by {
        if k > at && categories[k].name == name {
            assert(text::at_most(categories[at].name, categories[k].name));
            text::lemma_at_most_antisymmetric(categories[at].name, name);
        }
    }
    assert forall|i: int| 0 <= i < apps.len() implies category_of(
        (#[trigger] apps[i]).categories,
    ) != name by {
        assert(has_category(categories, category_of(apps[i].categories)));
    }
    lemma_members_empty(apps, name);
}

proof fn lemma_members_empty(apps: Seq<EntryModel>, name: Seq<char>)
    requires
        forall|i: int| 0 <= i < apps.len() ==> category_of((#[trigger] apps[i]).categories) != name,
    ensures
        members(apps, name) == Seq::<usize>::empty(),
    decreases apps.len(),
{
    if apps.len() > 0 {
        assert(apps[apps.len() - 1] == apps.last());
        assert forall|i: int| 0 <= i < apps.drop_last().len() implies category_of(
            (#[trigger] apps.drop_last()[i]).categories,
        ) != name by {
            assert(apps.drop_last()[i] == apps[i]);
        }
        lemma_members_empty(apps.drop_last(), name);
    }
}

/// A new category between the smaller and the greater ones keeps the order.
proof fn lemma_inserted_category(
    categories: Seq<CategoryModel>,
    added: CategoryModel,
    at: int,
)
    requires
        names_increase(categories),
        0 <= at <= categories.len(),
        forall|k: int| 0 <= k < categories.len() ==> (#[trigger] categories[k]).name != added.name,
        forall|k: int|
            0 <= k < at ==> text::at_most((#[trigger] categories[k]).name, added.name),
        at < categories.len() ==> text::at_most(added.name, categories[at].name),
    ensures
        names_increase(categories.insert(at, added)),
{
    let after = categories.insert(at, added);
    assert forall|i: int, j: int| 0 <= i < j < after.len() implies {
        &&& text::at_most(#[trigger] after[i].name, #[trigger] after[j].name)
        &&& after[i].name != after[j].name
    } by {
        if i == at {
            assert(after[j] == categories[j - 1]);
            if j - 1 > at {
                assert(text::at_most(categories[at].name, categories[j - 1].name));
                text::lemma_at_most_transitive(
                    added.name,
                    categories[at].name,
                    categories[j - 1].name,
                );
            }
        } else if j == at {
            assert(after[i] == categories[i]);
        } else {
            let a = if i < at { i } else { i - 1 };
            let b = if j < at { j } else { j - 1 };
            assert(after[i] == categories[a] && after[j] == categories[b]);
        }
    }
}

/// The file decides on the desktop id `key`, unless another has precedence.
pub open spec fn claims(file: FileModel, key: Seq<char>) -> bool {
    &&& text::has_suffix(file.name, ".desktop"@)
    &&& text::lowercase(file.name) == key
    &&& !(claim_of(file.info) is Ignored)
}

/// What a file that claims a desktop id says of it.
pub open spec fn slot_of(file: FileModel) -> SlotModel {
    SlotModel {
        priority: file.priority,
        entry: if claim_of(file.info) is Shown {
            Some(entry_of(file.name, file.path, file.info->0))
        } else {
            None
        },
    }
}

/// `files[w]` claims `key`, with a higher priority than the files before it
/// that claim it and at least the priority of those behind it.
pub open spec fn wins(files: Seq<FileModel>, key: Seq<char>, w: int) -> bool {
    &&& 0 <= w < files.len()
    &&& claims(files[w], key)
    &&& forall|i: int|
        0 <= i < files.len() && claims(#[trigger] files[i], key) ==> files[i].priority
            <= files[w].priority && (i < w ==> files[i].priority < files[w].priority)
}

/// Of the files that claim a desktop id the one of the highest priority
/// decides, the first of them where several have it; an id is known if and
/// only if a file claims it.
pub proof fn law_highest_priority_wins(files: Seq<FileModel>, key: Seq<char>) -> (w: int)
    ensures
        catalog(files).contains_key(key) <==> exists|i: int|
            0 <= i < files.len() && claims(#[trigger] files[i], key),
        catalog(files).contains_key(key) ==> wins(files, key, w) && catalog(files)[key] == slot_of(
            files[w],
        ),
    decreases files.len(),
{
    if files.len() == 0 {
        0
    } else {
        let before = files.drop_last();
        let last = files.last();
        let n = before.len() as int;
        let w = law_highest_priority_wins(before, key);
        assert(files[n] == last);
        assert(forall|i: int| 0 <= i < n ==> #[trigger] files[i] == before[i]);
        if catalog(before).contains_key(key) {
            assert(claims(files[w], key));
        }
        if claims(last, key) && open_to(catalog(before), key, last.priority) {
            if catalog(before).contains_key(key) {
                assert(catalog(before)[key].priority < last.priority);
            } else {
                assert forall|i: int| 0 <= i < n implies !claims(#[trigger] files[i], key) by {
                    assert(files[i] == before[i]);
                }
            }
            assert(wins(files, key, n));
            n
        } else {
            if catalog(before).contains_key(key) {
                assert(before[w] == files[w]);
                assert(wins(files, key, w));
            } else {
                assert forall|i: int| 0 <= i < files.len() implies !claims(
                    #[trigger] files[i],
                    key,
                ) by {
                    if i < n {
                        assert(files[i] == before[i]);
                    }
                }
            }
            w
        }
    }
}

/// No two listed applications have the same desktop id, whatever its case.
pub proof fn law_ids_are_distinct(files: Seq<FileModel>, apps: Seq<EntryModel>, i: int, j: int)
    requires
        is_listing(catalog(files), apps),
        0 <= i < j < apps.len(),
    ensures
        text::lowercase(apps[i].desktop_id) != text::lowercase(apps[j].desktop_id),
{
    let keys = choose|keys: Seq<Seq<char>>| lists(catalog(files), apps, keys);
    let v = law_highest_priority_wins(files, keys[i]);
    let w = law_highest_priority_wins(files, keys[j]);
    assert(catalog(files).contains_key(keys[i]));
    assert(catalog(files).contains_key(keys[j]));
}

/// Where the file that decides on a desktop id hides it, no application of
/// that id is listed, also none of a lower priority.
pub proof fn law_hidden_masks(
    files: Seq<FileModel>,
    apps: Seq<EntryModel>,
    key: Seq<char>,
    w: int,
    i: int,
)
    requires
        is_listing(catalog(files), apps),
        wins(files, key, w),
        claim_of(files[w].info) is Hidden,
        0 <= i < apps.len(),
    ensures
        text::lowercase(apps[i].desktop_id) != key,
{
    let keys = choose|keys: Seq<Seq<char>>| lists(catalog(files), apps, keys);
    assert(catalog(files).contains_key(keys[i]));
    let v = law_highest_priority_wins(files, keys[i]);
    if keys[i] == key {
        assert(claims(files[v], key));
        assert(claims(files[w], key));
        assert(v == w);
    }
}

/// Where the file that decides on a desktop id shows it, its application is
/// listed.
pub proof fn law_shown_is_listed(
    files: Seq<FileModel>,
    apps: Seq<EntryModel>,
    key: Seq<char>,
    w: int,
)
    requires
        is_listing(catalog(files), apps),
        wins(files, key, w),
        claim_of(files[w].info) is Shown,
    ensures
        apps.contains(entry_of(files[w].name, files[w].path, files[w].info->0)),
{
    let keys = choose|keys: Seq<Seq<char>>| lists(catalog(files), apps, keys);
    assert(claims(files[w], key));
    let v = law_highest_priority_wins(files, key);
    assert(claims(files[v], key));
    assert(v == w);
    assert(keys.contains(key));
    let i = keys.index_of(key);
    assert(apps[i] == entry_of(files[w].name, files[w].path, files[w].info->0));
}

/// A directory that is searched earlier has the higher priority.
pub proof fn law_earlier_directories_win(home: Seq<char>, i: int, j: int)
    requires
        0 <= i < j < search_dirs(home).len(),
    ensures
        search_dirs(home)[i].1 > search_dirs(home)[j].1,
{
}

/// The members of a category are the positions of its applications, in
/// increasing order.
pub proof fn law_members_increase(apps: Seq<EntryModel>, name: Seq<char>)
    requires
        apps.len() <= usize::MAX,
    ensures
        forall|i: usize|
            #[trigger] members(apps, name).contains(i) <==> i < apps.len() && category_of(
                apps[i as int].categories,
            ) == name,
        forall|a: int, b: int|
            0 <= a < b < members(apps, name).len() ==> #[trigger] members(apps, name)[a]
                < #[trigger] members(apps, name)[b],
    decreases apps.len(),
{
    if apps.len() > 0 {
        let before = apps.drop_last();
        let n = (apps.len() - 1) as usize;
        let short = members(before, name);
        let whole = members(apps, name);
        law_members_increase(before, name);
        assert forall|i: usize| #[trigger] whole.contains(i) <==> i < apps.len() && category_of(
            apps[i as int].categories,
        ) == name by {
            if i < n {
                assert(apps[i as int] == before[i as int]);
                assert(short.contains(i) <==> category_of(apps[i as int].categories) == name);
            } else {
                assert(!short.contains(i));
            }
            if whole.contains(i) {
                let p = whole.index_of(i);
                if p < short.len() {
                    assert(short[p] == i);
                }
            }
            if short.contains(i) {
                let p = short.index_of(i);
                assert(whole[p] == i);
            }
            if i == n && category_of(apps[i as int].categories) == name {
                assert(whole[whole.len() - 1] == i);
            }
        }
        assert forall|a: int, b: int| 0 <= a < b < whole.len() implies #[trigger] whole[a]
            < #[trigger] whole[b] by {
            if b == short.len() {
                assert(short.contains(short[a]));
            } else {
                assert(short[a] < short[b]);
            }
        }
    }
}

/// Every application stands in exactly one category, and there once.
pub proof fn law_one_category_each(
    apps: Seq<EntryModel>,
    categories: Seq<CategoryModel>,
    i: usize,
) -> (k: int)
    requires
        is_organized(apps, categories),
        i < apps.len() <= usize::MAX,
    ensures
        0 <= k < categories.len(),
        categories[k].apps.contains(i),
        categories[k].apps.no_duplicates(),
        forall|other: int|
            0 <= other < categories.len() && (#[trigger] categories[other]).apps.contains(i)
                ==> other == k,
{
    let name = category_of(apps[i as int].categories);
    assert(has_category(categories, name));
    let k = choose|k: int| 0 <= k < categories.len() && (#[trigger] categories[k]).name == name;
    law_members_increase(apps, name);
    assert forall|other: int|
        0 <= other < categories.len() && (
        #[trigger] categories[other]).apps.contains(i) implies other == k by {
        law_members_increase(apps, categories[other].name);
        assert(categories[other].name == name);
    }
    k
}

/// A category holds positions of applications and nothing else.
pub proof fn law_categories_hold_apps(
    apps: Seq<EntryModel>,
    categories: Seq<CategoryModel>,
    k: int,
    m: int,
)
    requires
        is_organized(apps, categories),
        apps.len() <= usize::MAX,
        0 <= k < categories.len(),
        0 <= m < categories[k].apps.len(),
    ensures
        categories[k].apps[m] < apps.len(),
{
    law_members_increase(apps, categories[k].name);
    assert(categories[k].apps.contains(categories[k].apps[m]));
}

/// Two organizations of the same applications are the same.
pub proof fn law_organization_is_unique(
    apps: Seq<EntryModel>,
    a: Seq<CategoryModel>,
    b: Seq<CategoryModel>,
)
    requires
        is_organized(apps, a),
        is_organized(apps, b),
        apps.len() <= usize::MAX,
    ensures
        a == b,
{
    lemma_names_within(apps, a, b);
    lemma_names_within(apps, b, a);
    lemma_increasing_unique(a, b);
}

/// A category of one organization occurs in the other.
proof fn lemma_names_within(apps: Seq<EntryModel>, a: Seq<CategoryModel>, b: Seq<CategoryModel>)
    requires
        is_organized(apps, a),
        is_organized(apps, b),
        apps.len() <= usize::MAX,
    ensures
        forall|k: int| 0 <= k < a.len() ==> #[trigger] b.contains(a[k]),
{
    assert forall|k: int| 0 <= k < a.len() implies #[trigger] b.contains(a[k]) by {
        law_members_increase(apps, a[k].name);
        let i = a[k].apps[0];
        assert(a[k].apps.contains(i));
        assert(category_of(apps[i as int].categories) == a[k].name);
        assert(has_category(b, a[k].name));
        let p = choose|p: int| 0 <= p < b.len() && (#[trigger] b[p]).name == a[k].name;
        assert(b[p] =~= a[k]);
    }
}

/// Lists of categories whose names increase and that hold the same categories
/// are the same.
proof fn lemma_increasing_unique(a: Seq<CategoryModel>, b: Seq<CategoryModel>)
    requires
        names_increase(a),
        names_increase(b),
        forall|k: int| 0 <= k < a.len() ==> #[trigger] b.contains(a[k]),
        forall|k: int| 0 <= k < b.len() ==> #[trigger] a.contains(b[k]),
    ensures
        a == b,
    decreases a.len(),
{
    if a.len() == 0 {
        if b.len() > 0 {
            assert(a.contains(b[0]));
        }
        assert(a =~= b);
    } else {
        let m = a.len() - 1;
        let p = b.index_of(a[m]);
        assert(b.contains(a[m]));
        let n = b.len() - 1;
        let q = a.index_of(b[n]);
        assert(a.contains(b[n]));
        // The greatest name of one is the greatest of the other.
        if p < n {
            assert(text::at_most(b[p].name, b[n].name) && b[p].name != b[n].name);
            if q < m {
                assert(text::at_most(a[q].name, a[m].name));
                text::lemma_at_most_antisymmetric(a[m].name, b[n].name);
            }
        }
        assert(a.last() == b.last());
        let a1 = a.drop_last();
        let b1 = b.drop_last();
        assert forall|k: int| 0 <= k < a1.len() implies #[trigger] b1.contains(a1[k]) by {
            assert(b.contains(a[k]));
            let r = b.index_of(a[k]);
            assert(a[k].name != a[m].name);
            assert(b1[r] == a1[k]);
        }
        assert forall|k: int| 0 <= k < b1.len() implies #[trigger] a1.contains(b1[k]) by {
            assert(a.contains(b[k]));
            let r = a.index_of(b[k]);
            assert(b[k].name != b[n].name);
            assert(a1[r] == b1[k]);
        }
        lemma_increasing_unique(a1, b1);
        assert(a =~= a1.push(a.last()));
        assert(b =~= b1.push(b.last()));
    }
}

/// A category that is not listed has no applications.
pub proof fn lemma_absent_category(
    apps: Seq<EntryModel>,
    categories: Seq<CategoryModel>,
    name: Seq<char>,
)
    requires
        is_organized(apps, categories),
        forall|k: int| 0 <= k < categories.len() ==> (#[trigger] categories[k]).name != name,
    ensures
        members(apps, name) == Seq::<usize>::empty(),
{
    lemma_no_members(apps, categories, name, categories.len() as int);
}

/// The file is a desktop file that has something to say of its application:
/// that it cannot be read, that it is hidden, or what it is called.
pub open spec fn speaks(file: FileModel) -> bool {
    &&& text::has_suffix(file.name, ".desktop"@)
    &&& file.info matches Some(info) ==> info.no_display || info.hidden || info.name.len() > 0
}

/// The file is a desktop file of an application to show.
pub open spec fn shows(file: FileModel) -> bool {
    &&& text::has_suffix(file.name, ".desktop"@)
    &&& file.info matches Some(info) && !info.no_display && !info.hidden && info.name.len() > 0
}

/// `files[w]` decides on its desktop id: no file of that id, whatever its
/// case, comes from a directory of higher priority, and none that was found
/// earlier from one of the same priority.
pub open spec fn decides(files: Seq<FileModel>, w: int) -> bool {
    &&& 0 <= w < files.len()
    &&& speaks(files[w])
    &&& forall|i: int|
        0 <= i < files.len() && speaks(#[trigger] files[i]) && text::lowercase(files[i].name)
            == text::lowercase(files[w].name) ==> files[i].priority < files[w].priority || (
        files[i].priority == files[w].priority && w <= i)
}

/// The entry says of the application what its desktop file says: the texts
/// as they are and, for the search, in lower case.
pub open spec fn tells_of(entry: EntryModel, file: FileModel) -> bool {
    &&& entry.desktop_id == file.name
    &&& entry.desktop_path == file.path
    &&& file.info matches Some(info) && {
        &&& entry.name == info.name
        &&& entry.name_lower == text::lowercase(info.name)
        &&& entry.icon == info.icon
        &&& entry.categories == info.categories
        &&& info.description matches Some(d) ==> entry.description == d
        &&& info.description is None ==> entry.description.len() == 0
        &&& text::has_part(entry.search_text, text::lowercase(entry.description))
        &&& info.generic_name matches Some(g) ==> entry.generic_name == text::lowercase(g)
        &&& info.generic_name is None ==> entry.generic_name.len() == 0
        &&& text::has_part(entry.search_text, entry.generic_name)
        &&& text::has_part(entry.search_text, entry.keywords)
        &&& entry.search_text == text::lowercase(entry.description) + seq![' '] + entry.keywords
            + seq![' '] + entry.generic_name
        &&& forall|k: int|
            0 <= k < info.keywords.len() ==> text::has_part(
                entry.search_text,
                text::lowercase(#[trigger] info.keywords[k]),
            )
        &&& entry.keywords == text::joined(
            Seq::new(info.keywords.len(), |k: int| text::lowercase(info.keywords[k])),
            seq![' '],
        )
    }
}

/// The desktop file of an entry and the words of its search text.
proof fn lemma_entry_tells_of_its_file(file: FileModel)
    requires
        file.info is Some,
    ensures
        tells_of(entry_of(file.name, file.path, file.info->0), file),
{
    let info = file.info->0;
    let entry = entry_of(file.name, file.path, info);
    let low = lowered(info);
    let none = Seq::<char>::empty();
    reveal_strlit(" ");
    assert(" "@ =~= seq![' ']);
    assert(low.keywords =~= Seq::new(
        info.keywords.len(),
        |k: int| text::lowercase(info.keywords[k]),
    ));
    text::law_part_is_found(none, low.description, " "@ + entry.keywords + " "@ + low.generic_name);
    assert(none + low.description + (" "@ + entry.keywords + " "@ + low.generic_name)
        =~= entry.search_text);
    text::law_part_is_found(low.description + " "@, entry.keywords, " "@ + low.generic_name);
    assert(low.description + " "@ + entry.keywords + (" "@ + low.generic_name)
        =~= entry.search_text);
    text::law_part_is_found(
        low.description + " "@ + entry.keywords + " "@,
        low.generic_name,
        none,
    );
    assert(low.description + " "@ + entry.keywords + " "@ + low.generic_name + none
        =~= entry.search_text);
    assert forall|k: int| 0 <= k < info.keywords.len() implies text::has_part(
        entry.search_text,
        text::lowercase(#[trigger] info.keywords[k]),
    ) by {
        assert(low.keywords[k] == text::lowercase(info.keywords[k]));
        text::law_joined_text_holds_each_word(low.keywords, " "@, k);
        text::lemma_part_of_part(
            low.description + " "@,
            entry.keywords,
            " "@ + low.generic_name,
            low.keywords[k],
        );
    }
}

/// The words of the search text are joined by single spaces: with one keyword
/// more, the keywords of an entry are one word longer, and the rest stays.
pub proof fn law_each_keyword_is_one_word(
    desktop_id: Seq<char>,
    path: Seq<char>,
    info: InfoModel,
    word: Seq<char>,
)
    ensures
        ({
            let more = InfoModel { keywords: info.keywords.push(word), ..info };
            let entry = entry_of(desktop_id, path, info);
            entry_of(desktop_id, path, more).keywords == (if info.keywords.len() == 0 {
                text::lowercase(word)
            } else {
                entry.keywords + seq![' '] + text::lowercase(word)
            })
        }),
        ({
            let entry = entry_of(desktop_id, path, info);
            entry.search_text == text::lowercase(entry.description) + seq![' '] + entry.keywords
                + seq![' '] + entry.generic_name
        }),
{
    let more = InfoModel { keywords: info.keywords.push(word), ..info };
    reveal_strlit(" ");
    assert(" "@ =~= seq![' ']);
    assert(lowered(more).keywords.drop_last() =~= lowered(info).keywords);
    assert(lowered(more).keywords.last() == text::lowercase(word));
}

proof fn lemma_decides(files: Seq<FileModel>, w: int)
    ensures
        decides(files, w) <==> wins(files, text::lowercase(files[w].name), w),
{
    let key = text::lowercase(files[w].name);
    assert forall|i: int| 0 <= i < files.len() implies claims(#[trigger] files[i], key) == (speaks(
        files[i],
    ) && text::lowercase(files[i].name) == key) by {}
    if decides(files, w) {
        assert(claims(files[w], key));
        assert forall|i: int| 0 <= i < files.len() && claims(#[trigger] files[i], key) implies files[i].priority
            <= files[w].priority && (i < w ==> files[i].priority < files[w].priority) by {
            assert(speaks(files[i]));
        }
    }
    if wins(files, key, w) {
        assert forall|i: int|
            0 <= i < files.len() && speaks(#[trigger] files[i]) && text::lowercase(files[i].name)
                == key implies files[i].priority < files[w].priority || (files[i].priority
            == files[w].priority && w <= i) by {
            assert(claims(files[i], key));
        }
    }
}

/// Every listed application comes from a desktop file that shows it and
/// decides on its desktop id, and says what that file says.
pub proof fn law_listed_applications_have_a_file(
    files: Seq<FileModel>,
    apps: Seq<EntryModel>,
    i: int,
) -> (w: int)
    requires
        is_listing(catalog(files), apps),
        0 <= i < apps.len(),
    ensures
        decides(files, w),
        shows(files[w]),
        tells_of(apps[i], files[w]),
{
    let keys = choose|keys: Seq<Seq<char>>| lists(catalog(files), apps, keys);
    assert(catalog(files).contains_key(keys[i]));
    let w = law_highest_priority_wins(files, keys[i]);
    lemma_decides(files, w);
    lemma_entry_tells_of_its_file(files[w]);
    w
}

/// Every desktop file that shows an application and decides on its desktop id
/// is listed, at the position that is returned, and nowhere else.
pub proof fn law_shown_files_are_listed_once(
    files: Seq<FileModel>,
    apps: Seq<EntryModel>,
    w: int,
) -> (i: int)
    requires
        is_listing(catalog(files), apps),
        decides(files, w),
        shows(files[w]),
    ensures
        0 <= i < apps.len(),
        tells_of(apps[i], files[w]),
        forall|j: int|
            0 <= j < apps.len() && text::lowercase((#[trigger] apps[j]).desktop_id)
                == text::lowercase(files[w].name) ==> j == i,
{
    let key = text::lowercase(files[w].name);
    lemma_decides(files, w);
    law_shown_is_listed(files, apps, key, w);
    let entry = entry_of(files[w].name, files[w].path, files[w].info->0);
    let i = apps.index_of(entry);
    lemma_entry_tells_of_its_file(files[w]);
    assert forall|j: int|
        0 <= j < apps.len() && text::lowercase((#[trigger] apps[j]).desktop_id) == key implies j
        == i by {
        if j < i {
            law_ids_are_distinct(files, apps, j, i);
        } else if i < j {
            law_ids_are_distinct(files, apps, i, j);
        }
    }
    i
}

/// A desktop file that decides on its desktop id and shows no application,
/// because it is hidden or cannot be read, keeps that id off the list.
pub proof fn law_hidden_files_mask_their_id(
    files: Seq<FileModel>,
    apps: Seq<EntryModel>,
    w: int,
    i: int,
)
    requires
        is_listing(catalog(files), apps),
        decides(files, w),
        !shows(files[w]),
        0 <= i < apps.len(),
    ensures
        text::lowercase(apps[i].desktop_id) != text::lowercase(files[w].name),
{
    lemma_decides(files, w);
    law_hidden_masks(files, apps, text::lowercase(files[w].name), w, i);
}

/// The applications are listed in the order of their names in lower case.
pub proof fn law_listed_by_name(
    files: Seq<FileModel>,
    apps: Seq<EntryModel>,
    i: int,
    j: int,
)
    requires
        is_listing(catalog(files), apps),
        0 <= i < j < apps.len(),
    ensures
        text::at_most(apps[i].name_lower, apps[j].name_lower),
        text::at_most(text::lowercase(apps[i].name), text::lowercase(apps[j].name)),
{
    let v = law_listed_applications_have_a_file(files, apps, i);
    let w = law_listed_applications_have_a_file(files, apps, j);
    assert(text::at_most(apps[i].name_lower, apps[j].name_lower));
}

/// A file has to be read if and only if it could still decide: it is a
/// desktop file, and no file of its id that spoke before has its priority or
/// a higher one.
pub proof fn law_wanted_files_can_decide(files: Seq<FileModel>, name: Seq<char>, priority: i32)
    ensures
        wanted(catalog(files), name, priority) <==> text::has_suffix(name, ".desktop"@) && forall|
            i: int,
        |
            0 <= i < files.len() && speaks(#[trigger] files[i]) && text::lowercase(files[i].name)
                == text::lowercase(name) ==> files[i].priority < priority,
{
    let key = text::lowercase(name);
    let w = law_highest_priority_wins(files, key);
    assert forall|i: int| 0 <= i < files.len() implies claims(#[trigger] files[i], key) == (speaks(
        files[i],
    ) && text::lowercase(files[i].name) == key) by {}
    if catalog(files).contains_key(key) {
        assert(claims(files[w], key));
    }
}

/// A category that the launcher knows has a name.
proof fn lemma_known_category_has_a_name(cat: Seq<char>)
    ensures
        mapped_category(cat) is Some ==> cat.len() > 0,
{
    reveal_strlit("AudioVideo");
    reveal_strlit("Audio");
    reveal_strlit("Video");
    reveal_strlit("Development");
    reveal_strlit("Education");
    reveal_strlit("Game");
    reveal_strlit("Graphics");
    reveal_strlit("Network");
    reveal_strlit("Office");
    reveal_strlit("Science");
    reveal_strlit("Settings");
    reveal_strlit("System");
    reveal_strlit("Utility");
}

/// The categories of the desktop entry standard that the launcher knows, each
/// with its own name for it.
pub open spec fn known_categories() -> Seq<(Seq<char>, Seq<char>)> {
    seq![
        ("AudioVideo"@, "Multimedia"@),
        ("Audio"@, "Multimedia"@),
        ("Video"@, "Multimedia"@),
        ("Development"@, "Development"@),
        ("Education"@, "Education"@),
        ("Game"@, "Games"@),
        ("Graphics"@, "Graphics"@),
        ("Network"@, "Internet"@),
        ("Office"@, "Office"@),
        ("Science"@, "Science"@),
        ("Settings"@, "Settings"@),
        ("System"@, "System Tools"@),
        ("Utility"@, "Accessories"@),
    ]
}

/// A category is known if and only if the table has it, and then goes by the
/// name in the table.
pub proof fn law_known_categories(cat: Seq<char>, k: int)
    ensures
        (0 <= k < known_categories().len() && (forall|j: int|
            0 <= j < k ==> (#[trigger] known_categories()[j]).0 != cat)
            && known_categories()[k].0 == cat) ==> mapped_category(cat) == Some(
            known_categories()[k].1,
        ),
        (forall|j: int| 0 <= j < known_categories().len() ==> (#[trigger] known_categories()[j]).0 != cat)
            ==> mapped_category(cat) is None,
{
    let table = known_categories();
    assert(table.len() == 13);
    assert(forall|j: int| 0 <= j < k && k < 13 ==> #[trigger] table[j] == known_categories()[j]);
    assert(table[0].0 == "AudioVideo"@ && table[1].0 == "Audio"@ && table[2].0 == "Video"@
        && table[3].0 == "Development"@ && table[4].0 == "Education"@ && table[5].0 == "Game"@
        && table[6].0 == "Graphics"@ && table[7].0 == "Network"@ && table[8].0 == "Office"@
        && table[9].0 == "Science"@ && table[10].0 == "Settings"@ && table[11].0 == "System"@
        && table[12].0 == "Utility"@);
}

/// The first piece of the list, without the white space around it, that is a
/// known category decides on the category of an application.
pub proof fn law_first_known_category_decides(list: Seq<char>, k: int)
    requires
        0 <= k < text::pieces(list, ';').len(),
        mapped_category(text::trimmed(text::pieces(list, ';')[k])) is Some,
        forall|j: int|
            0 <= j < k ==> mapped_category(
                text::trimmed(#[trigger] text::pieces(list, ';')[j]),
            ) is None,
    ensures
        Some(category_of(Some(list))) == mapped_category(text::trimmed(text::pieces(list, ';')[k])),
{
    lemma_first_mapped(text::pieces(list, ';'), k);
}

/// An application without a list, or with no known category in it, belongs to
/// the others.
pub proof fn law_other_applications(list: Seq<char>)
    requires
        forall|j: int|
            0 <= j < text::pieces(list, ';').len() ==> mapped_category(
                text::trimmed(#[trigger] text::pieces(list, ';')[j]),
            ) is None,
    ensures
        category_of(Some(list)) == "Other"@,
        category_of(None) == "Other"@,
{
    lemma_none_mapped(text::pieces(list, ';'));
}

proof fn lemma_first_mapped(cats: Seq<Seq<char>>, k: int)
    requires
        0 <= k < cats.len(),
        mapped_category(text::trimmed(cats[k])) is Some,
        forall|j: int| 0 <= j < k ==> mapped_category(text::trimmed(#[trigger] cats[j])) is None,
    ensures
        first_mapped(cats) == mapped_category(text::trimmed(cats[k])),
    decreases cats.len(),
{
    if k == 0 {
        lemma_known_category_has_a_name(text::trimmed(cats[0]));
    } else {
        let rest = cats.drop_first();
        assert(mapped_category(text::trimmed(cats[0])) is None);
        assert forall|j: int| 0 <= j < k - 1 implies mapped_category(
            text::trimmed(#[trigger] rest[j]),
        ) is None by {
            assert(rest[j] == cats[j + 1]);
        }
        assert(rest[k - 1] == cats[k]);
        lemma_first_mapped(rest, k - 1);
    }
}

proof fn lemma_none_mapped(cats: Seq<Seq<char>>)
    requires
        forall|j: int|
            0 <= j < cats.len() ==> mapped_category(text::trimmed(#[trigger] cats[j])) is None,
    ensures
        first_mapped(cats) is None,
    decreases cats.len(),
{
    if cats.len() > 0 {
        let rest = cats.drop_first();
        assert(mapped_category(text::trimmed(cats[0])) is None);
        assert forall|j: int| 0 <= j < rest.len() implies mapped_category(
            text::trimmed(#[trigger] rest[j]),
        ) is None by {
            assert(rest[j] == cats[j + 1]);
        }
        lemma_none_mapped(rest);
    }
}

/// The directories of the user and of the system, the user's own with the
/// higher priority, in both the plain place before the one of flatpak.
pub proof fn law_searched_directories(home: Seq<char>)
    ensures
        search_dirs(home).len() == 4,
        search_dirs(home)[0] == (text::below(home, ".local/share/applications"@), 4i32),
        search_dirs(home)[1] == (
            text::below(home, ".local/share/flatpak/exports/share/applications"@),
            3i32,
        ),
        search_dirs(home)[2] == ("/usr/share/applications"@, 2i32),
        search_dirs(home)[3] == ("/var/lib/flatpak/exports/share/applications"@, 1i32),
{
}

/// The contracts speak of what a desktop file, an entry, a scanned file and a
/// category really hold.
pub proof fn law_models_tell_all(
    info: DesktopInfo,
    entry: AppEntry,
    file: ScannedFile,
    category: Category,
)
    ensures
        info@.name == info.name@,
        info@.description == info.description.deep_view(),
        info.icon matches Some(icon) ==> info@.icon == Some(icon@),
        info.icon is None ==> info@.icon is None,
        info@.keywords == info.keywords.deep_view(),
        info@.generic_name == info.generic_name.deep_view(),
        info@.categories == info.categories.deep_view(),
        info@.no_display == info.no_display,
        info@.hidden == info.hidden,
        entry@.name == entry.name@,
        entry@.name_lower == entry.name_lower@,
        entry@.search_text == entry.search_text@,
        entry@.description == entry.description@,
        entry.icon matches Some(icon) ==> entry@.icon == Some(icon@),
        entry.icon is None ==> entry@.icon is None,
        entry@.desktop_id == entry.desktop_id@,
        entry@.desktop_path == entry.desktop_path@,
        entry@.categories == entry.categories.deep_view(),
        entry@.keywords == entry.keywords@,
        entry@.generic_name == entry.generic_name@,
        file@.name == file.name@,
        file@.path == file.path@,
        file@.priority == file.priority,
        file.info matches Some(i) ==> file@.info == Some(i@),
        file.info is None ==> file@.info is None,
        category@.name == category.name@,
        category@.apps == category.apps@,
{
}

} // verus!
