//! The vocabulary between the launcher and its window: the events that the
//! window reports are made of these values, and so is what it is told to do.
//!
//! The types that hold text are generic in it: with `String` they are what
//! the program handles, with sequences of characters what contracts speak of.
use vstd::prelude::*;

use crate::text::same;

verus! {

/// One of the two lists between which the window slides.
#[derive(Debug, Clone, Copy, PartialEq, Eq, Structural)]
pub enum ActiveView {
    One,
    Two,
}

/// A page of the launcher.
#[derive(Debug, PartialEq, Eq)]
pub enum Page<S = String> {
    Favorites,
    Categories,
    Category(S),
}

/// What a row of a list stands for.
#[derive(Debug, Clone, PartialEq, Eq)]
pub enum RowMeta<S = String> {
    App { idx: usize, draggable: bool },
    Category { name: S },
}

/// A row to be made.
#[derive(Debug, PartialEq, Eq)]
pub enum Row<S = String> {
    /// The application at position `idx`, with a filled star where it is a
    /// favorite.
    App { idx: usize, favorite: bool, draggable: bool },
    /// A category, with the name of its icon.
    Category { name: S, icon: S },
}

/// What the button below the list does.
#[derive(Debug, Clone, Copy, PartialEq, Eq, Structural)]
pub enum NavAction {
    ShowCategories,
    GoBack,
}

/// The way in which the lists slide.
#[derive(Debug, Clone, Copy, PartialEq, Eq, Structural)]
pub enum Direction {
    Forward,
    Back,
}

/// The timers of the launcher.
#[derive(Debug, Clone, Copy, PartialEq, Eq, Structural)]
pub enum Timer {
    /// Rows can be activated again when it ends.
    RowActivation,
    /// The lists have stopped sliding when it ends.
    Animation,
    /// The applications are loaded again when it ends.
    Reload,
    /// The launcher is hidden when it ends.
    FocusOut,
}

/// The ways in which an application is started, in the order in which they
/// are tried.
#[derive(Debug, Clone, Copy, PartialEq, Eq, Structural)]
pub enum LaunchStep {
    /// By its desktop file.
    DesktopFile,
    /// By the program `gtk-launch`.
    GtkLaunch,
    /// By `gtk-launch` below the program `dbus-launch`.
    DbusLaunch,
}

/// Whether an event goes on to other handlers.
#[derive(Debug, Clone, Copy, PartialEq, Eq, Structural)]
pub enum Propagation {
    Proceed,
    Stop,
}

/// A key, as far as the launcher tells keys apart.
#[derive(Debug, Clone, Copy, PartialEq, Eq, Structural)]
pub enum Key {
    Escape,
    Up,
    Down,
    Left,
    Right,
    Return,
    KeypadEnter,
    Other,
}

/// What the window is told to do.
#[derive(Debug, PartialEq, Eq)]
pub enum Effect<S = String> {
    /// Remove all rows of the list.
    ClearList(ActiveView),
    /// Put a row at the end of the list.
    AddRow(ActiveView, Row<S>),
    /// Make the rows of the list visible.
    ShowList(ActiveView),
    /// Replace the button below the list.
    SetNavButton(NavAction),
    /// Select and focus the first row of the current list at once.
    SelectFirstRow,
    /// The same, when the event loop is idle.
    SelectFirstRowSoon,
    /// Let the next change of lists slide in this direction.
    SetTransition(Direction),
    /// Slide to the list.
    SlideTo(ActiveView),
    /// Start the timer.
    StartTimer(Timer),
    /// Stop the timer that hides the launcher.
    StopFocusTimer,
    /// Empty the search entry without reporting that as a change.
    ClearSearch,
    /// Stop reporting activated rows, once more.
    BlockRowActivation,
    /// Take one such block back.
    UnblockRowActivation,
    ShowWindow,
    PresentWindow,
    HideWindow,
    /// Give the list the keyboard focus.
    FocusList(ActiveView),
    /// Give the search entry the keyboard focus, with the cursor at its end.
    FocusSearch,
    RedrawSearch,
    /// Tell the panel whether the window is shown.
    SignalPanel(bool),
    /// Write the favorites file, with this text.
    SaveFavorites(S),
    /// Watch the directories of the applications.
    WatchDirectories,
    /// Report the focus, key and close events of the window.
    ConnectWindow,
    /// Select the row in the current list.
    SelectRow(u64),
    /// Take the row out of the current list, put it in at the position, and
    /// select it.
    MoveRow { row: u64, to: i32 },
    /// Show the context menu of the application.
    ShowContextMenu(usize),
    /// Try to start the application, and report how that went.
    Launch { idx: usize, step: LaunchStep },
    /// Let the shell run the command, and report how that went.
    RunShell(S),
    /// Say that the application of this name could not be started.
    ReportLaunchFailure(S),
}

/// The answer to an event: what to do, and whether the event goes on.
#[derive(Debug, PartialEq, Eq)]
pub struct Response {
    pub effects: Vec<Effect>,
    pub propagation: Propagation,
}

impl View for Page<String> {
    type V = Page<Seq<char>>;

    open spec fn view(&self) -> Page<Seq<char>> {
        match self {
            Page::Favorites => Page::Favorites,
            Page::Categories => Page::Categories,
            Page::Category(name) => Page::Category(name@),
        }
    }
}

impl DeepView for Page<String> {
    type V = Page<Seq<char>>;

    open spec fn deep_view(&self) -> Page<Seq<char>> {
        self@
    }
}

impl View for RowMeta<String> {
    type V = RowMeta<Seq<char>>;

    open spec fn view(&self) -> RowMeta<Seq<char>> {
        match self {
            RowMeta::App { idx, draggable } => RowMeta::App { idx: *idx, draggable: *draggable },
            RowMeta::Category { name } => RowMeta::Category { name: name@ },
        }
    }
}

impl DeepView for RowMeta<String> {
    type V = RowMeta<Seq<char>>;

    open spec fn deep_view(&self) -> RowMeta<Seq<char>> {
        self@
    }
}

impl View for Row<String> {
    type V = Row<Seq<char>>;

    open spec fn view(&self) -> Row<Seq<char>> {
        match self {
            Row::App { idx, favorite, draggable } => Row::App {
                idx: *idx,
                favorite: *favorite,
                draggable: *draggable,
            },
            Row::Category { name, icon } => Row::Category { name: name@, icon: icon@ },
        }
    }
}

impl View for Effect<String> {
    type V = Effect<Seq<char>>;

    open spec fn view(&self) -> Effect<Seq<char>> {
        match self {
            Effect::ClearList(list) => Effect::ClearList(*list),
            Effect::AddRow(list, row) => Effect::AddRow(*list, row@),
            Effect::ShowList(list) => Effect::ShowList(*list),
            Effect::SetNavButton(action) => Effect::SetNavButton(*action),
            Effect::SelectFirstRow => Effect::SelectFirstRow,
            Effect::SelectFirstRowSoon => Effect::SelectFirstRowSoon,
            Effect::SetTransition(direction) => Effect::SetTransition(*direction),
            Effect::SlideTo(list) => Effect::SlideTo(*list),
            Effect::StartTimer(timer) => Effect::StartTimer(*timer),
            Effect::StopFocusTimer => Effect::StopFocusTimer,
            Effect::ClearSearch => Effect::ClearSearch,
            Effect::BlockRowActivation => Effect::BlockRowActivation,
            Effect::UnblockRowActivation => Effect::UnblockRowActivation,
            Effect::ShowWindow => Effect::ShowWindow,
            Effect::PresentWindow => Effect::PresentWindow,
            Effect::HideWindow => Effect::HideWindow,
            Effect::FocusList(list) => Effect::FocusList(*list),
            Effect::FocusSearch => Effect::FocusSearch,
            Effect::RedrawSearch => Effect::RedrawSearch,
            Effect::SignalPanel(visible) => Effect::SignalPanel(*visible),
            Effect::SaveFavorites(text) => Effect::SaveFavorites(text@),
            Effect::WatchDirectories => Effect::WatchDirectories,
            Effect::ConnectWindow => Effect::ConnectWindow,
            Effect::SelectRow(row) => Effect::SelectRow(*row),
            Effect::MoveRow { row, to } => Effect::MoveRow { row: *row, to: *to },
            Effect::ShowContextMenu(idx) => Effect::ShowContextMenu(*idx),
            Effect::Launch { idx, step } => Effect::Launch { idx: *idx, step: *step },
            Effect::RunShell(command) => Effect::RunShell(command@),
            Effect::ReportLaunchFailure(name) => Effect::ReportLaunchFailure(name@),
        }
    }
}

impl DeepView for Effect<String> {
    type V = Effect<Seq<char>>;

    open spec fn deep_view(&self) -> Effect<Seq<char>> {
        self@
    }
}

impl ActiveView {
    pub open spec fn spec_other(self) -> ActiveView {
        match self {
            ActiveView::One => ActiveView::Two,
            ActiveView::Two => ActiveView::One,
        }
    }

    /// The list that is not this one.
    pub fn other(self) -> (r: ActiveView)
        ensures
            r == self.spec_other(),
    {
        match self {
            ActiveView::One => ActiveView::Two,
            ActiveView::Two => ActiveView::One,
        }
    }
}

/// The name under which the window knows the list.
pub fn list_name(list: ActiveView) -> (r: &'static str)
    ensures
        r@ == (match list {
            ActiveView::One => "view1"@,
            ActiveView::Two => "view2"@,
        }),
{
    match list {
        ActiveView::One => "view1",
        ActiveView::Two => "view2",
    }
}

/// How long the timer runs, in milliseconds.
pub fn timer_delay(timer: Timer) -> (r: u64)
    ensures
        r == (match timer {
            Timer::RowActivation => 150u64,
            Timer::Animation => 260u64,
            Timer::Reload => 500u64,
            Timer::FocusOut => 500u64,
        }),
{
    match timer {
        Timer::RowActivation => 150,
        Timer::Animation => 260,
        Timer::Reload => 500,
        Timer::FocusOut => 500,
    }
}

/// The button below the list: what stands on it, its icon, and whether an
/// arrow points forward on it.
pub struct NavButton {
    pub label: &'static str,
    pub icon: &'static str,
    pub arrow: bool,
}

/// The button for `action`.
pub fn nav_button(action: NavAction) -> (r: NavButton)
    ensures
        match action {
            NavAction::ShowCategories => r.label@ == "All Applications"@ && r.icon@ == "folder"@
                && r.arrow,
            NavAction::GoBack => r.label@ == "Back"@ && r.icon@ == "go-previous"@ && !r.arrow,
        },
{
    match action {
        NavAction::ShowCategories => NavButton {
            label: "All Applications",
            icon: "folder",
            arrow: true,
        },
        NavAction::GoBack => NavButton { label: "Back", icon: "go-previous", arrow: false },
    }
}

/// The icon of the star button of an application.
pub fn star_icon(favorite: bool) -> (r: &'static str)
    ensures
        r@ == (if favorite {
            "starred"@
        } else {
            "non-starred"@
        }),
{
    if favorite {
        "starred"
    } else {
        "non-starred"
    }
}

/// The icon of the category `name`.
pub open spec fn icon_of_category(name: Seq<char>) -> Seq<char> {
    if name == "Multimedia"@ {
        "applications-multimedia"@
    } else if name == "Development"@ {
        "applications-development"@
    } else if name == "Education"@ {
        "applications-science"@
    } else if name == "Games"@ {
        "applications-games"@
    } else if name == "Graphics"@ {
        "applications-graphics"@
    } else if name == "Internet"@ {
        "applications-internet"@
    } else if name == "Office"@ {
        "applications-office"@
    } else if name == "Science"@ {
        "applications-science"@
    } else if name == "Settings"@ {
        "preferences-system"@
    } else if name == "System Tools"@ {
        "applications-system"@
    } else if name == "Accessories"@ {
        "applications-accessories"@
    } else if name == "Other"@ {
        "applications-other"@
    } else {
        "folder"@
    }
}

/// The icon of the category `name`.
pub fn category_icon(name: &str) -> (r: &'static str)
    ensures
        r@ == icon_of_category(name@),
{
    if same(name, "Multimedia") {
        "applications-multimedia"
    } else if same(name, "Development") {
        "applications-development"
    } else if same(name, "Education") {
        "applications-science"
    } else if same(name, "Games") {
        "applications-games"
    } else if same(name, "Graphics") {
        "applications-graphics"
    } else if same(name, "Internet") {
        "applications-internet"
    } else if same(name, "Office") {
        "applications-office"
    } else if same(name, "Science") {
        "applications-science"
    } else if same(name, "Settings") {
        "preferences-system"
    } else if same(name, "System Tools") {
        "applications-system"
    } else if same(name, "Accessories") {
        "applications-accessories"
    } else if same(name, "Other") {
        "applications-other"
    } else {
        "folder"
    }
}

/// The categories with an icon of their own, with these icons.
pub open spec fn category_icons() -> Seq<(Seq<char>, Seq<char>)> {
    seq![
        ("Multimedia"@, "applications-multimedia"@),
        ("Development"@, "applications-development"@),
        ("Education"@, "applications-science"@),
        ("Games"@, "applications-games"@),
        ("Graphics"@, "applications-graphics"@),
        ("Internet"@, "applications-internet"@),
        ("Office"@, "applications-office"@),
        ("Science"@, "applications-science"@),
        ("Settings"@, "preferences-system"@),
        ("System Tools"@, "applications-system"@),
        ("Accessories"@, "applications-accessories"@),
        ("Other"@, "applications-other"@),
    ]
}

/// A category of the table has its icon there, any other that of a folder.
pub proof fn law_category_icons(name: Seq<char>, k: int)
    ensures
        (0 <= k < category_icons().len() && category_icons()[k].0 == name && forall|j: int|
            0 <= j < k ==> (#[trigger] category_icons()[j]).0 != name) ==> icon_of_category(name)
            == category_icons()[k].1,
        (forall|j: int| 0 <= j < category_icons().len() ==> (#[trigger] category_icons()[j]).0 != name)
            ==> icon_of_category(name) == "folder"@,
{
    let table = category_icons();
    assert(table[0].0 == "Multimedia"@ && table[1].0 == "Development"@ && table[2].0
        == "Education"@ && table[3].0 == "Games"@ && table[4].0 == "Graphics"@ && table[5].0
        == "Internet"@ && table[6].0 == "Office"@ && table[7].0 == "Science"@ && table[8].0
        == "Settings"@ && table[9].0 == "System Tools"@ && table[10].0 == "Accessories"@
        && table[11].0 == "Other"@);
}

/// A list is never the other one, and the other of the other is itself.
pub proof fn law_two_lists(list: ActiveView)
    ensures
        list.spec_other() != list,
        list.spec_other().spec_other() == list,
{
}

/// The contracts speak of the pages and rows that the window handles.
pub proof fn law_models_tell_pages_and_rows(
    name: String,
    icon: String,
    idx: usize,
    favorite: bool,
    draggable: bool,
)
    ensures
        Page::<String>::Favorites@ == Page::<Seq<char>>::Favorites,
        Page::<String>::Categories@ == Page::<Seq<char>>::Categories,
        Page::Category(name)@ == Page::Category(name@),
        (RowMeta::<String>::App { idx, draggable })@ == (RowMeta::<Seq<char>>::App {
            idx,
            draggable,
        }),
        (RowMeta::Category { name })@ == (RowMeta::Category { name: name@ }),
        (Row::<String>::App { idx, favorite, draggable })@ == (Row::<Seq<char>>::App {
            idx,
            favorite,
            draggable,
        }),
        (Row::Category { name, icon })@ == (Row::Category { name: name@, icon: icon@ }),
{
}

/// The contracts speak of the effects that the window is told.
pub proof fn law_models_tell_effects(
    list: ActiveView,
    row: Row,
    action: NavAction,
    direction: Direction,
    timer: Timer,
    step: LaunchStep,
    flag: bool,
    text: String,
    id: u64,
    to: i32,
    idx: usize,
)
    ensures
        Effect::<String>::ClearList(list)@ == Effect::<Seq<char>>::ClearList(list),
        Effect::AddRow(list, row)@ == Effect::AddRow(list, row@),
        Effect::<String>::ShowList(list)@ == Effect::<Seq<char>>::ShowList(list),
        Effect::<String>::SetNavButton(action)@ == Effect::<Seq<char>>::SetNavButton(action),
        Effect::<String>::SelectFirstRow@ == Effect::<Seq<char>>::SelectFirstRow,
        Effect::<String>::SelectFirstRowSoon@ == Effect::<Seq<char>>::SelectFirstRowSoon,
        Effect::<String>::SetTransition(direction)@ == Effect::<Seq<char>>::SetTransition(
            direction,
        ),
        Effect::<String>::SlideTo(list)@ == Effect::<Seq<char>>::SlideTo(list),
        Effect::<String>::StartTimer(timer)@ == Effect::<Seq<char>>::StartTimer(timer),
        Effect::<String>::StopFocusTimer@ == Effect::<Seq<char>>::StopFocusTimer,
        Effect::<String>::ClearSearch@ == Effect::<Seq<char>>::ClearSearch,
        Effect::<String>::BlockRowActivation@ == Effect::<Seq<char>>::BlockRowActivation,
        Effect::<String>::UnblockRowActivation@ == Effect::<Seq<char>>::UnblockRowActivation,
        Effect::<String>::ShowWindow@ == Effect::<Seq<char>>::ShowWindow,
        Effect::<String>::PresentWindow@ == Effect::<Seq<char>>::PresentWindow,
        Effect::<String>::HideWindow@ == Effect::<Seq<char>>::HideWindow,
        Effect::<String>::FocusList(list)@ == Effect::<Seq<char>>::FocusList(list),
        Effect::<String>::FocusSearch@ == Effect::<Seq<char>>::FocusSearch,
        Effect::<String>::RedrawSearch@ == Effect::<Seq<char>>::RedrawSearch,
        Effect::<String>::SignalPanel(flag)@ == Effect::<Seq<char>>::SignalPanel(flag),
        Effect::SaveFavorites(text)@ == Effect::SaveFavorites(text@),
        Effect::<String>::WatchDirectories@ == Effect::<Seq<char>>::WatchDirectories,
        Effect::<String>::ConnectWindow@ == Effect::<Seq<char>>::ConnectWindow,
        Effect::<String>::SelectRow(id)@ == Effect::<Seq<char>>::SelectRow(id),
        (Effect::<String>::MoveRow { row: id, to })@ == (Effect::<Seq<char>>::MoveRow {
            row: id,
            to,
        }),
        Effect::<String>::ShowContextMenu(idx)@ == Effect::<Seq<char>>::ShowContextMenu(idx),
        (Effect::<String>::Launch { idx, step })@ == (Effect::<Seq<char>>::Launch { idx, step }),
        Effect::RunShell(text)@ == Effect::RunShell(text@),
        Effect::ReportLaunchFailure(text)@ == Effect::ReportLaunchFailure(text@),
{
}

} // verus!
