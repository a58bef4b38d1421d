//! The command lines of the programs that the launcher starts.
use vstd::prelude::*;
use vstd::string::*;

use crate::text::same;
use crate::ui::LaunchStep;

verus! {

/// A program and the arguments that it is started with.
pub struct CommandLine {
    pub program: String,
    pub args: Vec<String>,
}

impl View for CommandLine {
    type V = (Seq<char>, Seq<Seq<char>>);

    open spec fn view(&self) -> (Seq<char>, Seq<Seq<char>>) {
        (self.program@, self.args.deep_view())
    }
}

/// A command line with one argument.
pub fn command_1(program: &str, a: &str) -> (r: CommandLine)
    ensures
        r@ == (program@, seq![a@]),
{
    let mut args: Vec<String> = Vec::new();
    args.push(a.to_owned());
    assert(args.deep_view() =~= seq![a@]);
    CommandLine { program: program.to_owned(), args }
}

/// A command line with two arguments.
pub fn command_2(program: &str, a: &str, b: &str) -> (r: CommandLine)
    ensures
        r@ == (program@, seq![a@, b@]),
{
    let mut args: Vec<String> = Vec::new();
    args.push(a.to_owned());
    args.push(b.to_owned());
    assert(args.deep_view() =~= seq![a@, b@]);
    CommandLine { program: program.to_owned(), args }
}

/// The command that starts the application `desktop_id` in the way `step`;
/// none where it is started by its desktop file.
pub fn launch_command(step: LaunchStep, desktop_id: &str) -> (r: Option<CommandLine>)
    ensures
        match step {
            LaunchStep::DesktopFile => r is None,
            LaunchStep::GtkLaunch => r matches Some(c) && c@ == ("gtk-launch"@, seq![desktop_id@]),
            LaunchStep::DbusLaunch => r matches Some(c) && c@ == (
                "dbus-launch"@,
                seq!["gtk-launch"@, desktop_id@],
            ),
        },
{
    match step {
        LaunchStep::DesktopFile => None,
        LaunchStep::GtkLaunch => Some(command_1("gtk-launch", desktop_id)),
        LaunchStep::DbusLaunch => Some(command_2("dbus-launch", "gtk-launch", desktop_id)),
    }
}

/// The command that lets the user's shell, or else `/bin/sh`, run `query`.
pub fn shell_command(shell: Option<&str>, query: &str) -> (r: CommandLine)
    ensures
        r@ == (
            match shell {
                Some(path) => path@,
                None => "/bin/sh"@,
            },
            seq!["-c"@, query@],
        ),
{
    let program = match shell {
        Some(path) => path,
        None => "/bin/sh",
    };
    command_2(program, "-c", query)
}

/// What `Path::parent` makes of a path.
pub uninterp spec fn parent_dir(path: Seq<char>) -> Option<Seq<char>>;

/// Calls `std::path::Path::parent`, which takes the final component off a
/// path, where there is one. The contract claims that the result depends on
/// the path alone, and names it.
#[verifier::external_body]
fn parent_of(path: &str) -> (r: Option<String>)
    ensures
        r.deep_view() == parent_dir(path@),
{
    match std::path::Path::new(path).parent() {
        Some(dir) => Some(dir.to_string_lossy().into_owned()),
        None => None,
    }
}

/// The command that opens the directory `dir`, where there is one.
pub fn open_dir(dir: Option<String>) -> (r: Option<CommandLine>)
    ensures
        match dir {
            Some(d) => r matches Some(c) && c@ == ("xdg-open"@, seq![d@]),
            None => r is None,
        },
{
    match dir {
        Some(d) => Some(command_1("xdg-open", d.as_str())),
        None => None,
    }
}

/// The command that opens the directory of the desktop file at
/// `desktop_path`.
pub fn open_file_location(desktop_path: &str) -> (r: Option<CommandLine>)
    ensures
        match parent_dir(desktop_path@) {
            Some(d) => r matches Some(c) && c@ == ("xdg-open"@, seq![d]),
            None => r is None,
        },
{
    open_dir(parent_of(desktop_path))
}

/// The context menu of an application.
pub struct ContextMenu {
    /// The label of the item that starts the application.
    pub launch_label: String,
    /// The label of the item that opens the directory of the desktop file.
    pub location_label: &'static str,
}

/// The context menu of the application `name`.
pub fn context_menu(name: &str) -> (r: ContextMenu)
    ensures
        r.launch_label@ == "Launch "@ + name@,
        r.location_label@ == "Open .desktop file location"@,
{
    let mut launch_label = "Launch ".to_owned();
    launch_label.append(name);
    ContextMenu { launch_label, location_label: "Open .desktop file location" }
}

/// Whether the launcher is told on its command line to start hidden.
pub fn starts_hidden(args: &Vec<String>) -> (r: bool)
    ensures
        r == args.deep_view().contains("--daemon"@),
{
    for i in 0..args.len()
        invariant
            forall|k: int| 0 <= k < i ==> args.deep_view()[k] != "--daemon"@,
    {
        if same(args[i].as_str(), "--daemon") {
            assert(args.deep_view()[i as int] == "--daemon"@);
            return true;
        }
    }
    false
}

} // verus!
