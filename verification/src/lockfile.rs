//! The lock file that names the running daemon, and the status that the
//! panel reads from it.
use vstd::prelude::*;
use vstd::string::*;

use crate::command::{command_2, CommandLine};
use crate::text::{self, chars_of, find_mark, parse_i32, push_decimal, trim};

verus! {

pub const LOCK_FILE: &'static str = "/tmp/launcher.lock";

/// What was found at the path of the lock file.
pub enum LockFile<'a> {
    Absent,
    Unreadable,
    Text(&'a str),
}

/// What a starting launcher does about the lock file that it found.
#[derive(Debug, Clone, Copy, PartialEq, Eq)]
pub enum FastPath {
    /// Start, and leave the file alone.
    Start,
    /// Remove the file, then start.
    RemoveAndStart,
    /// Ask whether the process of this number is alive.
    Probe(i32),
    /// Send the process of this number the toggle signal, and exit.
    SignalAndExit(i32),
}

/// What is done to the lock file, and the command that follows.
pub struct LockUpdate {
    /// The text to write, or none where the file is removed.
    pub contents: Option<String>,
    /// The command that makes the panel read the file again.
    pub notify: Option<CommandLine>,
}

/// The process number on the first line of the lock file.
pub open spec fn lock_pid(text: Seq<char>) -> Option<i32> {
    text::i32_value(text::trimmed(text.take(text::cut(text, '\n') as int)))
}

/// The text of the lock file that only names the process.
pub open spec fn lock_text(pid: u32) -> Seq<char> {
    text::decimal(pid as nat)
}

/// The text of the lock file that names the process and says whether its
/// window is shown.
pub open spec fn status_text(pid: u32, visible: bool) -> Seq<char> {
    lock_text(pid) + seq!['\n'] + (if visible {
        "visible"@
    } else {
        "hidden"@
    })
}

/// The command that makes the panel read the lock file again.
pub open spec fn notify_command() -> (Seq<char>, Seq<Seq<char>>) {
    ("pkill"@, seq!["-RTMIN+8"@, "waybar"@])
}

/// The first step of a starting launcher, for the process number `own` of the
/// launcher itself.
pub open spec fn first_step(lock: LockFile, own: u32) -> FastPath {
    match lock {
        LockFile::Absent => FastPath::Start,
        LockFile::Unreadable => FastPath::RemoveAndStart,
        LockFile::Text(text) => match lock_pid(text@) {
            None => FastPath::RemoveAndStart,
            Some(pid) => if pid == own as i32 {
                FastPath::Start
            } else {
                FastPath::Probe(pid)
            },
        },
    }
}

/// The step that follows once the process `pid` has been probed.
pub open spec fn probed_step(pid: i32, alive: bool) -> FastPath {
    if alive {
        FastPath::SignalAndExit(pid)
    } else {
        FastPath::RemoveAndStart
    }
}

/// Decides from the lock file what a starting launcher does first.
pub fn fast_path(lock: &LockFile, own: u32) -> (r: FastPath)
    ensures
        r == first_step(*lock, own),
{
    match lock {
        LockFile::Absent => FastPath::Start,
        LockFile::Unreadable => FastPath::RemoveAndStart,
        LockFile::Text(text) => {
            match read_pid(text) {
                None => FastPath::RemoveAndStart,
                Some(pid) => {
                    let own_pid: i32 = #[verifier::truncate]
                    (own as i32);
                    if pid == own_pid {
                        FastPath::Start
                    } else {
                        FastPath::Probe(pid)
                    }
                },
            }
        },
    }
}

/// Decides what follows once the process `pid` has been probed.
pub fn after_probe(pid: i32, alive: bool) -> (r: FastPath)
    ensures
        r == probed_step(pid, alive),
{
    if alive {
        FastPath::SignalAndExit(pid)
    } else {
        FastPath::RemoveAndStart
    }
}

/// The process number on the first line of `text`.
pub fn read_pid(text: &str) -> (r: Option<i32>)
    ensures
        r == lock_pid(text@),
{
    let chars = chars_of(text);
    let end = find_mark(&chars, '\n', 0);
    assert(text@.skip(0) =~= text@);
    assert(text@.take(end as int) =~= text@.subrange(0, end as int));
    parse_i32(trim(text.substring_char(0, end)))
}

/// The lock file of a daemon that has just started as process `pid`.
pub fn write_lock(pid: u32) -> (r: LockUpdate)
    ensures
        r.contents matches Some(text) && text@ == lock_text(pid),
        r.notify is None,
{
    let mut text = String::new();
    push_decimal(&mut text, pid);
    assert(text@ =~= lock_text(pid));
    LockUpdate { contents: Some(text), notify: None }
}

/// The lock file of the process `pid` once its window is shown or hidden.
pub fn signal_waybar(pid: u32, visible: bool) -> (r: LockUpdate)
    ensures
        r.contents matches Some(text) && text@ == status_text(pid, visible),
        r.notify matches Some(command) && command@ == notify_command(),
{
    let mut text = String::new();
    push_decimal(&mut text, pid);
    proof {
        reveal_strlit("\n");
    }
    assert("\n"@ =~= seq!['\n']);
    text.append("\n");
    text.append(
        if visible {
            "visible"
        } else {
            "hidden"
        },
    );
    assert(text@ =~= status_text(pid, visible));
    LockUpdate { contents: Some(text), notify: Some(command_2("pkill", "-RTMIN+8", "waybar")) }
}

/// The lock file is removed, and the panel told so.
pub fn cleanup_lock() -> (r: LockUpdate)
    ensures
        r.contents is None,
        r.notify matches Some(command) && command@ == notify_command(),
{
    LockUpdate { contents: None, notify: Some(command_2("pkill", "-RTMIN+8", "waybar")) }
}

/// Digits are not white space, nor a sign.
proof fn lemma_decimal_plain(n: nat)
    ensures
        text::trimmed(text::decimal(n)) == text::decimal(n),
        text::unsigned_part(text::decimal(n)) == text::decimal(n),
{
    text::lemma_decimal_value(n);
    let s = text::decimal(n);
    assert('0' <= s[0] <= '9');
    assert('0' <= s[s.len() - 1] <= '9');
}

/// The first line ends at the first newline.
proof fn lemma_cut_after(s: Seq<char>, mark: char, rest: Seq<char>)
    requires
        forall|i: int| 0 <= i < s.len() ==> s[i] != mark,
        rest.len() > 0 ==> rest[0] == mark,
    ensures
        text::cut(s + rest, mark) == s.len(),
    decreases s.len(),
{
    if s.len() > 0 {
        assert((s + rest).drop_first() =~= s.drop_first() + rest);
        lemma_cut_after(s.drop_first(), mark, rest);
    } else {
        assert(s + rest =~= rest);
    }
}

/// Whatever a daemon writes into the lock file, a reader finds the daemon's
/// process number there.
pub proof fn law_lock_names_its_writer(pid: u32, visible: bool)
    requires
        pid <= i32::MAX,
    ensures
        lock_pid(lock_text(pid)) == Some(pid as i32),
        lock_pid(status_text(pid, visible)) == Some(pid as i32),
{
    let digits = text::decimal(pid as nat);
    let status = if visible {
        "visible"@
    } else {
        "hidden"@
    };
    let rest = seq!['\n'] + status;
    text::lemma_decimal_value(pid as nat);
    lemma_decimal_plain(pid as nat);
    assert('0' <= digits[0] <= '9');
    lemma_cut_after(digits, '\n', Seq::<char>::empty());
    assert(digits + Seq::<char>::empty() =~= digits);
    assert(digits.take(digits.len() as int) =~= digits);
    lemma_cut_after(digits, '\n', rest);
    assert(digits + rest =~= status_text(pid, visible));
    assert((digits + rest).take(digits.len() as int) =~= digits);
}

/// While a daemon lives, a second launcher that finds any lock file of it
/// signals it and exits; once it is dead, the second launcher removes the
/// file and starts.
pub proof fn law_second_launcher_yields(daemon: u32, visible: bool, own: u32, text: &str)
    requires
        daemon <= i32::MAX,
        own <= i32::MAX,
        daemon != own,
        text@ == lock_text(daemon) || text@ == status_text(daemon, visible),
    ensures
        first_step(LockFile::Text(text), own) == FastPath::Probe(daemon as i32),
        probed_step(daemon as i32, true) == FastPath::SignalAndExit(daemon as i32),
        probed_step(daemon as i32, false) == FastPath::RemoveAndStart,
{
    law_lock_names_its_writer(daemon, visible);
}

/// A launcher that finds its own lock file starts and leaves it alone.
pub proof fn law_own_lock_is_kept(own: u32, visible: bool, text: &str)
    requires
        own <= i32::MAX,
        text@ == lock_text(own) || text@ == status_text(own, visible),
    ensures
        first_step(LockFile::Text(text), own) == FastPath::Start,
{
    law_lock_names_its_writer(own, visible);
}

/// The first line of the lock file decides, whatever follows it.
pub proof fn law_first_line_decides(line: Seq<char>, rest: Seq<char>)
    requires
        forall|i: int| 0 <= i < line.len() ==> line[i] != '\n',
    ensures
        lock_pid(line) == text::i32_value(text::trimmed(line)),
        lock_pid(line + seq!['\n'] + rest) == lock_pid(line),
{
    lemma_cut_after(line, '\n', Seq::<char>::empty());
    assert(line + Seq::<char>::empty() =~= line);
    assert(line.take(line.len() as int) =~= line);
    lemma_cut_after(line, '\n', seq!['\n'] + rest);
    assert(line + (seq!['\n'] + rest) =~= line + seq!['\n'] + rest);
    assert((line + seq!['\n'] + rest).take(line.len() as int) =~= line);
}

/// A launcher starts where there is no lock file or the file is its own; it
/// removes a file that it cannot read or that names no process, and probes
/// the process of any other: a living one is signalled, the file of a dead
/// one removed.
pub proof fn law_lock_file_decides(own: u32, text: &str, other: i32)
    ensures
        probed_step(other, true) == FastPath::SignalAndExit(other),
        probed_step(other, false) == FastPath::RemoveAndStart,
        first_step(LockFile::Absent, own) == FastPath::Start,
        first_step(LockFile::Unreadable, own) == FastPath::RemoveAndStart,
        lock_pid(text@) is None ==> first_step(LockFile::Text(text), own)
            == FastPath::RemoveAndStart,
        lock_pid(text@) matches Some(pid) ==> first_step(LockFile::Text(text), own) == (if pid
            == own as i32 {
            FastPath::Start
        } else {
            FastPath::Probe(pid)
        }),
{
}

/// The second line of the lock file says whether the window is shown.
pub proof fn law_status_follows_the_process(pid: u32)
    ensures
        status_text(pid, true) == lock_text(pid) + seq!['\n'] + "visible"@,
        status_text(pid, false) == lock_text(pid) + seq!['\n'] + "hidden"@,
        text::all_digits(lock_text(pid)),
        text::digits_value(lock_text(pid)) == pid,
{
    text::lemma_decimal_value(pid as nat);
}

} // verus!
