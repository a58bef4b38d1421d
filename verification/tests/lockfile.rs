use launcher::lockfile::{
    after_probe, cleanup_lock, fast_path, read_pid, signal_waybar, write_lock, FastPath, LockFile,
    LOCK_FILE,
};

#[test]
fn lock_file_is_in_tmp() {
    assert_eq!(LOCK_FILE, "/tmp/launcher.lock");
}

#[test]
fn no_lock_starts() {
    assert_eq!(fast_path(&LockFile::Absent, 10), FastPath::Start);
}

#[test]
fn broken_lock_is_removed() {
    assert_eq!(fast_path(&LockFile::Unreadable, 10), FastPath::RemoveAndStart);
    assert_eq!(fast_path(&LockFile::Text(""), 10), FastPath::RemoveAndStart);
    assert_eq!(fast_path(&LockFile::Text("\n123"), 10), FastPath::RemoveAndStart);
    assert_eq!(fast_path(&LockFile::Text("pid 12"), 10), FastPath::RemoveAndStart);
    assert_eq!(fast_path(&LockFile::Text("2147483648"), 10), FastPath::RemoveAndStart);
}

#[test]
fn other_process_is_probed() {
    assert_eq!(fast_path(&LockFile::Text("123"), 10), FastPath::Probe(123));
    assert_eq!(fast_path(&LockFile::Text("  123 \r\nvisible"), 10), FastPath::Probe(123));
    assert_eq!(after_probe(123, true), FastPath::SignalAndExit(123));
    assert_eq!(after_probe(123, false), FastPath::RemoveAndStart);
}

#[test]
fn own_lock_is_kept() {
    assert_eq!(fast_path(&LockFile::Text("10\nhidden"), 10), FastPath::Start);
}

#[test]
fn written_lock_names_the_writer() {
    let update = write_lock(4711);
    assert_eq!(update.contents.as_deref(), Some("4711"));
    assert!(update.notify.is_none());
    assert_eq!(read_pid(update.contents.as_deref().unwrap()), Some(4711));
}

#[test]
fn status_follows_the_number() {
    let shown = signal_waybar(4711, true);
    assert_eq!(shown.contents.as_deref(), Some("4711\nvisible"));
    let hidden = signal_waybar(4711, false);
    assert_eq!(hidden.contents.as_deref(), Some("4711\nhidden"));
    let notify = hidden.notify.unwrap();
    assert_eq!(notify.program, "pkill");
    assert_eq!(notify.args, ["-RTMIN+8", "waybar"]);
    assert_eq!(
        fast_path(&LockFile::Text(hidden.contents.as_deref().unwrap()), 5),
        FastPath::Probe(4711)
    );
}

#[test]
fn cleanup_removes_and_notifies() {
    let update = cleanup_lock();
    assert!(update.contents.is_none());
    let notify = update.notify.unwrap();
    assert_eq!(notify.program, "pkill");
    assert_eq!(notify.args, ["-RTMIN+8", "waybar"]);
}
