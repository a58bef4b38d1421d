use launcher::command::{
    context_menu, launch_command, open_dir, open_file_location, shell_command, starts_hidden,
};
use launcher::ui::LaunchStep;

#[test]
fn launch_commands() {
    assert!(launch_command(LaunchStep::DesktopFile, "a.desktop").is_none());
    let gtk = launch_command(LaunchStep::GtkLaunch, "a.desktop").unwrap();
    assert_eq!((gtk.program.as_str(), gtk.args), ("gtk-launch", vec!["a.desktop".to_string()]));
    let dbus = launch_command(LaunchStep::DbusLaunch, "a.desktop").unwrap();
    assert_eq!(dbus.program, "dbus-launch");
    assert_eq!(dbus.args, ["gtk-launch", "a.desktop"]);
}

#[test]
fn shell_defaults_to_sh() {
    let c = shell_command(None, "echo hi");
    assert_eq!(c.program, "/bin/sh");
    assert_eq!(c.args, ["-c", "echo hi"]);
    assert_eq!(shell_command(Some("/bin/zsh"), "x").program, "/bin/zsh");
}

#[test]
fn location_is_the_parent() {
    let c = open_file_location("/usr/share/applications/a.desktop").unwrap();
    assert_eq!(c.program, "xdg-open");
    assert_eq!(c.args, ["/usr/share/applications"]);
    assert!(open_file_location("/").is_none());
    assert!(open_file_location("").is_none());
    assert!(open_dir(None).is_none());
    assert_eq!(open_dir(Some("/x".to_string())).unwrap().args, ["/x"]);
}

#[test]
fn menu_labels() {
    let m = context_menu("Firefox");
    assert_eq!(m.launch_label, "Launch Firefox");
    assert_eq!(m.location_label, "Open .desktop file location");
}

#[test]
fn daemon_flag() {
    let args = |a: &[&str]| a.iter().map(|s| s.to_string()).collect::<Vec<String>>();
    assert!(starts_hidden(&args(&["launcher", "--daemon"])));
    assert!(!starts_hidden(&args(&["launcher"])));
    assert!(!starts_hidden(&args(&["launcher", "--daemon=1"])));
}
