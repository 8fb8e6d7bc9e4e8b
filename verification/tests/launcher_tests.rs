use mechanix_shell::launcher::{
    find_app_window, on_launcher_message, start_command, LauncherAction, LauncherMessage,
};

fn windows() -> Vec<Option<String>> {
    vec![None, Some("kitty".to_string()), Some("Firefox".to_string()), Some("firefox".to_string())]
}

#[test]
fn finds_first_window_ignoring_case() {
    assert_eq!(find_app_window("firefox", &windows()), Some(2));
    assert_eq!(find_app_window("FIREFOX", &windows()), Some(2));
    assert_eq!(find_app_window("Kitty", &windows()), Some(1));
    assert_eq!(find_app_window("files", &windows()), None);
    assert_eq!(find_app_window("x", &Vec::new()), None);
}

#[test]
fn start_command_wraps_in_shell() {
    assert_eq!(
        start_command("firefox --new-window"),
        Some(("sh".to_string(), vec!["-c".to_string(), "firefox --new-window".to_string()]))
    );
    assert_eq!(start_command(""), None);
}

#[test]
fn launch_activates_open_window() {
    let msg = LauncherMessage::LaunchApp { app_id: "KITTY".to_string(), exec_line: "kitty".to_string() };
    assert!(matches!(on_launcher_message(msg, &windows()), LauncherAction::Activate(1)));
}

#[test]
fn launch_starts_missing_app() {
    let msg = LauncherMessage::LaunchApp { app_id: "files".to_string(), exec_line: "nautilus".to_string() };
    match on_launcher_message(msg, &windows()) {
        LauncherAction::Spawn { command, args } => {
            assert_eq!(command, "sh");
            assert_eq!(args, vec!["-c".to_string(), "nautilus".to_string()]);
        }
        _ => panic!("expected Spawn"),
    }
    let empty = LauncherMessage::LaunchApp { app_id: "files".to_string(), exec_line: String::new() };
    assert!(matches!(on_launcher_message(empty, &windows()), LauncherAction::Nothing));
}

#[test]
fn home_minimizes_and_others_ignored() {
    assert!(matches!(on_launcher_message(LauncherMessage::MinimizeToHome, &windows()), LauncherAction::MinimizeAll));
    assert!(matches!(on_launcher_message(LauncherMessage::Other, &windows()), LauncherAction::Nothing));
}
