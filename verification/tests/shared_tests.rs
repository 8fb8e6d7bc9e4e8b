use mechanix_shell::clock::{epoch_seconds, format_time_elapsed};
use mechanix_shell::config::{config_search_paths, dev_asset_relative, home_config_relative};
use mechanix_shell::context::{DesktopEntriesModel, DesktopEntry, SimpleContext};
use std::time::{Duration, SystemTime};

#[test]
fn simple_context_reads_shared_value() {
    let ctx = SimpleContext::new(vec![1, 2, 3]);
    assert_eq!(ctx.get(), &vec![1, 2, 3]);
}

#[test]
fn desktop_entries_model_holds_entries() {
    let model = DesktopEntriesModel::new(vec![DesktopEntry {
        app_id: "firefox".to_string(),
        name: "Firefox".to_string(),
        command: Some("firefox".to_string()),
        icon_path: None,
    }]);
    let entries = model.entries.get();
    assert_eq!(entries.len(), 1);
    assert_eq!(entries[0].app_id, "firefox");
}

#[test]
fn epoch_seconds_is_after_2020() {
    assert!(epoch_seconds() > 1_577_836_800);
}

#[test]
fn elapsed_since_system_time() {
    let now = SystemTime::now();
    assert_eq!(format_time_elapsed(now), "now");
    assert_eq!(format_time_elapsed(now - Duration::from_secs(600)), "10m");
    assert_eq!(format_time_elapsed(now - Duration::from_secs(7300)), "2h");
    assert_eq!(format_time_elapsed(now - Duration::from_secs(3 * 86400 + 10)), "3d");
    assert_eq!(format_time_elapsed(now + Duration::from_secs(3600)), "now");
}

#[test]
fn config_paths_in_merge_order() {
    let paths = config_search_paths(
        "settings.toml",
        Some("/src/assets/settings.toml".to_string()),
        Some("/home/me/.config/mechanix/launcher/assets/settings.toml".to_string()),
    );
    assert_eq!(
        paths,
        vec![
            "/src/assets/settings.toml",
            "/usr/share/mechanix/launcher/assets/settings.toml",
            "/etc/mechanix/launcher/assets/settings.toml",
            "/home/me/.config/mechanix/launcher/assets/settings.toml",
        ]
    );
    let bare = config_search_paths("a.toml", None, None);
    assert_eq!(
        bare,
        vec!["/usr/share/mechanix/launcher/assets/a.toml", "/etc/mechanix/launcher/assets/a.toml"]
    );
}

#[test]
fn relative_config_locations() {
    assert_eq!(dev_asset_relative("settings.toml"), "../../../assets/settings.toml");
    assert_eq!(home_config_relative("x.toml"), ".config/mechanix/launcher/assets/x.toml");
}
