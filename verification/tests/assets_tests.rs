use mechanix_shell::app_icon;
use mechanix_shell::notification_icon;
use mechanix_shell::status_icons::{
    battery_icon, bluetooth_icon, wireless_icon, BatteryState, LockState, StatusIconName,
};

#[test]
fn notification_icon_paths() {
    assert_eq!(notification_icon::IconName::Info.resolve(), "icons/notifications/info.svg");
    assert_eq!(notification_icon::IconName::Close.resolve(), "icons/notifications/close.svg");
    assert_eq!(
        notification_icon::IconName::Application.resolve(),
        "icons/notifications/audacity.svg"
    );
    assert_eq!(notification_icon::IconName::Navbar.resolve(), "icons/notifications/navbar.png");
}

#[test]
fn running_apps_icon_paths() {
    assert_eq!(app_icon::IconName::CleanUp.resolve(), "icons/running-apps/cleanup.svg");
    assert_eq!(app_icon::IconName::Files.resolve(), "icons/running-apps/files.png");
    assert_eq!(app_icon::IconName::BgApp.resolve(), "icons/running-apps/bg-app.png");
    assert_eq!(app_icon::IconName::Firefox.resolve(), "icons/running-apps/firefox.png");
    assert_eq!(app_icon::IconName::Chromium.resolve(), "icons/running-apps/chromium.png");
    assert_eq!(app_icon::IconName::Kitty.resolve(), "icons/running-apps/kitty.png");
    assert_eq!(app_icon::IconName::Mecha.resolve(), "icons/running-apps/mecha.png");
    assert_eq!(app_icon::IconName::Navbar.resolve(), "icons/running-apps/navbar.png");
}

#[test]
fn status_icon_paths() {
    assert_eq!(StatusIconName::WirelessHigh.resolve(), "icons/status-bar/wireless-high.svg");
    assert_eq!(StatusIconName::BluetoothConnected.resolve(), "icons/status-bar/bluetooth-connected.svg");
    assert_eq!(StatusIconName::Battery40Charging.resolve(), "icons/status-bar/battery-40-charging.svg");
    assert_eq!(StatusIconName::BatteryEmpty.resolve(), "icons/status-bar/battery-empty.svg");
}

#[test]
fn wireless_icon_by_strength() {
    assert_eq!(wireless_icon(false, 80), StatusIconName::WirelessOff);
    assert_eq!(wireless_icon(true, 0), StatusIconName::WirelessOn);
    assert_eq!(wireless_icon(true, 1), StatusIconName::WirelessLow);
    assert_eq!(wireless_icon(true, 30), StatusIconName::WirelessLow);
    assert_eq!(wireless_icon(true, 31), StatusIconName::WirelessMedium);
    assert_eq!(wireless_icon(true, 60), StatusIconName::WirelessMedium);
    assert_eq!(wireless_icon(true, 61), StatusIconName::WirelessHigh);
    assert_eq!(wireless_icon(true, 100), StatusIconName::WirelessHigh);
    assert_eq!(wireless_icon(true, 101), StatusIconName::WirelessOn);
    assert_eq!(wireless_icon(true, -5), StatusIconName::WirelessOn);
}

#[test]
fn bluetooth_icon_by_state() {
    assert_eq!(bluetooth_icon(false, 3), StatusIconName::BluetoothOff);
    assert_eq!(bluetooth_icon(true, 0), StatusIconName::BluetoothOn);
    assert_eq!(bluetooth_icon(true, 2), StatusIconName::BluetoothConnected);
}

#[test]
fn battery_icon_by_charge() {
    assert_eq!(battery_icon(BatteryState::Discharging, 0), StatusIconName::Battery10);
    assert_eq!(battery_icon(BatteryState::Discharging, 10), StatusIconName::Battery10);
    assert_eq!(battery_icon(BatteryState::Discharging, 11), StatusIconName::Battery20);
    assert_eq!(battery_icon(BatteryState::Discharging, 55), StatusIconName::Battery60);
    assert_eq!(battery_icon(BatteryState::Discharging, 100), StatusIconName::Battery100);
    assert_eq!(battery_icon(BatteryState::Discharging, 101), StatusIconName::BatteryEmpty);
    assert_eq!(battery_icon(BatteryState::Charging, 5), StatusIconName::Battery10Charging);
    assert_eq!(battery_icon(BatteryState::Charging, 90), StatusIconName::Battery90Charging);
    assert_eq!(battery_icon(BatteryState::Charging, 91), StatusIconName::Battery100Charging);
    assert_eq!(battery_icon(BatteryState::Charging, -1), StatusIconName::BatteryEmpty);
    assert_eq!(battery_icon(BatteryState::FullCharged, 3), StatusIconName::Battery100);
    assert_eq!(battery_icon(BatteryState::Empty, 80), StatusIconName::BatteryEmpty);
    assert_eq!(battery_icon(BatteryState::Unknown, 80), StatusIconName::BatteryEmpty);
}

#[test]
fn lock_icon_paths() {
    assert_eq!(LockState::Locked.icon_path(), "icons/lockscreen/lock.svg");
    assert_eq!(LockState::HalfOpen.icon_path(), "icons/lockscreen/lock-open-half.svg");
    assert_eq!(LockState::FullyOpen.icon_path(), "icons/lockscreen/lock-open-full.svg");
}
