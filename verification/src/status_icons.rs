//! The lock screen's status icons: which wireless, bluetooth and battery
//! icon the current device state selects, where each icon's asset lives,
//! and the lock icon of each slider state.
use vstd::prelude::*;
use crate::text::join_text;

verus! {

/// The icons of the lock screen's status corner.
#[derive(Clone, Copy, Debug, PartialEq, Eq, Structural)]
pub enum StatusIconName {
    WirelessOn,
    WirelessOff,
    WirelessHigh,
    WirelessMedium,
    WirelessLow,
    BluetoothOn,
    BluetoothOff,
    BluetoothConnected,
    Battery10,
    Battery20,
    Battery30,
    Battery40,
    Battery50,
    Battery60,
    Battery70,
    Battery80,
    Battery90,
    Battery100,
    BatteryEmpty,
    Battery10Charging,
    Battery20Charging,
    Battery30Charging,
    Battery40Charging,
    Battery50Charging,
    Battery60Charging,
    Battery70Charging,
    Battery80Charging,
    Battery90Charging,
    Battery100Charging,
}

/// The charge state the power service reports for the battery.
#[derive(Clone, Copy, Debug, PartialEq, Eq, Structural)]
pub enum BatteryState {
    Unknown,
    Charging,
    Discharging,
    Empty,
    FullCharged,
    PendingCharge,
    PendingDischarge,
}

impl StatusIconName {
    /// The asset file of the icon, inside the status-bar icon directory.
    pub open spec fn file_name(self) -> Seq<char> {
        match self {
            StatusIconName::WirelessOn => "wireless-on.svg"@,
            StatusIconName::WirelessOff => "wireless-off.svg"@,
            StatusIconName::WirelessHigh => "wireless-high.svg"@,
            StatusIconName::WirelessMedium => "wireless-medium.svg"@,
            StatusIconName::WirelessLow => "wireless-low.svg"@,
            StatusIconName::BluetoothOn => "bluetooth-on.svg"@,
            StatusIconName::BluetoothOff => "bluetooth-off.svg"@,
            StatusIconName::BluetoothConnected => "bluetooth-connected.svg"@,
            StatusIconName::Battery10 => "battery-10.svg"@,
            StatusIconName::Battery20 => "battery-20.svg"@,
            StatusIconName::Battery30 => "battery-30.svg"@,
            StatusIconName::Battery40 => "battery-40.svg"@,
            StatusIconName::Battery50 => "battery-50.svg"@,
            StatusIconName::Battery60 => "battery-60.svg"@,
            StatusIconName::Battery70 => "battery-70.svg"@,
            StatusIconName::Battery80 => "battery-80.svg"@,
            StatusIconName::Battery90 => "battery-90.svg"@,
            StatusIconName::Battery100 => "battery-100.svg"@,
            StatusIconName::BatteryEmpty => "battery-empty.svg"@,
            StatusIconName::Battery10Charging => "battery-10-charging.svg"@,
            StatusIconName::Battery20Charging => "battery-20-charging.svg"@,
            StatusIconName::Battery30Charging => "battery-30-charging.svg"@,
            StatusIconName::Battery40Charging => "battery-40-charging.svg"@,
            StatusIconName::Battery50Charging => "battery-50-charging.svg"@,
            StatusIconName::Battery60Charging => "battery-60-charging.svg"@,
            StatusIconName::Battery70Charging => "battery-70-charging.svg"@,
            StatusIconName::Battery80Charging => "battery-80-charging.svg"@,
            StatusIconName::Battery90Charging => "battery-90-charging.svg"@,
            StatusIconName::Battery100Charging => "battery-100-charging.svg"@,
        }
    }

    /// The asset path of the icon.
    pub open spec fn resolved(self) -> Seq<char> {
        "icons/status-bar/"@ + self.file_name()
    }

    /// The asset path of the icon: the status-bar icon directory followed by
    /// the icon's file.
    pub fn resolve(&self) -> (r: String)
        ensures
            r@ == self.resolved(),
    {
        let file = match self {
            StatusIconName::WirelessOn => "wireless-on.svg",
            StatusIconName::WirelessOff => "wireless-off.svg",
            StatusIconName::WirelessHigh => "wireless-high.svg",
            StatusIconName::WirelessMedium => "wireless-medium.svg",
            StatusIconName::WirelessLow => "wireless-low.svg",
            StatusIconName::BluetoothOn => "bluetooth-on.svg",
            StatusIconName::BluetoothOff => "bluetooth-off.svg",
            StatusIconName::BluetoothConnected => "bluetooth-connected.svg",
            StatusIconName::Battery10 => "battery-10.svg",
            StatusIconName::Battery20 => "battery-20.svg",
            StatusIconName::Battery30 => "battery-30.svg",
            StatusIconName::Battery40 => "battery-40.svg",
            StatusIconName::Battery50 => "battery-50.svg",
            StatusIconName::Battery60 => "battery-60.svg",
            StatusIconName::Battery70 => "battery-70.svg",
            StatusIconName::Battery80 => "battery-80.svg",
            StatusIconName::Battery90 => "battery-90.svg",
            StatusIconName::Battery100 => "battery-100.svg",
            StatusIconName::BatteryEmpty => "battery-empty.svg",
            StatusIconName::Battery10Charging => "battery-10-charging.svg",
            StatusIconName::Battery20Charging => "battery-20-charging.svg",
            StatusIconName::Battery30Charging => "battery-30-charging.svg",
            StatusIconName::Battery40Charging => "battery-40-charging.svg",
            StatusIconName::Battery50Charging => "battery-50-charging.svg",
            StatusIconName::Battery60Charging => "battery-60-charging.svg",
            StatusIconName::Battery70Charging => "battery-70-charging.svg",
            StatusIconName::Battery80Charging => "battery-80-charging.svg",
            StatusIconName::Battery90Charging => "battery-90-charging.svg",
            StatusIconName::Battery100Charging => "battery-100-charging.svg",
        };
        join_text("icons/status-bar/", file)
    }
}

/// The wireless icon: off when the radio is off; when it is on, the signal
/// strength of the connected network (0 with none) picks low (1 to 30),
/// medium (31 to 60) or high (61 to 100), and the plain "on" icon otherwise.
pub open spec fn wireless_icon_for(enabled: bool, strength: i32) -> StatusIconName {
    if !enabled {
        StatusIconName::WirelessOff
    } else if 1 <= strength <= 30 {
        StatusIconName::WirelessLow
    } else if 31 <= strength <= 60 {
        StatusIconName::WirelessMedium
    } else if 61 <= strength <= 100 {
        StatusIconName::WirelessHigh
    } else {
        StatusIconName::WirelessOn
    }
}

/// Chooses the wireless icon for the radio state and signal strength.
pub fn wireless_icon(enabled: bool, strength: i32) -> (r: StatusIconName)
    ensures
        r == wireless_icon_for(enabled, strength),
{
    if !enabled {
        StatusIconName::WirelessOff
    } else if 1 <= strength && strength <= 30 {
        StatusIconName::WirelessLow
    } else if 31 <= strength && strength <= 60 {
        StatusIconName::WirelessMedium
    } else if 61 <= strength && strength <= 100 {
        StatusIconName::WirelessHigh
    } else {
        StatusIconName::WirelessOn
    }
}

/// The bluetooth icon: off, on, or connected when at least one device is.
pub open spec fn bluetooth_icon_for(enabled: bool, connected_devices: u32) -> StatusIconName {
    if !enabled {
        StatusIconName::BluetoothOff
    } else if connected_devices > 0 {
        StatusIconName::BluetoothConnected
    } else {
        StatusIconName::BluetoothOn
    }
}

/// Chooses the bluetooth icon for the radio state and the number of
/// connected devices.
pub fn bluetooth_icon(enabled: bool, connected_devices: u32) -> (r: StatusIconName)
    ensures
        r == bluetooth_icon_for(enabled, connected_devices),
{
    if !enabled {
        StatusIconName::BluetoothOff
    } else if connected_devices > 0 {
        StatusIconName::BluetoothConnected
    } else {
        StatusIconName::BluetoothOn
    }
}

/// The tens step of a charge percentage in 0..=100: 1 for 0 to 10, then one
/// step per started ten (11 to 20 is 2, ..., 91 to 100 is 10).
pub open spec fn charge_step(percent: int) -> int {
    if percent <= 10 {
        1
    } else {
        (percent + 9) / 10
    }
}

/// The battery icon of a charge step while charging or not.
pub open spec fn level_icon(step: int, charging: bool) -> StatusIconName {
    if charging {
        if step == 1 {
            StatusIconName::Battery10Charging
        } else if step == 2 {
            StatusIconName::Battery20Charging
        } else if step == 3 {
            StatusIconName::Battery30Charging
        } else if step == 4 {
            StatusIconName::Battery40Charging
        } else if step == 5 {
            StatusIconName::Battery50Charging
        } else if step == 6 {
            StatusIconName::Battery60Charging
        } else if step == 7 {
            StatusIconName::Battery70Charging
        } else if step == 8 {
            StatusIconName::Battery80Charging
        } else if step == 9 {
            StatusIconName::Battery90Charging
        } else {
            StatusIconName::Battery100Charging
        }
    } else {
        if step == 1 {
            StatusIconName::Battery10
        } else if step == 2 {
            StatusIconName::Battery20
        } else if step == 3 {
            StatusIconName::Battery30
        } else if step == 4 {
            StatusIconName::Battery40
        } else if step == 5 {
            StatusIconName::Battery50
        } else if step == 6 {
            StatusIconName::Battery60
        } else if step == 7 {
            StatusIconName::Battery70
        } else if step == 8 {
            StatusIconName::Battery80
        } else if step == 9 {
            StatusIconName::Battery90
        } else {
            StatusIconName::Battery100
        }
    }
}

/// The battery icon: while charging or discharging, the icon of the charge
/// step of a percentage in 0..=100 (the empty icon for any other value);
/// full when fully charged; empty otherwise.
pub open spec fn battery_icon_for(state: BatteryState, percent: i32) -> StatusIconName {
    match state {
        BatteryState::Charging | BatteryState::Discharging => {
            if 0 <= percent <= 100 {
                level_icon(charge_step(percent as int), state == BatteryState::Charging)
            } else {
                StatusIconName::BatteryEmpty
            }
        },
        BatteryState::FullCharged => StatusIconName::Battery100,
        _ => StatusIconName::BatteryEmpty,
    }
}

fn level_icon_of(step: i32, charging: bool) -> (r: StatusIconName)
    requires
        1 <= step <= 10,
    ensures
        r == level_icon(step as int, charging),
{
    if charging {
        match step {
            1 => StatusIconName::Battery10Charging,
            2 => StatusIconName::Battery20Charging,
            3 => StatusIconName::Battery30Charging,
            4 => StatusIconName::Battery40Charging,
            5 => StatusIconName::Battery50Charging,
            6 => StatusIconName::Battery60Charging,
            7 => StatusIconName::Battery70Charging,
            8 => StatusIconName::Battery80Charging,
            9 => StatusIconName::Battery90Charging,
            _ => StatusIconName::Battery100Charging,
        }
    } else {
        match step {
            1 => StatusIconName::Battery10,
            2 => StatusIconName::Battery20,
            3 => StatusIconName::Battery30,
            4 => StatusIconName::Battery40,
            5 => StatusIconName::Battery50,
            6 => StatusIconName::Battery60,
            7 => StatusIconName::Battery70,
            8 => StatusIconName::Battery80,
            9 => StatusIconName::Battery90,
            _ => StatusIconName::Battery100,
        }
    }
}

/// Chooses the battery icon for the charge state and percentage.
pub fn battery_icon(state: BatteryState, percent: i32) -> (r: StatusIconName)
    ensures
        r == battery_icon_for(state, percent),
{
    match state {
        BatteryState::Charging | BatteryState::Discharging => {
            if 0 <= percent && percent <= 100 {
                let step: i32 = if percent <= 10 {
                    1
                } else {
                    (percent + 9) / 10
                };
                let charging = match state {
                    BatteryState::Charging => true,
                    _ => false,
                };
                level_icon_of(step, charging)
            } else {
                StatusIconName::BatteryEmpty
            }
        },
        BatteryState::FullCharged => StatusIconName::Battery100,
        _ => StatusIconName::BatteryEmpty,
    }
}

/// The lock icon's state, from the unlock slider's position.
#[derive(Clone, Copy, Debug, PartialEq, Eq, Structural)]
pub enum LockState {
    /// At rest.
    Locked,
    /// Dragged, but not beyond the unlock threshold.
    HalfOpen,
    /// Dragged beyond the unlock threshold.
    FullyOpen,
}

impl LockState {
    /// The asset path of the lock icon in this state.
    pub open spec fn icon_path_of(self) -> Seq<char> {
        match self {
            LockState::Locked => "icons/lockscreen/lock.svg"@,
            LockState::HalfOpen => "icons/lockscreen/lock-open-half.svg"@,
            LockState::FullyOpen => "icons/lockscreen/lock-open-full.svg"@,
        }
    }

    /// The asset path of the lock icon in this state.
    pub fn icon_path(&self) -> (r: &'static str)
        ensures
            r@ == self.icon_path_of(),
    {
        match self {
            LockState::Locked => "icons/lockscreen/lock.svg",
            LockState::HalfOpen => "icons/lockscreen/lock-open-half.svg",
            LockState::FullyOpen => "icons/lockscreen/lock-open-full.svg",
        }
    }
}

/// The charge level a battery icon shows, in percent: 0 for the empty
/// icon, -1 for an icon that is not a battery icon.
pub open spec fn battery_level(i: StatusIconName) -> int {
    match i {
        StatusIconName::Battery10 | StatusIconName::Battery10Charging => 10,
        StatusIconName::Battery20 | StatusIconName::Battery20Charging => 20,
        StatusIconName::Battery30 | StatusIconName::Battery30Charging => 30,
        StatusIconName::Battery40 | StatusIconName::Battery40Charging => 40,
        StatusIconName::Battery50 | StatusIconName::Battery50Charging => 50,
        StatusIconName::Battery60 | StatusIconName::Battery60Charging => 60,
        StatusIconName::Battery70 | StatusIconName::Battery70Charging => 70,
        StatusIconName::Battery80 | StatusIconName::Battery80Charging => 80,
        StatusIconName::Battery90 | StatusIconName::Battery90Charging => 90,
        StatusIconName::Battery100 | StatusIconName::Battery100Charging => 100,
        StatusIconName::BatteryEmpty => 0,
        _ => -1,
    }
}

/// Whether a battery icon shows the charging bolt.
pub open spec fn shows_charging(i: StatusIconName) -> bool {
    match i {
        StatusIconName::Battery10Charging | StatusIconName::Battery20Charging
        | StatusIconName::Battery30Charging | StatusIconName::Battery40Charging
        | StatusIconName::Battery50Charging | StatusIconName::Battery60Charging
        | StatusIconName::Battery70Charging | StatusIconName::Battery80Charging
        | StatusIconName::Battery90Charging | StatusIconName::Battery100Charging => true,
        _ => false,
    }
}

/// While the battery charges or discharges at a percentage in 0..=100, its
/// icon shows the bolt exactly when it charges, and shows the level rounded
/// up to the next ten (at least 10): a multiple of ten, at least the
/// percentage and below it plus ten.
pub proof fn law_battery_icon_level(state: BatteryState, percent: i32)
    requires
        state == BatteryState::Charging || state == BatteryState::Discharging,
        0 <= percent <= 100,
    ensures
        shows_charging(battery_icon_for(state, percent)) == (state == BatteryState::Charging),
        battery_level(battery_icon_for(state, percent)) % 10 == 0,
        battery_level(battery_icon_for(state, percent)) >= 10,
        battery_level(battery_icon_for(state, percent)) >= percent,
        battery_level(battery_icon_for(state, percent)) < (if percent == 0 { 1 } else { percent as int }) + 10,
{
}

/// A fully charged battery shows the full icon without the bolt; an empty
/// or unknown one shows the empty icon.
pub proof fn law_battery_icon_full_empty(state: BatteryState, percent: i32)
    ensures
        state == BatteryState::FullCharged ==> battery_level(battery_icon_for(state, percent)) == 100
            && !shows_charging(battery_icon_for(state, percent)),
        state != BatteryState::FullCharged && state != BatteryState::Charging && state
            != BatteryState::Discharging ==> battery_icon_for(state, percent) == StatusIconName::BatteryEmpty,
{
}

/// How strong a signal a wireless icon shows: 0 for off, 1 for on without
/// a known strength, then 2, 3 and 4 for low, medium and high.
pub open spec fn signal_rank(i: StatusIconName) -> int {
    match i {
        StatusIconName::WirelessOff => 0,
        StatusIconName::WirelessOn => 1,
        StatusIconName::WirelessLow => 2,
        StatusIconName::WirelessMedium => 3,
        StatusIconName::WirelessHigh => 4,
        _ => -1,
    }
}

/// With the radio on, a stronger signal in 1..=100 never shows a weaker
/// icon; low covers strengths up to 30, high those above 60; the radio
/// off always shows the off icon, and no strength in 1..=100 shows the
/// plain on icon.
pub proof fn law_wireless_icon_order(enabled: bool, s: i32, t: i32)
    ensures
        !enabled ==> wireless_icon_for(enabled, s) == StatusIconName::WirelessOff,
        enabled && 1 <= s <= t <= 100 ==> 2 <= signal_rank(wireless_icon_for(enabled, s)) <= signal_rank(
            wireless_icon_for(enabled, t),
        ),
        enabled && 1 <= s <= 30 ==> wireless_icon_for(enabled, s) == StatusIconName::WirelessLow,
        enabled && 60 < s <= 100 ==> wireless_icon_for(enabled, s) == StatusIconName::WirelessHigh,
        enabled && !(1 <= s <= 100) ==> wireless_icon_for(enabled, s) == StatusIconName::WirelessOn,
{
}

} // verus!
