//! Battery readings common to every vendor, and the generic Linux driver.
use vstd::prelude::*;
use vstd::string::*;
use crate::text::{str_equals, to_chars, trim, trim_chars};

verus! {

/// What a battery driver reports besides the charge level: whether it charges, its
/// charge thresholds and the vendor's name.
pub struct BatteryState {
    pub is_charging: bool,
    pub start_threshold: Option<u8>,
    pub stop_threshold: Option<u8>,
    pub vendor: String,
}

/// A battery charges when its `status` file, trimmed, reads `Charging`; an unreadable
/// file reads as `Unknown`.
pub open spec fn charging_status(status: Option<Seq<char>>) -> bool {
    match status {
        Some(s) => trim(s) == "Charging"@,
        None => false,
    }
}

pub fn is_charging(status: Option<&str>) -> (b: bool)
    ensures
        b == charging_status(
            match status {
                Some(s) => Some(s@),
                None => None,
            },
        ),
{
    match status {
        Some(s) => {
            let chars = to_chars(s);
            let t = trim_chars(chars.as_slice());
            let text = crate::text::string_from_chars(&t);
            str_equals(text.as_str(), "Charging")
        },
        None => false,
    }
}

/// The error of every driver when `/sys/class/power_supply/BAT0` is missing.
pub open spec fn no_battery_message() -> Seq<char> {
    "No battery found at BAT0"@
}

pub fn no_battery_error() -> (e: String)
    ensures
        e@ == no_battery_message(),
{
    String::from_str("No battery found at BAT0")
}

/// The battery driver for Linux machines without vendor extensions.
pub struct GenericLinuxBattery;

impl GenericLinuxBattery {
    pub fn new() -> (b: GenericLinuxBattery) {
        GenericLinuxBattery
    }

    /// What the generic driver reports, given whether `BAT0` exists and the text of its
    /// `status` file: no thresholds, vendor `Generic Linux`.
    pub fn battery_state(&self, present: bool, status: Option<&str>) -> (r: Result<BatteryState, String>)
        ensures
            match r {
                Ok(st) => present && st.is_charging == charging_status(
                    match status {
                        Some(s) => Some(s@),
                        None => None,
                    },
                ) && st.start_threshold is None && st.stop_threshold is None && st.vendor@
                    == "Generic Linux"@,
                Err(e) => !present && e@ == no_battery_message(),
            },
    {
        if !present {
            return Err(no_battery_error());
        }
        Ok(
            BatteryState {
                is_charging: is_charging(status),
                start_threshold: None,
                stop_threshold: None,
                vendor: String::from_str("Generic Linux"),
            },
        )
    }

    /// The generic driver cannot set charge thresholds.
    pub fn set_thresholds(&self, start: u8, stop: u8) -> (r: Result<(), String>)
        ensures
            r matches Err(e) && e@ == "Thresholds not supported by generic driver"@,
    {
        Err(String::from_str("Thresholds not supported by generic driver"))
    }
}

/// A battery is reported as charging exactly when its trimmed status reads `Charging`;
/// any other status (`Not charging`, `Discharging`, `Full`, ...) or an unreadable one is
/// not charging.
pub proof fn law_charging_only_when_status_says_so(status: Option<Seq<char>>)
    ensures
        charging_status(status) <==> (status matches Some(s) && trim(s) == "Charging"@),
        status matches Some(s) && trim(s) != "Charging"@ ==> !charging_status(status),
        status is None ==> !charging_status(status),
{
}

} // verus!
