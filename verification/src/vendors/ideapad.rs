//! Lenovo IdeaPad laptops: a conservation mode that stops charging at 60 %.
use vstd::prelude::*;
use vstd::string::*;
use crate::battery::{charging_status, is_charging, no_battery_error, no_battery_message, BatteryState};
use crate::sysfs::SysfsWrite;
use crate::text::{str_equals, to_chars, trim, trim_chars, string_from_chars};
use crate::vendors::asus::text_of;

verus! {

pub open spec fn conservation_mode_path() -> Seq<char> {
    "/sys/bus/platform/drivers/ideapad_acpi/VPC2004:00/conservation_mode"@
}

/// Conservation mode is on when its file, trimmed, reads `1`; an unreadable file
/// counts as off.
pub open spec fn conservation_on(raw: Option<Seq<char>>) -> bool {
    match raw {
        Some(s) => trim(s) == "1"@,
        None => false,
    }
}

pub struct IdeaPadBattery;

impl IdeaPadBattery {
    pub fn new() -> (b: IdeaPadBattery) {
        IdeaPadBattery
    }

    /// What the IdeaPad driver reports, given whether `BAT0` exists and the texts of its
    /// `status` file and of the conservation-mode file: charging stops at 60 % in
    /// conservation mode and at 100 % otherwise; there is no start threshold.
    pub fn battery_state(&self, present: bool, status: Option<&str>, conservation_raw: Option<&str>) -> (r:
        Result<BatteryState, String>)
        ensures
            match r {
                Ok(st) => present && st.is_charging == charging_status(text_of(status))
                    && st.start_threshold is None && st.stop_threshold == Some(
                    if conservation_on(text_of(conservation_raw)) {
                        60u8
                    } else {
                        100u8
                    },
                ) && st.vendor@ == "IdeaPad"@,
                Err(e) => !present && e@ == no_battery_message(),
            },
    {
        if !present {
            return Err(no_battery_error());
        }
        let conservation = match conservation_raw {
            Some(s) => {
                let chars = to_chars(s);
                let t = trim_chars(chars.as_slice());
                let text = string_from_chars(&t);
                str_equals(text.as_str(), "1")
            },
            None => false,
        };
        Ok(
            BatteryState {
                is_charging: is_charging(status),
                start_threshold: None,
                stop_threshold: Some(
                    if conservation {
                        60
                    } else {
                        100
                    },
                ),
                vendor: String::from_str("IdeaPad"),
            },
        )
    }

    /// Conservation mode goes on for a stop threshold of 60 % or less and off above it;
    /// the start threshold plays no part.
    pub fn set_thresholds(&self, start: u8, stop: u8) -> (w: SysfsWrite)
        ensures
            w@ == (conservation_mode_path(), if stop <= 60 {
                "1"@
            } else {
                "0"@
            }),
    {
        SysfsWrite::new(
            "/sys/bus/platform/drivers/ideapad_acpi/VPC2004:00/conservation_mode",
            if stop <= 60 {
                "1"
            } else {
                "0"
            },
        )
    }
}

} // verus!
