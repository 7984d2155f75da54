//! Asus laptops: charge start and stop thresholds in `BAT0`.
use vstd::prelude::*;
use vstd::string::*;
use crate::battery::{charging_status, is_charging, no_battery_error, no_battery_message, BatteryState};
use crate::sysfs::SysfsWrite;
use crate::text::{decimal, decimal_string, parse_u8, parse_unsigned, to_chars, trim, trim_chars};

verus! {

pub open spec fn start_threshold_path() -> Seq<char> {
    "/sys/class/power_supply/BAT0/charge_control_start_threshold"@
}

pub open spec fn end_threshold_path() -> Seq<char> {
    "/sys/class/power_supply/BAT0/charge_control_end_threshold"@
}

/// A threshold file's value: its trimmed text parsed as a `u8`; nothing where the file
/// cannot be read or does not hold one.
pub open spec fn threshold_value(raw: Option<Seq<char>>) -> Option<u8> {
    match raw {
        Some(s) => match parse_unsigned(trim(s), 255) {
            Some(v) => Some(v as u8),
            None => None,
        },
        None => None,
    }
}

pub open spec fn text_of(raw: Option<&str>) -> Option<Seq<char>> {
    match raw {
        Some(s) => Some(s@),
        None => None,
    }
}

pub fn read_threshold(raw: Option<&str>) -> (v: Option<u8>)
    ensures
        v == threshold_value(text_of(raw)),
{
    match raw {
        Some(s) => {
            let chars = to_chars(s);
            let t = trim_chars(chars.as_slice());
            parse_u8(t.as_slice())
        },
        None => None,
    }
}

pub struct AsusBattery;

impl AsusBattery {
    pub fn new() -> (b: AsusBattery) {
        AsusBattery
    }

    /// What the Asus driver reports, given whether `BAT0` exists and the texts of its
    /// `status`, start-threshold and end-threshold files.
    pub fn battery_state(
        &self,
        present: bool,
        status: Option<&str>,
        start_raw: Option<&str>,
        stop_raw: Option<&str>,
    ) -> (r: Result<BatteryState, String>)
        ensures
            match r {
                Ok(st) => present && st.is_charging == charging_status(text_of(status))
                    && st.start_threshold == threshold_value(text_of(start_raw))
                    && st.stop_threshold == threshold_value(text_of(stop_raw)) && st.vendor@
                    == "Asus"@,
                Err(e) => !present && e@ == no_battery_message(),
            },
    {
        if !present {
            return Err(no_battery_error());
        }
        let charging = is_charging(status);
        Ok(
            BatteryState {
                is_charging: charging,
                start_threshold: read_threshold(start_raw),
                stop_threshold: read_threshold(stop_raw),
                vendor: String::from_str("Asus"),
            },
        )
    }

    /// The writes that set the thresholds, in order: the end threshold to 100 first (so
    /// that the start can be set below any previous end), then the start, then the end.
    /// Each is a plain write; the first that fails ends the sequence with its error.
    pub fn set_thresholds(&self, start: u8, stop: u8) -> (w: Vec<SysfsWrite>)
        ensures
            w.deep_view() == seq![
                (end_threshold_path(), "100"@),
                (start_threshold_path(), decimal(start as nat)),
                (end_threshold_path(), decimal(stop as nat)),
            ],
    {
        let mut w: Vec<SysfsWrite> = Vec::new();
        w.push(SysfsWrite::new("/sys/class/power_supply/BAT0/charge_control_end_threshold", "100"));
        w.push(
            SysfsWrite::from_strings(
                String::from_str("/sys/class/power_supply/BAT0/charge_control_start_threshold"),
                decimal_string(start as u64),
            ),
        );
        w.push(
            SysfsWrite::from_strings(
                String::from_str("/sys/class/power_supply/BAT0/charge_control_end_threshold"),
                decimal_string(stop as u64),
            ),
        );
        assert(w.deep_view() =~= seq![
            (end_threshold_path(), "100"@),
            (start_threshold_path(), decimal(start as nat)),
            (end_threshold_path(), decimal(stop as nat)),
        ]);
        w
    }
}

} // verus!
