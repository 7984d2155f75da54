//! The user's settings and where they are kept.
use vstd::prelude::*;
use vstd::string::*;
use crate::power::{operation_mode, operation_mode_of, OperationMode};
use crate::text::str_equals;

verus! {

/// The settings that the user changes: the operation mode (`auto`, `performance` or
/// `efficiency`) and two power-saving switches.
#[derive(Debug)]
pub struct AppConfig {
    pub operation_mode: String,
    pub usb_autosuspend: bool,
    pub sata_alpm: bool,
}

impl Default for AppConfig {
    /// Automatic mode with USB autosuspend and SATA link power saving on.
    fn default() -> (c: Self)
        ensures
            c.operation_mode@ == "auto"@,
            c.usb_autosuspend,
            c.sata_alpm,
    {
        AppConfig {
            operation_mode: String::from_str("auto"),
            usb_autosuspend: true,
            sata_alpm: true,
        }
    }
}

impl AppConfig {
    /// The strategy that `operation_mode` selects.
    pub fn mode(&self) -> (m: OperationMode)
        ensures
            m == operation_mode_of(self.operation_mode@),
    {
        operation_mode(self.operation_mode.as_str())
    }
}

/// The directory whose configuration is used: `$HOME`, except that a root session uses
/// the first user directory under `/home`; `/etc/wattwise` where neither is known.
pub open spec fn config_home(home: Option<Seq<char>>, first_user_home: Option<Seq<char>>) -> Seq<char> {
    match home {
        Some(h) => if h == "/root"@ {
            match first_user_home {
                Some(u) => u,
                None => "/etc/wattwise"@,
            }
        } else {
            h
        },
        None => "/etc/wattwise"@,
    }
}

/// Chooses the configuration directory from `$HOME` and the first directory under
/// `/home` (consulted only for root).
pub fn resolve_config_home(home: Option<&str>, first_user_home: Option<&str>) -> (dir: String)
    ensures
        dir@ == config_home(
            match home {
                Some(h) => Some(h@),
                None => None,
            },
            match first_user_home {
                Some(u) => Some(u@),
                None => None,
            },
        ),
{
    match home {
        Some(h) => {
            if str_equals(h, "/root") {
                match first_user_home {
                    Some(u) => String::from_str(u),
                    None => String::from_str("/etc/wattwise"),
                }
            } else {
                String::from_str(h)
            }
        },
        None => String::from_str("/etc/wattwise"),
    }
}

} // verus!
