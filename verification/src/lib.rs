//! Decision logic of the WattWise power manager: sysfs text handling,
//! battery vendor rules, CPU core planning and the event history.
pub mod battery;
pub mod config;
pub mod events;
pub mod monitor;
pub mod power;
pub mod sysfs;
pub mod text;
pub mod vendors;
