//! Battery drivers with vendor charge-limit extensions.
pub mod asus;
pub mod ideapad;
