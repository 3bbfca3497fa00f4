//! Presentation engine of a system-status report: threshold colouring of
//! metrics, aligned table layout, and the text of each report section.

pub mod config;
pub mod disks;
pub mod general_info;
pub mod last_login;
pub mod services;
pub mod style;
pub mod temperature;
pub mod text;
pub mod util;
