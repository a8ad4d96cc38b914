//! Battery SipJuice: the decision logic of a Linux battery and power monitor.
//!
//! Every physical quantity is carried as the integer that the kernel's
//! `power_supply` class reports (µV, µA, µW, µAh, µWh, tenths of a degree),
//! so the library works on exact values; conversion to display units
//! happens at the edge of the program.

pub mod settings;
pub mod text;
pub mod sysfs;
pub mod num;
pub mod battery;
pub mod history;
pub mod power;
pub mod input_history;
pub mod history_store;
pub mod tray;
pub mod system_accent;
pub mod charge_control;
pub mod cpu_power;
pub mod reminder;
pub mod sort;
pub mod names;
pub mod session;
pub mod insights;
pub mod app_power;
pub mod commands;
