//! The decision logic of the beckon launcher for macOS.
//!
//! Every module holds plain data and pure functions: what a query lists,
//! what activating a row asks for, where a window goes. The program around
//! this library reads the machine, hands the readings in as plain values and
//! carries out what comes back.

pub mod apps;
pub mod ax;
pub mod cycle;
pub mod engine;
pub mod files;
pub mod hotkey;
pub mod menubar;
pub mod onboarding;
pub mod order;
pub mod panel;
pub mod paste;
pub mod pathnav;
pub mod paths;
pub mod plugins;
pub mod router;
pub mod scriptcmd;
pub mod shell;
pub mod startup;
pub mod switcher;
pub mod system;
pub mod table;
pub mod text;
pub mod theme;
pub mod ui;
pub mod walkthrough;
pub mod winmgmt;
