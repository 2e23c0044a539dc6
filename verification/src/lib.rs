//! A file manager for Android devices that are reached through `adb`, and
//! the synchronisation of a local folder with a folder on such a device.
//!
//! Nothing here runs a command or touches a disk. The library reads what
//! commands print, builds the commands to run, and decides what is done
//! next; the program around it does the running.
//!
//! Synchronisation goes through these modules, in order:
//! `pattern` brings the patterns that a user writes into canonical form,
//! `scan` tells which directories have to be listed for them, `inventory`
//! filters and orders what was listed, `diff` compares the inventories of
//! the two sides and plans the actions, and `execute` keeps the count
//! while they are carried out. `plan` ties the first four together, and
//! `settle` shows that a plan that was carried out leaves nothing to do.
//!
//! The device is looked at through `device`, `listing`, `storage` and
//! `thumbnail`, with the commands in `commands` and `remote`. Content is
//! told apart by the digests of `digest`.

pub mod action;
pub mod commands;
pub mod device;
pub mod diff;
pub mod digest;
pub mod execute;
pub mod glob;
pub mod inventory;
pub mod listing;
pub mod media;
pub mod numbers;
pub mod order;
pub mod pattern;
pub mod plan;
pub mod remote;
pub mod scan;
pub mod settle;
pub mod storage;
pub mod text;
pub mod thumbnail;
