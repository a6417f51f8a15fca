//! Inventory of a disk shelf and its rendering as a fixed-width terminal grid.
//!
//! The crate lays the bays of an enclosure out in their physical arrangement,
//! colours bays that belong to the same storage pool alike, and composes the
//! grid as text. It reads no file and runs no command: the caller reads the
//! attributes at the paths that the crate names, runs the inventory
//! commands, and hands over what came back.
//!
//! - [`layout`]: the order in which the bays are drawn
//! - [`colors`]: the palette, and the colours of the groups
//! - [`console_widget`]: the cells, their widths, and the text of the grid
//! - [`inventory`]: from what was found in the bays to what the grid shows
//! - [`enclosure`]: the paths of the attributes and what their contents mean
//! - [`zfs`], [`lsblk`]: the listings of pools and of block devices
//! - [`text`], [`parse`]: writing and reading text
//! - [`err`], [`utils`]: failures

pub mod colors;
pub mod console_widget;
pub mod enclosure;
pub mod err;
pub mod inventory;
pub mod layout;
pub mod lsblk;
pub mod parse;
pub mod text;
pub mod utils;
pub mod zfs;
