//! Static directory listings: which entries of a file tree are listed, how
//! they are grouped by directory, and what each listing page shows of them.

pub mod catalog;
pub mod config;
pub mod entry;
pub mod icon;
pub mod item;
pub mod order;
pub mod page;
pub mod path;
pub mod size;
pub mod text;
pub mod theme;
pub mod walk;
