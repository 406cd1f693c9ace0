//! `.desktop` file parsing and the surrounding ecosystem: application
//! directories, icon resolution, FreeDesktop category assignment, and
//! user-configured preferred-app overrides.

pub mod cache;
pub mod categories;
pub mod dirs;
pub mod entry;
pub mod icons;
pub mod preferred_apps;
