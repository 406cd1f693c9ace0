//! Configuration helpers: CSS loading and hot-reload, and XDG path resolution.

pub mod css;
pub mod imports;
pub mod paths;
pub mod watch;
