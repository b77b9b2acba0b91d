//! Plugin naming, plugin sources and the install-state registry of a tool
//! version manager, with their contracts.
pub mod paths;
pub mod plugins;
pub mod sorted_map;
pub mod text;
pub mod toolset;
pub mod version_forms;
pub mod wrappers;
