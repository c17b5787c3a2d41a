//! What requests come to, over all windows, states and configurations.
pub mod apps;
pub mod bindings;
pub mod bring;
pub mod desks;
pub mod geometry;
pub mod opening;
pub mod places;
pub mod process;
pub mod raise;
pub mod reading;
pub mod restore;
pub mod routes;
pub mod saving;
pub mod screen;
pub mod select;
pub mod session;
pub mod taking;
pub mod tags;
pub mod walk;
pub mod windows;
