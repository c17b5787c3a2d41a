//! The rules of a daemon that keeps workspaces on the desktops of Hyprland.
//!
//! A workspace is a set of applications with a place for each window. The library reads no file, no socket
//! and no clock: it takes what the compositor and the system told, and gives the next state and the
//! expressions to dispatch. Each function says in its contract what it gives, over the views of its
//! arguments; what holds of several functions together stands in the proof functions named `law_*`.
//!
//! - `config`, `validate`, `lookup`, `pattern`: the configuration, its faults, and what is asked of it;
//! - `chain`, `normal`, `keys`, `actions`, `collect`, `modes`, `sticky`, `list`, `labels`, `lua`, `help`: chains of
//!   keys, the bindings they make, and their help;
//! - `hypr`, `exprs`, `windows`, `procs`: windows, dispatchers and processes;
//! - `state`, `desktop`, `desks`, `home`, `layout`, `area`, `rect`: where workspaces and windows stand;
//! - `member`, `extra`, `adopt`, `pending`, `restore`: which windows belong where;
//! - `raise`, `cycle`, `route`, `events`, `request`, `report`: what requests and events do;
//! - `save`, `docedit`: writing a workspace into the configuration;
//! - `text`, `table`, `names`: texts, ordered tables and lists of names;
//! - `effects`, `laws`: what a list of expressions does to the windows, and what requests come to.

pub mod actions;
pub mod adopt;
pub mod area;
pub mod chain;
pub mod collect;
pub mod config;
pub mod cycle;
pub mod desks;
pub mod desktop;
pub mod docedit;
pub mod effects;
pub mod events;
pub mod exprs;
pub mod extra;
pub mod help;
pub mod home;
pub mod hypr;
pub mod keys;
pub mod labels;
pub mod laws;
pub mod layout;
pub mod list;
pub mod lookup;
pub mod lua;
pub mod member;
pub mod modes;
pub mod names;
pub mod normal;
pub mod pattern;
pub mod pending;
pub mod procs;
pub mod raise;
pub mod rect;
pub mod report;
pub mod request;
pub mod restore;
pub mod route;
pub mod save;
pub mod state;
pub mod sticky;
pub mod table;
pub mod text;
pub mod validate;
pub mod windows;
