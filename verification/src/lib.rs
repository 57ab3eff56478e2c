//! The state and the decisions of an editor workspace.

pub mod add_views;
pub mod context;
pub mod debounce;
pub mod dock;
pub mod error;
pub mod events;
pub mod following;
pub mod following_laws;
pub mod invariants;
pub mod leader_queue;
pub mod load;
pub mod navigation;
pub mod open;
pub mod pane_group;
pub mod pane_laws;
pub mod panes;
pub mod path;
pub mod pixels;
pub mod proto;
pub mod registry;
pub mod serialize;
pub mod serialized;
pub mod store;
pub mod title;
pub mod toast;
pub mod view_id;
pub mod window_search;
pub mod workspace;
