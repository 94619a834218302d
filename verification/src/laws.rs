//! What the operations of the library are for.
//!
//! Each law says in terms of an operation's inputs what its results hold.

pub mod archives;
pub mod basics;
pub mod classes;
pub mod hexdump;
pub mod leaves;
pub mod listing;
pub mod loading;
pub mod natives;
pub mod navigator;
pub mod paging;
pub mod palette;
pub mod panes;
pub mod queries;
pub mod search;
pub mod smali;
pub mod tabs;
pub mod text;
pub mod views;
pub mod window;
