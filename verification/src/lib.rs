//! Core of a reverse-engineering shell.

pub mod arrows;
pub mod bin_search;
pub mod bundle;
pub mod container;
pub mod digits;
pub mod edits;
pub mod hex;
pub mod icons;
pub mod ids;
pub mod laws;
pub mod leaf;
pub mod listing;
pub mod loader;
pub mod numbering;
pub mod order;
pub mod packages;
pub mod page_cache;
pub mod paged_hex;
pub mod paged_listing;
pub mod palette;
pub mod places;
pub mod paging;
pub mod search;
pub mod section_map;
pub mod sections;
pub mod shell;
pub mod smali_index;
pub mod symbols;
pub mod table;
pub mod text;
pub mod tree;
pub mod two_pane;
pub mod xref;
