//! Singly linked lists: a uniquely owned mutable list and a persistent list
//! whose values share common suffixes.

pub mod linked_list;
pub mod persistent_list;
