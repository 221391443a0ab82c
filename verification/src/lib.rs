//! `memtop`: the logic of a Linux process monitor.
//!
//! The library parses the text files of the `/proc` file system, builds the
//! list and the tree of processes, and holds the state of the terminal user
//! interface (tabs, table selection, key handling). Reading files, drawing
//! and timing are left to the program that uses it.
pub mod text;
pub mod process;
pub mod process_tree;
pub mod process_list;
pub mod table;
pub mod tabs;
pub mod panes;
pub mod event_loop;
pub mod tree_layout;
