//! Persistent graph database building blocks: packed bit sets, open
//! addressing hash maps, value indexes and graph search bookkeeping.
pub mod api;
pub mod api_def;
pub mod collections;
pub mod db;
pub mod graph;
pub mod graph_search;
pub mod storage;
