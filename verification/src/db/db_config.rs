use vstd::prelude::*;

verus! {

/// Where the database keeps its data.
#[derive(Clone, Copy, Debug, PartialEq, Eq, Structural)]
pub enum StorageMode {
    File,
    FileMemory,
    Memory,
}

/// Database configuration.
#[derive(Clone, Copy, Debug, PartialEq, Eq, Structural)]
pub struct DbConfig {
    pub storage_mode: StorageMode,
}

} // verus!
