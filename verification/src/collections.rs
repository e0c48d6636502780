pub mod bit_set;
pub mod indexed_map;
pub mod map;
pub mod multi_map;
pub mod vec;
