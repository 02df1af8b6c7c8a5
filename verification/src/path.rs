pub mod jps;
pub mod path;
pub mod position_map;
