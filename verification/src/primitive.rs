pub mod alias;
pub mod cell;
pub mod cuboid;
pub mod vector;
