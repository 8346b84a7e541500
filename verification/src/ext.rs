pub mod lines;
pub mod sized_split;
