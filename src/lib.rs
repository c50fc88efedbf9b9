pub mod achievements;
pub mod artifacts;
pub mod games;
pub mod keys;
pub mod pulls;
pub mod tables;
pub mod text;
