pub mod declension;
pub mod dialogue;
pub mod draw;
pub mod explain;
pub mod parts;
pub mod quiz;
pub mod stress;
pub mod text;
