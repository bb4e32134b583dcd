pub mod alternate;
pub mod related;
pub mod info;
pub mod create;
