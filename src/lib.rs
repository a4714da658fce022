pub mod path;
pub mod viewer;
