pub mod display;
pub mod note;
pub mod spectrum;
