pub mod complex;
pub mod escape;
pub mod mapper;
pub mod parallel;
pub mod render;
pub mod viewport;
