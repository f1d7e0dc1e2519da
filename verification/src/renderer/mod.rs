pub mod loader;
pub mod pbm;
pub mod render;
