pub mod charge;
pub mod debug;
pub mod def;
pub mod engine;
pub mod errors;
pub mod navigation;
pub mod perception;
pub mod plan;
pub mod route;
