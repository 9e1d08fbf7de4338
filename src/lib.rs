pub mod jvmsig;
pub mod resolve;
pub mod shapes;
pub mod tables;
pub mod text;
