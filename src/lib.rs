pub mod bootstrap;
pub mod push;
pub mod response;
pub mod target;
pub mod wire;
