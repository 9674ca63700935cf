pub mod accept;
pub mod args;
pub mod laws;
pub mod node;
pub mod path;
pub mod walk;
