pub mod app;
pub mod filetree;
pub mod node;
pub mod order;
pub mod path;
pub mod queue;
pub mod state;
pub mod status;
