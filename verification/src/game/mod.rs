pub mod state;
pub mod laws;
