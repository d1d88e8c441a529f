pub mod keyboard;
pub mod window;
