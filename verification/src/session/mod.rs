//! One run of the program: signing in, scanning again and again, and keeping state.

pub mod auth;
pub mod cycle;
pub mod shutdown;
pub mod state;
pub mod summary;
