mod inbox;
pub mod laws;
pub mod scheduler;
