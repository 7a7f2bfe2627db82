pub mod arena;
pub mod effects;
pub mod errors;
pub mod events;
pub mod host;
pub mod math;
pub mod rounds;
pub mod rules;
pub mod state;
pub mod laws;
