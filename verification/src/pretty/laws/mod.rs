//! What holds of every rendering.

pub mod flat;
pub mod groups;
pub mod substance;
pub mod trivia;
pub mod width;
