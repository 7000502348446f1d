//! What the library promises as a whole, in terms of what goes in and what comes out.
pub mod answers;
pub mod conversations;
pub mod credentials;
pub mod texts;
pub mod views;
pub mod words;
pub mod workers;
