//! Parsing of RFC-822 style email text into headers, body, sender and
//! recipient, and the view state of the analysis tool built around it.

pub mod message;
pub mod lemmas;
pub mod app_state;
