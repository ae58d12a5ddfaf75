//! Turns a language model's free-text reply into a structured multiple-choice
//! quiz question, and builds the prompt that asks for one.
pub mod generate;
pub mod laws;
pub mod question;
pub mod text;
