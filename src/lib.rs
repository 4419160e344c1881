//! A one-line command prompt: history lookup, shell-completion scraping and
//! the prompt's editing state machine.
pub mod history;
pub mod oracle;
pub mod prompt;
pub mod text;
