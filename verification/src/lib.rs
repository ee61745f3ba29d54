pub mod text;
pub mod filter_pattern;
pub mod filter_laws;
pub mod key_pattern;
pub mod key_laws;
pub mod args;
pub mod output;
