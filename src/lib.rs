pub mod codec;
pub mod derive;
pub mod error;
pub mod search;
pub mod text;
