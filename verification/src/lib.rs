pub mod json;
pub mod text;
pub mod framing;
pub mod index;
pub mod commands;
