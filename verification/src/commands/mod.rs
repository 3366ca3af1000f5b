pub mod init;
pub mod laws;
pub mod mcp;
pub mod view;
