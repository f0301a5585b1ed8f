pub mod loader;
pub mod manager;
pub mod mcp_tools;
pub mod replies;
pub mod schema;
pub mod skill_scanner;
