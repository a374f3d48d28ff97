pub mod command;
pub mod command_laws;
pub mod incremental;
pub mod parser;
pub mod resp;
pub mod response;
pub mod roundtrip;
pub mod serializer;
