pub mod functions;
pub mod instructions;
pub mod parser;
pub mod runtime;
pub mod script_builder;
pub mod table;
pub mod encoding;
