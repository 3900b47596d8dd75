pub mod reader;
