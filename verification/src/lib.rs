//! A parser for a restricted dialect of infrastructure "resource" blocks:
//! `resource "<type>" "<name>" { key = value ... }`, where a property value
//! is one of a fixed set of forms, including JSON documents embedded in
//! `jsonencode(...)` calls.
//!
//! Every parser is specified against a mathematical model of the grammar:
//! spec functions over `Seq<char>` that say, for every input and position,
//! whether a production matches, what it produces, and how it fails. The
//! executable parsers are proved to realise that model exactly.
pub mod ast;
pub mod err;
pub mod json_utils;
pub mod parser;
pub mod scan;
