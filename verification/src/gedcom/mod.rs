//! GEDCOM 5.5.1 interoperability: reading a document into records, mapping
//! them onto the model, and writing the model back out.

pub mod lexer;
pub mod tree;
pub mod tags;
pub mod map;
pub mod plan;
pub mod writer;
pub mod roundtrip;
pub mod planned_events;
