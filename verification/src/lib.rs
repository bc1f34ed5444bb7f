//! Local offline knowledge base: parsers, chunking, content storage and
//! lookup logic, with their contracts.
use vstd::prelude::*;

pub mod browser;
pub mod bundle;
pub mod chunker;
pub mod config;
pub mod content;
pub mod csv;
pub mod epub;
pub mod error;
pub mod exif;
pub mod facts;
pub mod gpx;
pub mod html;
pub mod ingest;
pub mod llm;
pub mod markdown;
pub mod mcp;
pub mod mbox;
pub mod parallel;
pub mod pdf;
pub mod pipeline;
pub mod render;
pub mod sources;
pub mod substring;
pub mod telegram;
pub mod text;
pub mod tools;
pub mod types;
pub mod wikidata;
pub mod wikilinks;
pub mod zim;

verus! {

} // verus!
