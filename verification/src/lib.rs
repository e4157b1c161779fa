//! CADForge: the semantic core of a BIM authoring tool, verified.

pub mod attribute;
pub mod backend;
pub mod command;
pub mod element;
pub mod export;
pub mod family;
pub mod floatbits;
pub mod fragment;
pub mod geometry;
pub mod gpu;
pub mod id;
pub mod import;
pub mod model;
pub mod param;
pub mod property;
pub mod recipe;
pub mod reader;
pub mod representation;
pub mod schema;
pub mod spf;
pub mod text;
pub mod textmap;
pub mod tools;
