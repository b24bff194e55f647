//! Valve map files: blocks, the parser context, the typed structures, and
//! what reading a written block gives back.

pub mod block;
pub mod parse_ctx;
pub mod utils;
pub mod parser;
pub mod connection;
pub mod typed;
pub mod common;
pub mod disp;
pub mod world;
pub mod entities;
pub mod metadata;
pub mod visgroups;
pub mod regions;
pub mod file;
pub mod index;
pub mod convert;
pub mod round_trip;
pub mod file_trip;
pub mod reload;
