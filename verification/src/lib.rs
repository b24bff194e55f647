//! Readers, writers and editors for the text formats of the Source engine:
//! KeyValues documents, Valve map files, material files, and the search
//! path logic of the game file system.

pub mod fs;
pub mod kv;
pub mod ordmap;
pub mod text;
pub mod vmf;
pub mod vmt;
