//! The game file system: search paths mounted from `gameinfo.txt`, and
//! the lookup of files and assets through them.

pub mod paths;
pub mod system;
pub mod mount;
pub mod gameinfo;
