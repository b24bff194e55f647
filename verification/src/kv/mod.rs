//! KeyValues (VDF): the nested `"key" "value"` / `key { ... }` text format.


pub mod de;
pub mod error;
pub mod from;
pub mod grammar;
pub mod read_back;
pub mod ser;
pub mod value;
