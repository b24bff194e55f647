//! Material files (`.vmt`): a shader name and its properties, read from and
//! written as KeyValues text.
//!
//! Keys are stored in lower case; a lookup lowers the key it is given and
//! also tries it with the `$` and `%` prefixes of material parameters.

pub mod material;
pub mod proxies;

use vstd::prelude::*;
use crate::text::{all_ascii, lower_ascii, to_lowercase, unicode_lowercase};

verus! {

/// The key type of the properties of a material.
pub type VmtKey = String;

/// The normalized form of a key: its lower-case mapping.
pub fn intern_key(s: &str) -> (k: VmtKey)
    ensures
        k@ == unicode_lowercase(s@),
        all_ascii(s@) ==> k@ == s@.map_values(|c: char| lower_ascii(c)),
{
    to_lowercase(s)
}

} // verus!
