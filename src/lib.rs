//! A MessagePack codec with verified size-class selection: `ser` encodes values into the
//! smallest tags that hold them, `de` reads them back, and `laws` proves that the two agree.
use vstd::prelude::*;

pub mod defs;
pub mod error;
pub mod format;
pub mod ser;
pub mod de;
pub mod laws;

verus! {

} // verus!
