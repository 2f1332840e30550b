//! Start options of this program, as plain values; argument parsing itself
//! happens outside the library.

use vstd::prelude::*;

verus! {

/// Start options of this program.
pub struct Opt {
    /// Config path. Defaults to './nadir.toml'.
    pub config: Option<String>,
}

} // verus!
