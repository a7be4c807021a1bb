//! Console support for ANSI colour escape codes.

use vstd::prelude::*;

verus! {

/// Enables ANSI escape processing on the console. Consoles on this
/// platform process them already, so this does nothing and succeeds.
pub fn enable_ansi_escapes() -> (r: Result<(), String>)
    ensures
        r is Ok,
{
    Ok(())
}

} // verus!
