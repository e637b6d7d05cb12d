//! The command surface the GUI shell calls into: one trivial synchronous
//! request/response command, representative of the invocation mechanism.

use vstd::prelude::*;
use vstd::string::StringExecFns;

verus! {

/// Greet the named caller: the greeting wraps the name between the fixed
/// salutation and signature.
pub fn greet(name: &str) -> (r: String)
    ensures
        r@ == "Hello, "@ + name@ + "! You've been greeted from Rust!"@,
{
    let mut r = String::from_str("Hello, ");
    r.append(name);
    r.append("! You've been greeted from Rust!");
    r
}

} // verus!
