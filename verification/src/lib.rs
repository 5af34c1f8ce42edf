//! Brand-identity extraction from web pages: a rendering pass (colors, fonts,
//! metadata delivered asynchronously by a live page view) and a raw-markup pass
//! (images and text pulled out of fetched HTML) are coordinated, bounded by
//! timeouts, and reconciled into one deduplicated result.

use vstd::prelude::*;
use vstd::string::*;

pub mod text;
pub mod normalize;
pub mod model;
pub mod merge;
pub mod mailbox;
pub mod orchestrate;
pub mod dom;
pub mod resolve;
pub mod extract;
pub mod laws;

verus! {

/// Greeting string shown by the demo front end.
pub fn greet(name: &str) -> (r: String)
    ensures
        r@ == "Hello, "@ + name@ + "! You've been greeted from Rust!"@,
{
    let mut s = String::from_str("Hello, ");
    s.append(name);
    s.append("! You've been greeted from Rust!");
    s
}

} // verus!
