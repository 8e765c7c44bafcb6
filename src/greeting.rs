//! The greeting service's reply.
use vstd::prelude::*;

use crate::text::concat_text;

verus! {

/// The greeting service.
#[derive(Debug, Clone, Copy, Default)]
pub struct MyHelloWorld;

impl MyHelloWorld {
    /// The reply to a greeting request from `name`: `Hello, <name>!`.
    pub fn say_hello(&self, name: &str) -> (r: String)
        ensures
            r@ == "Hello, "@ + name@ + "!"@,
    {
        let a = concat_text("Hello, ", name);
        concat_text(a.as_str(), "!")
    }
}

} // verus!
