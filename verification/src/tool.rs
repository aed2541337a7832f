//! Commands handed to the platform's helper programs.
use vstd::prelude::*;
use crate::text::{push_str, string_views};

verus! {

/// A program and its arguments.
#[derive(Debug, Clone)]
pub struct ToolCommand {
    pub program: String,
    pub args: Vec<String>,
}

/// `c` runs the program `program` with the arguments `args`.
pub open spec fn runs(c: ToolCommand, program: Seq<char>, args: Seq<Seq<char>>) -> bool {
    c.program@ == program && string_views(c.args@) == args
}

/// The owned copy of a text.
pub fn owned(t: &str) -> (r: String)
    ensures
        r@ == t@,
{
    let mut s = String::new();
    push_str(&mut s, t);
    s
}

} // verus!
