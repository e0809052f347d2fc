//! What the macro walkthroughs make their generated code say at run time:
//! the derive's greeting for a type, and the query banner of the SQL
//! macro.  Parsing and token assembly happen at compile time outside this
//! crate; the text computed here is the behaviour the generated code has.

use vstd::prelude::*;

verus! {

/// The greeting the derived trait implementation prints for the type
/// named `name`.
pub fn hello_macro_greeting(name: &str) -> (r: String)
    ensures
        r@ == "Hello, Macro! My name is "@ + name@ + "!"@,
{
    let mut r = "Hello, Macro! My name is ".to_owned();
    r.append(name);
    r.append("!");
    proof {
        assert(r@ =~= "Hello, Macro! My name is "@ + name@ + "!"@);
    }
    r
}

/// The banner the SQL macro's expansion builds around a query.
pub fn sql_expansion(query: &str) -> (r: String)
    ensures
        r@ == "Executing SQL query: "@ + query@,
{
    let mut r = "Executing SQL query: ".to_owned();
    r.append(query);
    proof {
        assert(r@ =~= "Executing SQL query: "@ + query@);
    }
    r
}

} // verus!
