pub mod classify;
pub mod error;
pub mod ids;
pub mod mime;
pub mod models;
pub mod range;
pub mod respond;
pub mod scanner;
pub mod text;

use vstd::prelude::*;

verus! {

/// Greeting line served at the server root.
pub fn index() -> (r: &'static str)
    ensures
        r@ == "MediaRust Server"@,
{
    "MediaRust Server"
}

/// The JSON body served for a route that does not exist.
pub fn not_found() -> (r: &'static str)
    ensures
        r@ == "{\"status\":\"error\",\"reason\":\"Resource not found\"}"@,
{
    "{\"status\":\"error\",\"reason\":\"Resource not found\"}"
}

} // verus!
