pub mod lexer;

pub use lexer::Lexer;
pub use lexer::Token;

use vstd::prelude::*;

verus! {

/// Accepts only the empty string: returns an empty `String` for it and a
/// fixed error message for anything else.
pub fn always_error(input: &str) -> (r: Result<String, &'static str>)
    ensures
        r is Ok <==> input@.len() == 0,
        r matches Ok(s) ==> s@ == Seq::<char>::empty(),
        r matches Err(e) ==> e@ == "Input was not empty."@,
{
    if input.is_empty() {
        Ok(String::new())
    } else {
        Err("Input was not empty.")
    }
}

} // verus!
