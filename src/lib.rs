//! Repeats a block of tokens once for each integer of a range, with the range's parameter
//! replaced by that integer, then fuses `identifier ~ literal` into identifiers.
//!
//! The input is the token tree of `param in start..end { body }`.
pub mod token;
pub mod expand;
pub mod paste;
pub mod header;

use vstd::prelude::*;
use crate::token::{Token, TokenView, view_tokens};
use crate::expand::{expand, expand_spec};
use crate::paste::{paste, paste_spec};
use crate::header::{SyntaxError, parse_header, parse_spec};

verus! {

/// The whole transformation on a header's tokens: the pasted expansion, or the header's
/// syntax error.
pub open spec fn seq_spec(input: Seq<TokenView>) -> Result<Seq<TokenView>, SyntaxError> {
    match parse_spec(input) {
        Ok(inv) => Ok(paste_spec(expand_spec(inv.body, inv.param, inv.start as nat, inv.end as nat))),
        Err(e) => Err(e),
    }
}

/// Parses `param in start..end { body }`, makes one copy of `body` per integer of the range
/// with `param` replaced by it, and pastes `identifier ~ literal` in the result.
pub fn seq(input: Vec<Token>) -> (r: Result<Vec<Token>, SyntaxError>)
    ensures
        match seq_spec(view_tokens(input@)) {
            Ok(out) => r is Ok && view_tokens(r->Ok_0@) == out,
            Err(e) => r == Err::<Vec<Token>, SyntaxError>(e),
        },
{
    match parse_header(input) {
        Ok(inv) => {
            let expanded = expand(&inv.body, &inv.param, inv.start, inv.end);
            Ok(paste(&expanded))
        },
        Err(e) => Err(e),
    }
}

} // verus!
