//! RFC 2254 search filters: the tree, the grammar and the parser.

use vstd::prelude::*;
use vstd::utf8::encode_utf8;
use crate::error::Error;
use crate::filter::tree::Filter;

pub mod escape;
pub mod grammar;
pub mod order;
pub mod parser;
pub mod render;
pub mod tree;

verus! {

/// The parser of the filter language of [`grammar`].
pub struct FilterParser;

impl FilterParser {
    /// Parses the bytes of a filter text.
    ///
    /// Gives the tree that the grammar assigns to the whole of `input`, and
    /// `InvalidFilter` where the grammar assigns none. The tree is
    /// well-formed: its sets are not empty and in the order of sets, its names
    /// are names, its substring patterns are in order.
    pub fn parse(input: &[u8]) -> (r: Result<Filter, Error>)
        ensures
            match grammar::parse(input@) {
                Some(f) => r matches Ok(g) && g@ == f && render::wf(f),
                None => r == Err::<Filter, Error>(Error::InvalidFilter),
            },
    {
        proof {
            render::lemma_parsed_is_well_formed(input@);
        }
        match parser::parse_rule(input, 0) {
            None => Err(Error::InvalidFilter),
            Some((f, e)) => if e == input.len() {
                Ok(f)
            } else {
                Err(Error::InvalidFilter)
            },
        }
    }
}

/// Parses an RFC 2254 filter text, taken as its UTF-8 bytes.
///
/// Gives the tree that the grammar assigns to the text, which is
/// well-formed, and `InvalidFilter` where the grammar assigns none.
pub fn parse_filter(filter: &str) -> (r: Result<Filter, Error>)
    ensures
        match grammar::parse(encode_utf8(filter@)) {
            Some(f) => r matches Ok(g) && g@ == f && render::wf(f),
            None => r == Err::<Filter, Error>(Error::InvalidFilter),
        },
{
    FilterParser::parse(filter.as_bytes())
}

} // verus!
