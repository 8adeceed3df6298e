//! The identifier rules of the CQL dialect: identifiers begin with a
//! letter and continue with letters, digits, or underscores.

use vstd::prelude::*;

verus! {

/// Whether a character may begin an identifier: an ASCII letter.
pub open spec fn spec_is_identifier_start(ch: char) -> bool {
    (97 <= ch as u32 <= 122) || (65 <= ch as u32 <= 90)
}

/// Whether a character may continue an identifier: an ASCII letter, a
/// digit, or an underscore.
pub open spec fn spec_is_identifier_part(ch: char) -> bool {
    spec_is_identifier_start(ch) || (48 <= ch as u32 <= 57) || ch as u32 == 95
}

/// The CQL identifier rules.
#[derive(Debug, Clone)]
pub struct CassandraDialect {}

impl CassandraDialect {
    /// Whether a character may begin an identifier.
    pub fn is_identifier_start(&self, ch: char) -> (r: bool)
        ensures
            r == spec_is_identifier_start(ch),
    {
        let u = ch as u32;
        (97 <= u && u <= 122) || (65 <= u && u <= 90)
    }

    /// Whether a character may continue an identifier.
    pub fn is_identifier_part(&self, ch: char) -> (r: bool)
        ensures
            r == spec_is_identifier_part(ch),
    {
        let u = ch as u32;
        self.is_identifier_start(ch) || (48 <= u && u <= 57) || u == 95
    }
}

} // verus!
