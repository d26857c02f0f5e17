//! Validation of database, table and column identifiers.

use vstd::prelude::*;

verus! {

/// A character allowed in an identifier: ASCII letters, digits and `_`.
pub open spec fn is_name_char(c: char) -> bool {
    ('a' <= c && c <= 'z') || ('A' <= c && c <= 'Z') || ('0' <= c && c <= '9') || c == '_'
}

/// Whether `name` is a valid identifier for a database, table or column:
/// non-empty and made only of ASCII alphanumeric characters or underscore.
pub open spec fn is_valid_name(name: Seq<char>) -> bool {
    name.len() > 0 && forall|i: int| 0 <= i < name.len() ==> is_name_char(#[trigger] name[i])
}

/// Validates the name of fields, databases, columns.
pub fn validate_name(name: &str) -> (r: bool)
    ensures
        r == is_valid_name(name@),
{
    let len = name.unicode_len();
    if len == 0 {
        return false;
    }
    let mut i: usize = 0;
    while i < len
        invariant
            0 < len == name@.len(),
            0 <= i <= len,
            forall|j: int| 0 <= j < i ==> is_name_char(#[trigger] name@[j]),
        decreases len - i,
    {
        let c = name.get_char(i);
        let ok = ('a' <= c && c <= 'z') || ('A' <= c && c <= 'Z') || ('0' <= c && c <= '9')
            || c == '_';
        if !ok {
            return false;
        }
        i += 1;
    }
    true
}

} // verus!
