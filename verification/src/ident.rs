//! Strict identifier validation for column names.
//!
//! Column names are interpolated into statement text rather than bound as
//! values, so every name is checked against a strict identifier pattern
//! (ASCII letters, digits and underscore only) before any SQL is built.

use vstd::prelude::*;

verus! {

/// An identifier character: an ASCII letter, an ASCII digit, or an
/// underscore.
pub open spec fn is_ident_char(c: char) -> bool {
    ('a' <= c && c <= 'z') || ('A' <= c && c <= 'Z') || ('0' <= c && c <= '9') || c == '_'
}

/// A column name is safe to interpolate into SQL text exactly when it is
/// non-empty and made of identifier characters only.
pub open spec fn valid_column_name(s: Seq<char>) -> bool {
    s.len() > 0 && forall|i: int| 0 <= i < s.len() ==> is_ident_char(s[i])
}

/// Checks that a column name is non-empty and holds only ASCII letters,
/// digits and underscores, so interpolating it into statement text cannot
/// change the statement's shape.
pub fn is_valid_column_name(s: &str) -> (r: bool)
    ensures
        r == valid_column_name(s@),
{
    if !s.is_ascii() {
        // every identifier character is ASCII, so a non-ASCII name is invalid
        proof {
            if valid_column_name(s@) {
                assert forall|i: int| 0 <= i < s@.len() implies '\0' <= #[trigger] s@[i]
                    <= '\u{7f}' by {
                    assert(is_ident_char(s@[i]));
                }
                assert(vstd::utf8::is_ascii_chars(s@));
            }
        }
        return false;
    }
    proof {
        broadcast use vstd::string::group_string_axioms;
    }
    let n = s.unicode_len();
    if n == 0 {
        return false;
    }
    let mut i: usize = 0;
    while i < n
        invariant
            0 <= i <= n,
            n == s@.len(),
            forall|j: int| 0 <= j < i ==> is_ident_char(s@[j]),
        decreases n - i,
    {
        let c = s.get_char(i);
        if !(('a' <= c && c <= 'z') || ('A' <= c && c <= 'Z') || ('0' <= c && c <= '9') || c
            == '_') {
            return false;
        }
        i += 1;
    }
    true
}

} // verus!
