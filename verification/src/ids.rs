//! Random identifiers.
use vstd::prelude::*;

verus! {

pub open spec fn lower_hex(c: char) -> bool {
    ('0' <= c && c <= '9') || ('a' <= c && c <= 'f')
}

/// A random UUID in hyphenated form: 36 characters, hyphens at four fixed
/// places, lower-case hexadecimal digits at the others, version 4, and the
/// variant of RFC 9562.
pub open spec fn random_uuid(s: Seq<char>) -> bool {
    &&& s.len() == 36
    &&& forall|i: int|
        0 <= i < 36 ==> if i == 8 || i == 13 || i == 18 || i == 23 {
            #[trigger] s[i] == '-'
        } else {
            lower_hex(s[i])
        }
    &&& s[14] == '4'
    &&& (s[19] == '8' || s[19] == '9' || s[19] == 'a' || s[19] == 'b')
}

/// A new identifier.
///
/// Trusted: `uuid::Uuid::new_v4().to_string()` writes a version 4 UUID in
/// hyphenated lower-case form. Which one is left to chance; that two calls
/// differ is not stated, since nothing but probability speaks for it.
#[verifier::external_body]
pub(crate) fn fresh_id() -> (id: String)
    ensures
        random_uuid(id@),
{
    uuid::Uuid::new_v4().to_string()
}

} // verus!
