//! Fresh identifiers for messages and bridges.
use vstd::prelude::*;

verus! {

/// A lowercase hexadecimal digit.
pub open spec fn is_lower_hex(c: char) -> bool {
    ('0' <= c && c <= '9') || ('a' <= c && c <= 'f')
}

/// The hyphenated text of a version-4 UUID: 8-4-4-4-12 lowercase hex
/// digits, the version digit `4` first in the third group and the variant
/// digit (`8`, `9`, `a` or `b`) first in the fourth.
pub open spec fn uuid_v4_text(s: Seq<char>) -> bool {
    &&& s.len() == 36
    &&& forall|i: int|
        0 <= i < 36 ==> if i == 8 || i == 13 || i == 18 || i == 23 {
            #[trigger] s[i] == '-'
        } else {
            is_lower_hex(s[i])
        }
    &&& s[14] == '4'
    &&& (s[19] == '8' || s[19] == '9' || s[19] == 'a' || s[19] == 'b')
}

/// A fresh random identifier: `uuid::Uuid::new_v4()` in its text form,
/// which the crate writes hyphenated in lowercase hex, with the version and
/// variant bits of a version-4 UUID set. Nothing else is claimed of it: two
/// calls may give anything, equal or not.
#[verifier::external_body]
pub(crate) fn fresh_id() -> (res: String)
    ensures
        uuid_v4_text(res@),
{
    uuid::Uuid::new_v4().to_string()
}

} // verus!
