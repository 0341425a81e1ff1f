//! Fresh identities.

use vstd::prelude::*;

verus! {

pub open spec fn lower_hex(c: char) -> bool {
    '0' <= c <= '9' || 'a' <= c <= 'f'
}

/// The form of an identity: hexadecimal digits in five groups.
pub open spec fn is_uid(s: Seq<char>) -> bool {
    &&& s.len() == 36
    &&& forall|i: int|
        0 <= i < 36 ==> if i == 8 || i == 13 || i == 18 || i == 23 {
            #[trigger] s[i] == '-'
        } else {
            lower_hex(s[i])
        }
}

/// A fresh identity: calls `uuid::Uuid::new_v4` and writes it out. Claimed of
/// it is its form alone: 36 characters, which are hyphens at four places and
/// lower-case hexadecimal digits everywhere else. That no two are the same is
/// not claimed.
#[verifier::external_body]
pub(crate) fn new_uid() -> (uid: String)
    ensures
        is_uid(uid@),
{
    uuid::Uuid::new_v4().to_string()
}

/// A fresh identity without hyphens: calls `uuid::Uuid::new_v4` and writes it
/// out in its simple form. Claimed of it is its form alone: 32 lower-case
/// hexadecimal digits.
#[verifier::external_body]
pub(crate) fn new_simple_uid() -> (uid: String)
    ensures
        uid@.len() == 32,
        forall|i: int| 0 <= i < 32 ==> lower_hex(#[trigger] uid@[i]),
{
    uuid::Uuid::new_v4().simple().to_string()
}

} // verus!
