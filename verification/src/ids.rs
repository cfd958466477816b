//! Fresh identifiers for rooms and participants: random (version 4) UUIDs
//! in their hyphenated lowercase text form.
use vstd::prelude::*;

use crate::crypto::is_lower_hex;

verus! {

/// `s` is a UUID written the hyphenated lowercase way: 36 characters,
/// dashes at 8, 13, 18 and 23, lowercase hex digits elsewhere.
pub open spec fn is_uuid_text(s: Seq<char>) -> bool {
    &&& s.len() == 36
    &&& forall|i: int|
        0 <= i < 36 ==> if i == 8 || i == 13 || i == 18 || i == 23 {
            #[trigger] s[i] == '-'
        } else {
            is_lower_hex(s[i])
        }
}

/// `uuid::Uuid::new_v4().to_string()`: a random UUID, which the crate's
/// `Display` writes hyphenated in lowercase hex. Only that form is claimed;
/// the value is random.
#[verifier::external_body]
pub(crate) fn new_uuid() -> (res: String)
    ensures
        is_uuid_text(res@),
{
    uuid::Uuid::new_v4().to_string()
}

} // verus!
