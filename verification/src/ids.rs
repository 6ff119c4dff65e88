//! Fresh record ids and timestamps.
use vstd::prelude::*;

verus! {

/// A UUID (`uuid::Uuid`).
#[verifier::external_type_specification]
#[verifier::external_body]
pub struct ExUuid(uuid::Uuid);

/// The form of a hyphenated lowercase UUID: 36 characters, `-` at 8, 13, 18
/// and 23, lowercase hex digits elsewhere.
pub open spec fn is_hyphenated_uuid(s: Seq<char>) -> bool {
    &&& s.len() == 36
    &&& forall|i: int|
        0 <= i < 36 ==> if i == 8 || i == 13 || i == 18 || i == 23 {
            s[i] == '-'
        } else {
            ('0' <= #[trigger] s[i] <= '9') || ('a' <= s[i] <= 'f')
        }
}

/// `uuid::Uuid::new_v4`: a random version-4 UUID. It is random; nothing is
/// claimed of its value.
#[verifier::external_body]
fn uuid_new_v4() -> (u: uuid::Uuid) {
    uuid::Uuid::new_v4()
}

/// `Display` of `uuid::Uuid`: the UUID in hyphenated lowercase form, which the
/// crate writes as 36 characters (`Hyphenated::LENGTH`).
#[verifier::external_body]
fn uuid_to_string(u: &uuid::Uuid) -> (s: String)
    ensures
        is_hyphenated_uuid(s@),
{
    u.to_string()
}

/// A new random record id.
pub fn new_id() -> (s: String)
    ensures
        is_hyphenated_uuid(s@),
{
    let u = uuid_new_v4();
    uuid_to_string(&u)
}

/// `chrono::Utc::now` followed by `chrono::DateTime::to_rfc3339`: the current
/// time as an RFC 3339 string. Both calls stand in this one item: the
/// library holds no `chrono::DateTime`, whose time-zone parameter is bound by
/// a trait of chrono. The time depends on the clock; nothing is claimed of it.
#[verifier::external_body]
pub fn now_rfc3339() -> (s: String) {
    chrono::Utc::now().to_rfc3339()
}

} // verus!
