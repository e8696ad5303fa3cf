//! Fresh ids and the time.
use vstd::prelude::*;

verus! {

/// Whether a character is a hexadecimal digit in lower case.
pub open spec fn is_hex_digit(c: char) -> bool {
    ('0' <= c && c <= '9') || ('a' <= c && c <= 'f')
}

/// Whether a text is a random UUID: 32 hexadecimal digits in five groups, with the version 4 and
/// one of the four digits of its variant in their places.
pub open spec fn is_uuid(s: Seq<char>) -> bool {
    &&& s.len() == 36
    &&& forall|i: int|
        0 <= i < 36 ==> if i == 8 || i == 13 || i == 18 || i == 23 {
            #[trigger] s[i] == '-'
        } else {
            is_hex_digit(s[i])
        }
    &&& s[14] == '4'
    &&& s[19] == '8' || s[19] == '9' || s[19] == 'a' || s[19] == 'b'
}

/// `uuid::Uuid::new_v4`, displayed: a random UUID in lower case with hyphens. Nothing is said of
/// its digits beyond its form, nor that no two are the same.
#[verifier::external_body]
pub(crate) fn new_id() -> (r: String)
    ensures
        is_uuid(r@),
{
    uuid::Uuid::new_v4().to_string()
}

/// `chrono::Utc::now` in milliseconds since 1970, which is never negative.
#[verifier::external_body]
pub(crate) fn now_millis() -> (r: i64)
    ensures
        r >= 0,
{
    chrono::Utc::now().timestamp_millis()
}

/// Whether all texts of a list are UUIDs.
pub open spec fn are_uuids(ids: Seq<String>) -> bool {
    forall|i: int| 0 <= i < ids.len() ==> is_uuid((#[trigger] ids[i])@)
}

/// As many fresh ids as asked for.
pub fn new_ids(n: usize) -> (r: Vec<String>)
    ensures
        r@.len() == n,
        are_uuids(r@),
{
    let mut ids: Vec<String> = Vec::new();
    for i in 0..n
        invariant
            ids@.len() == i,
            are_uuids(ids@),
    {
        ids.push(new_id());
    }
    ids
}

} // verus!
