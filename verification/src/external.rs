//! Calls into other crates and the system, with what is taken on trust of each.
use crate::types::UsageReceipt;
use sha3::Digest;
use vstd::prelude::*;

verus! {

/// The Keccak-256 digest of `data`, as `sha3::Keccak256` computes it.
pub uninterp spec fn keccak256(data: Seq<u8>) -> [u8; 32];

/// Calls `sha3::Keccak256::digest`. Trusted: the digest is a function of the
/// bytes alone, which `keccak256` names.
#[verifier::external_body]
pub(crate) fn keccak256_digest(data: &[u8]) -> (digest: [u8; 32])
    ensures
        digest == keccak256(data@),
{
    sha3::Keccak256::digest(data).into()
}

/// Calls `hex::encode`. Trusted: the result is two lower-case hexadecimal
/// digits for each byte, in order.
#[verifier::external_body]
pub(crate) fn hex_encode(data: &[u8]) -> (text: String)
    ensures
        text@ == crate::text::hex_text(data@),
{
    hex::encode(data)
}

/// Calls `serde_json::to_vec` on an object with the receipt's fields as its
/// members. Trusted: the object is written without spaces, its members in the
/// order in which they are inserted (feature `preserve_order`), integers in
/// decimal, and a byte array as an array of its bytes. Writing such an object
/// does not fail.
#[verifier::external_body]
pub(crate) fn receipt_to_json(receipt: &UsageReceipt) -> (json: Vec<u8>)
    ensures
        json@ == crate::json::receipt_json(receipt@),
{
    let ids = receipt.expert_ids.iter().map(|id| serde_json::Value::from(id.0));
    let mut members = serde_json::Map::new();
    members.insert("request_id".into(), receipt.request_id.0.into());
    members.insert("expert_ids".into(), ids.collect());
    members.insert("token_count".into(), receipt.token_count.into());
    members.insert("timestamp".into(), receipt.timestamp.into());
    members.insert("node_signature".into(), receipt.node_signature.0.into());
    serde_json::to_vec(&members).unwrap_or_default()
}

/// Reads `std::time::SystemTime::now` as whole seconds since the Unix epoch;
/// `None` where the clock stands before it. Nothing is promised of the reading.
#[verifier::external_body]
pub(crate) fn unix_seconds() -> (seconds: Option<u64>) {
    let elapsed = std::time::SystemTime::now().duration_since(std::time::UNIX_EPOCH);
    elapsed.ok().map(|elapsed| elapsed.as_secs())
}

/// `text` is a version 4 UUID in its hyphenated form: 32 lower-case
/// hexadecimal digits in groups of 8, 4, 4, 4 and 12, of which the third begins
/// with the version and the fourth with the variant.
pub open spec fn is_uuid_v4(text: Seq<char>) -> bool {
    &&& text.len() == 36
    &&& forall|i: int|
        #![trigger text[i]]
        0 <= i < 36 ==> if i == 8 || i == 13 || i == 18 || i == 23 {
            text[i] == '-'
        } else {
            '0' <= text[i] <= '9' || 'a' <= text[i] <= 'f'
        }
    &&& text[14] == '4'
    &&& text[19] == '8' || text[19] == '9' || text[19] == 'a' || text[19] == 'b'
}

/// Calls `uuid::Uuid::new_v4`. Trusted: the text has the form of a version 4
/// UUID. Which one is left to chance. The call needs the system's source of
/// randomness, and panics where there is none.
#[verifier::external_body]
pub(crate) fn random_uuid() -> (text: String)
    ensures
        is_uuid_v4(text@),
{
    uuid::Uuid::new_v4().to_string()
}

} // verus!
