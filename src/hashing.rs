//! Content digests, fresh identifiers and timestamps, as the outside crates
//! compute them.
use vstd::prelude::*;

verus! {

/// The lower-case hexadecimal BLAKE3 digest of a byte sequence.
pub uninterp spec fn blake3_hex(bytes: Seq<u8>) -> Seq<char>;

/// Computes content digests.
pub struct FileHasher;

impl FileHasher {
    /// Relies on `blake3::hash` and `Hash::to_hex`: the digest of the bytes
    /// as 64 lower-case hexadecimal digits.
    #[verifier::external_body]
    pub fn calculate_hash(buffer: &[u8]) -> (r: String)
        ensures
            r@ == blake3_hex(buffer@),
            r@.len() == 64,
    {
        blake3::hash(buffer).to_hex().to_string()
    }
}

/// Relies on `uuid::Uuid::new_v4`: a random identifier in its hyphenated text
/// form. Nothing is promised of its value.
#[verifier::external_body]
pub(crate) fn new_file_id() -> (r: String) {
    uuid::Uuid::new_v4().to_string()
}

/// Relies on `chrono::Utc::now` and `DateTime::to_rfc3339`: the current time
/// as RFC 3339 text. Nothing is promised of its value.
#[verifier::external_body]
pub(crate) fn current_timestamp() -> (r: String) {
    chrono::Utc::now().to_rfc3339()
}

} // verus!
