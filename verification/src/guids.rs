//! The identifiers that REAPER gives its tracks and media items: GUIDs written in braces,
//! read as UUIDs.
use vstd::prelude::*;

verus! {

/// The bytes of the UUID that `uuid::Uuid::try_parse` reads from `text`, or `None` where it
/// refuses the text.
pub uninterp spec fn parsed_uuid(text: Seq<char>) -> Option<Seq<u8>>;

/// Whether `bytes` are those of a random (version 4, RFC 4122 variant) UUID.
pub open spec fn is_random_uuid(bytes: Seq<u8>) -> bool {
    bytes.len() == 16 && bytes[6] >> 4u8 == 4u8 && bytes[8] >> 6u8 == 2u8
}

/// The text of a GUID without its enclosing braces: all but the first and last characters.
pub open spec fn guid_inner(guid: Seq<char>) -> Seq<char> {
    guid.subrange(1, guid.len() - 1)
}

/// Whether a GUID text can be stripped of its enclosing characters: at least two
/// characters, the first and the last of them ASCII.
pub open spec fn strippable(guid: Seq<char>) -> bool {
    &&& guid.len() >= 2
    &&& (guid[0] as u32) < 128
    &&& (guid[guid.len() - 1] as u32) < 128
}

/// `uuid::Uuid::try_parse` on `text`, with the UUID's bytes on success. Which texts it
/// accepts and what it reads from them is named by `parsed_uuid`, not written out.
#[verifier::external_body]
fn try_parse_uuid(text: &str) -> (r: Option<[u8; 16]>)
    ensures
        match r {
            Some(bytes) => parsed_uuid(text@) == Some(bytes@),
            None => parsed_uuid(text@) is None,
        },
{
    match uuid::Uuid::try_parse(text) {
        Ok(id) => Some(*id.as_bytes()),
        Err(_) => None,
    }
}

/// `uuid::Uuid::new_v4`: a random UUID, with the version nibble set to 4 and the variant
/// bits to those of RFC 4122. The other bits come from the random source and are not
/// stated.
#[verifier::external_body]
fn new_random_uuid() -> (r: [u8; 16])
    ensures
        is_random_uuid(r@),
{
    *uuid::Uuid::new_v4().as_bytes()
}

/// Reads the UUID of a media item or take from its GUID text, written in braces.
pub fn uuid_from_guid(guid: &str) -> (r: Option<[u8; 16]>)
    requires
        strippable(guid@),
    ensures
        match r {
            Some(bytes) => parsed_uuid(guid_inner(guid@)) == Some(bytes@),
            None => parsed_uuid(guid_inner(guid@)) is None,
        },
{
    let n = guid.unicode_len();
    let inner = guid.substring_char(1, n - 1);
    try_parse_uuid(inner)
}

/// The UUID of a track from its GUID text, written in braces; a random UUID where the text
/// cannot be read.
pub fn track_uuid_from_guid(guid: &str) -> (r: [u8; 16])
    requires
        strippable(guid@),
    ensures
        match parsed_uuid(guid_inner(guid@)) {
            Some(bytes) => r@ == bytes,
            None => is_random_uuid(r@),
        },
{
    match uuid_from_guid(guid) {
        Some(bytes) => bytes,
        None => new_random_uuid(),
    }
}

} // verus!
