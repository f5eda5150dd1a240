//! What the library takes from other crates and from `std` without proof.
//!
//! Each function makes one outside call on plain values. Where the result
//! takes pages to describe, a spec function without a body names it.
use vstd::prelude::*;
use vstd::utf8::{decode_utf8, valid_utf8};

verus! {

/// What [`lossy`] gives.
pub uninterp spec fn lossy_text(bytes: Seq<u8>) -> Seq<char>;

/// `String::from_utf8_lossy`: the text of `bytes`, with replacement
/// characters where they are not UTF-8. On valid UTF-8 it is the decoded text.
#[verifier::external_body]
pub(crate) fn lossy(bytes: &[u8]) -> (r: String)
    ensures
        r@ == lossy_text(bytes@),
        valid_utf8(bytes@) ==> r@ == decode_utf8(bytes@),
{
    String::from_utf8_lossy(bytes).into_owned()
}

/// The message with which [`utf8_text`] refuses bytes.
pub uninterp spec fn utf8_error(bytes: Seq<u8>) -> Seq<char>;

/// `std::str::from_utf8`: the text of `bytes` where they are valid UTF-8, else
/// the error's message.
#[verifier::external_body]
pub(crate) fn utf8_text(bytes: &[u8]) -> (r: Result<String, String>)
    ensures
        match r {
            Ok(text) => valid_utf8(bytes@) && text@ == decode_utf8(bytes@),
            Err(message) => !valid_utf8(bytes@) && message@ == utf8_error(bytes@),
        },
{
    match std::str::from_utf8(bytes) {
        Ok(text) => Ok(text.to_owned()),
        Err(error) => Err(error.to_string()),
    }
}

/// `char::from_u32`: the character with the code `value`, where it is a Unicode
/// scalar value.
#[verifier::external_body]
pub(crate) fn scalar(value: u32) -> (r: Option<char>)
    ensures
        r == (if value < 0xD800 || 0xE000 <= value <= 0x10FFFF {
            Some(value as char)
        } else {
            None
        }),
{
    char::from_u32(value)
}

/// The SHA-256 digest of a message.
pub uninterp spec fn sha256_of(bytes: Seq<u8>) -> Seq<u8>;

/// `sha2::Sha256::digest`: the digest of `bytes`, which has 32 bytes.
#[verifier::external_body]
pub(crate) fn sha256(bytes: &[u8]) -> (r: Vec<u8>)
    ensures
        r@ == sha256_of(bytes@),
        r@.len() == 32,
{
    <sha2::Sha256 as sha2::Digest>::digest(bytes).to_vec()
}

/// The message with which a version text is refused; none where it parses.
pub uninterp spec fn version_error(text: Seq<char>) -> Option<Seq<char>>;

/// `semver::Version::parse`: the error's message, or none where `text` is a
/// semantic version.
#[verifier::external_body]
pub(crate) fn version_problem(text: &str) -> (r: Option<String>)
    ensures
        match r {
            Some(message) => version_error(text@) == Some(message@),
            None => version_error(text@) is None,
        },
{
    match semver::Version::parse(text) {
        Ok(_) => None,
        Err(error) => Some(error.to_string()),
    }
}

/// One version comes after another in the order of semantic versions.
pub uninterp spec fn version_after(later: Seq<char>, earlier: Seq<char>) -> bool;

/// `>` on `semver::Version`: `later` comes after `earlier`. A version does not
/// come after itself.
#[verifier::external_body]
pub(crate) fn is_after(later: &str, earlier: &str) -> (r: bool)
    requires
        version_error(later@) is None,
        version_error(earlier@) is None,
    ensures
        r == version_after(later@, earlier@),
        later@ == earlier@ ==> !r,
{
    match (semver::Version::parse(later), semver::Version::parse(earlier)) {
        (Ok(later), Ok(earlier)) => later > earlier,
        _ => false,
    }
}

/// A version requirement parses and admits a version that parses.
pub uninterp spec fn requirement_meets(requirement: Seq<char>, version: Seq<char>) -> bool;

/// `semver::VersionReq::matches`, on two texts: both parse, and the
/// requirement admits the version.
#[verifier::external_body]
pub(crate) fn requirement_admits(requirement: &str, version: &str) -> (r: bool)
    ensures
        r == requirement_meets(requirement@, version@),
{
    match (semver::VersionReq::parse(requirement), semver::Version::parse(version)) {
        (Ok(requirement), Ok(version)) => requirement.matches(&version),
        _ => false,
    }
}

/// The message with which a public key is refused; none where it decodes.
pub uninterp spec fn key_error(key: Seq<char>) -> Option<Seq<char>>;

/// `minisign_verify::PublicKey::decode`: the error's message, or none where
/// `key` is a Minisign public key file.
#[verifier::external_body]
pub(crate) fn key_problem(key: &str) -> (r: Option<String>)
    ensures
        match r {
            Some(message) => key_error(key@) == Some(message@),
            None => key_error(key@) is None,
        },
{
    match minisign_verify::PublicKey::decode(key) {
        Ok(_) => None,
        Err(error) => Some(error.to_string()),
    }
}

/// The message with which a signature is refused; none where it decodes.
pub uninterp spec fn signature_error(signature: Seq<char>) -> Option<Seq<char>>;

/// `minisign_verify::Signature::decode`: the error's message, or none where
/// `signature` is a Minisign signature file.
#[verifier::external_body]
pub(crate) fn signature_problem(signature: &str) -> (r: Option<String>)
    ensures
        match r {
            Some(message) => signature_error(signature@) == Some(message@),
            None => signature_error(signature@) is None,
        },
{
    match minisign_verify::Signature::decode(signature) {
        Ok(_) => None,
        Err(error) => Some(error.to_string()),
    }
}

/// The message with which a signature is found not to cover a message; none
/// where it does.
pub uninterp spec fn verify_error(
    key: Seq<char>,
    message: Seq<u8>,
    signature: Seq<char>,
) -> Option<Seq<char>>;

/// `minisign_verify::PublicKey::verify`, without legacy signatures: the
/// error's message, or none where `signature` is `key`'s on `message`.
#[verifier::external_body]
pub(crate) fn verify_problem(key: &str, message: &[u8], signature: &str) -> (r: Option<String>)
    requires
        key_error(key@) is None,
        signature_error(signature@) is None,
    ensures
        match r {
            Some(text) => verify_error(key@, message@, signature@) == Some(text@),
            None => verify_error(key@, message@, signature@) is None,
        },
{
    let key = minisign_verify::PublicKey::decode(key);
    match (key, minisign_verify::Signature::decode(signature)) {
        (Ok(key), Ok(signature)) => match key.verify(message, &signature, false) {
            Ok(()) => None,
            Err(error) => Some(error.to_string()),
        },
        (Err(error), _) | (_, Err(error)) => Some(error.to_string()),
    }
}

/// The first JSON value of a text, as it is written, and what follows it; none
/// where the text is blank or does not start with a value.
pub uninterp spec fn json_first(text: Seq<char>) -> Option<(Seq<char>, Seq<char>)>;

/// One step of `serde_json::StreamDeserializer` over raw values.
#[verifier::external_body]
pub(crate) fn first_json(text: &str) -> (r: Option<(String, String)>)
    ensures
        match r {
            Some((raw, rest)) => json_first(text@) == Some((raw@, rest@)),
            None => json_first(text@) is None,
        },
{
    let source = serde_json::Deserializer::from_str(text);
    let mut stream = source.into_iter::<Box<serde_json::value::RawValue>>();
    match stream.next() {
        Some(Ok(value)) => {
            Some((value.get().to_owned(), text[stream.byte_offset()..].to_owned()))
        },
        _ => None,
    }
}

/// The text that a JSON string literal writes.
pub uninterp spec fn json_string(raw: Seq<char>) -> Option<Seq<char>>;

/// `serde_json::from_str` to `String`.
#[verifier::external_body]
pub(crate) fn string_json(raw: &str) -> (r: Option<String>)
    ensures
        match r {
            Some(text) => json_string(raw@) == Some(text@),
            None => json_string(raw@) is None,
        },
{
    match serde_json::from_str::<String>(raw) {
        Ok(text) => Some(text),
        Err(_) => None,
    }
}

/// The canonical text of the number that a JSON number literal writes.
pub uninterp spec fn json_number(raw: Seq<char>) -> Option<Seq<char>>;

/// `serde_json::from_str` to `Number`, as text.
#[verifier::external_body]
pub(crate) fn number_json(raw: &str) -> (r: Option<String>)
    ensures
        match r {
            Some(text) => json_number(raw@) == Some(text@),
            None => json_number(raw@) is None,
        },
{
    match serde_json::from_str::<serde_json::Number>(raw) {
        Ok(number) => Some(number.to_string()),
        Err(_) => None,
    }
}

/// What [`tar_member`] finds.
pub enum TarMember {
    /// The archive has no member at this place.
    End,
    /// The archive cannot be read this far, with the error's message.
    Unreadable(String),
    /// A member: its size, its path and whether it is a regular file.
    Found(u64, Vec<u8>, bool),
}

/// The model of a [`TarMember`].
pub enum TarMemberView {
    End,
    Unreadable(Seq<char>),
    Found(u64, Seq<u8>, bool),
}

impl View for TarMember {
    type V = TarMemberView;

    open spec fn view(&self) -> TarMemberView {
        match *self {
            TarMember::End => TarMemberView::End,
            TarMember::Unreadable(message) => TarMemberView::Unreadable(message@),
            TarMember::Found(size, path, regular) => TarMemberView::Found(size, path@, regular),
        }
    }
}

/// The member at a place in a gzip-compressed tar archive.
pub uninterp spec fn tar_member_at(archive: Seq<u8>, index: int) -> TarMemberView;

/// `tar::Entries` over a `flate2::read::GzDecoder`: the member at `index`.
#[verifier::external_body]
pub(crate) fn tar_member(archive: &[u8], index: usize) -> (r: TarMember)
    ensures
        r@ == tar_member_at(archive@, index as int),
{
    let mut tar = tar::Archive::new(flate2::read::GzDecoder::new(archive));
    let found = match tar.entries() {
        Ok(mut entries) => entries.nth(index),
        Err(error) => return TarMember::Unreadable(error.to_string()),
    };
    match found {
        None => TarMember::End,
        Some(Err(error)) => TarMember::Unreadable(error.to_string()),
        Some(Ok(entry)) => {
            let regular = entry.header().entry_type().is_file();
            TarMember::Found(entry.size(), entry.path_bytes().into_owned(), regular)
        },
    }
}

/// The contents of the member at a place in a gzip-compressed tar archive, or
/// the message with which reading it fails.
pub uninterp spec fn tar_contents_at(archive: Seq<u8>, index: int) -> Result<Seq<u8>, Seq<char>>;

/// Reading a `tar::Entry` to its end: the contents of the member at `index`.
/// Where there is no such member the result is empty.
#[verifier::external_body]
pub(crate) fn tar_contents(archive: &[u8], index: usize) -> (r: Result<Vec<u8>, String>)
    ensures
        match r {
            Ok(bytes) => tar_contents_at(archive@, index as int) == Ok::<Seq<u8>, Seq<char>>(
                bytes@,
            ),
            Err(message) => tar_contents_at(archive@, index as int) == Err::<Seq<u8>, Seq<char>>(
                message@,
            ),
        },
{
    let mut tar = tar::Archive::new(flate2::read::GzDecoder::new(archive));
    let mut bytes = Vec::new();
    let read = match tar.entries().and_then(|mut entries| entries.nth(index).transpose()) {
        Ok(Some(mut entry)) => std::io::Read::read_to_end(&mut entry, &mut bytes),
        Ok(None) => Ok(0),
        Err(error) => Err(error),
    };
    match read {
        Ok(_) => Ok(bytes),
        Err(error) => Err(error.to_string()),
    }
}

} // verus!
