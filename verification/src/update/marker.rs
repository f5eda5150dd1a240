//! Digests, version texts and the files beside a standalone installation.
use crate::json::{
    count, count_of, document, document_of, member, member_of, node, node_of, object_text,
    pair_views, text_members, write_object, Node, NodeView,
};
use crate::outside::{json_string, sha256, sha256_of, string_json};
use crate::path::{renamed, with_file_name};
use crate::text::{chars_of, text_views, utf8, utf8_of};
use crate::update::model::{MarkerView, StandaloneMarker};
use vstd::prelude::*;

verus! {

// ---------------------------------------------------------------------------
// Digests
// ---------------------------------------------------------------------------

/// The lower-case hexadecimal digit `n`.
pub open spec fn hex_char(n: int) -> char {
    if n < 10 {
        (48 + n) as char
    } else {
        (87 + n) as char
    }
}

/// Bytes in hexadecimal: two digits each, the high one first.
pub open spec fn hex_of(bytes: Seq<u8>) -> Seq<char>
    decreases bytes.len(),
{
    if bytes.len() == 0 {
        Seq::empty()
    } else {
        hex_of(bytes.drop_last()).push(hex_char(bytes.last() as int / 16)).push(
            hex_char(bytes.last() as int % 16),
        )
    }
}

/// The value of a lower-case hexadecimal digit.
pub open spec fn hex_value(c: char) -> int {
    if c as u32 >= 97 {
        c as u32 - 87
    } else {
        c as u32 - 48
    }
}

/// Two byte strings with the same hexadecimal text are the same.
pub proof fn law_hex_tells_apart(a: Seq<u8>, b: Seq<u8>)
    requires
        hex_of(a) == hex_of(b),
    ensures
        a == b,
    decreases a.len(),
{
    lemma_hex_len(a);
    lemma_hex_len(b);
    if a.len() > 0 {
        let n = hex_of(a).len() as int;
        let (x, y) = (a.last() as int, b.last() as int);
        assert(hex_of(a)[n - 1] == hex_char(x % 16) && hex_of(b)[n - 1] == hex_char(y % 16));
        assert(hex_of(a)[n - 2] == hex_char(x / 16) && hex_of(b)[n - 2] == hex_char(y / 16));
        lemma_hex_char(x % 16);
        lemma_hex_char(y % 16);
        lemma_hex_char(x / 16);
        lemma_hex_char(y / 16);
        assert(x == y);
        assert(hex_of(a.drop_last()) =~= hex_of(a).take(n - 2));
        assert(hex_of(b.drop_last()) =~= hex_of(b).take(n - 2));
        law_hex_tells_apart(a.drop_last(), b.drop_last());
        assert(a =~= a.drop_last().push(a.last()));
        assert(b =~= b.drop_last().push(b.last()));
    } else {
        assert(a =~= b);
    }
}

proof fn lemma_hex_char(n: int)
    requires
        0 <= n < 16,
    ensures
        hex_value(hex_char(n)) == n,
{
}

/// The hexadecimal text has two characters per byte.
pub proof fn lemma_hex_len(bytes: Seq<u8>)
    ensures
        hex_of(bytes).len() == 2 * bytes.len(),
    decreases bytes.len(),
{
    if bytes.len() > 0 {
        lemma_hex_len(bytes.drop_last());
    }
}

fn hex_digit(n: u8) -> (r: char)
    requires
        n < 16,
    ensures
        r == hex_char(n as int),
{
    if n < 10 {
        (48 + n) as char
    } else {
        (87 + n) as char
    }
}

/// `bytes` in hexadecimal.
pub fn hex_digest(bytes: &[u8]) -> (r: String)
    ensures
        r@ == hex_of(bytes@),
{
    let mut out = String::new();
    assert(bytes@.take(0) =~= Seq::empty());
    for i in 0..bytes.len()
        invariant
            out@ == hex_of(bytes@.take(i as int)),
    {
        assert(bytes@.take(i + 1).drop_last() =~= bytes@.take(i as int));
        out.push(hex_digit(bytes[i] / 16));
        out.push(hex_digit(bytes[i] % 16));
    }
    assert(bytes@.take(bytes@.len() as int) =~= bytes@);
    out
}

/// The SHA-256 digest of a message, in hexadecimal.
pub open spec fn digest_of(bytes: Seq<u8>) -> Seq<char> {
    hex_of(sha256_of(bytes))
}

/// The SHA-256 digest of `bytes`, in hexadecimal.
pub fn digest(bytes: &[u8]) -> (r: String)
    ensures
        r@ == digest_of(bytes@),
        r@.len() == 64,
{
    let hash = sha256(bytes);
    proof {
        lemma_hex_len(hash@);
    }
    hex_digest(hash.as_slice())
}

// ---------------------------------------------------------------------------
// Versions
// ---------------------------------------------------------------------------

/// A decimal digit.
pub open spec fn ascii_digit(c: char) -> bool {
    '0' <= c <= '9'
}

/// A character that a version may hold.
pub open spec fn version_char(c: char) -> bool {
    ||| ascii_digit(c)
    ||| 'a' <= c <= 'z'
    ||| 'A' <= c <= 'Z'
    ||| c == '.'
    ||| c == '-'
    ||| c == '+'
}

/// A text that may stand for a version in a file name or a URL: it holds a
/// digit, and letters, digits, `.`, `-` and `+` only.
pub open spec fn version_like(s: Seq<char>) -> bool {
    &&& exists|i: int| 0 <= i < s.len() && ascii_digit(#[trigger] s[i])
    &&& forall|i: int| 0 <= i < s.len() ==> version_char(#[trigger] s[i])
}

/// `version` may stand for a version in a file name or a URL.
pub fn safe_version(version: &str) -> (r: bool)
    ensures
        r == version_like(version@),
{
    let chars = chars_of(version);
    let mut digit = false;
    for i in 0..chars.len()
        invariant
            chars@ == version@,
            digit <==> exists|k: int| 0 <= k < i && ascii_digit(#[trigger] chars@[k]),
            forall|k: int| 0 <= k < i ==> version_char(#[trigger] chars@[k]),
    {
        let c = chars[i];
        let is_digit = '0' <= c && c <= '9';
        if !(is_digit || ('a' <= c && c <= 'z') || ('A' <= c && c <= 'Z') || c == '.' || c == '-'
            || c == '+') {
            return false;
        }
        if is_digit {
            assert(ascii_digit(chars@[i as int]));
            digit = true;
        }
    }
    digit
}

/// A safe version holds no separator, no white space and no control
/// character: it names one path segment.
pub proof fn law_safe_version_is_one_segment(version: Seq<char>, i: int)
    requires
        version_like(version),
        0 <= i < version.len(),
    ensures
        version[i] != '/',
        version[i] != '\\',
        version[i] > ' ',
{
    assert(version_char(version[i]));
}

// ---------------------------------------------------------------------------
// Files beside the executables
// ---------------------------------------------------------------------------

/// Where the owner marker lies.
pub open spec fn marker_at(executable: Seq<u8>) -> Seq<u8> {
    renamed(executable, utf8(".ramiz-owner.json"@))
}

/// Where the signed manifest lies.
pub open spec fn manifest_at(executable: Seq<u8>) -> Seq<u8> {
    renamed(executable, utf8(".ramiz-checksums.txt"@))
}

/// Where the manifest's signature lies.
pub open spec fn signature_at(executable: Seq<u8>) -> Seq<u8> {
    renamed(executable, utf8(".ramiz-checksums.txt.minisig"@))
}

/// Where the owner marker of `executable` lies.
pub fn marker_path(executable: &[u8]) -> (r: Vec<u8>)
    ensures
        r@ == marker_at(executable@),
{
    with_file_name(executable, utf8_of(".ramiz-owner.json"))
}

/// Where the signed manifest of `executable` lies.
pub fn manifest_path(executable: &[u8]) -> (r: Vec<u8>)
    ensures
        r@ == manifest_at(executable@),
{
    with_file_name(executable, utf8_of(".ramiz-checksums.txt"))
}

/// Where the signature of the manifest of `executable` lies.
pub fn signature_path(executable: &[u8]) -> (r: Vec<u8>)
    ensures
        r@ == signature_at(executable@),
{
    with_file_name(executable, utf8_of(".ramiz-checksums.txt.minisig"))
}

// ---------------------------------------------------------------------------
// Objects of texts
// ---------------------------------------------------------------------------

/// What the member `key` writes, where there is exactly one and it is a text.
pub open spec fn field_of(members: Seq<(Seq<char>, Seq<char>)>, key: Seq<char>) -> Option<
    Seq<char>,
> {
    if count_of(members, key) == 1 {
        json_string(member_of(members, key)->0)
    } else {
        None
    }
}

/// What the member `key` writes, where there is exactly one and it is a text.
pub fn field(members: &Vec<(String, String)>, key: &str) -> (r: Option<String>)
    ensures
        match r {
            Some(text) => field_of(pair_views(members@), key@) == Some(text@),
            None => field_of(pair_views(members@), key@) is None,
        },
{
    if count(members, key) != 1 {
        return None;
    }
    proof {
        lemma_counted_is_member(pair_views(members@), key@);
    }
    match member(members, key) {
        Some(raw) => string_json(raw.as_str()),
        None => None,
    }
}

/// A key that is counted is present.
proof fn lemma_counted_is_member(members: Seq<(Seq<char>, Seq<char>)>, key: Seq<char>)
    requires
        count_of(members, key) > 0,
    ensures
        member_of(members, key) is Some,
    decreases members.len(),
{
    if members.last().0 != key {
        lemma_counted_is_member(members.drop_last(), key);
    }
}

/// The texts of a record with the fields `keys`: an object that has each of
/// them once, or an array of exactly that many texts.
pub open spec fn record_of(text: Seq<char>, keys: Seq<Seq<char>>) -> Option<Seq<Seq<char>>> {
    match document_of(text) {
        None => None,
        Some(raw) => match node_of(raw) {
            Some(NodeView::Object(members)) => if forall|i: int|
                0 <= i < keys.len() ==> field_of(members, #[trigger] keys[i]) is Some {
                Some(Seq::new(keys.len(), |i: int| field_of(members, keys[i])->0))
            } else {
                None
            },
            Some(NodeView::Array(items)) => if items.len() == keys.len() && forall|i: int|
                0 <= i < items.len() ==> json_string(#[trigger] items[i]) is Some {
                Some(Seq::new(items.len(), |i: int| json_string(items[i])->0))
            } else {
                None
            },
            _ => None,
        },
    }
}

/// The texts of a record with the fields `keys`.
pub fn record(text: &str, keys: &Vec<String>) -> (r: Option<Vec<String>>)
    ensures
        match r {
            Some(fields) => record_of(text@, text_views(keys@)) == Some(text_views(fields@)),
            None => record_of(text@, text_views(keys@)) is None,
        },
{
    let raw = match document(text) {
        Some(raw) => raw,
        None => return None,
    };
    let ghost names = text_views(keys@);
    let mut out: Vec<String> = Vec::new();
    match node(raw.as_str()) {
        Some(Node::Object(members)) => {
            let ghost views = pair_views(members@);
            for i in 0..keys.len()
                invariant
                    names == text_views(keys@),
                    views == pair_views(members@),
                    document_of(text@) == Some(raw@),
                    node_of(raw@) == Some(NodeView::Object(views)),
                    out@.len() == i,
                    forall|k: int|
                        0 <= k < i ==> field_of(views, #[trigger] names[k]) == Some(out@[k]@),
            {
                assert(names[i as int] == keys@[i as int]@);
                match field(&members, keys[i].as_str()) {
                    Some(value) => out.push(value),
                    None => return None,
                }
            }
            assert(text_views(out@) =~= Seq::new(
                names.len(),
                |i: int| field_of(views, names[i])->0,
            ));
            Some(out)
        },
        Some(Node::Array(items)) => {
            if items.len() != keys.len() {
                return None;
            }
            let ghost views = text_views(items@);
            for i in 0..items.len()
                invariant
                    views == text_views(items@),
                    items@.len() == keys@.len(),
                    document_of(text@) == Some(raw@),
                    node_of(raw@) == Some(NodeView::Array(views)),
                    out@.len() == i,
                    forall|k: int| 0 <= k < i ==> json_string(#[trigger] views[k]) == Some(out@[k]@),
            {
                assert(views[i as int] == items@[i as int]@);
                match string_json(items[i].as_str()) {
                    Some(value) => out.push(value),
                    None => return None,
                }
            }
            assert(text_views(out@) =~= Seq::new(
                views.len(),
                |i: int| json_string(views[i])->0,
            ));
            Some(out)
        },
        _ => None,
    }
}

// ---------------------------------------------------------------------------
// The owner marker
// ---------------------------------------------------------------------------

/// The fields of the owner marker, in the order in which they are written.
pub open spec fn marker_keys() -> Seq<Seq<char>> {
    seq![
        "repository"@,
        "version"@,
        "host"@,
        "primary_sha256"@,
        "secondary_sha256"@,
        "archive_sha256"@,
    ]
}

/// The marker that a text writes.
pub open spec fn marker_of(text: Seq<char>) -> Option<MarkerView> {
    match record_of(text, marker_keys()) {
        None => None,
        Some(f) => Some(
            MarkerView {
                repository: f[0],
                version: f[1],
                host: f[2],
                primary_sha256: f[3],
                secondary_sha256: f[4],
                archive_sha256: f[5],
            },
        ),
    }
}

/// The members of the object that writes a marker.
pub open spec fn marker_members(marker: MarkerView) -> Seq<(Seq<char>, Seq<char>)> {
    seq![
        ("repository"@, marker.repository),
        ("version"@, marker.version),
        ("host"@, marker.host),
        ("primary_sha256"@, marker.primary_sha256),
        ("secondary_sha256"@, marker.secondary_sha256),
        ("archive_sha256"@, marker.archive_sha256),
    ]
}

/// The text that writes a marker.
pub open spec fn marker_json(marker: MarkerView) -> Seq<char> {
    object_text(marker_members(marker))
}

fn marker_key_list() -> (r: Vec<String>)
    ensures
        text_views(r@) == marker_keys(),
{
    let mut keys: Vec<String> = Vec::new();
    keys.push("repository".to_owned());
    keys.push("version".to_owned());
    keys.push("host".to_owned());
    keys.push("primary_sha256".to_owned());
    keys.push("secondary_sha256".to_owned());
    keys.push("archive_sha256".to_owned());
    assert(text_views(keys@) =~= marker_keys());
    keys
}

/// The marker that `text` writes.
pub fn parse_marker(text: &str) -> (r: Option<StandaloneMarker>)
    ensures
        match r {
            Some(marker) => marker_of(text@) == Some(marker@),
            None => marker_of(text@) is None,
        },
{
    let keys = marker_key_list();
    match record(text, &keys) {
        None => None,
        Some(fields) => {
            proof {
                lemma_record_len(text@, marker_keys());
                assert(text_views(fields@).len() == fields@.len());
            }
            let marker = StandaloneMarker {
                repository: fields[0].clone(),
                version: fields[1].clone(),
                host: fields[2].clone(),
                primary_sha256: fields[3].clone(),
                secondary_sha256: fields[4].clone(),
                archive_sha256: fields[5].clone(),
            };
            Some(marker)
        },
    }
}

/// A record has one text per field.
pub proof fn lemma_record_len(text: Seq<char>, keys: Seq<Seq<char>>)
    ensures
        match record_of(text, keys) {
            Some(fields) => fields.len() == keys.len(),
            None => true,
        },
{
}

/// The text of `marker`. Reading it gives the marker back.
pub fn marker_text(marker: &StandaloneMarker) -> (r: String)
    ensures
        r@ == marker_json(marker@),
        marker_of(r@) == Some(marker@),
{
    let mut members: Vec<(String, String)> = Vec::new();
    members.push(("repository".to_owned(), marker.repository.clone()));
    members.push(("version".to_owned(), marker.version.clone()));
    members.push(("host".to_owned(), marker.host.clone()));
    members.push(("primary_sha256".to_owned(), marker.primary_sha256.clone()));
    members.push(("secondary_sha256".to_owned(), marker.secondary_sha256.clone()));
    members.push(("archive_sha256".to_owned(), marker.archive_sha256.clone()));
    assert(pair_views(members@) =~= marker_members(marker@));
    let text = write_object(members);
    proof {
        lemma_marker_reads_back(text@, marker@);
    }
    text
}

/// What reads back as the members of a marker reads back as that marker.
proof fn lemma_marker_reads_back(text: Seq<char>, marker: MarkerView)
    requires
        text_members(text) == Some(marker_members(marker)),
    ensures
        marker_of(text) == Some(marker),
{
    reveal_strlit("repository");
    reveal_strlit("version");
    reveal_strlit("host");
    reveal_strlit("primary_sha256");
    reveal_strlit("secondary_sha256");
    reveal_strlit("archive_sha256");
    let wanted = marker_members(marker);
    let keys = marker_keys();
    let raw = document_of(text)->0;
    let members = node_of(raw)->0->Object_0;
    let read = members.map_values(|m: (Seq<char>, Seq<char>)| (m.0, json_string(m.1)->0));
    assert(read == wanted);
    assert(members.len() == 6);
    assert forall|i: int| 0 <= i < 6 implies (#[trigger] members[i]).0 == keys[i] && json_string(
        members[i].1,
    ) == Some(wanted[i].1) by {
        assert(read[i] == wanted[i]);
    }
    assert(keys[0].len() == 10 && keys[1].len() == 7 && keys[2].len() == 4);
    assert(keys[3].len() == 14 && keys[4].len() == 16 && keys[5].len() == 14);
    assert(keys[3][0] == 'p' && keys[5][0] == 'a');
    assert forall|i: int, j: int| 0 <= i < j < 6 implies keys[i] != keys[j] by {
        assert(i == 0 || i == 1 || i == 2 || i == 3 || i == 4);
        assert(j == 1 || j == 2 || j == 3 || j == 4 || j == 5);
    }
    assert forall|i: int| 0 <= i < 6 implies field_of(members, #[trigger] keys[i]) == Some(
        wanted[i].1,
    ) by {
        lemma_distinct_field(members, keys, i);
    }
    let f = record_of(text, keys)->0;
    assert(f =~= Seq::new(6, |i: int| wanted[i].1));
}

/// Where the members have the distinct keys `keys`, each is its own field.
proof fn lemma_distinct_field(
    members: Seq<(Seq<char>, Seq<char>)>,
    keys: Seq<Seq<char>>,
    i: int,
)
    requires
        members.len() <= keys.len(),
        forall|k: int| 0 <= k < members.len() ==> (#[trigger] members[k]).0 == keys[k],
        forall|a: int, b: int| 0 <= a < b < keys.len() ==> keys[a] != keys[b],
        0 <= i < keys.len(),
    ensures
        count_of(members, keys[i]) == (if i < members.len() {
            1nat
        } else {
            0nat
        }),
        i < members.len() ==> member_of(members, keys[i]) == Some(members[i].1),
    decreases members.len(),
{
    if members.len() > 0 {
        lemma_distinct_field(members.drop_last(), keys, i);
        assert(members.last().0 == keys[members.len() - 1]);
    }
}

} // verus!
