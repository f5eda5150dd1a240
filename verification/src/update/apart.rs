//! Where the files of an ordinary standalone installation lie.
use crate::path::{
    dot, dot_dot, extended, joined, last_dot, last_start, lemma_last_start, name_of, renamed,
    trimmed, DOT, SLASH,
};
use crate::text::utf8;
use crate::update::intact::is_apart;
use crate::update::marker::{version_char, version_like};
use crate::update::model::pair_of;
use crate::update::owned::{is_sidecar, lies_apart};
use crate::update::service::lock_of;
use crate::update::transaction::{fresh_pair, stage_extension};
use vstd::prelude::*;
use vstd::utf8::{encode_utf8, is_ascii_chars, is_ascii_chars_encode_utf8};

verus! {

// ---------------------------------------------------------------------------
// Names at the end of a path
// ---------------------------------------------------------------------------

/// A name that can stand at the end of a path.
spec fn plain(name: Seq<u8>) -> bool {
    &&& name.len() > 0
    &&& name != dot()
    &&& name != dot_dot()
    &&& forall|i: int| 0 <= i < name.len() ==> #[trigger] name[i] != SLASH
}

/// What may stand before a name: nothing, or what ends in a separator.
spec fn open_end(front: Seq<u8>) -> bool {
    front.len() == 0 || front.last() == SLASH
}

proof fn lemma_start_of_last(front: Seq<u8>, name: Seq<u8>)
    requires
        open_end(front),
        forall|i: int| 0 <= i < name.len() ==> #[trigger] name[i] != SLASH,
    ensures
        last_start(front + name) == front.len(),
    decreases name.len(),
{
    let path = front + name;
    if name.len() == 0 {
        assert(path =~= front);
    } else {
        assert(path.last() == name.last());
        assert(path.drop_last() =~= front + name.drop_last());
        lemma_start_of_last(front, name.drop_last());
    }
}

proof fn lemma_named(front: Seq<u8>, name: Seq<u8>)
    requires
        open_end(front),
        plain(name),
    ensures
        name_of(front + name) == Some(name),
{
    let path = front + name;
    let n = path.len() as int;
    assert(path[n - 1] == name.last());
    if name.len() == 1 {
        assert(name[0] == DOT ==> name =~= dot());
    } else {
        assert(path[n - 2] == name[name.len() - 2]);
    }
    assert(trimmed(path) == path);
    lemma_start_of_last(front, name);
    assert(path.skip(front.len() as int) =~= name);
}

proof fn lemma_renamed(path: Seq<u8>, name: Seq<u8>)
    requires
        plain(name),
    ensures
        name_of(renamed(path, name)) == Some(name),
        renamed(path, name).last() == name.last(),
{
    let base = if name_of(path) is Some {
        crate::path::parent_of(path)->0
    } else {
        path
    };
    assert(name[0] != SLASH);
    let front = if base.len() == 0 || base.last() == SLASH {
        base
    } else {
        base.push(SLASH)
    };
    assert(joined(base, name) =~= front + name);
    lemma_named(front, name);
}

/// What stands before the last segment of a path.
proof fn lemma_front(path: Seq<u8>)
    ensures
        0 <= last_start(path) <= path.len(),
        open_end(path.take(last_start(path))),
    decreases path.len(),
{
    lemma_last_start(path);
    if path.len() == 0 || path.last() == SLASH {
        assert(path.take(path.len() as int) =~= path);
    } else {
        lemma_front(path.drop_last());
        lemma_last_start(path.drop_last());
        assert(path.drop_last().take(last_start(path)) =~= path.take(last_start(path)));
    }
}

proof fn lemma_no_dot(name: Seq<u8>)
    requires
        forall|i: int| 0 <= i < name.len() ==> #[trigger] name[i] != DOT,
    ensures
        last_dot(name) == -1,
    decreases name.len(),
{
    if name.len() > 0 {
        assert(name.last() != DOT);
        lemma_no_dot(name.drop_last());
    }
}

/// A path with a name without a dot, extended, has that name extended.
proof fn lemma_extended(path: Seq<u8>, name: Seq<u8>, extension: Seq<u8>)
    requires
        name_of(path) == Some(name),
        forall|i: int| 0 <= i < name.len() ==> #[trigger] name[i] != DOT && name[i] != SLASH,
        extension.len() > 0,
        forall|i: int| 0 <= i < extension.len() ==> #[trigger] extension[i] != SLASH,
    ensures
        name_of(extended(path, extension)) == Some(name.push(DOT) + extension),
{
    let body = trimmed(path);
    let at = last_start(body);
    lemma_front(body);
    lemma_no_dot(name);
    let front = body.take(at);
    let longer = name.push(DOT) + extension;
    assert(body =~= front + name);
    assert(body.take(at + name.len()) =~= body);
    assert(extended(path, extension) =~= front + longer);
    assert(longer[0] == name[0] && longer[0] != DOT);
    assert(longer.len() >= 3);
    assert(plain(longer));
    lemma_named(front, longer);
}

/// A path ends as its name does, or in what adds nothing.
proof fn lemma_path_end(path: Seq<u8>)
    requires
        name_of(path) is Some,
    ensures
        path.len() > 0,
        path.last() == SLASH || path.last() == DOT || path.last() == name_of(path)->0.last(),
{
    if path.len() > 0 && path.last() != SLASH && path.last() != DOT {
        assert(trimmed(path) == path);
        lemma_last_start(path);
    } else if path.len() == 0 {
        assert(trimmed(path) == path);
    }
}

/// The bytes of a text end with its last character, where that is ASCII.
proof fn lemma_last_byte(s: Seq<char>)
    requires
        s.len() > 0,
        '\0' <= s.last() <= '\u{7f}',
    ensures
        encode_utf8(s).len() > 0,
        encode_utf8(s).last() == s.last() as u8,
    decreases s.len(),
{
    if s.len() == 1 {
        assert(s[0] == s.last());
        assert forall|i: int| 0 <= i < s.len() implies '\0' <= #[trigger] s[i] <= '\u{7f}' by {
            assert(i == 0);
        }
        is_ascii_chars_encode_utf8(s);
    } else {
        assert(s.drop_first().last() == s.last());
        lemma_last_byte(s.drop_first());
    }
}

// ---------------------------------------------------------------------------
// The law
// ---------------------------------------------------------------------------

/// The names of the files of an installation.
proof fn lemma_names()
    ensures
        plain(utf8("ramiz"@)),
        plain(utf8("git-ramiz"@)),
        utf8("ramiz"@).last() == 122u8,
        utf8("git-ramiz"@).last() == 122u8,
        forall|i: int| 0 <= i < utf8("ramiz"@).len() ==> #[trigger] utf8("ramiz"@)[i] != DOT,
        forall|i: int|
            0 <= i < utf8("git-ramiz"@).len() ==> #[trigger] utf8("git-ramiz"@)[i] != DOT,
        plain(utf8(".ramiz-owner.json"@)),
        plain(utf8(".ramiz-checksums.txt"@)),
        plain(utf8(".ramiz-checksums.txt.minisig"@)),
        utf8(".ramiz-owner.json"@).last() == 110u8,
        utf8(".ramiz-checksums.txt"@).last() == 116u8,
        utf8(".ramiz-checksums.txt.minisig"@).last() == 103u8,
{
    reveal_strlit("ramiz");
    reveal_strlit("git-ramiz");
    reveal_strlit(".ramiz-owner.json");
    reveal_strlit(".ramiz-checksums.txt");
    reveal_strlit(".ramiz-checksums.txt.minisig");
    lemma_plain("ramiz"@);
    lemma_plain("git-ramiz"@);
    lemma_plain(".ramiz-owner.json"@);
    lemma_plain(".ramiz-checksums.txt"@);
    lemma_plain(".ramiz-checksums.txt.minisig"@);
    is_ascii_chars_encode_utf8("ramiz"@);
    is_ascii_chars_encode_utf8("git-ramiz"@);
    is_ascii_chars_encode_utf8(".ramiz-owner.json"@);
    is_ascii_chars_encode_utf8(".ramiz-checksums.txt"@);
    is_ascii_chars_encode_utf8(".ramiz-checksums.txt.minisig"@);
}

proof fn lemma_plain(name: Seq<char>)
    requires
        name.len() > 2,
        is_ascii_chars(name),
        forall|i: int| 0 <= i < name.len() ==> #[trigger] name[i] != '/',
    ensures
        plain(utf8(name)),
{
    is_ascii_chars_encode_utf8(name);
    let bytes = utf8(name);
    assert forall|i: int| 0 <= i < bytes.len() implies #[trigger] bytes[i] != SLASH by {
        assert(name[i] as u8 == bytes[i]);
        assert(name[i] != '/' && name[i] <= '\u{7f}');
    }
}

/// An installation whose executables have their ordinary names keeps its files
/// apart: neither executable lies where a staged file, a sidecar or the lock
/// does.
pub proof fn law_ordinary_pair_lies_apart(
    executable: Seq<u8>,
    version: Seq<char>,
    old_primary: Seq<u8>,
    old_secondary: Seq<u8>,
)
    requires
        name_of(executable) == Some(utf8("ramiz"@)) || name_of(executable) == Some(
            utf8("git-ramiz"@),
        ),
        version_like(version),
    ensures
        lies_apart(pair_of(executable)),
        is_apart(
            fresh_pair(pair_of(executable), version, old_primary, old_secondary),
            pair_of(executable).primary,
        ),
        is_apart(
            fresh_pair(pair_of(executable), version, old_primary, old_secondary),
            pair_of(executable).secondary,
        ),
{
    let paths = pair_of(executable);
    let (first, second) = (utf8("ramiz"@), utf8("git-ramiz"@));
    lemma_names();
    lemma_renamed(executable, first);
    lemma_renamed(executable, second);
    assert(first.len() != second.len()) by {
        reveal_strlit("ramiz");
        reveal_strlit("git-ramiz");
        is_ascii_chars_encode_utf8("ramiz"@);
        is_ascii_chars_encode_utf8("git-ramiz"@);
    }
    assert(name_of(paths.primary) == Some(first));
    assert(name_of(paths.secondary) == Some(second));
    lemma_path_end(paths.primary);
    lemma_path_end(paths.secondary);
    lemma_renamed(paths.primary, utf8(".ramiz-owner.json"@));
    lemma_renamed(paths.primary, utf8(".ramiz-checksums.txt"@));
    lemma_renamed(paths.primary, utf8(".ramiz-checksums.txt.minisig"@));
    assert forall|p: Seq<u8>| #[trigger] is_sidecar(paths, p) implies p != paths.primary && p
        != paths.secondary by {}
    assert forall|user: u32|
        {
            let lock = #[trigger] lock_of(user);
            lock != paths.primary && lock != paths.secondary && !is_sidecar(paths, lock)
        } by {
        lemma_lock_end(user);
    }
    let extension = stage_extension(version);
    lemma_stage_extension(version);
    lemma_extended(paths.primary, first, extension);
    lemma_extended(paths.secondary, second, extension);
    lemma_dotted(first, extension);
    lemma_dotted(second, extension);
}

proof fn lemma_lock_end(user: u32)
    ensures
        lock_of(user).len() > 0,
        lock_of(user).last() == 107u8,
{
    reveal_strlit(".lock");
    let text = "/tmp/ramiz-update-"@ + crate::text::decimal(user as nat) + ".lock"@;
    assert(text.last() == 'k');
    lemma_last_byte(text);
}

proof fn lemma_stage_extension(version: Seq<char>)
    requires
        version_like(version),
    ensures
        stage_extension(version).len() > 0,
        forall|i: int|
            0 <= i < stage_extension(version).len() ==> #[trigger] stage_extension(version)[i]
                != SLASH,
{
    reveal_strlit("stage.ramiz-update-");
    let text = "stage.ramiz-update-"@ + version;
    assert forall|i: int| 0 <= i < text.len() implies '\0' <= #[trigger] text[i] <= '\u{7f}'
        && text[i] != '/' by {
        if i >= 19 {
            assert(version_char(version[i - 19]));
            assert(text[i] == version[i - 19]);
        }
    }
    assert(is_ascii_chars(text));
    lemma_plain(text);
    is_ascii_chars_encode_utf8(text);
}

/// A name with an extension is neither of the ordinary names.
proof fn lemma_dotted(name: Seq<u8>, extension: Seq<u8>)
    ensures
        name.push(DOT) + extension != utf8("ramiz"@),
        name.push(DOT) + extension != utf8("git-ramiz"@),
{
    lemma_names();
    let longer = name.push(DOT) + extension;
    assert(longer[name.len() as int] == DOT);
}

} // verus!
