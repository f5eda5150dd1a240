//! A refusal changes nothing.
//!
//! Everything that is settled before a worktree is registered is settled by
//! looking: the log of it holds no event that makes or changes anything, but
//! for the files that a probe makes and removes.
use crate::add::branch::{
    branch_oid_at, intended_target_at, target_at,
};
use crate::add::clean::{
    backend_at, carry_out_at, features_at, lineage_at, plan_at, run_clean_at, start_at, PlanView,
};
use crate::add::destination::{
    climb_from, is_root_at, resolve_destination_at, unsafe_at, validate_destination_at,
};
use crate::add::inherited::{
    ancestry_at, donor_state_at, inherit_backend_at, inherit_plan_at, pinned_at, place_at,
    run_inherit_at, unsupported_at, inherit_carry_out_at, PlaceView,
};
use crate::add::preflight::{common_at, donor_at, foreign_donor_at, registered_at};
use crate::add::report::AddedView;
use crate::add::unborn::{
    run_unborn_at, unborn_backend_at, unborn_carry_out_at, unborn_lineage_at, unborn_plan_at,
    UnbornView,
};
use crate::cli::AddView;
use crate::error::ErrorView;
use crate::fsclone::{
    clone_file_at, discard_at, existing_directory_at, existing_from, probe_at, probe_file,
    try_clone_at,
};
use crate::git::{
    canonical_or_self_at, checked_at, common_dir_at, git_path_at, has_any_commit_at, head_oid_at,
    index_features_at, is_bare_at, list_args, logical_index_at, optional_at, readonly_status_at,
    ref_oid_at, registered_from, repo_root_at, required_at, require_version_at, resolve_commit_at,
    same_place_at, status_call, symbolic_head_at, worktree_registered_at,
};
use crate::host::{
    canonicalize_at, clock_at, clone_into_at, current_directory_at, entry_names_at, git_at,
    is_directory_at, is_file_at, is_occupied_at, metadata_at, path_exists_at, process_id_at,
    read_file_at, read_link_at, remove_file_at, write_new_at, CallView, Event,
};
use crate::inherit::{
    children_at, donor_links_at, donor_links_from, entry_at, lemma_walk_link, link_path, looked_up,
    nested_at, popped, resolve_link_target_at, scan_at, snapshot_at, verify_unchanged_at,
    walk_from, ItemView, SnapshotView,
};
use crate::path::{joined, parent_of, steps, Step, SLASH};
use crate::text::utf8;
use vstd::prelude::*;

verus! {

/// The first word of a run of Git that makes or changes something.
pub open spec fn making_word(word: Seq<u8>) -> bool {
    ||| word == utf8("update-ref"@)
    ||| word == utf8("read-tree"@)
    ||| word == utf8("checkout-index"@)
    ||| word == utf8("update-index"@)
    ||| word == utf8("hook"@)
}

/// A run of Git that makes or changes something.
pub open spec fn making(call: CallView) -> bool {
    let words = call.args;
    ||| words.len() > 0 && making_word(words[0])
    ||| words.len() > 1 && words[0] == utf8("worktree"@) && words[1] != utf8("list"@)
}

/// The path of a file that a probe makes.
pub open spec fn probe_path(path: Seq<u8>) -> bool {
    exists|directory: Seq<u8>, process: u32, time: u128, ending: Seq<char>|
        path == #[trigger] probe_file(directory, process, time, ending)
}

/// The event makes nothing and changes nothing, but for the files of a probe.
pub open spec fn quiet(event: Event) -> bool {
    match event {
        Event::Git(call, _) => !making(call),
        Event::WriteNew(path, _, _) => probe_path(path),
        Event::RemoveFile(path, _) => probe_path(path),
        Event::CloneInto(_, target, _) => probe_path(target),
        Event::CurrentDirectory(_) => true,
        Event::Canonicalize(_, _) => true,
        Event::PathExists(_, _) => true,
        Event::IsDirectory(_, _) => true,
        Event::IsFile(_, _) => true,
        Event::Metadata(_, _) => true,
        Event::ReadLink(_, _) => true,
        Event::EntryNames(_, _) => true,
        Event::IsOccupied(_, _) => true,
        Event::ReadFile(_, _) => true,
        Event::Clock(_) => true,
        Event::ProcessId(_) => true,
        Event::OnLinux(_) => true,
        Event::Cancelled(_) => true,
        _ => false,
    }
}

/// Nothing was made or changed between the positions `i` and `j` of a log.
#[verifier::opaque]
pub open spec fn quietly(l: Seq<Event>, i: int, j: int) -> bool {
    j == -1 || (0 <= i <= j <= l.len() && forall|k: int| i <= k < j ==> quiet(#[trigger] l[k]))
}

/// Where nothing was made or changed, no single event makes or changes
/// anything.
pub proof fn lemma_quietly(l: Seq<Event>, i: int, j: int)
    requires
        quietly(l, i, j),
    ensures
        j == -1 || (0 <= i <= j <= l.len() && forall|k: int| i <= k < j ==> quiet(#[trigger] l[k])),
{
    reveal(quietly);
}

/// `i` is a position of the log, or lost.
pub open spec fn placed(l: Seq<Event>, i: int) -> bool {
    i == -1 || 0 <= i <= l.len()
}

pub broadcast proof fn lemma_then(l: Seq<Event>, i: int, j: int, m: int)
    requires
        #[trigger] quietly(l, i, j),
        #[trigger] quietly(l, j, m),
    ensures
        quietly(l, i, m),
{
    reveal(quietly);
}

pub broadcast proof fn lemma_arrived(l: Seq<Event>, i: int, j: int)
    requires
        #[trigger] quietly(l, i, j),
    ensures
        placed(l, j),
        quietly(l, j, j),
{
    reveal(quietly);
}

pub proof fn lemma_still(l: Seq<Event>, i: int)
    requires
        placed(l, i),
    ensures
        quietly(l, i, i),
{
    reveal(quietly);
}

proof fn lemma_apart(a: Seq<char>, b: Seq<char>)
    requires
        a != b,
    ensures
        utf8(a) != utf8(b),
{
    vstd::utf8::encode_utf8_decode_utf8(a);
    vstd::utf8::encode_utf8_decode_utf8(b);
}

proof fn lemma_reading_word(word: Seq<char>)
    requires
        word != "update-ref"@,
        word != "read-tree"@,
        word != "checkout-index"@,
        word != "update-index"@,
        word != "hook"@,
        word != "worktree"@,
    ensures
        !making_word(utf8(word)),
        utf8(word) != utf8("worktree"@),
{
    lemma_apart(word, "update-ref"@);
    lemma_apart(word, "read-tree"@);
    lemma_apart(word, "checkout-index"@);
    lemma_apart(word, "update-index"@);
    lemma_apart(word, "hook"@);
    lemma_apart(word, "worktree"@);
}

/// The words that Git is asked questions with.
pub proof fn lemma_reading_words()
    ensures
        !making_word(utf8("--version"@)) && utf8("--version"@) != utf8("worktree"@),
        !making_word(utf8("rev-parse"@)) && utf8("rev-parse"@) != utf8("worktree"@),
        !making_word(utf8("config"@)) && utf8("config"@) != utf8("worktree"@),
        !making_word(utf8("rev-list"@)) && utf8("rev-list"@) != utf8("worktree"@),
        !making_word(utf8("symbolic-ref"@)) && utf8("symbolic-ref"@) != utf8("worktree"@),
        !making_word(utf8("status"@)) && utf8("status"@) != utf8("worktree"@),
        !making_word(utf8("ls-files"@)) && utf8("ls-files"@) != utf8("worktree"@),
        !making_word(utf8("worktree"@)),
{
    reveal_strlit("--version");
    reveal_strlit("rev-parse");
    reveal_strlit("config");
    reveal_strlit("rev-list");
    reveal_strlit("symbolic-ref");
    reveal_strlit("status");
    reveal_strlit("ls-files");
    reveal_strlit("update-ref");
    reveal_strlit("read-tree");
    reveal_strlit("checkout-index");
    reveal_strlit("update-index");
    reveal_strlit("hook");
    reveal_strlit("worktree");
    assert("--version"@[0] != "read-tree"@[0]);
    lemma_reading_word("--version"@);
    assert("rev-parse"@[2] != "read-tree"@[2]);
    lemma_reading_word("rev-parse"@);
    lemma_reading_word("config"@);
    assert("rev-list"@[0] != "worktree"@[0]);
    lemma_reading_word("rev-list"@);
    assert("symbolic-ref"@[0] != "update-index"@[0]);
    lemma_reading_word("symbolic-ref"@);
    lemma_reading_word("status"@);
    assert("ls-files"@[0] != "worktree"@[0]);
    lemma_reading_word("ls-files"@);
    lemma_worktree_word();
}

proof fn lemma_worktree_word()
    ensures
        !making_word(utf8("worktree"@)),
{
    reveal_strlit("update-ref");
    reveal_strlit("read-tree");
    reveal_strlit("checkout-index");
    reveal_strlit("update-index");
    reveal_strlit("hook");
    reveal_strlit("worktree");
    lemma_apart("worktree"@, "update-ref"@);
    lemma_apart("worktree"@, "read-tree"@);
    lemma_apart("worktree"@, "checkout-index"@);
    lemma_apart("worktree"@, "update-index"@);
    lemma_apart("worktree"@, "hook"@);
}

/// What single looks at the machine leave as it is.
pub broadcast group group_looks {
    lemma_then,
    lemma_arrived,
    quiet_current_directory,
    quiet_canonicalize,
    quiet_path_exists,
    quiet_is_directory,
    quiet_is_file,
    quiet_metadata,
    quiet_read_link,
    quiet_entry_names,
    quiet_is_occupied,
    quiet_read_file,
    quiet_clock,
    quiet_process_id,
}

pub broadcast proof fn quiet_current_directory(l: Seq<Event>, i: int)
    ensures
        quietly(l, i, (#[trigger] current_directory_at(l, i)).1),
{
    reveal(quietly);
}

pub broadcast proof fn quiet_canonicalize(l: Seq<Event>, i: int, path: Seq<u8>)
    ensures
        quietly(l, i, (#[trigger] canonicalize_at(l, i, path)).1),
{
    reveal(quietly);
}

pub broadcast proof fn quiet_path_exists(l: Seq<Event>, i: int, path: Seq<u8>)
    ensures
        quietly(l, i, (#[trigger] path_exists_at(l, i, path)).1),
{
    reveal(quietly);
}

pub broadcast proof fn quiet_is_directory(l: Seq<Event>, i: int, path: Seq<u8>)
    ensures
        quietly(l, i, (#[trigger] is_directory_at(l, i, path)).1),
{
    reveal(quietly);
}

pub broadcast proof fn quiet_is_file(l: Seq<Event>, i: int, path: Seq<u8>)
    ensures
        quietly(l, i, (#[trigger] is_file_at(l, i, path)).1),
{
    reveal(quietly);
}

pub broadcast proof fn quiet_metadata(l: Seq<Event>, i: int, path: Seq<u8>)
    ensures
        quietly(l, i, (#[trigger] metadata_at(l, i, path)).1),
{
    reveal(quietly);
}

pub broadcast proof fn quiet_read_link(l: Seq<Event>, i: int, path: Seq<u8>)
    ensures
        quietly(l, i, (#[trigger] read_link_at(l, i, path)).1),
{
    reveal(quietly);
}

pub broadcast proof fn quiet_entry_names(l: Seq<Event>, i: int, path: Seq<u8>)
    ensures
        quietly(l, i, (#[trigger] entry_names_at(l, i, path)).1),
{
    reveal(quietly);
}

pub broadcast proof fn quiet_is_occupied(l: Seq<Event>, i: int, path: Seq<u8>)
    ensures
        quietly(l, i, (#[trigger] is_occupied_at(l, i, path)).1),
{
    reveal(quietly);
}

pub broadcast proof fn quiet_read_file(l: Seq<Event>, i: int, path: Seq<u8>)
    ensures
        quietly(l, i, (#[trigger] read_file_at(l, i, path)).1),
{
    reveal(quietly);
}

pub broadcast proof fn quiet_clock(l: Seq<Event>, i: int)
    ensures
        quietly(l, i, (#[trigger] clock_at(l, i)).1),
{
    reveal(quietly);
}

pub broadcast proof fn quiet_process_id(l: Seq<Event>, i: int)
    ensures
        quietly(l, i, (#[trigger] process_id_at(l, i)).1),
{
    reveal(quietly);
}

pub broadcast proof fn quiet_git(l: Seq<Event>, i: int, call: CallView)
    requires
        !making(call),
    ensures
        quietly(l, i, (#[trigger] git_at(l, i, call)).1),
{
    reveal(quietly);
}

pub broadcast proof fn quiet_required(l: Seq<Event>, i: int, operation: Seq<char>, call: CallView)
    requires
        !making(call),
    ensures
        quietly(l, i, (#[trigger] required_at(l, i, operation, call)).1),
{
    quiet_git(l, i, call);
}

pub broadcast proof fn quiet_write_new(l: Seq<Event>, i: int, path: Seq<u8>, bytes: Seq<u8>)
    requires
        probe_path(path),
    ensures
        quietly(l, i, (#[trigger] write_new_at(l, i, path, bytes)).1),
{
    reveal(quietly);
}

pub broadcast proof fn quiet_remove_file(l: Seq<Event>, i: int, path: Seq<u8>)
    requires
        probe_path(path),
    ensures
        quietly(l, i, (#[trigger] remove_file_at(l, i, path)).1),
{
    reveal(quietly);
}

pub broadcast proof fn quiet_clone_into(l: Seq<Event>, i: int, source: Seq<u8>, target: Seq<u8>)
    requires
        probe_path(target),
    ensures
        quietly(l, i, (#[trigger] clone_into_at(l, i, source, target)).1),
{
    reveal(quietly);
}

pub proof fn quiet_checked(
    l: Seq<Event>,
    i: int,
    cwd: Seq<u8>,
    operation: Seq<char>,
    args: Seq<Seq<u8>>,
)
    requires
        args.len() > 0,
        !making_word(args[0]),
        args[0] != utf8("worktree"@) || (args.len() > 1 && args[1] == utf8("list"@)),
    ensures
        quietly(l, i, checked_at(l, i, cwd, operation, args).1),
        quietly(l, i, optional_at(l, i, cwd, operation, args).1),
{
    quiet_required(l, i, operation, crate::git::plain_call(cwd, args));
    quiet_git(l, i, crate::git::plain_call(cwd, args));
}

pub broadcast proof fn quiet_require_version(l: Seq<Event>, i: int, cwd: Seq<u8>)
    requires
        placed(l, i),
    ensures
        quietly(l, i, (#[trigger] require_version_at(l, i, cwd)).1),
{
    broadcast use group_looks;

    lemma_still(l, i);
    lemma_reading_words();
    quiet_checked(l, i, cwd, "git --version"@, seq![utf8("--version"@)]);
}

pub broadcast proof fn quiet_is_bare(l: Seq<Event>, i: int, cwd: Seq<u8>)
    requires
        placed(l, i),
    ensures
        quietly(l, i, (#[trigger] is_bare_at(l, i, cwd)).1),
{
    broadcast use group_looks;

    lemma_still(l, i);
    lemma_reading_words();
    quiet_checked(
        l,
        i,
        cwd,
        "git bare repository discovery"@,
        seq![utf8("rev-parse"@), utf8("--is-bare-repository"@)],
    );
}

pub broadcast proof fn quiet_repo_root(l: Seq<Event>, i: int, cwd: Seq<u8>)
    requires
        placed(l, i),
    ensures
        quietly(l, i, (#[trigger] repo_root_at(l, i, cwd)).1),
{
    broadcast use {group_looks, quiet_is_bare};

    lemma_still(l, i);
    lemma_reading_words();
    quiet_checked(
        l,
        i,
        cwd,
        "git repository discovery"@,
        seq![utf8("rev-parse"@), utf8("--show-toplevel"@)],
    );
}

pub broadcast proof fn quiet_common_dir(l: Seq<Event>, i: int, cwd: Seq<u8>)
    requires
        placed(l, i),
    ensures
        quietly(l, i, (#[trigger] common_dir_at(l, i, cwd)).1),
{
    broadcast use group_looks;

    lemma_still(l, i);
    lemma_reading_words();
    quiet_checked(
        l,
        i,
        cwd,
        "git common directory discovery"@,
        seq![utf8("rev-parse"@), utf8("--path-format=absolute"@), utf8("--git-common-dir"@)],
    );
}

pub broadcast proof fn quiet_index_features(l: Seq<Event>, i: int, cwd: Seq<u8>)
    requires
        placed(l, i),
    ensures
        quietly(l, i, (#[trigger] index_features_at(l, i, cwd)).1),
{
    broadcast use group_looks;

    lemma_still(l, i);
    lemma_reading_words();
    quiet_checked(
        l,
        i,
        cwd,
        "git sparse checkout lookup"@,
        seq![utf8("config"@), utf8("--bool"@), utf8("core.sparseCheckout"@)],
    );
    let j = optional_at(
        l,
        i,
        cwd,
        "git sparse checkout lookup"@,
        seq![utf8("config"@), utf8("--bool"@), utf8("core.sparseCheckout"@)],
    ).1;
    quiet_checked(
        l,
        j,
        cwd,
        "git split index lookup"@,
        seq![utf8("rev-parse"@), utf8("--shared-index-path"@)],
    );
}

pub broadcast proof fn quiet_ref_oid(l: Seq<Event>, i: int, cwd: Seq<u8>, reference: Seq<char>)
    requires
        placed(l, i),
    ensures
        quietly(l, i, (#[trigger] ref_oid_at(l, i, cwd, reference)).1),
{
    broadcast use group_looks;

    lemma_still(l, i);
    lemma_reading_words();
    quiet_checked(
        l,
        i,
        cwd,
        "git ref lookup"@,
        seq![utf8("rev-parse"@), utf8("--verify"@), utf8("--quiet"@), utf8(reference + "^{commit}"@)],
    );
}

pub broadcast proof fn quiet_resolve_commit(
    l: Seq<Event>,
    i: int,
    cwd: Seq<u8>,
    expression: Seq<char>,
)
    requires
        placed(l, i),
    ensures
        quietly(l, i, (#[trigger] resolve_commit_at(l, i, cwd, expression)).1),
{
    broadcast use group_looks;

    lemma_still(l, i);
    lemma_reading_words();
    quiet_checked(
        l,
        i,
        cwd,
        "git commit resolution"@,
        seq![utf8("rev-parse"@), utf8("--verify"@), utf8(expression + "^{commit}"@)],
    );
}

pub broadcast proof fn quiet_head_oid(l: Seq<Event>, i: int, cwd: Seq<u8>)
    requires
        placed(l, i),
    ensures
        quietly(l, i, (#[trigger] head_oid_at(l, i, cwd)).1),
{
    broadcast use group_looks;

    lemma_still(l, i);
    lemma_reading_words();
    quiet_checked(
        l,
        i,
        cwd,
        "git target resolution"@,
        seq![utf8("rev-parse"@), utf8("HEAD^{commit}"@)],
    );
}

pub broadcast proof fn quiet_has_any_commit(l: Seq<Event>, i: int, cwd: Seq<u8>)
    requires
        placed(l, i),
    ensures
        quietly(l, i, (#[trigger] has_any_commit_at(l, i, cwd)).1),
{
    broadcast use group_looks;

    lemma_still(l, i);
    lemma_reading_words();
    quiet_checked(
        l,
        i,
        cwd,
        "git commit inventory"@,
        seq![utf8("rev-list"@), utf8("--all"@), utf8("--max-count=1"@)],
    );
}

pub broadcast proof fn quiet_symbolic_head(l: Seq<Event>, i: int, cwd: Seq<u8>)
    requires
        placed(l, i),
    ensures
        quietly(l, i, (#[trigger] symbolic_head_at(l, i, cwd)).1),
{
    broadcast use group_looks;

    lemma_still(l, i);
    lemma_reading_words();
    quiet_checked(
        l,
        i,
        cwd,
        "git symbolic HEAD lookup"@,
        seq![utf8("symbolic-ref"@), utf8("--quiet"@), utf8("HEAD"@)],
    );
}

pub broadcast proof fn quiet_git_path(l: Seq<Event>, i: int, cwd: Seq<u8>, name: Seq<char>)
    requires
        placed(l, i),
    ensures
        quietly(l, i, (#[trigger] git_path_at(l, i, cwd, name)).1),
{
    broadcast use group_looks;

    lemma_still(l, i);
    lemma_reading_words();
    quiet_checked(
        l,
        i,
        cwd,
        "git path lookup"@,
        seq![utf8("rev-parse"@), utf8("--path-format=absolute"@), utf8("--git-path"@), utf8(name)],
    );
}

pub broadcast proof fn quiet_readonly_status(l: Seq<Event>, i: int, cwd: Seq<u8>)
    requires
        placed(l, i),
    ensures
        quietly(l, i, (#[trigger] readonly_status_at(l, i, cwd)).1),
{
    broadcast use group_looks;

    lemma_still(l, i);
    lemma_reading_words();
    quiet_required(l, i, "git donor status"@, status_call(cwd));
}

pub broadcast proof fn quiet_logical_index(l: Seq<Event>, i: int, cwd: Seq<u8>)
    requires
        placed(l, i),
    ensures
        quietly(l, i, (#[trigger] logical_index_at(l, i, cwd)).1),
{
    broadcast use group_looks;

    lemma_still(l, i);
    lemma_reading_words();
    quiet_checked(
        l,
        i,
        cwd,
        "git staged index inspection"@,
        seq![utf8("ls-files"@), utf8("--stage"@), utf8("-z"@)],
    );
    let j = checked_at(
        l,
        i,
        cwd,
        "git staged index inspection"@,
        seq![utf8("ls-files"@), utf8("--stage"@), utf8("-z"@)],
    ).1;
    quiet_checked(
        l,
        j,
        cwd,
        "git index flag inspection"@,
        seq![utf8("ls-files"@), utf8("-v"@), utf8("-z"@)],
    );
}

pub broadcast proof fn quiet_canonical_or_self(l: Seq<Event>, i: int, path: Seq<u8>)
    requires
        placed(l, i),
    ensures
        quietly(l, i, (#[trigger] canonical_or_self_at(l, i, path)).1),
{
    broadcast use group_looks;

    lemma_still(l, i);
    lemma_reading_words();
}

pub broadcast proof fn quiet_same_place(l: Seq<Event>, i: int, a: Seq<u8>, b: Seq<u8>)
    requires
        placed(l, i),
    ensures
        quietly(l, i, (#[trigger] same_place_at(l, i, a, b)).1),
{
    broadcast use {group_looks, quiet_canonical_or_self};

    lemma_still(l, i);
    lemma_reading_words();
}

/// What single questions to Git leave as it is.
pub broadcast group group_questions {
    group_looks,
    quiet_require_version,
    quiet_is_bare,
    quiet_repo_root,
    quiet_common_dir,
    quiet_index_features,
    quiet_ref_oid,
    quiet_resolve_commit,
    quiet_head_oid,
    quiet_has_any_commit,
    quiet_symbolic_head,
    quiet_git_path,
    quiet_readonly_status,
    quiet_logical_index,
    quiet_canonical_or_self,
    quiet_same_place,
}

pub proof fn quiet_registered_from(
    l: Seq<Event>,
    i: int,
    fields: Seq<Seq<u8>>,
    k: int,
    destination: Seq<u8>,
)
    requires
        placed(l, i),
    ensures
        quietly(l, i, (registered_from(l, i, fields, k, destination)).1),
    decreases fields.len() - k,
{
    broadcast use group_questions;

    lemma_still(l, i);
    if k < fields.len() {
        quiet_registered_from(l, i, fields, k + 1, destination);
        let candidate = fields[k].skip(utf8("worktree "@).len() as int);
        let j = same_place_at(l, i, candidate, destination).1;
        quiet_registered_from(l, j, fields, k + 1, destination);
    }
}

pub broadcast proof fn quiet_worktree_registered(
    l: Seq<Event>,
    i: int,
    cwd: Seq<u8>,
    destination: Seq<u8>,
)
    requires
        placed(l, i),
    ensures
        quietly(l, i, (#[trigger] worktree_registered_at(l, i, cwd, destination)).1),
{
    broadcast use group_questions;

    lemma_still(l, i);
    lemma_reading_words();
    let operation = "git worktree ownership check"@;
    quiet_checked(l, i, cwd, operation, list_args());
    let (r, j) = checked_at(l, i, cwd, operation, list_args());
    if r is Ok {
        quiet_registered_from(l, j, crate::text::pieces(r->Ok_0.stdout, 0), 0, destination);
    }
}

pub proof fn quiet_existing_from(l: Seq<Event>, i: int, path: Seq<u8>, candidate: Seq<u8>)
    requires
        placed(l, i),
    ensures
        quietly(l, i, (existing_from(l, i, path, candidate)).1),
    decreases candidate.len(),
{
    broadcast use group_questions;

    lemma_still(l, i);
    let j = canonicalize_at(l, i, candidate).1;
    if parent_of(candidate) is Some {
        crate::path::lemma_parent_shorter(candidate);
        quiet_existing_from(l, j, path, parent_of(candidate)->0);
    }
}

pub broadcast proof fn quiet_existing_directory(l: Seq<Event>, i: int, path: Seq<u8>)
    requires
        placed(l, i),
    ensures
        quietly(l, i, (#[trigger] existing_directory_at(l, i, path)).1),
{
    broadcast use group_questions;

    lemma_still(l, i);
    quiet_existing_from(l, i, path, path);
}

pub proof fn quiet_climb_from(
    l: Seq<Event>,
    i: int,
    requested: Seq<u8>,
    existing: Seq<u8>,
    tail: Seq<Seq<u8>>,
)
    requires
        placed(l, i),
    ensures
        quietly(l, i, (climb_from(l, i, requested, existing, tail)).1),
    decreases existing.len(),
{
    broadcast use group_questions;

    lemma_still(l, i);
    let j = path_exists_at(l, i, existing).1;
    if parent_of(existing) is Some && crate::path::name_of(existing) is Some {
        crate::path::lemma_parent_shorter(existing);
        quiet_climb_from(
            l,
            j,
            requested,
            parent_of(existing)->0,
            tail.push(crate::path::name_of(existing)->0),
        );
    }
}

pub broadcast proof fn quiet_resolve_destination(
    l: Seq<Event>,
    i: int,
    cwd: Seq<u8>,
    requested: Seq<u8>,
)
    requires
        placed(l, i),
    ensures
        quietly(l, i, (#[trigger] resolve_destination_at(l, i, cwd, requested)).1),
{
    broadcast use group_questions;

    lemma_still(l, i);
    reveal(resolve_destination_at);
    quiet_climb_from(l, i, requested, joined(cwd, requested), Seq::empty());
}

pub broadcast proof fn quiet_is_root(
    l: Seq<Event>,
    i: int,
    root: Option<Seq<u8>>,
    destination: Seq<u8>,
)
    requires
        placed(l, i),
    ensures
        quietly(l, i, (#[trigger] is_root_at(l, i, root, destination)).1),
{
    broadcast use group_questions;

    lemma_still(l, i);
}

pub broadcast proof fn quiet_unsafe(
    l: Seq<Event>,
    i: int,
    destination: Seq<u8>,
    repository: Option<Seq<u8>>,
    donor: Option<Seq<u8>>,
    common: Seq<u8>,
)
    requires
        placed(l, i),
    ensures
        quietly(l, i, (#[trigger] unsafe_at(l, i, destination, repository, donor, common)).1),
{
    broadcast use {group_questions, quiet_is_root};

    lemma_still(l, i);
}

pub broadcast proof fn quiet_validate_destination(
    l: Seq<Event>,
    i: int,
    destination: Seq<u8>,
    repository: Option<Seq<u8>>,
    donor: Option<Seq<u8>>,
    common: Seq<u8>,
    json: bool,
)
    requires
        placed(l, i),
    ensures
        quietly(
            l,
            i,
            (#[trigger] validate_destination_at(
                l,
                i,
                destination,
                repository,
                donor,
                common,
                json,
            )).1,
        ),
{
    broadcast use {group_questions, quiet_unsafe};

    lemma_still(l, i);
    reveal(validate_destination_at);
}

pub proof fn quiet_clone_file(l: Seq<Event>, i: int, source: Seq<u8>, target: Seq<u8>)
    requires
        placed(l, i),
        probe_path(target),
    ensures
        quietly(l, i, clone_file_at(l, i, source, target).1),
{
    broadcast use group_looks;

    quiet_clone_into(l, i, source, target);
    let j = clone_into_at(l, i, source, target).1;
    quiet_remove_file(l, j, target);
}

pub proof fn quiet_try_clone(
    l: Seq<Event>,
    i: int,
    directory: Seq<u8>,
    source: Seq<u8>,
    target: Seq<u8>,
)
    requires
        placed(l, i),
        probe_path(source),
        probe_path(target),
    ensures
        quietly(l, i, try_clone_at(l, i, directory, source, target).1),
{
    broadcast use group_looks;

    let bytes = utf8("ramiz-cow-probe"@);
    quiet_write_new(l, i, source, bytes);
    let j = write_new_at(l, i, source, bytes).1;
    quiet_clone_file(l, j, source, target);
}

pub broadcast proof fn quiet_probe(l: Seq<Event>, i: int, directory: Seq<u8>)
    requires
        placed(l, i),
    ensures
        quietly(l, i, (#[trigger] probe_at(l, i, directory)).1),
{
    broadcast use group_looks;

    reveal(probe_at);
    let (time, j) = clock_at(l, i);
    if time is Ok {
        let (process, j) = process_id_at(l, j);
        let source = probe_file(directory, process, time->Ok_0, ".source"@);
        let target = probe_file(directory, process, time->Ok_0, ".target"@);
        assert(probe_path(source));
        assert(probe_path(target));
        quiet_try_clone(l, j, directory, source, target);
        let j = try_clone_at(l, j, directory, source, target).1;
        quiet_remove_file(l, j, target);
        let (problems, j) = discard_at(l, j, target, Seq::empty());
        quiet_remove_file(l, j, source);
    }
}

pub broadcast proof fn quiet_donor(
    l: Seq<Event>,
    i: int,
    asked: Option<Seq<u8>>,
    at_hand: Option<Seq<u8>>,
    bare_message: Seq<char>,
    json: bool,
)
    requires
        placed(l, i),
    ensures
        quietly(l, i, (#[trigger] donor_at(l, i, asked, at_hand, bare_message, json)).1),
{
    broadcast use group_questions;

    lemma_still(l, i);
}

pub broadcast proof fn quiet_common(l: Seq<Event>, i: int, cwd: Seq<u8>, json: bool)
    requires
        placed(l, i),
    ensures
        quietly(l, i, (#[trigger] common_at(l, i, cwd, json)).1),
{
    broadcast use group_questions;

    lemma_still(l, i);
}

pub broadcast proof fn quiet_foreign_donor(
    l: Seq<Event>,
    i: int,
    donor: Seq<u8>,
    common: Seq<u8>,
    json: bool,
)
    requires
        placed(l, i),
    ensures
        quietly(l, i, (#[trigger] foreign_donor_at(l, i, donor, common, json)).1),
{
    broadcast use group_questions;

    lemma_still(l, i);
}

pub broadcast proof fn quiet_registered(
    l: Seq<Event>,
    i: int,
    cwd: Seq<u8>,
    destination: Seq<u8>,
    advice: Seq<char>,
    json: bool,
)
    requires
        placed(l, i),
    ensures
        quietly(l, i, (#[trigger] registered_at(l, i, cwd, destination, advice, json)).1),
{
    broadcast use {group_questions, quiet_worktree_registered};

    lemma_still(l, i);
}

pub broadcast proof fn quiet_target(l: Seq<Event>, i: int, cwd: Seq<u8>, args: AddView)
    requires
        placed(l, i),
    ensures
        quietly(l, i, (#[trigger] target_at(l, i, cwd, args)).1),
{
    broadcast use group_questions;

    lemma_still(l, i);
}

pub broadcast proof fn quiet_branch_oid(
    l: Seq<Event>,
    i: int,
    cwd: Seq<u8>,
    branch: Seq<char>,
    json: bool,
)
    requires
        placed(l, i),
    ensures
        quietly(l, i, (#[trigger] branch_oid_at(l, i, cwd, branch, json)).1),
{
    broadcast use group_questions;

    lemma_still(l, i);
}

pub broadcast proof fn quiet_intended_target(
    l: Seq<Event>,
    i: int,
    cwd: Seq<u8>,
    destination: Seq<u8>,
    args: AddView,
)
    requires
        placed(l, i),
    ensures
        quietly(l, i, (#[trigger] intended_target_at(l, i, cwd, destination, args)).1),
{
    broadcast use {group_questions, quiet_target, quiet_branch_oid};

    lemma_still(l, i);
    reveal(intended_target_at);
}

/// What the steps of a preflight leave as it is.
pub broadcast group group_preflight {
    group_questions,
    quiet_existing_directory,
    quiet_resolve_destination,
    quiet_validate_destination,
    quiet_probe,
    quiet_donor,
    quiet_common,
    quiet_foreign_donor,
    quiet_registered,
    quiet_intended_target,
}

pub broadcast proof fn quiet_start(l: Seq<Event>, i: int, json: bool)
    requires
        placed(l, i),
    ensures
        quietly(l, i, (#[trigger] start_at(l, i, json)).1),
{
    broadcast use group_preflight;

    lemma_still(l, i);
    reveal(start_at);
}

pub broadcast proof fn quiet_features(l: Seq<Event>, i: int, donor: Option<Seq<u8>>, json: bool)
    requires
        placed(l, i),
    ensures
        quietly(l, i, (#[trigger] features_at(l, i, donor, json)).1),
{
    broadcast use group_preflight;

    lemma_still(l, i);
}

pub broadcast proof fn quiet_backend(
    l: Seq<Event>,
    i: int,
    donor: Option<Seq<u8>>,
    directory: Seq<u8>,
    require_cow: bool,
    json: bool,
)
    requires
        placed(l, i),
    ensures
        quietly(l, i, (#[trigger] backend_at(l, i, donor, directory, require_cow, json)).1),
{
    broadcast use {group_preflight, quiet_features};

    lemma_still(l, i);
    reveal(backend_at);
}

pub broadcast proof fn quiet_lineage(
    l: Seq<Event>,
    i: int,
    args: AddView,
    cwd: Seq<u8>,
    root: Option<Seq<u8>>,
)
    requires
        placed(l, i),
    ensures
        quietly(l, i, (#[trigger] lineage_at(l, i, args, cwd, root)).1),
{
    broadcast use group_preflight;

    lemma_still(l, i);
    reveal(lineage_at);
}

pub broadcast proof fn quiet_plan(
    l: Seq<Event>,
    i: int,
    args: AddView,
    cwd: Seq<u8>,
    root: Option<Seq<u8>>,
)
    requires
        placed(l, i),
    ensures
        quietly(l, i, (#[trigger] plan_at(l, i, args, cwd, root)).1),
{
    broadcast use {group_preflight, quiet_lineage, quiet_backend};

    lemma_still(l, i);
    reveal(plan_at);
}

pub broadcast proof fn quiet_unborn_lineage(
    l: Seq<Event>,
    i: int,
    args: AddView,
    cwd: Seq<u8>,
    root: Option<Seq<u8>>,
)
    requires
        placed(l, i),
    ensures
        quietly(l, i, (#[trigger] unborn_lineage_at(l, i, args, cwd, root)).1),
{
    broadcast use group_preflight;

    lemma_still(l, i);
    reveal(unborn_lineage_at);
}

pub broadcast proof fn quiet_unborn_backend(
    l: Seq<Event>,
    i: int,
    donor: Option<Seq<u8>>,
    destination: Seq<u8>,
    require_cow: bool,
    json: bool,
)
    requires
        placed(l, i),
    ensures
        quietly(
            l,
            i,
            (#[trigger] unborn_backend_at(l, i, donor, destination, require_cow, json)).1,
        ),
{
    broadcast use group_preflight;

    lemma_still(l, i);
    reveal(unborn_backend_at);
}

pub broadcast proof fn quiet_unborn_plan(
    l: Seq<Event>,
    i: int,
    args: AddView,
    cwd: Seq<u8>,
    root: Option<Seq<u8>>,
)
    requires
        placed(l, i),
    ensures
        quietly(l, i, (#[trigger] unborn_plan_at(l, i, args, cwd, root)).1),
{
    broadcast use {group_preflight, quiet_unborn_lineage, quiet_unborn_backend};

    lemma_still(l, i);
    reveal(unborn_plan_at);
}

pub broadcast proof fn quiet_entry(l: Seq<Event>, i: int, path: Seq<u8>)
    requires
        placed(l, i),
    ensures
        quietly(l, i, (#[trigger] entry_at(l, i, path)).1),
{
    broadcast use group_preflight;

    lemma_still(l, i);
}

pub broadcast proof fn quiet_nested(l: Seq<Event>, i: int, path: Seq<u8>)
    requires
        placed(l, i),
    ensures
        quietly(l, i, (#[trigger] nested_at(l, i, path)).1),
{
    broadcast use group_preflight;

    lemma_still(l, i);
}

pub proof fn quiet_scan(
    l: Seq<Event>,
    i: int,
    root: Seq<u8>,
    relative: Seq<u8>,
    depth: nat,
    found: Seq<ItemView>,
)
    requires
        placed(l, i),
    ensures
        quietly(l, i, scan_at(l, i, root, relative, depth, found).1),
    decreases depth, 1nat, 0nat,
{
    broadcast use {group_looks, quiet_entry, quiet_nested};

    lemma_still(l, i);
    let path = joined(root, relative);
    let (entry, j) = entry_at(l, i, path);
    if entry is Ok {
        let found = found.push(ItemView { path: relative, entry: entry->Ok_0 });
        let (nested, j) = if relative.len() == 0 {
            (false, j)
        } else {
            nested_at(l, j, path)
        };
        let (names, j) = entry_names_at(l, j, path);
        if names is Ok {
            quiet_children(
                l,
                j,
                root,
                relative,
                crate::order::ordered(names->Ok_0),
                0,
                depth,
                found,
            );
        }
    }
}

pub proof fn quiet_children(
    l: Seq<Event>,
    i: int,
    root: Seq<u8>,
    relative: Seq<u8>,
    names: Seq<Seq<u8>>,
    k: nat,
    depth: nat,
    found: Seq<ItemView>,
)
    requires
        placed(l, i),
    ensures
        quietly(l, i, children_at(l, i, root, relative, names, k, depth, found).1),
    decreases depth, 0nat, names.len() - k,
{
    broadcast use group_looks;

    lemma_still(l, i);
    if k < names.len() {
        if relative.len() == 0 && names[k as int] == utf8(".git"@) {
            quiet_children(l, i, root, relative, names, k + 1, depth, found);
        } else if depth > 0 {
            let below = joined(relative, names[k as int]);
            quiet_scan(l, i, root, below, (depth - 1) as nat, found);
            let (r, j) = scan_at(l, i, root, below, (depth - 1) as nat, found);
            crate::inherit::lemma_children_step(l, i, root, relative, names, k, depth, found);
            if r is Ok {
                quiet_children(l, j, root, relative, names, k + 1, depth, r->Ok_0);
            }
        }
    }
}

pub broadcast proof fn quiet_snapshot(l: Seq<Event>, i: int, donor: Seq<u8>)
    requires
        placed(l, i),
    ensures
        quietly(l, i, (#[trigger] snapshot_at(l, i, donor)).1),
{
    broadcast use group_looks;

    lemma_still(l, i);
    let (root, j) = canonicalize_at(l, i, donor);
    if root is Ok {
        quiet_scan(
            l,
            j,
            root->Ok_0,
            Seq::empty(),
            crate::inherit::MAX_DEPTH as nat,
            Seq::empty(),
        );
    }
}

pub broadcast proof fn quiet_verify_unchanged(l: Seq<Event>, i: int, before: SnapshotView)
    requires
        placed(l, i),
    ensures
        quietly(l, i, (#[trigger] verify_unchanged_at(l, i, before)).1),
{
    broadcast use {group_looks, quiet_snapshot};

    lemma_still(l, i);
}

/// A walk never has more links left to follow than it began with.
pub proof fn lemma_walk_spends(
    l: Seq<Event>,
    i: int,
    way: Seq<Step>,
    k: nat,
    resolved: Seq<u8>,
    budget: nat,
    destination: Seq<u8>,
    donor: Seq<u8>,
)
    ensures
        walk_from(l, i, way, k, resolved, budget, destination, donor) matches (
            Ok((_, left)),
            _,
        ) ==> left <= budget,
    decreases budget, way.len() - k,
{
    if k < way.len() {
        match way[k as int] {
            Step::Root => {
                lemma_walk_spends(
                    l,
                    i,
                    way,
                    k + 1,
                    joined(resolved, seq![SLASH]),
                    budget,
                    destination,
                    donor,
                );
            },
            Step::Current => {
                lemma_walk_spends(l, i, way, k + 1, resolved, budget, destination, donor);
            },
            Step::Parent => {
                lemma_walk_spends(l, i, way, k + 1, popped(resolved), budget, destination, donor);
            },
            Step::Normal(part) => {
                let reached = joined(resolved, part);
                let lookup = looked_up(reached, destination, donor);
                let (metadata, j) = metadata_at(l, i, lookup);
                lemma_walk_spends(l, j, way, k + 1, reached, budget, destination, donor);
                if budget > 0 {
                    let (raw, j) = read_link_at(l, j, lookup);
                    if raw is Ok {
                        let onward = steps(joined(popped(reached), raw->Ok_0));
                        let less = (budget - 1) as nat;
                        lemma_walk_spends(l, j, onward, 0, Seq::empty(), less, destination, donor);
                        let (inner, j) = walk_from(
                            l,
                            j,
                            onward,
                            0,
                            Seq::empty(),
                            less,
                            destination,
                            donor,
                        );
                        lemma_walk_link(l, i, way, k, resolved, budget, destination, donor);
                        if let Ok((end, left)) = inner {
                            assert(left < budget);
                            lemma_walk_spends(l, j, way, k + 1, end, left, destination, donor);
                        }
                    }
                }
            },
        }
    }
}

pub proof fn quiet_walk(
    l: Seq<Event>,
    i: int,
    way: Seq<Step>,
    k: nat,
    resolved: Seq<u8>,
    budget: nat,
    destination: Seq<u8>,
    donor: Seq<u8>,
)
    requires
        placed(l, i),
    ensures
        quietly(l, i, walk_from(l, i, way, k, resolved, budget, destination, donor).1),
    decreases budget, way.len() - k,
{
    broadcast use group_looks;

    lemma_still(l, i);
    if k < way.len() {
        match way[k as int] {
            Step::Root => {
                quiet_walk(
                    l,
                    i,
                    way,
                    k + 1,
                    joined(resolved, seq![SLASH]),
                    budget,
                    destination,
                    donor,
                );
            },
            Step::Current => {
                quiet_walk(l, i, way, k + 1, resolved, budget, destination, donor);
            },
            Step::Parent => {
                quiet_walk(l, i, way, k + 1, popped(resolved), budget, destination, donor);
            },
            Step::Normal(part) => {
                let reached = joined(resolved, part);
                let lookup = looked_up(reached, destination, donor);
                let (metadata, j) = metadata_at(l, i, lookup);
                quiet_walk(l, j, way, k + 1, reached, budget, destination, donor);
                if budget > 0 {
                    let (raw, j) = read_link_at(l, j, lookup);
                    if raw is Ok {
                        let onward = steps(joined(popped(reached), raw->Ok_0));
                        let less = (budget - 1) as nat;
                        lemma_walk_spends(l, j, onward, 0, Seq::empty(), less, destination, donor);
                        quiet_walk(l, j, onward, 0, Seq::empty(), less, destination, donor);
                        let (inner, j) = walk_from(
                            l,
                            j,
                            onward,
                            0,
                            Seq::empty(),
                            less,
                            destination,
                            donor,
                        );
                        lemma_walk_link(l, i, way, k, resolved, budget, destination, donor);
                        if let Ok((end, left)) = inner {
                            assert(left < budget);
                            quiet_walk(l, j, way, k + 1, end, left, destination, donor);
                        }
                    }
                }
            },
        }
    }
}

pub broadcast proof fn quiet_resolve_link_target(
    l: Seq<Event>,
    i: int,
    path: Seq<u8>,
    destination: Seq<u8>,
    donor: Seq<u8>,
)
    requires
        placed(l, i),
    ensures
        quietly(l, i, (#[trigger] resolve_link_target_at(l, i, path, destination, donor)).1),
{
    broadcast use group_looks;

    lemma_still(l, i);
    quiet_walk(
        l,
        i,
        steps(path),
        0,
        Seq::empty(),
        crate::inherit::MAX_LINKS as nat,
        destination,
        donor,
    );
}

pub proof fn quiet_donor_links(
    l: Seq<Event>,
    i: int,
    items: Seq<ItemView>,
    k: nat,
    destination: Seq<u8>,
    donor: Seq<u8>,
    links: Seq<Seq<u8>>,
    allow_donor_links: bool,
    found: Seq<Seq<u8>>,
)
    requires
        placed(l, i),
    ensures
        quietly(
            l,
            i,
            donor_links_from(
                l,
                i,
                items,
                k,
                destination,
                donor,
                links,
                allow_donor_links,
                found,
            ).1,
        ),
    decreases items.len() - k,
{
    broadcast use {group_looks, quiet_resolve_link_target};

    lemma_still(l, i);
    if k < items.len() {
        let item = items[k as int];
        let path = link_path(destination, item.path, item.entry.target->0);
        let j = resolve_link_target_at(l, i, path, destination, donor).1;
        let more = found.push(item.path);
        quiet_donor_links(
            l,
            i,
            items,
            k + 1,
            destination,
            donor,
            links,
            allow_donor_links,
            found,
        );
        quiet_donor_links(
            l,
            j,
            items,
            k + 1,
            destination,
            donor,
            links,
            allow_donor_links,
            found,
        );
        quiet_donor_links(
            l,
            j,
            items,
            k + 1,
            destination,
            donor,
            links,
            allow_donor_links,
            more,
        );
    }
}

pub broadcast proof fn quiet_ancestry(l: Seq<Event>, i: int, args: AddView)
    requires
        placed(l, i),
    ensures
        quietly(l, i, (#[trigger] ancestry_at(l, i, args)).1),
{
    broadcast use {group_preflight, quiet_start};

    lemma_still(l, i);
    reveal(ancestry_at);
}

pub broadcast proof fn quiet_place(l: Seq<Event>, i: int, args: AddView)
    requires
        placed(l, i),
    ensures
        quietly(l, i, (#[trigger] place_at(l, i, args)).1),
{
    broadcast use {group_preflight, quiet_ancestry};

    lemma_still(l, i);
    reveal(place_at);
}

pub broadcast proof fn quiet_unsupported(l: Seq<Event>, i: int, donor: Seq<u8>, json: bool)
    requires
        placed(l, i),
    ensures
        quietly(l, i, (#[trigger] unsupported_at(l, i, donor, json)).1),
{
    broadcast use group_preflight;

    lemma_still(l, i);
}

pub broadcast proof fn quiet_pinned(l: Seq<Event>, i: int, args: AddView, place: PlaceView)
    requires
        placed(l, i),
    ensures
        quietly(l, i, (#[trigger] pinned_at(l, i, args, place)).1),
{
    broadcast use group_preflight;

    lemma_still(l, i);
    reveal(pinned_at);
}

pub broadcast proof fn quiet_donor_state(l: Seq<Event>, i: int, args: AddView, place: PlaceView)
    requires
        placed(l, i),
    ensures
        quietly(l, i, (#[trigger] donor_state_at(l, i, args, place)).1),
{
    broadcast use {group_preflight, quiet_pinned};

    lemma_still(l, i);
    reveal(donor_state_at);
}

pub broadcast proof fn quiet_inherit_backend(
    l: Seq<Event>,
    i: int,
    destination: Seq<u8>,
    allow_copy: bool,
    json: bool,
)
    requires
        placed(l, i),
    ensures
        quietly(l, i, (#[trigger] inherit_backend_at(l, i, destination, allow_copy, json)).1),
{
    broadcast use group_preflight;

    lemma_still(l, i);
    reveal(inherit_backend_at);
}

pub broadcast proof fn quiet_inherit_plan(l: Seq<Event>, i: int, args: AddView)
    requires
        placed(l, i),
    ensures
        quietly(l, i, (#[trigger] inherit_plan_at(l, i, args)).1),
{
    broadcast use {
        group_preflight,
        quiet_place,
        quiet_unsupported,
        quiet_donor_state,
        quiet_snapshot,
        quiet_inherit_backend,
    };

    lemma_still(l, i);
    reveal(inherit_plan_at);
}

// ---------------------------------------------------------------------------
// The laws
// ---------------------------------------------------------------------------

/// Between the positions `i` and `j` of a log, no event makes or changes
/// anything, unless the position is lost.
pub open spec fn looked_only(l: Seq<Event>, i: int, j: int) -> bool {
    j == -1 || (i <= j <= l.len() && forall|k: int| i <= k < j ==> quiet(#[trigger] l[k]))
}

/// A clean worktree is settled before anything is made: a run either fails
/// having changed nothing, or it goes on from a position up to which nothing
/// was changed, and makes the worktree that was settled on.
pub proof fn law_clean_run_settles_first(l: Seq<Event>, i: int, args: AddView)
    requires
        0 <= i <= l.len(),
    ensures
        ({
            let (r, j) = run_clean_at(l, i, args);
            ||| r is Err && looked_only(l, i, j)
            ||| exists|cwd: Seq<u8>, plan: PlanView, m: int|
                looked_only(l, i, m) && (r, j) == #[trigger] carry_out_at(l, m, args, cwd, plan)
            ||| exists|cwd: Seq<u8>, plan: UnbornView, m: int|
                looked_only(l, i, m) && (r, j) == #[trigger] unborn_carry_out_at(
                    l,
                    m,
                    args,
                    cwd,
                    plan,
                )
        }),
{
    broadcast use {group_preflight, quiet_start};

    reveal(run_clean_at);
    reveal(run_unborn_at);
    let (r, j) = run_clean_at(l, i, args);
    let (begun, a) = start_at(l, i, args.json);
    if begun is Err {
        lemma_quietly(l, i, a);
    } else {
        let (cwd, root) = begun->Ok_0;
        let (head, b) = ref_oid_at(l, a, cwd, "HEAD"@);
        if head is Err {
            lemma_quietly(l, i, b);
        } else if head->Ok_0 is None {
            let (any, c) = has_any_commit_at(l, b, cwd);
            if any is Err || any->Ok_0 {
                lemma_quietly(l, i, c);
            } else {
                quiet_unborn_plan(l, c, args, cwd, root);
                let (plan, d) = unborn_plan_at(l, c, args, cwd, root);
                lemma_quietly(l, i, d);
                if plan is Ok {
                    assert((r, j) == unborn_carry_out_at(l, d, args, cwd, plan->Ok_0));
                }
            }
        } else {
            quiet_plan(l, b, args, cwd, root);
            let (plan, d) = plan_at(l, b, args, cwd, root);
            lemma_quietly(l, i, d);
            if plan is Ok {
                assert((r, j) == carry_out_at(l, d, args, cwd, plan->Ok_0));
            }
        }
    }
}

/// Where inheritance is refused before it is begun, nothing was made and
/// nothing changed: not for a target that is not the donor's commit, nor for a
/// nested repository, nor for an index or a file system that does not do.
pub proof fn law_inheritance_settles_first(l: Seq<Event>, i: int, args: AddView)
    requires
        0 <= i <= l.len(),
    ensures
        ({
            let (plan, m) = inherit_plan_at(l, i, args);
            let (r, j) = run_inherit_at(l, i, args);
            &&& looked_only(l, i, m)
            &&& plan matches Err(error) ==> r == Err::<AddedView, ErrorView>(error) && j == m
            &&& plan matches Ok(plan) ==> (r, j) == inherit_carry_out_at(l, m, args, plan)
        }),
{
    reveal(run_inherit_at);
    quiet_inherit_plan(l, i, args);
    lemma_quietly(l, i, inherit_plan_at(l, i, args).1);
}

/// Where inherited links lead is found out before anything is copied.
pub proof fn law_links_are_followed_before_copying(
    l: Seq<Event>,
    i: int,
    items: Seq<ItemView>,
    destination: Seq<u8>,
    donor: Seq<u8>,
    links: Seq<Seq<u8>>,
    allow_donor_links: bool,
)
    requires
        0 <= i <= l.len(),
    ensures
        ({
            let j = donor_links_at(l, i, items, destination, donor, links, allow_donor_links).1;
            looked_only(l, i, j)
        }),
{
    quiet_donor_links(
        l,
        i,
        items,
        0,
        destination,
        donor,
        links,
        allow_donor_links,
        Seq::empty(),
    );
    lemma_quietly(
        l,
        i,
        donor_links_at(l, i, items, destination, donor, links, allow_donor_links).1,
    );
}

/// An unborn repository has no commit to start from: asking for one, or for a
/// detached worktree, is refused before anything is looked at.
pub proof fn law_unborn_start_is_refused_at_once(
    l: Seq<Event>,
    i: int,
    args: AddView,
    cwd: Seq<u8>,
    root: Option<Seq<u8>>,
)
    requires
        args.detach || args.start_point is Some,
    ensures
        run_unborn_at(l, i, args, cwd, root) matches (Err(error), j) && error.code
            == "invalid_unborn_target"@ && j == i,
{
    reveal(run_unborn_at);
    reveal(unborn_plan_at);
}

/// Comparing a donor with its record changes nothing.
pub proof fn law_comparing_changes_nothing(l: Seq<Event>, i: int, before: SnapshotView)
    requires
        0 <= i <= l.len(),
    ensures
        ({
            let j = verify_unchanged_at(l, i, before).1;
            looked_only(l, i, j)
        }),
{
    quiet_verify_unchanged(l, i, before);
    lemma_quietly(l, i, verify_unchanged_at(l, i, before).1);
}

} // verus!
