//! Where Cargo's configuration puts installations.
use crate::text::{
    begins, chars_of, finishes, lines, lines_of, pieces, same, split_text, stripped, text_begins,
    text_finishes, text_range, text_views, trim,
};
use vstd::prelude::*;

verus! {

/// A text without the quotation marks at its ends.
pub open spec fn unquoted(s: Seq<char>) -> Seq<char> {
    unquoted_tail(unquoted_lead(s))
}

pub open spec fn unquoted_lead(s: Seq<char>) -> Seq<char>
    decreases s.len(),
{
    if s.len() > 0 && s[0] == '"' {
        unquoted_lead(s.skip(1))
    } else {
        s
    }
}

pub open spec fn unquoted_tail(s: Seq<char>) -> Seq<char>
    decreases s.len(),
{
    if s.len() > 0 && s.last() == '"' {
        unquoted_tail(s.drop_last())
    } else {
        s
    }
}

/// What a line says: what stands before a `#`, without white space around it.
pub open spec fn statement(line: Seq<char>) -> Seq<char> {
    stripped(pieces(line, '#')[0])
}

/// A statement that opens a table.
pub open spec fn is_table(s: Seq<char>) -> bool {
    begins(s, "["@) && finishes(s, "]"@)
}

/// The value of a statement about the installation root.
pub open spec fn root_value(s: Seq<char>) -> Option<Seq<char>> {
    if begins(s, "root ="@) {
        let value = unquoted(stripped(s.skip("root ="@.len() as int)));
        if value.len() > 0 {
            Some(value)
        } else {
            None
        }
    } else {
        None
    }
}

/// The installation root that the lines from `k` on set. `inside` says whether
/// the table `[install]` is open there.
pub open spec fn root_from(all: Seq<Seq<char>>, k: int, inside: bool) -> Option<Seq<char>>
    decreases all.len() - k,
{
    if k < 0 || k >= all.len() {
        None
    } else if is_table(statement(all[k])) {
        root_from(all, k + 1, statement(all[k]) == "[install]"@)
    } else if inside && root_value(statement(all[k])) is Some {
        root_value(statement(all[k]))
    } else {
        root_from(all, k + 1, inside)
    }
}

/// The installation root that a configuration file sets.
pub open spec fn configured_root(contents: Seq<char>) -> Option<Seq<char>> {
    root_from(lines_of(contents), 0, false)
}

fn statement_of(line: &str) -> (r: String)
    ensures
        r@ == statement(line@),
{
    let parts = split_text(line, '#');
    proof {
        crate::text::lemma_pieces_nonempty(line@, '#');
        assert(text_views(parts@)[0] == parts@[0]@);
    }
    trim(parts[0].as_str())
}

fn unquote(text: &str) -> (r: String)
    ensures
        r@ == unquoted(text@),
{
    let chars = chars_of(text);
    let mut start: usize = 0;
    assert(chars@.skip(0) =~= chars@);
    while start < chars.len() && chars[start] == '"'
        invariant
            start <= chars@.len(),
            unquoted_lead(chars@) == unquoted_lead(chars@.skip(start as int)),
        decreases chars@.len() - start,
    {
        assert(chars@.skip(start as int).skip(1) =~= chars@.skip(start + 1));
        start = start + 1;
    }
    let ghost body = chars@.skip(start as int);
    assert(unquoted_lead(chars@) == body);
    let mut end: usize = chars.len();
    assert(chars@.subrange(start as int, end as int) =~= body);
    while end > start && chars[end - 1] == '"'
        invariant
            start <= end <= chars@.len(),
            unquoted_tail(body) == unquoted_tail(chars@.subrange(start as int, end as int)),
        decreases end,
    {
        assert(chars@.subrange(start as int, end as int).drop_last() =~= chars@.subrange(
            start as int,
            end - 1,
        ));
        end = end - 1;
    }
    text_range(chars.as_slice(), start, end)
}

fn root_of(said: &str) -> (r: Option<String>)
    ensures
        crate::update::model::text_option(r) == root_value(said@),
{
    if !text_begins(said, "root =") {
        return None;
    }
    proof {
        reveal_strlit("root =");
    }
    let chars = chars_of(said);
    let value = text_range(chars.as_slice(), 6, chars.len());
    assert(value@ =~= said@.skip(6));
    let value = unquote(trim(value.as_str()).as_str());
    if chars_of(value.as_str()).len() > 0 {
        Some(value)
    } else {
        None
    }
}

/// The installation root that a configuration file with `contents` sets.
pub fn config_install_root(contents: &str) -> (r: Option<String>)
    ensures
        crate::update::model::text_option(r) == configured_root(contents@),
{
    let all = lines(contents);
    let ghost views = text_views(all@);
    let mut inside = false;
    for k in 0..all.len()
        invariant
            views == text_views(all@),
            views == lines_of(contents@),
            root_from(views, 0, false) == root_from(views, k as int, inside),
    {
        assert(views[k as int] == all@[k as int]@);
        let said = statement_of(all[k].as_str());
        if text_begins(said.as_str(), "[") && text_finishes(said.as_str(), "]") {
            inside = same(said.as_str(), "[install]");
        } else if inside {
            if let Some(root) = root_of(said.as_str()) {
                return Some(root);
            }
        }
    }
    None
}

} // verus!
