//! JSON documents, one level at a time.
//!
//! A value is kept as the text it was written as. [`node`] opens one level of
//! it: the elements of an array and the members of an object come out as raw
//! texts again, the members in the order in which they are written, duplicates
//! kept.
use crate::outside::{
    first_json, json_first, json_number, json_string, number_json, string_json,
};
use crate::text::{begins, chars_of, same, text_begins, text_range, text_views};
use vstd::prelude::*;

verus! {

/// How deep arrays and objects may nest in a document.
pub const DEPTH: u32 = 127;

/// One level of a JSON value.
pub enum Node {
    Null,
    Bool(bool),
    Number(String),
    Text(String),
    Array(Vec<String>),
    Object(Vec<(String, String)>),
}

/// The model of a [`Node`].
pub enum NodeView {
    Null,
    Bool(bool),
    Number(Seq<char>),
    Text(Seq<char>),
    Array(Seq<Seq<char>>),
    Object(Seq<(Seq<char>, Seq<char>)>),
}

/// The views of a list of pairs of texts.
pub open spec fn pair_views(v: Seq<(String, String)>) -> Seq<(Seq<char>, Seq<char>)> {
    v.map_values(|p: (String, String)| (p.0@, p.1@))
}

impl View for Node {
    type V = NodeView;

    open spec fn view(&self) -> NodeView {
        match *self {
            Node::Null => NodeView::Null,
            Node::Bool(value) => NodeView::Bool(value),
            Node::Number(text) => NodeView::Number(text@),
            Node::Text(text) => NodeView::Text(text@),
            Node::Array(items) => NodeView::Array(text_views(items@)),
            Node::Object(members) => NodeView::Object(pair_views(members@)),
        }
    }
}

/// White space between JSON tokens.
pub open spec fn json_space(c: char) -> bool {
    c == ' ' || c == '\n' || c == '\t' || c == '\r'
}

/// `s` from its first character that is not JSON white space.
pub open spec fn after_space(s: Seq<char>) -> Seq<char>
    decreases s.len(),
{
    if s.len() > 0 && json_space(s[0]) {
        after_space(s.skip(1))
    } else {
        s
    }
}

/// The elements of an array from the first of them on, up to its bracket.
pub open spec fn items_from(rest: Seq<char>) -> Option<Seq<Seq<char>>>
    decreases rest.len(),
{
    match json_first(rest) {
        None => None,
        Some((raw, behind)) => {
            let tail = after_space(behind);
            if tail.len() == 0 || tail.len() >= rest.len() {
                None
            } else if tail[0] == ']' {
                Some(seq![raw])
            } else if tail[0] == ',' {
                match items_from(tail.skip(1)) {
                    Some(more) => Some(seq![raw] + more),
                    None => None,
                }
            } else {
                None
            }
        },
    }
}

/// The elements of the array that `raw` writes.
pub open spec fn array_items(raw: Seq<char>) -> Option<Seq<Seq<char>>> {
    let inside = after_space(raw.skip(1));
    if inside.len() > 0 && inside[0] == ']' {
        Some(Seq::empty())
    } else {
        items_from(inside)
    }
}

/// The members of an object from the first of them on, up to its brace.
pub open spec fn members_from(rest: Seq<char>) -> Option<Seq<(Seq<char>, Seq<char>)>>
    decreases rest.len(),
{
    match json_first(rest) {
        None => None,
        Some((name, behind)) => {
            let colon = after_space(behind);
            match json_string(name) {
                None => None,
                Some(key) => if colon.len() == 0 || colon[0] != ':' {
                    None
                } else {
                    match json_first(colon.skip(1)) {
                        None => None,
                        Some((raw, after)) => {
                            let tail = after_space(after);
                            if tail.len() == 0 || tail.len() >= rest.len() {
                                None
                            } else if tail[0] == '}' {
                                Some(seq![(key, raw)])
                            } else if tail[0] == ',' {
                                match members_from(tail.skip(1)) {
                                    Some(more) => Some(seq![(key, raw)] + more),
                                    None => None,
                                }
                            } else {
                                None
                            }
                        },
                    }
                },
            }
        },
    }
}

/// The members of the object that `raw` writes.
pub open spec fn object_members(raw: Seq<char>) -> Option<Seq<(Seq<char>, Seq<char>)>> {
    let inside = after_space(raw.skip(1));
    if inside.len() > 0 && inside[0] == '}' {
        Some(Seq::empty())
    } else {
        members_from(inside)
    }
}

/// One level of the value that `raw` writes.
pub open spec fn node_of(raw: Seq<char>) -> Option<NodeView> {
    if raw.len() == 0 {
        None
    } else if raw[0] == '{' {
        match object_members(raw) {
            Some(members) => Some(NodeView::Object(members)),
            None => None,
        }
    } else if raw[0] == '[' {
        match array_items(raw) {
            Some(items) => Some(NodeView::Array(items)),
            None => None,
        }
    } else if raw[0] == '"' {
        match json_string(raw) {
            Some(text) => Some(NodeView::Text(text)),
            None => None,
        }
    } else if raw[0] == 't' {
        Some(NodeView::Bool(true))
    } else if raw[0] == 'f' {
        Some(NodeView::Bool(false))
    } else if raw[0] == 'n' {
        Some(NodeView::Null)
    } else {
        match json_number(raw) {
            Some(text) => Some(NodeView::Number(text)),
            None => None,
        }
    }
}

/// `text` from its first character that is not JSON white space.
pub fn skip_space(text: &str) -> (r: String)
    ensures
        r@ == after_space(text@),
{
    let chars = chars_of(text);
    let mut start: usize = 0;
    assert(chars@.skip(0) =~= chars@);
    while start < chars.len() && (chars[start] == ' ' || chars[start] == '\n' || chars[start]
        == '\t' || chars[start] == '\r')
        invariant
            start <= chars@.len(),
            after_space(chars@) == after_space(chars@.skip(start as int)),
        decreases chars@.len() - start,
    {
        assert(chars@.skip(start as int).skip(1) =~= chars@.skip(start + 1));
        start = start + 1;
    }
    let r = text_range(chars.as_slice(), start, chars.len());
    assert(r@ =~= chars@.skip(start as int));
    r
}

/// `text` without its first character.
fn without_first(text: &str) -> (r: String)
    requires
        text@.len() > 0,
    ensures
        r@ == text@.skip(1),
{
    let chars = chars_of(text);
    let r = text_range(chars.as_slice(), 1, chars.len());
    assert(r@ =~= text@.skip(1));
    r
}

/// The first character of `text`, and how many there are.
fn first_char(text: &str) -> (r: (Option<char>, usize))
    ensures
        r.1 == text@.len(),
        match r.0 {
            Some(c) => text@.len() > 0 && c == text@[0],
            None => text@.len() == 0,
        },
{
    let chars = chars_of(text);
    if chars.len() == 0 {
        (None, 0)
    } else {
        (Some(chars[0]), chars.len())
    }
}

/// Appends the elements of an array, from the first of them on.
fn push_items(start: &str, out: &mut Vec<String>) -> (r: bool)
    ensures
        match items_from(start@) {
            Some(items) => r && text_views(final(out)@) == text_views(old(out)@) + items,
            None => !r,
        },
{
    let ghost before = text_views(out@);
    let ghost mut seen = Seq::<Seq<char>>::empty();
    let mut rest = start.to_owned();
    assert(text_views(out@) =~= before + seen);
    proof {
        if let Some(items) = items_from(rest@) {
            assert(seen + items =~= items);
        }
    }
    loop
        invariant
            before == text_views(old(out)@),
            text_views(out@) == before + seen,
            match items_from(rest@) {
                Some(more) => items_from(start@) == Some(seen + more),
                None => items_from(start@) is None,
            },
        decreases rest@.len(),
    {
        let (raw, behind) = match first_json(rest.as_str()) {
            Some(found) => found,
            None => return false,
        };
        let tail = skip_space(behind.as_str());
        let (first, count) = first_char(tail.as_str());
        let (_, limit) = first_char(rest.as_str());
        if count == 0 || count >= limit {
            return false;
        }
        let ghost item = raw@;
        let ghost known = seen;
        let ghost held = text_views(out@);
        out.push(raw);
        proof {
            seen = known.push(item);
            assert(text_views(out@) =~= held.push(item));
            assert(text_views(out@) =~= before + seen);
        }
        match first {
            Some(']') => {
                assert(known + seq![item] =~= seen);
                return true;
            },
            Some(',') => {
                let next = without_first(tail.as_str());
                proof {
                    if let Some(more) = items_from(next@) {
                        assert(known + (seq![item] + more) =~= seen + more);
                    }
                }
                rest = next;
            },
            _ => return false,
        }
    }
}

/// Appends the members of an object, from the first of them on.
fn push_members(start: &str, out: &mut Vec<(String, String)>) -> (r: bool)
    ensures
        match members_from(start@) {
            Some(members) => r && pair_views(final(out)@) == pair_views(old(out)@) + members,
            None => !r,
        },
{
    let ghost before = pair_views(out@);
    let ghost mut seen = Seq::<(Seq<char>, Seq<char>)>::empty();
    let mut rest = start.to_owned();
    assert(pair_views(out@) =~= before + seen);
    proof {
        if let Some(members) = members_from(rest@) {
            assert(seen + members =~= members);
        }
    }
    loop
        invariant
            before == pair_views(old(out)@),
            pair_views(out@) == before + seen,
            match members_from(rest@) {
                Some(more) => members_from(start@) == Some(seen + more),
                None => members_from(start@) is None,
            },
        decreases rest@.len(),
    {
        let (name, behind) = match first_json(rest.as_str()) {
            Some(found) => found,
            None => return false,
        };
        let colon = skip_space(behind.as_str());
        let key = match string_json(name.as_str()) {
            Some(key) => key,
            None => return false,
        };
        match first_char(colon.as_str()).0 {
            Some(':') => {},
            _ => return false,
        }
        let value = without_first(colon.as_str());
        let (raw, after) = match first_json(value.as_str()) {
            Some(found) => found,
            None => return false,
        };
        let tail = skip_space(after.as_str());
        let (first, count) = first_char(tail.as_str());
        let (_, limit) = first_char(rest.as_str());
        if count == 0 || count >= limit {
            return false;
        }
        let ghost member = (key@, raw@);
        let ghost known = seen;
        let ghost held = pair_views(out@);
        out.push((key, raw));
        proof {
            seen = known.push(member);
            assert(pair_views(out@) =~= held.push(member));
            assert(pair_views(out@) =~= before + seen);
        }
        match first {
            Some('}') => {
                assert(known + seq![member] =~= seen);
                return true;
            },
            Some(',') => {
                let next = without_first(tail.as_str());
                proof {
                    if let Some(more) = members_from(next@) {
                        assert(known + (seq![member] + more) =~= seen + more);
                    }
                }
                rest = next;
            },
            _ => return false,
        }
    }
}

/// One level of the value that `raw` writes.
pub fn node(raw: &str) -> (r: Option<Node>)
    ensures
        match r {
            Some(node) => node_of(raw@) == Some(node@),
            None => node_of(raw@) is None,
        },
{
    let first = match first_char(raw).0 {
        Some(c) => c,
        None => return None,
    };
    if first == '{' {
        let inside = skip_space(without_first(raw).as_str());
        let mut members: Vec<(String, String)> = Vec::new();
        assert(pair_views(members@) =~= Seq::empty());
        if first_char(inside.as_str()).0 == Some('}') {
            return Some(Node::Object(members));
        }
        let ghost all = members_from(inside@);
        if push_members(inside.as_str(), &mut members) {
            assert(pair_views(members@) =~= all->0);
            Some(Node::Object(members))
        } else {
            None
        }
    } else if first == '[' {
        let inside = skip_space(without_first(raw).as_str());
        let mut items: Vec<String> = Vec::new();
        assert(text_views(items@) =~= Seq::empty());
        if first_char(inside.as_str()).0 == Some(']') {
            return Some(Node::Array(items));
        }
        let ghost all = items_from(inside@);
        if push_items(inside.as_str(), &mut items) {
            assert(text_views(items@) =~= all->0);
            Some(Node::Array(items))
        } else {
            None
        }
    } else if first == '"' {
        match string_json(raw) {
            Some(text) => Some(Node::Text(text)),
            None => None,
        }
    } else if first == 't' {
        Some(Node::Bool(true))
    } else if first == 'f' {
        Some(Node::Bool(false))
    } else if first == 'n' {
        Some(Node::Null)
    } else {
        match number_json(raw) {
            Some(text) => Some(Node::Number(text)),
            None => None,
        }
    }
}

/// Every level of the value that `raw` writes can be opened, and it nests no
/// deeper than `depth`.
pub open spec fn sound(raw: Seq<char>, depth: nat) -> bool
    decreases depth,
{
    match node_of(raw) {
        None => false,
        Some(NodeView::Array(items)) => {
            &&& depth > 0
            &&& forall|i: int|
                0 <= i < items.len() ==> sound(#[trigger] items[i], (depth - 1) as nat)
        },
        Some(NodeView::Object(members)) => {
            &&& depth > 0
            &&& forall|i: int|
                0 <= i < members.len() ==> sound((#[trigger] members[i]).1, (depth - 1) as nat)
        },
        Some(_) => true,
    }
}

/// An unsound part makes the whole unsound.
proof fn lemma_unsound(raw: Seq<char>, part: Seq<char>, depth: nat, i: int)
    requires
        !sound(part, depth),
        match node_of(raw) {
            Some(NodeView::Array(items)) => 0 <= i < items.len() && items[i] == part,
            Some(NodeView::Object(members)) => 0 <= i < members.len() && members[i].1 == part,
            _ => false,
        },
    ensures
        !sound(raw, depth + 1),
{
    reveal_with_fuel(sound, 2);
}

/// Every level of the value that `raw` writes can be opened.
pub fn is_sound(raw: &str, depth: u32) -> (r: bool)
    ensures
        r == sound(raw@, depth as nat),
    decreases depth,
{
    match node(raw) {
        None => false,
        Some(Node::Array(items)) => {
            if depth == 0 {
                return false;
            }
            let ghost views = text_views(items@);
            for i in 0..items.len()
                invariant
                    depth > 0,
                    views == text_views(items@),
                    node_of(raw@) == Some(NodeView::Array(views)),
                    forall|k: int| 0 <= k < i ==> sound(#[trigger] views[k], (depth - 1) as nat),
            {
                assert(views[i as int] == items@[i as int]@);
                if !is_sound(items[i].as_str(), depth - 1) {
                    proof {
                        lemma_unsound(raw@, views[i as int], (depth - 1) as nat, i as int);
                    }
                    return false;
                }
            }
            true
        },
        Some(Node::Object(members)) => {
            if depth == 0 {
                return false;
            }
            let ghost views = pair_views(members@);
            for i in 0..members.len()
                invariant
                    depth > 0,
                    views == pair_views(members@),
                    node_of(raw@) == Some(NodeView::Object(views)),
                    forall|k: int|
                        0 <= k < i ==> sound((#[trigger] views[k]).1, (depth - 1) as nat),
            {
                assert(views[i as int].1 == members@[i as int].1@);
                if !is_sound(members[i].1.as_str(), depth - 1) {
                    proof {
                        lemma_unsound(raw@, views[i as int].1, (depth - 1) as nat, i as int);
                    }
                    return false;
                }
            }
            true
        },
        Some(_) => true,
    }
}

/// The one value of a document; none where there is more or less than one.
pub open spec fn document_of(text: Seq<char>) -> Option<Seq<char>> {
    match json_first(text) {
        Some((raw, rest)) => if after_space(rest).len() == 0 {
            Some(raw)
        } else {
            None
        },
        None => None,
    }
}

/// The one value of a document.
pub fn document(text: &str) -> (r: Option<String>)
    ensures
        match r {
            Some(raw) => document_of(text@) == Some(raw@),
            None => document_of(text@) is None,
        },
{
    match first_json(text) {
        Some((raw, rest)) => {
            if first_char(skip_space(rest.as_str()).as_str()).1 == 0 {
                Some(raw)
            } else {
                None
            }
        },
        None => None,
    }
}

/// The values of a text that writes one after the other; none where something
/// else stands among them.
pub open spec fn stream_of(text: Seq<char>) -> Option<Seq<Seq<char>>>
    decreases text.len(),
{
    if after_space(text).len() == 0 {
        Some(Seq::empty())
    } else {
        match json_first(text) {
            Some((raw, rest)) => if rest.len() >= text.len() {
                None
            } else {
                match stream_of(rest) {
                    Some(more) => Some(seq![raw] + more),
                    None => None,
                }
            },
            None => None,
        }
    }
}

/// The values of a text that writes one after the other.
pub fn stream(text: &str) -> (r: Option<Vec<String>>)
    ensures
        match r {
            Some(values) => stream_of(text@) == Some(text_views(values@)),
            None => stream_of(text@) is None,
        },
{
    let mut out: Vec<String> = Vec::new();
    let mut rest = text.to_owned();
    proof {
        if let Some(values) = stream_of(text@) {
            assert(text_views(out@) + values =~= values);
        }
    }
    while first_char(skip_space(rest.as_str()).as_str()).1 != 0
        invariant
            match stream_of(rest@) {
                Some(more) => stream_of(text@) == Some(text_views(out@) + more),
                None => stream_of(text@) is None,
            },
        decreases rest@.len(),
    {
        let (raw, behind) = match first_json(rest.as_str()) {
            Some(found) => found,
            None => return None,
        };
        if first_char(behind.as_str()).1 >= first_char(rest.as_str()).1 {
            return None;
        }
        let ghost before = text_views(out@);
        let ghost value = raw@;
        out.push(raw);
        proof {
            assert(text_views(out@) =~= before.push(value));
            if let Some(more) = stream_of(behind@) {
                assert(before + (seq![value] + more) =~= text_views(out@) + more);
            }
        }
        rest = behind;
    }
    assert(text_views(out@) + Seq::<Seq<char>>::empty() =~= text_views(out@));
    Some(out)
}

/// What the last member called `key` holds.
pub open spec fn member_of(members: Seq<(Seq<char>, Seq<char>)>, key: Seq<char>) -> Option<
    Seq<char>,
>
    decreases members.len(),
{
    if members.len() == 0 {
        None
    } else if members.last().0 == key {
        Some(members.last().1)
    } else {
        member_of(members.drop_last(), key)
    }
}

/// What the last member called `key` holds.
pub fn member(members: &Vec<(String, String)>, key: &str) -> (r: Option<String>)
    ensures
        match r {
            Some(raw) => member_of(pair_views(members@), key@) == Some(raw@),
            None => member_of(pair_views(members@), key@) is None,
        },
{
    let ghost all = pair_views(members@);
    let mut n: usize = members.len();
    assert(all.take(n as int) =~= all);
    while n > 0
        invariant
            n <= members@.len(),
            all == pair_views(members@),
            member_of(all, key@) == member_of(all.take(n as int), key@),
        decreases n,
    {
        assert(all.take(n as int).last() == (members@[n - 1].0@, members@[n - 1].1@));
        assert(all.take(n as int).drop_last() =~= all.take(n - 1));
        if same(members[n - 1].0.as_str(), key) {
            return Some(members[n - 1].1.clone());
        }
        n = n - 1;
    }
    None
}

/// How many members are called `key`.
pub open spec fn count_of(members: Seq<(Seq<char>, Seq<char>)>, key: Seq<char>) -> nat
    decreases members.len(),
{
    if members.len() == 0 {
        0
    } else {
        count_of(members.drop_last(), key) + (if members.last().0 == key {
            1nat
        } else {
            0nat
        })
    }
}

/// How many members are called `key`.
pub fn count(members: &Vec<(String, String)>, key: &str) -> (r: usize)
    ensures
        r == count_of(pair_views(members@), key@),
        r <= members@.len(),
{
    let ghost all = pair_views(members@);
    let mut found: usize = 0;
    for i in 0..members.len()
        invariant
            all == pair_views(members@),
            found == count_of(all.take(i as int), key@),
            found <= i,
    {
        assert(all.take(i + 1).last() == (members@[i as int].0@, members@[i as int].1@));
        assert(all.take(i + 1).drop_last() =~= all.take(i as int));
        if same(members[i].0.as_str(), key) {
            found = found + 1;
        }
    }
    assert(all.take(members@.len() as int) =~= all);
    found
}

/// A key is present exactly where one of the members has it.
pub proof fn lemma_member_of(members: Seq<(Seq<char>, Seq<char>)>, key: Seq<char>)
    ensures
        member_of(members, key) is Some <==> exists|i: int|
            0 <= i < members.len() && (#[trigger] members[i]).0 == key,
    decreases members.len(),
{
    if members.len() > 0 {
        lemma_member_of(members.drop_last(), key);
        if member_of(members.drop_last(), key) is Some {
            let i = choose|i: int|
                0 <= i < members.drop_last().len() && (#[trigger] members.drop_last()[i]).0 == key;
            assert(members[i].0 == key);
        }
        if exists|i: int| 0 <= i < members.len() && (#[trigger] members[i]).0 == key {
            let i = choose|i: int| 0 <= i < members.len() && (#[trigger] members[i]).0 == key;
            if i < members.len() - 1 {
                assert(members.drop_last()[i].0 == key);
            }
        }
    }
}

/// The canonical text of a fraction that is zero, with either sign.
pub open spec fn zero(number: Seq<char>) -> bool {
    number == "0.0"@ || number == "-0.0"@
}

/// Two canonical texts of one number.
pub open spec fn same_number(x: Seq<char>, y: Seq<char>) -> bool {
    x == y || zero(x) && zero(y)
}

fn is_zero(number: &str) -> (r: bool)
    ensures
        r == zero(number@),
{
    same(number, "0.0") || same(number, "-0.0")
}

/// Two values are the same once every member whose key begins with `hidden` is
/// left out of every object. Numbers are compared by their canonical text, and
/// of several members with one key the last counts.
pub open spec fn alike(a: Seq<char>, b: Seq<char>, hidden: Seq<char>, depth: nat) -> bool
    decreases depth,
{
    match (node_of(a), node_of(b)) {
        (Some(NodeView::Null), Some(NodeView::Null)) => true,
        (Some(NodeView::Bool(x)), Some(NodeView::Bool(y))) => x == y,
        (Some(NodeView::Number(x)), Some(NodeView::Number(y))) => same_number(x, y),
        (Some(NodeView::Text(x)), Some(NodeView::Text(y))) => x == y,
        (Some(NodeView::Array(x)), Some(NodeView::Array(y))) => {
            &&& depth > 0
            &&& x.len() == y.len()
            &&& forall|i: int|
                0 <= i < x.len() ==> alike(#[trigger] x[i], y[i], hidden, (depth - 1) as nat)
        },
        (Some(NodeView::Object(x)), Some(NodeView::Object(y))) => {
            &&& depth > 0
            &&& forall|key: Seq<char>|
                !begins(key, hidden) ==> match (#[trigger] member_of(x, key), member_of(y, key)) {
                    (Some(v), Some(w)) => alike(v, w, hidden, (depth - 1) as nat),
                    (None, None) => true,
                    _ => false,
                }
        },
        _ => false,
    }
}

/// Every member of `x` that is not hidden is in `y`.
fn all_present(
    x: &Vec<(String, String)>,
    y: &Vec<(String, String)>,
    hidden: &str,
) -> (r: bool)
    ensures
        r <==> forall|key: Seq<char>|
            !begins(key, hidden@) && #[trigger] member_of(pair_views(x@), key) is Some
                ==> member_of(pair_views(y@), key) is Some,
{
    let ghost xs = pair_views(x@);
    let ghost ys = pair_views(y@);
    for i in 0..x.len()
        invariant
            xs == pair_views(x@),
            ys == pair_views(y@),
            forall|k: int|
                0 <= k < i && !begins((#[trigger] xs[k]).0, hidden@) ==> member_of(
                    ys,
                    xs[k].0,
                ) is Some,
    {
        assert(xs[i as int].0 == x@[i as int].0@);
        if !text_begins(x[i].0.as_str(), hidden) && member(y, x[i].0.as_str()).is_none() {
            proof {
                lemma_member_of(xs, xs[i as int].0);
            }
            return false;
        }
    }
    assert forall|key: Seq<char>|
        !begins(key, hidden@) && #[trigger] member_of(xs, key) is Some implies member_of(
        ys,
        key,
    ) is Some by {
        lemma_member_of(xs, key);
    }
    true
}

/// Two values are the same once every member whose key begins with `hidden` is
/// left out of every object.
pub fn is_alike(a: &str, b: &str, hidden: &str, depth: u32) -> (r: bool)
    ensures
        r == alike(a@, b@, hidden@, depth as nat),
    decreases depth,
{
    match (node(a), node(b)) {
        (Some(Node::Null), Some(Node::Null)) => true,
        (Some(Node::Bool(x)), Some(Node::Bool(y))) => x == y,
        (Some(Node::Number(x)), Some(Node::Number(y))) => same(x.as_str(), y.as_str()) || is_zero(
            x.as_str(),
        ) && is_zero(y.as_str()),
        (Some(Node::Text(x)), Some(Node::Text(y))) => same(x.as_str(), y.as_str()),
        (Some(Node::Array(x)), Some(Node::Array(y))) => {
            if depth == 0 || x.len() != y.len() {
                return false;
            }
            let ghost xs = text_views(x@);
            let ghost ys = text_views(y@);
            for i in 0..x.len()
                invariant
                    depth > 0,
                    x@.len() == y@.len(),
                    xs == text_views(x@),
                    ys == text_views(y@),
                    node_of(a@) == Some(NodeView::Array(xs)),
                    node_of(b@) == Some(NodeView::Array(ys)),
                    forall|k: int|
                        0 <= k < i ==> alike(
                            #[trigger] xs[k],
                            ys[k],
                            hidden@,
                            (depth - 1) as nat,
                        ),
            {
                assert(xs[i as int] == x@[i as int]@ && ys[i as int] == y@[i as int]@);
                if !is_alike(x[i].as_str(), y[i].as_str(), hidden, depth - 1) {
                    return false;
                }
            }
            true
        },
        (Some(Node::Object(x)), Some(Node::Object(y))) => {
            if depth == 0 || !all_present(&x, &y, hidden) || !all_present(&y, &x, hidden) {
                return false;
            }
            let ghost xs = pair_views(x@);
            let ghost ys = pair_views(y@);
            for i in 0..x.len()
                invariant
                    depth > 0,
                    xs == pair_views(x@),
                    ys == pair_views(y@),
                    node_of(a@) == Some(NodeView::Object(xs)),
                    node_of(b@) == Some(NodeView::Object(ys)),
                    forall|k: int|
                        0 <= k < i && !begins((#[trigger] xs[k]).0, hidden@) ==> alike(
                            member_of(xs, xs[k].0)->0,
                            member_of(ys, xs[k].0)->0,
                            hidden@,
                            (depth - 1) as nat,
                        ),
                    forall|key: Seq<char>|
                        !begins(key, hidden@) && #[trigger] member_of(xs, key) is Some
                            ==> member_of(ys, key) is Some,
            {
                assert(xs[i as int].0 == x@[i as int].0@);
                proof {
                    lemma_member_of(xs, xs[i as int].0);
                }
                if !text_begins(x[i].0.as_str(), hidden) {
                    match (member(&x, x[i].0.as_str()), member(&y, x[i].0.as_str())) {
                        (Some(v), Some(w)) => {
                            if !is_alike(v.as_str(), w.as_str(), hidden, depth - 1) {
                                return false;
                            }
                        },
                        _ => {
                            return false;
                        },
                    }
                }
            }
            assert forall|key: Seq<char>| !begins(key, hidden@) implies (match (
                #[trigger] member_of(xs, key),
                member_of(ys, key),
            ) {
                (Some(v), Some(w)) => alike(v, w, hidden@, (depth - 1) as nat),
                (None, None) => true,
                _ => false,
            }) by {
                lemma_member_of(xs, key);
            }
            true
        },
        _ => false,
    }
}

/// The text of a JSON object whose members are texts.
pub uninterp spec fn object_text(members: Seq<(Seq<char>, Seq<char>)>) -> Seq<char>;

/// What a document holds whose one value is an object of texts; none for any
/// other document.
pub open spec fn text_members(text: Seq<char>) -> Option<Seq<(Seq<char>, Seq<char>)>> {
    match document_of(text) {
        None => None,
        Some(raw) => match node_of(raw) {
            Some(NodeView::Object(members)) => if forall|i: int|
                0 <= i < members.len() ==> json_string((#[trigger] members[i]).1) is Some {
                Some(
                    members.map_values(
                        |m: (Seq<char>, Seq<char>)| (m.0, json_string(m.1)->0),
                    ),
                )
            } else {
                None
            },
            _ => None,
        },
    }
}

/// `serde::Serializer::collect_map` on `serde_json::Serializer`: the compact
/// text of an object with `members` in their order. Reading it gives them
/// back.
#[verifier::external_body]
pub(crate) fn write_object(members: Vec<(String, String)>) -> (r: String)
    ensures
        r@ == object_text(pair_views(members@)),
        text_members(r@) == Some(pair_views(members@)),
{
    let mut out = Vec::new();
    let mut writer = serde_json::Serializer::new(&mut out);
    match serde::Serializer::collect_map(&mut writer, members) {
        Ok(()) => String::from_utf8_lossy(&out).into_owned(),
        Err(_) => String::new(),
    }
}

} // verus!
