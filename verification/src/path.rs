//! Unix paths as byte strings.
//!
//! A path is the exact bytes the system uses. Two paths name the same place
//! when their components agree: repeated separators, a trailing separator and
//! `.` segments after the first do not count.
use crate::text::{copy, copy_range, extend, pieces, same_bytes, split_bytes, views};
use vstd::prelude::*;

verus! {

/// The separator byte.
pub const SLASH: u8 = 47;

/// The byte `.`.
pub const DOT: u8 = 46;

/// One step of a path.
pub enum Component {
    /// The leading separator of an absolute path.
    Root,
    /// A leading `.`.
    Current,
    /// `..`.
    Parent,
    /// Any other segment.
    Normal(Vec<u8>),
}

/// The model of a [`Component`].
pub enum Step {
    Root,
    Current,
    Parent,
    Normal(Seq<u8>),
}

impl View for Component {
    type V = Step;

    open spec fn view(&self) -> Step {
        match *self {
            Component::Root => Step::Root,
            Component::Current => Step::Current,
            Component::Parent => Step::Parent,
            Component::Normal(name) => Step::Normal(name@),
        }
    }
}

/// The segment `.`.
pub open spec fn dot() -> Seq<u8> {
    seq![DOT]
}

/// The segment `..`.
pub open spec fn dot_dot() -> Seq<u8> {
    seq![DOT, DOT]
}

/// The steps that the segments of a path stand for, a leading `.` aside.
pub open spec fn steps_of(segments: Seq<Seq<u8>>) -> Seq<Step>
    decreases segments.len(),
{
    if segments.len() == 0 {
        Seq::empty()
    } else {
        let before = steps_of(segments.drop_last());
        let segment = segments.last();
        if segment.len() == 0 || segment == dot() {
            before
        } else if segment == dot_dot() {
            before.push(Step::Parent)
        } else {
            before.push(Step::Normal(segment))
        }
    }
}

/// The first step of a path, where it is the root or a leading `.`.
pub open spec fn first_step(path: Seq<u8>) -> Seq<Step> {
    if path.len() > 0 && path[0] == SLASH {
        seq![Step::Root]
    } else if pieces(path, SLASH)[0] == dot() {
        seq![Step::Current]
    } else {
        Seq::empty()
    }
}

/// The steps of a path.
pub open spec fn steps(path: Seq<u8>) -> Seq<Step> {
    first_step(path) + steps_of(pieces(path, SLASH))
}

/// The views of a list of components.
pub open spec fn component_views(v: Seq<Component>) -> Seq<Step> {
    v.map_values(|c: Component| c@)
}

/// The components of `path`.
pub fn components(path: &[u8]) -> (r: Vec<Component>)
    ensures
        component_views(r@) == steps(path@),
{
    let segments = split_bytes(path, SLASH);
    let mut out: Vec<Component> = Vec::new();
    proof {
        crate::text::lemma_pieces_nonempty(path@, SLASH);
        assert(views(segments@)[0] == segments@[0]@);
    }
    if path.len() > 0 && path[0] == SLASH {
        out.push(Component::Root);
    } else if is_dot(segments[0].as_slice()) {
        out.push(Component::Current);
    }
    assert(component_views(out@) =~= first_step(path@));
    assert(component_views(out@) =~= first_step(path@) + steps_of(views(segments@).take(0)));
    for i in 0..segments.len()
        invariant
            views(segments@) == pieces(path@, SLASH),
            component_views(out@) == first_step(path@) + steps_of(views(segments@).take(i as int)),
    {
        let ghost so_far = views(segments@).take(i as int);
        let ghost with_this = views(segments@).take(i + 1);
        let ghost shown = component_views(out@);
        assert(with_this.drop_last() =~= so_far);
        assert(with_this.last() == segments@[i as int]@);
        let segment = segments[i].as_slice();
        if segment.len() == 0 || is_dot(segment) {
        } else if is_dot_dot(segment) {
            out.push(Component::Parent);
            assert(component_views(out@) =~= shown.push(Step::Parent));
        } else {
            out.push(Component::Normal(copy(segment)));
            assert(component_views(out@) =~= shown.push(Step::Normal(segment@)));
        }
        assert(component_views(out@) =~= first_step(path@) + steps_of(with_this));
    }
    assert(views(segments@).take(segments@.len() as int) =~= views(segments@));
    out
}

fn is_dot(segment: &[u8]) -> (r: bool)
    ensures
        r == (segment@ == dot()),
{
    let r = segment.len() == 1 && segment[0] == DOT;
    assert(r ==> segment@ =~= dot());
    r
}

fn is_dot_dot(segment: &[u8]) -> (r: bool)
    ensures
        r == (segment@ == dot_dot()),
{
    let r = segment.len() == 2 && segment[0] == DOT && segment[1] == DOT;
    assert(r ==> segment@ =~= dot_dot());
    r
}

fn same_component(a: &Component, b: &Component) -> (r: bool)
    ensures
        r == (a@ == b@),
{
    match (a, b) {
        (Component::Root, Component::Root) => true,
        (Component::Current, Component::Current) => true,
        (Component::Parent, Component::Parent) => true,
        (Component::Normal(x), Component::Normal(y)) => same_bytes(x.as_slice(), y.as_slice()),
        _ => false,
    }
}

/// Every component of `path` starts those of `longer`, in order.
pub fn path_starts_with(longer: &[u8], path: &[u8]) -> (r: bool)
    ensures
        r == crate::text::begins(steps(longer@), steps(path@)),
{
    let all = components(longer);
    let front = components(path);
    if all.len() < front.len() {
        return false;
    }
    for i in 0..front.len()
        invariant
            component_views(all@) == steps(longer@),
            component_views(front@) == steps(path@),
            front@.len() <= all@.len(),
            forall|k: int| 0 <= k < i ==> steps(longer@)[k] == steps(path@)[k],
    {
        let ghost at = i as int;
        assert(component_views(all@)[at] == all@[at]@);
        assert(component_views(front@)[at] == front@[at]@);
        if !same_component(&all[i], &front[i]) {
            assert(steps(longer@).take(steps(path@).len() as int)[at] != steps(path@)[at]);
            return false;
        }
    }
    assert(steps(longer@).take(steps(path@).len() as int) =~= steps(path@));
    true
}

/// `a` and `b` have the same components.
pub fn same_path(a: &[u8], b: &[u8]) -> (r: bool)
    ensures
        r == (steps(a@) == steps(b@)),
{
    let first = components(a);
    let second = components(b);
    if first.len() != second.len() {
        assert(steps(a@).len() != steps(b@).len());
        return false;
    }
    let r = path_starts_with(a, b);
    assert(steps(a@).take(steps(b@).len() as int) =~= steps(a@));
    r
}

// ---------------------------------------------------------------------------
// Names and parents
// ---------------------------------------------------------------------------

/// `path` without what adds no component at its end: separators and `.`
/// segments. The root and a lone leading `.` stay.
pub open spec fn trimmed(path: Seq<u8>) -> Seq<u8>
    decreases path.len(),
{
    let n = path.len() as int;
    if n > 1 && path[n - 1] == SLASH {
        trimmed(path.take(n - 1))
    } else if n > 1 && path[n - 1] == DOT && path[n - 2] == SLASH {
        trimmed(path.take(n - 1))
    } else {
        path
    }
}

/// Where the last segment of `path` starts.
pub open spec fn last_start(path: Seq<u8>) -> int
    decreases path.len(),
{
    if path.len() == 0 || path.last() == SLASH {
        path.len() as int
    } else {
        last_start(path.drop_last())
    }
}

pub proof fn lemma_last_start(path: Seq<u8>)
    ensures
        0 <= last_start(path) <= path.len(),
    decreases path.len(),
{
    if path.len() > 0 && path.last() != SLASH {
        lemma_last_start(path.drop_last());
    }
}

pub proof fn lemma_trimmed(path: Seq<u8>)
    ensures
        trimmed(path).len() <= path.len(),
        trimmed(path) == path.take(trimmed(path).len() as int),
    decreases path.len(),
{
    let n = path.len() as int;
    if n > 1 && (path[n - 1] == SLASH || (path[n - 1] == DOT && path[n - 2] == SLASH)) {
        lemma_trimmed(path.take(n - 1));
        let m = trimmed(path).len() as int;
        assert(path.take(n - 1).take(m) =~= path.take(m));
    } else {
        assert(path.take(n) =~= path);
    }
}

/// The last component of `path`, where that is a normal one.
pub open spec fn name_of(path: Seq<u8>) -> Option<Seq<u8>> {
    let body = trimmed(path);
    let name = body.skip(last_start(body));
    if name.len() == 0 || name == dot() || name == dot_dot() {
        None
    } else {
        Some(name)
    }
}

/// `path` without its last component; none for the root and the empty path.
pub open spec fn parent_of(path: Seq<u8>) -> Option<Seq<u8>> {
    let body = trimmed(path);
    if body.len() == 0 || body == seq![SLASH] {
        None
    } else {
        Some(trimmed(body.take(last_start(body))))
    }
}

/// `tail` below `base`; an absolute `tail` replaces it.
pub open spec fn joined(base: Seq<u8>, tail: Seq<u8>) -> Seq<u8> {
    if (tail.len() > 0 && tail[0] == SLASH) || base.len() == 0 {
        tail
    } else if base.last() == SLASH {
        base + tail
    } else {
        base.push(SLASH) + tail
    }
}

/// `path` with its file name replaced by `name`, or `name` below it where it
/// has no file name.
pub open spec fn renamed(path: Seq<u8>, name: Seq<u8>) -> Seq<u8> {
    if name_of(path) is Some {
        joined(parent_of(path)->0, name)
    } else {
        joined(path, name)
    }
}

/// Where the stem of a file name ends: at its last dot, unless there is none
/// or it is the first byte.
pub open spec fn stem_len(name: Seq<u8>) -> int {
    let dot_at = last_dot(name);
    if dot_at <= 0 {
        name.len() as int
    } else {
        dot_at
    }
}

/// The position of the last dot of `name`, or -1.
pub open spec fn last_dot(name: Seq<u8>) -> int
    decreases name.len(),
{
    if name.len() == 0 {
        -1
    } else if name.last() == DOT {
        name.len() - 1
    } else {
        last_dot(name.drop_last())
    }
}

pub proof fn lemma_last_dot(name: Seq<u8>)
    ensures
        -1 <= last_dot(name) < name.len(),
    decreases name.len(),
{
    if name.len() > 0 && name.last() != DOT {
        lemma_last_dot(name.drop_last());
    }
}

/// `path` with the extension of its file name replaced by a dot and
/// `extension`; unchanged where it has no file name.
pub open spec fn extended(path: Seq<u8>, extension: Seq<u8>) -> Seq<u8> {
    let body = trimmed(path);
    match name_of(path) {
        None => path,
        Some(name) => {
            let kept = body.take(last_start(body) + stem_len(name));
            if extension.len() == 0 {
                kept
            } else {
                kept.push(DOT) + extension
            }
        },
    }
}

/// `path` is absolute.
pub open spec fn rooted(path: Seq<u8>) -> bool {
    path.len() > 0 && path[0] == SLASH
}

/// `path` starts at the root.
pub fn is_absolute(path: &[u8]) -> (r: bool)
    ensures
        r == rooted(path@),
{
    path.len() > 0 && path[0] == SLASH
}

fn trimmed_len(path: &[u8]) -> (r: usize)
    ensures
        r == trimmed(path@).len(),
        r <= path@.len(),
        trimmed(path@) == path@.take(r as int),
{
    let mut n: usize = path.len();
    assert(path@.take(n as int) =~= path@);
    while n > 1 && (path[n - 1] == SLASH || (path[n - 1] == DOT && path[n - 2] == SLASH))
        invariant
            n <= path@.len(),
            trimmed(path@) == trimmed(path@.take(n as int)),
        decreases n,
    {
        assert(path@.take(n as int).take(n - 1) =~= path@.take(n - 1));
        n = n - 1;
    }
    assert(trimmed(path@.take(n as int)) == path@.take(n as int));
    n
}

fn last_start_in(path: &[u8], end: usize) -> (r: usize)
    requires
        end <= path@.len(),
    ensures
        r == last_start(path@.take(end as int)),
        r <= end,
{
    let mut n: usize = end;
    while n > 0 && path[n - 1] != SLASH
        invariant
            n <= end <= path@.len(),
            last_start(path@.take(end as int)) == last_start(path@.take(n as int)),
        decreases n,
    {
        assert(path@.take(n as int).drop_last() =~= path@.take(n - 1));
        n = n - 1;
    }
    n
}

/// The last component of `path`, where that is a normal one.
pub fn file_name(path: &[u8]) -> (r: Option<Vec<u8>>)
    ensures
        match r {
            Some(name) => name_of(path@) == Some(name@),
            None => name_of(path@) is None,
        },
{
    let end = trimmed_len(path);
    let start = last_start_in(path, end);
    let name = copy_range(path, start, end);
    assert(name@ =~= path@.take(end as int).skip(start as int));
    if name.len() == 0 || is_dot(name.as_slice()) || is_dot_dot(name.as_slice()) {
        None
    } else {
        Some(name)
    }
}

/// `path` without its last component; none for the root and the empty path.
pub fn parent(path: &[u8]) -> (r: Option<Vec<u8>>)
    ensures
        match r {
            Some(above) => parent_of(path@) == Some(above@),
            None => parent_of(path@) is None,
        },
{
    let end = trimmed_len(path);
    if end == 0 || (end == 1 && path[0] == SLASH) {
        assert(end == 1 ==> path@.take(1) =~= seq![SLASH]);
        return None;
    }
    let start = last_start_in(path, end);
    let front = copy_range(path, 0, start);
    assert(front@ =~= path@.take(end as int).take(start as int));
    let kept = trimmed_len(front.as_slice());
    let above = copy_range(front.as_slice(), 0, kept);
    assert(above@ =~= front@.take(kept as int));
    Some(above)
}

/// `tail` below `base`; an absolute `tail` replaces it.
pub fn join(base: &[u8], tail: &[u8]) -> (r: Vec<u8>)
    ensures
        r@ == joined(base@, tail@),
{
    if is_absolute(tail) || base.len() == 0 {
        return copy(tail);
    }
    let mut out = copy(base);
    if base[base.len() - 1] != SLASH {
        out.push(SLASH);
    }
    extend(&mut out, tail);
    out
}

/// `path` with its file name replaced by `name`.
pub fn with_file_name(path: &[u8], name: &[u8]) -> (r: Vec<u8>)
    ensures
        r@ == renamed(path@, name@),
{
    if file_name(path).is_some() {
        proof {
            lemma_named_has_parent(path@);
        }
        match parent(path) {
            Some(above) => join(above.as_slice(), name),
            None => Vec::new(),
        }
    } else {
        join(path, name)
    }
}

/// A path with a file name has a parent.
pub proof fn lemma_named_has_parent(path: Seq<u8>)
    ensures
        name_of(path) is Some ==> parent_of(path) is Some,
{
    let body = trimmed(path);
    if body == seq![SLASH] {
        assert(last_start(body) == 1);
    }
}

proof fn lemma_trimmed_end(path: Seq<u8>)
    ensures
        trimmed(path).len() > 1 ==> trimmed(path).last() != SLASH,
    decreases path.len(),
{
    let n = path.len() as int;
    if n > 1 && (path[n - 1] == SLASH || (path[n - 1] == DOT && path[n - 2] == SLASH)) {
        lemma_trimmed_end(path.take(n - 1));
    }
}

/// The parent of a path is shorter than the path.
pub proof fn lemma_parent_shorter(path: Seq<u8>)
    ensures
        parent_of(path) matches Some(above) ==> above.len() < path.len(),
{
    let body = trimmed(path);
    lemma_trimmed(path);
    lemma_trimmed_end(path);
    if parent_of(path) is Some {
        assert(body.last() != SLASH) by {
            if body.len() == 1 && body[0] == SLASH {
                assert(body =~= seq![SLASH]);
            }
        }
        lemma_last_start(body.drop_last());
        assert(last_start(body) < body.len());
        lemma_trimmed(body.take(last_start(body)));
    }
}

/// `path` with the extension of its file name replaced by `extension`.
pub fn with_extension(path: &[u8], extension: &[u8]) -> (r: Vec<u8>)
    ensures
        r@ == extended(path@, extension@),
{
    match file_name(path) {
        None => copy(path),
        Some(name) => {
            let end = trimmed_len(path);
            let start = last_start_in(path, end);
            let mut stem: usize = name.len();
            assert(name@.take(stem as int) =~= name@);
            while stem > 0 && name[stem - 1] != DOT
                invariant
                    stem <= name@.len(),
                    last_dot(name@) == last_dot(name@.take(stem as int)),
                decreases stem,
            {
                assert(name@.take(stem as int).drop_last() =~= name@.take(stem - 1));
                stem = stem - 1;
            }
            assert(stem > 0 ==> name@.take(stem as int).last() == DOT);
            let keep: usize = if stem <= 1 {
                name.len()
            } else {
                stem - 1
            };
            assert(keep == stem_len(name@));
            let mut out = copy_range(path, 0, start + keep);
            assert(out@ =~= path@.take(end as int).take(start + keep));
            if extension.len() > 0 {
                out.push(DOT);
                extend(&mut out, extension);
            }
            out
        },
    }
}

} // verus!
