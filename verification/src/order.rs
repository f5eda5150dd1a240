//! Byte strings in order.
use crate::text::{copy, same_bytes, views};
use vstd::multiset::Multiset;
use vstd::prelude::*;
use vstd::relations::{sorted_by, total_ordering};

verus! {

/// `a` comes before `b`, byte by byte, or is `b`.
pub open spec fn bytes_leq(a: Seq<u8>, b: Seq<u8>) -> bool
    decreases a.len(),
{
    if a.len() == 0 {
        true
    } else if b.len() == 0 {
        false
    } else if a[0] != b[0] {
        a[0] < b[0]
    } else {
        bytes_leq(a.skip(1), b.skip(1))
    }
}

/// The order of byte strings as a relation.
pub open spec fn by_bytes() -> spec_fn(Seq<u8>, Seq<u8>) -> bool {
    |a: Seq<u8>, b: Seq<u8>| bytes_leq(a, b)
}

/// The names in order.
pub open spec fn ordered(names: Seq<Seq<u8>>) -> Seq<Seq<u8>> {
    names.sort_by(by_bytes())
}

proof fn lemma_reflexive(a: Seq<u8>)
    ensures
        bytes_leq(a, a),
    decreases a.len(),
{
    if a.len() > 0 {
        lemma_reflexive(a.skip(1));
    }
}

proof fn lemma_antisymmetric(a: Seq<u8>, b: Seq<u8>)
    requires
        bytes_leq(a, b),
        bytes_leq(b, a),
    ensures
        a == b,
    decreases a.len(),
{
    if a.len() == 0 {
        assert(a =~= b);
    } else {
        lemma_antisymmetric(a.skip(1), b.skip(1));
        assert(a =~= seq![a[0]] + a.skip(1));
        assert(b =~= seq![b[0]] + b.skip(1));
    }
}

proof fn lemma_transitive(a: Seq<u8>, b: Seq<u8>, c: Seq<u8>)
    requires
        bytes_leq(a, b),
        bytes_leq(b, c),
    ensures
        bytes_leq(a, c),
    decreases a.len(),
{
    if a.len() > 0 && a[0] == b[0] && b[0] == c[0] {
        lemma_transitive(a.skip(1), b.skip(1), c.skip(1));
    }
}

proof fn lemma_connected(a: Seq<u8>, b: Seq<u8>)
    ensures
        bytes_leq(a, b) || bytes_leq(b, a),
    decreases a.len(),
{
    if a.len() > 0 && b.len() > 0 {
        lemma_connected(a.skip(1), b.skip(1));
    }
}

/// The order of byte strings is total.
pub proof fn lemma_bytes_ordered()
    ensures
        total_ordering(by_bytes()),
{
    let r = by_bytes();
    assert forall|a: Seq<u8>| #[trigger] r(a, a) by {
        lemma_reflexive(a);
    }
    assert forall|a: Seq<u8>, b: Seq<u8>| #[trigger] r(
        a,
        b,
    ) && #[trigger] r(b, a) implies a == b by {
        lemma_antisymmetric(a, b);
    }
    assert forall|a: Seq<u8>, b: Seq<u8>, c: Seq<u8>| #[trigger]
        r(a, b) && #[trigger] r(b, c) implies r(a, c) by {
        lemma_transitive(a, b, c);
    }
    assert forall|a: Seq<u8>, b: Seq<u8>| #[trigger] r(a, b) || #[trigger] r(b, a) by {
        lemma_connected(a, b);
    }
}

/// `a` comes before `b`, or is `b`.
pub fn is_leq(a: &[u8], b: &[u8]) -> (r: bool)
    ensures
        r == bytes_leq(a@, b@),
{
    let mut k: usize = 0;
    assert(a@.skip(0) =~= a@);
    assert(b@.skip(0) =~= b@);
    while k < a.len() && k < b.len() && a[k] == b[k]
        invariant
            k <= a@.len(),
            k <= b@.len(),
            bytes_leq(a@, b@) == bytes_leq(a@.skip(k as int), b@.skip(k as int)),
        decreases a@.len() - k,
    {
        assert(a@.skip(k as int).skip(1) =~= a@.skip(k + 1));
        assert(b@.skip(k as int).skip(1) =~= b@.skip(k + 1));
        k = k + 1;
    }
    if k == a.len() {
        true
    } else if k == b.len() {
        false
    } else {
        a[k] < b[k]
    }
}

/// Two ordered lists as one.
spec fn merged(a: Seq<Seq<u8>>, b: Seq<Seq<u8>>) -> Seq<Seq<u8>>
    decreases a.len() + b.len(),
{
    if a.len() == 0 {
        b
    } else if b.len() == 0 {
        a
    } else if bytes_leq(a[0], b[0]) {
        seq![a[0]] + merged(a.skip(1), b)
    } else {
        seq![b[0]] + merged(a, b.skip(1))
    }
}

proof fn lemma_first_counts(s: Seq<Seq<u8>>)
    requires
        s.len() > 0,
    ensures
        s.to_multiset() =~= s.skip(1).to_multiset().insert(s[0]),
{
    broadcast use vstd::multiset::group_multiset_axioms;

    vstd::seq_lib::lemma_multiset_commutative(seq![s[0]], s.skip(1));
    vstd::seq_lib::to_multiset_build(Seq::<Seq<u8>>::empty(), s[0]);
    assert(Seq::<Seq<u8>>::empty().push(s[0]) =~= seq![s[0]]);
    assert(Seq::<Seq<u8>>::empty().to_multiset() =~= Multiset::<Seq<u8>>::empty()) by {
        vstd::seq_lib::to_multiset_len(Seq::<Seq<u8>>::empty());
    }
    assert(s =~= seq![s[0]] + s.skip(1));
}

proof fn lemma_merged(a: Seq<Seq<u8>>, b: Seq<Seq<u8>>)
    requires
        sorted_by(a, by_bytes()),
        sorted_by(b, by_bytes()),
    ensures
        sorted_by(merged(a, b), by_bytes()),
        merged(a, b).to_multiset() =~= a.to_multiset().add(b.to_multiset()),
        forall|x: Seq<u8>| #[trigger] merged(a, b).contains(x) ==> a.contains(x) || b.contains(x),
    decreases a.len() + b.len(),
{
    broadcast use vstd::multiset::group_multiset_axioms;

    lemma_bytes_ordered();
    let r = by_bytes();
    let all = merged(a, b);
    if a.len() == 0 {
        vstd::seq_lib::to_multiset_len(a);
        assert(a.to_multiset() =~= Multiset::<Seq<u8>>::empty());
    } else if b.len() == 0 {
        vstd::seq_lib::to_multiset_len(b);
        assert(b.to_multiset() =~= Multiset::<Seq<u8>>::empty());
    } else {
        let front = bytes_leq(a[0], b[0]);
        let first = if front { a[0] } else { b[0] };
        let (c, d) = if front { (a.skip(1), b) } else { (a, b.skip(1)) };
        let rest = merged(c, d);
        lemma_connected(a[0], b[0]);
        assert forall|x: Seq<u8>| a.contains(x) implies #[trigger] r(a[0], x) by {
            let k = choose|k: int| 0 <= k < a.len() && a[k] == x;
            assert(k == 0 || r(a[0], a[k]));
            lemma_reflexive(a[0]);
        }
        assert forall|x: Seq<u8>| b.contains(x) implies #[trigger] r(b[0], x) by {
            let k = choose|k: int| 0 <= k < b.len() && b[k] == x;
            assert(k == 0 || r(b[0], b[k]));
            lemma_reflexive(b[0]);
        }
        assert forall|i: int, j: int| 0 <= i < j < c.len() implies #[trigger] r(c[i], c[j]) by {
            if front {
                assert(c[i] == a[i + 1] && c[j] == a[j + 1]);
            }
        }
        assert forall|i: int, j: int| 0 <= i < j < d.len() implies #[trigger] r(d[i], d[j]) by {
            if !front {
                assert(d[i] == b[i + 1] && d[j] == b[j + 1]);
            }
        }
        lemma_merged(c, d);
        assert(all == seq![first] + rest);
        lemma_first_counts(a);
        lemma_first_counts(b);
        lemma_first_counts(all);
        assert(all.skip(1) =~= rest);
        assert(forall|x: Seq<u8>| c.contains(x) ==> a.contains(x)) by {
            assert forall|x: Seq<u8>| c.contains(x) implies a.contains(x) by {
                let k = choose|k: int| 0 <= k < c.len() && c[k] == x;
                assert(front ==> a[k + 1] == x);
                assert(!front ==> a[k] == x);
            }
        }
        assert(forall|x: Seq<u8>| d.contains(x) ==> b.contains(x)) by {
            assert forall|x: Seq<u8>| d.contains(x) implies b.contains(x) by {
                let k = choose|k: int| 0 <= k < d.len() && d[k] == x;
                assert(!front ==> b[k + 1] == x);
                assert(front ==> b[k] == x);
            }
        }
        assert forall|x: Seq<u8>| #[trigger] all.contains(x) implies a.contains(x) || b.contains(
            x,
        ) by {
            let k = choose|k: int| 0 <= k < all.len() && all[k] == x;
            if k == 0 {
                assert(x == first);
                assert(a.contains(a[0]) && b.contains(b[0]));
            } else {
                assert(rest[k - 1] == x);
                assert(rest.contains(x));
            }
        }
        assert forall|i: int, j: int| 0 <= i < j < all.len() implies #[trigger] r(
            all[i],
            all[j],
        ) by {
            assert(all[j] == rest[j - 1]);
            if i == 0 {
                let x = rest[j - 1];
                assert(rest.contains(x));
                assert(a.contains(x) || b.contains(x));
                if a.contains(x) {
                    assert(r(a[0], x));
                    if !front {
                        lemma_transitive(b[0], a[0], x);
                    }
                } else {
                    assert(r(b[0], x));
                    if front {
                        lemma_transitive(a[0], b[0], x);
                    }
                }
            } else {
                assert(all[i] == rest[i - 1]);
                assert(r(rest[i - 1], rest[j - 1]));
            }
        }
    }
}

fn merge(a: &Vec<Vec<u8>>, b: &Vec<Vec<u8>>) -> (r: Vec<Vec<u8>>)
    ensures
        views(r@) == merged(views(a@), views(b@)),
{
    let mut out: Vec<Vec<u8>> = Vec::new();
    let mut i: usize = 0;
    let mut j: usize = 0;
    let ghost x = views(a@);
    let ghost y = views(b@);
    assert(x.skip(0) =~= x);
    assert(y.skip(0) =~= y);
    assert(views(out@) + merged(x, y) =~= merged(x, y));
    while i < a.len() || j < b.len()
        invariant
            i <= a@.len(),
            j <= b@.len(),
            x == views(a@),
            y == views(b@),
            merged(x, y) == views(out@) + merged(x.skip(i as int), y.skip(j as int)),
        decreases a@.len() - i + b@.len() - j,
    {
        let ghost before = views(out@);
        let ghost c = x.skip(i as int);
        let ghost d = y.skip(j as int);
        let from_first: bool = if i == a.len() {
            false
        } else if j == b.len() {
            true
        } else {
            is_leq(a[i].as_slice(), b[j].as_slice())
        };
        if from_first {
            assert(c[0] == a@[i as int]@);
            out.push(copy(a[i].as_slice()));
            assert(c.skip(1) =~= x.skip(i + 1));
            assert(views(out@) =~= before.push(c[0]));
            assert(d.len() == 0 ==> merged(c.skip(1), d) =~= c.skip(1));
            assert(merged(c, d) =~= seq![c[0]] + merged(c.skip(1), d));
            i = i + 1;
        } else {
            assert(d[0] == b@[j as int]@);
            out.push(copy(b[j].as_slice()));
            assert(d.skip(1) =~= y.skip(j + 1));
            assert(views(out@) =~= before.push(d[0]));
            assert(c.len() == 0 ==> merged(c, d.skip(1)) =~= d.skip(1));
            assert(merged(c, d) =~= seq![d[0]] + merged(c, d.skip(1)));
            j = j + 1;
        }
        assert(merged(x, y) =~= views(out@) + merged(x.skip(i as int), y.skip(j as int)));
    }
    assert(merged(x.skip(i as int), y.skip(j as int)) =~= Seq::<Seq<u8>>::empty());
    assert(merged(x, y) =~= views(out@));
    out
}

fn sort_range(names: &Vec<Vec<u8>>, from: usize, to: usize) -> (r: Vec<Vec<u8>>)
    requires
        from <= to <= names@.len(),
    ensures
        sorted_by(views(r@), by_bytes()),
        views(r@).to_multiset() == views(names@).subrange(from as int, to as int).to_multiset(),
    decreases to - from,
{
    let ghost part = views(names@).subrange(from as int, to as int);
    if to - from <= 1 {
        let mut out: Vec<Vec<u8>> = Vec::new();
        if from < to {
            out.push(copy(names[from].as_slice()));
        }
        assert(views(out@) =~= part);
        return out;
    }
    let middle: usize = from + (to - from) / 2;
    let left = sort_range(names, from, middle);
    let right = sort_range(names, middle, to);
    let out = merge(&left, &right);
    proof {
        let a = views(names@).subrange(from as int, middle as int);
        let b = views(names@).subrange(middle as int, to as int);
        lemma_merged(views(left@), views(right@));
        vstd::seq_lib::lemma_multiset_commutative(a, b);
        assert(a + b =~= part);
    }
    out
}

/// The names in order.
pub fn sort_names(names: &Vec<Vec<u8>>) -> (r: Vec<Vec<u8>>)
    ensures
        views(r@) == ordered(views(names@)),
{
    let out = sort_range(names, 0, names.len());
    proof {
        let all = views(names@);
        lemma_bytes_ordered();
        assert(all.subrange(0, all.len() as int) =~= all);
        all.lemma_sort_by_ensures(by_bytes());
        vstd::seq_lib::lemma_sorted_unique(views(out@), ordered(all), by_bytes());
    }
    out
}

/// A set of byte strings, kept in order.
pub struct NameSet {
    names: Vec<Vec<u8>>,
}

impl NameSet {
    /// The names are in order.
    #[verifier::type_invariant]
    spec fn in_order(self) -> bool {
        sorted_by(views(self.names@), by_bytes())
    }

    /// The set as the names in it.
    pub closed spec fn view(&self) -> Set<Seq<u8>> {
        views(self.names@).to_set()
    }

    /// The set of the given names.
    pub fn of(names: &Vec<Vec<u8>>) -> (r: Self)
        ensures
            r@ == views(names@).to_set(),
    {
        let sorted = sort_names(names);
        proof {
            let all = views(names@);
            lemma_bytes_ordered();
            all.lemma_sort_by_ensures(by_bytes());
            broadcast use vstd::seq_lib::group_to_multiset_ensures;

            assert forall|x: Seq<u8>| #[trigger] all.to_set().contains(x) == ordered(
                all,
            ).to_set().contains(x) by {
                assert(all.contains(x) == (all.to_multiset().count(x) > 0));
                assert(ordered(all).contains(x) == (ordered(all).to_multiset().count(x) > 0));
            }
            assert(all.to_set() =~= ordered(all).to_set());
        }
        NameSet { names: sorted }
    }

    /// `name` is in the set.
    pub fn contains(&self, name: &[u8]) -> (r: bool)
        ensures
            r == self@.contains(name@),
    {
        proof {
            use_type_invariant(self);
            lemma_bytes_ordered();
        }
        let ghost all = views(self.names@);
        let ghost rel = by_bytes();
        let mut low: usize = 0;
        let mut high: usize = self.names.len();
        while low < high
            invariant
                low <= high <= self.names@.len(),
                all == views(self.names@),
                rel == by_bytes(),
                total_ordering(rel),
                sorted_by(all, rel),
                forall|k: int| 0 <= k < low ==> (#[trigger] all[k]) != name@,
                forall|k: int| high <= k < all.len() ==> (#[trigger] all[k]) != name@,
            decreases high - low,
        {
            let middle: usize = low + (high - low) / 2;
            let ghost m = middle as int;
            assert(all[m] == self.names@[m]@);
            if same_bytes(self.names[middle].as_slice(), name) {
                assert(all.to_set().contains(all[m]));
                return true;
            }
            if is_leq(self.names[middle].as_slice(), name) {
                assert forall|k: int| 0 <= k < m + 1 implies (#[trigger] all[k]) != name@ by {
                    if k < m && all[k] == name@ {
                        assert(rel(all[k], all[m]));
                        lemma_antisymmetric(all[m], name@);
                    }
                }
                low = middle + 1;
            } else {
                assert forall|k: int| m <= k < all.len() implies (#[trigger] all[k]) != name@ by {
                    if k > m && all[k] == name@ {
                        assert(rel(all[m], all[k]));
                    }
                }
                high = middle;
            }
        }
        assert(!all.to_set().contains(name@)) by {
            assert forall|k: int| 0 <= k < all.len() implies (#[trigger] all[k]) != name@ by {}
        }
        false
    }
}

} // verus!
