//! What the program prints: paths that lose nothing, and base64.
use crate::outside::{lossy, lossy_text};
use vstd::prelude::*;

verus! {

/// The character that stands for the six-bit value `v`.
pub open spec fn base64_digit(v: int) -> char {
    if v < 26 {
        (65 + v) as char
    } else if v < 52 {
        (97 + (v - 26)) as char
    } else if v < 62 {
        (48 + (v - 52)) as char
    } else if v == 62 {
        '+'
    } else {
        '/'
    }
}

/// The four characters that stand for a group of up to three bytes: each
/// carries six bits of the group, the highest first; `=` fills up.
pub open spec fn base64_group(group: Seq<u8>) -> Seq<char> {
    let a = group[0] as int;
    let b = if group.len() > 1 {
        group[1] as int
    } else {
        0
    };
    let c = if group.len() > 2 {
        group[2] as int
    } else {
        0
    };
    seq![
        base64_digit(a / 4),
        base64_digit((a % 4) * 16 + b / 16),
        if group.len() > 1 {
            base64_digit((b % 16) * 4 + c / 64)
        } else {
            '='
        },
        if group.len() > 2 {
            base64_digit(c % 64)
        } else {
            '='
        },
    ]
}

/// `bytes` in base64.
pub open spec fn base64_text(bytes: Seq<u8>) -> Seq<char>
    decreases bytes.len(),
{
    if bytes.len() == 0 {
        Seq::empty()
    } else if bytes.len() <= 3 {
        base64_group(bytes)
    } else {
        base64_group(bytes.take(3)) + base64_text(bytes.skip(3))
    }
}

fn digit(v: u8) -> (r: char)
    requires
        v < 64,
    ensures
        r == base64_digit(v as int),
{
    if v < 26 {
        (65 + v) as char
    } else if v < 52 {
        (97 + (v - 26)) as char
    } else if v < 62 {
        (48 + (v - 52)) as char
    } else if v == 62 {
        '+'
    } else {
        '/'
    }
}

proof fn lemma_base64_step(bytes: Seq<u8>, i: int)
    requires
        0 <= i < bytes.len(),
        i % 3 == 0,
    ensures
        i + 3 < bytes.len() ==> base64_text(bytes.skip(i)) == base64_group(bytes.subrange(i, i + 3))
            + base64_text(bytes.skip(i + 3)),
        i + 3 >= bytes.len() ==> base64_text(bytes.skip(i)) == base64_group(bytes.skip(i)),
{
    let rest = bytes.skip(i);
    if i + 3 < bytes.len() {
        assert(rest.take(3) =~= bytes.subrange(i, i + 3));
        assert(rest.skip(3) =~= bytes.skip(i + 3));
    }
}

/// `bytes` in base64, filled up with `=`.
pub fn base64(bytes: &[u8]) -> (r: String)
    ensures
        r@ == base64_text(bytes@),
{
    let mut encoded = String::new();
    let mut i: usize = 0;
    let n: usize = bytes.len();
    assert(bytes@.skip(0) =~= bytes@);
    while i < n
        invariant
            i <= n == bytes@.len(),
            i < n ==> i % 3 == 0,
            base64_text(bytes@) == encoded@ + base64_text(bytes@.skip(i as int)),
        decreases n - i,
    {
        let ghost before = encoded@;
        let left: usize = n - i;
        let end: usize = if left > 3 {
            i + 3
        } else {
            n
        };
        let ghost group = bytes@.subrange(i as int, end as int);
        proof {
            lemma_base64_step(bytes@, i as int);
            if left <= 3 {
                assert(bytes@.skip(i as int) =~= group);
                assert(base64_text(bytes@.skip(n as int)) =~= Seq::<char>::empty());
            }
        }
        let a: u8 = bytes[i];
        let b: u8 = if left > 1 {
            bytes[i + 1]
        } else {
            0
        };
        let c: u8 = if left > 2 {
            bytes[i + 2]
        } else {
            0
        };
        encoded.push(digit(a / 4));
        encoded.push(digit((a % 4) * 16 + b / 16));
        encoded.push(
            if left > 1 {
                digit((b % 16) * 4 + c / 64)
            } else {
                '='
            },
        );
        encoded.push(
            if left > 2 {
                digit(c % 64)
            } else {
                '='
            },
        );
        assert(encoded@ =~= before + base64_group(group));
        i = end;
        assert(base64_text(bytes@) =~= encoded@ + base64_text(bytes@.skip(i as int)));
    }
    assert(encoded@ =~= base64_text(bytes@));
    encoded
}

/// A path for output: its text as far as it is text, and its exact bytes in
/// base64.
#[derive(Clone, Debug)]
pub struct EncodedPath {
    pub display: String,
    pub bytes_base64: String,
}

/// The model of an [`EncodedPath`].
#[verifier::ext_equal]
pub struct EncodedView {
    pub display: Seq<char>,
    pub bytes_base64: Seq<char>,
}

impl View for EncodedPath {
    type V = EncodedView;

    open spec fn view(&self) -> EncodedView {
        EncodedView { display: self.display@, bytes_base64: self.bytes_base64@ }
    }
}

/// The path `path` for output.
pub open spec fn encoded(path: Seq<u8>) -> EncodedView {
    EncodedView { display: lossy_text(path), bytes_base64: base64_text(path) }
}

/// The views of a list of encoded paths.
pub open spec fn encoded_views(v: Seq<EncodedPath>) -> Seq<EncodedView> {
    v.map_values(|p: EncodedPath| p@)
}

impl EncodedPath {
    /// The path `path` for output.
    pub fn new(path: &[u8]) -> (r: Self)
        ensures
            r@ == encoded(path@),
    {
        EncodedPath { display: lossy(path), bytes_base64: base64(path) }
    }
}

/// The paths `paths` for output.
pub fn encode_all(paths: &Vec<Vec<u8>>) -> (r: Vec<EncodedPath>)
    ensures
        encoded_views(r@) == crate::text::views(paths@).map_values(|p: Seq<u8>| encoded(p)),
{
    let mut out: Vec<EncodedPath> = Vec::new();
    for i in 0..paths.len()
        invariant
            out@.len() == i,
            forall|k: int| 0 <= k < i ==> (#[trigger] out@[k])@ == encoded(paths@[k]@),
    {
        out.push(EncodedPath::new(paths[i].as_slice()));
    }
    assert(encoded_views(out@) =~= crate::text::views(paths@).map_values(|p: Seq<u8>| encoded(p)));
    out
}

// ---------------------------------------------------------------------------
// Base64 loses nothing
// ---------------------------------------------------------------------------

proof fn lemma_digit_tells_apart(v: int, w: int)
    requires
        0 <= v < 64,
        0 <= w < 64,
        base64_digit(v) == base64_digit(w),
    ensures
        v == w,
{
}

proof fn lemma_digit_is_no_filler(v: int)
    requires
        0 <= v < 64,
    ensures
        base64_digit(v) != '=',
{
}

proof fn lemma_group_tells_apart(a: Seq<u8>, b: Seq<u8>)
    requires
        1 <= a.len() <= 3,
        1 <= b.len() <= 3,
        base64_group(a) == base64_group(b),
    ensures
        a == b,
{
    let x = base64_group(a);
    let y = base64_group(b);
    let (a0, b0) = (a[0] as int, b[0] as int);
    let a1 = if a.len() > 1 { a[1] as int } else { 0 };
    let b1 = if b.len() > 1 { b[1] as int } else { 0 };
    let a2 = if a.len() > 2 { a[2] as int } else { 0 };
    let b2 = if b.len() > 2 { b[2] as int } else { 0 };
    assert(x[0] == y[0] && x[1] == y[1] && x[2] == y[2] && x[3] == y[3]);
    lemma_digit_is_no_filler((a1 % 16) * 4 + a2 / 64);
    lemma_digit_is_no_filler((b1 % 16) * 4 + b2 / 64);
    lemma_digit_is_no_filler(a2 % 64);
    lemma_digit_is_no_filler(b2 % 64);
    assert(a.len() == b.len());
    lemma_digit_tells_apart(a0 / 4, b0 / 4);
    lemma_digit_tells_apart((a0 % 4) * 16 + a1 / 16, (b0 % 4) * 16 + b1 / 16);
    assert(a0 % 4 == b0 % 4 && a1 / 16 == b1 / 16);
    assert(a0 == b0);
    if a.len() > 1 {
        lemma_digit_tells_apart((a1 % 16) * 4 + a2 / 64, (b1 % 16) * 4 + b2 / 64);
        assert(a1 == b1);
    }
    if a.len() > 2 {
        lemma_digit_tells_apart(a2 % 64, b2 % 64);
        assert(a2 == b2);
    }
    assert(a =~= b);
}

proof fn lemma_base64_length(bytes: Seq<u8>)
    ensures
        base64_text(bytes).len() == (bytes.len() + 2) / 3 * 4,
    decreases bytes.len(),
{
    if bytes.len() > 3 {
        lemma_base64_length(bytes.skip(3));
    }
}

/// Different bytes have different texts in base64: the printed form of a path
/// gives back the exact bytes, whether they are text or not.
pub proof fn law_base64_tells_apart(a: Seq<u8>, b: Seq<u8>)
    requires
        base64_text(a) == base64_text(b),
    ensures
        a == b,
    decreases a.len(),
{
    lemma_base64_length(a);
    lemma_base64_length(b);
    if a.len() == 0 {
        assert(a =~= b);
    } else if a.len() <= 3 {
        assert(b.len() <= 3);
        lemma_group_tells_apart(a, b);
    } else {
        assert(b.len() > 3);
        let x = base64_text(a);
        let y = base64_text(b);
        assert(x.take(4) =~= base64_group(a.take(3)));
        assert(y.take(4) =~= base64_group(b.take(3)));
        assert(x.skip(4) =~= base64_text(a.skip(3)));
        assert(y.skip(4) =~= base64_text(b.skip(3)));
        lemma_group_tells_apart(a.take(3), b.take(3));
        law_base64_tells_apart(a.skip(3), b.skip(3));
        assert(a =~= a.take(3) + a.skip(3));
        assert(b =~= b.take(3) + b.skip(3));
    }
}

} // verus!
