//! Text and byte-string helpers shared by the other modules.
use vstd::prelude::*;

verus! {

// ---------------------------------------------------------------------------
// Sequences
// ---------------------------------------------------------------------------

/// `s` begins with `prefix`.
pub open spec fn begins<T>(s: Seq<T>, prefix: Seq<T>) -> bool {
    prefix.len() <= s.len() && s.take(prefix.len() as int) == prefix
}

/// `s` ends with `suffix`.
pub open spec fn finishes<T>(s: Seq<T>, suffix: Seq<T>) -> bool {
    suffix.len() <= s.len() && s.skip(s.len() - suffix.len()) == suffix
}

/// `pattern` stands in `s` at position `i`.
pub open spec fn stands_at<T>(s: Seq<T>, pattern: Seq<T>, i: int) -> bool {
    0 <= i && i + pattern.len() <= s.len() && s.subrange(i, i + pattern.len()) == pattern
}

/// `pattern` stands somewhere in `s`.
pub open spec fn holds<T>(s: Seq<T>, pattern: Seq<T>) -> bool {
    exists|i: int| stands_at(s, pattern, i)
}

/// The pieces of `s` between occurrences of `sep`: always at least one piece.
pub open spec fn pieces<T>(s: Seq<T>, sep: T) -> Seq<Seq<T>>
    decreases s.len(),
{
    if s.len() == 0 {
        seq![Seq::empty()]
    } else {
        let rest = pieces(s.drop_last(), sep);
        if s.last() == sep {
            rest.push(Seq::empty())
        } else {
            rest.drop_last().push(rest.last().push(s.last()))
        }
    }
}

/// Splitting always gives at least one piece.
pub proof fn lemma_pieces_nonempty<T>(s: Seq<T>, sep: T)
    ensures
        pieces(s, sep).len() >= 1,
    decreases s.len(),
{
    if s.len() > 0 {
        lemma_pieces_nonempty(s.drop_last(), sep);
    }
}

/// The views of a list of byte strings.
pub open spec fn views(v: Seq<Vec<u8>>) -> Seq<Seq<u8>> {
    v.map_values(|b: Vec<u8>| b@)
}

/// The views of a list of texts.
pub open spec fn text_views(v: Seq<String>) -> Seq<Seq<char>> {
    v.map_values(|s: String| s@)
}

// ---------------------------------------------------------------------------
// Bytes
// ---------------------------------------------------------------------------

/// A copy of `bytes`.
pub fn copy(bytes: &[u8]) -> (r: Vec<u8>)
    ensures
        r@ == bytes@,
{
    let mut out: Vec<u8> = Vec::new();
    for i in 0..bytes.len()
        invariant
            out@ == bytes@.take(i as int),
    {
        out.push(bytes[i]);
        assert(bytes@.take(i + 1) == bytes@.take(i as int).push(bytes@[i as int]));
    }
    assert(bytes@.take(bytes@.len() as int) == bytes@);
    out
}

/// A copy of the bytes of `bytes` from `from` up to `to`.
pub fn copy_range(bytes: &[u8], from: usize, to: usize) -> (r: Vec<u8>)
    requires
        from <= to <= bytes@.len(),
    ensures
        r@ == bytes@.subrange(from as int, to as int),
{
    let mut out: Vec<u8> = Vec::new();
    for i in from..to
        invariant
            from <= to <= bytes@.len(),
            out@ == bytes@.subrange(from as int, i as int),
    {
        out.push(bytes[i]);
        assert(bytes@.subrange(from as int, i + 1) == bytes@.subrange(from as int, i as int).push(
            bytes@[i as int],
        ));
    }
    out
}

/// Appends `more` to `out`.
pub fn extend(out: &mut Vec<u8>, more: &[u8])
    ensures
        final(out)@ == old(out)@ + more@,
{
    let ghost start = out@;
    for i in 0..more.len()
        invariant
            out@ == start + more@.take(i as int),
    {
        out.push(more[i]);
        assert(more@.take(i + 1) == more@.take(i as int).push(more@[i as int]));
    }
    assert(more@.take(more@.len() as int) == more@);
}

/// `a` and `b` are the same bytes.
pub fn same_bytes(a: &[u8], b: &[u8]) -> (r: bool)
    ensures
        r == (a@ == b@),
{
    if a.len() != b.len() {
        return false;
    }
    for i in 0..a.len()
        invariant
            a@.len() == b@.len(),
            forall|k: int| 0 <= k < i ==> a@[k] == b@[k],
    {
        if a[i] != b[i] {
            return false;
        }
    }
    assert(a@ =~= b@);
    true
}

/// `bytes` begins with `prefix`.
pub fn bytes_begin(bytes: &[u8], prefix: &[u8]) -> (r: bool)
    ensures
        r == begins(bytes@, prefix@),
{
    if bytes.len() < prefix.len() {
        return false;
    }
    for i in 0..prefix.len()
        invariant
            prefix@.len() <= bytes@.len(),
            forall|k: int| 0 <= k < i ==> bytes@[k] == prefix@[k],
    {
        if bytes[i] != prefix[i] {
            assert(bytes@.take(prefix@.len() as int)[i as int] != prefix@[i as int]);
            return false;
        }
    }
    assert(bytes@.take(prefix@.len() as int) =~= prefix@);
    true
}

/// The pieces of `bytes` between occurrences of `sep`.
pub fn split_bytes(bytes: &[u8], sep: u8) -> (r: Vec<Vec<u8>>)
    ensures
        views(r@) == pieces(bytes@, sep),
{
    let mut out: Vec<Vec<u8>> = Vec::new();
    let mut piece: Vec<u8> = Vec::new();
    assert(bytes@.take(0) =~= Seq::<u8>::empty());
    assert(views(out@).push(piece@) =~= pieces(bytes@.take(0), sep));
    for i in 0..bytes.len()
        invariant
            views(out@).push(piece@) == pieces(bytes@.take(i as int), sep),
    {
        let ghost before = pieces(bytes@.take(i as int), sep);
        assert(bytes@.take(i + 1).drop_last() =~= bytes@.take(i as int));
        assert(before.drop_last() =~= views(out@));
        assert(before.last() == piece@);
        if bytes[i] == sep {
            let ghost closed = out@;
            let ghost last = piece;
            out.push(piece);
            piece = Vec::new();
            assert(views(out@) =~= views(closed).push(last@));
            assert(views(out@).push(piece@) =~= pieces(bytes@.take(i + 1), sep));
        } else {
            piece.push(bytes[i]);
            assert(views(out@).push(piece@) =~= pieces(bytes@.take(i + 1), sep));
        }
    }
    assert(bytes@.take(bytes@.len() as int) =~= bytes@);
    let ghost closed = out@;
    let ghost last = piece;
    out.push(piece);
    assert(views(out@) =~= views(closed).push(last@));
    out
}

// ---------------------------------------------------------------------------
// Text
// ---------------------------------------------------------------------------

/// The characters of `s`.
pub fn chars_of(s: &str) -> (r: Vec<char>)
    ensures
        r@ == s@,
{
    let mut out: Vec<char> = Vec::new();
    for c in it: s.chars()
        invariant
            out@ == it.seq().take(it.index()),
            it.seq() == s@,
    {
        out.push(c);
        assert(it.seq().take(it.index() + 1) =~= it.seq().take(it.index()).push(c));
    }
    assert(s@.take(s@.len() as int) =~= s@);
    out
}

/// The UTF-8 bytes of a text.
pub open spec fn utf8(s: Seq<char>) -> Seq<u8> {
    vstd::utf8::encode_utf8(s)
}

/// The UTF-8 bytes of `text`.
pub fn utf8_of(text: &str) -> (r: &[u8])
    ensures
        r@ == utf8(text@),
{
    text.as_bytes()
}

/// `a` and `b` are the same text.
pub fn same(a: &str, b: &str) -> (r: bool)
    ensures
        r == (a@ == b@),
{
    a.to_owned() == b.to_owned()
}

/// Appends copies of `more` to `out`.
pub fn append_texts(out: &mut Vec<String>, more: &Vec<String>)
    ensures
        text_views(final(out)@) == text_views(old(out)@) + text_views(more@),
{
    let ghost start = text_views(out@);
    assert(start + text_views(more@).take(0) =~= start);
    for i in 0..more.len()
        invariant
            text_views(out@) == start + text_views(more@).take(i as int),
    {
        let ghost before = text_views(out@);
        let text = more[i].clone();
        let ghost shown = text@;
        out.push(text);
        assert(text_views(out@) =~= before.push(shown));
        assert(text_views(more@).take(i + 1) =~= text_views(more@).take(i as int).push(shown));
    }
    assert(text_views(more@).take(more@.len() as int) =~= text_views(more@));
}

/// A copy of `texts`.
pub fn copy_texts(texts: &Vec<String>) -> (r: Vec<String>)
    ensures
        text_views(r@) == text_views(texts@),
{
    let mut out: Vec<String> = Vec::new();
    append_texts(&mut out, texts);
    assert(text_views(out@) =~= text_views(texts@));
    out
}

/// Two texts, one after the other.
pub fn text2(a: &str, b: &str) -> (r: String)
    ensures
        r@ == a@ + b@,
{
    a.to_owned().concat(b)
}

/// Three texts, one after the other.
pub fn text3(a: &str, b: &str, c: &str) -> (r: String)
    ensures
        r@ == a@ + b@ + c@,
{
    a.to_owned().concat(b).concat(c)
}

/// Four texts, one after the other.
pub fn text4(a: &str, b: &str, c: &str, d: &str) -> (r: String)
    ensures
        r@ == a@ + b@ + c@ + d@,
{
    a.to_owned().concat(b).concat(c).concat(d)
}

/// Five texts, one after the other.
pub fn text5(a: &str, b: &str, c: &str, d: &str, e: &str) -> (r: String)
    ensures
        r@ == a@ + b@ + c@ + d@ + e@,
{
    a.to_owned().concat(b).concat(c).concat(d).concat(e)
}

/// `std::string::String::push` appends the character.
pub assume_specification[ String::push ](text: &mut String, c: char)
    ensures
        final(text)@ == old(text)@.push(c),
;

/// The characters of `chars` from `from` up to `to`, as text.
pub fn text_range(chars: &[char], from: usize, to: usize) -> (r: String)
    requires
        from <= to <= chars@.len(),
    ensures
        r@ == chars@.subrange(from as int, to as int),
{
    let mut out = String::new();
    for i in from..to
        invariant
            from <= to <= chars@.len(),
            out@ == chars@.subrange(from as int, i as int),
    {
        out.push(chars[i]);
        assert(chars@.subrange(from as int, i + 1) == chars@.subrange(from as int, i as int).push(
            chars@[i as int],
        ));
    }
    out
}

/// `pattern` stands in `chars` at `i`.
fn chars_stand_at(chars: &[char], pattern: &[char], i: usize) -> (r: bool)
    ensures
        r == stands_at(chars@, pattern@, i as int),
{
    if chars.len() < pattern.len() || chars.len() - pattern.len() < i {
        return false;
    }
    let n: usize = chars.len();
    for k in 0..pattern.len()
        invariant
            n == chars@.len(),
            i + pattern@.len() <= n,
            forall|j: int| 0 <= j < k ==> chars@[i + j] == pattern@[j],
    {
        if chars[i + k] != pattern[k] {
            assert(chars@.subrange(i as int, i + pattern@.len())[k as int] != pattern@[k as int]);
            return false;
        }
    }
    assert(chars@.subrange(i as int, i + pattern@.len()) =~= pattern@);
    true
}

/// `text` begins with `prefix`.
pub fn text_begins(text: &str, prefix: &str) -> (r: bool)
    ensures
        r == begins(text@, prefix@),
{
    let chars = chars_of(text);
    let pattern = chars_of(prefix);
    let r = chars_stand_at(chars.as_slice(), pattern.as_slice(), 0);
    assert(prefix@.len() <= text@.len() ==> text@.subrange(0, prefix@.len() as int)
        =~= text@.take(prefix@.len() as int));
    r
}

/// `text` ends with `suffix`.
pub fn text_finishes(text: &str, suffix: &str) -> (r: bool)
    ensures
        r == finishes(text@, suffix@),
{
    let chars = chars_of(text);
    let pattern = chars_of(suffix);
    if chars.len() < pattern.len() {
        return false;
    }
    let r = chars_stand_at(chars.as_slice(), pattern.as_slice(), chars.len() - pattern.len());
    assert(text@.subrange(text@.len() - suffix@.len(), text@.len() as int) =~= text@.skip(
        text@.len() - suffix@.len(),
    ));
    r
}

/// The first place where `pattern` stands in `s`.
pub open spec fn first_at<T>(s: Seq<T>, pattern: Seq<T>, i: int) -> bool {
    stands_at(s, pattern, i) && forall|k: int| 0 <= k < i ==> !stands_at(s, pattern, k)
}

/// The first place where `pattern` stands in `text`, counted in characters.
pub fn find_text(text: &str, pattern: &str) -> (r: Option<usize>)
    ensures
        match r {
            Some(i) => first_at(text@, pattern@, i as int),
            None => !holds(text@, pattern@),
        },
{
    let chars = chars_of(text);
    let wanted = chars_of(pattern);
    for i in 0..chars.len()
        invariant
            chars@ == text@,
            wanted@ == pattern@,
            forall|k: int| 0 <= k < i ==> !stands_at(text@, pattern@, k),
    {
        if chars_stand_at(chars.as_slice(), wanted.as_slice(), i) {
            return Some(i);
        }
    }
    if chars_stand_at(chars.as_slice(), wanted.as_slice(), chars.len()) {
        return Some(chars.len());
    }
    assert forall|k: int| !stands_at(text@, pattern@, k) by {
        if k > text@.len() || k < 0 {
        }
    }
    None
}

/// `pattern` stands somewhere in `text`.
pub fn text_holds(text: &str, pattern: &str) -> (r: bool)
    ensures
        r == holds(text@, pattern@),
{
    find_text(text, pattern).is_some()
}

/// A character of Unicode's White_Space property.
pub open spec fn white(c: char) -> bool {
    let u = c as u32;
    ||| 0x09 <= u <= 0x0d
    ||| u == 0x20
    ||| u == 0x85
    ||| u == 0xa0
    ||| u == 0x1680
    ||| 0x2000 <= u <= 0x200a
    ||| u == 0x2028
    ||| u == 0x2029
    ||| u == 0x202f
    ||| u == 0x205f
    ||| u == 0x3000
}

/// `c` has Unicode's White_Space property.
pub fn is_white(c: char) -> (r: bool)
    ensures
        r == white(c),
{
    let u = c as u32;
    (0x09 <= u && u <= 0x0d) || u == 0x20 || u == 0x85 || u == 0xa0 || u == 0x1680 || (0x2000 <= u
        && u <= 0x200a) || u == 0x2028 || u == 0x2029 || u == 0x202f || u == 0x205f || u == 0x3000
}

/// `s` without white space at its start.
pub open spec fn without_lead(s: Seq<char>) -> Seq<char>
    decreases s.len(),
{
    if s.len() > 0 && white(s[0]) {
        without_lead(s.skip(1))
    } else {
        s
    }
}

/// `s` without white space at its end.
pub open spec fn without_tail(s: Seq<char>) -> Seq<char>
    decreases s.len(),
{
    if s.len() > 0 && white(s.last()) {
        without_tail(s.drop_last())
    } else {
        s
    }
}

/// `s` without white space at either end.
pub open spec fn stripped(s: Seq<char>) -> Seq<char> {
    without_tail(without_lead(s))
}

/// `text` without white space at either end.
pub fn trim(text: &str) -> (r: String)
    ensures
        r@ == stripped(text@),
{
    let chars = chars_of(text);
    let mut start: usize = 0;
    assert(chars@.skip(0) =~= chars@);
    while start < chars.len() && is_white(chars[start])
        invariant
            start <= chars@.len(),
            without_lead(chars@) == without_lead(chars@.skip(start as int)),
        decreases chars@.len() - start,
    {
        assert(chars@.skip(start as int).skip(1) =~= chars@.skip(start + 1));
        start = start + 1;
    }
    let ghost body = chars@.skip(start as int);
    assert(without_lead(chars@) == body);
    let mut end: usize = chars.len();
    assert(chars@.subrange(start as int, end as int) =~= body);
    while end > start && is_white(chars[end - 1])
        invariant
            start <= end <= chars@.len(),
            without_tail(body) == without_tail(chars@.subrange(start as int, end as int)),
        decreases end,
    {
        assert(chars@.subrange(start as int, end as int).drop_last() =~= chars@.subrange(
            start as int,
            end - 1,
        ));
        end = end - 1;
    }
    text_range(chars.as_slice(), start, end)
}

/// `text` holds nothing but white space.
pub fn is_blank(text: &str) -> (r: bool)
    ensures
        r == (stripped(text@).len() == 0),
{
    let body = trim(text);
    chars_of(body.as_str()).len() == 0
}

/// The pieces of `text` between occurrences of `sep`.
pub fn split_text(text: &str, sep: char) -> (r: Vec<String>)
    ensures
        text_views(r@) == pieces(text@, sep),
{
    let chars = chars_of(text);
    let mut out: Vec<String> = Vec::new();
    let mut piece = String::new();
    assert(chars@.take(0) =~= Seq::<char>::empty());
    assert(text_views(out@).push(piece@) =~= pieces(chars@.take(0), sep));
    for i in 0..chars.len()
        invariant
            text_views(out@).push(piece@) == pieces(chars@.take(i as int), sep),
    {
        let ghost before = pieces(chars@.take(i as int), sep);
        assert(chars@.take(i + 1).drop_last() =~= chars@.take(i as int));
        assert(before.drop_last() =~= text_views(out@));
        assert(before.last() == piece@);
        if chars[i] == sep {
            let ghost closed = out@;
            let ghost last = piece;
            out.push(piece);
            piece = String::new();
            assert(text_views(out@) =~= text_views(closed).push(last@));
            assert(text_views(out@).push(piece@) =~= pieces(chars@.take(i + 1), sep));
        } else {
            piece.push(chars[i]);
            assert(text_views(out@).push(piece@) =~= pieces(chars@.take(i + 1), sep));
        }
    }
    assert(chars@.take(chars@.len() as int) =~= chars@);
    let ghost closed = out@;
    let ghost last = piece;
    out.push(piece);
    assert(text_views(out@) =~= text_views(closed).push(last@));
    out
}

/// A line without the carriage return before its line feed.
pub open spec fn without_return(line: Seq<char>) -> Seq<char> {
    if line.len() > 0 && line.last() == '\r' {
        line.drop_last()
    } else {
        line
    }
}

/// The lines of a text: what stands before each line feed, without a carriage
/// return before it, and what follows the last line feed where that is not
/// empty.
pub open spec fn lines_of(s: Seq<char>) -> Seq<Seq<char>> {
    let parts = pieces(s, '\n');
    let ended = parts.drop_last().map_values(|line: Seq<char>| without_return(line));
    if parts.last().len() == 0 {
        ended
    } else {
        ended.push(parts.last())
    }
}

/// The lines of `text`.
pub fn lines(text: &str) -> (r: Vec<String>)
    ensures
        text_views(r@) == lines_of(text@),
{
    let parts = split_text(text, '\n');
    proof {
        lemma_pieces_nonempty(text@, '\n');
        assert(text_views(parts@).len() == parts@.len());
    }
    let ended: usize = parts.len() - 1;
    let ghost model = pieces(text@, '\n').drop_last().map_values(
        |line: Seq<char>| without_return(line),
    );
    let mut out: Vec<String> = Vec::new();
    for i in 0..ended
        invariant
            ended == parts@.len() - 1,
            text_views(parts@) == pieces(text@, '\n'),
            model == pieces(text@, '\n').drop_last().map_values(
                |line: Seq<char>| without_return(line),
            ),
            text_views(out@) == model.take(i as int),
    {
        let ghost shown = out@;
        let chars = chars_of(parts[i].as_str());
        assert(chars@ == text_views(parts@)[i as int]);
        let keep: usize = if chars.len() > 0 && chars[chars.len() - 1] == '\r' {
            chars.len() - 1
        } else {
            chars.len()
        };
        let line = text_range(chars.as_slice(), 0, keep);
        assert(line@ =~= without_return(chars@));
        out.push(line);
        assert(text_views(out@) =~= text_views(shown).push(line@));
        assert(model.take(i + 1) =~= model.take(i as int).push(model[i as int]));
    }
    assert(model.take(ended as int) =~= model);
    let last = &parts[ended];
    assert(last@ == text_views(parts@)[ended as int]);
    if !last.as_str().is_empty() {
        let ghost shown = out@;
        out.push(last.clone());
        assert(text_views(out@) =~= text_views(shown).push(last@));
    }
    out
}

/// The texts one after the other, with `sep` between each two.
pub open spec fn joined_text(parts: Seq<Seq<char>>, sep: Seq<char>) -> Seq<char>
    decreases parts.len(),
{
    if parts.len() == 0 {
        Seq::empty()
    } else if parts.len() == 1 {
        parts[0]
    } else {
        joined_text(parts.drop_last(), sep) + sep + parts.last()
    }
}

/// The texts one after the other, with `sep` between each two.
pub fn join_text(parts: &Vec<String>, sep: &str) -> (r: String)
    ensures
        r@ == joined_text(text_views(parts@), sep@),
{
    let mut out = String::new();
    for i in 0..parts.len()
        invariant
            out@ == joined_text(text_views(parts@).take(i as int), sep@),
    {
        let ghost all = text_views(parts@);
        assert(all.take(i + 1).drop_last() =~= all.take(i as int));
        if i > 0 {
            out.append(sep);
        }
        out.append(parts[i].as_str());
        assert(out@ =~= joined_text(all.take(i + 1), sep@));
    }
    assert(text_views(parts@).take(parts@.len() as int) =~= text_views(parts@));
    out
}

// ---------------------------------------------------------------------------
// Numbers
// ---------------------------------------------------------------------------

/// The decimal digit `d`.
pub open spec fn digit_char(d: int) -> char {
    (48 + d) as char
}

/// `n` in decimal, without leading zeros.
pub open spec fn decimal(n: nat) -> Seq<char>
    decreases n,
{
    if n < 10 {
        seq![digit_char(n as int)]
    } else {
        decimal(n / 10).push(digit_char((n % 10) as int))
    }
}

/// `n` in decimal.
pub fn decimal_text(n: u128) -> (r: String)
    ensures
        r@ == decimal(n as nat),
    decreases n,
{
    let c = (48u8 + (n % 10) as u8) as char;
    if n < 10 {
        let mut out = String::new();
        out.push(c);
        assert(out@ =~= decimal(n as nat));
        out
    } else {
        let mut out = decimal_text(n / 10);
        out.push(c);
        out
    }
}

/// `n` in decimal, with a sign where it is negative.
pub open spec fn signed_decimal(n: int) -> Seq<char> {
    if n < 0 {
        seq!['-'] + decimal((-n) as nat)
    } else {
        decimal(n as nat)
    }
}

/// `n` in decimal.
pub fn signed_text(n: i32) -> (r: String)
    ensures
        r@ == signed_decimal(n as int),
{
    if n < 0 {
        let mut out = String::new();
        out.push('-');
        let magnitude = decimal_text((-(n as i64)) as u128);
        out.append(magnitude.as_str());
        assert(out@ =~= seq!['-'] + magnitude@);
        out
    } else {
        decimal_text(n as u128)
    }
}

/// The value of the digit `c` in base `radix`, or -1.
pub open spec fn digit_value(c: char, radix: int) -> int {
    let v = c as u32 - 48;
    if 0 <= v < 10 && v < radix {
        v
    } else {
        -1
    }
}

/// The value of a run of digits in base `radix`; none for an empty run or one
/// that holds anything else.
pub open spec fn digits_value(s: Seq<char>, radix: int) -> Option<int>
    decreases s.len(),
{
    if s.len() == 0 {
        None
    } else {
        let d = digit_value(s.last(), radix);
        if d < 0 {
            None
        } else if s.len() == 1 {
            Some(d)
        } else {
            match digits_value(s.drop_last(), radix) {
                Some(v) => Some(v * radix + d),
                None => None,
            }
        }
    }
}

/// The digits of a number: what follows an optional `+`.
pub open spec fn unsigned_digits(s: Seq<char>) -> Seq<char> {
    if s.len() > 0 && s[0] == '+' {
        s.skip(1)
    } else {
        s
    }
}

/// The number that `s` writes in base `radix`, where it is at most `max`.
pub open spec fn unsigned_value(s: Seq<char>, radix: int, max: int) -> Option<int> {
    match digits_value(unsigned_digits(s), radix) {
        Some(v) => if v <= max {
            Some(v)
        } else {
            None
        },
        None => None,
    }
}

proof fn lemma_digits_value(s: Seq<char>, radix: int)
    requires
        radix >= 2,
    ensures
        digits_value(s, radix) is Some ==> digits_value(s, radix)->0 >= 0,
        forall|k: int|
            0 < k <= s.len() && digits_value(s, radix) is Some ==> {
                &&& (#[trigger] digits_value(s.take(k), radix)) is Some
                &&& digits_value(s.take(k), radix)->0 <= digits_value(s, radix)->0
            },
    decreases s.len(),
{
    if s.len() > 0 {
        lemma_digits_value(s.drop_last(), radix);
        assert forall|k: int| 0 < k <= s.len() && digits_value(s, radix) is Some implies {
            &&& (#[trigger] digits_value(s.take(k), radix)) is Some
            &&& digits_value(s.take(k), radix)->0 <= digits_value(s, radix)->0
        } by {
            if k == s.len() {
                assert(s.take(k) =~= s);
            } else {
                assert(s.drop_last().take(k) =~= s.take(k));
                let v = digits_value(s.drop_last(), radix)->0;
                assert(v * radix >= v) by (nonlinear_arith)
                    requires
                        v >= 0,
                        radix >= 2,
                ;
            }
        }
        if s.len() > 1 && digits_value(s, radix) is Some {
            let v = digits_value(s.drop_last(), radix)->0;
            assert(v * radix >= 0) by (nonlinear_arith)
                requires
                    v >= 0,
                    radix >= 2,
            ;
        }
    }
}

/// The number that `text` writes in base `radix`, where it is at most `max`.
pub fn parse_unsigned(text: &str, radix: u32, max: u32) -> (r: Option<u32>)
    requires
        2 <= radix <= 10,
    ensures
        match r {
            Some(v) => unsigned_value(text@, radix as int, max as int) == Some(v as int),
            None => unsigned_value(text@, radix as int, max as int) is None,
        },
{
    let chars = chars_of(text);
    let start: usize = if chars.len() > 0 && chars[0] == '+' {
        1
    } else {
        0
    };
    let ghost body = unsigned_digits(text@);
    assert(body =~= chars@.skip(start as int));
    if start == chars.len() {
        assert(body.len() == 0);
        return None;
    }
    let mut value: u64 = 0;
    for i in start..chars.len()
        invariant
            2 <= radix <= 10,
            start <= i <= chars@.len(),
            body == chars@.skip(start as int),
            body == unsigned_digits(text@),
            i > start ==> digits_value(body.take(i - start), radix as int) == Some(value as int),
            i == start ==> value == 0,
            value <= max,
    {
        let ghost k = i - start;
        proof {
            assert(body.take(k + 1).drop_last() =~= body.take(k));
            assert(body.take(k + 1).last() == chars@[i as int]);
            lemma_digits_value(body, radix as int);
        }
        let c = chars[i] as u32;
        if c < 48 || c >= 48 + radix {
            assert(digit_value(chars@[i as int], radix as int) == -1);
            assert(digits_value(body.take(k + 1), radix as int) is None);
            return None;
        }
        let ghost before = value;
        assert(value * radix <= max * 10) by (nonlinear_arith)
            requires
                value <= max,
                radix <= 10,
        ;
        value = value * radix as u64 + (c - 48) as u64;
        assert(digits_value(body.take(k + 1), radix as int) == Some(value as int));
        if value > max as u64 {
            return None;
        }
    }
    assert(body.take(chars@.len() - start) =~= body);
    Some(value as u32)
}

} // verus!
