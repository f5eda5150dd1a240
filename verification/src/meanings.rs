//! Paths, figures and lines mean what they show.
use crate::add::report::AddedView;
use crate::cli::update_text;
use crate::error::ErrorView;
use crate::git::{entry_in, numbers, recent, position_from, EntryView, GitFailureView};
use crate::order::bytes_leq;
use crate::output::{base64_digit, base64_group};
use crate::path::{
    dot, dot_dot, first_step, joined, last_start, lemma_last_start, lemma_named_has_parent,
    name_of, parent_of, steps, steps_of, trimmed, Step, DOT, SLASH,
};
use crate::text::{begins, decimal, joined_text, digits_value, lemma_pieces_nonempty, pieces, unsigned_digits, unsigned_value, utf8};
use crate::update::model::ResultView;
use vstd::prelude::*;
use vstd::utf8::{encode_utf8_decode_utf8, encode_utf8_valid_utf8};

verus! {

// ---------------------------------------------------------------------------
// Pieces
// ---------------------------------------------------------------------------

pub proof fn lemma_one_piece<T>(s: Seq<T>, sep: T)
    requires
        !s.contains(sep),
    ensures
        pieces(s, sep) == seq![s],
    decreases s.len(),
{
    if s.len() == 0 {
        assert(s =~= Seq::<T>::empty());
        assert(pieces(s, sep) =~= seq![s]);
    } else {
        let front = s.drop_last();
        assert(!front.contains(sep)) by {
            if front.contains(sep) {
                let k = choose|k: int| 0 <= k < front.len() && front[k] == sep;
                assert(s[k] == sep);
            }
        }
        assert(s.last() != sep) by {
            assert(s[s.len() - 1] == s.last());
        }
        lemma_one_piece(front, sep);
        assert(front.push(s.last()) =~= s);
        assert(pieces(s, sep) =~= seq![s]);
    }
}

proof fn lemma_pieces_of_both<T>(a: Seq<T>, b: Seq<T>, sep: T)
    ensures
        pieces(a + b, sep) == pieces(a, sep).drop_last() + seq![
            pieces(a, sep).last() + pieces(b, sep)[0],
        ] + pieces(b, sep).skip(1),
    decreases b.len(),
{
    let left = pieces(a, sep);
    lemma_pieces_nonempty(a, sep);
    lemma_pieces_nonempty(b, sep);
    if b.len() == 0 {
        assert(a + b =~= a);
        assert(pieces(b, sep) =~= seq![Seq::<T>::empty()]);
        assert(left.last() + Seq::<T>::empty() =~= left.last());
        assert(left =~= left.drop_last() + seq![left.last() + pieces(b, sep)[0]] + pieces(
            b,
            sep,
        ).skip(1));
    } else {
        let front = b.drop_last();
        let all = a + b;
        lemma_pieces_of_both(a, front, sep);
        lemma_pieces_nonempty(front, sep);
        assert(all.drop_last() =~= a + front);
        assert(all.last() == b.last());
        let before = pieces(a + front, sep);
        let right = pieces(front, sep);
        if b.last() == sep {
            assert(pieces(all, sep) =~= left.drop_last() + seq![
                left.last() + pieces(b, sep)[0],
            ] + pieces(b, sep).skip(1));
        } else {
            let grown = before.last().push(b.last());
            if right.len() == 1 {
                assert(before.last() == left.last() + right[0]);
                assert(grown =~= left.last() + right[0].push(b.last()));
                assert(pieces(b, sep)[0] == right[0].push(b.last()));
            } else {
                assert(before.last() == right.last());
                assert(pieces(b, sep)[0] == right[0]);
            }
            assert(pieces(all, sep) =~= left.drop_last() + seq![
                left.last() + pieces(b, sep)[0],
            ] + pieces(b, sep).skip(1));
        }
    }
}

proof fn lemma_separated<T>(a: Seq<T>, b: Seq<T>, sep: T)
    ensures
        pieces(a.push(sep) + b, sep) == pieces(a, sep) + pieces(b, sep),
{
    let left = a.push(sep);
    lemma_pieces_of_both(left, b, sep);
    lemma_pieces_nonempty(b, sep);
    assert(left.drop_last() =~= a);
    assert(pieces(left, sep) == pieces(a, sep).push(Seq::empty()));
    assert(Seq::<T>::empty() + pieces(b, sep)[0] =~= pieces(b, sep)[0]);
    assert(pieces(left + b, sep) =~= pieces(a, sep) + pieces(b, sep));
}

// ---------------------------------------------------------------------------
// Paths
// ---------------------------------------------------------------------------

proof fn lemma_steps_of_both(a: Seq<Seq<u8>>, b: Seq<Seq<u8>>)
    ensures
        steps_of(a + b) == steps_of(a) + steps_of(b),
    decreases b.len(),
{
    if b.len() == 0 {
        assert(a + b =~= a);
        assert(steps_of(a) + steps_of(b) =~= steps_of(a));
    } else {
        lemma_steps_of_both(a, b.drop_last());
        assert((a + b).drop_last() =~= a + b.drop_last());
        assert((a + b).last() == b.last());
        assert(steps_of(a + b) =~= steps_of(a) + steps_of(b));
    }
}

pub proof fn lemma_step_of_one(s: Seq<u8>)
    ensures
        steps_of(seq![s]) == (if s.len() == 0 || s == dot() {
            Seq::<Step>::empty()
        } else if s == dot_dot() {
            seq![Step::Parent]
        } else {
            seq![Step::Normal(s)]
        }),
{
    reveal_with_fuel(steps_of, 2);
    assert(seq![s].drop_last() =~= Seq::<Seq<u8>>::empty());
    assert(Seq::<Step>::empty().push(Step::Parent) =~= seq![Step::Parent]);
    assert(Seq::<Step>::empty().push(Step::Normal(s)) =~= seq![Step::Normal(s)]);
}

/// A path that is joined below another leads first where that leads, and then
/// on by its own steps.
pub proof fn law_joining_adds_the_steps(base: Seq<u8>, tail: Seq<u8>)
    requires
        base.len() > 0,
        tail.len() > 0,
        tail[0] != SLASH,
        pieces(tail, SLASH)[0] != dot(),
    ensures
        steps(joined(base, tail)) == steps(base) + steps(tail),
{
    let left = pieces(base, SLASH);
    let right = pieces(tail, SLASH);
    lemma_pieces_nonempty(base, SLASH);
    lemma_pieces_nonempty(tail, SLASH);
    assert(first_step(tail) =~= Seq::<Step>::empty());
    assert(steps(tail) =~= steps_of(right));
    let whole = joined(base, tail);
    if base.last() == SLASH {
        lemma_pieces_of_both(base, tail, SLASH);
        assert(left.last() =~= Seq::<u8>::empty());
        assert(left.last() + right[0] =~= right[0]);
        assert(pieces(whole, SLASH) =~= left.drop_last() + right);
        lemma_steps_of_both(left.drop_last(), right);
        lemma_steps_of_both(left.drop_last(), seq![left.last()]);
        lemma_step_of_one(left.last());
        assert(left.drop_last() + seq![left.last()] =~= left);
        assert(steps_of(left.drop_last()) =~= steps_of(left));
        lemma_pieces_nonempty(base.drop_last(), SLASH);
        assert(left.len() >= 2);
        assert(pieces(whole, SLASH)[0] == left[0]);
    } else {
        lemma_separated(base, tail, SLASH);
        lemma_steps_of_both(left, right);
        assert(pieces(whole, SLASH)[0] == left[0]);
    }
    assert(whole[0] == base[0]);
    assert(steps(whole) =~= steps(base) + steps(tail));
}

proof fn lemma_trimmed_leads_on(path: Seq<u8>)
    ensures
        steps(trimmed(path)) == steps(path),
    decreases path.len(),
{
    let n = path.len() as int;
    if n > 1 && (path[n - 1] == SLASH || (path[n - 1] == DOT && path[n - 2] == SLASH)) {
        let front = path.take(n - 1);
        lemma_trimmed_leads_on(front);
        assert(front =~= path.drop_last());
        let before = pieces(front, SLASH);
        let all = pieces(path, SLASH);
        lemma_pieces_nonempty(front, SLASH);
        assert(front[0] == path[0]);
        if path[n - 1] == SLASH {
            assert(all == before.push(Seq::empty()));
            lemma_steps_of_both(before, seq![Seq::<u8>::empty()]);
            lemma_step_of_one(Seq::empty());
            assert(before + seq![Seq::<u8>::empty()] =~= all);
            assert(steps_of(all) =~= steps_of(before));
            assert(all[0] == before[0]);
        } else {
            let top = front.drop_last();
            lemma_pieces_nonempty(top, SLASH);
            assert(front.last() == SLASH);
            let upper = pieces(top, SLASH);
            assert(before == upper.push(Seq::empty()));
            let last = Seq::<u8>::empty().push(DOT);
            assert(last =~= dot());
            assert(before.drop_last() =~= upper);
            assert(all =~= upper.push(dot()));
            lemma_steps_of_both(upper, seq![Seq::<u8>::empty()]);
            lemma_steps_of_both(upper, seq![dot()]);
            lemma_step_of_one(Seq::empty());
            lemma_step_of_one(dot());
            assert(upper + seq![Seq::<u8>::empty()] =~= before);
            assert(upper + seq![dot()] =~= all);
            assert(steps_of(all) =~= steps_of(before));
            assert(all[0] == upper[0] && before[0] == upper[0]);
        }
    }
}

/// A path that has a name leads where its parent leads, and then to that name.
pub proof fn law_parent_and_name_make_the_path(path: Seq<u8>)
    requires
        name_of(path) is Some,
    ensures
        parent_of(path) is Some,
        steps(path) == steps(parent_of(path)->0).push(Step::Normal(name_of(path)->0)),
{
    lemma_named_has_parent(path);
    let body = trimmed(path);
    lemma_trimmed_leads_on(path);
    let at = last_start(body);
    lemma_last_start(body);
    let front = body.take(at);
    let name = body.skip(at);
    lemma_trimmed_leads_on(front);
    assert(body =~= front + name);
    lemma_no_slash(body);
    lemma_one_piece(name, SLASH);
    lemma_pieces_of_both(front, name, SLASH);
    lemma_pieces_nonempty(front, SLASH);
    let left = pieces(front, SLASH);
    assert(left.last() =~= Seq::<u8>::empty()) by {
        if front.len() > 0 {
            assert(front.last() == SLASH);
        }
    }
    assert(left.last() + name =~= name);
    assert(pieces(name, SLASH).skip(1) =~= Seq::<Seq<u8>>::empty());
    assert(pieces(body, SLASH) =~= left.drop_last() + seq![name]);
    lemma_steps_of_both(left.drop_last(), seq![name]);
    lemma_steps_of_both(left.drop_last(), seq![left.last()]);
    lemma_step_of_one(name);
    lemma_step_of_one(left.last());
    assert(left.drop_last() + seq![left.last()] =~= left);
    assert(steps_of(left.drop_last()) =~= steps_of(left));
    if front.len() > 0 {
        assert(body[0] == front[0]);
        lemma_pieces_nonempty(front.drop_last(), SLASH);
        assert(left.len() >= 2);
        assert(pieces(body, SLASH)[0] == left[0]);
        assert(first_step(body) =~= first_step(front));
    } else {
        assert(pieces(body, SLASH)[0] == name);
        assert(name[0] != SLASH) by {
            assert(name.contains(name[0]));
        }
        assert(first_step(body) =~= Seq::<Step>::empty());
        assert(left[0] == left.last());
        assert(Seq::<u8>::empty() != dot()) by {
            assert(dot().len() == 1);
        }
        assert(first_step(front) =~= Seq::<Step>::empty());
    }
    assert(steps(body) =~= steps(front).push(Step::Normal(name)));
}

proof fn lemma_no_slash(body: Seq<u8>)
    ensures
        0 <= last_start(body) <= body.len(),
        !body.skip(last_start(body)).contains(SLASH),
        last_start(body) > 0 ==> body[last_start(body) - 1] == SLASH,
    decreases body.len(),
{
    if body.len() == 0 || body.last() == SLASH {
        assert(body.skip(body.len() as int) =~= Seq::<u8>::empty());
    } else {
        let front = body.drop_last();
        lemma_no_slash(front);
        let at = last_start(front);
        assert(body.skip(at) =~= front.skip(at).push(body.last()));
        if body.skip(at).contains(SLASH) {
            let k = choose|k: int| 0 <= k < body.skip(at).len() && body.skip(at)[k] == SLASH;
            assert(k < front.skip(at).len());
            assert(front.skip(at)[k] == SLASH);
        }
    }
}

// ---------------------------------------------------------------------------
// Figures
// ---------------------------------------------------------------------------

/// A number in decimal reads back as the number.
pub proof fn law_decimal_reads_back(n: nat)
    ensures
        digits_value(decimal(n), 10) == Some(n as int),
        decimal(n).len() > 1 ==> decimal(n)[0] != '0',
    decreases n,
{
    if n >= 10 {
        law_decimal_reads_back(n / 10);
        let front = decimal(n / 10);
        let all = decimal(n);
        assert(all.drop_last() =~= front);
        assert(all[0] == front[0]);
        if front.len() == 1 {
            assert(n / 10 >= 1);
            assert(n / 10 < 10) by {
                if n / 10 >= 10 {
                    lemma_long(n / 10);
                }
            }
        }
    }
}

proof fn lemma_figures(n: nat)
    ensures
        decimal(n).len() > 0,
        forall|k: int| 0 <= k < decimal(n).len() ==> '0' <= #[trigger] decimal(n)[k] <= '9',
    decreases n,
{
    if n >= 10 {
        lemma_figures(n / 10);
    }
}

proof fn lemma_numbers_of_both(a: Seq<Seq<char>>, b: Seq<Seq<char>>)
    ensures
        numbers(a + b) == numbers(a) + numbers(b),
    decreases b.len(),
{
    if b.len() == 0 {
        assert(a + b =~= a);
        assert(numbers(a) + numbers(b) =~= numbers(a));
    } else {
        lemma_numbers_of_both(a, b.drop_last());
        assert((a + b).drop_last() =~= a + b.drop_last());
        assert((a + b).last() == b.last());
        assert(numbers(a + b) =~= numbers(a) + numbers(b));
    }
}

proof fn lemma_number_of_one(n: nat)
    requires
        n <= u32::MAX,
    ensures
        !decimal(n).contains('.'),
        numbers(seq![decimal(n)]) == seq![n as int],
{
    let text = decimal(n);
    law_decimal_reads_back(n);
    lemma_figures(n);
    assert(unsigned_digits(text) == text) by {
        assert(text[0] != '+');
    }
    if text.contains('.') {
        let k = choose|k: int| 0 <= k < text.len() && text[k] == '.';
        assert('0' <= text[k] <= '9');
    }
    reveal_with_fuel(numbers, 2);
    assert(seq![text].drop_last() =~= Seq::<Seq<char>>::empty());
    assert(seq![text].last() == text);
    assert(numbers(seq![text]) =~= seq![n as int]);
}

/// A version of Git is recent enough exactly from 2.42 on, whatever follows the
/// first two of its figures.
pub proof fn law_git_is_recent_from_its_figures(major: nat, minor: nat, more: Seq<char>)
    requires
        major <= u32::MAX,
        minor <= u32::MAX,
        more.len() > 0 ==> more[0] == '.',
    ensures
        recent(decimal(major).push('.') + decimal(minor) + more) == (major > 2 || (major == 2
            && minor >= 42)),
{
    let a = decimal(major);
    let b = decimal(minor);
    let version = a.push('.') + b + more;
    lemma_number_of_one(major);
    lemma_number_of_one(minor);
    lemma_one_piece(a, '.');
    lemma_one_piece(b, '.');
    let two = seq![a] + seq![b];
    lemma_numbers_of_both(seq![a], seq![b]);
    if more.len() == 0 {
        assert(version =~= a.push('.') + b);
        lemma_separated(a, b, '.');
        assert(pieces(version, '.') =~= two);
    } else {
        let rest = more.skip(1);
        assert(version =~= a.push('.') + (b.push('.') + rest));
        lemma_separated(a, b.push('.') + rest, '.');
        lemma_separated(b, rest, '.');
        assert(pieces(version, '.') =~= two + pieces(rest, '.'));
        lemma_numbers_of_both(two, pieces(rest, '.'));
    }
    assert(numbers(pieces(version, '.'))[0] == major);
    assert(numbers(pieces(version, '.'))[1] == minor);
}

proof fn lemma_long(n: nat)
    requires
        n >= 10,
    ensures
        decimal(n).len() >= 2,
{
    lemma_some(n / 10);
}

proof fn lemma_some(n: nat)
    ensures
        decimal(n).len() >= 1,
    decreases n,
{
    if n >= 10 {
        lemma_some(n / 10);
    }
}

/// The digits of base64 are the usual ones, in the usual order.
#[verifier::rlimit(40)]
pub proof fn law_base64_digits_are_the_usual_ones(v: int)
    requires
        0 <= v < 64,
    ensures
        base64_digit(v) == "ABCDEFGHIJKLMNOPQRSTUVWXYZabcdefghijklmnopqrstuvwxyz0123456789+/"@[v],
{
    reveal_strlit("ABCDEFGHIJKLMNOPQRSTUVWXYZabcdefghijklmnopqrstuvwxyz0123456789+/");
    let table = "ABCDEFGHIJKLMNOPQRSTUVWXYZabcdefghijklmnopqrstuvwxyz0123456789+/"@;
    assert(base64_digit(0) == table[0]);
    assert(base64_digit(1) == table[1]);
    assert(base64_digit(2) == table[2]);
    assert(base64_digit(3) == table[3]);
    assert(base64_digit(4) == table[4]);
    assert(base64_digit(5) == table[5]);
    assert(base64_digit(6) == table[6]);
    assert(base64_digit(7) == table[7]);
    assert(base64_digit(8) == table[8]);
    assert(base64_digit(9) == table[9]);
    assert(base64_digit(10) == table[10]);
    assert(base64_digit(11) == table[11]);
    assert(base64_digit(12) == table[12]);
    assert(base64_digit(13) == table[13]);
    assert(base64_digit(14) == table[14]);
    assert(base64_digit(15) == table[15]);
    assert(base64_digit(16) == table[16]);
    assert(base64_digit(17) == table[17]);
    assert(base64_digit(18) == table[18]);
    assert(base64_digit(19) == table[19]);
    assert(base64_digit(20) == table[20]);
    assert(base64_digit(21) == table[21]);
    assert(base64_digit(22) == table[22]);
    assert(base64_digit(23) == table[23]);
    assert(base64_digit(24) == table[24]);
    assert(base64_digit(25) == table[25]);
    assert(base64_digit(26) == table[26]);
    assert(base64_digit(27) == table[27]);
    assert(base64_digit(28) == table[28]);
    assert(base64_digit(29) == table[29]);
    assert(base64_digit(30) == table[30]);
    assert(base64_digit(31) == table[31]);
    assert(base64_digit(32) == table[32]);
    assert(base64_digit(33) == table[33]);
    assert(base64_digit(34) == table[34]);
    assert(base64_digit(35) == table[35]);
    assert(base64_digit(36) == table[36]);
    assert(base64_digit(37) == table[37]);
    assert(base64_digit(38) == table[38]);
    assert(base64_digit(39) == table[39]);
    assert(base64_digit(40) == table[40]);
    assert(base64_digit(41) == table[41]);
    assert(base64_digit(42) == table[42]);
    assert(base64_digit(43) == table[43]);
    assert(base64_digit(44) == table[44]);
    assert(base64_digit(45) == table[45]);
    assert(base64_digit(46) == table[46]);
    assert(base64_digit(47) == table[47]);
    assert(base64_digit(48) == table[48]);
    assert(base64_digit(49) == table[49]);
    assert(base64_digit(50) == table[50]);
    assert(base64_digit(51) == table[51]);
    assert(base64_digit(52) == table[52]);
    assert(base64_digit(53) == table[53]);
    assert(base64_digit(54) == table[54]);
    assert(base64_digit(55) == table[55]);
    assert(base64_digit(56) == table[56]);
    assert(base64_digit(57) == table[57]);
    assert(base64_digit(58) == table[58]);
    assert(base64_digit(59) == table[59]);
    assert(base64_digit(60) == table[60]);
    assert(base64_digit(61) == table[61]);
    assert(base64_digit(62) == table[62]);
    assert(base64_digit(63) == table[63]);
}

/// Three bytes in base64 are the four digits of the number that they make, the
/// highest first.
pub proof fn law_base64_digits_make_the_bytes(a: u8, b: u8, c: u8)
    ensures
        exists|w: int, x: int, y: int, z: int|
            {
                &&& 0 <= w < 64 && 0 <= x < 64 && 0 <= y < 64 && 0 <= z < 64
                &&& base64_group(seq![a, b, c]) == seq![
                    #[trigger] base64_digit(w),
                    #[trigger] base64_digit(x),
                    #[trigger] base64_digit(y),
                    #[trigger] base64_digit(z),
                ]
                &&& ((w * 64 + x) * 64 + y) * 64 + z == (a as int * 256 + b as int) * 256
                    + c as int
            },
{
    let (p, q, r) = (a as int, b as int, c as int);
    let w = p / 4;
    let x = (p % 4) * 16 + q / 16;
    let y = (q % 16) * 4 + r / 64;
    let z = r % 64;
    let group = seq![a, b, c];
    assert(base64_group(group) =~= seq![
        base64_digit(w),
        base64_digit(x),
        base64_digit(y),
        base64_digit(z),
    ]);
}

// ---------------------------------------------------------------------------
// The lines of an index
// ---------------------------------------------------------------------------

proof fn lemma_position(s: Seq<u8>, x: u8, k: int, at: int)
    requires
        0 <= k <= at < s.len(),
        s[at] == x,
        forall|n: int| k <= n < at ==> #[trigger] s[n] != x,
    ensures
        position_from(s, x, k) == at,
    decreases at - k,
{
    if k < at {
        lemma_position(s, x, k + 1, at);
    }
}

/// An entry of an index is read as it is printed: its mode in octal, its
/// object, its stage, and after a tabulator its path, byte for byte.
pub proof fn law_index_line_is_read_as_printed(
    mode: Seq<char>,
    oid: Seq<char>,
    stage: Seq<char>,
    path: Seq<u8>,
)
    requires
        !mode.contains(' '),
        !oid.contains(' '),
        !stage.contains(' '),
        !utf8(mode + " "@ + oid + " "@ + stage).contains(9u8),
        unsigned_value(mode, 8, u32::MAX as int) is Some,
        unsigned_value(stage, 10, u8::MAX as int) is Some,
    ensures
        entry_in(utf8(mode + " "@ + oid + " "@ + stage) + seq![9u8] + path) == Ok::<
            EntryView,
            GitFailureView,
        >(
            EntryView {
                mode: unsigned_value(mode, 8, u32::MAX as int)->0,
                oid,
                stage: unsigned_value(stage, 10, u8::MAX as int)->0,
                path,
            },
        ),
{
    reveal_strlit(" ");
    let header = mode + " "@ + oid + " "@ + stage;
    let bytes = utf8(header);
    let record = bytes + seq![9u8] + path;
    let at = bytes.len() as int;
    assert forall|n: int| 0 <= n < at implies #[trigger] record[n] != 9u8 by {
        assert(record[n] == bytes[n]);
        assert(bytes.contains(bytes[n]));
    }
    assert(record[at] == 9u8);
    lemma_position(record, 9, 0, at);
    assert(record.take(at) =~= bytes);
    assert(record.skip(at + 1) =~= path);
    encode_utf8_valid_utf8(header);
    encode_utf8_decode_utf8(header);
    let front = mode.push(' ') + oid;
    assert(header =~= front.push(' ') + stage);
    lemma_separated(front, stage, ' ');
    lemma_separated(mode, oid, ' ');
    lemma_one_piece(mode, ' ');
    lemma_one_piece(oid, ' ');
    lemma_one_piece(stage, ' ');
    assert(pieces(header, ' ') =~= seq![mode, oid, stage]);
}

// ---------------------------------------------------------------------------
// Order
// ---------------------------------------------------------------------------

/// Of two names the one with the lower byte at their first difference comes
/// first, whatever follows.
pub proof fn law_first_difference_decides(
    common: Seq<u8>,
    x: u8,
    y: u8,
    a: Seq<u8>,
    b: Seq<u8>,
)
    requires
        x < y,
    ensures
        bytes_leq(common.push(x) + a, common.push(y) + b),
        !bytes_leq(common.push(y) + b, common.push(x) + a),
    decreases common.len(),
{
    let p = common.push(x) + a;
    let q = common.push(y) + b;
    if common.len() > 0 {
        law_first_difference_decides(common.skip(1), x, y, a, b);
        assert(p.skip(1) =~= common.skip(1).push(x) + a);
        assert(q.skip(1) =~= common.skip(1).push(y) + b);
        assert(p[0] == common[0] && q[0] == common[0]);
    } else {
        assert(p[0] == x && q[0] == y);
    }
}

/// A name comes before every longer one that begins with it.
pub proof fn law_shorter_name_comes_first(name: Seq<u8>, more: Seq<u8>)
    requires
        more.len() > 0,
    ensures
        bytes_leq(name, name + more),
        !bytes_leq(name + more, name),
    decreases name.len(),
{
    if name.len() > 0 {
        law_shorter_name_comes_first(name.skip(1), more);
        assert((name + more).skip(1) =~= name.skip(1) + more);
        assert((name + more)[0] == name[0]);
    }
}

// ---------------------------------------------------------------------------
// Lines
// ---------------------------------------------------------------------------

/// What a failure prints begins with its message, and holds a line for each
/// other thing that there is to say, and none besides.
pub proof fn law_failure_prints_all_it_knows(e: ErrorView)
    ensures
        e.lines()[0] == "ramiz: "@ + e.message,
        e.cleanup matches Some(text) ==> e.lines()[1] == "cleanup: "@ + text,
        e.update matches Some(failure) ==> {
            &&& failure.rollback matches Some(text) ==> e.lines().contains("rollback: "@ + text)
            &&& failure.cleanup matches Some(text) ==> e.lines().last() == "cleanup: "@ + text
        },
        e.lines().len() == 1 + (if e.cleanup is Some {
            1int
        } else {
            0
        }) + (match e.update {
            Some(failure) => (if failure.rollback is Some {
                1int
            } else {
                0
            }) + (if failure.cleanup is Some {
                1int
            } else {
                0
            }),
            None => 0,
        }),
{
    if let Some(failure) = e.update {
        if let Some(text) = failure.rollback {
            let k = if e.cleanup is Some {
                2int
            } else {
                1
            };
            assert(e.lines()[k] == "rollback: "@ + text);
        }
    }
}

/// A worktree is told of by where it is, what it is at, how it was filled and
/// by how many files each way.
pub proof fn law_created_line_tells_the_result(a: AddedView)
    ensures
        a.line() == "created "@ + a.path.display + " at "@ + (if a.head is Some {
            a.head->Some_0
        } else {
            "unborn"@
        }) + " via "@ + a.backend + " ("@ + decimal(a.cow_files as nat) + " CoW, "@ + decimal(
            a.git_files as nat,
        ) + " Git-materialized files)"@,
{
}

/// An update prints its message, and then each command that was run or is to be
/// run, in order.
pub proof fn law_update_prints_each_command(r: ResultView)
    ensures
        update_text(r).len() == 1 + r.commands.len(),
        update_text(r)[0] == r.message,
        forall|k: int|
            0 <= k < r.commands.len() ==> begins(
                #[trigger] update_text(r)[k + 1],
                "run: "@ + r.commands[k].program + " "@,
            ),
{
    assert forall|k: int| 0 <= k < r.commands.len() implies begins(
        #[trigger] update_text(r)[k + 1],
        "run: "@ + r.commands[k].program + " "@,
    ) by {
        let front = "run: "@ + r.commands[k].program + " "@;
        let line = update_text(r)[k + 1];
        assert(line == front + joined_text(r.commands[k].args, " "@));
        assert(line.take(front.len() as int) =~= front);
    }
}

} // verus!
