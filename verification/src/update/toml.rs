//! The install list that Cargo keeps in `.crates.toml`.
//!
//! Its table `v1` maps each installed package to the executables it brought.
//! What other tables hold says nothing about installed packages.
use crate::outside::scalar;
use crate::text::{chars_of, same, text_range, text_views};
use vstd::prelude::*;

verus! {

// ---------------------------------------------------------------------------
// Tokens
// ---------------------------------------------------------------------------

/// A token of the list.
pub enum Token {
    /// A quoted string.
    Text(String),
    /// Any other character that is not blank. The end of a line is one.
    Mark(char),
}

/// The model of a [`Token`].
pub enum TokenView {
    Text(Seq<char>),
    Mark(char),
}

impl View for Token {
    type V = TokenView;

    open spec fn view(&self) -> TokenView {
        match *self {
            Token::Text(text) => TokenView::Text(text@),
            Token::Mark(c) => TokenView::Mark(c),
        }
    }
}

/// The views of a list of tokens.
pub open spec fn token_views(v: Seq<Token>) -> Seq<TokenView> {
    v.map_values(|t: Token| t@)
}

/// White space within a line.
pub open spec fn blank(c: char) -> bool {
    c == ' ' || c == '\t' || c == '\r'
}

/// Where the line that holds position `k` ends.
pub open spec fn line_end(s: Seq<char>, k: int) -> int
    decreases s.len() - k,
{
    if k < 0 || k >= s.len() || s[k] == '\n' {
        k
    } else {
        line_end(s, k + 1)
    }
}

/// The value of a hexadecimal digit.
pub open spec fn digit_of(c: char) -> Option<int> {
    if '0' <= c <= '9' {
        Some(c as int - '0' as int)
    } else if 'a' <= c <= 'f' {
        Some(c as int - 'a' as int + 10)
    } else if 'A' <= c <= 'F' {
        Some(c as int - 'A' as int + 10)
    } else {
        None
    }
}

/// The largest code of a character.
pub const LAST_CODE: u32 = 0x10FFFF;

/// The number that the next `n` hexadecimal digits from `k` on write behind
/// `value`, where it is a code at most.
pub open spec fn code_from(s: Seq<char>, k: int, n: nat, value: int) -> Option<int>
    decreases n,
{
    if n == 0 {
        Some(value)
    } else if k < 0 || k >= s.len() {
        None
    } else {
        match digit_of(s[k]) {
            None => None,
            Some(digit) => if value * 16 + digit > LAST_CODE {
                None
            } else {
                code_from(s, k + 1, (n - 1) as nat, value * 16 + digit)
            },
        }
    }
}

/// The character with a code, where there is one.
pub open spec fn coded(code: Option<int>) -> Option<char> {
    match code {
        None => None,
        Some(code) => if 0xD800 <= code < 0xE000 {
            None
        } else {
            Some(code as char)
        },
    }
}

/// The character that the escape with its letter at `k` writes, and where it
/// ends.
pub open spec fn escape_at(s: Seq<char>, k: int) -> Option<(char, int)> {
    if k < 0 || k >= s.len() {
        None
    } else if s[k] == 'b' {
        Some((8u8 as char, k + 1))
    } else if s[k] == 't' {
        Some(('\t', k + 1))
    } else if s[k] == 'n' {
        Some(('\n', k + 1))
    } else if s[k] == 'f' {
        Some((12u8 as char, k + 1))
    } else if s[k] == 'r' {
        Some(('\r', k + 1))
    } else if s[k] == '"' || s[k] == '\\' {
        Some((s[k], k + 1))
    } else if s[k] == 'u' {
        match coded(code_from(s, k + 1, 4, 0)) {
            None => None,
            Some(c) => Some((c, k + 5)),
        }
    } else if s[k] == 'U' {
        match coded(code_from(s, k + 1, 8, 0)) {
            None => None,
            Some(c) => Some((c, k + 9)),
        }
    } else {
        None
    }
}

/// The rest of a string in double quotes from `k` on, behind `text`, and where
/// it ends.
pub open spec fn basic_from(s: Seq<char>, k: int, text: Seq<char>) -> Option<(Seq<char>, int)>
    decreases s.len() - k,
{
    if k < 0 || k >= s.len() || s[k] == '\n' {
        None
    } else if s[k] == '"' {
        Some((text, k + 1))
    } else if s[k] == '\\' {
        match escape_at(s, k + 1) {
            None => None,
            Some((c, end)) => if end <= k || end > s.len() {
                None
            } else {
                basic_from(s, end, text.push(c))
            },
        }
    } else {
        basic_from(s, k + 1, text.push(s[k]))
    }
}

/// Where the string in single quotes that is open at `k` closes.
pub open spec fn literal_end(s: Seq<char>, k: int) -> Option<int>
    decreases s.len() - k,
{
    if k < 0 || k >= s.len() || s[k] == '\n' {
        None
    } else if s[k] == '\'' {
        Some(k)
    } else {
        literal_end(s, k + 1)
    }
}

/// The tokens of a text from `k` on, behind `tokens`; none where a string does
/// not end on its line.
pub open spec fn tokens_from(s: Seq<char>, k: int, tokens: Seq<TokenView>) -> Option<Seq<TokenView>>
    decreases s.len() - k,
{
    if k < 0 || k >= s.len() {
        Some(tokens)
    } else if blank(s[k]) {
        tokens_from(s, k + 1, tokens)
    } else if s[k] == '#' {
        let end = line_end(s, k + 1);
        if end <= k || end > s.len() {
            None
        } else {
            tokens_from(s, end, tokens)
        }
    } else if s[k] == '"' {
        match basic_from(s, k + 1, Seq::empty()) {
            None => None,
            Some((text, end)) => if end <= k || end > s.len() {
                None
            } else {
                tokens_from(s, end, tokens.push(TokenView::Text(text)))
            },
        }
    } else if s[k] == '\'' {
        match literal_end(s, k + 1) {
            None => None,
            Some(end) => if end <= k || end >= s.len() {
                None
            } else {
                tokens_from(s, end + 1, tokens.push(TokenView::Text(s.subrange(k + 1, end))))
            },
        }
    } else {
        tokens_from(s, k + 1, tokens.push(TokenView::Mark(s[k])))
    }
}

fn hex_value(c: char) -> (r: Option<u32>)
    ensures
        match r {
            Some(value) => digit_of(c) == Some(value as int) && value < 16,
            None => digit_of(c) is None,
        },
{
    if '0' <= c && c <= '9' {
        Some(c as u32 - '0' as u32)
    } else if 'a' <= c && c <= 'f' {
        Some(c as u32 - 'a' as u32 + 10)
    } else if 'A' <= c && c <= 'F' {
        Some(c as u32 - 'A' as u32 + 10)
    } else {
        None
    }
}

/// The character with the code that `n` digits from `start` on write.
fn read_code(chars: &Vec<char>, start: usize, n: usize) -> (r: Option<char>)
    requires
        start <= chars@.len(),
    ensures
        r == coded(code_from(chars@, start as int, n as nat, 0)),
        r is Some ==> start + n <= chars@.len(),
{
    let mut value: u32 = 0;
    let mut k: usize = start;
    while k - start < n
        invariant
            start <= k <= chars@.len(),
            k - start <= n,
            value <= LAST_CODE,
            code_from(chars@, start as int, n as nat, 0) == code_from(
                chars@,
                k as int,
                (n - (k - start)) as nat,
                value as int,
            ),
        decreases n - (k - start),
    {
        if k >= chars.len() {
            return None;
        }
        let digit = match hex_value(chars[k]) {
            Some(digit) => digit,
            None => return None,
        };
        if value * 16 + digit > LAST_CODE {
            return None;
        }
        value = value * 16 + digit;
        k = k + 1;
    }
    scalar(value)
}

/// The character that the escape with its letter at `k` writes, and where it
/// ends.
fn read_escape(chars: &Vec<char>, k: usize) -> (r: Option<(char, usize)>)
    requires
        k <= chars@.len(),
    ensures
        match r {
            Some((c, end)) => escape_at(chars@, k as int) == Some((c, end as int)) && k < end
                <= chars@.len(),
            None => escape_at(chars@, k as int) is None,
        },
{
    if k >= chars.len() {
        return None;
    }
    let letter = chars[k];
    if letter == 'b' {
        Some((8u8 as char, k + 1))
    } else if letter == 't' {
        Some(('\t', k + 1))
    } else if letter == 'n' {
        Some(('\n', k + 1))
    } else if letter == 'f' {
        Some((12u8 as char, k + 1))
    } else if letter == 'r' {
        Some(('\r', k + 1))
    } else if letter == '"' || letter == '\\' {
        Some((letter, k + 1))
    } else if letter == 'u' {
        match read_code(chars, k + 1, 4) {
            Some(c) => Some((c, k + 5)),
            None => None,
        }
    } else if letter == 'U' {
        match read_code(chars, k + 1, 8) {
            Some(c) => Some((c, k + 9)),
            None => None,
        }
    } else {
        None
    }
}

/// The string in double quotes that is open at `start`, and where it ends.
fn read_basic(chars: &Vec<char>, start: usize) -> (r: Option<(String, usize)>)
    requires
        start <= chars@.len(),
    ensures
        match r {
            Some((text, end)) => basic_from(chars@, start as int, Seq::empty()) == Some(
                (text@, end as int),
            ) && start < end <= chars@.len(),
            None => basic_from(chars@, start as int, Seq::empty()) is None,
        },
{
    let mut text = String::new();
    let mut k: usize = start;
    assert(text@ =~= Seq::empty());
    while k < chars.len() && chars[k] != '\n' && chars[k] != '"'
        invariant
            start <= k <= chars@.len(),
            basic_from(chars@, start as int, Seq::empty()) == basic_from(chars@, k as int, text@),
        decreases chars@.len() - k,
    {
        if chars[k] == '\\' {
            match read_escape(chars, k + 1) {
                None => return None,
                Some((c, end)) => {
                    text.push(c);
                    k = end;
                },
            }
        } else {
            text.push(chars[k]);
            k = k + 1;
        }
    }
    if k < chars.len() && chars[k] == '"' {
        Some((text, k + 1))
    } else {
        None
    }
}

/// The string in single quotes that is open at `start`, and where it closes.
fn read_literal(chars: &Vec<char>, start: usize) -> (r: Option<(String, usize)>)
    requires
        start <= chars@.len(),
    ensures
        match r {
            Some((text, end)) => literal_end(chars@, start as int) == Some(end as int) && start
                <= end < chars@.len() && text@ == chars@.subrange(start as int, end as int),
            None => literal_end(chars@, start as int) is None,
        },
{
    let mut k: usize = start;
    while k < chars.len() && chars[k] != '\n' && chars[k] != '\''
        invariant
            start <= k <= chars@.len(),
            literal_end(chars@, start as int) == literal_end(chars@, k as int),
        decreases chars@.len() - k,
    {
        k = k + 1;
    }
    if k < chars.len() && chars[k] == '\'' {
        Some((text_range(chars.as_slice(), start, k), k))
    } else {
        None
    }
}

/// Where the line that holds position `start` ends.
fn skip_line(chars: &Vec<char>, start: usize) -> (r: usize)
    requires
        start <= chars@.len(),
    ensures
        r == line_end(chars@, start as int),
        start <= r <= chars@.len(),
{
    let mut k: usize = start;
    while k < chars.len() && chars[k] != '\n'
        invariant
            start <= k <= chars@.len(),
            line_end(chars@, start as int) == line_end(chars@, k as int),
        decreases chars@.len() - k,
    {
        k = k + 1;
    }
    k
}

fn mark(c: char) -> (r: Token)
    ensures
        r@ == TokenView::Mark(c),
{
    Token::Mark(c)
}

fn push_token(tokens: &mut Vec<Token>, token: Token)
    ensures
        token_views(final(tokens)@) == token_views(old(tokens)@).push(token@),
{
    let ghost before = tokens@;
    tokens.push(token);
    assert(token_views(tokens@) =~= token_views(before).push(token@));
}

/// The tokens of `chars`.
fn read_tokens(chars: &Vec<char>) -> (r: Option<Vec<Token>>)
    ensures
        match r {
            Some(tokens) => tokens_from(chars@, 0, Seq::empty()) == Some(token_views(tokens@)),
            None => tokens_from(chars@, 0, Seq::empty()) is None,
        },
{
    let mut tokens: Vec<Token> = Vec::new();
    let mut k: usize = 0;
    assert(token_views(tokens@) =~= Seq::empty());
    while k < chars.len()
        invariant
            k <= chars@.len(),
            tokens_from(chars@, 0, Seq::empty()) == tokens_from(
                chars@,
                k as int,
                token_views(tokens@),
            ),
        decreases chars@.len() - k,
    {
        let c = chars[k];
        if c == ' ' || c == '\t' || c == '\r' {
            k = k + 1;
        } else if c == '#' {
            k = skip_line(chars, k + 1);
        } else if c == '"' {
            match read_basic(chars, k + 1) {
                None => return None,
                Some((text, end)) => {
                    push_token(&mut tokens, Token::Text(text));
                    k = end;
                },
            }
        } else if c == '\'' {
            match read_literal(chars, k + 1) {
                None => return None,
                Some((text, end)) => {
                    push_token(&mut tokens, Token::Text(text));
                    k = end + 1;
                },
            }
        } else {
            push_token(&mut tokens, mark(c));
            k = k + 1;
        }
    }
    Some(tokens)
}

// ---------------------------------------------------------------------------
// Statements
// ---------------------------------------------------------------------------

/// The end of the statement from `k` on, inside `depth` brackets: where the
/// line ends outside all of them.
pub open spec fn statement_end(tokens: Seq<TokenView>, k: int, depth: nat) -> int
    decreases tokens.len() - k,
{
    if k < 0 || k >= tokens.len() {
        k
    } else {
        match tokens[k] {
            TokenView::Text(_) => statement_end(tokens, k + 1, depth),
            TokenView::Mark(c) => if c == '\n' && depth == 0 {
                k
            } else if c == '[' || c == '{' {
                statement_end(tokens, k + 1, depth + 1)
            } else if (c == ']' || c == '}') && depth > 0 {
                statement_end(tokens, k + 1, (depth - 1) as nat)
            } else {
                statement_end(tokens, k + 1, depth)
            },
        }
    }
}

/// The tokens from `k` to `end` open the table `v1`.
pub open spec fn opens_v1(tokens: Seq<TokenView>, k: int, end: int) -> bool {
    ||| end - k == 4 && tokens[k + 1] == TokenView::Mark('v') && tokens[k + 2] == TokenView::Mark(
        '1',
    ) && tokens[k + 3] == TokenView::Mark(']')
    ||| end - k == 3 && tokens[k + 1] == TokenView::Text("v1"@) && tokens[k + 2]
        == TokenView::Mark(']')
}

/// The strings of a list from token `k` on, behind `items`, and where it ends;
/// `fresh` says whether a string may come next.
pub open spec fn list_from(
    tokens: Seq<TokenView>,
    k: int,
    items: Seq<Seq<char>>,
    fresh: bool,
) -> Option<(Seq<Seq<char>>, int)>
    decreases tokens.len() - k,
{
    if k < 0 || k >= tokens.len() {
        None
    } else {
        match tokens[k] {
            TokenView::Text(item) => if fresh {
                list_from(tokens, k + 1, items.push(item), false)
            } else {
                None
            },
            TokenView::Mark(c) => if c == '\n' {
                list_from(tokens, k + 1, items, fresh)
            } else if c == ']' {
                Some((items, k + 1))
            } else if c == ',' && !fresh {
                list_from(tokens, k + 1, items, true)
            } else {
                None
            },
        }
    }
}

/// A line ends at `k`.
pub open spec fn line_over(tokens: Seq<TokenView>, k: int) -> bool {
    k >= tokens.len() || tokens[k] == TokenView::Mark('\n')
}

/// The entries of the table `v1` from token `k` on, behind `entries`; `ours`
/// says whether that table is open.
pub open spec fn entries_from(
    tokens: Seq<TokenView>,
    k: int,
    ours: bool,
    entries: Seq<(Seq<char>, Seq<Seq<char>>)>,
) -> Option<Seq<(Seq<char>, Seq<Seq<char>>)>>
    decreases tokens.len() - k,
{
    if k < 0 || k >= tokens.len() {
        Some(entries)
    } else {
        let end = statement_end(tokens, k, 0);
        match tokens[k] {
            TokenView::Text(key) => if ours {
                if k + 3 > tokens.len() || tokens[k + 1] != TokenView::Mark('=') || tokens[k + 2]
                    != TokenView::Mark('[') {
                    None
                } else {
                    match list_from(tokens, k + 3, Seq::empty(), true) {
                        None => None,
                        Some((bins, end)) => if end <= k || end > tokens.len() || !line_over(
                            tokens,
                            end,
                        ) {
                            None
                        } else {
                            entries_from(tokens, end, ours, entries.push((key, bins)))
                        },
                    }
                }
            } else if end <= k || end > tokens.len() {
                None
            } else {
                entries_from(tokens, end, ours, entries)
            },
            TokenView::Mark(c) => if c == '\n' {
                entries_from(tokens, k + 1, ours, entries)
            } else if end <= k || end > tokens.len() {
                None
            } else if c == '[' {
                entries_from(tokens, end, opens_v1(tokens, k, end), entries)
            } else {
                entries_from(tokens, end, ours, entries)
            },
        }
    }
}

/// The packages that a list records, each with its executables; none where the
/// list is malformed.
pub open spec fn install_list(s: Seq<char>) -> Option<Seq<(Seq<char>, Seq<Seq<char>>)>> {
    match tokens_from(s, 0, Seq::empty()) {
        None => None,
        Some(tokens) => entries_from(tokens, 0, false, Seq::empty()),
    }
}

/// The view of a list of entries.
pub open spec fn entry_views(v: Seq<(String, Vec<String>)>) -> Seq<(Seq<char>, Seq<Seq<char>>)> {
    v.map_values(|e: (String, Vec<String>)| (e.0@, text_views(e.1@)))
}

/// `token` is the mark `c`.
fn is_mark(token: &Token, c: char) -> (r: bool)
    ensures
        r == (token@ == TokenView::Mark(c)),
{
    match token {
        Token::Mark(d) => *d == c,
        Token::Text(_) => false,
    }
}

/// `token` is the string `text`.
fn is_text(token: &Token, text: &str) -> (r: bool)
    ensures
        r == (token@ == TokenView::Text(text@)),
{
    match token {
        Token::Mark(_) => false,
        Token::Text(own) => same(own.as_str(), text),
    }
}

/// The end of the statement from `start` on.
fn skip_statement(tokens: &Vec<Token>, start: usize) -> (r: usize)
    requires
        start <= tokens@.len(),
    ensures
        r == statement_end(token_views(tokens@), start as int, 0),
        start <= r <= tokens@.len(),
        start < tokens@.len() && token_views(tokens@)[start as int] != TokenView::Mark('\n')
            ==> start < r,
{
    let ghost all = token_views(tokens@);
    let mut k: usize = start;
    let mut depth: usize = 0;
    while k < tokens.len() && !(depth == 0 && is_mark(&tokens[k], '\n'))
        invariant
            start <= k <= tokens@.len(),
            depth <= k,
            all == token_views(tokens@),
            all.len() == tokens@.len(),
            statement_end(all, start as int, 0) == statement_end(all, k as int, depth as nat),
        decreases tokens@.len() - k,
    {
        assert(all[k as int] == tokens@[k as int]@);
        if let Token::Mark(c) = &tokens[k] {
            if *c == '[' || *c == '{' {
                depth = depth + 1;
            } else if (*c == ']' || *c == '}') && depth > 0 {
                depth = depth - 1;
            }
        }
        k = k + 1;
    }
    assert(k < tokens@.len() ==> all[k as int] == tokens@[k as int]@);
    k
}

/// The tokens from `k` to `end` open the table `v1`.
fn is_v1(tokens: &Vec<Token>, k: usize, end: usize) -> (r: bool)
    requires
        k <= end <= tokens@.len(),
    ensures
        r == opens_v1(token_views(tokens@), k as int, end as int),
{
    let ghost all = token_views(tokens@);
    if end - k == 4 {
        assert(all[k + 1] == tokens@[k + 1]@);
        assert(all[k + 2] == tokens@[k + 2]@);
        assert(all[k + 3] == tokens@[k + 3]@);
        is_mark(&tokens[k + 1], 'v') && is_mark(&tokens[k + 2], '1') && is_mark(
            &tokens[k + 3],
            ']',
        )
    } else if end - k == 3 {
        assert(all[k + 1] == tokens@[k + 1]@);
        assert(all[k + 2] == tokens@[k + 2]@);
        is_text(&tokens[k + 1], "v1") && is_mark(&tokens[k + 2], ']')
    } else {
        false
    }
}

/// The strings of a list from token `start` on, and where it ends.
fn read_list(tokens: &Vec<Token>, start: usize) -> (r: Option<(Vec<String>, usize)>)
    requires
        start <= tokens@.len(),
    ensures
        match r {
            Some((items, end)) => list_from(
                token_views(tokens@),
                start as int,
                Seq::empty(),
                true,
            ) == Some((text_views(items@), end as int)) && start < end <= tokens@.len(),
            None => list_from(token_views(tokens@), start as int, Seq::empty(), true) is None,
        },
{
    let ghost all = token_views(tokens@);
    let mut items: Vec<String> = Vec::new();
    let mut fresh = true;
    let mut k: usize = start;
    assert(text_views(items@) =~= Seq::empty());
    while k < tokens.len()
        invariant
            start <= k <= tokens@.len(),
            all == token_views(tokens@),
            all.len() == tokens@.len(),
            list_from(all, start as int, Seq::empty(), true) == list_from(
                all,
                k as int,
                text_views(items@),
                fresh,
            ),
        decreases tokens@.len() - k,
    {
        assert(all[k as int] == tokens@[k as int]@);
        match &tokens[k] {
            Token::Text(item) => {
                if !fresh {
                    return None;
                }
                let ghost before = text_views(items@);
                items.push(item.clone());
                assert(text_views(items@) =~= before.push(item@));
                fresh = false;
            },
            Token::Mark(c) => {
                if *c == ']' {
                    return Some((items, k + 1));
                }
                if *c == ',' && !fresh {
                    fresh = true;
                } else if *c != '\n' {
                    return None;
                }
            },
        }
        k = k + 1;
    }
    None
}

/// The entries of the table `v1`.
fn read_entries(tokens: &Vec<Token>) -> (r: Option<Vec<(String, Vec<String>)>>)
    ensures
        match r {
            Some(entries) => entries_from(token_views(tokens@), 0, false, Seq::empty()) == Some(
                entry_views(entries@),
            ),
            None => entries_from(token_views(tokens@), 0, false, Seq::empty()) is None,
        },
{
    let ghost all = token_views(tokens@);
    let mut entries: Vec<(String, Vec<String>)> = Vec::new();
    let mut ours = false;
    let mut k: usize = 0;
    assert(entry_views(entries@) =~= Seq::empty());
    while k < tokens.len()
        invariant
            k <= tokens@.len(),
            all == token_views(tokens@),
            all.len() == tokens@.len(),
            entries_from(all, 0, false, Seq::empty()) == entries_from(
                all,
                k as int,
                ours,
                entry_views(entries@),
            ),
        decreases tokens@.len() - k,
    {
        assert(all[k as int] == tokens@[k as int]@);
        let end = skip_statement(tokens, k);
        match &tokens[k] {
            Token::Text(key) => {
                if ours {
                    if tokens.len() - k < 3 {
                        return None;
                    }
                    assert(all[k + 1] == tokens@[k + 1]@);
                    assert(all[k + 2] == tokens@[k + 2]@);
                    if !is_mark(&tokens[k + 1], '=') || !is_mark(&tokens[k + 2], '[') {
                        return None;
                    }
                    match read_list(tokens, k + 3) {
                        None => return None,
                        Some((bins, end)) => {
                            assert(end < tokens@.len() ==> all[end as int] == tokens@[end as int]@);
                            if end < tokens.len() && !is_mark(&tokens[end], '\n') {
                                return None;
                            }
                            let ghost before = entry_views(entries@);
                            let ghost shown = (key@, text_views(bins@));
                            entries.push((key.clone(), bins));
                            assert(entry_views(entries@) =~= before.push(shown));
                            k = end;
                        },
                    }
                } else {
                    k = end;
                }
            },
            Token::Mark(c) => {
                if *c == '\n' {
                    k = k + 1;
                } else {
                    if *c == '[' {
                        ours = is_v1(tokens, k, end);
                    }
                    k = end;
                }
            },
        }
    }
    Some(entries)
}

/// The packages that `text` records, each with its executables.
pub fn parse_install_list(text: &str) -> (r: Option<Vec<(String, Vec<String>)>>)
    ensures
        match r {
            Some(entries) => install_list(text@) == Some(entry_views(entries@)),
            None => install_list(text@) is None,
        },
{
    match read_tokens(&chars_of(text)) {
        None => None,
        Some(tokens) => read_entries(&tokens),
    }
}

} // verus!
