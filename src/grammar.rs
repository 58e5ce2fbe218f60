//! The language, stated as spec functions over the input's characters.
//!
//! Each rule takes the input `s` and a position `i`, and gives what it reads
//! there with the position after it, or `None` where the input does not match.
//! Whitespace is Unicode's `White_Space`; it may stand around every name and
//! string literal, and a newline separates the calls of a block.
use vstd::prelude::*;
use crate::ast::{Call, Decl};

verus! {

/// Unicode `White_Space`, as `char::is_whitespace` tests it.
pub open spec fn is_ws(c: char) -> bool {
    ||| c == '\t' || c == '\n' || c == '\x0B' || c == '\x0C' || c == '\r' || c == ' '
    ||| c == '\u{85}' || c == '\u{A0}' || c == '\u{1680}'
    ||| (0x2000 <= c as u32 && c as u32 <= 0x200A)
    ||| c == '\u{2028}' || c == '\u{2029}' || c == '\u{202F}' || c == '\u{205F}'
    ||| c == '\u{3000}'
}

/// A character that ends a line.
pub open spec fn is_newline(c: char) -> bool {
    c == '\n' || c == '\r' || c == '\x0B' || c == '\x0C' || c == '\u{85}' || c == '\u{2028}'
        || c == '\u{2029}'
}

pub open spec fn is_ident_start(c: char) -> bool {
    ('a' <= c && c <= 'z') || ('A' <= c && c <= 'Z') || c == '_'
}

pub open spec fn is_ident_char(c: char) -> bool {
    is_ident_start(c) || ('0' <= c && c <= '9')
}

pub open spec fn char_at(s: Seq<char>, i: int, c: char) -> bool {
    0 <= i < s.len() && s[i] == c
}

/// The first position from `i` on that holds no whitespace.
pub open spec fn skip_ws(s: Seq<char>, i: int) -> int
    decreases s.len() - i,
{
    if 0 <= i < s.len() && is_ws(s[i]) {
        skip_ws(s, i + 1)
    } else {
        i
    }
}

/// The first position from `i` on that holds no identifier character.
pub open spec fn ident_tail(s: Seq<char>, i: int) -> int
    decreases s.len() - i,
{
    if 0 <= i < s.len() && is_ident_char(s[i]) {
        ident_tail(s, i + 1)
    } else {
        i
    }
}

/// The first position from `i` on that holds `"`, or the end of the input.
pub open spec fn quote_from(s: Seq<char>, i: int) -> int
    decreases s.len() - i,
{
    if 0 <= i < s.len() && s[i] != '"' {
        quote_from(s, i + 1)
    } else {
        i
    }
}

/// The end of the identifier that starts at `i`: as many identifier
/// characters as follow.
pub open spec fn ident_at(s: Seq<char>, i: int) -> Option<int> {
    if 0 <= i < s.len() && is_ident_start(s[i]) {
        Some(ident_tail(s, i + 1))
    } else {
        None
    }
}

/// The identifier at `i` is the word `kw`; gives the position after it.
pub open spec fn keyword_at(s: Seq<char>, i: int, kw: Seq<char>) -> Option<int> {
    match ident_at(s, i) {
        Some(k) => if s.subrange(i, k) == kw {
            Some(k)
        } else {
            None
        },
        None => None,
    }
}

/// An identifier with the whitespace around it.
pub open spec fn padded_ident(s: Seq<char>, i: int) -> Option<(Seq<char>, int)> {
    let j = skip_ws(s, i);
    match ident_at(s, j) {
        Some(k) => Some((s.subrange(j, k), skip_ws(s, k))),
        None => None,
    }
}

/// `"`, any characters but `"`, and `"`; gives the characters between.
pub open spec fn string_lit(s: Seq<char>, i: int) -> Option<(Seq<char>, int)> {
    if char_at(s, i, '"') {
        let e = quote_from(s, i + 1);
        if e < s.len() {
            Some((s.subrange(i + 1, e), e + 1))
        } else {
            None
        }
    } else {
        None
    }
}

/// One or more identifiers separated by `.`.
pub open spec fn chain_from(s: Seq<char>, i: int) -> Option<(Seq<Seq<char>>, int)>
    decreases s.len() - i,
{
    match padded_ident(s, i) {
        Some((id, j)) => if char_at(s, j, '.') && i <= j {
            match chain_from(s, j + 1) {
                Some((rest, k)) => Some((seq![id] + rest, k)),
                None => None,
            }
        } else {
            Some((seq![id], j))
        },
        None => None,
    }
}

/// One or more string literals, each with the whitespace around it, separated
/// by `,` and closed by `)`.
pub open spec fn arg_items(s: Seq<char>, i: int) -> Option<(Seq<Seq<char>>, int)>
    decreases s.len() - i,
{
    match string_lit(s, skip_ws(s, i)) {
        Some((lit, e)) => {
            let k = skip_ws(s, e);
            if char_at(s, k, ',') && i <= k {
                match arg_items(s, k + 1) {
                    Some((rest, m)) => Some((seq![lit] + rest, m)),
                    None => None,
                }
            } else if char_at(s, k, ')') {
                Some((seq![lit], k + 1))
            } else {
                None
            }
        },
        None => None,
    }
}

/// `(`, then `)` at once or the arguments.
pub open spec fn arg_list(s: Seq<char>, i: int) -> Option<(Seq<Seq<char>>, int)> {
    if char_at(s, i, '(') {
        if char_at(s, i + 1, ')') {
            Some((seq![], i + 2))
        } else {
            arg_items(s, i + 1)
        }
    } else {
        None
    }
}

/// A chain followed directly by its arguments.
pub open spec fn call_at(s: Seq<char>, i: int) -> Option<(Call, int)> {
    match chain_from(s, i) {
        Some((chain, j)) => match arg_list(s, j) {
            Some((args, k)) => Some((Call { chain, args }, k)),
            None => None,
        },
        None => None,
    }
}

/// Whitespace and `}`.
pub open spec fn block_close(s: Seq<char>, i: int) -> Option<(Seq<Call>, int)> {
    let j = skip_ws(s, i);
    if char_at(s, j, '}') {
        Some((seq![], j + 1))
    } else {
        None
    }
}

/// What follows a call in a block: a newline and the next call, or the end
/// of the block.
pub open spec fn body_rest(s: Seq<char>, i: int) -> Option<(Seq<Call>, int)>
    decreases s.len() - i,
{
    if 0 <= i < s.len() && is_newline(s[i]) {
        match call_at(s, i + 1) {
            Some((c, k)) => if i < k <= s.len() {
                match body_rest(s, k) {
                    Some((rest, e)) => Some((seq![c] + rest, e)),
                    None => None,
                }
            } else {
                None
            },
            None => block_close(s, i),
        }
    } else {
        block_close(s, i)
    }
}

/// The inside of a block, from just after `{` to just after `}`.
pub open spec fn body_from(s: Seq<char>, i: int) -> Option<(Seq<Call>, int)> {
    let j = skip_ws(s, i);
    match call_at(s, j) {
        Some((c, k)) => match body_rest(s, k) {
            Some((rest, e)) => Some((seq![c] + rest, e)),
            None => None,
        },
        None => block_close(s, j),
    }
}

/// `import namespace/entry`.
pub open spec fn import_at(s: Seq<char>, i: int) -> Option<(Decl, int)> {
    match keyword_at(s, i, seq!['i', 'm', 'p', 'o', 'r', 't']) {
        Some(k) => match padded_ident(s, k) {
            Some((ns, j)) => if char_at(s, j, '/') {
                match padded_ident(s, j + 1) {
                    Some((entry, e)) => Some((Decl::Import(ns + seq!['/'] + entry), e)),
                    None => None,
                }
            } else {
                None
            },
            None => None,
        },
        None => None,
    }
}

/// `fun name() { .. }`, with the whitespace after it.
pub open spec fn function_at(s: Seq<char>, i: int) -> Option<(Decl, int)> {
    match keyword_at(s, i, seq!['f', 'u', 'n']) {
        Some(k) => match padded_ident(s, k) {
            Some((name, j)) => if char_at(s, j, '(') && char_at(s, j + 1, ')') && char_at(
                s,
                skip_ws(s, j + 2),
                '{',
            ) {
                match body_from(s, skip_ws(s, j + 2) + 1) {
                    Some((calls, e)) => Some((Decl::Function(name, calls), skip_ws(s, e))),
                    None => None,
                }
            } else {
                None
            },
            None => None,
        },
        None => None,
    }
}

pub open spec fn decl_at(s: Seq<char>, i: int) -> Option<(Decl, int)> {
    match import_at(s, i) {
        Some(r) => Some(r),
        None => function_at(s, i),
    }
}

/// As many declarations as follow one another from `i`, and where they stop.
pub open spec fn decls_from(s: Seq<char>, i: int) -> (Seq<Decl>, int)
    decreases s.len() - i,
{
    match decl_at(s, i) {
        Some((d, j)) => if i < j <= s.len() {
            let (rest, e) = decls_from(s, j);
            (seq![d] + rest, e)
        } else {
            (seq![], i)
        },
        None => (seq![], i),
    }
}

/// The declarations of a program, with whitespace around them; `None` unless
/// they reach the end of the input.
pub open spec fn program(s: Seq<char>) -> Option<Seq<Decl>> {
    let (ds, j) = decls_from(s, skip_ws(s, 0));
    if skip_ws(s, j) == s.len() {
        Some(ds)
    } else {
        None
    }
}

/// What the grammar can expect at a position.
#[derive(Debug, Clone, Copy, PartialEq, Eq, Structural)]
pub enum Token {
    /// This character.
    Char(char),
    /// An identifier.
    Identifier,
    /// A newline between two calls.
    Newline,
    /// The keyword `import`.
    Import,
    /// The keyword `fun`.
    Fun,
    /// The end of the input.
    End,
}

/// Where a rule that failed got furthest, and what it expected there.
pub type Failure = (int, Seq<Token>);

/// The further of two failures; at the same position, what either expected.
pub open spec fn further(a: Failure, b: Failure) -> Failure {
    if a.0 > b.0 {
        a
    } else if b.0 > a.0 {
        b
    } else {
        (a.0, a.1 + b.1)
    }
}

pub open spec fn padded_ident_fail(s: Seq<char>, i: int) -> Failure {
    (skip_ws(s, i), seq![Token::Identifier])
}

pub open spec fn string_fail(s: Seq<char>, i: int) -> Failure {
    if char_at(s, i, '"') {
        (s.len() as int, seq![Token::Char('"')])
    } else {
        (i, seq![Token::Char('"')])
    }
}

pub open spec fn chain_fail(s: Seq<char>, i: int) -> Failure
    decreases s.len() - i,
{
    match padded_ident(s, i) {
        Some((_, j)) => if char_at(s, j, '.') && i <= j {
            chain_fail(s, j + 1)
        } else {
            (j, seq![Token::Char('.'), Token::Char('(')])
        },
        None => padded_ident_fail(s, i),
    }
}

pub open spec fn arg_items_fail(s: Seq<char>, i: int) -> Failure
    decreases s.len() - i,
{
    match string_lit(s, skip_ws(s, i)) {
        Some((_, e)) => {
            let k = skip_ws(s, e);
            if char_at(s, k, ',') && i <= k {
                arg_items_fail(s, k + 1)
            } else {
                (k, seq![Token::Char(','), Token::Char(')')])
            }
        },
        None => string_fail(s, skip_ws(s, i)),
    }
}

/// Arguments from just after `(`.
pub open spec fn args_fail(s: Seq<char>, i: int) -> Failure {
    further(arg_items_fail(s, i), (i, seq![Token::Char(')')]))
}

pub open spec fn call_fail(s: Seq<char>, i: int) -> Failure {
    match chain_from(s, i) {
        Some((_, j)) => if char_at(s, j, '(') {
            args_fail(s, j + 1)
        } else {
            (j, seq![Token::Char('.'), Token::Char('(')])
        },
        None => chain_fail(s, i),
    }
}

pub open spec fn block_close_fail(s: Seq<char>, i: int) -> Failure {
    (skip_ws(s, i), seq![Token::Char('}')])
}

pub open spec fn body_rest_fail(s: Seq<char>, i: int) -> Failure
    decreases s.len() - i,
{
    if 0 <= i < s.len() && is_newline(s[i]) {
        match call_at(s, i + 1) {
            Some((_, k)) => if i < k <= s.len() {
                body_rest_fail(s, k)
            } else {
                block_close_fail(s, i)
            },
            None => further(call_fail(s, i + 1), block_close_fail(s, i)),
        }
    } else {
        further((i, seq![Token::Newline]), block_close_fail(s, i))
    }
}

pub open spec fn body_fail(s: Seq<char>, i: int) -> Failure {
    let j = skip_ws(s, i);
    match call_at(s, j) {
        Some((_, k)) => body_rest_fail(s, k),
        None => further(call_fail(s, j), block_close_fail(s, j)),
    }
}

pub open spec fn import_fail(s: Seq<char>, i: int) -> Failure {
    match keyword_at(s, i, seq!['i', 'm', 'p', 'o', 'r', 't']) {
        Some(k) => match padded_ident(s, k) {
            Some((_, j)) => if char_at(s, j, '/') {
                padded_ident_fail(s, j + 1)
            } else {
                (j, seq![Token::Char('/')])
            },
            None => padded_ident_fail(s, k),
        },
        None => (i, seq![Token::Import]),
    }
}

pub open spec fn function_fail(s: Seq<char>, i: int) -> Failure {
    match keyword_at(s, i, seq!['f', 'u', 'n']) {
        Some(k) => match padded_ident(s, k) {
            Some((_, j)) => if !char_at(s, j, '(') {
                (j, seq![Token::Char('(')])
            } else if !char_at(s, j + 1, ')') {
                (j + 1, seq![Token::Char(')')])
            } else if !char_at(s, skip_ws(s, j + 2), '{') {
                (skip_ws(s, j + 2), seq![Token::Char('{')])
            } else {
                body_fail(s, skip_ws(s, j + 2) + 1)
            },
            None => padded_ident_fail(s, k),
        },
        None => (i, seq![Token::Fun]),
    }
}

pub open spec fn decl_fail(s: Seq<char>, i: int) -> Failure {
    further(import_fail(s, i), function_fail(s, i))
}

/// Where a program that is refused goes wrong: the furthest position that
/// the grammar reached, and every token that would have let it go on there.
pub open spec fn program_fail(s: Seq<char>) -> Failure {
    let j = decls_from(s, skip_ws(s, 0)).1;
    further(decl_fail(s, j), (skip_ws(s, j), seq![Token::End]))
}

} // verus!
