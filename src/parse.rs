//! The executable parser, proved to return exactly what `grammar` reads.
use vstd::prelude::*;
use vstd::string::{StrSliceExecFns, StringExecFns};
use crate::ast::{call_nodes, ident_nodes, is_call_node, is_decl_node, is_ident_node, is_string_node, program_nodes, string_nodes, Call, Decl, Expression};
use crate::grammar::{
    arg_items, arg_list, block_close, body_fail, body_from, body_rest, body_rest_fail, call_at,
    call_fail, chain_fail, chain_from, char_at, decl_at, decl_fail, decls_from, function_at,
    function_fail, further, ident_at, ident_tail, import_at, import_fail, is_ident_char,
    is_ident_start, is_newline, is_ws, keyword_at, padded_ident, padded_ident_fail, program,
    program_fail, quote_from, skip_ws, string_fail, string_lit, Failure, Token,
};

verus! {

/// Why a program was refused: the furthest position (a count of characters)
/// that the grammar reached, the tokens that would have let it go on there,
/// and the character found there, or `None` at the end of the input.
#[derive(Debug)]
pub struct ParseError {
    pub position: usize,
    pub expected: Vec<Token>,
    pub found: Option<char>,
}

/// A rule that failed: how far it got and what it expected there.
struct Fail {
    position: usize,
    expected: Vec<Token>,
}

impl View for Fail {
    type V = Failure;

    closed spec fn view(&self) -> Failure {
        (self.position as int, self.expected@)
    }
}

fn fail_at(position: usize, t: Token) -> (f: Fail)
    ensures
        f@ == (position as int, seq![t]),
{
    let mut expected = Vec::new();
    expected.push(t);
    Fail { position, expected }
}

fn fail_at2(position: usize, t: Token, u: Token) -> (f: Fail)
    ensures
        f@ == (position as int, seq![t, u]),
{
    let mut expected = Vec::new();
    expected.push(t);
    expected.push(u);
    assert(expected@ =~= seq![t, u]);
    Fail { position, expected }
}

fn further_exec(a: Fail, b: Fail) -> (r: Fail)
    ensures
        r@ == further(a@, b@),
{
    if a.position > b.position {
        a
    } else if b.position > a.position {
        b
    } else {
        let mut a = a;
        let mut b = b;
        a.expected.append(&mut b.expected);
        a
    }
}

/// The characters of `s`, in order.
fn chars_of(s: &str) -> (r: Vec<char>)
    ensures
        r@ == s@,
{
    let n = s.unicode_len();
    let mut r = Vec::new();
    let mut j: usize = 0;
    while j < n
        invariant
            n == s@.len(),
            j <= n,
            r@ == s@.subrange(0, j as int),
        decreases n - j,
    {
        r.push(s.get_char(j));
        j = j + 1;
        assert(r@ =~= s@.subrange(0, j as int));
    }
    assert(r@ =~= s@);
    r
}

fn is_ws_char(c: char) -> (r: bool)
    ensures
        r == is_ws(c),
{
    let u = c as u32;
    c == '\t' || c == '\n' || c == '\x0B' || c == '\x0C' || c == '\r' || c == ' ' || c == '\u{85}'
        || c == '\u{A0}' || c == '\u{1680}' || (0x2000 <= u && u <= 0x200A) || c == '\u{2028}'
        || c == '\u{2029}' || c == '\u{202F}' || c == '\u{205F}' || c == '\u{3000}'
}

fn is_newline_char(c: char) -> (r: bool)
    ensures
        r == is_newline(c),
{
    c == '\n' || c == '\r' || c == '\x0B' || c == '\x0C' || c == '\u{85}' || c == '\u{2028}'
        || c == '\u{2029}'
}

fn is_ident_start_char(c: char) -> (r: bool)
    ensures
        r == is_ident_start(c),
{
    ('a' <= c && c <= 'z') || ('A' <= c && c <= 'Z') || c == '_'
}

fn is_ident_char_exec(c: char) -> (r: bool)
    ensures
        r == is_ident_char(c),
{
    is_ident_start_char(c) || ('0' <= c && c <= '9')
}

fn char_is(cs: &Vec<char>, i: usize, c: char) -> (r: bool)
    ensures
        r == char_at(cs@, i as int, c),
{
    i < cs.len() && cs[i] == c
}

fn skip_ws_exec(cs: &Vec<char>, i: usize) -> (r: usize)
    requires
        i <= cs.len(),
    ensures
        r == skip_ws(cs@, i as int),
        i <= r <= cs.len(),
{
    let mut j = i;
    while j < cs.len() && is_ws_char(cs[j])
        invariant
            i <= j <= cs.len(),
            skip_ws(cs@, j as int) == skip_ws(cs@, i as int),
        decreases cs.len() - j,
    {
        j = j + 1;
    }
    j
}

fn ident_tail_exec(cs: &Vec<char>, i: usize) -> (r: usize)
    requires
        i <= cs.len(),
    ensures
        r == ident_tail(cs@, i as int),
        i <= r <= cs.len(),
{
    let mut j = i;
    while j < cs.len() && is_ident_char_exec(cs[j])
        invariant
            i <= j <= cs.len(),
            ident_tail(cs@, j as int) == ident_tail(cs@, i as int),
        decreases cs.len() - j,
    {
        j = j + 1;
    }
    j
}

fn quote_from_exec(cs: &Vec<char>, i: usize) -> (r: usize)
    requires
        i <= cs.len(),
    ensures
        r == quote_from(cs@, i as int),
        i <= r <= cs.len(),
{
    let mut j = i;
    while j < cs.len() && cs[j] != '"'
        invariant
            i <= j <= cs.len(),
            quote_from(cs@, j as int) == quote_from(cs@, i as int),
        decreases cs.len() - j,
    {
        j = j + 1;
    }
    j
}

fn text_of(src: &str, from: usize, to: usize) -> (r: String)
    requires
        from <= to <= src@.len(),
    ensures
        r@ == src@.subrange(from as int, to as int),
{
    String::from_str(src.substring_char(from, to))
}

fn ident_exec(cs: &Vec<char>, i: usize) -> (r: Option<usize>)
    requires
        i <= cs.len(),
    ensures
        match (r, ident_at(cs@, i as int)) {
            (Some(k), Some(e)) => k == e && i < k <= cs.len(),
            (None, None) => true,
            _ => false,
        },
{
    if i < cs.len() && is_ident_start_char(cs[i]) {
        Some(ident_tail_exec(cs, i + 1))
    } else {
        None
    }
}

fn padded_ident_exec(src: &str, cs: &Vec<char>, i: usize) -> (r: Result<(String, usize), Fail>)
    requires
        cs@ == src@,
        i <= cs.len(),
    ensures
        match (r, padded_ident(cs@, i as int)) {
            (Ok((x, k)), Some((name, e))) => x@ == name && k == e && i < k <= cs.len(),
            (Err(f), None) => f@ == padded_ident_fail(cs@, i as int),
            _ => false,
        },
{
    let j = skip_ws_exec(cs, i);
    match ident_exec(cs, j) {
        Some(k) => {
            let name = text_of(src, j, k);
            Ok((name, skip_ws_exec(cs, k)))
        },
        None => Err(fail_at(j, Token::Identifier)),
    }
}

fn chain_exec(src: &str, cs: &Vec<char>, i: usize) -> (r: Result<(Vec<Expression>, usize), Fail>)
    requires
        cs@ == src@,
        i <= cs.len(),
    ensures
        match (r, chain_from(cs@, i as int)) {
            (Ok((v, k)), Some((names, e))) => ident_nodes(v@, names) && k == e && i < k <= cs.len(),
            (Err(f), None) => f@ == chain_fail(cs@, i as int),
            _ => false,
        },
    decreases cs.len() - i,
{
    match padded_ident_exec(src, cs, i) {
        Ok((id, j)) => {
            if char_is(cs, j, '.') {
                match chain_exec(src, cs, j + 1) {
                    Ok((rest, k)) => {
                        let ghost names = match chain_from(cs@, j + 1) {
                            Some((ns, _)) => ns,
                            None => seq![],
                        };
                        let ghost id_view = id@;
                        let mut v = rest;
                        v.insert(0, Expression::Ident(id));
                        assert(ident_nodes(v@, seq![id_view] + names)) by {
                            assert forall|n: int| 0 <= n < v@.len() implies is_ident_node(
                                #[trigger] v@[n],
                                (seq![id_view] + names)[n],
                            ) by {
                                if n > 0 {
                                    assert(v@[n] == rest@[n - 1]);
                                }
                            }
                        }
                        Ok((v, k))
                    },
                    Err(f) => Err(f),
                }
            } else {
                let mut v = Vec::new();
                v.push(Expression::Ident(id));
                Ok((v, j))
            }
        },
        Err(f) => Err(f),
    }
}

fn string_exec(src: &str, cs: &Vec<char>, i: usize) -> (r: Result<(String, usize), Fail>)
    requires
        cs@ == src@,
        i <= cs.len(),
    ensures
        match (r, string_lit(cs@, i as int)) {
            (Ok((x, k)), Some((text, e))) => x@ == text && k == e && i < k <= cs.len(),
            (Err(f), None) => f@ == string_fail(cs@, i as int),
            _ => false,
        },
{
    if char_is(cs, i, '"') {
        let e = quote_from_exec(cs, i + 1);
        if e < cs.len() {
            Ok((text_of(src, i + 1, e), e + 1))
        } else {
            Err(fail_at(cs.len(), Token::Char('"')))
        }
    } else {
        Err(fail_at(i, Token::Char('"')))
    }
}

fn arg_items_exec(src: &str, cs: &Vec<char>, i: usize) -> (r: Result<(Vec<Expression>, usize), Fail>)
    requires
        cs@ == src@,
        i <= cs.len(),
    ensures
        match (r, arg_items(cs@, i as int)) {
            (Ok((v, k)), Some((texts, e))) => string_nodes(v@, texts) && k == e && i < k <= cs.len(),
            (Err(f), None) => f@ == crate::grammar::arg_items_fail(cs@, i as int),
            _ => false,
        },
    decreases cs.len() - i,
{
    let j = skip_ws_exec(cs, i);
    match string_exec(src, cs, j) {
        Ok((lit, e)) => {
            let k = skip_ws_exec(cs, e);
            if char_is(cs, k, ',') {
                match arg_items_exec(src, cs, k + 1) {
                    Ok((rest, m)) => {
                        let ghost texts = match arg_items(cs@, k + 1) {
                            Some((ts, _)) => ts,
                            None => seq![],
                        };
                        let ghost lit_view = lit@;
                        let mut v = rest;
                        v.insert(0, Expression::String(lit));
                        assert(string_nodes(v@, seq![lit_view] + texts)) by {
                            assert forall|n: int| 0 <= n < v@.len() implies is_string_node(
                                #[trigger] v@[n],
                                (seq![lit_view] + texts)[n],
                            ) by {
                                if n > 0 {
                                    assert(v@[n] == rest@[n - 1]);
                                }
                            }
                        }
                        Ok((v, m))
                    },
                    Err(f) => Err(f),
                }
            } else if char_is(cs, k, ')') {
                let mut v = Vec::new();
                v.push(Expression::String(lit));
                Ok((v, k + 1))
            } else {
                Err(fail_at2(k, Token::Char(','), Token::Char(')')))
            }
        },
        Err(f) => Err(f),
    }
}

fn call_exec(src: &str, cs: &Vec<char>, i: usize) -> (r: Result<(Expression, usize), Fail>)
    requires
        cs@ == src@,
        i <= cs.len(),
    ensures
        match (r, call_at(cs@, i as int)) {
            (Ok((x, k)), Some((c, e))) => is_call_node(x, c) && k == e && i < k <= cs.len(),
            (Err(f), None) => f@ == call_fail(cs@, i as int),
            _ => false,
        },
{
    match chain_exec(src, cs, i) {
        Ok((chain, j)) => {
            if !char_is(cs, j, '(') {
                return Err(fail_at2(j, Token::Char('.'), Token::Char('(')));
            }
            let args = if char_is(cs, j + 1, ')') {
                (Vec::new(), j + 2)
            } else {
                match arg_items_exec(src, cs, j + 1) {
                    Ok(a) => a,
                    Err(f) => {
                        return Err(further_exec(f, fail_at(j + 1, Token::Char(')'))));
                    },
                }
            };
            let (args, k) = args;
            assert(arg_list(cs@, j as int) is Some);
            Ok((Expression::FunctionCall(Box::new(Expression::Chain(chain)), args), k))
        },
        Err(f) => Err(f),
    }
}

fn block_close_exec(cs: &Vec<char>, i: usize) -> (r: Result<usize, Fail>)
    requires
        i <= cs.len(),
    ensures
        match (r, block_close(cs@, i as int)) {
            (Ok(k), Some((calls, e))) => calls.len() == 0 && k == e && i < k <= cs.len(),
            (Err(f), None) => f@ == crate::grammar::block_close_fail(cs@, i as int),
            _ => false,
        },
{
    let j = skip_ws_exec(cs, i);
    if char_is(cs, j, '}') {
        Ok(j + 1)
    } else {
        Err(fail_at(j, Token::Char('}')))
    }
}

fn body_rest_exec(src: &str, cs: &Vec<char>, i: usize) -> (r: Result<(Vec<Expression>, usize), Fail>)
    requires
        cs@ == src@,
        i <= cs.len(),
    ensures
        match (r, body_rest(cs@, i as int)) {
            (Ok((v, k)), Some((calls, e))) => call_nodes(v@, calls) && k == e && i < k <= cs.len(),
            (Err(f), None) => f@ == body_rest_fail(cs@, i as int),
            _ => false,
        },
    decreases cs.len() - i,
{
    if i < cs.len() && is_newline_char(cs[i]) {
        match call_exec(src, cs, i + 1) {
            Ok((c, k)) => match body_rest_exec(src, cs, k) {
                Ok((rest, e)) => {
                    let ghost calls = match body_rest(cs@, k as int) {
                        Some((cl, _)) => cl,
                        None => seq![],
                    };
                    let ghost first = match call_at(cs@, i + 1) {
                        Some((cl, _)) => cl,
                        None => Call { chain: seq![], args: seq![] },
                    };
                    let ghost old_rest = rest@;
                    let mut v = rest;
                    v.insert(0, c);
                    assert(call_nodes(v@, seq![first] + calls)) by {
                        assert forall|n: int| 0 <= n < v@.len() implies is_call_node(
                            #[trigger] v@[n],
                            (seq![first] + calls)[n],
                        ) by {
                            if n > 0 {
                                assert(v@[n] == old_rest[n - 1]);
                            }
                        }
                    }
                    Ok((v, e))
                },
                Err(f) => Err(f),
            },
            Err(f) => match block_close_exec(cs, i) {
                Ok(k) => Ok((Vec::new(), k)),
                Err(g) => Err(further_exec(f, g)),
            },
        }
    } else {
        match block_close_exec(cs, i) {
            Ok(k) => Ok((Vec::new(), k)),
            Err(g) => Err(further_exec(fail_at(i, Token::Newline), g)),
        }
    }
}

fn body_exec(src: &str, cs: &Vec<char>, i: usize) -> (r: Result<(Vec<Expression>, usize), Fail>)
    requires
        cs@ == src@,
        i <= cs.len(),
    ensures
        match (r, body_from(cs@, i as int)) {
            (Ok((v, k)), Some((calls, e))) => call_nodes(v@, calls) && k == e && i < k <= cs.len(),
            (Err(f), None) => f@ == body_fail(cs@, i as int),
            _ => false,
        },
{
    let j = skip_ws_exec(cs, i);
    match call_exec(src, cs, j) {
        Ok((c, k)) => match body_rest_exec(src, cs, k) {
            Ok((rest, e)) => {
                let ghost calls = match body_rest(cs@, k as int) {
                    Some((cl, _)) => cl,
                    None => seq![],
                };
                let ghost first = match call_at(cs@, j as int) {
                    Some((cl, _)) => cl,
                    None => Call { chain: seq![], args: seq![] },
                };
                let ghost old_rest = rest@;
                let mut v = rest;
                v.insert(0, c);
                assert(call_nodes(v@, seq![first] + calls)) by {
                    assert forall|n: int| 0 <= n < v@.len() implies is_call_node(
                        #[trigger] v@[n],
                        (seq![first] + calls)[n],
                    ) by {
                        if n > 0 {
                            assert(v@[n] == old_rest[n - 1]);
                        }
                    }
                }
                Ok((v, e))
            },
            Err(f) => Err(f),
        },
        Err(f) => match block_close_exec(cs, j) {
            Ok(k) => Ok((Vec::new(), k)),
            Err(g) => Err(further_exec(f, g)),
        },
    }
}

/// Whether the identifier from `i` to `k` is the word `kw`.
fn is_word(cs: &Vec<char>, i: usize, k: usize, kw: &str) -> (r: bool)
    requires
        i <= k <= cs.len(),
    ensures
        r == (cs@.subrange(i as int, k as int) == kw@),
{
    let n = kw.unicode_len();
    if k - i != n {
        return false;
    }
    let mut j: usize = 0;
    while j < n
        invariant
            k - i == n == kw@.len(),
            i <= k <= cs.len(),
            j <= n,
            forall|m: int| 0 <= m < j ==> cs@[i + m] == kw@[m],
        decreases n - j,
    {
        if cs[i + j] != kw.get_char(j) {
            assert(cs@.subrange(i as int, k as int)[j as int] != kw@[j as int]);
            return false;
        }
        j = j + 1;
    }
    assert(cs@.subrange(i as int, k as int) =~= kw@);
    true
}

fn keyword_exec(cs: &Vec<char>, i: usize, kw: &str) -> (r: Option<usize>)
    requires
        i <= cs.len(),
    ensures
        match (r, keyword_at(cs@, i as int, kw@)) {
            (Some(k), Some(e)) => k == e && i < k <= cs.len(),
            (None, None) => true,
            _ => false,
        },
{
    match ident_exec(cs, i) {
        Some(k) => if is_word(cs, i, k, kw) {
            Some(k)
        } else {
            None
        },
        None => None,
    }
}

fn import_exec(src: &str, cs: &Vec<char>, i: usize) -> (r: Result<(Expression, usize), Fail>)
    requires
        cs@ == src@,
        i <= cs.len(),
    ensures
        match (r, import_at(cs@, i as int)) {
            (Ok((x, k)), Some((d, e))) => is_decl_node(x, d) && k == e && i < k <= cs.len(),
            (Err(f), None) => f@ == import_fail(cs@, i as int),
            _ => false,
        },
{
    proof {
        reveal_strlit("import");
        reveal_strlit("/");
        assert("import"@ =~= seq!['i', 'm', 'p', 'o', 'r', 't']);
        assert("/"@ =~= seq!['/']);
    }
    match keyword_exec(cs, i, "import") {
        Some(k) => match padded_ident_exec(src, cs, k) {
            Ok((ns, j)) => if char_is(cs, j, '/') {
                match padded_ident_exec(src, cs, j + 1) {
                    Ok((entry, e)) => {
                        let path = ns.concat("/").concat(entry.as_str());
                        Ok((Expression::Import(path), e))
                    },
                    Err(f) => Err(f),
                }
            } else {
                Err(fail_at(j, Token::Char('/')))
            },
            Err(f) => Err(f),
        },
        None => Err(fail_at(i, Token::Import)),
    }
}

fn function_exec(src: &str, cs: &Vec<char>, i: usize) -> (r: Result<(Expression, usize), Fail>)
    requires
        cs@ == src@,
        i <= cs.len(),
    ensures
        match (r, function_at(cs@, i as int)) {
            (Ok((x, k)), Some((d, e))) => is_decl_node(x, d) && k == e && i < k <= cs.len(),
            (Err(f), None) => f@ == function_fail(cs@, i as int),
            _ => false,
        },
{
    proof {
        reveal_strlit("fun");
        assert("fun"@ =~= seq!['f', 'u', 'n']);
    }
    let k = match keyword_exec(cs, i, "fun") {
        Some(k) => k,
        None => {
            return Err(fail_at(i, Token::Fun));
        },
    };
    let (name, j) = match padded_ident_exec(src, cs, k) {
        Ok(r) => r,
        Err(f) => {
            return Err(f);
        },
    };
    if !char_is(cs, j, '(') {
        return Err(fail_at(j, Token::Char('(')));
    }
    if !char_is(cs, j + 1, ')') {
        return Err(fail_at(j + 1, Token::Char(')')));
    }
    let m = skip_ws_exec(cs, j + 2);
    if !char_is(cs, m, '{') {
        return Err(fail_at(m, Token::Char('{')));
    }
    match body_exec(src, cs, m + 1) {
        Ok((calls, e)) => {
            let end = skip_ws_exec(cs, e);
            Ok((Expression::Function(name, Box::new(Expression::Scope(calls))), end))
        },
        Err(f) => Err(f),
    }
}

fn decl_exec(src: &str, cs: &Vec<char>, i: usize) -> (r: Result<(Expression, usize), Fail>)
    requires
        cs@ == src@,
        i <= cs.len(),
    ensures
        match (r, decl_at(cs@, i as int)) {
            (Ok((x, k)), Some((d, e))) => is_decl_node(x, d) && k == e && i < k <= cs.len(),
            (Err(f), None) => f@ == decl_fail(cs@, i as int),
            _ => false,
        },
{
    match import_exec(src, cs, i) {
        Ok(r) => Ok(r),
        Err(f) => match function_exec(src, cs, i) {
            Ok(r) => Ok(r),
            Err(g) => Err(further_exec(f, g)),
        },
    }
}

/// The declarations from `i` on, where they stop, and why the next one
/// could not be read.
fn decls_exec(src: &str, cs: &Vec<char>, i: usize) -> (r: (Vec<Expression>, usize, Fail))
    requires
        cs@ == src@,
        i <= cs.len(),
    ensures
        program_nodes(r.0@, decls_from(cs@, i as int).0),
        r.1 == decls_from(cs@, i as int).1,
        r.2@ == decl_fail(cs@, r.1 as int),
        i <= r.1 <= cs.len(),
    decreases cs.len() - i,
{
    match decl_exec(src, cs, i) {
        Ok((d, j)) => {
            let (rest, e, f) = decls_exec(src, cs, j);
            let ghost ds = decls_from(cs@, j as int).0;
            let ghost first = match decl_at(cs@, i as int) {
                Some((dl, _)) => dl,
                None => Decl::Import(seq![]),
            };
            let ghost old_rest = rest@;
            let mut v = rest;
            v.insert(0, d);
            assert(program_nodes(v@, seq![first] + ds)) by {
                assert forall|n: int| 0 <= n < v@.len() implies is_decl_node(
                    #[trigger] v@[n],
                    (seq![first] + ds)[n],
                ) by {
                    if n > 0 {
                        assert(v@[n] == old_rest[n - 1]);
                    }
                }
            }
            (v, e, f)
        },
        Err(f) => (Vec::new(), i, f),
    }
}

/// Parses a whole program: its imports and functions, in source order.
///
/// Succeeds exactly when the input is a program of the language, and then
/// returns one node for each declaration. Otherwise returns one error: the
/// furthest position that the grammar reached, every token that would have
/// let it go on there, and what stands there.
pub fn parser(src: &str) -> (r: Result<Vec<Expression>, Vec<ParseError>>)
    ensures
        match r {
            Ok(v) => program(src@) is Some && program_nodes(v@, program(src@)->0),
            Err(es) => {
                &&& program(src@) is None
                &&& es.len() == 1
                &&& es[0].position == program_fail(src@).0
                &&& es[0].expected@ == program_fail(src@).1
                &&& es[0].found == if es[0].position < src@.len() {
                    Some(src@[es[0].position as int])
                } else {
                    None::<char>
                }
            },
        },
{
    let cs = chars_of(src);
    let start = skip_ws_exec(&cs, 0);
    let (v, j, f) = decls_exec(src, &cs, start);
    let e = skip_ws_exec(&cs, j);
    if e == cs.len() {
        Ok(v)
    } else {
        let f = further_exec(f, fail_at(e, Token::End));
        let found = if f.position < cs.len() {
            Some(cs[f.position])
        } else {
            None
        };
        let mut es = Vec::new();
        es.push(ParseError { position: f.position, expected: f.expected, found });
        Err(es)
    }
}

} // verus!
