//! Properties of the grammar: a program is read as a whole or not at all,
//! and the canonical text of a syntax tree reads back as that tree.
use vstd::prelude::*;
use crate::ast::{Call, Decl};
use crate::grammar::{
    arg_items, arg_list, body_from, body_rest, call_at, chain_from, char_at, decl_at, decls_from,
    ident_at, ident_tail, is_ident_char, is_ident_start, is_ws, keyword_at, padded_ident, program,
    quote_from, skip_ws, string_lit, import_at, is_newline,
};

verus! {

/// A program is accepted only where its declarations, with the whitespace
/// after them, reach the end of the input: nothing is ever left unread.
pub proof fn lemma_whole_input(s: Seq<char>)
    ensures
        program(s) is Some <==> skip_ws(s, decls_from(s, skip_ws(s, 0)).1) == s.len(),
{
}

/// `w` stands in `s` from position `i` on.
pub open spec fn text_at(s: Seq<char>, i: int, w: Seq<char>) -> bool {
    &&& 0 <= i
    &&& i + w.len() <= s.len()
    &&& forall|m: int| 0 <= m < w.len() ==> s[i + m] == #[trigger] w[m]
}

/// An identifier: a letter or `_`, then letters, digits and `_`.
pub open spec fn is_name(n: Seq<char>) -> bool {
    &&& n.len() > 0
    &&& is_ident_start(n[0])
    &&& forall|k: int| 0 <= k < n.len() ==> is_ident_char(#[trigger] n[k])
}

pub open spec fn no_quote(t: Seq<char>) -> bool {
    forall|k: int| 0 <= k < t.len() ==> #[trigger] t[k] != '"'
}

/// `namespace/entry`, two identifiers.
pub open spec fn is_module_path(p: Seq<char>) -> bool {
    exists|k: int|
        0 < k < p.len() && #[trigger] p[k] == '/' && is_name(p.subrange(0, k)) && is_name(
            p.subrange(k + 1, p.len() as int),
        )
}

pub open spec fn valid_call(c: Call) -> bool {
    &&& c.chain.len() > 0
    &&& forall|k: int| 0 <= k < c.chain.len() ==> is_name(#[trigger] c.chain[k])
    &&& forall|k: int| 0 <= k < c.args.len() ==> no_quote(#[trigger] c.args[k])
}

pub open spec fn valid_decl(d: Decl) -> bool {
    match d {
        Decl::Import(p) => is_module_path(p),
        Decl::Function(name, calls) => is_name(name) && forall|k: int|
            0 <= k < calls.len() ==> valid_call(#[trigger] calls[k]),
    }
}

/// A tree that the grammar can produce.
pub open spec fn valid_program(ds: Seq<Decl>) -> bool {
    forall|k: int| 0 <= k < ds.len() ==> valid_decl(#[trigger] ds[k])
}

/// `a.b.c`
pub open spec fn chain_text(ns: Seq<Seq<char>>) -> Seq<char>
    decreases ns.len(),
{
    if ns.len() == 0 {
        seq![]
    } else if ns.len() == 1 {
        ns[0]
    } else {
        ns[0] + seq!['.'] + chain_text(ns.drop_first())
    }
}

/// `"x","y"`
pub open spec fn args_text(ts: Seq<Seq<char>>) -> Seq<char>
    decreases ts.len(),
{
    if ts.len() == 0 {
        seq![]
    } else if ts.len() == 1 {
        seq!['"'] + ts[0] + seq!['"']
    } else {
        seq!['"'] + ts[0] + seq!['"', ','] + args_text(ts.drop_first())
    }
}

/// `a.b.c("x","y")`
pub open spec fn call_text(c: Call) -> Seq<char> {
    chain_text(c.chain) + seq!['('] + args_text(c.args) + seq![')']
}

/// Each call on a line of its own.
pub open spec fn calls_text(cs: Seq<Call>) -> Seq<char>
    decreases cs.len(),
{
    if cs.len() == 0 {
        seq![]
    } else {
        call_text(cs[0]) + seq!['\n'] + calls_text(cs.drop_first())
    }
}

/// `import a/b` or `fun f() {` .. `}`, ending with a newline.
pub open spec fn decl_text(d: Decl) -> Seq<char> {
    match d {
        Decl::Import(p) => seq!['i', 'm', 'p', 'o', 'r', 't', ' '] + p + seq!['\n'],
        Decl::Function(name, calls) => seq!['f', 'u', 'n', ' '] + name + seq![
            '(',
            ')',
            ' ',
            '{',
            '\n',
        ] + calls_text(calls) + seq!['}', '\n'],
    }
}

/// The canonical text of a program.
pub open spec fn program_text(ds: Seq<Decl>) -> Seq<char>
    decreases ds.len(),
{
    if ds.len() == 0 {
        seq![]
    } else {
        decl_text(ds[0]) + program_text(ds.drop_first())
    }
}

proof fn lemma_text_at_split(s: Seq<char>, i: int, a: Seq<char>, b: Seq<char>)
    requires
        text_at(s, i, a + b),
    ensures
        text_at(s, i, a),
        text_at(s, i + a.len(), b),
{
    assert forall|m: int| 0 <= m < a.len() implies s[i + m] == #[trigger] a[m] by {
        assert((a + b)[m] == a[m]);
    }
    assert forall|m: int| 0 <= m < b.len() implies s[i + a.len() + m] == #[trigger] b[m] by {
        assert((a + b)[a.len() + m] == b[m]);
    }
}

proof fn lemma_skip_ws_to(s: Seq<char>, i: int, j: int)
    requires
        0 <= i <= j <= s.len(),
        forall|k: int| i <= k < j ==> is_ws(#[trigger] s[k]),
        j == s.len() || !is_ws(s[j]),
    ensures
        skip_ws(s, i) == j,
    decreases j - i,
{
    if i < j {
        lemma_skip_ws_to(s, i + 1, j);
    }
}

proof fn lemma_ident_tail_to(s: Seq<char>, i: int, j: int)
    requires
        0 <= i <= j <= s.len(),
        forall|k: int| i <= k < j ==> is_ident_char(#[trigger] s[k]),
        j == s.len() || !is_ident_char(s[j]),
    ensures
        ident_tail(s, i) == j,
    decreases j - i,
{
    if i < j {
        lemma_ident_tail_to(s, i + 1, j);
    }
}

proof fn lemma_quote_from_to(s: Seq<char>, i: int, j: int)
    requires
        0 <= i <= j < s.len(),
        forall|k: int| i <= k < j ==> #[trigger] s[k] != '"',
        s[j] == '"',
    ensures
        quote_from(s, i) == j,
    decreases j - i,
{
    if i < j {
        lemma_quote_from_to(s, i + 1, j);
    }
}

/// A name followed by a character that cannot continue it is read as that
/// name, with the whitespace after it.
proof fn lemma_ident_at(s: Seq<char>, i: int, n: Seq<char>)
    requires
        is_name(n),
        text_at(s, i, n),
        i + n.len() == s.len() || !is_ident_char(s[i + n.len()]),
    ensures
        ident_at(s, i) == Some(i + n.len()),
        s.subrange(i, i + n.len()) == n,
        padded_ident(s, i) == Some((n, skip_ws(s, i + n.len()))),
{
    assert(s[i] == n[0]);
    lemma_skip_ws_to(s, i, i);
    assert forall|k: int| i + 1 <= k < i + n.len() implies is_ident_char(#[trigger] s[k]) by {
        assert(s[i + (k - i)] == n[k - i]);
    }
    lemma_ident_tail_to(s, i + 1, i + n.len());
    assert(s.subrange(i, i + n.len()) =~= n);
}

/// A name followed by a character that is neither part of a name nor
/// whitespace is read as that name, up to that character.
proof fn lemma_name_at(s: Seq<char>, i: int, n: Seq<char>)
    requires
        is_name(n),
        text_at(s, i, n),
        i + n.len() < s.len(),
        !is_ident_char(s[i + n.len()]),
        !is_ws(s[i + n.len()]),
    ensures
        padded_ident(s, i) == Some((n, i + n.len())),
        ident_at(s, i) == Some(i + n.len()),
{
    lemma_ident_at(s, i, n);
    lemma_skip_ws_to(s, i + n.len(), i + n.len());
}

proof fn lemma_chain_at(s: Seq<char>, i: int, ns: Seq<Seq<char>>)
    requires
        ns.len() > 0,
        forall|k: int| 0 <= k < ns.len() ==> is_name(#[trigger] ns[k]),
        text_at(s, i, chain_text(ns) + seq!['(']),
    ensures
        chain_from(s, i) == Some((ns, i + chain_text(ns).len())),
    decreases ns.len(),
{
    let n0 = ns[0];
    assert(is_name(n0));
    if ns.len() == 1 {
        lemma_text_at_split(s, i, n0, seq!['(']);
        assert(s[i + n0.len()] == seq!['('][0]);
        lemma_name_at(s, i, n0);
        assert(seq![n0] =~= ns);
    } else {
        let rest = ns.drop_first();
        assert(chain_text(ns) + seq!['('] =~= n0 + seq!['.'] + (chain_text(rest) + seq!['(']));
        lemma_text_at_split(s, i, n0 + seq!['.'], chain_text(rest) + seq!['(']);
        lemma_text_at_split(s, i, n0, seq!['.']);
        assert(s[i + n0.len()] == seq!['.'][0]);
        lemma_name_at(s, i, n0);
        assert forall|k: int| 0 <= k < rest.len() implies is_name(#[trigger] rest[k]) by {
            assert(rest[k] == ns[k + 1]);
        }
        lemma_chain_at(s, i + n0.len() + 1, rest);
        assert(seq![n0] + rest =~= ns);
    }
}

proof fn lemma_string_at(s: Seq<char>, i: int, t: Seq<char>)
    requires
        no_quote(t),
        text_at(s, i, seq!['"'] + t + seq!['"']),
    ensures
        string_lit(s, i) == Some((t, i + t.len() + 2)),
        skip_ws(s, i) == i,
{
    lemma_text_at_split(s, i, seq!['"'] + t, seq!['"']);
    lemma_text_at_split(s, i, seq!['"'], t);
    assert(s[i] == seq!['"'][0]);
    assert(s[i + 1 + t.len()] == seq!['"'][0]);
    assert forall|k: int| i + 1 <= k < i + 1 + t.len() implies #[trigger] s[k] != '"' by {
        assert(s[i + 1 + (k - i - 1)] == t[k - i - 1]);
    }
    lemma_quote_from_to(s, i + 1, i + 1 + t.len());
    lemma_skip_ws_to(s, i, i);
    assert(s.subrange(i + 1, i + 1 + t.len()) =~= t);
}

proof fn lemma_arg_items_at(s: Seq<char>, i: int, ts: Seq<Seq<char>>)
    requires
        ts.len() > 0,
        forall|k: int| 0 <= k < ts.len() ==> no_quote(#[trigger] ts[k]),
        text_at(s, i, args_text(ts) + seq![')']),
    ensures
        arg_items(s, i) == Some((ts, i + args_text(ts).len() + 1)),
    decreases ts.len(),
{
    let t0 = ts[0];
    assert(no_quote(t0));
    let lit = seq!['"'] + t0 + seq!['"'];
    if ts.len() == 1 {
        lemma_text_at_split(s, i, lit, seq![')']);
        assert(s[i + lit.len()] == seq![')'][0]);
        lemma_string_at(s, i, t0);
        lemma_skip_ws_to(s, i + lit.len(), i + lit.len());
        assert(seq![t0] =~= ts);
    } else {
        let rest = ts.drop_first();
        assert(args_text(ts) + seq![')'] =~= lit + seq![','] + (args_text(rest) + seq![')']));
        lemma_text_at_split(s, i, lit + seq![','], args_text(rest) + seq![')']);
        lemma_text_at_split(s, i, lit, seq![',']);
        assert(s[i + lit.len()] == seq![','][0]);
        lemma_string_at(s, i, t0);
        lemma_skip_ws_to(s, i + lit.len(), i + lit.len());
        assert forall|k: int| 0 <= k < rest.len() implies no_quote(#[trigger] rest[k]) by {
            assert(rest[k] == ts[k + 1]);
        }
        lemma_arg_items_at(s, i + lit.len() + 1, rest);
        assert(seq![t0] + rest =~= ts);
    }
}

proof fn lemma_call_at(s: Seq<char>, i: int, c: Call)
    requires
        valid_call(c),
        text_at(s, i, call_text(c)),
    ensures
        call_at(s, i) == Some((c, i + call_text(c).len())),
{
    let ct = chain_text(c.chain);
    let at = args_text(c.args);
    assert(call_text(c) =~= ct + seq!['('] + (at + seq![')']));
    lemma_text_at_split(s, i, ct + seq!['('], at + seq![')']);
    lemma_chain_at(s, i, c.chain);
    let j = i + ct.len();
    lemma_text_at_split(s, i, ct, seq!['(']);
    assert(s[j] == seq!['('][0]);
    if c.args.len() == 0 {
        assert(s[j + 1] == (at + seq![')'])[0]);
        assert(arg_list(s, j) == Some((c.args, j + 2))) by {
            assert(seq![] =~= c.args);
        }
    } else {
        lemma_arg_items_at(s, j + 1, c.args);
        assert(s[j + 1] == (at + seq![')'])[0]);
        assert(at[0] == '"');
    }
}

proof fn lemma_call_text_first(c: Call)
    requires
        valid_call(c),
    ensures
        call_text(c).len() > 0,
        is_ident_start(call_text(c)[0]),
{
    let n0 = c.chain[0];
    assert(is_name(n0));
    assert(chain_text(c.chain)[0] == n0[0]);
    assert(call_text(c)[0] == chain_text(c.chain)[0]);
}

/// A place where no call can start: it holds `}`.
proof fn lemma_no_call_at_close(s: Seq<char>, i: int)
    requires
        char_at(s, i, '}'),
    ensures
        call_at(s, i) is None,
        skip_ws(s, i) == i,
{
    lemma_skip_ws_to(s, i, i);
}

proof fn lemma_body_rest_at(s: Seq<char>, k: int, cs: Seq<Call>)
    requires
        forall|m: int| 0 <= m < cs.len() ==> valid_call(#[trigger] cs[m]),
        text_at(s, k, seq!['\n'] + calls_text(cs) + seq!['}']),
    ensures
        body_rest(s, k) == Some((cs, k + calls_text(cs).len() + 2)),
    decreases cs.len(),
{
    assert(s[k] == (seq!['\n'] + calls_text(cs) + seq!['}'])[0]);
    if cs.len() == 0 {
        assert(s[k + 1] == (seq!['\n'] + calls_text(cs) + seq!['}'])[1]);
        lemma_no_call_at_close(s, k + 1);
        lemma_skip_ws_to(s, k, k + 1);
        assert(seq![] =~= cs);
    } else {
        let c0 = cs[0];
        let rest = cs.drop_first();
        assert(valid_call(c0));
        assert(seq!['\n'] + calls_text(cs) + seq!['}'] =~= seq!['\n'] + call_text(c0) + (seq!['\n']
            + calls_text(rest) + seq!['}']));
        lemma_text_at_split(s, k, seq!['\n'] + call_text(c0), seq!['\n'] + calls_text(rest) + seq!['}']);
        lemma_text_at_split(s, k, seq!['\n'], call_text(c0));
        lemma_call_at(s, k + 1, c0);
        assert forall|m: int| 0 <= m < rest.len() implies valid_call(#[trigger] rest[m]) by {
            assert(rest[m] == cs[m + 1]);
        }
        lemma_body_rest_at(s, k + 1 + call_text(c0).len(), rest);
        assert(seq![c0] + rest =~= cs);
    }
}

proof fn lemma_body_at(s: Seq<char>, i: int, cs: Seq<Call>)
    requires
        forall|m: int| 0 <= m < cs.len() ==> valid_call(#[trigger] cs[m]),
        text_at(s, i, seq!['\n'] + calls_text(cs) + seq!['}']),
    ensures
        body_from(s, i) == Some((cs, i + calls_text(cs).len() + 2)),
{
    let w = seq!['\n'] + calls_text(cs) + seq!['}'];
    assert(s[i] == w[0]);
    assert(s[i + 1] == w[1]);
    if cs.len() == 0 {
        lemma_no_call_at_close(s, i + 1);
        lemma_skip_ws_to(s, i, i + 1);
        assert(seq![] =~= cs);
    } else {
        let c0 = cs[0];
        let rest = cs.drop_first();
        assert(valid_call(c0));
        lemma_call_text_first(c0);
        assert(w[1] == call_text(c0)[0]);
        lemma_skip_ws_to(s, i, i + 1);
        assert(w =~= seq!['\n'] + call_text(c0) + (seq!['\n'] + calls_text(rest) + seq!['}']));
        lemma_text_at_split(s, i, seq!['\n'] + call_text(c0), seq!['\n'] + calls_text(rest) + seq!['}']);
        lemma_text_at_split(s, i, seq!['\n'], call_text(c0));
        lemma_call_at(s, i + 1, c0);
        assert forall|m: int| 0 <= m < rest.len() implies valid_call(#[trigger] rest[m]) by {
            assert(rest[m] == cs[m + 1]);
        }
        lemma_body_rest_at(s, i + 1 + call_text(c0).len(), rest);
        assert(seq![c0] + rest =~= cs);
    }
}

#[verifier::rlimit(60)]
proof fn lemma_decl_at(s: Seq<char>, i: int, d: Decl)
    requires
        valid_decl(d),
        text_at(s, i, decl_text(d)),
        i + decl_text(d).len() == s.len() || !is_ws(s[i + decl_text(d).len()]),
    ensures
        decl_at(s, i) == Some((d, i + decl_text(d).len())),
{
    let e = i + decl_text(d).len();
    let kw_import = seq!['i', 'm', 'p', 'o', 'r', 't'];
    let kw_fun = seq!['f', 'u', 'n'];
    match d {
        Decl::Import(p) => {
            let k = choose|k: int|
                0 < k < p.len() && #[trigger] p[k] == '/' && is_name(p.subrange(0, k)) && is_name(
                    p.subrange(k + 1, p.len() as int),
                );
            let ns = p.subrange(0, k);
            let en = p.subrange(k + 1, p.len() as int);
            assert(p =~= ns + seq!['/'] + en);
            assert(decl_text(d) =~= kw_import + seq![' '] + ns + seq!['/'] + en + seq!['\n']);
            lemma_text_at_split(s, i, kw_import + seq![' '] + ns + seq!['/'] + en, seq!['\n']);
            lemma_text_at_split(s, i, kw_import + seq![' '] + ns + seq!['/'], en);
            lemma_text_at_split(s, i, kw_import + seq![' '] + ns, seq!['/']);
            lemma_text_at_split(s, i, kw_import + seq![' '], ns);
            lemma_text_at_split(s, i, kw_import, seq![' ']);
            assert(s[i + 6] == seq![' '][0]);
            assert(s[i + 7 + k] == seq!['/'][0]);
            assert(s[e - 1] == seq!['\n'][0]);
            assert(ns[0] == s[i + 7]);
            assert(en[0] == s[i + 8 + k]);
            lemma_ident_at(s, i, kw_import);
            lemma_skip_ws_to(s, i + 6, i + 7);
            lemma_name_at(s, i + 7, ns);
            lemma_ident_at(s, i + 8 + k, en);
            lemma_skip_ws_to(s, e - 1, e);
        },
        Decl::Function(name, cs) => {
            let open = seq!['(', ')', ' ', '{'];
            let body = seq!['\n'] + calls_text(cs) + seq!['}'];
            assert(decl_text(d) =~= kw_fun + seq![' '] + name + open + body + seq!['\n']);
            lemma_text_at_split(s, i, kw_fun + seq![' '] + name + open + body, seq!['\n']);
            lemma_text_at_split(s, i, kw_fun + seq![' '] + name + open, body);
            lemma_text_at_split(s, i, kw_fun + seq![' '] + name, open);
            lemma_text_at_split(s, i, kw_fun + seq![' '], name);
            lemma_text_at_split(s, i, kw_fun, seq![' ']);
            let j = i + 4 + name.len();
            assert(s[i + 3] == seq![' '][0]);
            assert(s[j] == open[0]);
            assert(s[j + 1] == open[1]);
            assert(s[j + 2] == open[2]);
            assert(s[j + 3] == open[3]);
            assert(s[e - 1] == seq!['\n'][0]);
            assert(name[0] == s[i + 4]);
            lemma_ident_at(s, i, kw_fun);
            assert(keyword_at(s, i, kw_import) is None);
            lemma_skip_ws_to(s, i + 3, i + 4);
            lemma_name_at(s, i + 4, name);
            lemma_skip_ws_to(s, j + 2, j + 3);
            lemma_body_at(s, j + 4, cs);
            lemma_skip_ws_to(s, e - 1, e);
        },
    }
}

proof fn lemma_decls_at(s: Seq<char>, i: int, ds: Seq<Decl>)
    requires
        valid_program(ds),
        text_at(s, i, program_text(ds)),
        i + program_text(ds).len() == s.len(),
    ensures
        decls_from(s, i) == (ds, s.len() as int),
    decreases ds.len(),
{
    if ds.len() == 0 {
        assert(seq![] =~= ds);
    } else {
        let d0 = ds[0];
        let rest = ds.drop_first();
        assert(valid_decl(d0));
        lemma_text_at_split(s, i, decl_text(d0), program_text(rest));
        let e = i + decl_text(d0).len();
        if rest.len() > 0 {
            assert(s[e] == program_text(rest)[0]);
            assert(program_text(rest)[0] == decl_text(rest[0])[0]);
        }
        lemma_decl_at(s, i, d0);
        assert forall|m: int| 0 <= m < rest.len() implies valid_decl(#[trigger] rest[m]) by {
            assert(rest[m] == ds[m + 1]);
        }
        lemma_decls_at(s, e, rest);
        assert(seq![d0] + rest =~= ds);
    }
}

/// The canonical text of any tree that the grammar can produce reads back as
/// exactly that tree.
pub proof fn lemma_round_trip(ds: Seq<Decl>)
    requires
        valid_program(ds),
    ensures
        program(program_text(ds)) == Some(ds),
{
    let s = program_text(ds);
    if ds.len() > 0 {
        assert(s[0] == decl_text(ds[0])[0]);
    }
    lemma_skip_ws_to(s, 0, 0);
    lemma_decls_at(s, 0, ds);
    lemma_skip_ws_to(s, s.len() as int, s.len() as int);
}

proof fn lemma_quote_from_bounds(s: Seq<char>, i: int)
    requires
        0 <= i <= s.len(),
    ensures
        i <= quote_from(s, i) <= s.len(),
        forall|k: int| i <= k < quote_from(s, i) ==> #[trigger] s[k] != '"',
        quote_from(s, i) < s.len() ==> s[quote_from(s, i)] == '"',
    decreases s.len() - i,
{
    if i < s.len() && s[i] != '"' {
        lemma_quote_from_bounds(s, i + 1);
    }
}

/// A string literal ends at the first `"` after the one that opens it, so its
/// text never holds `"`: in `"a"b"` the literal is `"a"`.
pub proof fn lemma_literal_ends_at_first_quote(s: Seq<char>, i: int)
    ensures
        match string_lit(s, i) {
            Some((t, e)) => {
                &&& no_quote(t)
                &&& e == i + t.len() + 2
                &&& s[i] == '"'
                &&& s[e - 1] == '"'
            },
            None => true,
        },
{
    if char_at(s, i, '"') {
        lemma_quote_from_bounds(s, i + 1);
        let q = quote_from(s, i + 1);
        if q < s.len() {
            let t = s.subrange(i + 1, q);
            assert forall|k: int| 0 <= k < t.len() implies #[trigger] t[k] != '"' by {
                assert(t[k] == s[i + 1 + k]);
            }
        }
    }
}

proof fn lemma_ident_tail_chars(s: Seq<char>, i: int)
    requires
        0 <= i <= s.len(),
    ensures
        i <= ident_tail(s, i) <= s.len(),
        forall|k: int| i <= k < ident_tail(s, i) ==> is_ident_char(#[trigger] s[k]),
    decreases s.len() - i,
{
    if i < s.len() && is_ident_char(s[i]) {
        lemma_ident_tail_chars(s, i + 1);
    }
}

proof fn lemma_skip_ws_bounds(s: Seq<char>, i: int)
    requires
        0 <= i <= s.len(),
    ensures
        i <= skip_ws(s, i) <= s.len(),
    decreases s.len() - i,
{
    if i < s.len() && is_ws(s[i]) {
        lemma_skip_ws_bounds(s, i + 1);
    }
}

proof fn lemma_padded_ident_name(s: Seq<char>, i: int)
    requires
        0 <= i <= s.len(),
    ensures
        match padded_ident(s, i) {
            Some((n, k)) => is_name(n) && i < k <= s.len(),
            None => true,
        },
{
    lemma_skip_ws_bounds(s, i);
    let j = skip_ws(s, i);
    if let Some(e) = ident_at(s, j) {
        lemma_ident_tail_chars(s, j + 1);
        lemma_skip_ws_bounds(s, e);
        let n = s.subrange(j, e);
        assert forall|k: int| 0 <= k < n.len() implies is_ident_char(#[trigger] n[k]) by {
            assert(n[k] == s[j + k]);
        }
    }
}

proof fn lemma_chain_valid(s: Seq<char>, i: int)
    requires
        0 <= i <= s.len(),
    ensures
        match chain_from(s, i) {
            Some((ns, k)) => ns.len() > 0 && (forall|m: int| 0 <= m < ns.len() ==> is_name(#[trigger] ns[m])) && i < k <= s.len(),
            None => true,
        },
    decreases s.len() - i,
{
    lemma_padded_ident_name(s, i);
    if let Some((id, j)) = padded_ident(s, i) {
        if char_at(s, j, '.') && i <= j {
            lemma_chain_valid(s, j + 1);
            if let Some((rest, k)) = chain_from(s, j + 1) {
                let ns = seq![id] + rest;
                assert forall|m: int| 0 <= m < ns.len() implies is_name(#[trigger] ns[m]) by {
                    if m > 0 {
                        assert(ns[m] == rest[m - 1]);
                    }
                }
            }
        }
    }
}

proof fn lemma_args_valid(s: Seq<char>, i: int)
    requires
        0 <= i <= s.len(),
    ensures
        match arg_items(s, i) {
            Some((ts, k)) => (forall|m: int| 0 <= m < ts.len() ==> no_quote(#[trigger] ts[m])) && i < k <= s.len(),
            None => true,
        },
    decreases s.len() - i,
{
    lemma_skip_ws_bounds(s, i);
    let j = skip_ws(s, i);
    lemma_literal_ends_at_first_quote(s, j);
    if let Some((lit, e)) = string_lit(s, j) {
        lemma_skip_ws_bounds(s, e);
        let k = skip_ws(s, e);
        if char_at(s, k, ',') && i <= k {
            lemma_args_valid(s, k + 1);
            if let Some((rest, m)) = arg_items(s, k + 1) {
                let ts = seq![lit] + rest;
                assert forall|n: int| 0 <= n < ts.len() implies no_quote(#[trigger] ts[n]) by {
                    if n > 0 {
                        assert(ts[n] == rest[n - 1]);
                    }
                }
            }
        } else if char_at(s, k, ')') {
            assert(seq![lit][0] == lit);
        }
    }
}

proof fn lemma_call_valid(s: Seq<char>, i: int)
    requires
        0 <= i <= s.len(),
    ensures
        match call_at(s, i) {
            Some((c, k)) => valid_call(c) && i < k <= s.len(),
            None => true,
        },
{
    lemma_chain_valid(s, i);
    if let Some((_, j)) = chain_from(s, i) {
        if char_at(s, j, '(') && !char_at(s, j + 1, ')') {
            lemma_args_valid(s, j + 1);
        }
    }
}

proof fn lemma_body_rest_valid(s: Seq<char>, i: int)
    requires
        0 <= i <= s.len(),
    ensures
        match body_rest(s, i) {
            Some((cs, _)) => forall|m: int| 0 <= m < cs.len() ==> valid_call(#[trigger] cs[m]),
            None => true,
        },
    decreases s.len() - i,
{
    if 0 <= i < s.len() && is_newline(s[i]) {
        lemma_call_valid(s, i + 1);
        if let Some((c, k)) = call_at(s, i + 1) {
            if i < k <= s.len() {
                lemma_body_rest_valid(s, k);
                if let Some((rest, _)) = body_rest(s, k) {
                    let cs = seq![c] + rest;
                    assert forall|m: int| 0 <= m < cs.len() implies valid_call(#[trigger] cs[m]) by {
                        if m > 0 {
                            assert(cs[m] == rest[m - 1]);
                        }
                    }
                }
            }
        }
    }
}

proof fn lemma_body_valid(s: Seq<char>, i: int)
    requires
        0 <= i <= s.len(),
    ensures
        match body_from(s, i) {
            Some((cs, _)) => forall|m: int| 0 <= m < cs.len() ==> valid_call(#[trigger] cs[m]),
            None => true,
        },
{
    lemma_skip_ws_bounds(s, i);
    let j = skip_ws(s, i);
    lemma_call_valid(s, j);
    if let Some((c, k)) = call_at(s, j) {
        lemma_body_rest_valid(s, k);
        if let Some((rest, _)) = body_rest(s, k) {
            let cs = seq![c] + rest;
            assert forall|m: int| 0 <= m < cs.len() implies valid_call(#[trigger] cs[m]) by {
                if m > 0 {
                    assert(cs[m] == rest[m - 1]);
                }
            }
        }
    }
}

proof fn lemma_decl_valid(s: Seq<char>, i: int)
    requires
        0 <= i <= s.len(),
    ensures
        match decl_at(s, i) {
            Some((d, _)) => valid_decl(d),
            None => true,
        },
{
    if let Some(k) = keyword_at(s, i, seq!['i', 'm', 'p', 'o', 'r', 't']) {
        lemma_ident_tail_chars(s, i + 1);
        lemma_padded_ident_name(s, k);
        if let Some((ns, j)) = padded_ident(s, k) {
            if char_at(s, j, '/') {
                lemma_padded_ident_name(s, j + 1);
                if let Some((en, _)) = padded_ident(s, j + 1) {
                    let p = ns + seq!['/'] + en;
                    assert(p.subrange(0, ns.len() as int) =~= ns);
                    assert(p.subrange(ns.len() as int + 1, p.len() as int) =~= en);
                    assert(p[ns.len() as int] == (seq!['/'])[0]);
                }
            }
        }
    }
    if import_at(s, i) is None {
        if let Some(k) = keyword_at(s, i, seq!['f', 'u', 'n']) {
            lemma_ident_tail_chars(s, i + 1);
            lemma_padded_ident_name(s, k);
            if let Some((_, j)) = padded_ident(s, k) {
                if char_at(s, j, '(') && char_at(s, j + 1, ')') {
                    lemma_skip_ws_bounds(s, j + 2);
                    if char_at(s, skip_ws(s, j + 2), '{') {
                        lemma_body_valid(s, skip_ws(s, j + 2) + 1);
                    }
                }
            }
        }
    }
}

proof fn lemma_decls_valid(s: Seq<char>, i: int)
    requires
        0 <= i <= s.len(),
    ensures
        valid_program(decls_from(s, i).0),
    decreases s.len() - i,
{
    lemma_decl_valid(s, i);
    if let Some((d, j)) = decl_at(s, i) {
        if i < j <= s.len() {
            lemma_decls_valid(s, j);
            let rest = decls_from(s, j).0;
            let ds = seq![d] + rest;
            assert forall|m: int| 0 <= m < ds.len() implies valid_decl(#[trigger] ds[m]) by {
                if m > 0 {
                    assert(ds[m] == rest[m - 1]);
                }
            }
        }
    }
}

/// Every tree that the grammar reads from a text is one it can produce:
/// names are identifiers, literals hold no `"`, chains are not empty, and an
/// import's path is two identifiers around `/`.
pub proof fn lemma_parsed_is_valid(s: Seq<char>)
    ensures
        match program(s) {
            Some(ds) => valid_program(ds),
            None => true,
        },
{
    lemma_skip_ws_bounds(s, 0);
    lemma_decls_valid(s, skip_ws(s, 0));
}

/// Whatever tree is read from a text, its canonical text reads back as that
/// same tree.
pub proof fn lemma_parsed_round_trip(s: Seq<char>)
    ensures
        match program(s) {
            Some(ds) => program(program_text(ds)) == Some(ds),
            None => true,
        },
{
    lemma_parsed_is_valid(s);
    if let Some(ds) = program(s) {
        lemma_round_trip(ds);
    }
}

proof fn lemma_skip_ws_chars(s: Seq<char>, i: int)
    requires
        0 <= i <= s.len(),
    ensures
        i <= skip_ws(s, i) <= s.len(),
        forall|k: int| i <= k < skip_ws(s, i) ==> is_ws(#[trigger] s[k]),
    decreases s.len() - i,
{
    if i < s.len() && is_ws(s[i]) {
        lemma_skip_ws_chars(s, i + 1);
    }
}

/// Whitespace from `j` to the end, where the last character is none, means
/// `j` is the end.
proof fn lemma_reaches_end(s: Seq<char>, j: int)
    requires
        0 <= j <= s.len(),
        s.len() > 0,
        !is_ws(s[s.len() - 1]),
        skip_ws(s, j) == s.len(),
    ensures
        j == s.len(),
{
    lemma_skip_ws_chars(s, j);
    if j < s.len() {
        assert(is_ws(s[s.len() - 1]));
    }
}

proof fn lemma_body_rest_closes(s: Seq<char>, i: int)
    requires
        0 <= i <= s.len(),
    ensures
        match body_rest(s, i) {
            Some((_, k)) => 1 <= k <= s.len() && s[k - 1] == '}',
            None => true,
        },
    decreases s.len() - i,
{
    if 0 <= i < s.len() && is_newline(s[i]) {
        if let Some((_, k)) = call_at(s, i + 1) {
            if i < k <= s.len() {
                lemma_body_rest_closes(s, k);
            }
        }
    }
}

proof fn lemma_body_closes(s: Seq<char>, i: int)
    requires
        0 <= i <= s.len(),
    ensures
        match body_from(s, i) {
            Some((_, k)) => 1 <= k <= s.len() && s[k - 1] == '}',
            None => true,
        },
{
    lemma_skip_ws_bounds(s, i);
    let j = skip_ws(s, i);
    lemma_call_valid(s, j);
    if let Some((_, k)) = call_at(s, j) {
        lemma_body_rest_closes(s, k);
    }
}

proof fn lemma_decl_last_char(s: Seq<char>, i: int)
    requires
        0 <= i <= s.len(),
        s.len() > 0,
        !is_ws(s[s.len() - 1]),
        match decl_at(s, i) {
            Some((_, e)) => e == s.len(),
            None => false,
        },
    ensures
        is_ident_char(s[s.len() - 1]) || s[s.len() - 1] == '}',
{
    if let Some(k) = keyword_at(s, i, seq!['i', 'm', 'p', 'o', 'r', 't']) {
        lemma_ident_tail_chars(s, i + 1);
        lemma_padded_ident_name(s, k);
        if let Some((_, j)) = padded_ident(s, k) {
            if char_at(s, j, '/') {
                lemma_skip_ws_bounds(s, j + 1);
                let q = skip_ws(s, j + 1);
                if ident_at(s, q) is Some {
                    lemma_ident_tail_chars(s, q + 1);
                    lemma_reaches_end(s, ident_tail(s, q + 1));
                }
            }
        }
    }
    if import_at(s, i) is None {
        if let Some(k) = keyword_at(s, i, seq!['f', 'u', 'n']) {
            lemma_ident_tail_chars(s, i + 1);
            lemma_padded_ident_name(s, k);
            if let Some((_, j)) = padded_ident(s, k) {
                if char_at(s, j, '(') && char_at(s, j + 1, ')') {
                    lemma_skip_ws_bounds(s, j + 2);
                    let m = skip_ws(s, j + 2);
                    if char_at(s, m, '{') {
                        lemma_body_closes(s, m + 1);
                        if let Some((_, b)) = body_from(s, m + 1) {
                            lemma_reaches_end(s, b);
                        }
                    }
                }
            }
        }
    }
}

proof fn lemma_decls_last_char(s: Seq<char>, i: int)
    requires
        0 <= i < s.len(),
        !is_ws(s[s.len() - 1]),
        decls_from(s, i).1 == s.len(),
    ensures
        is_ident_char(s[s.len() - 1]) || s[s.len() - 1] == '}',
    decreases s.len() - i,
{
    if let Some((_, j)) = decl_at(s, i) {
        if i < j <= s.len() {
            if j == s.len() {
                lemma_decl_last_char(s, i);
            } else {
                lemma_decls_last_char(s, j);
            }
        }
    }
}

/// The last character of an accepted program, before any whitespace that
/// ends it, closes an identifier or a block: a program never ends with `)`,
/// `"`, `.`, `,`, `/`, `{` or any other character that is neither whitespace,
/// an identifier character nor `}`. So appending such a character to any
/// text, an accepted program included, gives a text that is refused.
pub proof fn lemma_append_rejected(s: Seq<char>, c: char)
    requires
        !is_ws(c),
        !is_ident_char(c),
        c != '}',
    ensures
        program(s.push(c)) is None,
{
    let t = s.push(c);
    assert(t[t.len() - 1] == c);
    if program(t) is Some {
        lemma_skip_ws_bounds(t, 0);
        let i = skip_ws(t, 0);
        if i == t.len() {
            lemma_reaches_end(t, 0);
        }
        lemma_decls_end_bounds(t, i);
        lemma_reaches_end(t, decls_from(t, i).1);
        lemma_decls_last_char(t, i);
    }
}

proof fn lemma_decls_end_bounds(s: Seq<char>, i: int)
    requires
        0 <= i <= s.len(),
    ensures
        i <= decls_from(s, i).1 <= s.len(),
    decreases s.len() - i,
{
    if let Some((_, j)) = decl_at(s, i) {
        if i < j <= s.len() {
            lemma_decls_end_bounds(s, j);
        }
    }
}

} // verus!
