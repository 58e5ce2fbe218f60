use vstd::prelude::*;

verus! {

/// A node of the syntax tree.
///
/// The parser produces `Import` and `Function` at the top level; a `Function`
/// owns a `Scope` of `FunctionCall`s, each calling a `Chain` of `Ident`s with
/// `String` arguments. `Number` and `Empty` are reserved for later extensions of
/// the language, and `Dot` only separates the names of a chain while it is read:
/// the parser never returns any of these three.
#[derive(Debug)]
pub enum Expression {
    Import(String),
    Ident(String),
    String(String),
    Function(String, Box<Expression>),
    FunctionCall(Box<Expression>, Vec<Expression>),
    Scope(Vec<Expression>),
    Chain(Vec<Expression>),
    Number(i32),
    Empty,
    Dot,
}

/// A call as the grammar reads it: the names of the dotted chain, and the text
/// of each string-literal argument.
pub struct Call {
    pub chain: Seq<Seq<char>>,
    pub args: Seq<Seq<char>>,
}

/// A top-level declaration as the grammar reads it.
pub enum Decl {
    /// The module path, `namespace/entry`.
    Import(Seq<char>),
    /// The function's name and the calls of its body.
    Function(Seq<char>, Seq<Call>),
}

pub open spec fn is_ident_node(e: Expression, name: Seq<char>) -> bool {
    match e {
        Expression::Ident(x) => x@ == name,
        _ => false,
    }
}

pub open spec fn is_string_node(e: Expression, text: Seq<char>) -> bool {
    match e {
        Expression::String(x) => x@ == text,
        _ => false,
    }
}

/// `v` is the list of `Ident` nodes with the names `names`, in order.
pub open spec fn ident_nodes(v: Seq<Expression>, names: Seq<Seq<char>>) -> bool {
    &&& v.len() == names.len()
    &&& forall|i: int| 0 <= i < v.len() ==> is_ident_node(#[trigger] v[i], names[i])
}

/// `v` is the list of `String` nodes with the texts `texts`, in order.
pub open spec fn string_nodes(v: Seq<Expression>, texts: Seq<Seq<char>>) -> bool {
    &&& v.len() == texts.len()
    &&& forall|i: int| 0 <= i < v.len() ==> is_string_node(#[trigger] v[i], texts[i])
}

/// `e` is `FunctionCall(Chain([Ident..]), [String..])` for the call `c`.
pub open spec fn is_call_node(e: Expression, c: Call) -> bool {
    match e {
        Expression::FunctionCall(callee, args) => {
            &&& match *callee {
                Expression::Chain(ids) => ident_nodes(ids@, c.chain),
                _ => false,
            }
            &&& string_nodes(args@, c.args)
        },
        _ => false,
    }
}

pub open spec fn call_nodes(v: Seq<Expression>, cs: Seq<Call>) -> bool {
    &&& v.len() == cs.len()
    &&& forall|i: int| 0 <= i < v.len() ==> is_call_node(#[trigger] v[i], cs[i])
}

/// `e` is the node of the declaration `d`: `Import(path)`, or
/// `Function(name, Scope([calls..]))`.
pub open spec fn is_decl_node(e: Expression, d: Decl) -> bool {
    match d {
        Decl::Import(path) => match e {
            Expression::Import(x) => x@ == path,
            _ => false,
        },
        Decl::Function(name, calls) => match e {
            Expression::Function(x, body) => {
                &&& x@ == name
                &&& match *body {
                    Expression::Scope(v) => call_nodes(v@, calls),
                    _ => false,
                }
            },
            _ => false,
        },
    }
}

/// `v` is the tree of the program whose declarations are `ds`.
pub open spec fn program_nodes(v: Seq<Expression>, ds: Seq<Decl>) -> bool {
    &&& v.len() == ds.len()
    &&& forall|i: int| 0 <= i < v.len() ==> is_decl_node(#[trigger] v[i], ds[i])
}

} // verus!
