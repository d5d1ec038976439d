//! The expression tree that the lowering pass reads.

use vstd::prelude::*;

use crate::text::{decimal, decimal_chars, join2, same_text};

verus! {

/// A half-open span of source text.
#[derive(Clone, Copy, Debug, PartialEq, Eq, Structural)]
pub struct TokenRange {
    pub start: usize,
    pub end: usize,
}

/// A binary or unary operator.
#[derive(Clone, Copy, Debug, PartialEq, Eq, Structural)]
pub enum Operator {
    Add,
    Sub,
    Mul,
    Div,
    Mod,
    Eq,
    Ne,
    Lt,
    Le,
    Gt,
    Ge,
    And,
    Or,
    Not,
    Neg,
}

/// Whether applying the operator yields a truth value whatever its operands.
pub open spec fn yields_bool(op: Operator) -> bool {
    match op {
        Operator::Add | Operator::Sub | Operator::Mul | Operator::Div | Operator::Mod
        | Operator::Neg => false,
        _ => true,
    }
}

/// Executable form of [`yields_bool`].
pub fn operator_yields_bool(op: Operator) -> (r: bool)
    ensures
        r == yields_bool(op),
{
    match op {
        Operator::Add | Operator::Sub | Operator::Mul | Operator::Div | Operator::Mod
        | Operator::Neg => false,
        _ => true,
    }
}

/// The scope a `&`-reference starts from.
#[derive(Clone, Copy, Debug, PartialEq, Eq, Structural)]
pub enum RefBase {
    Sibling,
    Root,
    Uncle,
    Prev,
    Next,
    Index,
    This,
}

/// One segment of a variable, reference, call or dictionary-key path.
#[derive(Debug, PartialEq, Eq)]
pub enum TokenKey {
    Dummy,
    Index(usize, bool),
    String(String, TokenRange, bool),
    Dynamic(Node, bool),
    Spread(Node),
}

/// A type as written in source.
#[derive(Debug, PartialEq, Eq)]
pub struct TypeNode {
    pub path: Vec<String>,
    pub generics: Vec<TypeNode>,
    pub is_optional: bool,
    pub variant_fields: Option<Vec<(String, TypeNode)>>,
    pub range: TokenRange,
}

/// A call argument, positional when `name` is absent.
#[derive(Debug, PartialEq, Eq)]
pub struct CallArg {
    pub name: Option<String>,
    pub value: Node,
}

/// A closure parameter with its optional type hint.
#[derive(Debug, PartialEq, Eq)]
pub struct ClosureParam {
    pub name: String,
    pub type_hint: Option<TypeNode>,
}

/// One `field: name` binding of a variant pattern; without a name the field is
/// ignored.
#[derive(Debug, PartialEq, Eq)]
pub struct PatternBinding {
    pub field: Option<String>,
    pub binding: Option<String>,
}

/// A `#name` directive attached to a node.
#[derive(Debug, PartialEq, Eq)]
pub struct Directive {
    pub name: String,
    pub range: TokenRange,
}

/// An `@path(args)` decorator attached to a node.
#[derive(Debug, PartialEq, Eq)]
pub struct Decorator {
    pub path: Vec<TokenKey>,
    pub args: Vec<CallArg>,
    pub range: TokenRange,
}

/// An expression with its source span and annotations.
#[derive(Debug, PartialEq, Eq)]
pub struct Node {
    pub expr: Box<Expr>,
    pub range: TokenRange,
    pub directives: Vec<Directive>,
    pub decorators: Vec<Decorator>,
    pub type_hint: Option<TypeNode>,
}

/// An expression. Floating-point literals are carried as their IEEE-754 bits.
#[allow(inconsistent_fields)]
#[derive(Debug, PartialEq, Eq)]
pub enum Expr {
    Bool(bool),
    Int(i64),
    Float(u64),
    String(String),
    List(Vec<Node>),
    Tuple(Vec<Node>),
    Dict(Vec<(TokenKey, Node)>),
    Variable(Vec<TokenKey>),
    Reference { base: RefBase, path: Vec<TokenKey> },
    Match { expr: Node, arms: Vec<(Node, Node)> },
    FString(Vec<Node>),
    Binary(Operator, Node, Node),
    Unary(Operator, Node),
    Ternary { cond: Node, then: Node, els: Node },
    Where { expr: Node, bindings: Node },
    Comprehension { element: Node, id: String, iterable: Node, condition: Option<Node> },
    FnCall { path: Vec<TokenKey>, args: Vec<CallArg> },
    Closure { params: Vec<ClosureParam>, return_type: Option<TypeNode>, body: Node },
    VariantCtor { enum_path: Vec<String>, variant: String, body: Node },
    VariantPattern { enum_path: Vec<String>, variant: String, bindings: Vec<PatternBinding> },
    Type(TypeNode),
    Wildcard,
}

/// Whether a path segment is the plain name `name`.
pub open spec fn key_is(key: TokenKey, name: Seq<char>) -> bool {
    key matches TokenKey::String(s, _, _) && s@ == name
}

/// Executable form of [`key_is`].
pub fn is_key(key: &TokenKey, name: &str) -> (r: bool)
    ensures
        r == key_is(*key, name@),
{
    match key {
        TokenKey::String(s, _, _) => same_text(s.as_str(), name),
        _ => false,
    }
}

/// A text with a question mark behind it when the access is optional.
pub open spec fn with_mark(text: Seq<char>, optional: bool) -> Seq<char> {
    if optional {
        text + "?"@
    } else {
        text
    }
}

/// A path segment as shown in diagnostics.
pub open spec fn key_text(key: TokenKey) -> Seq<char> {
    match key {
        TokenKey::Dummy => "_"@,
        TokenKey::Index(i, optional) => with_mark(decimal_chars(i as nat), optional),
        TokenKey::String(s, _, optional) => with_mark(s@, optional),
        TokenKey::Dynamic(_, optional) => with_mark("<dynamic>"@, optional),
        TokenKey::Spread(_) => "..."@,
    }
}

fn marked(text: &str, optional: bool) -> (r: String)
    ensures
        r@ == with_mark(text@, optional),
{
    if optional {
        join2(text, "?")
    } else {
        text.to_owned()
    }
}

/// Executable form of [`key_text`].
pub fn token_key_display(key: &TokenKey) -> (r: String)
    ensures
        r@ == key_text(*key),
{
    match key {
        TokenKey::Dummy => "_".to_owned(),
        TokenKey::Index(i, optional) => marked(decimal(*i).as_str(), *optional),
        TokenKey::String(s, _, optional) => marked(s.as_str(), *optional),
        TokenKey::Dynamic(_, optional) => marked("<dynamic>", *optional),
        TokenKey::Spread(_) => "...".to_owned(),
    }
}

/// A path as shown in diagnostics: its segments, separated by dots.
pub open spec fn path_text(path: Seq<TokenKey>) -> Seq<char>
    decreases path.len(),
{
    if path.len() == 0 {
        Seq::empty()
    } else if path.len() == 1 {
        key_text(path[0])
    } else {
        path_text(path.drop_last()) + "."@ + key_text(path.last())
    }
}

/// Executable form of [`path_text`].
pub fn path_display(path: &Vec<TokenKey>) -> (r: String)
    ensures
        r@ == path_text(path@),
{
    let mut out: String = String::new();
    let mut i: usize = 0;
    assert(path@.take(0) =~= Seq::empty());
    while i < path.len()
        invariant
            i <= path.len(),
            out@ == path_text(path@.take(i as int)),
        decreases path.len() - i,
    {
        assert(path@.take(i + 1).drop_last() =~= path@.take(i as int));
        assert(path@.take(i + 1).last() == path@[i as int]);
        let shown: String = token_key_display(&path[i]);
        if i > 0 {
            out = out.concat(".").concat(shown.as_str());
        } else {
            out = out.concat(shown.as_str());
            assert(out@ =~= key_text(path@[0]));
        }
        i += 1;
    }
    assert(path@.take(path@.len() as int) =~= path@);
    out
}

/// The name of a path of one plain segment.
pub open spec fn plain_name(path: Seq<TokenKey>) -> Option<Seq<char>> {
    if path.len() == 1 {
        match path[0] {
            TokenKey::String(s, _, _) => Some(s@),
            _ => None,
        }
    } else {
        None
    }
}

/// Executable form of [`plain_name`].
pub fn single_name(path: &Vec<TokenKey>) -> (r: Option<&String>)
    ensures
        match r {
            Some(s) => plain_name(path@) == Some(s@),
            None => plain_name(path@) is None,
        },
{
    if path.len() == 1 {
        match &path[0] {
            TokenKey::String(s, _, _) => Some(s),
            _ => None,
        }
    } else {
        None
    }
}

/// No argument of the call is given by keyword.
pub open spec fn all_positional(args: Seq<CallArg>) -> bool {
    forall|i: int| 0 <= i < args.len() ==> (#[trigger] args[i]).name is None
}

/// Executable form of [`all_positional`].
pub fn positional_only(args: &Vec<CallArg>) -> (r: bool)
    ensures
        r == all_positional(args@),
{
    let mut i: usize = 0;
    while i < args.len()
        invariant
            i <= args.len(),
            forall|k: int| 0 <= k < i ==> (#[trigger] args@[k]).name is None,
        decreases args.len() - i,
    {
        if args[i].name.is_some() {
            assert(args@[i as int].name is Some);
            return false;
        }
        i += 1;
    }
    true
}

/// The name of the form of an expression, for diagnostics.
pub open spec fn expr_kind(expr: Expr) -> Seq<char> {
    match expr {
        Expr::Bool(_) => "Bool"@,
        Expr::Int(_) => "Int"@,
        Expr::Float(_) => "Float"@,
        Expr::String(_) => "String"@,
        Expr::List(_) => "List"@,
        Expr::Tuple(_) => "Tuple"@,
        Expr::Dict(_) => "Dict"@,
        Expr::Variable(_) => "Variable"@,
        Expr::Reference { .. } => "Reference"@,
        Expr::Match { .. } => "Match"@,
        Expr::FString(_) => "FString"@,
        Expr::Binary(_, _, _) => "Binary"@,
        Expr::Unary(_, _) => "Unary"@,
        Expr::Ternary { .. } => "Ternary"@,
        Expr::Where { .. } => "Where"@,
        Expr::Comprehension { .. } => "Comprehension"@,
        Expr::FnCall { .. } => "FnCall"@,
        Expr::Closure { .. } => "Closure"@,
        Expr::VariantCtor { .. } => "VariantCtor"@,
        Expr::VariantPattern { .. } => "VariantPattern"@,
        Expr::Type(_) => "Type"@,
        Expr::Wildcard => "Wildcard"@,
    }
}

/// Executable form of [`expr_kind`].
pub fn expr_kind_name(expr: &Expr) -> (r: &'static str)
    ensures
        r@ == expr_kind(*expr),
{
    match expr {
        Expr::Bool(_) => "Bool",
        Expr::Int(_) => "Int",
        Expr::Float(_) => "Float",
        Expr::String(_) => "String",
        Expr::List(_) => "List",
        Expr::Tuple(_) => "Tuple",
        Expr::Dict(_) => "Dict",
        Expr::Variable(_) => "Variable",
        Expr::Reference { .. } => "Reference",
        Expr::Match { .. } => "Match",
        Expr::FString(_) => "FString",
        Expr::Binary(_, _, _) => "Binary",
        Expr::Unary(_, _) => "Unary",
        Expr::Ternary { .. } => "Ternary",
        Expr::Where { .. } => "Where",
        Expr::Comprehension { .. } => "Comprehension",
        Expr::FnCall { .. } => "FnCall",
        Expr::Closure { .. } => "Closure",
        Expr::VariantCtor { .. } => "VariantCtor",
        Expr::VariantPattern { .. } => "VariantPattern",
        Expr::Type(_) => "Type",
        Expr::Wildcard => "Wildcard",
    }
}

} // verus!
