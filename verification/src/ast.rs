//! The parts of a parsed source module that the analysis reads.

use vstd::prelude::*;

use crate::text;

verus! {

/// The property of a member access.
#[derive(Debug)]
pub enum MemberProp {
    /// `object.name`
    Ident(String),
    /// `object["name"]`
    Str(String),
    /// Any other form.
    Other,
}

/// The binary operators that are told apart.
#[derive(Clone, Copy, PartialEq, Eq, Structural, Debug)]
pub enum BinaryOp {
    NullishCoalescing,
    LogicalOr,
    Other,
}

/// The unary operators that are told apart.
#[derive(Clone, Copy, PartialEq, Eq, Structural, Debug)]
pub enum UnaryOp {
    Not,
    Other,
}

/// A property in an object literal.
#[derive(Debug)]
pub enum ObjectProp {
    /// `name: value`, the name an identifier or a string.
    KeyValue { name: String, value: Expr },
    /// `name`
    Shorthand(String),
    /// Spreads, methods, computed names.
    Other,
}

/// An expression.
#[allow(inconsistent_fields)]
#[derive(Debug)]
pub enum Expr {
    Ident(String),
    Str(String),
    /// A number, by the bits of its floating-point value.
    Num(u64),
    Bool(bool),
    Null,
    Member { object: Box<Expr>, prop: MemberProp },
    Binary { op: BinaryOp, left: Box<Expr>, right: Box<Expr> },
    Unary { op: UnaryOp, arg: Box<Expr> },
    /// A call. The callee is missing for `super(..)` and `import(..)`.
    Call { callee: Option<Box<Expr>>, args: Vec<Expr> },
    Paren(Box<Expr>),
    TsAs(Box<Expr>),
    TsConstAssertion(Box<Expr>),
    TsSatisfies(Box<Expr>),
    TsNonNull(Box<Expr>),
    Object(Vec<ObjectProp>),
    Array(Vec<Option<Expr>>),
    Other,
}

/// A property in an object pattern.
#[derive(Debug)]
pub enum PatternProp {
    /// `{ name }`, possibly with a default.
    Assign(String),
    /// `{ name: pattern }`
    KeyValue(String),
    /// A rest, or a name that is no identifier.
    Other,
}

/// What a declaration binds.
#[derive(Debug)]
pub enum Pattern {
    Ident(String),
    Object(Vec<PatternProp>),
    Other,
}

/// One `pattern = init` of a variable declaration.
#[derive(Debug)]
pub struct Declarator {
    pub pattern: Pattern,
    pub init: Option<Expr>,
}

/// A statement.
#[derive(Debug)]
pub enum Stmt {
    Expr(Expr),
    Return(Option<Expr>),
    Block(Vec<Stmt>),
    Var(Vec<Declarator>),
    If { test: Expr },
    Other,
}

/// The body of an arrow function.
#[derive(Debug)]
pub enum ArrowBody {
    Block(Vec<Stmt>),
    Expr(Expr),
}

/// A function; a declaration may have no body.
#[derive(Debug)]
pub struct Function {
    pub body: Option<Vec<Stmt>>,
}

/// A name in an export list.
#[derive(Debug)]
pub enum ExportName {
    /// `name`
    Ident(String),
    /// `"name"`
    Str(String),
}

/// One entry of an export list.
#[derive(Debug)]
pub enum ExportSpecifier {
    /// `local`, or `local as exported`.
    Named { local: ExportName, exported: Option<ExportName> },
    /// `* as name`, and the other forms.
    Other,
}

/// An export at the top of a module.
#[derive(Debug)]
pub enum Export {
    /// `export const ...`: what each declaration binds.
    Declaration(Vec<Pattern>),
    /// `export { ... }`, and whether another module is named as the source.
    Named { specifiers: Vec<ExportSpecifier>, has_source: bool },
    /// `export default ...`
    Default(Expr),
    /// Whatever else is exported.
    Other,
}

/// A parsed module: its variable declarations at any depth, each before those
/// inside its initialisers, and its exports.
#[derive(Debug)]
pub struct Module {
    pub declarators: Vec<Declarator>,
    pub exports: Vec<Export>,
}

/// Whether an expression is an identifier of the name.
pub open spec fn is_ident(e: Expr, name: Seq<char>) -> bool {
    e matches Expr::Ident(s) && s@ == name
}

/// Whether a property is an identifier of the name.
pub open spec fn is_prop(p: MemberProp, name: Seq<char>) -> bool {
    p matches MemberProp::Ident(s) && s@ == name
}

/// Whether an expression is `object.prop`.
pub open spec fn is_member(e: Expr, object_name: Seq<char>, prop_name: Seq<char>) -> bool {
    e matches Expr::Member { object, prop } && is_ident(*object, object_name) && is_prop(
        prop,
        prop_name,
    )
}

/// Whether an expression is `object.prop`.
pub fn member_of(e: &Expr, object_name: &str, prop_name: &str) -> (r: bool)
    ensures
        r == is_member(*e, object_name@, prop_name@),
{
    match e {
        Expr::Member { object, prop } => {
            let on_object = match &**object {
                Expr::Ident(s) => text::same_text(s, object_name),
                _ => false,
            };
            let with_prop = match prop {
                MemberProp::Ident(s) => text::same_text(s, prop_name),
                _ => false,
            };
            on_object && with_prop
        },
        _ => false,
    }
}

} // verus!
