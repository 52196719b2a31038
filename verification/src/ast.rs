//! The syntax tree of Trinity programs, and its mathematical model.
//!
//! Every executable type has a view (`@`) into a spec type of the same shape
//! in which strings are character sequences and vectors are sequences.
use vstd::prelude::*;
use crate::text::{push_char, push_str, push_u64, str_eq};

verus! {

/// A byte range of the source text.
#[derive(Debug, Clone, Copy, PartialEq, Eq, Structural)]
pub struct Span {
    pub start: usize,
    pub end: usize,
}

/// A type as written in a program.
#[derive(Debug)]
pub enum Type {
    Void,
    Bool,
    Char,
    I32,
    I64,
    F32,
    F64,
    String,
    Pointer(Box<Type>),
    Array(Box<Type>, Option<usize>),
    Class(String),
    Infer,
}

/// The model of [`Type`].
pub enum SType {
    Void,
    Bool,
    Char,
    I32,
    I64,
    F32,
    F64,
    String,
    Pointer(Box<SType>),
    Array(Box<SType>, Option<usize>),
    Class(Seq<char>),
    Infer,
}

pub open spec fn type_view(t: Type) -> SType
    decreases t,
{
    match t {
        Type::Void => SType::Void,
        Type::Bool => SType::Bool,
        Type::Char => SType::Char,
        Type::I32 => SType::I32,
        Type::I64 => SType::I64,
        Type::F32 => SType::F32,
        Type::F64 => SType::F64,
        Type::String => SType::String,
        Type::Pointer(b) => SType::Pointer(Box::new(type_view(*b))),
        Type::Array(b, n) => SType::Array(Box::new(type_view(*b)), n),
        Type::Class(n) => SType::Class(n@),
        Type::Infer => SType::Infer,
    }
}

impl View for Type {
    type V = SType;

    open spec fn view(&self) -> SType {
        type_view(*self)
    }
}

/// A literal value. A floating-point literal is held as its source text
/// (such as `3.14`); the host reads it as an `f64` where it shows it.
#[derive(Debug)]
pub enum Literal {
    Int(i64),
    Float(String),
    String(String),
    Char(char),
    Bool(bool),
    Null,
}

/// The model of [`Literal`].
pub enum SLiteral {
    Int(i64),
    Float(Seq<char>),
    String(Seq<char>),
    Char(char),
    Bool(bool),
    Null,
}

impl View for Literal {
    type V = SLiteral;

    open spec fn view(&self) -> SLiteral {
        match *self {
            Literal::Int(n) => SLiteral::Int(n),
            Literal::Float(t) => SLiteral::Float(t@),
            Literal::String(s) => SLiteral::String(s@),
            Literal::Char(c) => SLiteral::Char(c),
            Literal::Bool(b) => SLiteral::Bool(b),
            Literal::Null => SLiteral::Null,
        }
    }
}

/// Binary operators.
#[derive(Debug, Clone, Copy, PartialEq, Eq, Structural)]
pub enum BinOp {
    Add,
    Sub,
    Mul,
    Div,
    Mod,
    And,
    Or,
    BitAnd,
    BitOr,
    Xor,
    Shl,
    Shr,
    Eq,
    Neq,
    Lt,
    Gt,
    Le,
    Ge,
    Assign,
}

/// Unary operators.
#[derive(Debug, Clone, Copy, PartialEq, Eq, Structural)]
pub enum UnaryOp {
    Neg,
    Not,
    Deref,
    AddrOf,
}

/// A parameter of a function.
#[derive(Debug)]
pub struct Parameter {
    pub name: String,
    pub ty: Type,
    pub span: Span,
}

/// The model of [`Parameter`].
pub struct SParam {
    pub name: Seq<char>,
    pub ty: SType,
    pub span: Span,
}

impl View for Parameter {
    type V = SParam;

    open spec fn view(&self) -> SParam {
        SParam { name: self.name@, ty: self.ty@, span: self.span }
    }
}

/// A function (or method) declaration.
#[derive(Debug)]
pub struct FunctionDecl {
    pub name: String,
    pub params: Vec<Parameter>,
    pub return_type: Type,
    pub body: Option<Vec<Statement>>,
    pub is_extern: bool,
    pub span: Span,
}

/// The model of [`FunctionDecl`].
pub struct SFunction {
    pub name: Seq<char>,
    pub params: Seq<SParam>,
    pub return_type: SType,
    pub body: Option<Seq<SStmt>>,
    pub is_extern: bool,
    pub span: Span,
}

pub open spec fn params_view(ps: Seq<Parameter>) -> Seq<SParam> {
    ps.map_values(|p: Parameter| p@)
}

impl View for FunctionDecl {
    type V = SFunction;

    open spec fn view(&self) -> SFunction {
        SFunction {
            name: self.name@,
            params: params_view(self.params@),
            return_type: self.return_type@,
            body: match self.body {
                Some(b) => Some(stmts_view(b@)),
                None => None,
            },
            is_extern: self.is_extern,
            span: self.span,
        }
    }
}

/// A field of a class.
#[derive(Debug)]
pub struct FieldDecl {
    pub name: String,
    pub ty: Type,
    pub span: Span,
}

/// The model of [`FieldDecl`].
pub struct SField {
    pub name: Seq<char>,
    pub ty: SType,
    pub span: Span,
}

impl View for FieldDecl {
    type V = SField;

    open spec fn view(&self) -> SField {
        SField { name: self.name@, ty: self.ty@, span: self.span }
    }
}

/// A class declaration.
#[derive(Debug)]
pub struct ClassDecl {
    pub name: String,
    pub bases: Vec<String>,
    pub fields: Vec<FieldDecl>,
    pub methods: Vec<FunctionDecl>,
    pub span: Span,
}

/// The model of [`ClassDecl`].
pub struct SClass {
    pub name: Seq<char>,
    pub bases: Seq<Seq<char>>,
    pub fields: Seq<SField>,
    pub methods: Seq<SFunction>,
    pub span: Span,
}

impl View for ClassDecl {
    type V = SClass;

    open spec fn view(&self) -> SClass {
        SClass {
            name: self.name@,
            bases: self.bases@.map_values(|b: String| b@),
            fields: self.fields@.map_values(|f: FieldDecl| f@),
            methods: self.methods@.map_values(|m: FunctionDecl| m@),
            span: self.span,
        }
    }
}

/// A statement.
#[derive(Debug)]
pub enum Statement {
    Variable(String, Type, Option<Expression>, Span),
    Expression(Expression, Span),
    Block(Vec<Statement>, Span),
    If(Expression, Box<Statement>, Option<Box<Statement>>, Span),
    While(Expression, Box<Statement>, Span),
    For(Box<Statement>, Option<Expression>, Option<Expression>, Box<Statement>, Span),
    ForEach(String, Expression, Box<Statement>, Span),
    Return(Option<Expression>, Span),
    Break(Span),
    Continue(Span),
    Switch(Expression, Vec<(Expression, Vec<Statement>)>, Option<Box<Statement>>, Span),
    Try(Vec<Statement>, Option<String>, Vec<Statement>, Option<Vec<Statement>>, Span),
    Throw(Expression, Span),
}

/// The model of [`Statement`].
pub enum SStmt {
    Variable(Seq<char>, SType, Option<SExpr>, Span),
    Expression(SExpr, Span),
    Block(Seq<SStmt>, Span),
    If(SExpr, Box<SStmt>, Option<Box<SStmt>>, Span),
    While(SExpr, Box<SStmt>, Span),
    For(Box<SStmt>, Option<SExpr>, Option<SExpr>, Box<SStmt>, Span),
    ForEach(Seq<char>, SExpr, Box<SStmt>, Span),
    Return(Option<SExpr>, Span),
    Break(Span),
    Continue(Span),
    Switch(SExpr, Seq<(SExpr, Seq<SStmt>)>, Option<Box<SStmt>>, Span),
    Try(Seq<SStmt>, Option<Seq<char>>, Seq<SStmt>, Option<Seq<SStmt>>, Span),
    Throw(SExpr, Span),
}

/// An expression.
#[derive(Debug)]
pub enum Expression {
    Literal(Literal, Span),
    Identifier(String, Span),
    Binary(Box<Expression>, BinOp, Box<Expression>, Span),
    Unary(UnaryOp, Box<Expression>, Span),
    Ternary(Box<Expression>, Box<Expression>, Box<Expression>, Span),
    Call(String, Vec<Expression>, Span),
    Index(Box<Expression>, Box<Expression>, Span),
    MemberAccess(Box<Expression>, String, Span),
    New(Type, Vec<Expression>, Span),
    NewArray(Type, Vec<Expression>, Span),
    Cast(Type, Box<Expression>, Span),
    SizeOf(Type, Span),
    ArrayLiteral(Vec<Expression>, Span),
    ObjectLiteral(Vec<(String, Expression)>, Span),
    Range(Option<Box<Expression>>, Option<Box<Expression>>, Span),
}

/// The model of [`Expression`].
pub enum SExpr {
    Literal(SLiteral, Span),
    Identifier(Seq<char>, Span),
    Binary(Box<SExpr>, BinOp, Box<SExpr>, Span),
    Unary(UnaryOp, Box<SExpr>, Span),
    Ternary(Box<SExpr>, Box<SExpr>, Box<SExpr>, Span),
    Call(Seq<char>, Seq<SExpr>, Span),
    Index(Box<SExpr>, Box<SExpr>, Span),
    MemberAccess(Box<SExpr>, Seq<char>, Span),
    New(SType, Seq<SExpr>, Span),
    NewArray(SType, Seq<SExpr>, Span),
    Cast(SType, Box<SExpr>, Span),
    SizeOf(SType, Span),
    ArrayLiteral(Seq<SExpr>, Span),
    ObjectLiteral(Seq<(Seq<char>, SExpr)>, Span),
    Range(Option<Box<SExpr>>, Option<Box<SExpr>>, Span),
}

pub open spec fn expr_view(e: Expression) -> SExpr
    decreases e, 0int,
{
    match e {
        Expression::Literal(l, sp) => SExpr::Literal(l@, sp),
        Expression::Identifier(n, sp) => SExpr::Identifier(n@, sp),
        Expression::Binary(l, op, r, sp) => SExpr::Binary(
            Box::new(expr_view(*l)),
            op,
            Box::new(expr_view(*r)),
            sp,
        ),
        Expression::Unary(op, x, sp) => SExpr::Unary(op, Box::new(expr_view(*x)), sp),
        Expression::Ternary(a, b, c, sp) => SExpr::Ternary(
            Box::new(expr_view(*a)),
            Box::new(expr_view(*b)),
            Box::new(expr_view(*c)),
            sp,
        ),
        Expression::Call(n, args, sp) => SExpr::Call(n@, exprs_view(args@), sp),
        Expression::Index(a, b, sp) => SExpr::Index(
            Box::new(expr_view(*a)),
            Box::new(expr_view(*b)),
            sp,
        ),
        Expression::MemberAccess(a, m, sp) => SExpr::MemberAccess(
            Box::new(expr_view(*a)),
            m@,
            sp,
        ),
        Expression::New(t, args, sp) => SExpr::New(t@, exprs_view(args@), sp),
        Expression::NewArray(t, args, sp) => SExpr::NewArray(t@, exprs_view(args@), sp),
        Expression::Cast(t, x, sp) => SExpr::Cast(t@, Box::new(expr_view(*x)), sp),
        Expression::SizeOf(t, sp) => SExpr::SizeOf(t@, sp),
        Expression::ArrayLiteral(xs, sp) => SExpr::ArrayLiteral(exprs_view(xs@), sp),
        Expression::ObjectLiteral(fs, sp) => SExpr::ObjectLiteral(fields_view(fs@), sp),
        Expression::Range(a, b, sp) => SExpr::Range(
            match a {
                Some(x) => Some(Box::new(expr_view(*x))),
                None => None,
            },
            match b {
                Some(x) => Some(Box::new(expr_view(*x))),
                None => None,
            },
            sp,
        ),
    }
}

pub open spec fn exprs_view(xs: Seq<Expression>) -> Seq<SExpr>
    decreases xs, 1int,
{
    if xs.len() == 0 {
        Seq::empty()
    } else {
        exprs_view(xs.subrange(0, xs.len() - 1)).push(expr_view(xs[xs.len() - 1]))
    }
}

pub open spec fn fields_view(xs: Seq<(String, Expression)>) -> Seq<(Seq<char>, SExpr)>
    decreases xs, 1int,
{
    if xs.len() == 0 {
        Seq::empty()
    } else {
        fields_view(xs.subrange(0, xs.len() - 1)).push(
            (xs[xs.len() - 1].0@, expr_view(xs[xs.len() - 1].1)),
        )
    }
}

impl View for Expression {
    type V = SExpr;

    open spec fn view(&self) -> SExpr {
        expr_view(*self)
    }
}

pub open spec fn opt_expr_view(e: Option<Expression>) -> Option<SExpr> {
    match e {
        Some(x) => Some(expr_view(x)),
        None => None,
    }
}

pub open spec fn stmt_view(s: Statement) -> SStmt
    decreases s, 0int,
{
    match s {
        Statement::Variable(n, t, init, sp) => SStmt::Variable(n@, t@, opt_expr_view(init), sp),
        Statement::Expression(e, sp) => SStmt::Expression(e@, sp),
        Statement::Block(b, sp) => SStmt::Block(stmts_view(b@), sp),
        Statement::If(c, t, e, sp) => SStmt::If(
            c@,
            Box::new(stmt_view(*t)),
            match e {
                Some(x) => Some(Box::new(stmt_view(*x))),
                None => None,
            },
            sp,
        ),
        Statement::While(c, b, sp) => SStmt::While(c@, Box::new(stmt_view(*b)), sp),
        Statement::For(i, c, inc, b, sp) => SStmt::For(
            Box::new(stmt_view(*i)),
            opt_expr_view(c),
            opt_expr_view(inc),
            Box::new(stmt_view(*b)),
            sp,
        ),
        Statement::ForEach(n, e, b, sp) => SStmt::ForEach(n@, e@, Box::new(stmt_view(*b)), sp),
        Statement::Return(e, sp) => SStmt::Return(opt_expr_view(e), sp),
        Statement::Break(sp) => SStmt::Break(sp),
        Statement::Continue(sp) => SStmt::Continue(sp),
        Statement::Switch(e, cases, d, sp) => SStmt::Switch(
            e@,
            cases_view(cases@),
            match d {
                Some(x) => Some(Box::new(stmt_view(*x))),
                None => None,
            },
            sp,
        ),
        Statement::Try(b, n, c, f, sp) => SStmt::Try(
            stmts_view(b@),
            match n {
                Some(x) => Some(x@),
                None => None,
            },
            stmts_view(c@),
            match f {
                Some(x) => Some(stmts_view(x@)),
                None => None,
            },
            sp,
        ),
        Statement::Throw(e, sp) => SStmt::Throw(e@, sp),
    }
}

pub open spec fn stmts_view(xs: Seq<Statement>) -> Seq<SStmt>
    decreases xs, 1int,
{
    if xs.len() == 0 {
        Seq::empty()
    } else {
        stmts_view(xs.subrange(0, xs.len() - 1)).push(stmt_view(xs[xs.len() - 1]))
    }
}

pub open spec fn cases_view(xs: Seq<(Expression, Vec<Statement>)>) -> Seq<(SExpr, Seq<SStmt>)>
    decreases xs, 1int,
{
    if xs.len() == 0 {
        Seq::empty()
    } else {
        cases_view(xs.subrange(0, xs.len() - 1)).push(
            (xs[xs.len() - 1].0@, stmts_view(xs[xs.len() - 1].1@)),
        )
    }
}

impl View for Statement {
    type V = SStmt;

    open spec fn view(&self) -> SStmt {
        stmt_view(*self)
    }
}

/// A top-level declaration.
#[derive(Debug)]
pub enum Declaration {
    Function(FunctionDecl),
    Class(ClassDecl),
    Variable(String, Type, Option<Expression>),
}

/// The model of [`Declaration`].
pub enum SDecl {
    Function(SFunction),
    Class(SClass),
    Variable(Seq<char>, SType, Option<SExpr>),
}

impl View for Declaration {
    type V = SDecl;

    open spec fn view(&self) -> SDecl {
        match *self {
            Declaration::Function(f) => SDecl::Function(f@),
            Declaration::Class(c) => SDecl::Class(c@),
            Declaration::Variable(n, t, e) => SDecl::Variable(n@, t@, opt_expr_view(e)),
        }
    }
}

/// A parsed source file.
#[derive(Debug)]
pub struct Module {
    pub name: String,
    pub imports: Vec<String>,
    pub declarations: Vec<Declaration>,
    pub span: Span,
}

/// The model of [`Module`].
pub struct SModule {
    pub name: Seq<char>,
    pub imports: Seq<Seq<char>>,
    pub declarations: Seq<SDecl>,
    pub span: Span,
}

impl View for Module {
    type V = SModule;

    open spec fn view(&self) -> SModule {
        SModule {
            name: self.name@,
            imports: self.imports@.map_values(|s: String| s@),
            declarations: self.declarations@.map_values(|d: Declaration| d@),
            span: self.span,
        }
    }
}


/// The type that a type name denotes: the built-in names (with their
/// aliases) give the built-in types, every other name a class.
pub open spec fn spec_str_to_type(s: Seq<char>) -> SType {
    if s == "void"@ {
        SType::Void
    } else if s == "bool"@ {
        SType::Bool
    } else if s == "char"@ {
        SType::Char
    } else if s == "int"@ || s == "i32"@ {
        SType::I32
    } else if s == "i64"@ || s == "long"@ {
        SType::I64
    } else if s == "float"@ || s == "f32"@ {
        SType::F32
    } else if s == "f64"@ || s == "double"@ {
        SType::F64
    } else if s == "string"@ || s == "String"@ {
        SType::String
    } else if s == "auto"@ || s == "var"@ {
        SType::Infer
    } else {
        SType::Class(s)
    }
}

/// The text of a type: `int` for `I32`, `*T` for a pointer, `T[n]` or `T[]`
/// for an array, the class name for a class and `auto` for `Infer`.
pub open spec fn type_text(t: SType) -> Seq<char>
    decreases t,
{
    match t {
        SType::Void => "void"@,
        SType::Bool => "bool"@,
        SType::Char => "char"@,
        SType::I32 => "int"@,
        SType::I64 => "i64"@,
        SType::F32 => "f32"@,
        SType::F64 => "f64"@,
        SType::String => "string"@,
        SType::Pointer(b) => "*"@ + type_text(*b),
        SType::Array(b, Some(n)) => type_text(*b) + "["@ + crate::text::digits(n as nat) + "]"@,
        SType::Array(b, None) => type_text(*b) + "[]"@,
        SType::Class(n) => n,
        SType::Infer => "auto"@,
    }
}

/// Maps a type name to the type it denotes.
pub fn str_to_type(s: &str) -> (t: Type)
    ensures
        t@ == spec_str_to_type(s@),
{
    if str_eq(s, "void") {
        Type::Void
    } else if str_eq(s, "bool") {
        Type::Bool
    } else if str_eq(s, "char") {
        Type::Char
    } else if str_eq(s, "int") || str_eq(s, "i32") {
        Type::I32
    } else if str_eq(s, "i64") || str_eq(s, "long") {
        Type::I64
    } else if str_eq(s, "float") || str_eq(s, "f32") {
        Type::F32
    } else if str_eq(s, "f64") || str_eq(s, "double") {
        Type::F64
    } else if str_eq(s, "string") || str_eq(s, "String") {
        Type::String
    } else if str_eq(s, "auto") || str_eq(s, "var") {
        Type::Infer
    } else {
        Type::Class(s.to_owned())
    }
}

impl Type {
    /// Appends the text of this type to `out`.
    pub fn push_text(&self, out: &mut String)
        ensures
            final(out)@ == old(out)@ + type_text(self@),
        decreases self,
    {
        match self {
            Type::Void => push_str(out, "void"),
            Type::Bool => push_str(out, "bool"),
            Type::Char => push_str(out, "char"),
            Type::I32 => push_str(out, "int"),
            Type::I64 => push_str(out, "i64"),
            Type::F32 => push_str(out, "f32"),
            Type::F64 => push_str(out, "f64"),
            Type::String => push_str(out, "string"),
            Type::Pointer(b) => {
                push_str(out, "*");
                b.push_text(out);
                assert(final(out)@ =~= old(out)@ + type_text(self@));
            },
            Type::Array(b, Some(n)) => {
                b.push_text(out);
                push_str(out, "[");
                push_u64(out, *n as u64);
                push_str(out, "]");
                assert(final(out)@ =~= old(out)@ + type_text(self@));
            },
            Type::Array(b, None) => {
                b.push_text(out);
                push_str(out, "[]");
                assert(final(out)@ =~= old(out)@ + type_text(self@));
            },
            Type::Class(n) => push_str(out, n.as_str()),
            Type::Infer => push_str(out, "auto"),
        }
    }

    /// The text of this type, as a program would write it.
    pub fn to_text(&self) -> (r: String)
        ensures
            r@ == type_text(self@),
    {
        let mut out = String::new();
        self.push_text(&mut out);
        assert(out@ =~= type_text(self@));
        out
    }
}

/// Naming a type twice changes nothing: the text of the type that a name
/// denotes names that same type again.
pub proof fn lemma_type_name_normal(s: Seq<char>)
    ensures
        spec_str_to_type(type_text(spec_str_to_type(s))) == spec_str_to_type(s),
{
    reveal_strlit("void");
    reveal_strlit("bool");
    reveal_strlit("char");
    reveal_strlit("int");
    reveal_strlit("i32");
    reveal_strlit("i64");
    reveal_strlit("long");
    reveal_strlit("float");
    reveal_strlit("f32");
    reveal_strlit("f64");
    reveal_strlit("double");
    reveal_strlit("string");
    reveal_strlit("String");
    reveal_strlit("auto");
    reveal_strlit("var");
    let names = seq![
        "void"@, "bool"@, "char"@, "int"@, "i32"@, "i64"@, "long"@, "float"@, "f32"@,
        "f64"@, "double"@, "string"@, "String"@, "auto"@, "var"@,
    ];
    assert forall|i: int, j: int| 0 <= i < j < names.len() implies names[i] != names[j] by {
        let a = names[i];
        let b = names[j];
        if a.len() == b.len() {
            if a[0] != b[0] {
            } else if a[1] != b[1] {
            } else {
                assert(a[2] != b[2]);
            }
        }
    }
    assert(names[0] == "void"@ && names[1] == "bool"@ && names[2] == "char"@ && names[3]
        == "int"@ && names[4] == "i32"@ && names[5] == "i64"@ && names[6] == "long"@ && names[7]
        == "float"@ && names[8] == "f32"@ && names[9] == "f64"@ && names[10] == "double"@
        && names[11] == "string"@ && names[12] == "String"@ && names[13] == "auto"@ && names[14]
        == "var"@);
}


// ---------------------------------------------------------------------
// Copies
// ---------------------------------------------------------------------

impl Type {
    /// A copy of this type.
    pub fn copy(&self) -> (r: Type)
        ensures
            r@ == self@,
        decreases self,
    {
        match self {
            Type::Void => Type::Void,
            Type::Bool => Type::Bool,
            Type::Char => Type::Char,
            Type::I32 => Type::I32,
            Type::I64 => Type::I64,
            Type::F32 => Type::F32,
            Type::F64 => Type::F64,
            Type::String => Type::String,
            Type::Pointer(b) => Type::Pointer(Box::new(b.copy())),
            Type::Array(b, n) => Type::Array(Box::new(b.copy()), *n),
            Type::Class(n) => Type::Class(n.clone()),
            Type::Infer => Type::Infer,
        }
    }
}

impl Literal {
    /// A copy of this literal.
    pub fn copy(&self) -> (r: Literal)
        ensures
            r@ == self@,
    {
        match self {
            Literal::Int(n) => Literal::Int(*n),
            Literal::Float(t) => Literal::Float(t.clone()),
            Literal::String(s) => Literal::String(s.clone()),
            Literal::Char(c) => Literal::Char(*c),
            Literal::Bool(b) => Literal::Bool(*b),
            Literal::Null => Literal::Null,
        }
    }
}

impl Parameter {
    /// A copy of this parameter.
    pub fn copy(&self) -> (r: Parameter)
        ensures
            r@ == self@,
    {
        Parameter { name: self.name.clone(), ty: self.ty.copy(), span: self.span }
    }
}

impl Expression {
    /// A copy of this expression.
    pub fn copy(&self) -> (r: Expression)
        ensures
            r@ == self@,
        decreases self, 0int,
    {
        match self {
            Expression::Literal(l, sp) => Expression::Literal(l.copy(), *sp),
            Expression::Identifier(n, sp) => Expression::Identifier(n.clone(), *sp),
            Expression::Binary(l, op, r, sp) => Expression::Binary(
                Box::new(l.copy()),
                *op,
                Box::new(r.copy()),
                *sp,
            ),
            Expression::Unary(op, x, sp) => Expression::Unary(*op, Box::new(x.copy()), *sp),
            Expression::Ternary(a, b, c, sp) => Expression::Ternary(
                Box::new(a.copy()),
                Box::new(b.copy()),
                Box::new(c.copy()),
                *sp,
            ),
            Expression::Call(n, args, sp) => Expression::Call(n.clone(), copy_exprs(args), *sp),
            Expression::Index(a, b, sp) => Expression::Index(
                Box::new(a.copy()),
                Box::new(b.copy()),
                *sp,
            ),
            Expression::MemberAccess(a, m, sp) => Expression::MemberAccess(
                Box::new(a.copy()),
                m.clone(),
                *sp,
            ),
            Expression::New(t, args, sp) => Expression::New(t.copy(), copy_exprs(args), *sp),
            Expression::NewArray(t, args, sp) => Expression::NewArray(t.copy(), copy_exprs(args), *sp),
            Expression::Cast(t, x, sp) => Expression::Cast(t.copy(), Box::new(x.copy()), *sp),
            Expression::SizeOf(t, sp) => Expression::SizeOf(t.copy(), *sp),
            Expression::ArrayLiteral(xs, sp) => Expression::ArrayLiteral(copy_exprs(xs), *sp),
            Expression::ObjectLiteral(fs, sp) => Expression::ObjectLiteral(copy_fields(fs), *sp),
            Expression::Range(a, b, sp) => Expression::Range(
                match a {
                    Some(x) => Some(Box::new(x.copy())),
                    None => None,
                },
                match b {
                    Some(x) => Some(Box::new(x.copy())),
                    None => None,
                },
                *sp,
            ),
        }
    }
}

fn copy_exprs(v: &Vec<Expression>) -> (r: Vec<Expression>)
    ensures
        exprs_view(r@) == exprs_view(v@),
    decreases v, 1int,
{
    let mut r: Vec<Expression> = Vec::new();
    let mut i: usize = 0;
    assert(exprs_view(r@) =~= exprs_view(v@.take(0)));
    while i < v.len()
        invariant
            i <= v.len(),
            exprs_view(r@) == exprs_view(v@.take(i as int)),
        decreases v.len() - i,
    {
        let e = v[i].copy();
        let ghost before = r@;
        r.push(e);
        i += 1;
        assert(r@.subrange(0, r@.len() - 1) =~= before);
        assert(v@.take(i as int).subrange(0, i - 1) =~= v@.take(i - 1));
    }
    assert(v@.take(v.len() as int) =~= v@);
    r
}

fn copy_fields(v: &Vec<(String, Expression)>) -> (r: Vec<(String, Expression)>)
    ensures
        fields_view(r@) == fields_view(v@),
    decreases v, 1int,
{
    let mut r: Vec<(String, Expression)> = Vec::new();
    let mut i: usize = 0;
    assert(fields_view(r@) =~= fields_view(v@.take(0)));
    while i < v.len()
        invariant
            i <= v.len(),
            fields_view(r@) == fields_view(v@.take(i as int)),
        decreases v.len() - i,
    {
        let e = (v[i].0.clone(), v[i].1.copy());
        let ghost before = r@;
        r.push(e);
        i += 1;
        assert(r@.subrange(0, r@.len() - 1) =~= before);
        assert(v@.take(i as int).subrange(0, i - 1) =~= v@.take(i - 1));
    }
    assert(v@.take(v.len() as int) =~= v@);
    r
}

fn copy_opt_expr(e: &Option<Expression>) -> (r: Option<Expression>)
    ensures
        opt_expr_view(r) == opt_expr_view(*e),
{
    match e {
        Some(x) => Some(x.copy()),
        None => None,
    }
}

impl Statement {
    /// A copy of this statement.
    pub fn copy(&self) -> (r: Statement)
        ensures
            r@ == self@,
        decreases self, 0int,
    {
        match self {
            Statement::Variable(n, t, init, sp) => Statement::Variable(
                n.clone(),
                t.copy(),
                copy_opt_expr(init),
                *sp,
            ),
            Statement::Expression(e, sp) => Statement::Expression(e.copy(), *sp),
            Statement::Block(b, sp) => Statement::Block(copy_stmts(b), *sp),
            Statement::If(c, t, e, sp) => Statement::If(
                c.copy(),
                Box::new(t.copy()),
                match e {
                    Some(x) => Some(Box::new(x.copy())),
                    None => None,
                },
                *sp,
            ),
            Statement::While(c, b, sp) => Statement::While(c.copy(), Box::new(b.copy()), *sp),
            Statement::For(i, c, inc, b, sp) => Statement::For(
                Box::new(i.copy()),
                copy_opt_expr(c),
                copy_opt_expr(inc),
                Box::new(b.copy()),
                *sp,
            ),
            Statement::ForEach(n, e, b, sp) => Statement::ForEach(
                n.clone(),
                e.copy(),
                Box::new(b.copy()),
                *sp,
            ),
            Statement::Return(e, sp) => Statement::Return(copy_opt_expr(e), *sp),
            Statement::Break(sp) => Statement::Break(*sp),
            Statement::Continue(sp) => Statement::Continue(*sp),
            Statement::Switch(e, cases, d, sp) => Statement::Switch(
                e.copy(),
                copy_cases(cases),
                match d {
                    Some(x) => Some(Box::new(x.copy())),
                    None => None,
                },
                *sp,
            ),
            Statement::Try(b, n, c, f, sp) => Statement::Try(
                copy_stmts(b),
                match n {
                    Some(x) => Some(x.clone()),
                    None => None,
                },
                copy_stmts(c),
                match f {
                    Some(x) => Some(copy_stmts(x)),
                    None => None,
                },
                *sp,
            ),
            Statement::Throw(e, sp) => Statement::Throw(e.copy(), *sp),
        }
    }
}

/// A copy of a list of statements.
pub fn copy_stmts(v: &Vec<Statement>) -> (r: Vec<Statement>)
    ensures
        stmts_view(r@) == stmts_view(v@),
    decreases v, 1int,
{
    let mut r: Vec<Statement> = Vec::new();
    let mut i: usize = 0;
    assert(stmts_view(r@) =~= stmts_view(v@.take(0)));
    while i < v.len()
        invariant
            i <= v.len(),
            stmts_view(r@) == stmts_view(v@.take(i as int)),
        decreases v.len() - i,
    {
        let e = v[i].copy();
        let ghost before = r@;
        r.push(e);
        i += 1;
        assert(r@.subrange(0, r@.len() - 1) =~= before);
        assert(v@.take(i as int).subrange(0, i - 1) =~= v@.take(i - 1));
    }
    assert(v@.take(v.len() as int) =~= v@);
    r
}

fn copy_cases(v: &Vec<(Expression, Vec<Statement>)>) -> (r: Vec<(Expression, Vec<Statement>)>)
    ensures
        cases_view(r@) == cases_view(v@),
    decreases v, 1int,
{
    let mut r: Vec<(Expression, Vec<Statement>)> = Vec::new();
    let mut i: usize = 0;
    assert(cases_view(r@) =~= cases_view(v@.take(0)));
    while i < v.len()
        invariant
            i <= v.len(),
            cases_view(r@) == cases_view(v@.take(i as int)),
        decreases v.len() - i,
    {
        let e = (v[i].0.copy(), copy_stmts(&v[i].1));
        let ghost before = r@;
        r.push(e);
        i += 1;
        assert(r@.subrange(0, r@.len() - 1) =~= before);
        assert(v@.take(i as int).subrange(0, i - 1) =~= v@.take(i - 1));
    }
    assert(v@.take(v.len() as int) =~= v@);
    r
}

impl FunctionDecl {
    /// A copy of this function.
    pub fn copy(&self) -> (r: FunctionDecl)
        ensures
            r@ == self@,
    {
        let mut params: Vec<Parameter> = Vec::new();
        let mut i: usize = 0;
        while i < self.params.len()
            invariant
                i <= self.params.len(),
                params@.len() == i,
                forall|k: int| 0 <= k < i ==> (#[trigger] params@[k])@ == self.params@[k]@,
            decreases self.params.len() - i,
        {
            params.push(self.params[i].copy());
            i += 1;
        }
        assert(params_view(params@) =~= params_view(self.params@));
        FunctionDecl {
            name: self.name.clone(),
            params,
            return_type: self.return_type.copy(),
            body: match &self.body {
                Some(b) => Some(copy_stmts(b)),
                None => None,
            },
            is_extern: self.is_extern,
            span: self.span,
        }
    }
}


/// The model of a list of expressions has the models of its elements.
pub proof fn lemma_exprs_view(v: Seq<Expression>)
    ensures
        exprs_view(v).len() == v.len(),
        forall|i: int| 0 <= i < v.len() ==> #[trigger] exprs_view(v)[i] == v[i]@,
    decreases v.len(),
{
    if v.len() > 0 {
        lemma_exprs_view(v.subrange(0, v.len() - 1));
    }
}

/// The model of a list of statements has the models of its elements.
pub proof fn lemma_stmts_view(v: Seq<Statement>)
    ensures
        stmts_view(v).len() == v.len(),
        forall|i: int| 0 <= i < v.len() ==> #[trigger] stmts_view(v)[i] == v[i]@,
    decreases v.len(),
{
    if v.len() > 0 {
        lemma_stmts_view(v.subrange(0, v.len() - 1));
    }
}


impl FieldDecl {
    /// A copy of this field.
    pub fn copy(&self) -> (r: FieldDecl)
        ensures
            r@ == self@,
    {
        FieldDecl { name: self.name.clone(), ty: self.ty.copy(), span: self.span }
    }
}

impl ClassDecl {
    /// A copy of this class.
    pub fn copy(&self) -> (r: ClassDecl)
        ensures
            r@ == self@,
    {
        let mut bases: Vec<String> = Vec::new();
        let mut i: usize = 0;
        while i < self.bases.len()
            invariant
                i <= self.bases.len(),
                bases@.len() == i,
                forall|k: int| 0 <= k < i ==> (#[trigger] bases@[k])@ == self.bases@[k]@,
            decreases self.bases.len() - i,
        {
            bases.push(self.bases[i].clone());
            i += 1;
        }
        let mut fields: Vec<FieldDecl> = Vec::new();
        let mut i: usize = 0;
        while i < self.fields.len()
            invariant
                i <= self.fields.len(),
                fields@.len() == i,
                forall|k: int| 0 <= k < i ==> (#[trigger] fields@[k])@ == self.fields@[k]@,
            decreases self.fields.len() - i,
        {
            fields.push(self.fields[i].copy());
            i += 1;
        }
        let mut methods: Vec<FunctionDecl> = Vec::new();
        let mut i: usize = 0;
        while i < self.methods.len()
            invariant
                i <= self.methods.len(),
                methods@.len() == i,
                forall|k: int| 0 <= k < i ==> (#[trigger] methods@[k])@ == self.methods@[k]@,
            decreases self.methods.len() - i,
        {
            methods.push(self.methods[i].copy());
            i += 1;
        }
        let r = ClassDecl { name: self.name.clone(), bases, fields, methods, span: self.span };
        assert(r@.bases =~= self@.bases);
        assert(r@.fields =~= self@.fields);
        assert(r@.methods =~= self@.methods);
        r
    }
}

} // verus!
