//! The parser: tokens to a syntax tree.
//!
//! The grammar is read the way the recursive-descent procedures below read
//! it, recovery included: a statement that cannot be read is dropped, and
//! most constructs skip to their `;` or closing token. Positions never pass
//! the end of the token list. Binary operators group to the left, `* / %`
//! binding tightest, then `+ -`, the comparisons, `&&`, `||`, and `=`
//! loosest, which groups to the right. At the top level `import` lines,
//! classes (with their fields and methods) and functions are read.
use vstd::prelude::*;
use crate::ast::{str_to_type, BinOp, Expression, FunctionDecl, Parameter, SExpr, SFunction, SLiteral, SParam, SStmt, SType, Span, Statement, Literal, Module, Declaration, ClassDecl, SModule, SDecl, SClass, SField, FieldDecl, Type};
use crate::lexer::{SToken, Token};
use crate::text::{push_char, push_str};

verus! {

pub open spec fn zero_span() -> Span {
    Span { start: 0, end: 0 }
}

/// The token at `p`, if there is one.
pub open spec fn tok_at(ts: Seq<(SToken, Span)>, p: int) -> Option<SToken> {
    if 0 <= p < ts.len() {
        Some(ts[p].0)
    } else {
        None
    }
}

/// Whether the token at `p` is the plain token `t`.
pub open spec fn is_at(ts: Seq<(SToken, Span)>, p: int, t: Token) -> bool {
    tok_at(ts, p) == Some(SToken::Plain(t))
}

/// Whether the token at `p` is an identifier.
pub open spec fn ident_at(ts: Seq<(SToken, Span)>, p: int) -> bool {
    tok_at(ts, p) matches Some(SToken::Identifier(_))
}

/// The name of the identifier at `p`.
pub open spec fn ident_name(ts: Seq<(SToken, Span)>, p: int) -> Seq<char> {
    match tok_at(ts, p) {
        Some(SToken::Identifier(n)) => n,
        _ => Seq::empty(),
    }
}

/// The position after reading one token at `p` (the end stays the end).
pub open spec fn adv(ts: Seq<(SToken, Span)>, p: int) -> int {
    if p < ts.len() {
        p + 1
    } else {
        p
    }
}

/// The first position at or after `p` that holds the plain token `t`, or the
/// end.
pub open spec fn skip_to(ts: Seq<(SToken, Span)>, p: int, t: Token) -> int
    decreases ts.len() - p,
{
    if 0 <= p < ts.len() && !is_at(ts, p, t) {
        skip_to(ts, p + 1, t)
    } else {
        p
    }
}

/// The operand that a literal or identifier token starts.
pub open spec fn primary(t: SToken, sp: Span) -> Option<SExpr> {
    match t {
        SToken::Plain(Token::IntLit(n)) => Some(SExpr::Literal(SLiteral::Int(n), sp)),
        SToken::StringLit(s) => Some(SExpr::Literal(SLiteral::String(s), sp)),
        SToken::FloatLit(t) => Some(SExpr::Literal(SLiteral::Float(t), sp)),
        SToken::Plain(Token::True) => Some(SExpr::Literal(SLiteral::Bool(true), sp)),
        SToken::Plain(Token::False) => Some(SExpr::Literal(SLiteral::Bool(false), sp)),
        SToken::Identifier(n) => Some(SExpr::Identifier(n, sp)),
        _ => None,
    }
}

/// The binary operator that the token at `p` stands for.
pub open spec fn binop_at(ts: Seq<(SToken, Span)>, p: int) -> Option<BinOp> {
    if is_at(ts, p, Token::Plus) {
        Some(BinOp::Add)
    } else if is_at(ts, p, Token::Minus) {
        Some(BinOp::Sub)
    } else if is_at(ts, p, Token::Star) {
        Some(BinOp::Mul)
    } else if is_at(ts, p, Token::Slash) {
        Some(BinOp::Div)
    } else if is_at(ts, p, Token::Percent) {
        Some(BinOp::Mod)
    } else if is_at(ts, p, Token::EqEq) {
        Some(BinOp::Eq)
    } else if is_at(ts, p, Token::NotEq) {
        Some(BinOp::Neq)
    } else if is_at(ts, p, Token::Lt) {
        Some(BinOp::Lt)
    } else if is_at(ts, p, Token::Gt) {
        Some(BinOp::Gt)
    } else if is_at(ts, p, Token::LtEq) {
        Some(BinOp::Le)
    } else if is_at(ts, p, Token::GtEq) {
        Some(BinOp::Ge)
    } else if is_at(ts, p, Token::AndAnd) {
        Some(BinOp::And)
    } else if is_at(ts, p, Token::OrOr) {
        Some(BinOp::Or)
    } else if is_at(ts, p, Token::Equals) {
        Some(BinOp::Assign)
    } else {
        None
    }
}

/// How tightly an operator binds: `=` loosest, then `||`, `&&`, the
/// comparisons, `+ -`, and `* / %` tightest.
pub open spec fn prec(op: BinOp) -> int {
    match op {
        BinOp::Assign => 1,
        BinOp::Or => 2,
        BinOp::And => 3,
        BinOp::Eq | BinOp::Neq | BinOp::Lt | BinOp::Gt | BinOp::Le | BinOp::Ge => 4,
        BinOp::Add | BinOp::Sub => 5,
        _ => 6,
    }
}

/// The loosest operator that the right operand of `op` may hold: one
/// tighter than `op` itself, so that operators group to the left; for `=`
/// its own, so that `=` groups to the right.
pub open spec fn rhs_min(op: BinOp) -> int {
    if op == BinOp::Assign {
        1
    } else {
        prec(op) + 1
    }
}

/// The name of a call whose callee is `e`: `e.m` when `e` is an identifier
/// and the call goes through `.m`, `m` for any other callee of `.m`.
pub open spec fn member_call_name(e: SExpr, member: Seq<char>) -> Seq<char> {
    match e {
        SExpr::Identifier(n, _) => n + "."@ + member,
        _ => member,
    }
}

/// The name of a call `e(...)`: the identifier, or empty.
pub open spec fn call_name(e: SExpr) -> Seq<char> {
    match e {
        SExpr::Identifier(n, _) => n,
        _ => Seq::empty(),
    }
}

/// An operand from `p`: a literal or identifier, then any number of
/// `.member`, `.method(args)` and `(args)` suffixes.
pub open spec fn p_operand(ts: Seq<(SToken, Span)>, p: int) -> (Option<SExpr>, int)
    decreases ts.len() - p, 0int,
{
    if !(0 <= p < ts.len()) {
        (None, p)
    } else {
        match primary(ts[p].0, ts[p].1) {
            None => (None, p + 1),
            Some(e) => p_tail(ts, p + 1, e, ts[p].1),
        }
    }
}

/// The suffixes of an expression `e` (whose first token had span `sp`).
pub open spec fn p_tail(ts: Seq<(SToken, Span)>, p: int, e: SExpr, sp: Span) -> (
    Option<SExpr>,
    int,
)
    decreases ts.len() - p, 0int,
{
    if !(0 <= p < ts.len()) {
        (Some(e), p)
    } else if is_at(ts, p, Token::Dot) {
        if ident_at(ts, p + 1) {
            let member = ident_name(ts, p + 1);
            if is_at(ts, p + 2, Token::LParen) {
                let (args, q) = p_args(ts, p + 3, Seq::empty());
                let q2 = adv(ts, q);
                if !(p < q2 <= ts.len()) {
                    (None, q2)
                } else {
                    p_tail(ts, q2, SExpr::Call(member_call_name(e, member), args, sp), sp)
                }
            } else {
                p_tail(ts, p + 2, SExpr::MemberAccess(Box::new(e), member, sp), sp)
            }
        } else {
            p_tail(ts, adv(ts, p + 1), e, sp)
        }
    } else if is_at(ts, p, Token::LParen) {
        let (args, q) = p_args(ts, p + 1, Seq::empty());
        let q2 = adv(ts, q);
        if !(p < q2 <= ts.len()) {
            (None, q2)
        } else {
            p_tail(ts, q2, SExpr::Call(call_name(e), args, sp), sp)
        }
    } else {
        (Some(e), p)
    }
}

/// An expression from `p` whose operators bind at least as tightly as
/// `min`: an operand, then its operators.
pub open spec fn p_prec(ts: Seq<(SToken, Span)>, p: int, min: int) -> (Option<SExpr>, int)
    decreases ts.len() - p, 1int,
{
    if !(0 <= p < ts.len()) {
        (None, p)
    } else {
        let (e, q) = p_operand(ts, p);
        match e {
            None => (None, q),
            Some(e) => if !(p < q <= ts.len()) {
                (None, q)
            } else {
                p_climb(ts, q, e, min, ts[p].1)
            },
        }
    }
}

/// The operators that follow the operand `e` from `q`, each binding at
/// least as tightly as `min`, with their right operands: the expression
/// grows to the left, `(e op r) op2 r2`, while the operators bind tightly
/// enough. The span of every node is `sp`, that of the first token.
pub open spec fn p_climb(ts: Seq<(SToken, Span)>, q: int, e: SExpr, min: int, sp: Span) -> (
    Option<SExpr>,
    int,
)
    decreases ts.len() - q, 1int,
{
    match binop_at(ts, q) {
        Some(op) => if prec(op) >= min && 0 <= q < ts.len() {
            let (r, q2) = p_prec(ts, q + 1, rhs_min(op));
            match r {
                None => (None, q2),
                Some(r) => if !(q < q2 <= ts.len()) {
                    (None, q2)
                } else {
                    p_climb(ts, q2, SExpr::Binary(Box::new(e), op, Box::new(r), sp), min, sp)
                },
            }
        } else {
            (Some(e), q)
        },
        None => (Some(e), q),
    }
}

/// An expression from `p`.
pub open spec fn p_expr(ts: Seq<(SToken, Span)>, p: int) -> (Option<SExpr>, int) {
    p_prec(ts, p, 1)
}

/// Call arguments from `p` up to the closing `)` (not read): expressions,
/// each optionally followed by a comma; an argument that cannot be read is
/// dropped.
pub open spec fn p_args(ts: Seq<(SToken, Span)>, p: int, acc: Seq<SExpr>) -> (Seq<SExpr>, int)
    decreases ts.len() - p, 2int,
{
    if 0 <= p < ts.len() && !is_at(ts, p, Token::RParen) {
        let (a, q) = p_prec(ts, p, 1);
        let acc2 = match a {
            Some(x) => acc.push(x),
            None => acc,
        };
        let q2 = if is_at(ts, q, Token::Comma) {
            q + 1
        } else {
            q
        };
        if !(p < q2 <= ts.len()) {
            (acc2, q2)
        } else {
            p_args(ts, q2, acc2)
        }
    } else {
        (acc, p)
    }
}

/// An expression read from `q`, where `q` must lie after `lo`.
pub open spec fn p_expr_from(ts: Seq<(SToken, Span)>, lo: int, q: int) -> (Option<SExpr>, int)
    decreases ts.len() - lo, 2int,
{
    if lo < q <= ts.len() {
        p_expr(ts, q)
    } else {
        (None, q)
    }
}

/// A statement read from `q`, where `q` must lie after `lo`.
pub open spec fn p_stmt_from(ts: Seq<(SToken, Span)>, lo: int, q: int) -> (Option<SStmt>, int)
    decreases ts.len() - lo, 3int,
{
    if lo < q <= ts.len() {
        p_stmt(ts, q)
    } else {
        (None, q)
    }
}

/// The rest of a variable declaration of type `ty` whose name is the
/// identifier at `p1`: `= expr ...;` or `...;`; anything up to the `;` after
/// the name or the initial value is skipped.
pub open spec fn p_decl(ts: Seq<(SToken, Span)>, p1: int, ty: SType) -> (Option<SStmt>, int) {
    let name = ident_name(ts, p1);
    let p2 = p1 + 1;
    if is_at(ts, p2, Token::Equals) {
        let (e, p3) = p_expr(ts, p2 + 1);
        match e {
            None => (None, p3),
            Some(e) => (
                Some(SStmt::Variable(name, ty, Some(e), zero_span())),
                adv(ts, skip_to(ts, p3, Token::Semicolon)),
            ),
        }
    } else {
        (
            Some(SStmt::Variable(name, ty, None, zero_span())),
            adv(ts, skip_to(ts, p2, Token::Semicolon)),
        )
    }
}

/// `var name = expr ...;` or `var name ...;` (also with `let`), from the
/// keyword at `p`: a variable whose type is inferred.
pub open spec fn p_var(ts: Seq<(SToken, Span)>, p: int) -> (Option<SStmt>, int) {
    let p1 = p + 1;
    if p1 >= ts.len() {
        (None, p1)
    } else if !ident_at(ts, p1) {
        (None, p1 + 1)
    } else {
        p_decl(ts, p1, SType::Infer)
    }
}

/// `Type name = expr ...;` or `Type name ...;`, from the type name at `p`:
/// a variable of the type that the name denotes.
pub open spec fn p_typed(ts: Seq<(SToken, Span)>, p: int) -> (Option<SStmt>, int) {
    p_decl(ts, p + 1, crate::ast::spec_str_to_type(ident_name(ts, p)))
}

/// `return expr ...;` or `return;`, from the keyword at `p`.
pub open spec fn p_return(ts: Seq<(SToken, Span)>, p: int) -> (Option<SStmt>, int) {
    let p1 = p + 1;
    let (e, p2) = if !is_at(ts, p1, Token::Semicolon) {
        p_expr(ts, p1)
    } else {
        (None, p1)
    };
    (Some(SStmt::Return(e, zero_span())), adv(ts, skip_to(ts, p2, Token::Semicolon)))
}

/// `if (cond) stmt` with an optional `else stmt`, from the keyword at `p`;
/// the tokens after `if` and after the condition are taken to be the
/// parentheses.
pub open spec fn p_if(ts: Seq<(SToken, Span)>, p: int) -> (Option<SStmt>, int)
    decreases ts.len() - p, 4int,
{
    let (c, p2) = p_expr(ts, adv(ts, p + 1));
    match c {
        None => (None, p2),
        Some(c) => {
            let (t, p4) = p_stmt_from(ts, p, adv(ts, p2));
            match t {
                None => (None, p4),
                Some(t) => if is_at(ts, p4, Token::Else) {
                    let (e, p5) = p_stmt_from(ts, p, p4 + 1);
                    match e {
                        None => (None, p5),
                        Some(e) => (
                            Some(SStmt::If(c, Box::new(t), Some(Box::new(e)), zero_span())),
                            p5,
                        ),
                    }
                } else {
                    (Some(SStmt::If(c, Box::new(t), None, zero_span())), p4)
                },
            }
        },
    }
}

/// `while (cond) stmt`, from the keyword at `p`.
pub open spec fn p_while(ts: Seq<(SToken, Span)>, p: int) -> (Option<SStmt>, int)
    decreases ts.len() - p, 4int,
{
    let (c, p2) = p_expr(ts, adv(ts, p + 1));
    match c {
        None => (None, p2),
        Some(c) => {
            let (b, p4) = p_stmt_from(ts, p, adv(ts, p2));
            match b {
                None => (None, p4),
                Some(b) => (Some(SStmt::While(c, Box::new(b), zero_span())), p4),
            }
        },
    }
}

/// `for (init cond; inc) stmt`, from the keyword at `p`: the initializer is
/// a statement (which reads its own `;`), the condition and the increment
/// are optional expressions, each followed by one token that is skipped.
pub open spec fn p_for(ts: Seq<(SToken, Span)>, p: int) -> (Option<SStmt>, int)
    decreases ts.len() - p, 4int,
{
    let (init, p2) = p_stmt_from(ts, p, adv(ts, p + 1));
    match init {
        None => (None, p2),
        Some(init) => {
            let (c, p3) = if !is_at(ts, p2, Token::Semicolon) {
                p_expr_from(ts, p, p2)
            } else {
                (None, p2)
            };
            let p4 = adv(ts, p3);
            let (inc, p5) = if !is_at(ts, p4, Token::RParen) {
                p_expr_from(ts, p, p4)
            } else {
                (None, p4)
            };
            let (b, p6) = p_stmt_from(ts, p, adv(ts, p5));
            match b {
                None => (None, p6),
                Some(b) => (
                    Some(SStmt::For(Box::new(init), c, inc, Box::new(b), zero_span())),
                    p6,
                ),
            }
        },
    }
}

/// A statement from `p`.
pub open spec fn p_stmt(ts: Seq<(SToken, Span)>, p: int) -> (Option<SStmt>, int)
    decreases ts.len() - p, 5int,
{
    if !(0 <= p < ts.len()) {
        (None, p)
    } else if is_at(ts, p, Token::Var) || is_at(ts, p, Token::Let) {
        p_var(ts, p)
    } else if is_at(ts, p, Token::Return) {
        p_return(ts, p)
    } else if is_at(ts, p, Token::If) {
        p_if(ts, p)
    } else if is_at(ts, p, Token::While) {
        p_while(ts, p)
    } else if is_at(ts, p, Token::For) {
        p_for(ts, p)
    } else if is_at(ts, p, Token::LBrace) {
        let (b, p2) = p_block(ts, p + 1, Seq::empty());
        (Some(SStmt::Block(b, zero_span())), p2)
    } else if ident_at(ts, p) && ident_at(ts, p + 1) {
        p_typed(ts, p)
    } else {
        let (e, p1) = p_expr(ts, p);
        match e {
            None => (None, p1),
            Some(e) => (
                Some(SStmt::Expression(e, zero_span())),
                adv(ts, skip_to(ts, p1, Token::Semicolon)),
            ),
        }
    }
}

/// The statements of a block from `p` up to its `}` (which is read when it
/// is there); a statement that cannot be read is dropped.
pub open spec fn p_block(ts: Seq<(SToken, Span)>, p: int, acc: Seq<SStmt>) -> (Seq<SStmt>, int)
    decreases ts.len() - p, 6int,
{
    if 0 <= p < ts.len() && !is_at(ts, p, Token::RBrace) {
        let (s, q) = p_stmt(ts, p);
        let acc2 = match s {
            Some(x) => acc.push(x),
            None => acc,
        };
        if !(p < q <= ts.len()) {
            (acc2, q)
        } else {
            p_block(ts, q, acc2)
        }
    } else if is_at(ts, p, Token::RBrace) {
        (acc, p + 1)
    } else {
        (acc, p)
    }
}


/// The dotted path of an `import` from `p` up to its `;` (not read):
/// identifiers and dots, other tokens ignored.
pub open spec fn p_import_path(ts: Seq<(SToken, Span)>, p: int, acc: Seq<char>) -> (Seq<char>, int)
    decreases ts.len() - p,
{
    if 0 <= p < ts.len() && !is_at(ts, p, Token::Semicolon) {
        let acc2 = if ident_at(ts, p) {
            acc + ident_name(ts, p)
        } else if is_at(ts, p, Token::Dot) {
            acc.push('.')
        } else {
            acc
        };
        p_import_path(ts, p + 1, acc2)
    } else {
        (acc, p)
    }
}

/// Whether the token at `p` is `static`, `public` or `private`.
pub open spec fn modifier_at(ts: Seq<(SToken, Span)>, p: int) -> bool {
    is_at(ts, p, Token::Static) || is_at(ts, p, Token::Public) || is_at(ts, p, Token::Private)
}

/// The position after the modifiers from `p`.
pub open spec fn skip_modifiers(ts: Seq<(SToken, Span)>, p: int) -> int
    decreases ts.len() - p,
{
    if 0 <= p < ts.len() && modifier_at(ts, p) {
        skip_modifiers(ts, p + 1)
    } else {
        p
    }
}

/// The parameters of a method from `p` up to its `)` (not read): pairs of
/// a type name and a parameter name, each optionally followed by a comma.
pub open spec fn p_params(ts: Seq<(SToken, Span)>, p: int, acc: Seq<SParam>) -> (Seq<SParam>, int)
    decreases ts.len() - p,
{
    if 0 <= p < ts.len() && !is_at(ts, p, Token::RParen) {
        let (acc2, q) = if ident_at(ts, p) {
            if ident_at(ts, p + 1) {
                (
                    acc.push(
                        SParam {
                            name: ident_name(ts, p + 1),
                            ty: crate::ast::spec_str_to_type(ident_name(ts, p)),
                            span: ts[p + 1].1,
                        },
                    ),
                    p + 2,
                )
            } else {
                (acc, adv(ts, p + 1))
            }
        } else {
            (acc, p + 1)
        };
        let q2 = if is_at(ts, q, Token::Comma) {
            q + 1
        } else {
            q
        };
        p_params(ts, q2, acc2)
    } else {
        (acc, p)
    }
}

/// Whether a function `Type name(` starts at `p`.
pub open spec fn function_at(ts: Seq<(SToken, Span)>, p: int) -> bool {
    ident_at(ts, p) && ident_at(ts, p + 1) && is_at(ts, p + 2, Token::LParen)
}

/// A function `Type name(params) { body }` (or with `;` in place of the
/// body) whose return type name is at `p`.
pub open spec fn p_function(ts: Seq<(SToken, Span)>, p: int) -> (SFunction, int) {
    let (params, q) = p_params(ts, p + 3, Seq::empty());
    let q2 = adv(ts, q);
    let (body, q3) = if is_at(ts, q2, Token::LBrace) {
        let (b, q4) = p_block(ts, q2 + 1, Seq::empty());
        (Some(b), q4)
    } else if is_at(ts, q2, Token::Semicolon) {
        (None, q2 + 1)
    } else {
        (None, q2)
    };
    (
        SFunction {
            name: ident_name(ts, p + 1),
            params,
            return_type: crate::ast::spec_str_to_type(ident_name(ts, p)),
            body,
            is_extern: false,
            span: zero_span(),
        },
        q3,
    )
}

/// A class member that starts with the identifier at `p`: a method, which
/// is added to `ms`; a field `Type name ... ;`, which is added to `fs` with
/// the type that its type name denotes; or a lone identifier, which is read
/// and dropped.
pub open spec fn p_member(ts: Seq<(SToken, Span)>, p: int, ms: Seq<SFunction>, fs: Seq<SField>) -> (
    Seq<SFunction>,
    Seq<SField>,
    int,
) {
    if ident_at(ts, p + 1) {
        if is_at(ts, p + 2, Token::LParen) {
            let (f, q) = p_function(ts, p);
            (ms.push(f), fs, q)
        } else {
            (
                ms,
                fs.push(
                    SField {
                        name: ident_name(ts, p + 1),
                        ty: crate::ast::spec_str_to_type(ident_name(ts, p)),
                        span: ts[p + 1].1,
                    },
                ),
                adv(ts, skip_to(ts, p + 2, Token::Semicolon)),
            )
        }
    } else {
        (ms, fs, p + 1)
    }
}

/// The members of a class from `p` up to its `}` (not read): its methods
/// and its fields, each in order.
pub open spec fn p_members(ts: Seq<(SToken, Span)>, p: int, ms: Seq<SFunction>, fs: Seq<SField>) -> (
    Seq<SFunction>,
    Seq<SField>,
    int,
)
    decreases ts.len() - p,
{
    if 0 <= p < ts.len() && !is_at(ts, p, Token::RBrace) {
        let q = skip_modifiers(ts, p);
        let (ms2, fs2, q2) = if ident_at(ts, q) {
            p_member(ts, q, ms, fs)
        } else {
            (ms, fs, adv(ts, q))
        };
        if !(p < q2 <= ts.len()) {
            (ms2, fs2, q2)
        } else {
            p_members(ts, q2, ms2, fs2)
        }
    } else {
        (ms, fs, p)
    }
}

/// A class with its fields and methods.
pub open spec fn class_decl(name: Seq<char>, fields: Seq<SField>, methods: Seq<SFunction>) -> SDecl {
    SDecl::Class(
        SClass {
            name,
            bases: Seq::empty(),
            fields,
            methods,
            span: zero_span(),
        },
    )
}

/// The top-level items from `p`: `import` paths, class declarations and
/// functions (after any modifiers); any other token is skipped.
pub open spec fn p_items(
    ts: Seq<(SToken, Span)>,
    p: int,
    imports: Seq<Seq<char>>,
    decls: Seq<SDecl>,
) -> (Seq<Seq<char>>, Seq<SDecl>)
    decreases ts.len() - p,
{
    if !(0 <= p < ts.len()) {
        (imports, decls)
    } else if is_at(ts, p, Token::Import) {
        let (path, q) = p_import_path(ts, p + 1, Seq::empty());
        let q2 = adv(ts, q);
        if !(p < q2 <= ts.len()) {
            (imports, decls)
        } else {
            p_items(ts, q2, imports.push(path), decls)
        }
    } else if is_at(ts, p, Token::Class) {
        if ident_at(ts, p + 1) {
            let (ms, fs, q) = p_members(ts, adv(ts, p + 2), Seq::empty(), Seq::empty());
            let q2 = if is_at(ts, q, Token::RBrace) {
                q + 1
            } else {
                q
            };
            if !(p < q2 <= ts.len()) {
                (imports, decls)
            } else {
                p_items(ts, q2, imports, decls.push(class_decl(ident_name(ts, p + 1), fs, ms)))
            }
        } else {
            p_items(ts, adv(ts, p + 1), imports, decls)
        }
    } else if function_at(ts, skip_modifiers(ts, p)) {
        let (f, q) = p_function(ts, skip_modifiers(ts, p));
        if !(p < q <= ts.len()) {
            (imports, decls)
        } else {
            p_items(ts, q, imports, decls.push(SDecl::Function(f)))
        }
    } else {
        p_items(ts, p + 1, imports, decls)
    }
}

/// The module that a token list reads as: the first token is skipped, the
/// second names the module (when it is an identifier), the third is skipped,
/// and the items follow.
pub open spec fn p_module(ts: Seq<(SToken, Span)>) -> SModule {
    let p0 = adv(ts, 0);
    let name = if ident_at(ts, p0) {
        ident_name(ts, p0)
    } else {
        Seq::empty()
    };
    let p2 = adv(ts, adv(ts, p0));
    let (imports, decls) = p_items(ts, p2, Seq::empty(), Seq::empty());
    SModule { name, imports, declarations: decls, span: zero_span() }
}


/// A declaration that starts with `let` reads as one that starts with
/// `var`: `let x = e;` and `var x = e;` both declare `x`, of inferred type,
/// with the value of `e`, and `let x;` and `var x;` both declare `x`
/// without a value.
pub proof fn lemma_let_and_var_declare(ts: Seq<(SToken, Span)>, p: int)
    requires
        0 <= p,
        p + 1 < ts.len(),
        is_at(ts, p, Token::Let) || is_at(ts, p, Token::Var),
        ident_at(ts, p + 1),
    ensures
        is_at(ts, p + 2, Token::Equals) ==> (p_expr(ts, p + 3).0 matches Some(e) ==> p_stmt(ts, p).0
            == Some(SStmt::Variable(ident_name(ts, p + 1), SType::Infer, Some(e), zero_span()))),
        !is_at(ts, p + 2, Token::Equals) ==> p_stmt(ts, p).0 == Some(
            SStmt::Variable(ident_name(ts, p + 1), SType::Infer, None, zero_span()),
        ),
{
}

/// `return e;` returns the expression that follows the keyword, and
/// `return;` returns nothing.
pub proof fn lemma_return_statement(ts: Seq<(SToken, Span)>, p: int)
    requires
        0 <= p < ts.len(),
        is_at(ts, p, Token::Return),
    ensures
        !is_at(ts, p + 1, Token::Semicolon) ==> p_stmt(ts, p).0 == Some(SStmt::Return(p_expr(ts, p + 1).0, zero_span())),
        is_at(ts, p + 1, Token::Semicolon) ==> p_stmt(ts, p).0 == Some(SStmt::Return(None, zero_span())),
{
}

/// `while (c) b` loops over the statement that follows the condition:
/// where the condition reads as `c` up to a token that is skipped, and a
/// statement `b` follows, the whole reads as `While(c, b)`.
pub proof fn lemma_while_statement(ts: Seq<(SToken, Span)>, p: int)
    requires
        0 <= p,
        p + 2 < ts.len(),
        is_at(ts, p, Token::While),
    ensures
        ({
            let (c, q) = p_expr(ts, p + 2);
            let b = p_stmt(ts, q + 1).0;
            c is Some && p + 2 < q < ts.len() && b is Some ==> p_stmt(ts, p).0 == Some(
                SStmt::While(c->0, Box::new(b->0), zero_span()),
            )
        }),
{
    let (c, q) = p_expr(ts, p + 2);
    assert(adv(ts, p + 1) == p + 2);
    if p + 2 < q < ts.len() {
        assert(adv(ts, q) == q + 1);
        assert(p_stmt_from(ts, p, q + 1) == p_stmt(ts, q + 1));
    }
}

/// `if (c) t else e` takes the two statements around `else`: where the
/// condition reads as `c`, the statement after it as `t`, and an `else`
/// follows with the statement `e`, the whole reads as `If(c, t, e)`.
pub proof fn lemma_if_statement(ts: Seq<(SToken, Span)>, p: int)
    requires
        0 <= p,
        p + 2 < ts.len(),
        is_at(ts, p, Token::If),
    ensures
        ({
            let (c, q) = p_expr(ts, p + 2);
            let (t, q2) = p_stmt(ts, q + 1);
            let (e, _) = p_stmt(ts, q2 + 1);
            c is Some && p + 2 < q < q2 < ts.len() && t is Some && is_at(ts, q2, Token::Else) && e is Some
                ==> p_stmt(ts, p).0 == Some(SStmt::If(c->0, Box::new(t->0), Some(Box::new(e->0)), zero_span()))
        }),
{
    let (c, q) = p_expr(ts, p + 2);
    let (t, q2) = p_stmt(ts, q + 1);
    assert(adv(ts, p + 1) == p + 2);
    if p + 2 < q < q2 < ts.len() {
        assert(adv(ts, q) == q + 1);
        assert(p_stmt_from(ts, p, q + 1) == p_stmt(ts, q + 1));
        assert(p_stmt_from(ts, p, q2 + 1) == p_stmt(ts, q2 + 1));
    }
}

// ---------------------------------------------------------------------
// Executable parser
// ---------------------------------------------------------------------

pub open spec fn opt_stmt_view(s: Option<Statement>) -> Option<SStmt> {
    match s {
        Some(x) => Some(x@),
        None => None,
    }
}

/// The plain tokens that the parser looks for.
#[derive(Clone, Copy)]
enum Mark {
    Semicolon,
    RBrace,
    RParen,
    LParen,
    LBrace,
    Comma,
    Equals,
    Else,
    Dot,
    Var,
    Let,
    Return,
    If,
    While,
    For,
    Import,
    Class,
    Static,
    Public,
    Private,
}

spec fn mark_token(m: Mark) -> Token {
    match m {
        Mark::Semicolon => Token::Semicolon,
        Mark::RBrace => Token::RBrace,
        Mark::RParen => Token::RParen,
        Mark::LParen => Token::LParen,
        Mark::LBrace => Token::LBrace,
        Mark::Comma => Token::Comma,
        Mark::Equals => Token::Equals,
        Mark::Else => Token::Else,
        Mark::Dot => Token::Dot,
        Mark::Var => Token::Var,
        Mark::Let => Token::Let,
        Mark::Return => Token::Return,
        Mark::If => Token::If,
        Mark::While => Token::While,
        Mark::For => Token::For,
        Mark::Import => Token::Import,
        Mark::Class => Token::Class,
        Mark::Static => Token::Static,
        Mark::Public => Token::Public,
        Mark::Private => Token::Private,
    }
}

fn at(ts: &Vec<(Token, Span)>, p: usize, m: Mark) -> (r: bool)
    ensures
        r == is_at(crate::lexer::tokens_view(ts@), p as int, mark_token(m)),
{
    if p >= ts.len() {
        return false;
    }
    match (m, &ts[p].0) {
        (Mark::Semicolon, Token::Semicolon) => true,
        (Mark::RBrace, Token::RBrace) => true,
        (Mark::RParen, Token::RParen) => true,
        (Mark::LParen, Token::LParen) => true,
        (Mark::LBrace, Token::LBrace) => true,
        (Mark::Comma, Token::Comma) => true,
        (Mark::Equals, Token::Equals) => true,
        (Mark::Else, Token::Else) => true,
        (Mark::Dot, Token::Dot) => true,
        (Mark::Var, Token::Var) => true,
        (Mark::Let, Token::Let) => true,
        (Mark::Return, Token::Return) => true,
        (Mark::If, Token::If) => true,
        (Mark::While, Token::While) => true,
        (Mark::For, Token::For) => true,
        (Mark::Import, Token::Import) => true,
        (Mark::Class, Token::Class) => true,
        (Mark::Static, Token::Static) => true,
        (Mark::Public, Token::Public) => true,
        (Mark::Private, Token::Private) => true,
        _ => false,
    }
}

/// The name of the identifier at `p`, when there is one.
fn ident(ts: &Vec<(Token, Span)>, p: usize) -> (r: Option<String>)
    ensures
        match r {
            Some(n) => ident_at(crate::lexer::tokens_view(ts@), p as int) && n@ == ident_name(
                crate::lexer::tokens_view(ts@),
                p as int,
            ),
            None => !ident_at(crate::lexer::tokens_view(ts@), p as int),
        },
{
    if p >= ts.len() {
        return None;
    }
    match &ts[p].0 {
        Token::Identifier(n) => Some(n.clone()),
        _ => None,
    }
}

fn skip_to_mark(ts: &Vec<(Token, Span)>, pos: &mut usize, m: Mark)
    requires
        *old(pos) <= ts.len(),
    ensures
        *final(pos) as int == skip_to(crate::lexer::tokens_view(ts@), *old(pos) as int, mark_token(m)),
        *old(pos) <= *final(pos) <= ts.len(),
{
    while *pos < ts.len() && !at(ts, *pos, m)
        invariant
            *old(pos) <= *pos <= ts.len(),
            skip_to(crate::lexer::tokens_view(ts@), *old(pos) as int, mark_token(m)) == skip_to(
                crate::lexer::tokens_view(ts@),
                *pos as int,
                mark_token(m),
            ),
        decreases ts.len() - *pos,
    {
        *pos = *pos + 1;
    }
}

fn step(ts: &Vec<(Token, Span)>, pos: &mut usize)
    requires
        *old(pos) <= ts.len(),
    ensures
        *final(pos) as int == adv(crate::lexer::tokens_view(ts@), *old(pos) as int),
{
    if *pos < ts.len() {
        *pos = *pos + 1;
    }
}

fn primary_of(t: &Token, sp: Span) -> (r: Option<Expression>)
    ensures
        crate::ast::opt_expr_view(r) == primary(t@, sp),
{
    match t {
        Token::IntLit(n) => Some(Expression::Literal(Literal::Int(*n), sp)),
        Token::StringLit(s) => Some(Expression::Literal(Literal::String(s.clone()), sp)),
        Token::FloatLit(t) => Some(Expression::Literal(Literal::Float(t.clone()), sp)),
        Token::True => Some(Expression::Literal(Literal::Bool(true), sp)),
        Token::False => Some(Expression::Literal(Literal::Bool(false), sp)),
        Token::Identifier(n) => Some(Expression::Identifier(n.clone(), sp)),
        _ => None,
    }
}

fn binop_of(ts: &Vec<(Token, Span)>, p: usize) -> (r: Option<BinOp>)
    ensures
        r == binop_at(crate::lexer::tokens_view(ts@), p as int),
{
    if p >= ts.len() {
        return None;
    }
    match &ts[p].0 {
        Token::Plus => Some(BinOp::Add),
        Token::Minus => Some(BinOp::Sub),
        Token::Star => Some(BinOp::Mul),
        Token::Slash => Some(BinOp::Div),
        Token::Percent => Some(BinOp::Mod),
        Token::EqEq => Some(BinOp::Eq),
        Token::NotEq => Some(BinOp::Neq),
        Token::Lt => Some(BinOp::Lt),
        Token::Gt => Some(BinOp::Gt),
        Token::LtEq => Some(BinOp::Le),
        Token::GtEq => Some(BinOp::Ge),
        Token::AndAnd => Some(BinOp::And),
        Token::OrOr => Some(BinOp::Or),
        Token::Equals => Some(BinOp::Assign),
        _ => None,
    }
}

fn prec_of(op: BinOp) -> (r: u8)
    ensures
        r == prec(op),
{
    match op {
        BinOp::Assign => 1,
        BinOp::Or => 2,
        BinOp::And => 3,
        BinOp::Eq | BinOp::Neq | BinOp::Lt | BinOp::Gt | BinOp::Le | BinOp::Ge => 4,
        BinOp::Add | BinOp::Sub => 5,
        _ => 6,
    }
}

fn rhs_min_of(op: BinOp) -> (r: u8)
    ensures
        r == rhs_min(op),
{
    if matches!(op, BinOp::Assign) {
        1
    } else {
        prec_of(op) + 1
    }
}

proof fn lemma_exprs_push(v: Seq<Expression>, e: Expression)
    ensures
        crate::ast::exprs_view(v.push(e)) == crate::ast::exprs_view(v).push(e@),
{
    assert(v.push(e).subrange(0, v.len() as int) =~= v);
}

proof fn lemma_stmts_push(v: Seq<Statement>, s: Statement)
    ensures
        crate::ast::stmts_view(v.push(s)) == crate::ast::stmts_view(v).push(s@),
{
    assert(v.push(s).subrange(0, v.len() as int) =~= v);
}

/// Reads call arguments from `*pos` up to (not including) the `)`.
fn parse_args(ts: &Vec<(Token, Span)>, pos: &mut usize) -> (args: Vec<Expression>)
    requires
        *old(pos) <= ts.len(),
    ensures
        (crate::ast::exprs_view(args@), *final(pos) as int) == p_args(
            crate::lexer::tokens_view(ts@),
            *old(pos) as int,
            Seq::empty(),
        ),
        *old(pos) <= *final(pos) <= ts.len(),
    decreases ts.len() - *old(pos), 2int,
{
    let ghost tv = crate::lexer::tokens_view(ts@);
    let mut args: Vec<Expression> = Vec::new();
    proof {
        assert(crate::ast::exprs_view(args@) =~= Seq::<SExpr>::empty());
    }
    while *pos < ts.len() && !at(ts, *pos, Mark::RParen)
        invariant
            tv == crate::lexer::tokens_view(ts@),
            *old(pos) <= *pos <= ts.len(),
            p_args(tv, *old(pos) as int, Seq::empty()) == p_args(tv, *pos as int, crate::ast::exprs_view(args@)),
        decreases ts.len() - *pos,
    {
        let ghost p = *pos as int;
        let ghost before = args@;
        let a = parse_prec(ts, pos, 1);
        match a {
            Some(x) => {
                args.push(x);
                proof {
                    lemma_exprs_push(before, x);
                }
            },
            None => {},
        }
        if at(ts, *pos, Mark::Comma) {
            *pos = *pos + 1;
        }
    }
    args
}

/// Reads an expression from `*pos`.
fn parse_expr(ts: &Vec<(Token, Span)>, pos: &mut usize) -> (r: Option<Expression>)
    requires
        *old(pos) <= ts.len(),
    ensures
        (crate::ast::opt_expr_view(r), *final(pos) as int) == p_expr(crate::lexer::tokens_view(ts@), *old(pos) as int),
        *old(pos) <= *final(pos) <= ts.len(),
        *old(pos) < ts.len() ==> *old(pos) < *final(pos),
{
    parse_prec(ts, pos, 1)
}

/// Reads an expression from `*pos` whose operators bind at least as
/// tightly as `min`.
fn parse_prec(ts: &Vec<(Token, Span)>, pos: &mut usize, min: u8) -> (r: Option<Expression>)
    requires
        *old(pos) <= ts.len(),
    ensures
        (crate::ast::opt_expr_view(r), *final(pos) as int) == p_prec(
            crate::lexer::tokens_view(ts@),
            *old(pos) as int,
            min as int,
        ),
        *old(pos) <= *final(pos) <= ts.len(),
        *old(pos) < ts.len() ==> *old(pos) < *final(pos),
    decreases ts.len() - *old(pos), 1int,
{
    let ghost tv = crate::lexer::tokens_view(ts@);
    let ghost start = *pos as int;
    if *pos >= ts.len() {
        return None;
    }
    let sp = ts[*pos].1;
    let mut expr = match parse_operand(ts, pos) {
        None => return None,
        Some(e) => e,
    };
    loop
        invariant
            tv == crate::lexer::tokens_view(ts@),
            start < *pos <= ts.len(),
            start == *old(pos),
            sp == tv[start].1,
            p_prec(tv, start, min as int) == p_climb(tv, *pos as int, expr@, min as int, sp),
        decreases ts.len() - *pos,
    {
        let q = *pos;
        match binop_of(ts, q) {
            Some(op) => {
                if prec_of(op) >= min && q < ts.len() {
                    *pos = q + 1;
                    match parse_prec(ts, pos, rhs_min_of(op)) {
                        None => return None,
                        Some(r) => {
                            expr = Expression::Binary(Box::new(expr), op, Box::new(r), sp);
                        },
                    }
                } else {
                    return Some(expr);
                }
            },
            None => return Some(expr),
        }
    }
}

/// Reads an operand from `*pos`.
fn parse_operand(ts: &Vec<(Token, Span)>, pos: &mut usize) -> (r: Option<Expression>)
    requires
        *old(pos) <= ts.len(),
    ensures
        (crate::ast::opt_expr_view(r), *final(pos) as int) == p_operand(crate::lexer::tokens_view(ts@), *old(pos) as int),
        *old(pos) <= *final(pos) <= ts.len(),
        *old(pos) < ts.len() ==> *old(pos) < *final(pos),
    decreases ts.len() - *old(pos), 0int,
{
    let ghost tv = crate::lexer::tokens_view(ts@);
    let ghost start = *pos as int;
    if *pos >= ts.len() {
        return None;
    }
    let sp = ts[*pos].1;
    let first = primary_of(&ts[*pos].0, sp);
    *pos = *pos + 1;
    let mut expr = match first {
        None => return None,
        Some(e) => e,
    };
    loop
        invariant
            tv == crate::lexer::tokens_view(ts@),
            start < *pos <= ts.len(),
            start == *old(pos),
            p_operand(tv, start) == p_tail(tv, *pos as int, expr@, sp),
        decreases ts.len() - *pos,
    {
        let p = *pos;
        if p >= ts.len() {
            return Some(expr);
        }
        if at(ts, p, Mark::Dot) {
            *pos = p + 1;
            match ident(ts, p + 1) {
                Some(member) => {
                    *pos = p + 2;
                    if at(ts, p + 2, Mark::LParen) {
                        *pos = p + 3;
                        let args = parse_args(ts, pos);
                        step(ts, pos);
                        let name = match &expr {
                            Expression::Identifier(n, _) => {
                                let mut s = n.clone();
                                push_str(&mut s, ".");
                                push_str(&mut s, member.as_str());
                                s
                            },
                            _ => member,
                        };
                        expr = Expression::Call(name, args, sp);
                    } else {
                        expr = Expression::MemberAccess(Box::new(expr), member, sp);
                    }
                },
                None => {
                    step(ts, pos);
                },
            }
        } else if at(ts, p, Mark::LParen) {
            *pos = p + 1;
            let args = parse_args(ts, pos);
            step(ts, pos);
            let name = match &expr {
                Expression::Identifier(n, _) => n.clone(),
                _ => String::new(),
            };
            expr = Expression::Call(name, args, sp);
        } else {
            return Some(expr);
        }
    }
}


fn parse_var(ts: &Vec<(Token, Span)>, pos: &mut usize) -> (r: Option<Statement>)
    requires
        *old(pos) < ts.len(),
    ensures
        (opt_stmt_view(r), *final(pos) as int) == p_var(crate::lexer::tokens_view(ts@), *old(pos) as int),
        *old(pos) < *final(pos) <= ts.len(),
{
    let p = *pos;
    *pos = p + 1;
    if p + 1 >= ts.len() {
        return None;
    }
    if ident(ts, p + 1).is_none() {
        *pos = p + 2;
        return None;
    }
    parse_decl(ts, pos, Type::Infer)
}

/// Reads the rest of a declaration of type `ty` whose name is the
/// identifier at `*pos`.
fn parse_decl(ts: &Vec<(Token, Span)>, pos: &mut usize, ty: Type) -> (r: Option<Statement>)
    requires
        *old(pos) < ts.len(),
        ident_at(crate::lexer::tokens_view(ts@), *old(pos) as int),
    ensures
        (opt_stmt_view(r), *final(pos) as int) == p_decl(crate::lexer::tokens_view(ts@), *old(pos) as int, ty@),
        *old(pos) < *final(pos) <= ts.len(),
{
    let p = *pos;
    let name = match ident(ts, p) {
        Some(n) => n,
        None => String::new(),
    };
    *pos = p + 1;
    let init = if at(ts, p + 1, Mark::Equals) {
        *pos = p + 2;
        let e = parse_expr(ts, pos);
        if e.is_none() {
            return None;
        }
        e
    } else {
        None
    };
    skip_to_mark(ts, pos, Mark::Semicolon);
    step(ts, pos);
    Some(Statement::Variable(name, ty, init, Span { start: 0, end: 0 }))
}

fn parse_return(ts: &Vec<(Token, Span)>, pos: &mut usize) -> (r: Option<Statement>)
    requires
        *old(pos) < ts.len(),
    ensures
        (opt_stmt_view(r), *final(pos) as int) == p_return(crate::lexer::tokens_view(ts@), *old(pos) as int),
        *old(pos) < *final(pos) <= ts.len(),
{
    let p = *pos;
    *pos = p + 1;
    let e = if !at(ts, p + 1, Mark::Semicolon) {
        parse_expr(ts, pos)
    } else {
        None
    };
    skip_to_mark(ts, pos, Mark::Semicolon);
    step(ts, pos);
    Some(Statement::Return(e, Span { start: 0, end: 0 }))
}

fn parse_if(ts: &Vec<(Token, Span)>, pos: &mut usize) -> (r: Option<Statement>)
    requires
        *old(pos) < ts.len(),
    ensures
        (opt_stmt_view(r), *final(pos) as int) == p_if(crate::lexer::tokens_view(ts@), *old(pos) as int),
        *old(pos) < *final(pos) <= ts.len(),
    decreases ts.len() - *old(pos), 4int,
{
    let p = *pos;
    *pos = p + 1;
    step(ts, pos);
    let c = match parse_expr(ts, pos) {
        Some(c) => c,
        None => return None,
    };
    step(ts, pos);
    let t = match parse_statement(ts, pos) {
        Some(t) => t,
        None => return None,
    };
    if at(ts, *pos, Mark::Else) {
        *pos = *pos + 1;
        let e = match parse_statement(ts, pos) {
            Some(e) => e,
            None => return None,
        };
        return Some(Statement::If(c, Box::new(t), Some(Box::new(e)), Span { start: 0, end: 0 }));
    }
    Some(Statement::If(c, Box::new(t), None, Span { start: 0, end: 0 }))
}

fn parse_while(ts: &Vec<(Token, Span)>, pos: &mut usize) -> (r: Option<Statement>)
    requires
        *old(pos) < ts.len(),
    ensures
        (opt_stmt_view(r), *final(pos) as int) == p_while(crate::lexer::tokens_view(ts@), *old(pos) as int),
        *old(pos) < *final(pos) <= ts.len(),
    decreases ts.len() - *old(pos), 4int,
{
    let p = *pos;
    *pos = p + 1;
    step(ts, pos);
    let c = match parse_expr(ts, pos) {
        Some(c) => c,
        None => return None,
    };
    step(ts, pos);
    let b = match parse_statement(ts, pos) {
        Some(b) => b,
        None => return None,
    };
    Some(Statement::While(c, Box::new(b), Span { start: 0, end: 0 }))
}

fn parse_for(ts: &Vec<(Token, Span)>, pos: &mut usize) -> (r: Option<Statement>)
    requires
        *old(pos) < ts.len(),
    ensures
        (opt_stmt_view(r), *final(pos) as int) == p_for(crate::lexer::tokens_view(ts@), *old(pos) as int),
        *old(pos) < *final(pos) <= ts.len(),
    decreases ts.len() - *old(pos), 4int,
{
    let p = *pos;
    *pos = p + 1;
    step(ts, pos);
    let init = match parse_statement(ts, pos) {
        Some(i) => i,
        None => return None,
    };
    let c = if !at(ts, *pos, Mark::Semicolon) {
        parse_expr(ts, pos)
    } else {
        None
    };
    step(ts, pos);
    let inc = if !at(ts, *pos, Mark::RParen) {
        parse_expr(ts, pos)
    } else {
        None
    };
    step(ts, pos);
    let b = match parse_statement(ts, pos) {
        Some(b) => b,
        None => return None,
    };
    Some(Statement::For(Box::new(init), c, inc, Box::new(b), Span { start: 0, end: 0 }))
}

/// Reads a statement from `*pos`.
fn parse_statement(ts: &Vec<(Token, Span)>, pos: &mut usize) -> (r: Option<Statement>)
    requires
        *old(pos) <= ts.len(),
    ensures
        (opt_stmt_view(r), *final(pos) as int) == p_stmt(crate::lexer::tokens_view(ts@), *old(pos) as int),
        *old(pos) <= *final(pos) <= ts.len(),
        *old(pos) < ts.len() ==> *old(pos) < *final(pos),
    decreases ts.len() - *old(pos), 5int,
{
    let p = *pos;
    if p >= ts.len() {
        return None;
    }
    if at(ts, p, Mark::Var) || at(ts, p, Mark::Let) {
        return parse_var(ts, pos);
    }
    if at(ts, p, Mark::Return) {
        return parse_return(ts, pos);
    }
    if at(ts, p, Mark::If) {
        return parse_if(ts, pos);
    }
    if at(ts, p, Mark::While) {
        return parse_while(ts, pos);
    }
    if at(ts, p, Mark::For) {
        return parse_for(ts, pos);
    }
    if at(ts, p, Mark::LBrace) {
        *pos = p + 1;
        let b = parse_block(ts, pos);
        return Some(Statement::Block(b, Span { start: 0, end: 0 }));
    }
    if let Some(tn) = ident(ts, p) {
        if ident(ts, p + 1).is_some() {
            *pos = p + 1;
            return parse_decl(ts, pos, str_to_type(tn.as_str()));
        }
    }
    let e = match parse_expr(ts, pos) {
        Some(e) => e,
        None => return None,
    };
    skip_to_mark(ts, pos, Mark::Semicolon);
    step(ts, pos);
    Some(Statement::Expression(e, Span { start: 0, end: 0 }))
}

/// Reads the statements of a block from `*pos` and its closing `}`.
fn parse_block(ts: &Vec<(Token, Span)>, pos: &mut usize) -> (r: Vec<Statement>)
    requires
        *old(pos) <= ts.len(),
    ensures
        (crate::ast::stmts_view(r@), *final(pos) as int) == p_block(
            crate::lexer::tokens_view(ts@),
            *old(pos) as int,
            Seq::empty(),
        ),
        *old(pos) <= *final(pos) <= ts.len(),
    decreases ts.len() - *old(pos), 6int,
{
    let ghost tv = crate::lexer::tokens_view(ts@);
    let mut stmts: Vec<Statement> = Vec::new();
    proof {
        assert(crate::ast::stmts_view(stmts@) =~= Seq::<SStmt>::empty());
    }
    while *pos < ts.len() && !at(ts, *pos, Mark::RBrace)
        invariant
            tv == crate::lexer::tokens_view(ts@),
            *old(pos) <= *pos <= ts.len(),
            p_block(tv, *old(pos) as int, Seq::empty()) == p_block(
                tv,
                *pos as int,
                crate::ast::stmts_view(stmts@),
            ),
        decreases ts.len() - *pos,
    {
        let ghost before = stmts@;
        match parse_statement(ts, pos) {
            Some(x) => {
                stmts.push(x);
                proof {
                    lemma_stmts_push(before, x);
                }
            },
            None => {},
        }
    }
    if at(ts, *pos, Mark::RBrace) {
        *pos = *pos + 1;
    }
    stmts
}


fn parse_import_path(ts: &Vec<(Token, Span)>, pos: &mut usize) -> (path: String)
    requires
        *old(pos) <= ts.len(),
    ensures
        (path@, *final(pos) as int) == p_import_path(
            crate::lexer::tokens_view(ts@),
            *old(pos) as int,
            Seq::empty(),
        ),
        *old(pos) <= *final(pos) <= ts.len(),
{
    let ghost tv = crate::lexer::tokens_view(ts@);
    let mut path = String::new();
    while *pos < ts.len() && !at(ts, *pos, Mark::Semicolon)
        invariant
            tv == crate::lexer::tokens_view(ts@),
            *old(pos) <= *pos <= ts.len(),
            p_import_path(tv, *old(pos) as int, Seq::empty()) == p_import_path(
                tv,
                *pos as int,
                path@,
            ),
        decreases ts.len() - *pos,
    {
        let p = *pos;
        match ident(ts, p) {
            Some(n) => push_str(&mut path, n.as_str()),
            None => {
                if at(ts, p, Mark::Dot) {
                    push_char(&mut path, '.');
                }
            },
        }
        *pos = p + 1;
    }
    path
}

fn parse_params(ts: &Vec<(Token, Span)>, pos: &mut usize) -> (ps: Vec<Parameter>)
    requires
        *old(pos) <= ts.len(),
    ensures
        (crate::ast::params_view(ps@), *final(pos) as int) == p_params(
            crate::lexer::tokens_view(ts@),
            *old(pos) as int,
            Seq::empty(),
        ),
        *old(pos) <= *final(pos) <= ts.len(),
{
    let ghost tv = crate::lexer::tokens_view(ts@);
    let mut ps: Vec<Parameter> = Vec::new();
    proof {
        assert(crate::ast::params_view(ps@) =~= Seq::<SParam>::empty());
    }
    while *pos < ts.len() && !at(ts, *pos, Mark::RParen)
        invariant
            tv == crate::lexer::tokens_view(ts@),
            *old(pos) <= *pos <= ts.len(),
            p_params(tv, *old(pos) as int, Seq::empty()) == p_params(
                tv,
                *pos as int,
                crate::ast::params_view(ps@),
            ),
        decreases ts.len() - *pos,
    {
        let p = *pos;
        match ident(ts, p) {
            Some(pt) => {
                *pos = p + 1;
                match ident(ts, p + 1) {
                    Some(pn) => {
                        *pos = p + 2;
                        let ghost before = ps@;
                        let param = Parameter {
                            name: pn,
                            ty: str_to_type(pt.as_str()),
                            span: ts[p + 1].1,
                        };
                        ps.push(param);
                        assert(crate::ast::params_view(ps@) =~= crate::ast::params_view(before).push(param@));
                    },
                    None => step(ts, pos),
                }
            },
            None => {
                *pos = p + 1;
            },
        }
        if at(ts, *pos, Mark::Comma) {
            *pos = *pos + 1;
        }
    }
    ps
}

spec fn methods_view(ms: Seq<FunctionDecl>) -> Seq<SFunction> {
    ms.map_values(|m: FunctionDecl| m@)
}

spec fn fields_view(fs: Seq<FieldDecl>) -> Seq<SField> {
    fs.map_values(|f: FieldDecl| f@)
}

/// Reads a function whose return type name is at `*pos`.
fn parse_function(ts: &Vec<(Token, Span)>, pos: &mut usize) -> (f: FunctionDecl)
    requires
        *old(pos) < ts.len(),
        function_at(crate::lexer::tokens_view(ts@), *old(pos) as int),
    ensures
        (f@, *final(pos) as int) == p_function(crate::lexer::tokens_view(ts@), *old(pos) as int),
        *old(pos) < *final(pos) <= ts.len(),
{
    let p = *pos;
    let ret = match ident(ts, p) {
        Some(n) => n,
        None => String::new(),
    };
    let name = match ident(ts, p + 1) {
        Some(n) => n,
        None => String::new(),
    };
    *pos = p + 3;
    let params = parse_params(ts, pos);
    step(ts, pos);
    let body = if at(ts, *pos, Mark::LBrace) {
        *pos = *pos + 1;
        Some(parse_block(ts, pos))
    } else if at(ts, *pos, Mark::Semicolon) {
        *pos = *pos + 1;
        None
    } else {
        None
    };
    FunctionDecl {
        name,
        params,
        return_type: str_to_type(ret.as_str()),
        body,
        is_extern: false,
        span: Span { start: 0, end: 0 },
    }
}

/// Reads a class member that starts with the identifier at `*pos`.
fn parse_member(
    ts: &Vec<(Token, Span)>,
    pos: &mut usize,
    methods: &mut Vec<FunctionDecl>,
    fields: &mut Vec<FieldDecl>,
)
    requires
        *old(pos) < ts.len(),
        ident_at(crate::lexer::tokens_view(ts@), *old(pos) as int),
    ensures
        (methods_view(final(methods)@), fields_view(final(fields)@), *final(pos) as int) == p_member(
            crate::lexer::tokens_view(ts@),
            *old(pos) as int,
            methods_view(old(methods)@),
            fields_view(old(fields)@),
        ),
        *old(pos) < *final(pos) <= ts.len(),
{
    let p = *pos;
    let ty_name = match ident(ts, p) {
        Some(n) => n,
        None => String::new(),
    };
    *pos = p + 1;
    match ident(ts, p + 1) {
        Some(name) => {
            if at(ts, p + 2, Mark::LParen) {
                *pos = p;
                let f = parse_function(ts, pos);
                let ghost before = methods@;
                methods.push(f);
                assert(methods_view(methods@) =~= methods_view(before).push(f@));
            } else {
                let fd = FieldDecl { name, ty: str_to_type(ty_name.as_str()), span: ts[p + 1].1 };
                let ghost before = fields@;
                fields.push(fd);
                assert(fields_view(fields@) =~= fields_view(before).push(fd@));
                *pos = p + 2;
                skip_to_mark(ts, pos, Mark::Semicolon);
                step(ts, pos);
            }
        },
        None => {},
    }
}

/// Reads the members of a class from `*pos` up to its `}` (not read).
fn parse_members(ts: &Vec<(Token, Span)>, pos: &mut usize) -> (r: (Vec<FunctionDecl>, Vec<FieldDecl>))
    requires
        *old(pos) <= ts.len(),
    ensures
        (methods_view(r.0@), fields_view(r.1@), *final(pos) as int) == p_members(
            crate::lexer::tokens_view(ts@),
            *old(pos) as int,
            Seq::empty(),
            Seq::empty(),
        ),
        *old(pos) <= *final(pos) <= ts.len(),
{
    let ghost tv = crate::lexer::tokens_view(ts@);
    let mut methods: Vec<FunctionDecl> = Vec::new();
    let mut fields: Vec<FieldDecl> = Vec::new();
    proof {
        assert(methods_view(methods@) =~= Seq::<SFunction>::empty());
        assert(fields_view(fields@) =~= Seq::<SField>::empty());
    }
    while *pos < ts.len() && !at(ts, *pos, Mark::RBrace)
        invariant
            tv == crate::lexer::tokens_view(ts@),
            *old(pos) <= *pos <= ts.len(),
            p_members(tv, *old(pos) as int, Seq::empty(), Seq::empty()) == p_members(
                tv,
                *pos as int,
                methods_view(methods@),
                fields_view(fields@),
            ),
        decreases ts.len() - *pos,
    {
        skip_mods(ts, pos);
        if ident(ts, *pos).is_some() {
            parse_member(ts, pos, &mut methods, &mut fields);
        } else {
            step(ts, pos);
        }
    }
    (methods, fields)
}

/// Skips the modifiers from `*pos`.
fn skip_mods(ts: &Vec<(Token, Span)>, pos: &mut usize)
    requires
        *old(pos) <= ts.len(),
    ensures
        *final(pos) as int == skip_modifiers(crate::lexer::tokens_view(ts@), *old(pos) as int),
        *old(pos) <= *final(pos) <= ts.len(),
{
    let ghost tv = crate::lexer::tokens_view(ts@);
    let ghost p = *pos as int;
    while at(ts, *pos, Mark::Static) || at(ts, *pos, Mark::Public) || at(ts, *pos, Mark::Private)
        invariant
            tv == crate::lexer::tokens_view(ts@),
            p <= *pos <= ts.len(),
            skip_modifiers(tv, p) == skip_modifiers(tv, *pos as int),
        decreases ts.len() - *pos,
    {
        *pos = *pos + 1;
    }
}

/// Reads a module from a token list. Reading never fails: what cannot be
/// read is skipped.
pub fn parse(tokens: Vec<(Token, Span)>, _source: &str) -> (r: Result<Module, Vec<crate::error::CompilerError>>)
    ensures
        r matches Ok(m) && m@ == p_module(crate::lexer::tokens_view(tokens@)),
{
    let ts = &tokens;
    let ghost tv = crate::lexer::tokens_view(ts@);
    let mut pos: usize = 0;
    step(ts, &mut pos);
    let name = match ident(ts, pos) {
        Some(n) => n,
        None => String::new(),
    };
    step(ts, &mut pos);
    step(ts, &mut pos);
    let mut imports: Vec<String> = Vec::new();
    let mut decls: Vec<Declaration> = Vec::new();
    proof {
        assert(imports@.map_values(|x: String| x@) =~= Seq::<Seq<char>>::empty());
        assert(decls@.map_values(|d: Declaration| d@) =~= Seq::<SDecl>::empty());
    }
    let ghost p2 = pos as int;
    while pos < ts.len()
        invariant
            tv == crate::lexer::tokens_view(ts@),
            pos <= ts.len(),
            p_items(tv, p2, Seq::empty(), Seq::empty()) == p_items(
                tv,
                pos as int,
                imports@.map_values(|x: String| x@),
                decls@.map_values(|d: Declaration| d@),
            ),
        decreases ts.len() - pos,
    {
        let p = pos;
        if at(ts, p, Mark::Import) {
            pos = p + 1;
            let path = parse_import_path(ts, &mut pos);
            step(ts, &mut pos);
            let ghost before = imports@;
            imports.push(path);
            assert(imports@.map_values(|x: String| x@) =~= before.map_values(|x: String| x@).push(path@));
        } else if at(ts, p, Mark::Class) {
            pos = p + 1;
            match ident(ts, p + 1) {
                Some(class_name) => {
                    pos = p + 2;
                    step(ts, &mut pos);
                    let (methods, fields) = parse_members(ts, &mut pos);
                    if at(ts, pos, Mark::RBrace) {
                        pos = pos + 1;
                    }
                    let bases: Vec<String> = Vec::new();
                    proof {
                        assert(bases@.map_values(|b: String| b@) =~= Seq::<Seq<char>>::empty());
                    }
                    let d = Declaration::Class(
                        ClassDecl {
                            name: class_name,
                            bases,
                            fields,
                            methods,
                            span: Span { start: 0, end: 0 },
                        },
                    );
                    assert(d@ == class_decl(ident_name(tv, p + 1), fields_view(fields@), methods_view(methods@)));
                    let ghost before = decls@;
                    decls.push(d);
                    assert(decls@.map_values(|x: Declaration| x@) =~= before.map_values(|x: Declaration| x@).push(d@));
                },
                None => {
                    step(ts, &mut pos);
                },
            }
        } else {
            let mut q = p;
            skip_mods(ts, &mut q);
            if q < ts.len() && ident(ts, q).is_some() && ident(ts, q + 1).is_some() && at(ts, q + 2, Mark::LParen) {
                let f = parse_function(ts, &mut q);
                pos = q;
                let d = Declaration::Function(f);
                let ghost before = decls@;
                decls.push(d);
                assert(decls@.map_values(|x: Declaration| x@) =~= before.map_values(|x: Declaration| x@).push(d@));
            } else {
                pos = p + 1;
            }
        }
    }
    let m = Module { name, imports, declarations: decls, span: Span { start: 0, end: 0 } };
    assert(m@ == p_module(tv));
    Ok(m)
}

} // verus!
