//! The tree-walking interpreter.
//!
//! The interpreter runs a module's `main` function. Its semantics is given
//! by the spec functions below over [`SState`], the model of
//! [`Interpreter`]; every executable method is proved to compute exactly
//! what they say.
//!
//! Input and output are the host's work. Output calls (`print`,
//! `println`) append their text to the interpreter's output list. Calls that
//! need an answer from outside (`read_line` and the `http_*` calls) take the
//! next reply from a list of replies that the host supplied; when the list
//! is used up, the run stops with [`Halt::Suspend`] and the request. A host
//! answers the request, appends the reply and runs the program again from
//! the start: the run is a function of the program and the replies, so it
//! takes the same path up to that point.
//!
//! Integer arithmetic that overflows, and division or remainder by zero,
//! stop the run with [`Halt::Fault`]. Every loop iteration and every
//! function call spends one unit of the fuel that the run was given; a run
//! that spends it all stops with [`Halt::OutOfFuel`].
use vstd::prelude::*;
use crate::ast::{BinOp, Expression, FunctionDecl, Literal, SExpr, SFunction, SLiteral, SParam, SStmt, Statement};
use crate::value::{Piece, SPiece, SValue, Value};

verus! {

// ---------------------------------------------------------------------
// Requests, replies and halts
// ---------------------------------------------------------------------

/// An operation that needs the host: reading a line from standard input,
/// or an HTTP call. Arguments are given as the text of the values passed.
#[derive(Debug, Clone, PartialEq)]
pub enum Request {
    ReadLine,
    HttpGet { url: Vec<Piece> },
    HttpPost { url: Vec<Piece>, data: Vec<Piece> },
    HttpPostJson { url: Vec<Piece>, json: Vec<Piece> },
    HttpDownload { url: Vec<Piece>, path: Vec<Piece> },
}

/// The model of [`Request`].
pub enum SRequest {
    ReadLine,
    HttpGet { url: Seq<SPiece> },
    HttpPost { url: Seq<SPiece>, data: Seq<SPiece> },
    HttpPostJson { url: Seq<SPiece>, json: Seq<SPiece> },
    HttpDownload { url: Seq<SPiece>, path: Seq<SPiece> },
}

impl View for Request {
    type V = SRequest;

    open spec fn view(&self) -> SRequest {
        match *self {
            Request::ReadLine => SRequest::ReadLine,
            Request::HttpGet { url } => SRequest::HttpGet { url: crate::value::pieces_view(url@) },
            Request::HttpPost { url, data } => SRequest::HttpPost {
                url: crate::value::pieces_view(url@),
                data: crate::value::pieces_view(data@),
            },
            Request::HttpPostJson { url, json } => SRequest::HttpPostJson {
                url: crate::value::pieces_view(url@),
                json: crate::value::pieces_view(json@),
            },
            Request::HttpDownload { url, path } => SRequest::HttpDownload {
                url: crate::value::pieces_view(url@),
                path: crate::value::pieces_view(path@),
            },
        }
    }
}

/// The host's answer to a request.
#[derive(Debug, Clone, PartialEq)]
pub enum Reply {
    /// The line read from standard input, as read (the interpreter trims it).
    Line(String),
    /// The body of an HTTP response.
    Body(String),
    /// An HTTP call that failed, with the error's text.
    HttpError(String),
    /// A download whose file could not be created, with the error's text.
    FileError(String),
    /// A download that failed while copying, with the error's text.
    DownloadError(String),
    /// A download that was saved.
    Saved,
}

/// The model of [`Reply`].
pub enum SReply {
    Line(Seq<char>),
    Body(Seq<char>),
    HttpError(Seq<char>),
    FileError(Seq<char>),
    DownloadError(Seq<char>),
    Saved,
}

impl View for Reply {
    type V = SReply;

    open spec fn view(&self) -> SReply {
        match *self {
            Reply::Line(s) => SReply::Line(s@),
            Reply::Body(s) => SReply::Body(s@),
            Reply::HttpError(s) => SReply::HttpError(s@),
            Reply::FileError(s) => SReply::FileError(s@),
            Reply::DownloadError(s) => SReply::DownloadError(s@),
            Reply::Saved => SReply::Saved,
        }
    }
}

/// What a reply gives the program: a value, or an error message.
pub open spec fn reply_outcome(r: SReply) -> Result<SValue, Seq<char>> {
    match r {
        SReply::Line(s) => Ok(SValue::String(crate::value::trim(s))),
        SReply::Body(s) => Ok(SValue::String(s)),
        SReply::HttpError(e) => Err("HTTP: "@ + e),
        SReply::FileError(e) => Err("File: "@ + e),
        SReply::DownloadError(e) => Err("Download: "@ + e),
        SReply::Saved => Ok(SValue::Bool(true)),
    }
}

/// An arithmetic fault: an operation that overflows `i64`, or a division
/// or remainder by zero. The operator says which.
#[derive(Debug, Clone, Copy, PartialEq, Eq, Structural)]
pub enum Fault {
    Overflow(BinOp),
    ZeroDivisor(BinOp),
}

/// Why a run stopped before it finished.
#[derive(Debug, Clone, PartialEq)]
pub enum Halt {
    /// A run-time error of the program, with its message.
    Error(String),
    /// The program needs the host to answer a request.
    Suspend(Request),
    /// An arithmetic fault.
    Fault(Fault),
    /// The run spent all its fuel.
    OutOfFuel,
}

/// The model of [`Halt`].
pub enum SHalt {
    Error(Seq<char>),
    Suspend(SRequest),
    Fault(Fault),
    OutOfFuel,
}

impl View for Halt {
    type V = SHalt;

    open spec fn view(&self) -> SHalt {
        match *self {
            Halt::Error(s) => SHalt::Error(s@),
            Halt::Suspend(r) => SHalt::Suspend(r@),
            Halt::Fault(f) => SHalt::Fault(f),
            Halt::OutOfFuel => SHalt::OutOfFuel,
        }
    }
}

// ---------------------------------------------------------------------
// Tables
// ---------------------------------------------------------------------

/// A table of functions by name: a later entry with a name hides the
/// earlier ones.
pub struct FnTable {
    pub entries: Vec<FunctionDecl>,
}

impl View for FnTable {
    type V = Seq<SFunction>;

    open spec fn view(&self) -> Seq<SFunction> {
        self.entries@.map_values(|f: FunctionDecl| f@)
    }
}

/// The last function of `fs` named `name`.
pub open spec fn fn_lookup(fs: Seq<SFunction>, name: Seq<char>) -> Option<SFunction>
    decreases fs.len(),
{
    if fs.len() == 0 {
        None
    } else if fs.last().name == name {
        Some(fs.last())
    } else {
        fn_lookup(fs.drop_last(), name)
    }
}

/// The index of the last entry of `s` with key `k`.
pub open spec fn find_last<V>(s: Seq<(Seq<char>, V)>, k: Seq<char>) -> Option<int>
    decreases s.len(),
{
    if s.len() == 0 {
        None
    } else if s.last().0 == k {
        Some(s.len() - 1)
    } else {
        find_last(s.drop_last(), k)
    }
}

/// The value of the last entry of `s` with key `k`.
pub open spec fn lookup<V>(s: Seq<(Seq<char>, V)>, k: Seq<char>) -> Option<V> {
    match find_last(s, k) {
        Some(j) => Some(s[j].1),
        None => None,
    }
}

/// `s` with key `k` bound to `v`: the last entry with key `k` is replaced,
/// or a new entry is added.
pub open spec fn assign<V>(s: Seq<(Seq<char>, V)>, k: Seq<char>, v: V) -> Seq<(Seq<char>, V)> {
    match find_last(s, k) {
        Some(j) => s.update(j, (k, v)),
        None => s.push((k, v)),
    }
}

/// The value of variable `k`: from the innermost scope that binds it.
pub open spec fn lookup_var(scopes: Seq<Seq<(Seq<char>, SValue)>>, k: Seq<char>) -> Option<SValue>
    decreases scopes.len(),
{
    if scopes.len() == 0 {
        None
    } else {
        match lookup(scopes.last(), k) {
            Some(v) => Some(v),
            None => lookup_var(scopes.drop_last(), k),
        }
    }
}

// ---------------------------------------------------------------------
// The state
// ---------------------------------------------------------------------

/// The model of [`Interpreter`].
pub struct SState {
    /// Variable scopes, innermost last.
    pub scopes: Seq<Seq<(Seq<char>, SValue)>>,
    /// The functions of the running module.
    pub functions: Seq<SFunction>,
    /// Imported modules by name, with their functions.
    pub modules: Seq<(Seq<char>, Seq<SFunction>)>,
    /// The value of the last `return`, until the next call clears it.
    pub return_val: Option<SValue>,
    pub break_flag: bool,
    pub continue_flag: bool,
    /// The replies that the host supplied, and how many were used.
    pub replies: Seq<SReply>,
    pub cursor: int,
    /// The text of each output call, in order.
    pub output: Seq<Seq<SPiece>>,
}

pub open spec fn push_scope(st: SState) -> SState {
    SState { scopes: st.scopes.push(Seq::empty()), ..st }
}

pub open spec fn pop_scope(st: SState) -> SState {
    SState { scopes: st.scopes.drop_last(), ..st }
}

/// The index of the innermost scope that binds `k`.
pub open spec fn binding_scope(scopes: Seq<Seq<(Seq<char>, SValue)>>, k: Seq<char>) -> Option<int>
    decreases scopes.len(),
{
    if scopes.len() == 0 {
        None
    } else if find_last(scopes.last(), k) is Some {
        Some(scopes.len() - 1)
    } else {
        binding_scope(scopes.drop_last(), k)
    }
}

/// `st` with the binding of `k` in the innermost scope that binds it
/// replaced by `v` (unchanged where no scope binds `k`).
pub open spec fn assign_var(st: SState, k: Seq<char>, v: SValue) -> SState {
    match binding_scope(st.scopes, k) {
        Some(j) => SState { scopes: st.scopes.update(j, assign(st.scopes[j], k, v)), ..st },
        None => st,
    }
}

/// `st` with `k` bound to `v` in its innermost scope.
pub open spec fn set_var(st: SState, k: Seq<char>, v: SValue) -> SState {
    SState {
        scopes: st.scopes.update(st.scopes.len() - 1, assign(st.scopes.last(), k, v)),
        ..st
    }
}

pub open spec fn with_return(st: SState, v: Option<SValue>) -> SState {
    SState { return_val: v, ..st }
}

pub open spec fn with_break(st: SState, b: bool) -> SState {
    SState { break_flag: b, ..st }
}

// ---------------------------------------------------------------------
// Values of expressions
// ---------------------------------------------------------------------

/// The value of a literal (a character literal gives null).
pub open spec fn literal_value(l: SLiteral) -> SValue {
    match l {
        SLiteral::Int(n) => SValue::Int(n),
        SLiteral::Float(b) => SValue::Float(b),
        SLiteral::String(s) => SValue::String(s),
        SLiteral::Bool(b) => SValue::Bool(b),
        SLiteral::Null => SValue::Null,
        SLiteral::Char(_) => SValue::Null,
    }
}

/// `i64` division, rounding toward zero.
pub open spec fn div_toward_zero(a: int, b: int) -> int {
    if a >= 0 {
        a / b
    } else {
        -((-a) / b)
    }
}

/// The remainder of `i64` division, with the sign of the dividend.
pub open spec fn rem_toward_zero(a: int, b: int) -> int {
    if a >= 0 {
        a % b
    } else {
        -((-a) % b)
    }
}

pub open spec fn in_i64(x: int) -> bool {
    i64::MIN <= x <= i64::MAX
}

/// An operation on two integers: `+ - * / %` give integers (or a fault),
/// the comparisons `== != < > <= >=` give booleans, and every other operator
/// gives the integer 0.
pub open spec fn int_op(a: i64, op: BinOp, b: i64) -> Result<SValue, Fault> {
    match op {
        BinOp::Add => if in_i64(a + b) { Ok(SValue::Int((a + b) as i64)) } else { Err(Fault::Overflow(op)) },
        BinOp::Sub => if in_i64(a - b) { Ok(SValue::Int((a - b) as i64)) } else { Err(Fault::Overflow(op)) },
        BinOp::Mul => if in_i64(a * b) { Ok(SValue::Int((a * b) as i64)) } else { Err(Fault::Overflow(op)) },
        BinOp::Div => if b == 0 {
            Err(Fault::ZeroDivisor(op))
        } else if a == i64::MIN && b == -1 {
            Err(Fault::Overflow(op))
        } else {
            Ok(SValue::Int(div_toward_zero(a as int, b as int) as i64))
        },
        BinOp::Mod => if b == 0 {
            Err(Fault::ZeroDivisor(op))
        } else if a == i64::MIN && b == -1 {
            Err(Fault::Overflow(op))
        } else {
            Ok(SValue::Int(rem_toward_zero(a as int, b as int) as i64))
        },
        BinOp::Eq => Ok(SValue::Bool(a == b)),
        BinOp::Lt => Ok(SValue::Bool(a < b)),
        BinOp::Gt => Ok(SValue::Bool(a > b)),
        BinOp::Neq => Ok(SValue::Bool(a != b)),
        BinOp::Le => Ok(SValue::Bool(a <= b)),
        BinOp::Ge => Ok(SValue::Bool(a >= b)),
        _ => Ok(SValue::Int(0)),
    }
}

/// Whether two values are of the same kind: both void, both booleans, both
/// integers, both floats, both strings, both arrays or both null.
pub open spec fn same_kind(l: SValue, r: SValue) -> bool {
    match (l, r) {
        (SValue::Void, SValue::Void) => true,
        (SValue::Bool(_), SValue::Bool(_)) => true,
        (SValue::Int(_), SValue::Int(_)) => true,
        (SValue::Float(_), SValue::Float(_)) => true,
        (SValue::String(_), SValue::String(_)) => true,
        (SValue::Array(_), SValue::Array(_)) => true,
        (SValue::Null, SValue::Null) => true,
        _ => false,
    }
}

/// A binary operation on two values: `&&` and `||` combine the truth of
/// both values; on two integers the operation is as [`int_op`] says; on two
/// strings `+` concatenates them and `==`, `!=` compare them. `+` on two
/// values of different kinds is the error `Cannot add`, and anything else
/// the error `Cannot op`.
pub open spec fn binary_value(l: SValue, op: BinOp, r: SValue) -> Result<SValue, SHalt> {
    if op == BinOp::And {
        Ok(SValue::Bool(crate::value::truth(l) && crate::value::truth(r)))
    } else if op == BinOp::Or {
        Ok(SValue::Bool(crate::value::truth(l) || crate::value::truth(r)))
    } else {
        match (l, r) {
            (SValue::Int(a), SValue::Int(b)) => match int_op(a, op, b) {
                Ok(v) => Ok(v),
                Err(f) => Err(SHalt::Fault(f)),
            },
            (SValue::String(a), SValue::String(b)) => if op == BinOp::Add {
                Ok(SValue::String(a + b))
            } else if op == BinOp::Eq {
                Ok(SValue::Bool(a == b))
            } else if op == BinOp::Neq {
                Ok(SValue::Bool(a != b))
            } else {
                Err(SHalt::Error("Cannot op"@))
            },
            _ => if op == BinOp::Add && !same_kind(l, r) {
                Err(SHalt::Error("Cannot add"@))
            } else {
                Err(SHalt::Error("Cannot op"@))
            },
        }
    }
}

/// The text of argument `i`, or no text when there is no such argument.
pub open spec fn arg_text(av: Seq<SValue>, i: int) -> Seq<SPiece> {
    if 0 <= i < av.len() {
        crate::value::render(av[i])
    } else {
        Seq::empty()
    }
}

/// The texts of all the values, one after the other.
pub open spec fn render_all(av: Seq<SValue>) -> Seq<SPiece>
    decreases av.len(),
{
    if av.len() == 0 {
        Seq::empty()
    } else {
        render_all(av.drop_last()) + crate::value::render(av.last())
    }
}

/// What an output call writes: the texts of its arguments, and a line
/// break for `println`.
pub open spec fn print_text(av: Seq<SValue>, newline: bool) -> Seq<SPiece> {
    if newline {
        render_all(av) + seq![SPiece::Text("\n"@)]
    } else {
        render_all(av)
    }
}

/// A request to the host: answered by the next unused reply, or the run
/// suspends with the request.
pub open spec fn host_call(st: SState, req: SRequest) -> (SState, Result<SValue, SHalt>) {
    if 0 <= st.cursor < st.replies.len() {
        let st1 = SState { cursor: st.cursor + 1, ..st };
        match reply_outcome(st.replies[st.cursor]) {
            Ok(v) => (st1, Ok(v)),
            Err(m) => (st1, Err(SHalt::Error(m))),
        }
    } else {
        (st, Err(SHalt::Suspend(req)))
    }
}

/// The function that a call name stands for: `m.f` is function `f` of the
/// imported module `m` (split at the first dot), any other name a function
/// of the running module.
pub open spec fn resolve(st: SState, name: Seq<char>) -> Option<SFunction> {
    match crate::lexer::find_char(name, 0, '.') {
        Some(d) => match lookup(st.modules, name.subrange(0, d)) {
            Some(fs) => fn_lookup(fs, name.subrange(d + 1, name.len() as int)),
            None => None,
        },
        None => fn_lookup(st.functions, name),
    }
}

/// Binds the parameters from index `i` on to the arguments (null for a
/// missing argument) in the innermost scope.
pub open spec fn bind_params(st: SState, ps: Seq<SParam>, av: Seq<SValue>, i: int) -> SState
    decreases ps.len() - i,
{
    if 0 <= i < ps.len() {
        let v = if i < av.len() {
            av[i]
        } else {
            SValue::Null
        };
        bind_params(set_var(st, ps[i].name, v), ps, av, i + 1)
    } else {
        st
    }
}

/// The value of an expression. An assignment `x = e` gives the value of
/// `e` and rebinds `x` in the innermost scope that binds it (an error where
/// none does); the operands of any other binary operator are evaluated
/// left to right and combined as [`binary_value`] says.
pub open spec fn eval(st: SState, e: SExpr, fuel: nat) -> (SState, Result<SValue, SHalt>)
    decreases fuel, 1int, e, 0int,
{
    match e {
        SExpr::Literal(l, _) => (st, Ok(literal_value(l))),
        SExpr::Identifier(n, _) => (
            st,
            match lookup_var(st.scopes, n) {
                Some(v) => Ok(v),
                None => Err(SHalt::Error("Undefined: "@ + n)),
            },
        ),
        SExpr::Binary(l, op, r, _) => if op == BinOp::Assign {
            let (st1, rv) = eval(st, *r, fuel);
            match rv {
                Err(h) => (st1, Err(h)),
                Ok(v) => match *l {
                    SExpr::Identifier(n, _) => if binding_scope(st1.scopes, n) is Some {
                        (assign_var(st1, n, v), Ok(v))
                    } else {
                        (st1, Err(SHalt::Error("Undefined: "@ + n)))
                    },
                    _ => (st1, Err(SHalt::Error("Cannot assign"@))),
                },
            }
        } else {
            let (st1, lv) = eval(st, *l, fuel);
            match lv {
                Err(h) => (st1, Err(h)),
                Ok(a) => {
                    let (st2, rv) = eval(st1, *r, fuel);
                    match rv {
                        Err(h) => (st2, Err(h)),
                        Ok(b) => (st2, binary_value(a, op, b)),
                    }
                },
            }
        },
        SExpr::Call(name, args, _) => {
            let (st1, av) = eval_args(st, args, 0, Seq::empty(), fuel);
            match av {
                Err(h) => (st1, Err(h)),
                Ok(av) => call_named(st1, name, av, fuel),
            }
        },
        _ => (st, Err(SHalt::Error("Not implemented"@))),
    }
}

/// The values of the arguments from index `i` on, after those in `acc`.
pub open spec fn eval_args(st: SState, args: Seq<SExpr>, i: int, acc: Seq<SValue>, fuel: nat) -> (
    SState,
    Result<Seq<SValue>, SHalt>,
)
    decreases fuel, 1int, args, args.len() - i,
{
    if 0 <= i < args.len() {
        let (st1, r) = eval(st, args[i], fuel);
        match r {
            Err(h) => (st1, Err(h)),
            Ok(v) => eval_args(st1, args, i + 1, acc.push(v), fuel),
        }
    } else {
        (st, Ok(acc))
    }
}

/// A call of the function named `name` with the argument values `av`: a
/// built-in (`read_line`, `print`, `println`, `http_get`, `http_post`,
/// `http_post_json`, `http_download`) or a function of the program.
pub open spec fn call_named(st: SState, name: Seq<char>, av: Seq<SValue>, fuel: nat) -> (
    SState,
    Result<SValue, SHalt>,
)
    decreases fuel, 0int, name, 0int,
{
    if name == "read_line"@ {
        host_call(st, SRequest::ReadLine)
    } else if name == "print"@ || name == "println"@ {
        (
            SState { output: st.output.push(print_text(av, name == "println"@)), ..st },
            Ok(SValue::Void),
        )
    } else if name == "http_get"@ {
        host_call(st, SRequest::HttpGet { url: arg_text(av, 0) })
    } else if name == "http_post"@ {
        host_call(st, SRequest::HttpPost { url: arg_text(av, 0), data: arg_text(av, 1) })
    } else if name == "http_post_json"@ {
        host_call(st, SRequest::HttpPostJson { url: arg_text(av, 0), json: arg_text(av, 1) })
    } else if name == "http_download"@ {
        host_call(st, SRequest::HttpDownload { url: arg_text(av, 0), path: arg_text(av, 1) })
    } else {
        match resolve(st, name) {
            None => (st, Err(SHalt::Error("Unknown: "@ + name))),
            Some(f) => if fuel == 0 {
                (st, Err(SHalt::OutOfFuel))
            } else {
                call_fn(st, f, av, (fuel - 1) as nat)
            },
        }
    }
}

/// A call of `f` with argument values `av`: a new scope holds the
/// parameters, the return value is cleared, the body runs, and the call
/// gives the return value (void when there is none), drops the scope and
/// clears the return value again, so that the caller goes on.
pub open spec fn call_fn(st: SState, f: SFunction, av: Seq<SValue>, fuel: nat) -> (
    SState,
    Result<SValue, SHalt>,
)
    decreases fuel, 3int, f, 0int,
{
    let st1 = with_return(bind_params(push_scope(st), f.params, av, 0), None);
    let (st2, r) = match f.body {
        Some(b) => exec_block(st1, b, 0, fuel),
        None => (st1, Ok(())),
    };
    match r {
        Err(h) => (st2, Err(h)),
        Ok(_) => (
            with_return(pop_scope(st2), None),
            Ok(
                match st2.return_val {
                    Some(v) => v,
                    None => SValue::Void,
                },
            ),
        ),
    }
}

/// Runs the statements of a block from index `i` on, stopping early once a
/// value was returned or a `break` was met.
pub open spec fn exec_block(st: SState, b: Seq<SStmt>, i: int, fuel: nat) -> (SState, Result<(), SHalt>)
    decreases fuel, 2int, b, b.len() - i,
{
    if !(0 <= i < b.len()) {
        (st, Ok(()))
    } else if st.return_val is Some || st.break_flag || st.continue_flag {
        (st, Ok(()))
    } else {
        let (st1, r) = exec_stmt(st, b[i], fuel);
        match r {
            Err(h) => (st1, Err(h)),
            Ok(_) => exec_block(st1, b, i + 1, fuel),
        }
    }
}

/// Runs a statement: a variable declaration binds in the innermost scope,
/// a block runs in a new scope, `return` records its value, `break` sets
/// the break flag, and the statements that the interpreter does not know
/// do nothing.
pub open spec fn exec_stmt(st: SState, s: SStmt, fuel: nat) -> (SState, Result<(), SHalt>)
    decreases fuel, 2int, s, 0int,
{
    match s {
        SStmt::Variable(n, _, init, _) => {
            let (st1, r) = match init {
                Some(e) => eval(st, e, fuel),
                None => (st, Ok(SValue::Null)),
            };
            match r {
                Err(h) => (st1, Err(h)),
                Ok(v) => (set_var(st1, n, v), Ok(())),
            }
        },
        SStmt::Expression(e, _) => {
            let (st1, r) = eval(st, e, fuel);
            match r {
                Err(h) => (st1, Err(h)),
                Ok(_) => (st1, Ok(())),
            }
        },
        SStmt::Block(b, _) => {
            let (st1, r) = exec_block(push_scope(st), b, 0, fuel);
            match r {
                Err(h) => (st1, Err(h)),
                Ok(_) => (pop_scope(st1), Ok(())),
            }
        },
        SStmt::If(c, t, e, _) => {
            let (st1, r) = eval(st, c, fuel);
            match r {
                Err(h) => (st1, Err(h)),
                Ok(v) => if crate::value::truth(v) {
                    exec_stmt(st1, *t, fuel)
                } else {
                    match e {
                        Some(x) => exec_stmt(st1, *x, fuel),
                        None => (st1, Ok(())),
                    }
                },
            }
        },
        SStmt::While(c, b, _) => while_loop(st, c, *b, fuel),
        SStmt::For(i, c, inc, b, _) => {
            let (st1, r) = exec_stmt(push_scope(st), *i, fuel);
            match r {
                Err(h) => (st1, Err(h)),
                Ok(_) => {
                    let (st2, r2) = for_loop(st1, c, inc, *b, fuel);
                    match r2 {
                        Err(h) => (st2, Err(h)),
                        Ok(_) => (pop_scope(st2), Ok(())),
                    }
                },
            }
        },
        SStmt::Return(e, _) => {
            let (st1, r) = match e {
                Some(x) => eval(st, x, fuel),
                None => (st, Ok(SValue::Void)),
            };
            match r {
                Err(h) => (st1, Err(h)),
                Ok(v) => (with_return(st1, Some(v)), Ok(())),
            }
        },
        SStmt::Break(_) => (with_break(st, true), Ok(())),
        _ => (st, Ok(())),
    }
}

/// A `while` loop: while the condition holds, run the body; a `break`
/// clears the flag and leaves the loop, and a `return` in the body leaves
/// it with the return value pending.
pub open spec fn while_loop(st: SState, c: SExpr, b: SStmt, fuel: nat) -> (SState, Result<(), SHalt>)
    decreases fuel, 2int, b, 0int,
{
    if fuel == 0 {
        (st, Err(SHalt::OutOfFuel))
    } else {
        let (st1, r) = eval(st, c, (fuel - 1) as nat);
        match r {
            Err(h) => (st1, Err(h)),
            Ok(v) => if !crate::value::truth(v) {
                (st1, Ok(()))
            } else {
                let (st2, r2) = exec_stmt(st1, b, (fuel - 1) as nat);
                match r2 {
                    Err(h) => (st2, Err(h)),
                    Ok(_) => if st2.break_flag {
                        (with_break(st2, false), Ok(()))
                    } else if st2.return_val is Some {
                        (st2, Ok(()))
                    } else {
                        while_loop(st2, c, b, (fuel - 1) as nat)
                    },
                }
            },
        }
    }
}

/// The condition of a `for` loop: true when there is none; a condition
/// whose evaluation fails with a program error counts as false.
pub open spec fn for_cond(st: SState, c: Option<SExpr>, fuel: nat) -> (SState, Result<bool, SHalt>)
    decreases fuel, 1int, c, 1int,
{
    match c {
        None => (st, Ok(true)),
        Some(x) => {
            let (st1, r) = eval(st, x, fuel);
            match r {
                Ok(v) => (st1, Ok(crate::value::truth(v))),
                Err(SHalt::Error(_)) => (st1, Ok(false)),
                Err(h) => (st1, Err(h)),
            }
        },
    }
}

/// A `for` loop after its initializer: while the condition holds, run the
/// body and then the increment; a `break` clears the flag and leaves the
/// loop, and a `return` in the body leaves it with the return value
/// pending.
pub open spec fn for_loop(st: SState, c: Option<SExpr>, inc: Option<SExpr>, b: SStmt, fuel: nat) -> (
    SState,
    Result<(), SHalt>,
)
    decreases fuel, 2int, b, 0int,
{
    if fuel == 0 {
        (st, Err(SHalt::OutOfFuel))
    } else {
        let f = (fuel - 1) as nat;
        let (st1, cr) = for_cond(st, c, f);
        match cr {
            Err(h) => (st1, Err(h)),
            Ok(false) => (st1, Ok(())),
            Ok(true) => {
                let (st2, r2) = exec_stmt(st1, b, f);
                match r2 {
                    Err(h) => (st2, Err(h)),
                    Ok(_) => if st2.break_flag {
                        (with_break(st2, false), Ok(()))
                    } else if st2.return_val is Some {
                        (st2, Ok(()))
                    } else {
                        let (st3, r3) = match inc {
                            Some(x) => eval(st2, x, f),
                            None => (st2, Ok(SValue::Void)),
                        };
                        match r3 {
                            Err(h) => (st3, Err(h)),
                            Ok(_) => for_loop(st3, c, inc, b, f),
                        }
                    },
                }
            },
        }
    }
}


/// The functions of a module's declarations added to `fs` in order: each
/// function, and the methods of each class.
pub open spec fn register_decls(fs: Seq<SFunction>, ds: Seq<crate::ast::SDecl>) -> Seq<SFunction>
    decreases ds.len(),
{
    if ds.len() == 0 {
        fs
    } else {
        let fs1 = register_decls(fs, ds.drop_last());
        match ds.last() {
            crate::ast::SDecl::Function(f) => fs1.push(f),
            crate::ast::SDecl::Class(c) => fs1 + c.methods,
            _ => fs1,
        }
    }
}

/// The first method named `main` of the classes among `ds`, in order.
pub open spec fn first_main_method(ds: Seq<crate::ast::SDecl>) -> Option<SFunction>
    decreases ds.len(),
{
    if ds.len() == 0 {
        None
    } else {
        match ds[0] {
            crate::ast::SDecl::Class(c) => match first_named(c.methods, "main"@) {
                Some(f) => Some(f),
                None => first_main_method(ds.drop_first()),
            },
            _ => first_main_method(ds.drop_first()),
        }
    }
}

/// The first function of `fs` named `name`.
pub open spec fn first_named(fs: Seq<SFunction>, name: Seq<char>) -> Option<SFunction>
    decreases fs.len(),
{
    if fs.len() == 0 {
        None
    } else if fs[0].name == name {
        Some(fs[0])
    } else {
        first_named(fs.drop_first(), name)
    }
}

/// Running a module: its functions and methods are added to the function
/// table, and `main` is called without arguments; without a `main` the run
/// fails with `No main`.
pub open spec fn execute(st: SState, m: crate::ast::SModule, fuel: nat) -> (SState, Result<SValue, SHalt>) {
    let st1 = SState { functions: register_decls(st.functions, m.declarations), ..st };
    match fn_lookup(st1.functions, "main"@) {
        Some(f) => call_fn(st1, f, Seq::empty(), fuel),
        None => match first_main_method(m.declarations) {
            Some(f) => call_fn(st1, f, Seq::empty(), fuel),
            None => (st1, Err(SHalt::Error("No main"@))),
        },
    }
}

// ---------------------------------------------------------------------
// The executable interpreter
// ---------------------------------------------------------------------

pub open spec fn scope_view(sc: Seq<(String, Value)>) -> Seq<(Seq<char>, SValue)> {
    sc.map_values(|p: (String, Value)| (p.0@, p.1@))
}

pub open spec fn opt_value_view(v: Option<Value>) -> Option<SValue> {
    match v {
        Some(x) => Some(x@),
        None => None,
    }
}

pub open spec fn result_view(r: Result<Value, Halt>) -> Result<SValue, SHalt> {
    match r {
        Ok(v) => Ok(v@),
        Err(h) => Err(h@),
    }
}

pub open spec fn unit_view(r: Result<(), Halt>) -> Result<(), SHalt> {
    match r {
        Ok(_) => Ok(()),
        Err(h) => Err(h@),
    }
}

/// The interpreter: its variable scopes, the functions of the running
/// module, the imported modules, the control flags, the host's replies and
/// the output so far.
pub struct Interpreter {
    scopes: Vec<Vec<(String, Value)>>,
    functions: FnTable,
    modules: Vec<(String, FnTable)>,
    return_val: Option<Value>,
    break_flag: bool,
    continue_flag: bool,
    replies: Vec<Reply>,
    cursor: usize,
    output: Vec<Vec<Piece>>,
    fuel: u64,
}

impl View for Interpreter {
    type V = SState;

    closed spec fn view(&self) -> SState {
        SState {
            scopes: self.scopes@.map_values(|sc: Vec<(String, Value)>| scope_view(sc@)),
            functions: self.functions@,
            modules: self.modules@.map_values(|m: (String, FnTable)| (m.0@, m.1@)),
            return_val: opt_value_view(self.return_val),
            break_flag: self.break_flag,
            continue_flag: self.continue_flag,
            replies: self.replies@.map_values(|r: Reply| r@),
            cursor: self.cursor as int,
            output: self.output@.map_values(|o: Vec<Piece>| crate::value::pieces_view(o@)),
        }
    }
}

/// The state of a fresh interpreter: one empty scope, no functions, no
/// modules, no replies and no output.
pub open spec fn initial_state() -> SState {
    SState {
        scopes: seq![Seq::empty()],
        functions: Seq::empty(),
        modules: Seq::empty(),
        return_val: None,
        break_flag: false,
        continue_flag: false,
        replies: Seq::empty(),
        cursor: 0,
        output: Seq::empty(),
    }
}

impl FnTable {
    /// An empty table.
    pub fn new() -> (t: FnTable)
        ensures
            t@ == Seq::<SFunction>::empty(),
    {
        let t = FnTable { entries: Vec::new() };
        assert(t@ =~= Seq::<SFunction>::empty());
        t
    }

    /// Adds `f`, which hides any earlier function of its name.
    pub fn insert(&mut self, f: FunctionDecl)
        ensures
            final(self)@ == old(self)@.push(f@),
    {
        self.entries.push(f);
        assert(self@ =~= old(self)@.push(f@));
    }

    /// A copy of the function named `name`, if there is one.
    pub fn get(&self, name: &str) -> (r: Option<FunctionDecl>)
        ensures
            match r {
                Some(f) => fn_lookup(self@, name@) == Some(f@),
                None => fn_lookup(self@, name@) is None,
            },
    {
        let mut i = self.entries.len();
        assert(self@.take(i as int) =~= self@);
        while i > 0
            invariant
                i <= self.entries.len(),
                self@.len() == self.entries.len(),
                fn_lookup(self@, name@) == fn_lookup(self@.take(i as int), name@),
            decreases i,
        {
            let ghost t = self@.take(i as int);
            assert(t.drop_last() =~= self@.take(i - 1));
            assert(t.last() == self.entries@[i - 1]@);
            if crate::text::str_eq(self.entries[i - 1].name.as_str(), name) {
                return Some(self.entries[i - 1].copy());
            }
            i -= 1;
        }
        None
    }
}


fn find_in_scope(sc: &Vec<(String, Value)>, k: &String) -> (r: Option<usize>)
    ensures
        match r {
            Some(j) => find_last(scope_view(sc@), k@) == Some(j as int) && j < sc.len(),
            None => find_last(scope_view(sc@), k@) is None,
        },
{
    let ghost full = scope_view(sc@);
    let mut i = sc.len();
    assert(full.take(i as int) =~= full);
    while i > 0
        invariant
            i <= sc.len(),
            full == scope_view(sc@),
            full.len() == sc.len(),
            find_last(full, k@) == find_last(full.take(i as int), k@),
        decreases i,
    {
        let ghost t = full.take(i as int);
        assert(t.drop_last() =~= full.take(i - 1));
        if sc[i - 1].0 == *k {
            assert(t.last().0 == k@);
            return Some(i - 1);
        }
        i -= 1;
    }
    None
}

pub(crate) proof fn lemma_find_last_bound<V>(s: Seq<(Seq<char>, V)>, k: Seq<char>)
    ensures
        find_last(s, k) matches Some(j) ==> 0 <= j < s.len() && s[j].0 == k,
        find_last(s, k) is None ==> forall|i: int| 0 <= i < s.len() ==> s[i].0 != k,
    decreases s.len(),
{
    if s.len() > 0 && s.last().0 != k {
        lemma_find_last_bound(s.drop_last(), k);
        if find_last(s, k) is None {
            assert forall|i: int| 0 <= i < s.len() implies #[trigger] s[i].0 != k by {
                if i < s.len() - 1 {
                    assert(s[i] == s.drop_last()[i]);
                }
            }
        }
    }
}

/// Whether no two entries of a table have the same key.
pub open spec fn keys_distinct<V>(s: Seq<(Seq<char>, V)>) -> bool {
    forall|i: int, j: int| 0 <= i < j < s.len() ==> #[trigger] s[i].0 != #[trigger] s[j].0
}

/// Binding a key in a table whose keys are distinct keeps them distinct.
pub proof fn lemma_assign_distinct<V>(s: Seq<(Seq<char>, V)>, k: Seq<char>, v: V)
    requires
        keys_distinct(s),
    ensures
        keys_distinct(assign(s, k, v)),
{
    lemma_find_last_bound(s, k);
    let t = assign(s, k, v);
    match find_last(s, k) {
        Some(j) => {
            assert forall|a: int, b: int| 0 <= a < b < t.len() implies #[trigger] t[a].0 != #[trigger] t[b].0 by {
                assert(t[a].0 == s[a].0 && t[b].0 == s[b].0);
            }
        },
        None => {
            assert forall|a: int, b: int| 0 <= a < b < t.len() implies #[trigger] t[a].0 != #[trigger] t[b].0 by {
                if b < s.len() {
                    assert(t[a] == s[a] && t[b] == s[b]);
                } else {
                    assert(t[a] == s[a]);
                }
            }
        },
    }
}

/// A function added to a table is what its name finds there; the other
/// names find what they found before.
pub proof fn lemma_fn_lookup_push(fs: Seq<SFunction>, f: SFunction, name: Seq<char>)
    ensures
        fn_lookup(fs.push(f), f.name) == Some(f),
        name != f.name ==> fn_lookup(fs.push(f), name) == fn_lookup(fs, name),
{
    assert(fs.push(f).drop_last() =~= fs);
}

/// Where two tables have the same keys in the same places, a key's last
/// entry is at the same place in both.
proof fn lemma_find_last_same_keys<V>(s: Seq<(Seq<char>, V)>, t: Seq<(Seq<char>, V)>, k: Seq<char>)
    requires
        s.len() == t.len(),
        forall|i: int| 0 <= i < s.len() ==> #[trigger] s[i].0 == t[i].0,
    ensures
        find_last(s, k) == find_last(t, k),
    decreases s.len(),
{
    if s.len() > 0 {
        lemma_find_last_same_keys(s.drop_last(), t.drop_last(), k);
    }
}

/// Reading a key after binding it gives the bound value; binding a key
/// leaves what every other key reads unchanged.
pub proof fn lemma_assign_lookup<V>(s: Seq<(Seq<char>, V)>, k: Seq<char>, v: V, k2: Seq<char>)
    ensures
        lookup(assign(s, k, v), k) == Some(v),
        k2 != k ==> lookup(assign(s, k, v), k2) == lookup(s, k2),
{
    lemma_find_last_bound(s, k);
    match find_last(s, k) {
        Some(j) => {
            let t = s.update(j, (k, v));
            lemma_find_last_same_keys(s, t, k);
            lemma_find_last_same_keys(s, t, k2);
            lemma_find_last_bound(s, k2);
        },
        None => {
            let t = s.push((k, v));
            assert(t.drop_last() =~= s);
            lemma_find_last_bound(s, k2);
        },
    }
}

/// Reading a variable after setting it gives the value set; setting a
/// variable leaves what every other variable reads unchanged.
pub proof fn lemma_set_var_lookup(st: SState, k: Seq<char>, v: SValue, k2: Seq<char>)
    requires
        st.scopes.len() >= 1,
    ensures
        lookup_var(set_var(st, k, v).scopes, k) == Some(v),
        k2 != k ==> lookup_var(set_var(st, k, v).scopes, k2) == lookup_var(st.scopes, k2),
{
    let sc = set_var(st, k, v).scopes;
    lemma_assign_lookup(st.scopes.last(), k, v, k2);
    assert(sc.drop_last() =~= st.scopes.drop_last());
    assert(sc.last() == assign(st.scopes.last(), k, v));
}

fn message(prefix: &str, rest: &str) -> (m: String)
    ensures
        m@ == prefix@ + rest@,
{
    let mut m = String::new();
    crate::text::push_str(&mut m, prefix);
    crate::text::push_str(&mut m, rest);
    assert(m@ =~= prefix@ + rest@);
    m
}

fn literal_val(l: &Literal) -> (v: Value)
    ensures
        v@ == literal_value(l@),
{
    match l {
        Literal::Int(n) => Value::Int(*n),
        Literal::Float(t) => Value::Float(t.clone()),
        Literal::String(s) => Value::String(s.clone()),
        Literal::Bool(b) => Value::Bool(*b),
        Literal::Null => Value::Null,
        Literal::Char(_) => Value::Null,
    }
}

fn int_operation(a: i64, op: BinOp, b: i64) -> (r: Result<Value, Halt>)
    ensures
        result_view(r) == match int_op(a, op, b) {
            Ok(v) => Ok(v),
            Err(f) => Err(SHalt::Fault(f)),
        },
{
    let wa = a as i128;
    let wb = b as i128;
    match op {
        BinOp::Add => {
            let x = wa + wb;
            if x < -9223372036854775808i128 || x > 9223372036854775807i128 {
                Err(Halt::Fault(Fault::Overflow(op)))
            } else {
                Ok(Value::Int(x as i64))
            }
        },
        BinOp::Sub => {
            let x = wa - wb;
            if x < -9223372036854775808i128 || x > 9223372036854775807i128 {
                Err(Halt::Fault(Fault::Overflow(op)))
            } else {
                Ok(Value::Int(x as i64))
            }
        },
        BinOp::Mul => {
            assert(-85070591730234615865843651857942052864int <= wa * wb
                <= 85070591730234615865843651857942052864int) by (nonlinear_arith)
                requires
                    -9223372036854775808int <= wa <= 9223372036854775807int,
                    -9223372036854775808int <= wb <= 9223372036854775807int,
            ;
            let x = wa * wb;
            if x < -9223372036854775808i128 || x > 9223372036854775807i128 {
                Err(Halt::Fault(Fault::Overflow(op)))
            } else {
                Ok(Value::Int(x as i64))
            }
        },
        BinOp::Div => {
            if b == 0 {
                Err(Halt::Fault(Fault::ZeroDivisor(op)))
            } else if a == i64::MIN && b == -1 {
                Err(Halt::Fault(Fault::Overflow(op)))
            } else {
                Ok(Value::Int(a / b))
            }
        },
        BinOp::Mod => {
            if b == 0 {
                Err(Halt::Fault(Fault::ZeroDivisor(op)))
            } else if a == i64::MIN && b == -1 {
                Err(Halt::Fault(Fault::Overflow(op)))
            } else {
                Ok(Value::Int(a % b))
            }
        },
        BinOp::Eq => Ok(Value::Bool(a == b)),
        BinOp::Lt => Ok(Value::Bool(a < b)),
        BinOp::Gt => Ok(Value::Bool(a > b)),
        BinOp::Neq => Ok(Value::Bool(a != b)),
        BinOp::Le => Ok(Value::Bool(a <= b)),
        BinOp::Ge => Ok(Value::Bool(a >= b)),
        _ => Ok(Value::Int(0)),
    }
}

fn kinds_match(l: &Value, r: &Value) -> (b: bool)
    ensures
        b == same_kind(l@, r@),
{
    match (l, r) {
        (Value::Void, Value::Void) => true,
        (Value::Bool(_), Value::Bool(_)) => true,
        (Value::Int(_), Value::Int(_)) => true,
        (Value::Float(_), Value::Float(_)) => true,
        (Value::String(_), Value::String(_)) => true,
        (Value::Array(_), Value::Array(_)) => true,
        (Value::Null, Value::Null) => true,
        _ => false,
    }
}

fn binary(l: &Value, op: BinOp, r: &Value) -> (res: Result<Value, Halt>)
    ensures
        result_view(res) == binary_value(l@, op, r@),
{
    if matches!(op, BinOp::And) {
        return Ok(Value::Bool(l.as_bool() && r.as_bool()));
    }
    if matches!(op, BinOp::Or) {
        return Ok(Value::Bool(l.as_bool() || r.as_bool()));
    }
    match (l, r) {
        (Value::Int(a), Value::Int(b)) => int_operation(*a, op, *b),
        (Value::String(a), Value::String(b)) => {
            if matches!(op, BinOp::Add) {
                Ok(Value::String(message(a.as_str(), b.as_str())))
            } else if matches!(op, BinOp::Eq) {
                Ok(Value::Bool(crate::text::str_eq(a.as_str(), b.as_str())))
            } else if matches!(op, BinOp::Neq) {
                Ok(Value::Bool(!crate::text::str_eq(a.as_str(), b.as_str())))
            } else {
                Err(Halt::Error("Cannot op".to_owned()))
            }
        },
        _ => {
            if matches!(op, BinOp::Add) && !kinds_match(l, r) {
                Err(Halt::Error("Cannot add".to_owned()))
            } else {
                Err(Halt::Error("Cannot op".to_owned()))
            }
        },
    }
}

fn arg_pieces(av: &Vec<Value>, i: usize) -> (r: Vec<Piece>)
    ensures
        crate::value::pieces_view(r@) == arg_text(values_seq(av@), i as int),
{
    if i < av.len() {
        av[i].pieces()
    } else {
        let r: Vec<Piece> = Vec::new();
        assert(crate::value::pieces_view(r@) =~= Seq::<SPiece>::empty());
        r
    }
}

pub open spec fn values_seq(av: Seq<Value>) -> Seq<SValue> {
    av.map_values(|v: Value| v@)
}

fn print_pieces(av: &Vec<Value>, newline: bool) -> (r: Vec<Piece>)
    ensures
        crate::value::pieces_view(r@) == print_text(values_seq(av@), newline),
{
    let mut out: Vec<Piece> = Vec::new();
    let mut i: usize = 0;
    assert(crate::value::pieces_view(out@) =~= render_all(values_seq(av@).take(0)));
    while i < av.len()
        invariant
            i <= av.len(),
            crate::value::pieces_view(out@) == render_all(values_seq(av@).take(i as int)),
        decreases av.len() - i,
    {
        av[i].push_pieces(&mut out);
        proof {
            let t = values_seq(av@).take(i + 1);
            assert(t.drop_last() =~= values_seq(av@).take(i as int));
        }
        i += 1;
    }
    assert(values_seq(av@).take(av.len() as int) =~= values_seq(av@));
    if newline {
        let ghost before = crate::value::pieces_view(out@);
        out.push(Piece::Text("\n".to_owned()));
        assert(crate::value::pieces_view(out@) =~= before + seq![SPiece::Text("\n"@)]);
    }
    out
}

impl Interpreter {
    /// A fresh interpreter: one empty scope, no functions, no modules, no
    /// replies, no output, and fuel `u64::MAX`.
    pub fn new() -> (r: Interpreter)
        ensures
            r@ == initial_state(),
            r.fuel() == u64::MAX,
            r.wf(),
    {
        let mut scopes: Vec<Vec<(String, Value)>> = Vec::new();
        let first: Vec<(String, Value)> = Vec::new();
        assert(scope_view(first@) =~= Seq::<(Seq<char>, SValue)>::empty());
        scopes.push(first);
        let r = Interpreter {
            scopes,
            functions: FnTable::new(),
            modules: Vec::new(),
            return_val: None,
            break_flag: false,
            continue_flag: false,
            replies: Vec::new(),
            cursor: 0,
            output: Vec::new(),
            fuel: u64::MAX,
        };
        assert(r@.scopes =~= seq![Seq::<(Seq<char>, SValue)>::empty()]);
        assert(r@.modules =~= Seq::<(Seq<char>, Seq<SFunction>)>::empty());
        assert(r@.replies =~= Seq::<SReply>::empty());
        assert(r@.output =~= Seq::<Seq<SPiece>>::empty());
        r
    }

    /// The fuel that each run gets.
    pub closed spec fn fuel(&self) -> nat {
        self.fuel as nat
    }

    /// Whether the interpreter has a scope to bind variables in.
    pub closed spec fn wf(&self) -> bool {
        self.scopes.len() >= 1
    }

    fn push_scope(&mut self)
        ensures
            final(self)@ == push_scope(old(self)@),
            final(self).fuel == old(self).fuel,
            final(self).scopes.len() == old(self).scopes.len() + 1,
    {
        let fresh: Vec<(String, Value)> = Vec::new();
        assert(scope_view(fresh@) =~= Seq::<(Seq<char>, SValue)>::empty());
        self.scopes.push(fresh);
        assert(self@.scopes =~= old(self)@.scopes.push(Seq::empty()));
    }

    fn pop_scope(&mut self)
        requires
            old(self).scopes.len() >= 1,
        ensures
            final(self)@ == pop_scope(old(self)@),
            final(self).fuel == old(self).fuel,
            final(self).scopes.len() == old(self).scopes.len() - 1,
    {
        let _ = self.scopes.pop();
        assert(self@.scopes =~= old(self)@.scopes.drop_last());
    }

    /// The value of variable `k`, from the innermost scope that binds it.
    fn get(&self, k: &String) -> (r: Option<Value>)
        ensures
            opt_value_view(r) == lookup_var(self@.scopes, k@),
    {
        let ghost all = self@.scopes;
        let mut i = self.scopes.len();
        assert(all.take(i as int) =~= all);
        while i > 0
            invariant
                i <= self.scopes.len(),
                all == self@.scopes,
                all.len() == self.scopes.len(),
                lookup_var(all, k@) == lookup_var(all.take(i as int), k@),
            decreases i,
        {
            let ghost t = all.take(i as int);
            assert(t.drop_last() =~= all.take(i - 1));
            assert(t.last() == scope_view(self.scopes@[i - 1]@));
            match find_in_scope(&self.scopes[i - 1], k) {
                Some(j) => {
                    return Some(self.scopes[i - 1][j].1.copy());
                },
                None => {},
            }
            i -= 1;
        }
        None
    }

    /// Binds `k` to `v` in the innermost scope.
    fn set(&mut self, k: &String, v: Value)
        requires
            old(self).scopes.len() >= 1,
        ensures
            final(self)@ == set_var(old(self)@, k@, v@),
            final(self).scopes.len() == old(self).scopes.len(),
            final(self).fuel == old(self).fuel,
    {
        let ghost vv = v@;
        let mut sc = match self.scopes.pop() {
            Some(sc) => sc,
            None => Vec::new(),
        };
        let ghost before = scope_view(sc@);
        match find_in_scope(&sc, k) {
            Some(j) => {
                sc.set(j, (k.clone(), v));
                assert(scope_view(sc@) =~= before.update(j as int, (k@, vv)));
            },
            None => {
                sc.push((k.clone(), v));
                assert(scope_view(sc@) =~= before.push((k@, vv)));
            },
        }
        self.scopes.push(sc);
        assert(self@.scopes =~= old(self)@.scopes.update(
            old(self)@.scopes.len() - 1,
            assign(old(self)@.scopes.last(), k@, vv),
        ));
    }

    /// Replaces the binding of `k` in the innermost scope that binds it by
    /// `v`; false, with nothing changed, where no scope binds `k`.
    fn assign(&mut self, k: &String, v: Value) -> (found: bool)
        ensures
            found == (binding_scope(old(self)@.scopes, k@) is Some),
            final(self)@ == assign_var(old(self)@, k@, v@),
            final(self).scopes.len() == old(self).scopes.len(),
            final(self).fuel == old(self).fuel,
    {
        let ghost all = self@.scopes;
        let ghost vv = v@;
        let mut i = self.scopes.len();
        assert(all.take(i as int) =~= all);
        while i > 0
            invariant
                i <= self.scopes.len(),
                all == self@.scopes,
                all.len() == self.scopes.len(),
                self@ == old(self)@,
                self.scopes.len() == old(self).scopes.len(),
                self.fuel == old(self).fuel,
                vv == v@,
                binding_scope(all, k@) == binding_scope(all.take(i as int), k@),
            decreases i,
        {
            let ghost t = all.take(i as int);
            assert(t.drop_last() =~= all.take(i - 1));
            assert(t.last() == scope_view(self.scopes@[i - 1]@));
            match find_in_scope(&self.scopes[i - 1], k) {
                Some(j) => {
                    let mut sc = self.scopes.remove(i - 1);
                    let ghost before = scope_view(sc@);
                    sc.set(j, (k.clone(), v));
                    assert(scope_view(sc@) =~= before.update(j as int, (k@, vv)));
                    self.scopes.insert(i - 1, sc);
                    assert(self@.scopes =~= all.update(i - 1, assign(all[i - 1], k@, vv)));
                    return true;
                },
                None => {},
            }
            i -= 1;
        }
        assert(all.take(0) =~= Seq::<Seq<(Seq<char>, SValue)>>::empty());
        false
    }

    /// Answers a request from the next unused reply, or suspends.
    fn host_call(&mut self, req: Request) -> (r: Result<Value, Halt>)
        ensures
            (final(self)@, result_view(r)) == host_call(old(self)@, req@),
            final(self).scopes.len() == old(self).scopes.len(),
            final(self).fuel == old(self).fuel,
    {
        if self.cursor >= self.replies.len() {
            return Err(Halt::Suspend(req));
        }
        let k = self.cursor;
        self.cursor = k + 1;
        match &self.replies[k] {
            Reply::Line(s) => Ok(Value::String(crate::value::trim_string(s))),
            Reply::Body(s) => Ok(Value::String(s.clone())),
            Reply::HttpError(e) => Err(Halt::Error(message("HTTP: ", e.as_str()))),
            Reply::FileError(e) => Err(Halt::Error(message("File: ", e.as_str()))),
            Reply::DownloadError(e) => Err(Halt::Error(message("Download: ", e.as_str()))),
            Reply::Saved => Ok(Value::Bool(true)),
        }
    }
}


pub open spec fn values_result(r: Result<Vec<Value>, Halt>) -> Result<Seq<SValue>, SHalt> {
    match r {
        Ok(v) => Ok(values_seq(v@)),
        Err(h) => Err(h@),
    }
}

impl Interpreter {
    /// The function that a call name stands for.
    fn resolve_fn(&self, name: &String) -> (r: Option<FunctionDecl>)
        ensures
            match r {
                Some(f) => resolve(self@, name@) == Some(f@),
                None => resolve(self@, name@) is None,
            },
    {
        let cs = crate::lexer::chars_of(name.as_str());
        let mut d: usize = 0;
        while d < cs.len() && cs[d] != '.'
            invariant
                d <= cs.len(),
                cs@ == name@,
                crate::lexer::find_char(cs@, 0, '.') == crate::lexer::find_char(cs@, d as int, '.'),
            decreases cs.len() - d,
        {
            d += 1;
        }
        if d < cs.len() {
            let prefix = crate::lexer::text_of(&cs, 0, d);
            let suffix = crate::lexer::text_of(&cs, d + 1, cs.len());
            let ghost ms = self@.modules;
            let mut i = self.modules.len();
            assert(ms.take(i as int) =~= ms);
            assert(crate::lexer::find_char(cs@, d as int, '.') == Some(d as int));
            while i > 0
                invariant
                    crate::lexer::find_char(name@, 0, '.') == Some(d as int),
                    prefix@ == name@.subrange(0, d as int),
                    suffix@ == name@.subrange(d + 1, name@.len() as int),
                    i <= self.modules.len(),
                    ms == self@.modules,
                    ms.len() == self.modules.len(),
                    find_last(ms, prefix@) == find_last(ms.take(i as int), prefix@),
                decreases i,
            {
                let ghost t = ms.take(i as int);
                assert(t.drop_last() =~= ms.take(i - 1));
                if self.modules[i - 1].0 == prefix {
                    assert(t.last().0 == prefix@);
                    assert(ms[i - 1] == (self.modules@[i - 1].0@, self.modules@[i - 1].1@));
                    assert(find_last(ms, prefix@) == Some(i - 1));
                    assert(lookup(ms, prefix@) == Some(self.modules@[i - 1].1@));
                    return self.modules[i - 1].1.get(suffix.as_str());
                }
                i -= 1;
            }
            assert(find_last(ms, prefix@) is None);
            None
        } else {
            assert(crate::lexer::find_char(cs@, 0, '.') is None);
            self.functions.get(name.as_str())
        }
    }

    /// Evaluates an expression.
    fn eval_in(&mut self, e: &Expression, fuel: u64) -> (r: Result<Value, Halt>)
        requires
            old(self).scopes.len() >= 1,
        ensures
            (final(self)@, result_view(r)) == eval(old(self)@, e@, fuel as nat),
            final(self).scopes.len() >= old(self).scopes.len(),
            final(self).fuel == old(self).fuel,
        decreases fuel, 1int, e, 0int,
    {
        match e {
            Expression::Literal(l, _) => Ok(literal_val(l)),
            Expression::Identifier(n, _) => match self.get(n) {
                Some(v) => Ok(v),
                None => Err(Halt::Error(message("Undefined: ", n.as_str()))),
            },
            Expression::Binary(l, op, r, sp) => {
                if matches!(op, BinOp::Assign) {
                    return self.eval_assign(l, r, *sp, fuel);
                }
                let a = match self.eval_in(l, fuel) {
                    Ok(a) => a,
                    Err(h) => return Err(h),
                };
                let b = match self.eval_in(r, fuel) {
                    Ok(b) => b,
                    Err(h) => return Err(h),
                };
                binary(&a, *op, &b)
            },
            Expression::Call(name, args, _) => {
                let av = match self.eval_args(args, fuel) {
                    Ok(av) => av,
                    Err(h) => return Err(h),
                };
                self.call_named(name, av, fuel)
            },
            _ => Err(Halt::Error("Not implemented".to_owned())),
        }
    }

    /// Evaluates the assignment `l = r`.
    fn eval_assign(&mut self, l: &Expression, r: &Expression, sp: crate::ast::Span, fuel: u64) -> (res: Result<Value, Halt>)
        requires
            old(self).scopes.len() >= 1,
        ensures
            (final(self)@, result_view(res)) == eval(
                old(self)@,
                SExpr::Binary(Box::new(l@), BinOp::Assign, Box::new(r@), sp),
                fuel as nat,
            ),
            final(self).scopes.len() >= old(self).scopes.len(),
            final(self).fuel == old(self).fuel,
        decreases fuel, 1int, r, 1int,
    {
        let v = match self.eval_in(r, fuel) {
            Ok(v) => v,
            Err(h) => return Err(h),
        };
        match l {
            Expression::Identifier(n, _) => {
                let shown = v.copy();
                if self.assign(n, v) {
                    Ok(shown)
                } else {
                    Err(Halt::Error(message("Undefined: ", n.as_str())))
                }
            },
            _ => Err(Halt::Error("Cannot assign".to_owned())),
        }
    }

    /// Evaluates the arguments of a call, in order.
    fn eval_args(&mut self, args: &Vec<Expression>, fuel: u64) -> (r: Result<Vec<Value>, Halt>)
        requires
            old(self).scopes.len() >= 1,
        ensures
            (final(self)@, values_result(r)) == eval_args(
                old(self)@,
                crate::ast::exprs_view(args@),
                0,
                Seq::empty(),
                fuel as nat,
            ),
            final(self).scopes.len() >= old(self).scopes.len(),
            final(self).fuel == old(self).fuel,
        decreases fuel, 1int, args, 0int,
    {
        let ghost xs = crate::ast::exprs_view(args@);
        proof {
            crate::ast::lemma_exprs_view(args@);
        }
        let mut av: Vec<Value> = Vec::new();
        let mut i: usize = 0;
        assert(values_seq(av@) =~= Seq::<SValue>::empty());
        while i < args.len()
            invariant
                i <= args.len(),
                xs == crate::ast::exprs_view(args@),
                xs.len() == args.len(),
                forall|k: int| 0 <= k < args.len() ==> #[trigger] xs[k] == args@[k]@,
                eval_args(old(self)@, xs, 0, Seq::empty(), fuel as nat) == eval_args(
                    self@,
                    xs,
                    i as int,
                    values_seq(av@),
                    fuel as nat,
                ),
                self.scopes.len() >= old(self).scopes.len(),
                old(self).scopes.len() >= 1,
                self.fuel == old(self).fuel,
            decreases args.len() - i,
        {
            let v = match self.eval_in(&args[i], fuel) {
                Ok(v) => v,
                Err(h) => return Err(h),
            };
            let ghost before = values_seq(av@);
            let ghost vv = v@;
            av.push(v);
            assert(values_seq(av@) =~= before.push(vv));
            i += 1;
        }
        Ok(av)
    }

    /// Calls the built-in or program function named `name`.
    fn call_named(&mut self, name: &String, av: Vec<Value>, fuel: u64) -> (r: Result<Value, Halt>)
        requires
            old(self).scopes.len() >= 1,
        ensures
            (final(self)@, result_view(r)) == call_named(old(self)@, name@, values_seq(av@), fuel as nat),
            final(self).scopes.len() >= old(self).scopes.len(),
            final(self).fuel == old(self).fuel,
        decreases fuel, 0int, name, 0int,
    {
        let n = name.as_str();
        if crate::text::str_eq(n, "read_line") {
            return self.host_call(Request::ReadLine);
        }
        if crate::text::str_eq(n, "print") || crate::text::str_eq(n, "println") {
            let text = print_pieces(&av, crate::text::str_eq(n, "println"));
            let ghost before = self@.output;
            let ghost tv = crate::value::pieces_view(text@);
            self.output.push(text);
            assert(self@.output =~= before.push(tv));
            return Ok(Value::Void);
        }
        if crate::text::str_eq(n, "http_get") {
            return self.host_call(Request::HttpGet { url: arg_pieces(&av, 0) });
        }
        if crate::text::str_eq(n, "http_post") {
            return self.host_call(Request::HttpPost { url: arg_pieces(&av, 0), data: arg_pieces(&av, 1) });
        }
        if crate::text::str_eq(n, "http_post_json") {
            return self.host_call(
                Request::HttpPostJson { url: arg_pieces(&av, 0), json: arg_pieces(&av, 1) },
            );
        }
        if crate::text::str_eq(n, "http_download") {
            return self.host_call(
                Request::HttpDownload { url: arg_pieces(&av, 0), path: arg_pieces(&av, 1) },
            );
        }
        match self.resolve_fn(name) {
            None => Err(Halt::Error(message("Unknown: ", n))),
            Some(f) => {
                if fuel == 0 {
                    Err(Halt::OutOfFuel)
                } else {
                    self.call_fn(&f, &av, fuel - 1)
                }
            },
        }
    }

    /// Calls `f` with the argument values `av`.
    fn call_fn(&mut self, f: &FunctionDecl, av: &Vec<Value>, fuel: u64) -> (r: Result<Value, Halt>)
        requires
            old(self).scopes.len() >= 1,
        ensures
            (final(self)@, result_view(r)) == call_fn(old(self)@, f@, values_seq(av@), fuel as nat),
            final(self).scopes.len() >= old(self).scopes.len(),
            final(self).fuel == old(self).fuel,
        decreases fuel, 3int, f, 0int,
    {
        let ghost ps = crate::ast::params_view(f.params@);
        let ghost args = values_seq(av@);
        self.push_scope();
        let ghost st0 = self@;
        let mut i: usize = 0;
        while i < f.params.len()
            invariant
                i <= f.params.len(),
                ps == crate::ast::params_view(f.params@),
                args == values_seq(av@),
                bind_params(st0, ps, args, 0) == bind_params(self@, ps, args, i as int),
                self.scopes.len() == old(self).scopes.len() + 1,
                self.fuel == old(self).fuel,
            decreases f.params.len() - i,
        {
            let v = if i < av.len() {
                av[i].copy()
            } else {
                Value::Null
            };
            self.set(&f.params[i].name, v);
            i += 1;
        }
        self.return_val = None;
        match &f.body {
            Some(b) => {
                match self.exec_block(b, fuel) {
                    Ok(()) => {},
                    Err(h) => return Err(h),
                }
            },
            None => {},
        }
        let r = match &self.return_val {
            Some(v) => v.copy(),
            None => Value::Void,
        };
        self.pop_scope();
        self.return_val = None;
        Ok(r)
    }

    /// Runs the statements of a block.
    fn exec_block(&mut self, b: &Vec<Statement>, fuel: u64) -> (r: Result<(), Halt>)
        requires
            old(self).scopes.len() >= 1,
        ensures
            (final(self)@, unit_view(r)) == exec_block(
                old(self)@,
                crate::ast::stmts_view(b@),
                0,
                fuel as nat,
            ),
            final(self).scopes.len() >= old(self).scopes.len(),
            final(self).fuel == old(self).fuel,
        decreases fuel, 2int, b, 0int,
    {
        let ghost bs = crate::ast::stmts_view(b@);
        proof {
            crate::ast::lemma_stmts_view(b@);
        }
        let mut i: usize = 0;
        while i < b.len()
            invariant
                i <= b.len(),
                bs == crate::ast::stmts_view(b@),
                bs.len() == b.len(),
                forall|k: int| 0 <= k < b.len() ==> #[trigger] bs[k] == b@[k]@,
                exec_block(old(self)@, bs, 0, fuel as nat) == exec_block(self@, bs, i as int, fuel as nat),
                self.scopes.len() >= old(self).scopes.len(),
                old(self).scopes.len() >= 1,
                self.fuel == old(self).fuel,
            decreases b.len() - i,
        {
            if self.return_val.is_some() || self.break_flag || self.continue_flag {
                return Ok(());
            }
            match self.exec_stmt(&b[i], fuel) {
                Ok(()) => {},
                Err(h) => return Err(h),
            }
            i += 1;
        }
        Ok(())
    }
}


impl Interpreter {
    /// Runs a statement.
    fn exec_stmt(&mut self, s: &Statement, fuel: u64) -> (r: Result<(), Halt>)
        requires
            old(self).scopes.len() >= 1,
        ensures
            (final(self)@, unit_view(r)) == exec_stmt(old(self)@, s@, fuel as nat),
            final(self).scopes.len() >= old(self).scopes.len(),
            final(self).fuel == old(self).fuel,
        decreases fuel, 2int, s, 1int,
    {
        match s {
            Statement::Variable(n, _, init, _) => {
                let v = match init {
                    Some(e) => match self.eval_in(e, fuel) {
                        Ok(v) => v,
                        Err(h) => return Err(h),
                    },
                    None => Value::Null,
                };
                self.set(n, v);
                Ok(())
            },
            Statement::Expression(e, _) => match self.eval_in(e, fuel) {
                Ok(_) => Ok(()),
                Err(h) => Err(h),
            },
            Statement::Block(b, _) => {
                self.push_scope();
                match self.exec_block(b, fuel) {
                    Ok(()) => {},
                    Err(h) => return Err(h),
                }
                self.pop_scope();
                Ok(())
            },
            Statement::If(..) => self.exec_if(s, fuel),
            Statement::While(c, b, _) => self.run_while(c, b, fuel),
            Statement::For(i, c, inc, b, _) => {
                self.push_scope();
                match self.exec_stmt(i, fuel) {
                    Ok(()) => {},
                    Err(h) => return Err(h),
                }
                match self.run_for(c, inc, b, fuel) {
                    Ok(()) => {},
                    Err(h) => return Err(h),
                }
                self.pop_scope();
                Ok(())
            },
            Statement::Return(e, _) => {
                let v = match e {
                    Some(x) => match self.eval_in(x, fuel) {
                        Ok(v) => v,
                        Err(h) => return Err(h),
                    },
                    None => Value::Void,
                };
                self.return_val = Some(v);
                Ok(())
            },
            Statement::Break(_) => {
                self.break_flag = true;
                Ok(())
            },
            _ => Ok(()),
        }
    }

    fn exec_if(&mut self, s: &Statement, fuel: u64) -> (r: Result<(), Halt>)
        requires
            old(self).scopes.len() >= 1,
            s is If,
        ensures
            (final(self)@, unit_view(r)) == exec_stmt(old(self)@, s@, fuel as nat),
            final(self).scopes.len() >= old(self).scopes.len(),
            final(self).fuel == old(self).fuel,
        decreases fuel, 2int, s, 0int,
    {
        match s {
            Statement::If(c, t, e, _) => {
                let v = match self.eval_in(c, fuel) {
                    Ok(v) => v,
                    Err(h) => return Err(h),
                };
                if v.as_bool() {
                    self.exec_stmt(t, fuel)
                } else {
                    match e {
                        Some(x) => self.exec_stmt(x, fuel),
                        None => Ok(()),
                    }
                }
            },
            _ => Ok(()),
        }
    }

    /// Runs a `while` loop.
    fn run_while(&mut self, c: &Expression, b: &Box<Statement>, fuel: u64) -> (r: Result<(), Halt>)
        requires
            old(self).scopes.len() >= 1,
        ensures
            (final(self)@, unit_view(r)) == while_loop(old(self)@, c@, (**b)@, fuel as nat),
            final(self).scopes.len() >= old(self).scopes.len(),
            final(self).fuel == old(self).fuel,
        decreases fuel, 2int, b, 0int,
    {
        let mut f = fuel;
        loop
            invariant
                f <= fuel,
                while_loop(old(self)@, c@, (**b)@, fuel as nat) == while_loop(self@, c@, (**b)@, f as nat),
                self.scopes.len() >= old(self).scopes.len(),
                old(self).scopes.len() >= 1,
                self.fuel == old(self).fuel,
            decreases f,
        {
            if f == 0 {
                return Err(Halt::OutOfFuel);
            }
            let v = match self.eval_in(c, f - 1) {
                Ok(v) => v,
                Err(h) => return Err(h),
            };
            if !v.as_bool() {
                return Ok(());
            }
            match self.exec_stmt(b, f - 1) {
                Ok(()) => {},
                Err(h) => return Err(h),
            }
            if self.break_flag {
                self.break_flag = false;
                return Ok(());
            }
            if self.return_val.is_some() {
                return Ok(());
            }
            f = f - 1;
        }
    }

    /// Runs a `for` loop after its initializer.
    fn run_for(
        &mut self,
        c: &Option<Expression>,
        inc: &Option<Expression>,
        b: &Box<Statement>,
        fuel: u64,
    ) -> (r: Result<(), Halt>)
        requires
            old(self).scopes.len() >= 1,
        ensures
            (final(self)@, unit_view(r)) == for_loop(
                old(self)@,
                crate::ast::opt_expr_view(*c),
                crate::ast::opt_expr_view(*inc),
                (**b)@,
                fuel as nat,
            ),
            final(self).scopes.len() >= old(self).scopes.len(),
            final(self).fuel == old(self).fuel,
        decreases fuel, 2int, b, 0int,
    {
        let ghost cv = crate::ast::opt_expr_view(*c);
        let ghost iv = crate::ast::opt_expr_view(*inc);
        let mut f = fuel;
        loop
            invariant
                f <= fuel,
                cv == crate::ast::opt_expr_view(*c),
                iv == crate::ast::opt_expr_view(*inc),
                for_loop(old(self)@, cv, iv, (**b)@, fuel as nat) == for_loop(self@, cv, iv, (**b)@, f as nat),
                self.scopes.len() >= old(self).scopes.len(),
                old(self).scopes.len() >= 1,
                self.fuel == old(self).fuel,
            decreases f,
        {
            if f == 0 {
                return Err(Halt::OutOfFuel);
            }
            let ghost st0 = self@;
            let go = match c {
                None => true,
                Some(x) => match self.eval_in(x, f - 1) {
                    Ok(v) => v.as_bool(),
                    Err(Halt::Error(_)) => false,
                    Err(h) => {
                        assert(for_cond(st0, cv, (f - 1) as nat) == (self@, Err::<bool, SHalt>(h@)));
                        return Err(h);
                    },
                },
            };
            assert(for_cond(st0, cv, (f - 1) as nat) == (self@, Ok::<bool, SHalt>(go)));
            if !go {
                return Ok(());
            }
            let ghost st1 = self@;
            match self.exec_stmt(b, f - 1) {
                Ok(()) => {},
                Err(h) => return Err(h),
            }
            if self.break_flag {
                self.break_flag = false;
                return Ok(());
            }
            if self.return_val.is_some() {
                return Ok(());
            }
            let ghost st2 = self@;
            match inc {
                Some(x) => match self.eval_in(x, f - 1) {
                    Ok(_) => {},
                    Err(h) => return Err(h),
                },
                None => {},
            }
            assert(for_loop(st0, cv, iv, (**b)@, f as nat) == for_loop(self@, cv, iv, (**b)@, (f - 1) as nat));
            f = f - 1;
        }
    }
}


impl Interpreter {
    /// The fuel that each run gets.
    pub fn set_fuel(&mut self, fuel: u64)
        ensures
            final(self)@ == old(self)@,
            final(self).fuel() == fuel,
            final(self).wf() == old(self).wf(),
    {
        self.fuel = fuel;
    }

    /// Makes `name` stand for the module whose functions are `funcs`.
    pub fn register_module(&mut self, name: String, funcs: FnTable)
        ensures
            final(self)@ == (SState { modules: old(self)@.modules.push((name@, funcs@)), ..old(self)@ }),
            final(self).fuel() == old(self).fuel(),
            final(self).wf() == old(self).wf(),
    {
        let ghost entry = (name@, funcs@);
        self.modules.push((name, funcs));
        assert(self@.modules =~= old(self)@.modules.push(entry));
    }

    /// Appends a reply for the next request that has none.
    pub fn supply(&mut self, reply: Reply)
        ensures
            final(self)@ == (SState { replies: old(self)@.replies.push(reply@), ..old(self)@ }),
            final(self).fuel() == old(self).fuel(),
            final(self).wf() == old(self).wf(),
    {
        let ghost rv = reply@;
        self.replies.push(reply);
        assert(self@.replies =~= old(self)@.replies.push(rv));
    }

    /// The text of each output call so far, in order.
    pub fn output(&self) -> (r: &Vec<Vec<Piece>>)
        ensures
            r@.map_values(|o: Vec<Piece>| crate::value::pieces_view(o@)) == self@.output,
    {
        &self.output
    }

    /// The value of an expression in the current state.
    pub fn eval(&mut self, e: &Expression) -> (r: Result<Value, Halt>)
        requires
            old(self).wf(),
        ensures
            (final(self)@, result_view(r)) == eval(old(self)@, e@, old(self).fuel()),
            final(self).wf(),
            final(self).fuel() == old(self).fuel(),
    {
        let fuel = self.fuel;
        self.eval_in(e, fuel)
    }

    /// Runs a module: registers its functions and methods, then calls
    /// `main`.
    pub fn execute_module(&mut self, m: &crate::ast::Module) -> (r: Result<Value, Halt>)
        requires
            old(self).wf(),
        ensures
            (final(self)@, result_view(r)) == execute(old(self)@, m@, old(self).fuel()),
            final(self).wf(),
            final(self).fuel() == old(self).fuel(),
    {
        let ghost ds = m@.declarations;
        let ghost fs0 = self@.functions;
        let mut i: usize = 0;
        assert(ds.take(0) =~= Seq::<crate::ast::SDecl>::empty());
        while i < m.declarations.len()
            invariant
                i <= m.declarations.len(),
                ds == m@.declarations,
                ds.len() == m.declarations.len(),
                self@ == (SState { functions: register_decls(fs0, ds.take(i as int)), ..old(self)@ }),
                fs0 == old(self)@.functions,
                self.scopes.len() == old(self).scopes.len(),
                self.fuel == old(self).fuel,
            decreases m.declarations.len() - i,
        {
            let ghost before = self@.functions;
            let ghost t = ds.take(i + 1);
            assert(t.drop_last() =~= ds.take(i as int));
            assert(t.last() == m.declarations@[i as int]@);
            match &m.declarations[i] {
                crate::ast::Declaration::Function(f) => {
                    self.functions.insert(f.copy());
                },
                crate::ast::Declaration::Class(c) => {
                    let mut j: usize = 0;
                    let ghost ms = c@.methods;
                    assert(ms.take(0) =~= Seq::<SFunction>::empty());
                    assert(before + ms.take(0) =~= before);
                    while j < c.methods.len()
                        invariant
                            j <= c.methods.len(),
                            ms == c@.methods,
                            ms.len() == c.methods.len(),
                            self@ == (SState { functions: before + ms.take(j as int), ..old(self)@ }),
                            self.scopes.len() == old(self).scopes.len(),
                            self.fuel == old(self).fuel,
                        decreases c.methods.len() - j,
                    {
                        self.functions.insert(c.methods[j].copy());
                        assert(before + ms.take(j + 1) =~= (before + ms.take(j as int)).push(ms[j as int]));
                        j += 1;
                    }
                    assert(ms.take(ms.len() as int) =~= ms);
                },
                _ => {},
            }
            i += 1;
        }
        assert(ds.take(ds.len() as int) =~= ds);
        let fuel = self.fuel;
        let no_args: Vec<Value> = Vec::new();
        assert(values_seq(no_args@) =~= Seq::<SValue>::empty());
        match self.functions.get("main") {
            Some(f) => {
                return self.call_fn(&f, &no_args, fuel);
            },
            None => {},
        }
        let ghost st1 = self@;
        let mut i: usize = 0;
        assert(ds.skip(0) =~= ds);
        while i < m.declarations.len()
            invariant
                i <= m.declarations.len(),
                ds == m@.declarations,
                ds.len() == m.declarations.len(),
                first_main_method(ds) == first_main_method(ds.skip(i as int)),
                self@ == st1,
                st1 == (SState { functions: register_decls(fs0, ds), ..old(self)@ }),
                fs0 == old(self)@.functions,
                fn_lookup(st1.functions, "main"@) is None,
                self.scopes.len() == old(self).scopes.len(),
                old(self).scopes.len() >= 1,
                self.fuel == old(self).fuel,
                fuel == self.fuel,
                values_seq(no_args@) == Seq::<SValue>::empty(),
            decreases m.declarations.len() - i,
        {
            assert(ds.skip(i as int).drop_first() =~= ds.skip(i + 1));
            assert(ds.skip(i as int)[0] == m.declarations@[i as int]@);
            match &m.declarations[i] {
                crate::ast::Declaration::Class(c) => {
                    let ghost ms = c@.methods;
                    let mut j: usize = 0;
                    assert(ms.skip(0) =~= ms);
                    while j < c.methods.len()
                        invariant
                            j <= c.methods.len(),
                            ms == c@.methods,
                            ms.len() == c.methods.len(),
                            first_named(ms, "main"@) == first_named(ms.skip(j as int), "main"@),
                            i < ds.len(),
                            ds == m@.declarations,
                            ds.skip(i as int)[0] == crate::ast::SDecl::Class(c@),
                            first_main_method(ds) == first_main_method(ds.skip(i as int)),
                            st1 == (SState { functions: register_decls(fs0, ds), ..old(self)@ }),
                            fs0 == old(self)@.functions,
                            fn_lookup(st1.functions, "main"@) is None,
                            self@ == st1,
                            self.scopes.len() == old(self).scopes.len(),
                            old(self).scopes.len() >= 1,
                            self.fuel == old(self).fuel,
                            fuel == self.fuel,
                            values_seq(no_args@) == Seq::<SValue>::empty(),
                        decreases c.methods.len() - j,
                    {
                        assert(ms.skip(j as int).drop_first() =~= ms.skip(j + 1));
                        assert(ms.skip(j as int)[0] == c.methods@[j as int]@);
                        if crate::text::str_eq(c.methods[j].name.as_str(), "main") {
                            assert(ms[j as int] == c.methods@[j as int]@);
                            assert(first_named(ms.skip(j as int), "main"@) == Some(ms[j as int]));
                            assert(first_main_method(ds.skip(i as int)) == Some(ms[j as int]));
                            return self.call_fn(&c.methods[j], &no_args, fuel);
                        }
                        j += 1;
                    }
                    assert(ms.skip(ms.len() as int) =~= Seq::<SFunction>::empty());
                },
                _ => {},
            }
            i += 1;
        }
        assert(ds.skip(ds.len() as int) =~= Seq::<crate::ast::SDecl>::empty());
        Err(Halt::Error("No main".to_owned()))
    }
}

/// The functions that a module offers when it is imported: its functions
/// and the methods of its classes, in order.
pub fn module_functions(m: &crate::ast::Module) -> (t: FnTable)
    ensures
        t@ == register_decls(Seq::empty(), m@.declarations),
{
    let ghost ds = m@.declarations;
    let mut t = FnTable::new();
    let mut i: usize = 0;
    assert(ds.take(0) =~= Seq::<crate::ast::SDecl>::empty());
    while i < m.declarations.len()
        invariant
            i <= m.declarations.len(),
            ds == m@.declarations,
            ds.len() == m.declarations.len(),
            t@ == register_decls(Seq::empty(), ds.take(i as int)),
        decreases m.declarations.len() - i,
    {
        let ghost before = t@;
        let ghost tk = ds.take(i + 1);
        assert(tk.drop_last() =~= ds.take(i as int));
        assert(tk.last() == m.declarations@[i as int]@);
        match &m.declarations[i] {
            crate::ast::Declaration::Function(f) => {
                t.insert(f.copy());
            },
            crate::ast::Declaration::Class(c) => {
                let mut j: usize = 0;
                let ghost ms = c@.methods;
                assert(before + ms.take(0) =~= before);
                while j < c.methods.len()
                    invariant
                        j <= c.methods.len(),
                        ms == c@.methods,
                        ms.len() == c.methods.len(),
                        t@ == before + ms.take(j as int),
                    decreases c.methods.len() - j,
                {
                    t.insert(c.methods[j].copy());
                    assert(before + ms.take(j + 1) =~= (before + ms.take(j as int)).push(ms[j as int]));
                    j += 1;
                }
                assert(ms.take(ms.len() as int) =~= ms);
            },
            _ => {},
        }
        i += 1;
    }
    assert(ds.take(ds.len() as int) =~= ds);
    t
}

} // verus!
