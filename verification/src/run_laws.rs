//! Laws of runs.
//!
//! - A run only ever adds to the output.
//! - A run is a function of the program and the replies: given more
//!   replies than an earlier run had, a run repeats the earlier one exactly
//!   when the earlier one finished without asking for a reply, and
//!   otherwise shows at least all that the earlier one showed before it
//!   stopped to ask. A host that answers a request and runs the program
//!   again from the start can therefore show just the output that the new
//!   run adds.
//! - Fuel only bounds a run: a run that did not run out of fuel ends the
//!   same way with more.
//! - Each scope binds a name at most once, as a map from names to values.
//! - Assigning a variable replaces its value and leaves the others.
//! - A call binds its arguments to its parameters in order.
//! - Integers compare and count as numbers; division rounds toward zero;
//!   strings join and compare by their characters; `&&` and `||` combine
//!   truth values.
//! - `println` writes what `print` writes and a line break; `read_line`
//!   takes the next reply, trimmed.
use vstd::prelude::*;
use crate::ast::{BinOp, SExpr, SFunction, SModule, SParam, SStmt};
use crate::interpreter as sem;
use crate::interpreter::{SHalt, SReply, SRequest, SState};
use crate::value::{SPiece, SValue};

verus! {

/// Whether the output of `b` starts with all of the output of `a`.
pub open spec fn output_grows(a: SState, b: SState) -> bool {
    &&& a.output.len() <= b.output.len()
    &&& forall|i: int| 0 <= i < a.output.len() ==> #[trigger] b.output[i] == a.output[i]
}

/// `st` with the replies `more` supplied after its own.
pub open spec fn more_replies(st: SState, more: Seq<SReply>) -> SState {
    SState { replies: st.replies + more, ..st }
}

/// Whether an outcome is a stop to ask the host for a reply.
pub open spec fn is_suspend<T>(r: Result<T, SHalt>) -> bool {
    r matches Err(SHalt::Suspend(_))
}

/// How the outcome `b` of a step with the replies `more` added relates to
/// the outcome `a` of the same step without them: the same state (but for
/// the added replies) and the same result where `a` did not stop to ask
/// for a reply; otherwise an output that starts with all of `a`'s.
pub open spec fn replays<T>(
    a: (SState, Result<T, SHalt>),
    b: (SState, Result<T, SHalt>),
    more: Seq<SReply>,
) -> bool {
    if is_suspend(a.1) {
        output_grows(a.0, b.0)
    } else {
        b.0 == more_replies(a.0, more) && b.1 == a.1
    }
}

proof fn lemma_grows_trans(a: SState, b: SState, c: SState)
    requires
        output_grows(a, b),
        output_grows(b, c),
    ensures
        output_grows(a, c),
{
    assert forall|i: int| 0 <= i < a.output.len() implies #[trigger] c.output[i] == a.output[i] by {
        assert(c.output[i] == b.output[i]);
    }
}

proof fn lemma_bind_params_output(st: SState, ps: Seq<SParam>, av: Seq<SValue>, i: int)
    ensures
        sem::bind_params(st, ps, av, i).output == st.output,
    decreases ps.len() - i,
{
    if 0 <= i < ps.len() {
        let v = if i < av.len() {
            av[i]
        } else {
            SValue::Null
        };
        lemma_bind_params_output(sem::set_var(st, ps[i].name, v), ps, av, i + 1);
    }
}

proof fn lemma_bind_params_more(st: SState, ps: Seq<SParam>, av: Seq<SValue>, i: int, more: Seq<SReply>)
    ensures
        sem::bind_params(more_replies(st, more), ps, av, i) == more_replies(
            sem::bind_params(st, ps, av, i),
            more,
        ),
    decreases ps.len() - i,
{
    if 0 <= i < ps.len() {
        let v = if i < av.len() {
            av[i]
        } else {
            SValue::Null
        };
        let s1 = sem::set_var(st, ps[i].name, v);
        assert(sem::set_var(more_replies(st, more), ps[i].name, v) == more_replies(s1, more));
        lemma_bind_params_more(s1, ps, av, i + 1, more);
    }
}

// ---------------------------------------------------------------------
// Output only grows
// ---------------------------------------------------------------------

proof fn lemma_eval_grows(st: SState, e: SExpr, fuel: nat)
    ensures
        output_grows(st, sem::eval(st, e, fuel).0),
    decreases fuel, 1int, e, 0int,
{
    match e {
        SExpr::Binary(l, op, r, _) => if op == BinOp::Assign {
            lemma_eval_grows(st, *r, fuel);
        } else {
            lemma_eval_grows(st, *l, fuel);
            let (st1, lv) = sem::eval(st, *l, fuel);
            if lv is Ok {
                lemma_eval_grows(st1, *r, fuel);
                lemma_grows_trans(st, st1, sem::eval(st1, *r, fuel).0);
            }
        },
        SExpr::Call(name, args, _) => {
            lemma_eval_args_grows(st, args, 0, Seq::empty(), fuel);
            let (st1, av) = sem::eval_args(st, args, 0, Seq::empty(), fuel);
            if let Ok(v) = av {
                lemma_call_named_grows(st1, name, v, fuel);
                lemma_grows_trans(st, st1, sem::call_named(st1, name, v, fuel).0);
            }
        },
        _ => {},
    }
}

proof fn lemma_eval_args_grows(st: SState, args: Seq<SExpr>, i: int, acc: Seq<SValue>, fuel: nat)
    ensures
        output_grows(st, sem::eval_args(st, args, i, acc, fuel).0),
    decreases fuel, 1int, args, args.len() - i,
{
    if 0 <= i < args.len() {
        lemma_eval_grows(st, args[i], fuel);
        let (st1, r) = sem::eval(st, args[i], fuel);
        if let Ok(v) = r {
            lemma_eval_args_grows(st1, args, i + 1, acc.push(v), fuel);
            lemma_grows_trans(st, st1, sem::eval_args(st1, args, i + 1, acc.push(v), fuel).0);
        }
    }
}

proof fn lemma_call_named_grows(st: SState, name: Seq<char>, av: Seq<SValue>, fuel: nat)
    ensures
        output_grows(st, sem::call_named(st, name, av, fuel).0),
    decreases fuel, 0int, name, 0int,
{
    if name == "read_line"@ || name == "print"@ || name == "println"@ || name == "http_get"@
        || name == "http_post"@ || name == "http_post_json"@ || name == "http_download"@ {
    } else {
        match sem::resolve(st, name) {
            Some(f) => {
                if fuel > 0 {
                    lemma_call_fn_grows(st, f, av, (fuel - 1) as nat);
                }
            },
            None => {},
        }
    }
}

proof fn lemma_call_fn_grows(st: SState, f: SFunction, av: Seq<SValue>, fuel: nat)
    ensures
        output_grows(st, sem::call_fn(st, f, av, fuel).0),
    decreases fuel, 3int, f, 0int,
{
    let st1 = sem::with_return(sem::bind_params(sem::push_scope(st), f.params, av, 0), None);
    lemma_bind_params_output(sem::push_scope(st), f.params, av, 0);
    match f.body {
        Some(b) => {
            lemma_exec_block_grows(st1, b, 0, fuel);
            lemma_grows_trans(st, st1, sem::exec_block(st1, b, 0, fuel).0);
        },
        None => {},
    }
}

proof fn lemma_exec_block_grows(st: SState, b: Seq<SStmt>, i: int, fuel: nat)
    ensures
        output_grows(st, sem::exec_block(st, b, i, fuel).0),
    decreases fuel, 2int, b, b.len() - i,
{
    if 0 <= i < b.len() && !(st.return_val is Some || st.break_flag || st.continue_flag) {
        lemma_exec_stmt_grows(st, b[i], fuel);
        let (st1, r) = sem::exec_stmt(st, b[i], fuel);
        if r is Ok {
            lemma_exec_block_grows(st1, b, i + 1, fuel);
            lemma_grows_trans(st, st1, sem::exec_block(st1, b, i + 1, fuel).0);
        }
    }
}

proof fn lemma_exec_stmt_grows(st: SState, s: SStmt, fuel: nat)
    ensures
        output_grows(st, sem::exec_stmt(st, s, fuel).0),
    decreases fuel, 2int, s, 0int,
{
    match s {
        SStmt::Variable(_, _, init, _) => {
            if let Some(e) = init {
                lemma_eval_grows(st, e, fuel);
            }
        },
        SStmt::Expression(e, _) => {
            lemma_eval_grows(st, e, fuel);
        },
        SStmt::Block(b, _) => {
            lemma_exec_block_grows(sem::push_scope(st), b, 0, fuel);
        },
        SStmt::If(c, t, e, _) => {
            lemma_eval_grows(st, c, fuel);
            let (st1, r) = sem::eval(st, c, fuel);
            if let Ok(v) = r {
                if crate::value::truth(v) {
                    lemma_exec_stmt_grows(st1, *t, fuel);
                    lemma_grows_trans(st, st1, sem::exec_stmt(st1, *t, fuel).0);
                } else if let Some(x) = e {
                    lemma_exec_stmt_grows(st1, *x, fuel);
                    lemma_grows_trans(st, st1, sem::exec_stmt(st1, *x, fuel).0);
                }
            }
        },
        SStmt::While(c, b, _) => {
            lemma_while_grows(st, c, *b, fuel);
        },
        SStmt::For(i, c, inc, b, _) => {
            lemma_exec_stmt_grows(sem::push_scope(st), *i, fuel);
            let (st1, r) = sem::exec_stmt(sem::push_scope(st), *i, fuel);
            if r is Ok {
                lemma_for_grows(st1, c, inc, *b, fuel);
                lemma_grows_trans(st, st1, sem::for_loop(st1, c, inc, *b, fuel).0);
            }
        },
        SStmt::Return(e, _) => {
            if let Some(x) = e {
                lemma_eval_grows(st, x, fuel);
            }
        },
        _ => {},
    }
}

proof fn lemma_while_grows(st: SState, c: SExpr, b: SStmt, fuel: nat)
    ensures
        output_grows(st, sem::while_loop(st, c, b, fuel).0),
    decreases fuel, 2int, b, 0int,
{
    if fuel > 0 {
        let f = (fuel - 1) as nat;
        lemma_eval_grows(st, c, f);
        let (st1, r) = sem::eval(st, c, f);
        if let Ok(v) = r {
            if crate::value::truth(v) {
                lemma_exec_stmt_grows(st1, b, f);
                let (st2, r2) = sem::exec_stmt(st1, b, f);
                lemma_grows_trans(st, st1, st2);
                if r2 is Ok && !st2.break_flag {
                    lemma_while_grows(st2, c, b, f);
                    lemma_grows_trans(st, st2, sem::while_loop(st2, c, b, f).0);
                }
            }
        }
    }
}

proof fn lemma_for_cond_grows(st: SState, c: Option<SExpr>, fuel: nat)
    ensures
        output_grows(st, sem::for_cond(st, c, fuel).0),
    decreases fuel, 1int, c, 1int,
{
    if let Some(x) = c {
        lemma_eval_grows(st, x, fuel);
    }
}

proof fn lemma_for_grows(st: SState, c: Option<SExpr>, inc: Option<SExpr>, b: SStmt, fuel: nat)
    ensures
        output_grows(st, sem::for_loop(st, c, inc, b, fuel).0),
    decreases fuel, 2int, b, 0int,
{
    if fuel > 0 {
        let f = (fuel - 1) as nat;
        lemma_for_cond_grows(st, c, f);
        let (st1, cr) = sem::for_cond(st, c, f);
        if cr matches Ok(true) {
            lemma_exec_stmt_grows(st1, b, f);
            let (st2, r2) = sem::exec_stmt(st1, b, f);
            lemma_grows_trans(st, st1, st2);
            if r2 is Ok && !st2.break_flag {
                if let Some(x) = inc {
                    lemma_eval_grows(st2, x, f);
                }
                let (st3, r3) = match inc {
                    Some(x) => sem::eval(st2, x, f),
                    None => (st2, Ok(SValue::Void)),
                };
                lemma_grows_trans(st, st2, st3);
                if r3 is Ok {
                    lemma_for_grows(st3, c, inc, b, f);
                    lemma_grows_trans(st, st3, sem::for_loop(st3, c, inc, b, f).0);
                }
            }
        }
    }
}

/// A run only adds to the output: the output after running a module
/// starts with the output before it.
pub proof fn lemma_execute_grows(st: SState, m: SModule, fuel: nat)
    ensures
        output_grows(st, sem::execute(st, m, fuel).0),
{
    let st1 = SState { functions: sem::register_decls(st.functions, m.declarations), ..st };
    match sem::fn_lookup(st1.functions, "main"@) {
        Some(f) => lemma_call_fn_grows(st1, f, Seq::empty(), fuel),
        None => match sem::first_main_method(m.declarations) {
            Some(f) => lemma_call_fn_grows(st1, f, Seq::empty(), fuel),
            None => {},
        },
    }
}

// ---------------------------------------------------------------------
// More replies repeat a run
// ---------------------------------------------------------------------

proof fn lemma_host_call_replays(st: SState, req: SRequest, more: Seq<SReply>)
    ensures
        replays(sem::host_call(st, req), sem::host_call(more_replies(st, more), req), more),
{
    let sm = more_replies(st, more);
    if 0 <= st.cursor < st.replies.len() {
        assert(sm.replies[st.cursor] == st.replies[st.cursor]);
        assert(SState { cursor: st.cursor + 1, ..sm } == more_replies(
            SState { cursor: st.cursor + 1, ..st },
            more,
        ));
    }
}

proof fn lemma_eval_replays(st: SState, e: SExpr, fuel: nat, more: Seq<SReply>)
    ensures
        replays(sem::eval(st, e, fuel), sem::eval(more_replies(st, more), e, fuel), more),
    decreases fuel, 1int, e, 0int,
{
    let sm = more_replies(st, more);
    match e {
        SExpr::Binary(l, op, r, _) => if op == BinOp::Assign {
            lemma_eval_replays(st, *r, fuel, more);
            let (st1, rv) = sem::eval(st, *r, fuel);
            let (sm1, rv2) = sem::eval(sm, *r, fuel);
            if !is_suspend(rv) {
                if let Ok(v) = rv {
                    if let SExpr::Identifier(n, _) = *l {
                        assert(sem::assign_var(sm1, n, v) == more_replies(sem::assign_var(st1, n, v), more));
                    }
                }
            }
        } else {
            lemma_eval_replays(st, *l, fuel, more);
            let (st1, lv) = sem::eval(st, *l, fuel);
            let (sm1, lv2) = sem::eval(sm, *l, fuel);
            if is_suspend(lv) {
                if lv2 is Ok {
                    lemma_eval_grows(sm1, *r, fuel);
                    lemma_grows_trans(st1, sm1, sem::eval(sm1, *r, fuel).0);
                }
            } else if lv is Ok {
                lemma_eval_replays(st1, *r, fuel, more);
            }
        },
        SExpr::Call(name, args, _) => {
            lemma_eval_args_replays(st, args, 0, Seq::empty(), fuel, more);
            let (st1, av) = sem::eval_args(st, args, 0, Seq::empty(), fuel);
            let (sm1, av2) = sem::eval_args(sm, args, 0, Seq::empty(), fuel);
            if is_suspend(av) {
                if let Ok(v2) = av2 {
                    lemma_call_named_grows(sm1, name, v2, fuel);
                    lemma_grows_trans(st1, sm1, sem::call_named(sm1, name, v2, fuel).0);
                }
            } else if let Ok(v) = av {
                lemma_call_named_replays(st1, name, v, fuel, more);
            }
        },
        _ => {},
    }
}

proof fn lemma_eval_args_replays(
    st: SState,
    args: Seq<SExpr>,
    i: int,
    acc: Seq<SValue>,
    fuel: nat,
    more: Seq<SReply>,
)
    ensures
        replays(
            sem::eval_args(st, args, i, acc, fuel),
            sem::eval_args(more_replies(st, more), args, i, acc, fuel),
            more,
        ),
    decreases fuel, 1int, args, args.len() - i,
{
    let sm = more_replies(st, more);
    if 0 <= i < args.len() {
        lemma_eval_replays(st, args[i], fuel, more);
        let (st1, r) = sem::eval(st, args[i], fuel);
        let (sm1, r2) = sem::eval(sm, args[i], fuel);
        if is_suspend(r) {
            if let Ok(v2) = r2 {
                lemma_eval_args_grows(sm1, args, i + 1, acc.push(v2), fuel);
                lemma_grows_trans(st1, sm1, sem::eval_args(sm1, args, i + 1, acc.push(v2), fuel).0);
            }
        } else if let Ok(v) = r {
            lemma_eval_args_replays(st1, args, i + 1, acc.push(v), fuel, more);
        }
    }
}

proof fn lemma_call_named_replays(st: SState, name: Seq<char>, av: Seq<SValue>, fuel: nat, more: Seq<SReply>)
    ensures
        replays(sem::call_named(st, name, av, fuel), sem::call_named(more_replies(st, more), name, av, fuel), more),
    decreases fuel, 0int, name, 0int,
{
    let sm = more_replies(st, more);
    if name == "read_line"@ {
        lemma_host_call_replays(st, SRequest::ReadLine, more);
    } else if name == "print"@ || name == "println"@ {
        let out = sem::print_text(av, name == "println"@);
        assert(SState { output: sm.output.push(out), ..sm } == more_replies(
            SState { output: st.output.push(out), ..st },
            more,
        ));
    } else if name == "http_get"@ {
        lemma_host_call_replays(st, SRequest::HttpGet { url: sem::arg_text(av, 0) }, more);
    } else if name == "http_post"@ {
        lemma_host_call_replays(
            st,
            SRequest::HttpPost { url: sem::arg_text(av, 0), data: sem::arg_text(av, 1) },
            more,
        );
    } else if name == "http_post_json"@ {
        lemma_host_call_replays(
            st,
            SRequest::HttpPostJson { url: sem::arg_text(av, 0), json: sem::arg_text(av, 1) },
            more,
        );
    } else if name == "http_download"@ {
        lemma_host_call_replays(
            st,
            SRequest::HttpDownload { url: sem::arg_text(av, 0), path: sem::arg_text(av, 1) },
            more,
        );
    } else {
        assert(sem::resolve(sm, name) == sem::resolve(st, name));
        match sem::resolve(st, name) {
            Some(f) => {
                if fuel > 0 {
                    lemma_call_fn_replays(st, f, av, (fuel - 1) as nat, more);
                }
            },
            None => {},
        }
    }
}

proof fn lemma_call_fn_replays(st: SState, f: SFunction, av: Seq<SValue>, fuel: nat, more: Seq<SReply>)
    ensures
        replays(sem::call_fn(st, f, av, fuel), sem::call_fn(more_replies(st, more), f, av, fuel), more),
    decreases fuel, 3int, f, 0int,
{
    let sm = more_replies(st, more);
    let st1 = sem::with_return(sem::bind_params(sem::push_scope(st), f.params, av, 0), None);
    let sm1 = sem::with_return(sem::bind_params(sem::push_scope(sm), f.params, av, 0), None);
    assert(sem::push_scope(sm) == more_replies(sem::push_scope(st), more));
    lemma_bind_params_more(sem::push_scope(st), f.params, av, 0, more);
    assert(sm1 == more_replies(st1, more));
    match f.body {
        Some(b) => {
            lemma_exec_block_replays(st1, b, 0, fuel, more);
            let (st2, r) = sem::exec_block(st1, b, 0, fuel);
            let (sm2, r2) = sem::exec_block(sm1, b, 0, fuel);
            if !is_suspend(r) {
                assert(sem::pop_scope(sm2) == more_replies(sem::pop_scope(st2), more));
            }
        },
        None => {
            assert(sem::pop_scope(sm1) == more_replies(sem::pop_scope(st1), more));
        },
    }
}

proof fn lemma_exec_block_replays(st: SState, b: Seq<SStmt>, i: int, fuel: nat, more: Seq<SReply>)
    ensures
        replays(sem::exec_block(st, b, i, fuel), sem::exec_block(more_replies(st, more), b, i, fuel), more),
    decreases fuel, 2int, b, b.len() - i,
{
    let sm = more_replies(st, more);
    if 0 <= i < b.len() && !(st.return_val is Some || st.break_flag || st.continue_flag) {
        lemma_exec_stmt_replays(st, b[i], fuel, more);
        let (st1, r) = sem::exec_stmt(st, b[i], fuel);
        let (sm1, r2) = sem::exec_stmt(sm, b[i], fuel);
        if is_suspend(r) {
            if r2 is Ok {
                lemma_exec_block_grows(sm1, b, i + 1, fuel);
                lemma_grows_trans(st1, sm1, sem::exec_block(sm1, b, i + 1, fuel).0);
            }
        } else if r is Ok {
            lemma_exec_block_replays(st1, b, i + 1, fuel, more);
        }
    }
}

proof fn lemma_exec_stmt_replays(st: SState, s: SStmt, fuel: nat, more: Seq<SReply>)
    ensures
        replays(sem::exec_stmt(st, s, fuel), sem::exec_stmt(more_replies(st, more), s, fuel), more),
    decreases fuel, 2int, s, 0int,
{
    let sm = more_replies(st, more);
    assert(sem::push_scope(sm) == more_replies(sem::push_scope(st), more));
    match s {
        SStmt::Variable(n, _, init, _) => {
            if let Some(e) = init {
                lemma_eval_replays(st, e, fuel, more);
            }
            let (st1, r) = match init {
                Some(e) => sem::eval(st, e, fuel),
                None => (st, Ok(SValue::Null)),
            };
            let (sm1, r2) = match init {
                Some(e) => sem::eval(sm, e, fuel),
                None => (sm, Ok(SValue::Null)),
            };
            if !is_suspend(r) {
                if let Ok(v) = r {
                    assert(sem::set_var(sm1, n, v) == more_replies(sem::set_var(st1, n, v), more));
                }
            } else if let Ok(v2) = r2 {
                assert(output_grows(sm1, sem::set_var(sm1, n, v2)));
                lemma_grows_trans(st1, sm1, sem::set_var(sm1, n, v2));
            }
        },
        SStmt::Expression(e, _) => {
            lemma_eval_replays(st, e, fuel, more);
        },
        SStmt::Block(b, _) => {
            lemma_exec_block_replays(sem::push_scope(st), b, 0, fuel, more);
            let (st1, r) = sem::exec_block(sem::push_scope(st), b, 0, fuel);
            let (sm1, r2) = sem::exec_block(sem::push_scope(sm), b, 0, fuel);
            if !is_suspend(r) {
                assert(sem::pop_scope(sm1) == more_replies(sem::pop_scope(st1), more));
            } else {
                assert(output_grows(sm1, sem::pop_scope(sm1)));
                lemma_grows_trans(st1, sm1, sem::pop_scope(sm1));
            }
        },
        SStmt::If(c, t, e, _) => {
            lemma_eval_replays(st, c, fuel, more);
            let (st1, r) = sem::eval(st, c, fuel);
            let (sm1, r2) = sem::eval(sm, c, fuel);
            if is_suspend(r) {
                if let Ok(v2) = r2 {
                    if crate::value::truth(v2) {
                        lemma_exec_stmt_grows(sm1, *t, fuel);
                        lemma_grows_trans(st1, sm1, sem::exec_stmt(sm1, *t, fuel).0);
                    } else if let Some(x) = e {
                        lemma_exec_stmt_grows(sm1, *x, fuel);
                        lemma_grows_trans(st1, sm1, sem::exec_stmt(sm1, *x, fuel).0);
                    }
                }
            } else if let Ok(v) = r {
                if crate::value::truth(v) {
                    lemma_exec_stmt_replays(st1, *t, fuel, more);
                } else if let Some(x) = e {
                    lemma_exec_stmt_replays(st1, *x, fuel, more);
                }
            }
        },
        SStmt::While(c, b, _) => {
            lemma_while_replays(st, c, *b, fuel, more);
        },
        SStmt::For(i, c, inc, b, _) => {
            lemma_exec_stmt_replays(sem::push_scope(st), *i, fuel, more);
            let (st1, r) = sem::exec_stmt(sem::push_scope(st), *i, fuel);
            let (sm1, r2) = sem::exec_stmt(sem::push_scope(sm), *i, fuel);
            if is_suspend(r) {
                if r2 is Ok {
                    lemma_for_grows(sm1, c, inc, *b, fuel);
                    let sm2 = sem::for_loop(sm1, c, inc, *b, fuel).0;
                    lemma_grows_trans(st1, sm1, sm2);
                    assert(output_grows(sm2, sem::pop_scope(sm2)));
                    lemma_grows_trans(st1, sm2, sem::pop_scope(sm2));
                }
            } else if r is Ok {
                lemma_for_replays(st1, c, inc, *b, fuel, more);
                let (st2, q) = sem::for_loop(st1, c, inc, *b, fuel);
                let (sm2, q2) = sem::for_loop(sm1, c, inc, *b, fuel);
                if !is_suspend(q) {
                    assert(sem::pop_scope(sm2) == more_replies(sem::pop_scope(st2), more));
                } else {
                    assert(output_grows(sm2, sem::pop_scope(sm2)));
                    lemma_grows_trans(st2, sm2, sem::pop_scope(sm2));
                }
            }
        },
        SStmt::Return(e, _) => {
            if let Some(x) = e {
                lemma_eval_replays(st, x, fuel, more);
            }
            let (st1, r) = match e {
                Some(x) => sem::eval(st, x, fuel),
                None => (st, Ok(SValue::Void)),
            };
            let (sm1, r2) = match e {
                Some(x) => sem::eval(sm, x, fuel),
                None => (sm, Ok(SValue::Void)),
            };
            if !is_suspend(r) {
                if let Ok(v) = r {
                    assert(sem::with_return(sm1, Some(v)) == more_replies(sem::with_return(st1, Some(v)), more));
                }
            } else if let Ok(v2) = r2 {
                assert(output_grows(sm1, sem::with_return(sm1, Some(v2))));
                lemma_grows_trans(st1, sm1, sem::with_return(sm1, Some(v2)));
            }
        },
        SStmt::Break(_) => {
            assert(sem::with_break(sm, true) == more_replies(sem::with_break(st, true), more));
        },
        _ => {},
    }
}

proof fn lemma_while_replays(st: SState, c: SExpr, b: SStmt, fuel: nat, more: Seq<SReply>)
    ensures
        replays(sem::while_loop(st, c, b, fuel), sem::while_loop(more_replies(st, more), c, b, fuel), more),
    decreases fuel, 2int, b, 0int,
{
    let sm = more_replies(st, more);
    if fuel > 0 {
        let f = (fuel - 1) as nat;
        lemma_eval_replays(st, c, f, more);
        let (st1, r) = sem::eval(st, c, f);
        let (sm1, r2) = sem::eval(sm, c, f);
        if is_suspend(r) {
            if let Ok(v2) = r2 {
                if crate::value::truth(v2) {
                    lemma_exec_stmt_grows(sm1, b, f);
                    let (sm2, q2) = sem::exec_stmt(sm1, b, f);
                    lemma_grows_trans(st1, sm1, sm2);
                    if q2 is Ok {
                        if sm2.break_flag {
                            assert(output_grows(sm2, sem::with_break(sm2, false)));
                            lemma_grows_trans(st1, sm2, sem::with_break(sm2, false));
                        } else {
                            lemma_while_grows(sm2, c, b, f);
                            lemma_grows_trans(st1, sm2, sem::while_loop(sm2, c, b, f).0);
                        }
                    }
                }
            }
        } else if let Ok(v) = r {
            if crate::value::truth(v) {
                lemma_exec_stmt_replays(st1, b, f, more);
                let (st2, q) = sem::exec_stmt(st1, b, f);
                let (sm2, q2) = sem::exec_stmt(sm1, b, f);
                if is_suspend(q) {
                    if q2 is Ok {
                        if sm2.break_flag {
                            assert(output_grows(sm2, sem::with_break(sm2, false)));
                            lemma_grows_trans(st2, sm2, sem::with_break(sm2, false));
                        } else {
                            lemma_while_grows(sm2, c, b, f);
                            lemma_grows_trans(st2, sm2, sem::while_loop(sm2, c, b, f).0);
                        }
                    }
                } else if q is Ok {
                    if st2.break_flag {
                        assert(sem::with_break(sm2, false) == more_replies(sem::with_break(st2, false), more));
                    } else {
                        lemma_while_replays(st2, c, b, f, more);
                    }
                }
            }
        }
    }
}

proof fn lemma_for_cond_replays(st: SState, c: Option<SExpr>, fuel: nat, more: Seq<SReply>)
    ensures
        replays(sem::for_cond(st, c, fuel), sem::for_cond(more_replies(st, more), c, fuel), more),
    decreases fuel, 1int, c, 1int,
{
    if let Some(x) = c {
        lemma_eval_replays(st, x, fuel, more);
    }
}

#[verifier::rlimit(40)]
proof fn lemma_for_replays(
    st: SState,
    c: Option<SExpr>,
    inc: Option<SExpr>,
    b: SStmt,
    fuel: nat,
    more: Seq<SReply>,
)
    ensures
        replays(
            sem::for_loop(st, c, inc, b, fuel),
            sem::for_loop(more_replies(st, more), c, inc, b, fuel),
            more,
        ),
    decreases fuel, 2int, b, 0int,
{
    let sm = more_replies(st, more);
    if fuel > 0 {
        let f = (fuel - 1) as nat;
        lemma_for_cond_replays(st, c, f, more);
        let (st1, cr) = sem::for_cond(st, c, f);
        let (sm1, cr2) = sem::for_cond(sm, c, f);
        if is_suspend(cr) {
            if cr2 matches Ok(true) {
                lemma_for_body_grows(sm1, c, inc, b, f);
                lemma_grows_trans(st1, sm1, sem::for_loop(sm, c, inc, b, fuel).0);
            }
        } else if cr matches Ok(true) {
            lemma_exec_stmt_replays(st1, b, f, more);
            let (st2, q) = sem::exec_stmt(st1, b, f);
            let (sm2, q2) = sem::exec_stmt(sm1, b, f);
            if is_suspend(q) {
                if q2 is Ok {
                    lemma_for_rest_grows(sm2, c, inc, b, f);
                    lemma_grows_trans(st2, sm2, sem::for_loop(sm, c, inc, b, fuel).0);
                }
            } else if q is Ok {
                if st2.break_flag {
                    assert(sem::with_break(sm2, false) == more_replies(sem::with_break(st2, false), more));
                } else {
                    if let Some(x) = inc {
                        lemma_eval_replays(st2, x, f, more);
                    }
                    let (st3, r3) = match inc {
                        Some(x) => sem::eval(st2, x, f),
                        None => (st2, Ok(SValue::Void)),
                    };
                    let (sm3, r4) = match inc {
                        Some(x) => sem::eval(sm2, x, f),
                        None => (sm2, Ok(SValue::Void)),
                    };
                    if is_suspend(r3) {
                        if r4 is Ok {
                            lemma_for_grows(sm3, c, inc, b, f);
                            lemma_grows_trans(st3, sm3, sem::for_loop(sm3, c, inc, b, f).0);
                        }
                    } else if r3 is Ok {
                        lemma_for_replays(st3, c, inc, b, f, more);
                    }
                }
            }
        }
    }
}

/// What follows a `true` condition in one round of a `for` loop only adds
/// to the output.
proof fn lemma_for_body_grows(st1: SState, c: Option<SExpr>, inc: Option<SExpr>, b: SStmt, f: nat)
    ensures
        output_grows(st1, {
            let (st2, q) = sem::exec_stmt(st1, b, f);
            match q {
                Err(h) => st2,
                Ok(_) => if st2.break_flag {
                    sem::with_break(st2, false)
                } else if st2.return_val is Some {
                    st2
                } else {
                    let (st3, r3) = match inc {
                        Some(x) => sem::eval(st2, x, f),
                        None => (st2, Ok(SValue::Void)),
                    };
                    match r3 {
                        Err(h) => st3,
                        Ok(_) => sem::for_loop(st3, c, inc, b, f).0,
                    }
                },
            }
        }),
    decreases f, 2int, b, 1int,
{
    lemma_exec_stmt_grows(st1, b, f);
    let (st2, q) = sem::exec_stmt(st1, b, f);
    if q is Ok {
        lemma_for_rest_grows(st2, c, inc, b, f);
        lemma_grows_trans(st1, st2, {
            if st2.break_flag {
                sem::with_break(st2, false)
            } else if st2.return_val is Some {
                st2
            } else {
                let (st3, r3) = match inc {
                    Some(x) => sem::eval(st2, x, f),
                    None => (st2, Ok(SValue::Void)),
                };
                match r3 {
                    Err(h) => st3,
                    Ok(_) => sem::for_loop(st3, c, inc, b, f).0,
                }
            }
        });
    }
}

/// What follows a finished body in one round of a `for` loop only adds to
/// the output.
proof fn lemma_for_rest_grows(st2: SState, c: Option<SExpr>, inc: Option<SExpr>, b: SStmt, f: nat)
    ensures
        output_grows(st2, if st2.break_flag {
            sem::with_break(st2, false)
        } else if st2.return_val is Some {
            st2
        } else {
            let (st3, r3) = match inc {
                Some(x) => sem::eval(st2, x, f),
                None => (st2, Ok(SValue::Void)),
            };
            match r3 {
                Err(h) => st3,
                Ok(_) => sem::for_loop(st3, c, inc, b, f).0,
            }
        }),
    decreases f, 2int, b, 0int,
{
    if !st2.break_flag && !(st2.return_val is Some) {
        if let Some(x) = inc {
            lemma_eval_grows(st2, x, f);
        }
        let (st3, r3) = match inc {
            Some(x) => sem::eval(st2, x, f),
            None => (st2, Ok(SValue::Void)),
        };
        if r3 is Ok {
            lemma_for_grows(st3, c, inc, b, f);
            lemma_grows_trans(st2, st3, sem::for_loop(st3, c, inc, b, f).0);
        }
    }
}

/// Supplying more replies repeats a run: where a run of a module finished
/// without asking the host for a reply, the run with the replies `more`
/// added after the supplied ones finishes in the same state (but for the
/// added replies) with the same result; where it stopped to ask, the
/// output of the longer run starts with all the output of the shorter one.
pub proof fn lemma_execute_replays(st: SState, m: SModule, fuel: nat, more: Seq<SReply>)
    ensures
        replays(sem::execute(st, m, fuel), sem::execute(more_replies(st, more), m, fuel), more),
{
    let sm = more_replies(st, more);
    let st1 = SState { functions: sem::register_decls(st.functions, m.declarations), ..st };
    let sm1 = SState { functions: sem::register_decls(sm.functions, m.declarations), ..sm };
    assert(sm1 == more_replies(st1, more));
    match sem::fn_lookup(st1.functions, "main"@) {
        Some(f) => lemma_call_fn_replays(st1, f, Seq::empty(), fuel, more),
        None => match sem::first_main_method(m.declarations) {
            Some(f) => lemma_call_fn_replays(st1, f, Seq::empty(), fuel, more),
            None => {},
        },
    }
}

// ---------------------------------------------------------------------
// More fuel changes nothing but running out
// ---------------------------------------------------------------------

/// Whether the outcome `b` of a step with more fuel is the outcome `a` of
/// the step with less, unless `a` ran out of fuel.
pub open spec fn same_unless_out_of_fuel<T>(a: (SState, Result<T, SHalt>), b: (SState, Result<T, SHalt>)) -> bool {
    a.1 matches Err(SHalt::OutOfFuel) || b == a
}

proof fn lemma_eval_fuel(st: SState, e: SExpr, fuel: nat, fuel2: nat)
    requires
        fuel <= fuel2,
    ensures
        same_unless_out_of_fuel(sem::eval(st, e, fuel), sem::eval(st, e, fuel2)),
    decreases fuel, 1int, e, 0int,
{
    match e {
        SExpr::Binary(l, op, r, _) => if op == BinOp::Assign {
            lemma_eval_fuel(st, *r, fuel, fuel2);
        } else {
            lemma_eval_fuel(st, *l, fuel, fuel2);
            let (st1, lv) = sem::eval(st, *l, fuel);
            if lv is Ok {
                lemma_eval_fuel(st1, *r, fuel, fuel2);
            }
        },
        SExpr::Call(name, args, _) => {
            lemma_eval_args_fuel(st, args, 0, Seq::empty(), fuel, fuel2);
            let (st1, av) = sem::eval_args(st, args, 0, Seq::empty(), fuel);
            if let Ok(v) = av {
                lemma_call_named_fuel(st1, name, v, fuel, fuel2);
            }
        },
        _ => {},
    }
}

proof fn lemma_eval_args_fuel(st: SState, args: Seq<SExpr>, i: int, acc: Seq<SValue>, fuel: nat, fuel2: nat)
    requires
        fuel <= fuel2,
    ensures
        same_unless_out_of_fuel(sem::eval_args(st, args, i, acc, fuel), sem::eval_args(st, args, i, acc, fuel2)),
    decreases fuel, 1int, args, args.len() - i,
{
    if 0 <= i < args.len() {
        lemma_eval_fuel(st, args[i], fuel, fuel2);
        let (st1, r) = sem::eval(st, args[i], fuel);
        if let Ok(v) = r {
            lemma_eval_args_fuel(st1, args, i + 1, acc.push(v), fuel, fuel2);
        }
    }
}

proof fn lemma_call_named_fuel(st: SState, name: Seq<char>, av: Seq<SValue>, fuel: nat, fuel2: nat)
    requires
        fuel <= fuel2,
    ensures
        same_unless_out_of_fuel(sem::call_named(st, name, av, fuel), sem::call_named(st, name, av, fuel2)),
    decreases fuel, 0int, name, 0int,
{
    if name == "read_line"@ || name == "print"@ || name == "println"@ || name == "http_get"@
        || name == "http_post"@ || name == "http_post_json"@ || name == "http_download"@ {
    } else {
        match sem::resolve(st, name) {
            Some(f) => {
                if fuel > 0 {
                    lemma_call_fn_fuel(st, f, av, (fuel - 1) as nat, (fuel2 - 1) as nat);
                }
            },
            None => {},
        }
    }
}

proof fn lemma_call_fn_fuel(st: SState, f: SFunction, av: Seq<SValue>, fuel: nat, fuel2: nat)
    requires
        fuel <= fuel2,
    ensures
        same_unless_out_of_fuel(sem::call_fn(st, f, av, fuel), sem::call_fn(st, f, av, fuel2)),
    decreases fuel, 3int, f, 0int,
{
    let st1 = sem::with_return(sem::bind_params(sem::push_scope(st), f.params, av, 0), None);
    match f.body {
        Some(b) => lemma_exec_block_fuel(st1, b, 0, fuel, fuel2),
        None => {},
    }
}

proof fn lemma_exec_block_fuel(st: SState, b: Seq<SStmt>, i: int, fuel: nat, fuel2: nat)
    requires
        fuel <= fuel2,
    ensures
        same_unless_out_of_fuel(sem::exec_block(st, b, i, fuel), sem::exec_block(st, b, i, fuel2)),
    decreases fuel, 2int, b, b.len() - i,
{
    if 0 <= i < b.len() && !(st.return_val is Some || st.break_flag || st.continue_flag) {
        lemma_exec_stmt_fuel(st, b[i], fuel, fuel2);
        let (st1, r) = sem::exec_stmt(st, b[i], fuel);
        if r is Ok {
            lemma_exec_block_fuel(st1, b, i + 1, fuel, fuel2);
        }
    }
}

proof fn lemma_exec_stmt_fuel(st: SState, s: SStmt, fuel: nat, fuel2: nat)
    requires
        fuel <= fuel2,
    ensures
        same_unless_out_of_fuel(sem::exec_stmt(st, s, fuel), sem::exec_stmt(st, s, fuel2)),
    decreases fuel, 2int, s, 0int,
{
    match s {
        SStmt::Variable(_, _, init, _) => {
            if let Some(e) = init {
                lemma_eval_fuel(st, e, fuel, fuel2);
            }
        },
        SStmt::Expression(e, _) => {
            lemma_eval_fuel(st, e, fuel, fuel2);
        },
        SStmt::Block(b, _) => {
            lemma_exec_block_fuel(sem::push_scope(st), b, 0, fuel, fuel2);
        },
        SStmt::If(c, t, e, _) => {
            lemma_eval_fuel(st, c, fuel, fuel2);
            let (st1, r) = sem::eval(st, c, fuel);
            if let Ok(v) = r {
                if crate::value::truth(v) {
                    lemma_exec_stmt_fuel(st1, *t, fuel, fuel2);
                } else if let Some(x) = e {
                    lemma_exec_stmt_fuel(st1, *x, fuel, fuel2);
                }
            }
        },
        SStmt::While(c, b, _) => {
            lemma_while_fuel(st, c, *b, fuel, fuel2);
        },
        SStmt::For(i, c, inc, b, _) => {
            lemma_exec_stmt_fuel(sem::push_scope(st), *i, fuel, fuel2);
            let (st1, r) = sem::exec_stmt(sem::push_scope(st), *i, fuel);
            if r is Ok {
                lemma_for_fuel(st1, c, inc, *b, fuel, fuel2);
            }
        },
        SStmt::Return(e, _) => {
            if let Some(x) = e {
                lemma_eval_fuel(st, x, fuel, fuel2);
            }
        },
        _ => {},
    }
}

proof fn lemma_while_fuel(st: SState, c: SExpr, b: SStmt, fuel: nat, fuel2: nat)
    requires
        fuel <= fuel2,
    ensures
        same_unless_out_of_fuel(sem::while_loop(st, c, b, fuel), sem::while_loop(st, c, b, fuel2)),
    decreases fuel, 2int, b, 0int,
{
    if fuel > 0 {
        let f = (fuel - 1) as nat;
        let f2 = (fuel2 - 1) as nat;
        lemma_eval_fuel(st, c, f, f2);
        let (st1, r) = sem::eval(st, c, f);
        if let Ok(v) = r {
            if crate::value::truth(v) {
                lemma_exec_stmt_fuel(st1, b, f, f2);
                let (st2, r2) = sem::exec_stmt(st1, b, f);
                if r2 is Ok && !st2.break_flag {
                    lemma_while_fuel(st2, c, b, f, f2);
                }
            }
        }
    }
}

proof fn lemma_for_cond_fuel(st: SState, c: Option<SExpr>, fuel: nat, fuel2: nat)
    requires
        fuel <= fuel2,
    ensures
        same_unless_out_of_fuel(sem::for_cond(st, c, fuel), sem::for_cond(st, c, fuel2)),
    decreases fuel, 1int, c, 1int,
{
    if let Some(x) = c {
        lemma_eval_fuel(st, x, fuel, fuel2);
    }
}

proof fn lemma_for_fuel(st: SState, c: Option<SExpr>, inc: Option<SExpr>, b: SStmt, fuel: nat, fuel2: nat)
    requires
        fuel <= fuel2,
    ensures
        same_unless_out_of_fuel(sem::for_loop(st, c, inc, b, fuel), sem::for_loop(st, c, inc, b, fuel2)),
    decreases fuel, 2int, b, 0int,
{
    if fuel > 0 {
        let f = (fuel - 1) as nat;
        let f2 = (fuel2 - 1) as nat;
        lemma_for_cond_fuel(st, c, f, f2);
        let (st1, cr) = sem::for_cond(st, c, f);
        if cr matches Ok(true) {
            lemma_exec_stmt_fuel(st1, b, f, f2);
            let (st2, r2) = sem::exec_stmt(st1, b, f);
            if r2 is Ok && !st2.break_flag {
                if let Some(x) = inc {
                    lemma_eval_fuel(st2, x, f, f2);
                }
                let (st3, r3) = match inc {
                    Some(x) => sem::eval(st2, x, f),
                    None => (st2, Ok(SValue::Void)),
                };
                if r3 is Ok {
                    lemma_for_fuel(st3, c, inc, b, f, f2);
                }
            }
        }
    }
}

/// Fuel only bounds a run: a run of a module that did not run out of fuel
/// ends in the same state with the same result when it is given more.
pub proof fn lemma_execute_fuel(st: SState, m: SModule, fuel: nat, fuel2: nat)
    requires
        fuel <= fuel2,
    ensures
        same_unless_out_of_fuel(sem::execute(st, m, fuel), sem::execute(st, m, fuel2)),
{
    let st1 = SState { functions: sem::register_decls(st.functions, m.declarations), ..st };
    match sem::fn_lookup(st1.functions, "main"@) {
        Some(f) => lemma_call_fn_fuel(st1, f, Seq::empty(), fuel, fuel2),
        None => match sem::first_main_method(m.declarations) {
            Some(f) => lemma_call_fn_fuel(st1, f, Seq::empty(), fuel, fuel2),
            None => {},
        },
    }
}

// ---------------------------------------------------------------------
// Each scope binds a name once
// ---------------------------------------------------------------------

/// Whether every scope of `st` binds each name at most once.
pub open spec fn scopes_distinct(st: SState) -> bool {
    forall|k: int| 0 <= k < st.scopes.len() ==> sem::keys_distinct(#[trigger] st.scopes[k])
}

/// How a step from `st` keeps the scopes: each still binds each name at
/// most once, and none of the scopes that `st` had is gone.
pub open spec fn keeps_scopes(st: SState, after: SState) -> bool {
    scopes_distinct(after) && after.scopes.len() >= st.scopes.len()
}

proof fn lemma_set_var_keeps(st: SState, k: Seq<char>, v: SValue)
    requires
        scopes_distinct(st),
        st.scopes.len() >= 1,
    ensures
        keeps_scopes(st, sem::set_var(st, k, v)),
{
    let st1 = sem::set_var(st, k, v);
    sem::lemma_assign_distinct(st.scopes.last(), k, v);
    assert forall|j: int| 0 <= j < st1.scopes.len() implies sem::keys_distinct(#[trigger] st1.scopes[j]) by {
        if j < st.scopes.len() - 1 {
            assert(st1.scopes[j] == st.scopes[j]);
        }
    }
}

proof fn lemma_binding_scope_bound(scopes: Seq<Seq<(Seq<char>, SValue)>>, k: Seq<char>)
    ensures
        sem::binding_scope(scopes, k) matches Some(j) ==> 0 <= j < scopes.len(),
    decreases scopes.len(),
{
    if scopes.len() > 0 {
        lemma_binding_scope_bound(scopes.drop_last(), k);
    }
}

/// Assigning a variable that some scope binds replaces its value: reading
/// it gives the value assigned, and every other variable reads as before.
pub proof fn lemma_assign_var_lookup(st: SState, k: Seq<char>, v: SValue, k2: Seq<char>)
    requires
        sem::binding_scope(st.scopes, k) is Some,
    ensures
        sem::lookup_var(sem::assign_var(st, k, v).scopes, k) == Some(v),
        k2 != k ==> sem::lookup_var(sem::assign_var(st, k, v).scopes, k2) == sem::lookup_var(st.scopes, k2),
    decreases st.scopes.len(),
{
    let scopes = st.scopes;
    let j = sem::binding_scope(scopes, k)->0;
    let s2 = sem::assign_var(st, k, v).scopes;
    lemma_binding_scope_bound(scopes, k);
    if sem::find_last(scopes.last(), k) is Some {
        sem::lemma_assign_lookup(scopes.last(), k, v, k2);
        assert(s2.drop_last() =~= scopes.drop_last());
    } else {
        let inner = SState { scopes: scopes.drop_last(), ..st };
        lemma_binding_scope_bound(scopes.drop_last(), k);
        lemma_assign_var_lookup(inner, k, v, k2);
        assert(s2.drop_last() =~= sem::assign_var(inner, k, v).scopes);
        assert(s2.last() == scopes.last());
        sem::lemma_find_last_bound(scopes.last(), k);
    }
}

proof fn lemma_assign_var_keeps(st: SState, k: Seq<char>, v: SValue)
    requires
        scopes_distinct(st),
    ensures
        keeps_scopes(st, sem::assign_var(st, k, v)),
{
    lemma_binding_scope_bound(st.scopes, k);
    let st1 = sem::assign_var(st, k, v);
    if let Some(j) = sem::binding_scope(st.scopes, k) {
        sem::lemma_assign_distinct(st.scopes[j], k, v);
        assert forall|i: int| 0 <= i < st1.scopes.len() implies sem::keys_distinct(#[trigger] st1.scopes[i]) by {
            if i != j {
                assert(st1.scopes[i] == st.scopes[i]);
            }
        }
    }
}

proof fn lemma_push_scope_keeps(st: SState)
    requires
        scopes_distinct(st),
    ensures
        keeps_scopes(st, sem::push_scope(st)),
        sem::push_scope(st).scopes.len() == st.scopes.len() + 1,
{
    let st1 = sem::push_scope(st);
    assert forall|j: int| 0 <= j < st1.scopes.len() implies sem::keys_distinct(#[trigger] st1.scopes[j]) by {
        if j < st.scopes.len() {
            assert(st1.scopes[j] == st.scopes[j]);
        }
    }
}

proof fn lemma_pop_scope_keeps(st: SState)
    requires
        scopes_distinct(st),
        st.scopes.len() >= 1,
    ensures
        scopes_distinct(sem::pop_scope(st)),
        sem::pop_scope(st).scopes.len() == st.scopes.len() - 1,
{
    let st1 = sem::pop_scope(st);
    assert forall|j: int| 0 <= j < st1.scopes.len() implies sem::keys_distinct(#[trigger] st1.scopes[j]) by {
        assert(st1.scopes[j] == st.scopes[j]);
    }
}

proof fn lemma_bind_params_keeps(st: SState, ps: Seq<SParam>, av: Seq<SValue>, i: int)
    requires
        scopes_distinct(st),
        st.scopes.len() >= 1,
    ensures
        scopes_distinct(sem::bind_params(st, ps, av, i)),
        sem::bind_params(st, ps, av, i).scopes.len() == st.scopes.len(),
    decreases ps.len() - i,
{
    if 0 <= i < ps.len() {
        let v = if i < av.len() {
            av[i]
        } else {
            SValue::Null
        };
        lemma_set_var_keeps(st, ps[i].name, v);
        lemma_bind_params_keeps(sem::set_var(st, ps[i].name, v), ps, av, i + 1);
    }
}

proof fn lemma_eval_keeps(st: SState, e: SExpr, fuel: nat)
    requires
        scopes_distinct(st),
        st.scopes.len() >= 1,
    ensures
        keeps_scopes(st, sem::eval(st, e, fuel).0),
    decreases fuel, 1int, e, 0int,
{
    match e {
        SExpr::Binary(l, op, r, _) => if op == BinOp::Assign {
            lemma_eval_keeps(st, *r, fuel);
            let (st1, rv) = sem::eval(st, *r, fuel);
            if let Ok(v) = rv {
                if let SExpr::Identifier(n, _) = *l {
                    lemma_assign_var_keeps(st1, n, v);
                }
            }
        } else {
            lemma_eval_keeps(st, *l, fuel);
            let (st1, lv) = sem::eval(st, *l, fuel);
            if lv is Ok {
                lemma_eval_keeps(st1, *r, fuel);
            }
        },
        SExpr::Call(name, args, _) => {
            lemma_eval_args_keeps(st, args, 0, Seq::empty(), fuel);
            let (st1, av) = sem::eval_args(st, args, 0, Seq::empty(), fuel);
            if let Ok(v) = av {
                lemma_call_named_keeps(st1, name, v, fuel);
            }
        },
        _ => {},
    }
}

proof fn lemma_eval_args_keeps(st: SState, args: Seq<SExpr>, i: int, acc: Seq<SValue>, fuel: nat)
    requires
        scopes_distinct(st),
        st.scopes.len() >= 1,
    ensures
        keeps_scopes(st, sem::eval_args(st, args, i, acc, fuel).0),
    decreases fuel, 1int, args, args.len() - i,
{
    if 0 <= i < args.len() {
        lemma_eval_keeps(st, args[i], fuel);
        let (st1, r) = sem::eval(st, args[i], fuel);
        if let Ok(v) = r {
            lemma_eval_args_keeps(st1, args, i + 1, acc.push(v), fuel);
        }
    }
}

proof fn lemma_call_named_keeps(st: SState, name: Seq<char>, av: Seq<SValue>, fuel: nat)
    requires
        scopes_distinct(st),
        st.scopes.len() >= 1,
    ensures
        keeps_scopes(st, sem::call_named(st, name, av, fuel).0),
    decreases fuel, 0int, name, 0int,
{
    if name == "read_line"@ || name == "print"@ || name == "println"@ || name == "http_get"@
        || name == "http_post"@ || name == "http_post_json"@ || name == "http_download"@ {
    } else {
        match sem::resolve(st, name) {
            Some(f) => {
                if fuel > 0 {
                    lemma_call_fn_keeps(st, f, av, (fuel - 1) as nat);
                }
            },
            None => {},
        }
    }
}

proof fn lemma_call_fn_keeps(st: SState, f: SFunction, av: Seq<SValue>, fuel: nat)
    requires
        scopes_distinct(st),
        st.scopes.len() >= 1,
    ensures
        keeps_scopes(st, sem::call_fn(st, f, av, fuel).0),
    decreases fuel, 3int, f, 0int,
{
    lemma_push_scope_keeps(st);
    lemma_bind_params_keeps(sem::push_scope(st), f.params, av, 0);
    let st1 = sem::with_return(sem::bind_params(sem::push_scope(st), f.params, av, 0), None);
    match f.body {
        Some(b) => {
            lemma_exec_block_keeps(st1, b, 0, fuel);
            let (st2, r) = sem::exec_block(st1, b, 0, fuel);
            lemma_pop_scope_keeps(st2);
        },
        None => {
            lemma_pop_scope_keeps(st1);
        },
    }
}

proof fn lemma_exec_block_keeps(st: SState, b: Seq<SStmt>, i: int, fuel: nat)
    requires
        scopes_distinct(st),
        st.scopes.len() >= 1,
    ensures
        keeps_scopes(st, sem::exec_block(st, b, i, fuel).0),
    decreases fuel, 2int, b, b.len() - i,
{
    if 0 <= i < b.len() && !(st.return_val is Some || st.break_flag || st.continue_flag) {
        lemma_exec_stmt_keeps(st, b[i], fuel);
        let (st1, r) = sem::exec_stmt(st, b[i], fuel);
        if r is Ok {
            lemma_exec_block_keeps(st1, b, i + 1, fuel);
        }
    }
}

proof fn lemma_exec_stmt_keeps(st: SState, s: SStmt, fuel: nat)
    requires
        scopes_distinct(st),
        st.scopes.len() >= 1,
    ensures
        keeps_scopes(st, sem::exec_stmt(st, s, fuel).0),
    decreases fuel, 2int, s, 0int,
{
    match s {
        SStmt::Variable(n, _, init, _) => {
            if let Some(e) = init {
                lemma_eval_keeps(st, e, fuel);
            }
            let (st1, r) = match init {
                Some(e) => sem::eval(st, e, fuel),
                None => (st, Ok(SValue::Null)),
            };
            if let Ok(v) = r {
                lemma_set_var_keeps(st1, n, v);
            }
        },
        SStmt::Expression(e, _) => {
            lemma_eval_keeps(st, e, fuel);
        },
        SStmt::Block(b, _) => {
            lemma_push_scope_keeps(st);
            lemma_exec_block_keeps(sem::push_scope(st), b, 0, fuel);
            let (st1, r) = sem::exec_block(sem::push_scope(st), b, 0, fuel);
            lemma_pop_scope_keeps(st1);
        },
        SStmt::If(c, t, e, _) => {
            lemma_eval_keeps(st, c, fuel);
            let (st1, r) = sem::eval(st, c, fuel);
            if let Ok(v) = r {
                if crate::value::truth(v) {
                    lemma_exec_stmt_keeps(st1, *t, fuel);
                } else if let Some(x) = e {
                    lemma_exec_stmt_keeps(st1, *x, fuel);
                }
            }
        },
        SStmt::While(c, b, _) => {
            lemma_while_keeps(st, c, *b, fuel);
        },
        SStmt::For(i, c, inc, b, _) => {
            lemma_push_scope_keeps(st);
            lemma_exec_stmt_keeps(sem::push_scope(st), *i, fuel);
            let (st1, r) = sem::exec_stmt(sem::push_scope(st), *i, fuel);
            if r is Ok {
                lemma_for_keeps(st1, c, inc, *b, fuel);
                let (st2, q) = sem::for_loop(st1, c, inc, *b, fuel);
                lemma_pop_scope_keeps(st2);
            }
        },
        SStmt::Return(e, _) => {
            if let Some(x) = e {
                lemma_eval_keeps(st, x, fuel);
            }
        },
        _ => {},
    }
}

proof fn lemma_while_keeps(st: SState, c: SExpr, b: SStmt, fuel: nat)
    requires
        scopes_distinct(st),
        st.scopes.len() >= 1,
    ensures
        keeps_scopes(st, sem::while_loop(st, c, b, fuel).0),
    decreases fuel, 2int, b, 0int,
{
    if fuel > 0 {
        let f = (fuel - 1) as nat;
        lemma_eval_keeps(st, c, f);
        let (st1, r) = sem::eval(st, c, f);
        if let Ok(v) = r {
            if crate::value::truth(v) {
                lemma_exec_stmt_keeps(st1, b, f);
                let (st2, r2) = sem::exec_stmt(st1, b, f);
                if r2 is Ok && !st2.break_flag {
                    lemma_while_keeps(st2, c, b, f);
                }
            }
        }
    }
}

proof fn lemma_for_cond_keeps(st: SState, c: Option<SExpr>, fuel: nat)
    requires
        scopes_distinct(st),
        st.scopes.len() >= 1,
    ensures
        keeps_scopes(st, sem::for_cond(st, c, fuel).0),
    decreases fuel, 1int, c, 1int,
{
    if let Some(x) = c {
        lemma_eval_keeps(st, x, fuel);
    }
}

proof fn lemma_for_keeps(st: SState, c: Option<SExpr>, inc: Option<SExpr>, b: SStmt, fuel: nat)
    requires
        scopes_distinct(st),
        st.scopes.len() >= 1,
    ensures
        keeps_scopes(st, sem::for_loop(st, c, inc, b, fuel).0),
    decreases fuel, 2int, b, 0int,
{
    if fuel > 0 {
        let f = (fuel - 1) as nat;
        lemma_for_cond_keeps(st, c, f);
        let (st1, cr) = sem::for_cond(st, c, f);
        if cr matches Ok(true) {
            lemma_exec_stmt_keeps(st1, b, f);
            let (st2, r2) = sem::exec_stmt(st1, b, f);
            if r2 is Ok && !st2.break_flag {
                if let Some(x) = inc {
                    lemma_eval_keeps(st2, x, f);
                }
                let (st3, r3) = match inc {
                    Some(x) => sem::eval(st2, x, f),
                    None => (st2, Ok(SValue::Void)),
                };
                if r3 is Ok {
                    lemma_for_keeps(st3, c, inc, b, f);
                }
            }
        }
    }
}

/// A run keeps each scope's names distinct: starting from scopes that each
/// bind a name at most once (a fresh interpreter has one empty scope), every
/// scope after running a module still binds each name at most once.
pub proof fn lemma_execute_keeps_scopes(st: SState, m: SModule, fuel: nat)
    requires
        scopes_distinct(st),
        st.scopes.len() >= 1,
    ensures
        scopes_distinct(sem::execute(st, m, fuel).0),
{
    let st1 = SState { functions: sem::register_decls(st.functions, m.declarations), ..st };
    match sem::fn_lookup(st1.functions, "main"@) {
        Some(f) => lemma_call_fn_keeps(st1, f, Seq::empty(), fuel),
        None => match sem::first_main_method(m.declarations) {
            Some(f) => lemma_call_fn_keeps(st1, f, Seq::empty(), fuel),
            None => {},
        },
    }
}

// ---------------------------------------------------------------------
// Calls bind their arguments; integers compare and count
// ---------------------------------------------------------------------

/// The value that parameter `i` of a call with the arguments `av` takes:
/// argument `i`, or null where there is none.
pub open spec fn param_value(av: Seq<SValue>, i: int) -> SValue {
    if 0 <= i < av.len() {
        av[i]
    } else {
        SValue::Null
    }
}

/// Whether no two of the parameters `ps` share a name.
pub open spec fn params_distinct(ps: Seq<SParam>) -> bool {
    forall|a: int, b: int| 0 <= a < b < ps.len() ==> #[trigger] ps[a].name != #[trigger] ps[b].name
}

proof fn lemma_bind_params_reads(st: SState, ps: Seq<SParam>, av: Seq<SValue>, i0: int)
    requires
        st.scopes.len() >= 1,
        0 <= i0,
        params_distinct(ps),
    ensures
        sem::bind_params(st, ps, av, i0).scopes.len() == st.scopes.len(),
        sem::bind_params(st, ps, av, i0).break_flag == st.break_flag,
        sem::bind_params(st, ps, av, i0).continue_flag == st.continue_flag,
        forall|j: int| i0 <= j < ps.len() ==> sem::lookup(
            sem::bind_params(st, ps, av, i0).scopes.last(),
            #[trigger] ps[j].name,
        ) == Some(param_value(av, j)),
    decreases ps.len() - i0,
{
    if i0 < ps.len() {
        let v = param_value(av, i0);
        let st1 = sem::set_var(st, ps[i0].name, v);
        lemma_bind_params_reads(st1, ps, av, i0 + 1);
        let res = sem::bind_params(st, ps, av, i0);
        assert(res == sem::bind_params(st1, ps, av, i0 + 1));
        assert(st1.scopes.last() == sem::assign(st.scopes.last(), ps[i0].name, v));
        lemma_bind_params_others(st1, ps, av, i0 + 1, ps[i0].name);
        sem::lemma_assign_lookup(st.scopes.last(), ps[i0].name, v, ps[i0].name);
    }
}

proof fn lemma_bind_params_others(st: SState, ps: Seq<SParam>, av: Seq<SValue>, i0: int, k: Seq<char>)
    requires
        st.scopes.len() >= 1,
        0 <= i0,
        forall|j: int| i0 <= j < ps.len() ==> #[trigger] ps[j].name != k,
    ensures
        sem::lookup(sem::bind_params(st, ps, av, i0).scopes.last(), k) == sem::lookup(st.scopes.last(), k),
        sem::bind_params(st, ps, av, i0).scopes.len() == st.scopes.len(),
    decreases ps.len() - i0,
{
    if i0 < ps.len() {
        let v = param_value(av, i0);
        let st1 = sem::set_var(st, ps[i0].name, v);
        assert(ps[i0].name != k);
        lemma_bind_params_others(st1, ps, av, i0 + 1, k);
        sem::lemma_assign_lookup(st.scopes.last(), ps[i0].name, v, k);
    }
}

/// A call binds its arguments to the parameters in order: in the state in
/// which the body of `f` starts, reading the `i`-th parameter gives the
/// `i`-th argument (null where there are fewer arguments).
pub proof fn lemma_call_binds_params(st: SState, f: SFunction, av: Seq<SValue>)
    requires
        params_distinct(f.params),
    ensures
        forall|i: int| 0 <= i < f.params.len() ==> sem::lookup_var(
            sem::with_return(sem::bind_params(sem::push_scope(st), f.params, av, 0), None).scopes,
            #[trigger] f.params[i].name,
        ) == Some(param_value(av, i)),
{
    let entry = sem::with_return(sem::bind_params(sem::push_scope(st), f.params, av, 0), None);
    lemma_bind_params_reads(sem::push_scope(st), f.params, av, 0);
    assert forall|i: int| 0 <= i < f.params.len() implies sem::lookup_var(
        entry.scopes,
        #[trigger] f.params[i].name,
    ) == Some(param_value(av, i)) by {
        assert(sem::lookup(entry.scopes.last(), f.params[i].name) == Some(param_value(av, i)));
    }
}

/// A function whose body returns its `i`-th parameter gives, when called,
/// the `i`-th argument it was called with (null where there is none).
pub proof fn lemma_call_returns_param(st: SState, f: SFunction, av: Seq<SValue>, i: int, fuel: nat)
    requires
        params_distinct(f.params),
        0 <= i < f.params.len(),
        !st.break_flag,
        !st.continue_flag,
        f.body == Some(seq![SStmt::Return(Some(SExpr::Identifier(f.params[i].name, crate::parser::zero_span())), crate::parser::zero_span())]),
    ensures
        sem::call_fn(st, f, av, fuel).1 == Ok::<SValue, SHalt>(param_value(av, i)),
{
    lemma_call_binds_params(st, f, av);
    lemma_bind_params_reads(sem::push_scope(st), f.params, av, 0);
    let entry = sem::with_return(sem::bind_params(sem::push_scope(st), f.params, av, 0), None);
    let b = f.body->0;
    let x = SExpr::Identifier(f.params[i].name, crate::parser::zero_span());
    assert(sem::lookup_var(entry.scopes, f.params[i].name) == Some(param_value(av, i)));
    assert(sem::eval(entry, x, fuel) == (entry, Ok::<SValue, SHalt>(param_value(av, i))));
    let after = sem::exec_stmt(entry, b[0], fuel);
    assert(after == (sem::with_return(entry, Some(param_value(av, i))), Ok::<(), SHalt>(())));
    assert(sem::exec_block(after.0, b, 1, fuel) == (after.0, Ok::<(), SHalt>(())));
    assert(sem::exec_block(entry, b, 0, fuel) == (after.0, Ok::<(), SHalt>(())));
}

/// An integer operation on two integer literals `a op b`.
pub open spec fn int_expr(a: i64, op: BinOp, b: i64) -> SExpr {
    SExpr::Binary(
        Box::new(SExpr::Literal(crate::ast::SLiteral::Int(a), crate::parser::zero_span())),
        op,
        Box::new(SExpr::Literal(crate::ast::SLiteral::Int(b), crate::parser::zero_span())),
        crate::parser::zero_span(),
    )
}

/// Integers compare as numbers: `a < b`, `a > b`, `a <= b`, `a >= b`,
/// `a == b` and `a != b` give the truth of the comparison, and `+ - *`
/// give the sum, difference and product where they fit in `i64`. A run
/// of such an expression changes nothing.
pub proof fn lemma_int_ops(st: SState, a: i64, b: i64, fuel: nat)
    ensures
        sem::eval(st, int_expr(a, BinOp::Lt, b), fuel) == (st, Ok::<SValue, SHalt>(SValue::Bool(a < b))),
        sem::eval(st, int_expr(a, BinOp::Gt, b), fuel) == (st, Ok::<SValue, SHalt>(SValue::Bool(b < a))),
        sem::eval(st, int_expr(a, BinOp::Le, b), fuel) == (st, Ok::<SValue, SHalt>(SValue::Bool(!(b < a)))),
        sem::eval(st, int_expr(a, BinOp::Ge, b), fuel) == (st, Ok::<SValue, SHalt>(SValue::Bool(!(a < b)))),
        sem::eval(st, int_expr(a, BinOp::Eq, b), fuel) == (st, Ok::<SValue, SHalt>(SValue::Bool(a == b))),
        sem::eval(st, int_expr(a, BinOp::Neq, b), fuel) == (st, Ok::<SValue, SHalt>(SValue::Bool(a != b))),
        i64::MIN <= a + b <= i64::MAX ==> sem::eval(st, int_expr(a, BinOp::Add, b), fuel) == (
            st,
            Ok::<SValue, SHalt>(SValue::Int((a + b) as i64)),
        ),
        i64::MIN <= a - b <= i64::MAX ==> sem::eval(st, int_expr(a, BinOp::Sub, b), fuel) == (
            st,
            Ok::<SValue, SHalt>(SValue::Int((a - b) as i64)),
        ),
        i64::MIN <= a * b <= i64::MAX ==> sem::eval(st, int_expr(a, BinOp::Mul, b), fuel) == (
            st,
            Ok::<SValue, SHalt>(SValue::Int((a * b) as i64)),
        ),
{
    let la = SExpr::Literal(crate::ast::SLiteral::Int(a), crate::parser::zero_span());
    let lb = SExpr::Literal(crate::ast::SLiteral::Int(b), crate::parser::zero_span());
    assert(sem::eval(st, la, fuel) == (st, Ok::<SValue, SHalt>(SValue::Int(a))));
    assert(sem::eval(st, lb, fuel) == (st, Ok::<SValue, SHalt>(SValue::Int(b))));
}

/// A binary operation on two literals `x op y`.
pub open spec fn lit_expr(x: crate::ast::SLiteral, op: BinOp, y: crate::ast::SLiteral) -> SExpr {
    SExpr::Binary(
        Box::new(SExpr::Literal(x, crate::parser::zero_span())),
        op,
        Box::new(SExpr::Literal(y, crate::parser::zero_span())),
        crate::parser::zero_span(),
    )
}

/// Strings join and compare: `s + t` is `s` followed by `t`, `s == t`
/// holds exactly when they have the same characters and `s != t` when they
/// do not. Booleans combine: `x && y` holds when both do, `x || y` when
/// either does.
pub proof fn lemma_string_and_logic_ops(st: SState, s: Seq<char>, t: Seq<char>, x: bool, y: bool, fuel: nat)
    ensures
        sem::eval(st, lit_expr(crate::ast::SLiteral::String(s), BinOp::Add, crate::ast::SLiteral::String(t)), fuel)
            == (st, Ok::<SValue, SHalt>(SValue::String(s + t))),
        sem::eval(st, lit_expr(crate::ast::SLiteral::String(s), BinOp::Eq, crate::ast::SLiteral::String(t)), fuel)
            == (st, Ok::<SValue, SHalt>(SValue::Bool(s == t))),
        sem::eval(st, lit_expr(crate::ast::SLiteral::String(s), BinOp::Neq, crate::ast::SLiteral::String(t)), fuel)
            == (st, Ok::<SValue, SHalt>(SValue::Bool(s != t))),
        sem::eval(st, lit_expr(crate::ast::SLiteral::Bool(x), BinOp::And, crate::ast::SLiteral::Bool(y)), fuel)
            == (st, Ok::<SValue, SHalt>(SValue::Bool(x && y))),
        sem::eval(st, lit_expr(crate::ast::SLiteral::Bool(x), BinOp::Or, crate::ast::SLiteral::Bool(y)), fuel)
            == (st, Ok::<SValue, SHalt>(SValue::Bool(x || y))),
{
    let ls = SExpr::Literal(crate::ast::SLiteral::String(s), crate::parser::zero_span());
    let lt = SExpr::Literal(crate::ast::SLiteral::String(t), crate::parser::zero_span());
    let lx = SExpr::Literal(crate::ast::SLiteral::Bool(x), crate::parser::zero_span());
    let ly = SExpr::Literal(crate::ast::SLiteral::Bool(y), crate::parser::zero_span());
    assert(sem::eval(st, ls, fuel) == (st, Ok::<SValue, SHalt>(SValue::String(s))));
    assert(sem::eval(st, lt, fuel) == (st, Ok::<SValue, SHalt>(SValue::String(t))));
    assert(sem::eval(st, lx, fuel) == (st, Ok::<SValue, SHalt>(SValue::Bool(x))));
    assert(sem::eval(st, ly, fuel) == (st, Ok::<SValue, SHalt>(SValue::Bool(y))));
}

proof fn lemma_div_rem(a: int, b: int)
    requires
        b != 0,
        i64::MIN <= a <= i64::MAX,
        i64::MIN <= b <= i64::MAX,
        !(a == i64::MIN && b == -1),
    ensures
        ({
            let q = sem::div_toward_zero(a, b);
            let r = sem::rem_toward_zero(a, b);
            &&& q * b + r == a
            &&& sem::in_i64(q) && sem::in_i64(r)
            &&& if b > 0 { -b < r < b } else { b < r < -b }
            &&& a >= 0 ==> r >= 0
            &&& a < 0 ==> r <= 0
        }),
{
    let na = if a >= 0 { a } else { -a };
    let q0 = na / b;
    let r0 = na % b;
    assert(b * q0 + r0 == na && 0 <= r0 < (if b > 0 { b } else { -b })) by (nonlinear_arith)
        requires
            b != 0,
            q0 == na / b,
            r0 == na % b,
    ;
    assert(-na <= q0 <= na) by (nonlinear_arith)
        requires
            b != 0,
            na >= 0,
            b * q0 + r0 == na,
            0 <= r0 < (if b > 0 { b } else { -b }),
    ;
    assert(q0 * b == b * q0) by (nonlinear_arith);
    if a < 0 {
        assert((-q0) * b == -(q0 * b)) by (nonlinear_arith);
        assert(na != 9223372036854775808 || (b != -1 && (b >= 2 || b <= -2 || b == 1)));
        if na == 9223372036854775808 && b != 1 {
            assert(-4611686018427387904 <= q0 <= 4611686018427387904) by (nonlinear_arith)
                requires
                    b >= 2 || b <= -2,
                    b * q0 + r0 == na,
                    0 <= r0 < (if b > 0 { b } else { -b }),
                    na == 9223372036854775808,
            ;
        }
    }
}

/// Integer division and remainder: where the divisor is not zero and the
/// quotient fits, `a / b` and `a % b` give `q` and `r` with `q * b + r == a`,
/// `r` smaller than `b` in size and never of the other sign than `a` (the
/// quotient rounds toward zero); a zero divisor is a fault.
pub proof fn lemma_int_division(st: SState, a: i64, b: i64, fuel: nat)
    ensures
        b != 0 && !(a == i64::MIN && b == -1) ==> ({
            let q = sem::eval(st, int_expr(a, BinOp::Div, b), fuel).1;
            let r = sem::eval(st, int_expr(a, BinOp::Mod, b), fuel).1;
            q matches Ok(SValue::Int(qv)) && r matches Ok(SValue::Int(rv)) && qv * b + rv == a
                && (if b > 0 { -b < rv < b } else { b < rv < -b }) && (a >= 0 ==> rv >= 0) && (a < 0 ==> rv <= 0)
        }),
        b == 0 ==> sem::eval(st, int_expr(a, BinOp::Div, b), fuel).1 == Err::<SValue, SHalt>(
            SHalt::Fault(sem::Fault::ZeroDivisor(BinOp::Div)),
        ),
{
    let la = SExpr::Literal(crate::ast::SLiteral::Int(a), crate::parser::zero_span());
    let lb = SExpr::Literal(crate::ast::SLiteral::Int(b), crate::parser::zero_span());
    assert(sem::eval(st, la, fuel) == (st, Ok::<SValue, SHalt>(SValue::Int(a))));
    assert(sem::eval(st, lb, fuel) == (st, Ok::<SValue, SHalt>(SValue::Int(b))));
    if b != 0 && !(a == i64::MIN && b == -1) {
        lemma_div_rem(a as int, b as int);
    }
}

/// `println` writes what `print` writes and then a line break, each as
/// one more output call after the earlier ones; `print` of one value writes
/// that value's text; both give void.
pub proof fn lemma_print_println(st: SState, av: Seq<SValue>, fuel: nat)
    ensures
        sem::call_named(st, "print"@, av, fuel).1 == Ok::<SValue, SHalt>(SValue::Void),
        sem::call_named(st, "println"@, av, fuel).1 == Ok::<SValue, SHalt>(SValue::Void),
        sem::call_named(st, "print"@, av, fuel).0.output.drop_last() == st.output,
        sem::call_named(st, "println"@, av, fuel).0.output.drop_last() == st.output,
        sem::call_named(st, "print"@, av, fuel).0.output.len() == st.output.len() + 1,
        sem::call_named(st, "println"@, av, fuel).0.output.len() == st.output.len() + 1,
        sem::call_named(st, "println"@, av, fuel).0.output.last() == sem::call_named(st, "print"@, av, fuel).0.output.last()
            + seq![SPiece::Text("\n"@)],
        av.len() == 1 ==> sem::call_named(st, "print"@, av, fuel).0.output.last() == crate::value::render(av[0]),
{
    reveal_strlit("print");
    reveal_strlit("println");
    reveal_strlit("read_line");
    assert("print"@.len() == 5 && "println"@.len() == 7 && "read_line"@.len() == 9);
    let p = sem::call_named(st, "print"@, av, fuel).0;
    let q = sem::call_named(st, "println"@, av, fuel).0;
    assert(p.output.drop_last() =~= st.output);
    assert(q.output.drop_last() =~= st.output);
    if av.len() == 1 {
        assert(av.drop_last() =~= Seq::<SValue>::empty());
        assert(sem::render_all(av) =~= sem::render_all(av.drop_last()) + crate::value::render(av.last()));
        assert(sem::render_all(Seq::<SValue>::empty()) =~= Seq::<SPiece>::empty());
    }
}

/// `read_line` takes the next unused reply: a line, trimmed of white space
/// at both ends, with the next reply up for the call after; with no reply
/// left, the run stops to ask for a line and the state stays as it was.
pub proof fn lemma_read_line_takes_next_reply(st: SState, av: Seq<SValue>, fuel: nat, line: Seq<char>)
    ensures
        0 <= st.cursor < st.replies.len() && st.replies[st.cursor] == SReply::Line(line) ==> ({
            let (st1, r) = sem::call_named(st, "read_line"@, av, fuel);
            r == Ok::<SValue, SHalt>(SValue::String(crate::value::trim(line))) && st1.cursor == st.cursor + 1
                && st1.output == st.output && st1.scopes == st.scopes
        }),
        !(0 <= st.cursor < st.replies.len()) ==> sem::call_named(st, "read_line"@, av, fuel) == (
            st,
            Err::<SValue, SHalt>(SHalt::Suspend(SRequest::ReadLine)),
        ),
{
}

} // verus!
