use trinity::ast::{BinOp, Declaration, Expression, FunctionDecl, Literal, Module, Span, Statement, Type};
use trinity::cli::module_from_source;
use trinity::interpreter::{module_functions, Fault, FnTable, Halt, Interpreter, Reply, Request};
use trinity::lexer::tokenize;
use trinity::parser::parse;
use trinity::value::{trim_string, Piece, Value};

fn module_of(src: &str) -> Module {
    parse(tokenize(src).unwrap(), src).unwrap()
}

fn text(out: &Vec<Vec<Piece>>) -> String {
    let mut s = String::new();
    for call in out {
        for p in call {
            match p {
                Piece::Text(t) => s.push_str(t),
                Piece::Float(t) => s.push_str(&t.parse::<f64>().unwrap().to_string()),
            }
        }
    }
    s
}

fn run_with(src: &str, replies: Vec<Reply>) -> (Result<Value, Halt>, String) {
    let m = module_of(src);
    let mut it = Interpreter::new();
    for r in replies {
        it.supply(r);
    }
    let r = it.execute_module(&m);
    let out = text(it.output());
    (r, out)
}

fn run(src: &str) -> (Result<Value, Halt>, String) {
    run_with(src, Vec::new())
}

fn in_main(body: &str) -> String {
    format!("module T; class App {{ static int main() {{ {} }} }}", body)
}

fn sp() -> Span {
    Span { start: 0, end: 0 }
}

#[test]
fn hello_world_prints_a_line() {
    let (r, out) = run(&in_main("println(\"Hello, World!\"); return 0;"));
    assert!(matches!(r, Ok(Value::Int(0))));
    assert_eq!(out, "Hello, World!\n");
}

#[test]
fn print_and_println_join_their_arguments() {
    let (_, out) = run(&in_main("print(\"a = \", 10 + 3, true); println(); println(\"x\", 2 - 5);"));
    assert_eq!(out, "a = 13true\nx-3\n");
}

#[test]
fn arithmetic_groups_to_the_left_with_precedence() {
    let (r, _) = run(&in_main("return 10 - 4 - 3;"));
    assert!(matches!(r, Ok(Value::Int(3))));
    let (r, _) = run(&in_main("return 7 / 2 * 2;"));
    assert!(matches!(r, Ok(Value::Int(6))));
    let (r, _) = run(&in_main("return 2 * 3 + 4;"));
    assert!(matches!(r, Ok(Value::Int(10))));
    let (r, _) = run(&in_main("return 2 + 3 * 4;"));
    assert!(matches!(r, Ok(Value::Int(14))));
    let (r, _) = run(&in_main("return 10 % 4 + 1;"));
    assert!(matches!(r, Ok(Value::Int(3))));
}

#[test]
fn comparisons_and_logic_give_booleans() {
    let cases = [
        ("1 == 1", true),
        ("1 != 2", true),
        ("3 >= 3", true),
        ("3 <= 2", false),
        ("1 < 2 && 2 < 1", false),
        ("1 < 2 || 2 < 1", true),
        ("1 + 1 == 2", true),
        ("\"Hello\" == \"Hello\"", true),
        ("\"a\" != \"a\"", false),
    ];
    for (e, want) in cases {
        let (r, _) = run(&in_main(&format!("return {};", e)));
        assert!(matches!(r, Ok(Value::Bool(b)) if b == want), "{}", e);
    }
}

#[test]
fn assignment_rebinds_the_variable() {
    let (r, _) = run(&in_main("var x = 1; x = x + 5; return x;"));
    assert!(matches!(r, Ok(Value::Int(6))));
    let (r, _) = run(&in_main("var x = 1; { x = 7; } return x;"));
    assert!(matches!(r, Ok(Value::Int(7))));
    let (r, _) = run(&in_main("var x = 1; var y = 2; x = y = 9; return x + y;"));
    assert!(matches!(r, Ok(Value::Int(18))));
    let (r, _) = run(&in_main("y = 1; return 0;"));
    assert!(matches!(r, Err(Halt::Error(m)) if m == "Undefined: y"));
    let (r, _) = run(&in_main("1 = 2; return 0;"));
    assert!(matches!(r, Err(Halt::Error(m)) if m == "Cannot assign"));
}

#[test]
fn typed_declarations_and_floats() {
    let (r, out) = run(&in_main("int age = 25; string city = \"Moscow\"; var pi = 3.14; println(city, age, pi); return age;"));
    assert!(matches!(r, Ok(Value::Int(25))));
    assert_eq!(out, "Moscow253.14\n");
}

#[test]
fn a_call_returns_to_its_caller() {
    let src = "module M; class App { static int f() { return 1; } static int main() { var x = f(); return x + 1; } }";
    let (r, _) = run(src);
    assert!(matches!(r, Ok(Value::Int(2))));
}

#[test]
fn return_inside_a_loop_ends_it() {
    let (r, _) = run(&in_main("while (true) { return 1; } return 2;"));
    assert!(matches!(r, Ok(Value::Int(1))));
    let (r, _) = run(&in_main("for (var i = 0; i < 10; i = i + 1) { if (i == 3) return i; } return 99;"));
    assert!(matches!(r, Ok(Value::Int(3))));
}

#[test]
fn readme_hello_world_at_the_top_level() {
    let (r, out) = run("module Hello; static int main() { println(\"Hello, World!\"); return 0; }");
    assert!(matches!(r, Ok(Value::Int(0))));
    assert_eq!(out, "Hello, World!\n");
}

#[test]
fn readme_fibonacci() {
    let src = "module Fibonacci;
static int fib(int n) {
    if (n <= 1) return n;
    return fib(n - 1) + fib(n - 2);
}
static int main() {
    for (var i = 0; i < 10; i = i + 1) {
        println(\"F(\", i, \") = \", fib(i));
    }
    return 0;
}";
    let (r, out) = run(src);
    assert!(matches!(r, Ok(Value::Int(0))));
    let want: String = [0, 1, 1, 2, 3, 5, 8, 13, 21, 34]
        .iter()
        .enumerate()
        .map(|(i, f)| format!("F({}) = {}\n", i, f))
        .collect();
    assert_eq!(out, want);
}

#[test]
fn readme_fizzbuzz() {
    let src = "module FizzBuzz;
static int main() {
    for (var i = 1; i <= 15; i = i + 1) {
        if (i % 15 == 0) { println(\"FizzBuzz\"); }
        else if (i % 3 == 0) { println(\"Fizz\"); }
        else if (i % 5 == 0) { println(\"Buzz\"); }
        else { println(i); }
    }
    return 0;
}";
    let (_, out) = run(src);
    assert_eq!(out, "1\n2\nFizz\n4\nBuzz\nFizz\n7\n8\nFizz\nBuzz\n11\nFizz\n13\n14\nFizzBuzz\n");
}

#[test]
fn subtraction_of_a_quotient() {
    let (r, _) = run(&in_main("return 0 - 7 / 2;"));
    assert!(matches!(r, Ok(Value::Int(-3))));
}

#[test]
fn division_by_zero_is_a_fault() {
    let (r, _) = run(&in_main("return 1 / 0;"));
    assert!(matches!(r, Err(Halt::Fault(Fault::ZeroDivisor(BinOp::Div)))));
}

#[test]
fn overflow_is_a_fault() {
    let (r, _) = run(&in_main("return 9223372036854775807 + 1;"));
    assert!(matches!(r, Err(Halt::Fault(Fault::Overflow(BinOp::Add)))));
    let (r, _) = run(&in_main("return 4611686018427387904 * 2;"));
    assert!(matches!(r, Err(Halt::Fault(Fault::Overflow(BinOp::Mul)))));
}

#[test]
fn strings_concatenate_and_nothing_else() {
    let (r, _) = run(&in_main("return \"ab\" + \"cd\";"));
    assert!(matches!(r, Ok(Value::String(s)) if s == "abcd"));
    let (r, _) = run(&in_main("return \"ab\" - \"cd\";"));
    assert!(matches!(r, Err(Halt::Error(m)) if m == "Cannot op"));
    let (r, _) = run(&in_main("return 1 + \"cd\";"));
    assert!(matches!(r, Err(Halt::Error(m)) if m == "Cannot add"));
    let (r, _) = run(&in_main("return 1 * \"cd\";"));
    assert!(matches!(r, Err(Halt::Error(m)) if m == "Cannot op"));
}

#[test]
fn undefined_variable_and_unknown_function() {
    let (r, _) = run(&in_main("return x;"));
    assert!(matches!(r, Err(Halt::Error(m)) if m == "Undefined: x"));
    let (r, _) = run(&in_main("return nothing(1);"));
    assert!(matches!(r, Err(Halt::Error(m)) if m == "Unknown: nothing"));
    let (r, _) = run(&in_main("return math.add(1);"));
    assert!(matches!(r, Err(Halt::Error(m)) if m == "Unknown: math.add"));
}

#[test]
fn module_without_main() {
    let (r, _) = run("module T; class App { static int start() { return 1; } }");
    assert!(matches!(r, Err(Halt::Error(m)) if m == "No main"));
}

#[test]
fn setting_a_variable_then_reading_it() {
    let (r, _) = run(&in_main("var x = 1; var x = 2; return x;"));
    assert!(matches!(r, Ok(Value::Int(2))));
    let (r, _) = run(&in_main("var x = 1; var y = 5; var x = 3; return y;"));
    assert!(matches!(r, Ok(Value::Int(5))));
}

#[test]
fn variable_without_initializer_is_null() {
    let (_, out) = run(&in_main("var x; println(x); return 0;"));
    assert_eq!(out, "null\n");
}

#[test]
fn block_scope_hides_its_variables() {
    let (r, _) = run(&in_main("var x = 1; { var x = 2; } return x;"));
    assert!(matches!(r, Ok(Value::Int(1))));
    let (r, _) = run(&in_main("{ var y = 2; } return y;"));
    assert!(matches!(r, Err(Halt::Error(m)) if m == "Undefined: y"));
}

#[test]
fn while_loop_counts_down() {
    let (r, out) = run(&in_main("var n = 3; while (n) var n = n - 1; println(n); return n;"));
    assert!(matches!(r, Ok(Value::Int(0))));
    assert_eq!(out, "0\n");
}

#[test]
fn break_leaves_the_loop() {
    let call = Expression::Call(
        "println".to_string(),
        vec![Expression::Literal(Literal::String("once".to_string()), sp())],
        sp(),
    );
    let body = Statement::Block(vec![Statement::Expression(call, sp()), Statement::Break(sp())], sp());
    let main = FunctionDecl {
        name: "main".to_string(),
        params: Vec::new(),
        return_type: Type::I32,
        body: Some(vec![
            Statement::While(Expression::Literal(Literal::Bool(true), sp()), Box::new(body), sp()),
            Statement::Return(Some(Expression::Literal(Literal::Int(7), sp())), sp()),
        ]),
        is_extern: false,
        span: sp(),
    };
    let m = Module {
        name: "T".to_string(),
        imports: Vec::new(),
        declarations: vec![Declaration::Function(main)],
        span: sp(),
    };
    let mut it = Interpreter::new();
    let r = it.execute_module(&m);
    assert!(matches!(r, Ok(Value::Int(7))));
    assert_eq!(text(it.output()), "once\n");
}

#[test]
fn break_is_not_a_statement_of_the_source_language() {
    let m = module_of(&in_main("break; return 3;"));
    let mut it = Interpreter::new();
    assert!(matches!(it.execute_module(&m), Ok(Value::Int(3))));
}

#[test]
fn for_loop_with_false_condition_never_runs() {
    let (r, out) = run(&in_main("for (var i = 0; false; i) { println(\"no\"); } return 1;"));
    assert!(matches!(r, Ok(Value::Int(1))));
    assert_eq!(out, "");
}

#[test]
fn for_condition_error_counts_as_false() {
    let (r, out) = run(&in_main("for (var i = 0; missing; i) { println(\"no\"); } return 2;"));
    assert!(matches!(r, Ok(Value::Int(2))));
    assert_eq!(out, "");
}

#[test]
fn if_else_takes_one_branch() {
    let (_, out) = run(&in_main("if (0) println(\"a\"); else println(\"b\"); if (\"s\") println(\"c\"); return 0;"));
    assert_eq!(out, "b\nc\n");
}

#[test]
fn functions_call_each_other_with_parameters() {
    let src = "module T; class App { static int twice(int x) { return x + x; } \
               static int main() { return twice(twice(5)); } }";
    let (r, _) = run(src);
    assert!(matches!(r, Ok(Value::Int(20))));
}

#[test]
fn missing_argument_is_null_and_no_return_is_void() {
    let src = "module T; class App { static void show(int x, int y) { println(x, y); } \
               static int main() { return show(1); } }";
    let (r, out) = run(src);
    assert!(matches!(r, Ok(Value::Void)));
    assert_eq!(out, "1null\n");
}

#[test]
fn later_method_of_a_name_wins() {
    let src = "module T; class A { static int f() { return 1; } } \
               class B { static int f() { return 2; } static int main() { return f(); } }";
    let (r, _) = run(src);
    assert!(matches!(r, Ok(Value::Int(2))));
}

#[test]
fn top_level_main_function_is_preferred() {
    let body = vec![Statement::Return(Some(Expression::Literal(Literal::Int(11), sp())), sp())];
    let top = FunctionDecl {
        name: "main".to_string(),
        params: Vec::new(),
        return_type: Type::I32,
        body: Some(body),
        is_extern: false,
        span: sp(),
    };
    let m = Module {
        name: "T".to_string(),
        imports: Vec::new(),
        declarations: vec![Declaration::Function(top)],
        span: sp(),
    };
    let mut it = Interpreter::new();
    let r = it.execute_module(&m);
    assert!(matches!(r, Ok(Value::Int(11))));
}

#[test]
fn read_line_suspends_without_a_reply() {
    let (r, out) = run(&in_main("print(\"name? \"); var s = read_line(); println(\"hi \", s); return 0;"));
    assert!(matches!(r, Err(Halt::Suspend(Request::ReadLine))));
    assert_eq!(out, "name? ");
}

#[test]
fn read_line_takes_the_trimmed_reply() {
    let (r, out) = run_with(
        &in_main("print(\"name? \"); var s = read_line(); println(\"hi \", s); return 0;"),
        vec![Reply::Line("  Ann \r\n".to_string())],
    );
    assert!(matches!(r, Ok(Value::Int(0))));
    assert_eq!(out, "name? hi Ann\n");
}

#[test]
fn replaying_with_more_replies_repeats_the_earlier_output() {
    let src = in_main("println(\"1\"); var a = read_line(); println(a); var b = read_line(); println(b); return 0;");
    let (r1, out1) = run(&src);
    assert!(matches!(r1, Err(Halt::Suspend(Request::ReadLine))));
    let (r2, out2) = run_with(&src, vec![Reply::Line("x".to_string())]);
    assert!(matches!(r2, Err(Halt::Suspend(Request::ReadLine))));
    let (r3, out3) = run_with(&src, vec![Reply::Line("x".to_string()), Reply::Line("y".to_string())]);
    assert!(matches!(r3, Ok(Value::Int(0))));
    assert!(out2.starts_with(&out1));
    assert!(out3.starts_with(&out2));
    assert_eq!(out3, "1\nx\ny\n");
}

#[test]
fn http_calls_ask_the_host() {
    let (r, _) = run(&in_main("return http_get(\"http://h/\" + \"p\");"));
    match r {
        Err(Halt::Suspend(Request::HttpGet { url })) => {
            assert_eq!(url, vec![Piece::Text("http://h/p".to_string())]);
        }
        other => panic!("unexpected {:?}", other),
    }
    let (r, _) = run(&in_main("return http_post(\"u\", 5);"));
    match r {
        Err(Halt::Suspend(Request::HttpPost { url, data })) => {
            assert_eq!(url, vec![Piece::Text("u".to_string())]);
            assert_eq!(data, vec![Piece::Text("5".to_string())]);
        }
        other => panic!("unexpected {:?}", other),
    }
    let (r, _) = run(&in_main("return http_post_json(\"u\");"));
    match r {
        Err(Halt::Suspend(Request::HttpPostJson { json, .. })) => assert!(json.is_empty()),
        other => panic!("unexpected {:?}", other),
    }
}

#[test]
fn http_replies_become_values_or_errors() {
    let src = in_main("return http_get(\"u\");");
    let (r, _) = run_with(&src, vec![Reply::Body("body".to_string())]);
    assert!(matches!(r, Ok(Value::String(s)) if s == "body"));
    let (r, _) = run_with(&src, vec![Reply::HttpError("refused".to_string())]);
    assert!(matches!(r, Err(Halt::Error(m)) if m == "HTTP: refused"));
    let dl = in_main("return http_download(\"u\", \"f.txt\");");
    let (r, _) = run_with(&dl, vec![Reply::Saved]);
    assert!(matches!(r, Ok(Value::Bool(true))));
    let (r, _) = run_with(&dl, vec![Reply::FileError("denied".to_string())]);
    assert!(matches!(r, Err(Halt::Error(m)) if m == "File: denied"));
    let (r, _) = run_with(&dl, vec![Reply::DownloadError("cut".to_string())]);
    assert!(matches!(r, Err(Halt::Error(m)) if m == "Download: cut"));
}

#[test]
fn endless_loop_runs_out_of_fuel() {
    let m = module_of(&in_main("while (true) { } return 0;"));
    let mut it = Interpreter::new();
    it.set_fuel(50);
    let r = it.execute_module(&m);
    assert!(matches!(r, Err(Halt::OutOfFuel)));
}

#[test]
fn imported_module_functions_are_called_by_dotted_name() {
    let lib = "module mathlib; class F { static int double(int x) { return x + x; } }";
    let mut it = Interpreter::new();
    it.register_module("mathlib".to_string(), module_from_source(lib));
    let m = module_of(&in_main("return mathlib.double(21);"));
    let r = it.execute_module(&m);
    assert!(matches!(r, Ok(Value::Int(42))));
}

#[test]
fn module_text_that_does_not_lex_offers_nothing() {
    let t = module_from_source("module m; class F { static int f() { return 1; } } @");
    assert!(t.get("f").is_none());
    let t = module_from_source("module m; class F { static int f() { return 1; } }");
    assert_eq!(t.get("f").unwrap().name, "f");
}

#[test]
fn function_table_later_entry_hides_earlier() {
    let mk = |n: i64| FunctionDecl {
        name: "f".to_string(),
        params: Vec::new(),
        return_type: Type::I32,
        body: Some(vec![Statement::Return(Some(Expression::Literal(Literal::Int(n), sp())), sp())]),
        is_extern: false,
        span: sp(),
    };
    let mut t = FnTable::new();
    assert!(t.get("f").is_none());
    t.insert(mk(1));
    t.insert(mk(2));
    let f = t.get("f").unwrap();
    assert!(matches!(&f.body.as_ref().unwrap()[0], Statement::Return(Some(Expression::Literal(Literal::Int(2), _)), _)));
    assert!(t.get("g").is_none());
}

#[test]
fn module_functions_take_class_methods() {
    let m = module_of("module m; class A { int f() { return 1; } int g() { return 2; } }");
    let t = module_functions(&m);
    assert_eq!(t.entries.len(), 2);
    assert_eq!(t.entries[1].name, "g");
}

#[test]
fn evaluating_an_expression_directly() {
    let e = Expression::Binary(
        Box::new(Expression::Literal(Literal::Int(6), sp())),
        BinOp::Mul,
        Box::new(Expression::Literal(Literal::Int(7), sp())),
        sp(),
    );
    let mut it = Interpreter::new();
    assert!(matches!(it.eval(&e), Ok(Value::Int(42))));
    let cmp = Expression::Binary(
        Box::new(Expression::Literal(Literal::Int(1), sp())),
        BinOp::Lt,
        Box::new(Expression::Literal(Literal::Int(2), sp())),
        sp(),
    );
    assert!(matches!(it.eval(&cmp), Ok(Value::Bool(true))));
    let other = Expression::Binary(
        Box::new(Expression::Literal(Literal::Int(1), sp())),
        BinOp::Shl,
        Box::new(Expression::Literal(Literal::Int(2), sp())),
        sp(),
    );
    assert!(matches!(it.eval(&other), Ok(Value::Int(0))));
    let rem = Expression::Binary(
        Box::new(Expression::Literal(Literal::Int(-7), sp())),
        BinOp::Mod,
        Box::new(Expression::Literal(Literal::Int(2), sp())),
        sp(),
    );
    assert!(matches!(it.eval(&rem), Ok(Value::Int(-1))));
    let quo = Expression::Binary(
        Box::new(Expression::Literal(Literal::Int(-7), sp())),
        BinOp::Div,
        Box::new(Expression::Literal(Literal::Int(2), sp())),
        sp(),
    );
    assert!(matches!(it.eval(&quo), Ok(Value::Int(-3))));
    let min = Expression::Binary(
        Box::new(Expression::Literal(Literal::Int(i64::MIN), sp())),
        BinOp::Div,
        Box::new(Expression::Literal(Literal::Int(-1), sp())),
        sp(),
    );
    assert!(matches!(it.eval(&min), Err(Halt::Fault(Fault::Overflow(BinOp::Div)))));
    let unsupported = Expression::Index(
        Box::new(Expression::Literal(Literal::Int(1), sp())),
        Box::new(Expression::Literal(Literal::Int(2), sp())),
        sp(),
    );
    assert!(matches!(it.eval(&unsupported), Err(Halt::Error(m)) if m == "Not implemented"));
    let chr = Expression::Literal(Literal::Char('z'), sp());
    assert!(matches!(it.eval(&chr), Ok(Value::Null)));
    let fl = Expression::Literal(Literal::Float("1.5".to_string()), sp());
    assert!(matches!(it.eval(&fl), Ok(Value::Float(t)) if t == "1.5"));
    let and = Expression::Binary(
        Box::new(Expression::Literal(Literal::Bool(true), sp())),
        BinOp::And,
        Box::new(Expression::Literal(Literal::Bool(false), sp())),
        sp(),
    );
    assert!(matches!(it.eval(&and), Ok(Value::Bool(false))));
    let bools = Expression::Binary(
        Box::new(Expression::Literal(Literal::Bool(true), sp())),
        BinOp::Add,
        Box::new(Expression::Literal(Literal::Bool(false), sp())),
        sp(),
    );
    assert!(matches!(it.eval(&bools), Err(Halt::Error(m)) if m == "Cannot op"));
    let mixed = Expression::Binary(
        Box::new(Expression::Literal(Literal::Bool(true), sp())),
        BinOp::Add,
        Box::new(Expression::Literal(Literal::Int(1), sp())),
        sp(),
    );
    assert!(matches!(it.eval(&mixed), Err(Halt::Error(m)) if m == "Cannot add"));
}

#[test]
fn values_truth_integer_and_text() {
    assert!(!Value::Null.as_bool());
    assert!(!Value::Int(0).as_bool());
    assert!(Value::Int(-2).as_bool());
    assert!(Value::String(String::new()).as_bool());
    assert!(Value::Void.as_bool());
    assert_eq!(Value::Int(9).as_int(), 9);
    assert_eq!(Value::Bool(true).as_int(), 0);
    let arr = Value::Array(vec![Value::Int(1), Value::String("b".to_string()), Value::Null]);
    assert_eq!(text(&vec![arr.pieces()]), "[1, b, null]");
    assert_eq!(text(&vec![Value::Void.pieces()]), "");
    assert_eq!(text(&vec![Value::Float("2.50".to_string()).pieces()]), "2.5");
    assert_eq!(text(&vec![Value::Int(i64::MIN).pieces()]), "-9223372036854775808");
}

#[test]
fn trimming_removes_unicode_white_space() {
    assert_eq!(trim_string(&"\u{3000} a b \n".to_string()), "a b");
    assert_eq!(trim_string(&"   ".to_string()), "");
    assert_eq!(trim_string(&"x".to_string()), "x");
}

#[test]
fn more_fuel_changes_nothing_for_a_finished_run() {
    let src = in_main("var n = 5; while (n) var n = n - 1; println(\"done\"); return 4;");
    let m = module_of(&src);
    let mut small = Interpreter::new();
    small.set_fuel(100);
    let r1 = small.execute_module(&m);
    let mut big = Interpreter::new();
    let r2 = big.execute_module(&m);
    assert!(matches!(r1, Ok(Value::Int(4))));
    assert!(matches!(r2, Ok(Value::Int(4))));
    assert_eq!(text(small.output()), text(big.output()));
    let mut tiny = Interpreter::new();
    tiny.set_fuel(3);
    assert!(matches!(tiny.execute_module(&m), Err(Halt::OutOfFuel)));
}

#[test]
fn output_before_an_error_is_kept() {
    let (r, out) = run(&in_main("println(\"before\"); return 1 / 0;"));
    assert!(matches!(r, Err(Halt::Fault(_))));
    assert_eq!(out, "before\n");
}
