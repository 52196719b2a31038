use trinity::ast::{str_to_type, Span, Type};
use trinity::codegen::c_source;
use trinity::error::{push_joined, CompilerError, SourceLocation};
use trinity::lexer::tokenize;
use trinity::parser::parse;
use trinity::semantic::TypeChecker;
use trinity::text::{push_i64, push_str, push_u64, u64_text};

fn loc(line: usize, column: usize) -> SourceLocation {
    SourceLocation {
        file: "f.tr".to_string(),
        line,
        column,
        span: Span { start: 3, end: 5 },
    }
}

#[test]
fn type_names_map_to_types() {
    assert!(matches!(str_to_type("void"), Type::Void));
    assert!(matches!(str_to_type("bool"), Type::Bool));
    assert!(matches!(str_to_type("char"), Type::Char));
    assert!(matches!(str_to_type("int"), Type::I32));
    assert!(matches!(str_to_type("i32"), Type::I32));
    assert!(matches!(str_to_type("i64"), Type::I64));
    assert!(matches!(str_to_type("long"), Type::I64));
    assert!(matches!(str_to_type("float"), Type::F32));
    assert!(matches!(str_to_type("f32"), Type::F32));
    assert!(matches!(str_to_type("f64"), Type::F64));
    assert!(matches!(str_to_type("double"), Type::F64));
    assert!(matches!(str_to_type("string"), Type::String));
    assert!(matches!(str_to_type("String"), Type::String));
    assert!(matches!(str_to_type("auto"), Type::Infer));
    assert!(matches!(str_to_type("var"), Type::Infer));
    assert!(matches!(str_to_type("Person"), Type::Class(n) if n == "Person"));
    assert!(matches!(str_to_type("Int"), Type::Class(n) if n == "Int"));
}

#[test]
fn type_text_forms() {
    assert_eq!(Type::I32.to_text(), "int");
    assert_eq!(Type::Infer.to_text(), "auto");
    assert_eq!(Type::Pointer(Box::new(Type::Char)).to_text(), "*char");
    assert_eq!(Type::Array(Box::new(Type::F64), Some(12)).to_text(), "f64[12]");
    assert_eq!(Type::Array(Box::new(Type::String), None).to_text(), "string[]");
    assert_eq!(Type::Class("Node".to_string()).to_text(), "Node");
}

#[test]
fn naming_a_type_twice_changes_nothing() {
    for name in ["long", "double", "var", "i32", "String", "Person", "f32"] {
        let once = str_to_type(name);
        let twice = str_to_type(&once.to_text());
        assert_eq!(once.to_text(), twice.to_text());
    }
}

#[test]
fn diagnostics_are_built_and_shown() {
    let e = CompilerError::lexer_error("bad", loc(3, 7));
    assert!(matches!(&e, CompilerError::LexerError { message, location } if message == "bad" && location.line == 3));
    assert_eq!(e.to_text(), "Lexer error at 3:7: bad");

    let e = CompilerError::parser_error(
        "unexpected",
        loc(1, 2),
        vec![";".to_string(), ")".to_string()],
        "}",
    );
    assert_eq!(e.to_text(), "Parser error at 1:2: unexpected (expected ;, ), found })");
    let e = CompilerError::parser_error("m", loc(0, 0), Vec::new(), "x");
    assert_eq!(e.to_text(), "Parser error at 0:0: m (expected , found x)");

    let e = CompilerError::runtime_error("boom");
    assert!(matches!(&e, CompilerError::RuntimeError { message } if message == "boom"));
    assert_eq!(e.to_text(), "Runtime error: boom");

    assert_eq!(CompilerError::IOError("gone".to_string()).to_text(), "I/O: gone");
}

#[test]
fn joining_and_number_text() {
    let mut s = String::from("<");
    push_joined(&mut s, &vec!["a".to_string(), "b".to_string(), "c".to_string()], "--");
    assert_eq!(s, "<a--b--c");
    let mut s = String::new();
    push_joined(&mut s, &Vec::new(), ",");
    assert_eq!(s, "");
    let mut s = String::new();
    push_u64(&mut s, 0);
    push_str(&mut s, "|");
    push_u64(&mut s, u64::MAX);
    push_str(&mut s, "|");
    push_i64(&mut s, -42);
    push_str(&mut s, "|");
    push_i64(&mut s, i64::MIN);
    assert_eq!(s, "0|18446744073709551615|-42|-9223372036854775808");
    assert_eq!(u64_text(1200), "1200");
}

#[test]
fn c_program_has_a_stub_per_function() {
    let src = "module M; class C { int f() { return 1; } }";
    let m = parse(tokenize(src).unwrap(), src).unwrap();
    let c = c_source(&m);
    assert_eq!(
        c,
        "#include <stdio.h>\n#include <stdlib.h>\n\nint main() {\n    printf(\"Trinity program\\n\");\n    return 0;\n}\n"
    );
    let f = trinity::ast::FunctionDecl {
        name: "go".to_string(),
        params: Vec::new(),
        return_type: Type::Void,
        body: None,
        is_extern: false,
        span: Span { start: 0, end: 0 },
    };
    let m2 = trinity::ast::Module {
        name: "M".to_string(),
        imports: Vec::new(),
        declarations: vec![trinity::ast::Declaration::Function(f)],
        span: Span { start: 0, end: 0 },
    };
    let c2 = c_source(&m2);
    assert!(c2.contains("int go() {\n    // TODO: generate function body\n    return 0;\n}\n\n"));
    assert!(c2.starts_with("#include <stdio.h>\n#include <stdlib.h>\n\nint go() {"));
}

#[test]
fn type_checker_registers_classes_by_name() {
    let src = "module M; class A { int f() { return 1; } } class B { } class A { }";
    let m = parse(tokenize(src).unwrap(), src).unwrap();
    let mut tc = TypeChecker::new();
    assert!(tc.function_names().is_empty());
    assert!(tc.check_module(&m).is_ok());
    assert_eq!(tc.class_names(), vec!["A".to_string(), "B".to_string()]);
    assert!(tc.function_names().is_empty());
}

#[test]
fn type_checker_registers_functions_by_name() {
    let f = |n: &str| trinity::ast::FunctionDecl {
        name: n.to_string(),
        params: Vec::new(),
        return_type: Type::Void,
        body: None,
        is_extern: false,
        span: Span { start: 0, end: 0 },
    };
    let m = trinity::ast::Module {
        name: "M".to_string(),
        imports: Vec::new(),
        declarations: vec![
            trinity::ast::Declaration::Function(f("x")),
            trinity::ast::Declaration::Function(f("y")),
            trinity::ast::Declaration::Function(f("x")),
        ],
        span: Span { start: 0, end: 0 },
    };
    let mut tc = TypeChecker::new();
    assert!(tc.check_module(&m).is_ok());
    assert_eq!(tc.function_names(), vec!["x".to_string(), "y".to_string()]);
}
