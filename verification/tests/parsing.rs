use trinity::ast::{BinOp, Declaration, Expression, Literal, Module, Statement, Type};
use trinity::lexer::tokenize;
use trinity::parser::parse;

fn module_of(src: &str) -> Module {
    parse(tokenize(src).unwrap(), src).unwrap()
}

fn only_class(m: &Module) -> &trinity::ast::ClassDecl {
    assert_eq!(m.declarations.len(), 1);
    match &m.declarations[0] {
        Declaration::Class(c) => c,
        other => panic!("unexpected {:?}", other),
    }
}

#[test]
fn module_name_and_imports() {
    let m = module_of("module App; import a.b; import c;");
    assert_eq!(m.name, "App");
    assert_eq!(m.imports, vec!["a.b".to_string(), "c".to_string()]);
    assert_eq!(m.declarations.len(), 0);
}

#[test]
fn empty_token_list_gives_an_empty_module() {
    let m = parse(Vec::new(), "").unwrap();
    assert_eq!(m.name, "");
    assert!(m.imports.is_empty());
    assert!(m.declarations.is_empty());
}

#[test]
fn class_with_static_method_and_typed_parameters() {
    let m = module_of(
        "module M; class Calc { static int add(int a, long b) { return a + b; } }",
    );
    let c = only_class(&m);
    assert_eq!(c.name, "Calc");
    assert_eq!(c.methods.len(), 1);
    let f = &c.methods[0];
    assert_eq!(f.name, "add");
    assert!(matches!(f.return_type, Type::I32));
    assert_eq!(f.params.len(), 2);
    assert_eq!(f.params[0].name, "a");
    assert!(matches!(f.params[0].ty, Type::I32));
    assert_eq!(f.params[1].name, "b");
    assert!(matches!(f.params[1].ty, Type::I64));
    let body = f.body.as_ref().unwrap();
    assert_eq!(body.len(), 1);
    match &body[0] {
        Statement::Return(Some(Expression::Binary(l, BinOp::Add, r, _)), _) => {
            assert!(matches!(&**l, Expression::Identifier(n, _) if n == "a"));
            assert!(matches!(&**r, Expression::Identifier(n, _) if n == "b"));
        }
        other => panic!("unexpected {:?}", other),
    }
}

#[test]
fn method_without_body() {
    let m = module_of("module M; class C { void f(); }");
    let c = only_class(&m);
    assert_eq!(c.methods.len(), 1);
    assert!(c.methods[0].body.is_none());
    assert!(matches!(c.methods[0].return_type, Type::Void));
}

#[test]
fn field_lines_become_fields() {
    let m = module_of("module M; class Person { string name; int age = 1; int g() { return 0; } }");
    let c = only_class(&m);
    assert_eq!(c.methods.len(), 1);
    assert_eq!(c.methods[0].name, "g");
    assert_eq!(c.fields.len(), 2);
    assert_eq!(c.fields[0].name, "name");
    assert!(matches!(c.fields[0].ty, Type::String));
    assert_eq!(c.fields[1].name, "age");
    assert!(matches!(c.fields[1].ty, Type::I32));
}

#[test]
fn top_level_functions_are_declarations() {
    let m = module_of("module Hello; static int main() { println(\"Hello, World!\"); return 0; }");
    assert_eq!(m.declarations.len(), 1);
    match &m.declarations[0] {
        Declaration::Function(f) => {
            assert_eq!(f.name, "main");
            assert!(matches!(f.return_type, Type::I32));
            assert!(f.params.is_empty());
            let body = f.body.as_ref().unwrap();
            assert_eq!(body.len(), 2);
            assert!(matches!(&body[0], Statement::Expression(Expression::Call(n, a, _), _) if n == "println" && a.len() == 1));
            assert!(matches!(&body[1], Statement::Return(Some(Expression::Literal(Literal::Int(0), _)), _)));
        }
        other => panic!("unexpected {:?}", other),
    }
}

#[test]
fn subtraction_groups_to_the_left() {
    let m = module_of("module M; class C { int f() { return 10 - 3 - 2; } }");
    let body = only_class(&m).methods[0].body.as_ref().unwrap();
    match &body[0] {
        Statement::Return(Some(Expression::Binary(l, BinOp::Sub, r, _)), _) => {
            assert!(matches!(&**r, Expression::Literal(Literal::Int(2), _)));
            assert!(matches!(&**l, Expression::Binary(a, BinOp::Sub, b, _)
                if matches!(&**a, Expression::Literal(Literal::Int(10), _))
                && matches!(&**b, Expression::Literal(Literal::Int(3), _))));
        }
        other => panic!("unexpected {:?}", other),
    }
}

#[test]
fn every_binary_operator_is_read() {
    let ops = [
        ("%", BinOp::Mod),
        ("==", BinOp::Eq),
        ("!=", BinOp::Neq),
        ("<", BinOp::Lt),
        (">", BinOp::Gt),
        ("<=", BinOp::Le),
        (">=", BinOp::Ge),
        ("&&", BinOp::And),
        ("||", BinOp::Or),
        ("=", BinOp::Assign),
    ];
    for (text, op) in ops {
        let src = format!("module M; class C {{ int f() {{ a {} b; }} }}", text);
        let m = module_of(&src);
        let body = only_class(&m).methods[0].body.as_ref().unwrap();
        assert!(matches!(&body[0], Statement::Expression(Expression::Binary(_, o, _, _), _) if *o == op), "{}", text);
    }
}

#[test]
fn assignment_groups_to_the_right_and_binds_loosest() {
    let m = module_of("module M; class C { int f() { x = y = 1 + 2; } }");
    let body = only_class(&m).methods[0].body.as_ref().unwrap();
    match &body[0] {
        Statement::Expression(Expression::Binary(l, BinOp::Assign, r, _), _) => {
            assert!(matches!(&**l, Expression::Identifier(n, _) if n == "x"));
            assert!(matches!(&**r, Expression::Binary(_, BinOp::Assign, v, _)
                if matches!(&**v, Expression::Binary(_, BinOp::Add, _, _))));
        }
        other => panic!("unexpected {:?}", other),
    }
}

#[test]
fn typed_declaration_and_float_literal() {
    let m = module_of("module M; class C { void f() { int age = 25; var pi = 3.14; Person p; } }");
    let body = only_class(&m).methods[0].body.as_ref().unwrap();
    assert_eq!(body.len(), 3);
    assert!(matches!(&body[0], Statement::Variable(n, Type::I32, Some(Expression::Literal(Literal::Int(25), _)), _) if n == "age"));
    assert!(matches!(&body[1], Statement::Variable(n, Type::Infer, Some(Expression::Literal(Literal::Float(t), _)), _) if n == "pi" && t == "3.14"));
    assert!(matches!(&body[2], Statement::Variable(n, Type::Class(c), None, _) if n == "p" && c == "Person"));
}

#[test]
fn multiplication_binds_tighter() {
    let m = module_of("module M; class C { int f() { return 1 - 2 * 3; } }");
    let body = only_class(&m).methods[0].body.as_ref().unwrap();
    match &body[0] {
        Statement::Return(Some(Expression::Binary(l, BinOp::Sub, r, _)), _) => {
            assert!(matches!(&**l, Expression::Literal(Literal::Int(1), _)));
            match &**r {
                Expression::Binary(a, BinOp::Mul, b, _) => {
                    assert!(matches!(&**a, Expression::Literal(Literal::Int(2), _)));
                    assert!(matches!(&**b, Expression::Literal(Literal::Int(3), _)));
                }
                other => panic!("unexpected {:?}", other),
            }
        }
        other => panic!("unexpected {:?}", other),
    }
}

#[test]
fn member_call_takes_the_dotted_name() {
    let m = module_of("module M; class C { int f() { return math.add(1, \"x\"); } }");
    let body = only_class(&m).methods[0].body.as_ref().unwrap();
    match &body[0] {
        Statement::Return(Some(Expression::Call(name, args, _)), _) => {
            assert_eq!(name, "math.add");
            assert_eq!(args.len(), 2);
            assert!(matches!(&args[1], Expression::Literal(Literal::String(s), _) if s == "x"));
        }
        other => panic!("unexpected {:?}", other),
    }
}

#[test]
fn member_access_without_call() {
    let m = module_of("module M; class C { int f() { return p.x; } }");
    let body = only_class(&m).methods[0].body.as_ref().unwrap();
    match &body[0] {
        Statement::Return(Some(Expression::MemberAccess(obj, member, _)), _) => {
            assert!(matches!(&**obj, Expression::Identifier(n, _) if n == "p"));
            assert_eq!(member, "x");
        }
        other => panic!("unexpected {:?}", other),
    }
}

#[test]
fn statements_of_every_kind() {
    let src = "module M; class C { void f() { var x = 1; if (x) { return; } else return x; \
               while (x) var x = x - 1; for (var i = 0; i; i) { } g(); } }";
    let m = module_of(src);
    let body = only_class(&m).methods[0].body.as_ref().unwrap();
    assert_eq!(body.len(), 5);
    assert!(matches!(&body[0], Statement::Variable(n, Type::Infer, Some(_), _) if n == "x"));
    match &body[1] {
        Statement::If(Expression::Identifier(c, _), t, Some(e), _) => {
            assert_eq!(c, "x");
            assert!(matches!(&**t, Statement::Block(b, _) if b.len() == 1));
            assert!(matches!(&**e, Statement::Return(Some(_), _)));
        }
        other => panic!("unexpected {:?}", other),
    }
    assert!(matches!(&body[2], Statement::While(_, b, _) if matches!(&**b, Statement::Variable(..))));
    assert!(matches!(&body[3], Statement::For(_, Some(_), Some(_), _, _)));
    assert!(matches!(&body[4], Statement::Expression(Expression::Call(n, a, _), _) if n == "g" && a.is_empty()));
}

#[test]
fn statement_that_does_not_parse_is_dropped() {
    let m = module_of("module M; class C { void f() { var = 3; g(); } }");
    let body = only_class(&m).methods[0].body.as_ref().unwrap();
    assert!(body.iter().any(|s| matches!(s, Statement::Expression(Expression::Call(n, _, _), _) if n == "g")));
}

#[test]
fn class_without_a_name_is_no_class() {
    let m = module_of("module M; class { int f() { return 1; } }");
    assert_eq!(m.declarations.len(), 1);
    assert!(matches!(&m.declarations[0], Declaration::Function(f) if f.name == "f"));
}

#[test]
fn unterminated_class_keeps_what_was_read() {
    let m = module_of("module M; class C { int f() { return 1; }");
    let c = only_class(&m);
    assert_eq!(c.methods.len(), 1);
    let m = module_of("module M; class C { int f(int a");
    let c = only_class(&m);
    assert_eq!(c.methods.len(), 1);
    assert_eq!(c.methods[0].params.len(), 1);
    assert!(c.methods[0].body.is_none());
}

#[test]
fn header_without_a_name_takes_the_next_token_too() {
    let m = module_of("module ; import x;");
    assert_eq!(m.name, "");
    assert!(m.imports.is_empty());
}
