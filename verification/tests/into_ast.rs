use structural_typesystem::ast::{Case, Expr, External, FnApp, FnDef, Let, Parameter, TypeDef, Value};
use structural_typesystem::error::TypeError;
use structural_typesystem::into_ast::{into_ast, is_number, parse_number, parse_parameter};
use structural_typesystem::sexp::TypeExpr;

fn parse(text: &str) -> TypeExpr {
    TypeExpr::parse(text).unwrap()
}

fn should_be_ast(sexp: &str, expected: &Expr) {
    let ast = into_ast(&parse(sexp)).unwrap();
    assert_eq!(&ast, expected);
}

fn int_type() -> TypeExpr {
    TypeExpr::Atom("int".to_string())
}

#[test]
fn into_ast_int_literal() {
    should_be_ast("1", &Expr::Literal(Value::Number(1)));
}

#[test]
fn into_ast_bool_literal() {
    should_be_ast("true", &Expr::Literal(Value::Bool(true)));
}

#[test]
fn atom_literal() {
    should_be_ast(":atom", &Expr::Literal(Value::Atom("atom".to_string())));
}

#[test]
fn string_literal() {
    should_be_ast("'str'", &Expr::Literal(Value::String("str".to_string())));
}

#[test]
fn record_literal() {
    should_be_ast(
        "(record (a : 1) (b : 2))",
        &Expr::Literal(Value::Record(vec![
            ("a".to_string(), Expr::Literal(Value::Number(1))),
            ("b".to_string(), Expr::Literal(Value::Number(2))),
        ])),
    );
}

#[test]
fn list_literal() {
    should_be_ast(
        "(vec 1 2 3)",
        &Expr::Literal(Value::List(vec![
            Expr::Literal(Value::Number(1)),
            Expr::Literal(Value::Number(2)),
            Expr::Literal(Value::Number(3)),
        ])),
    );
}

#[test]
fn into_ast_var_literal() {
    should_be_ast("x", &Expr::Variable("x".to_string()));
}

#[test]
fn parameter() {
    let param = parse_parameter(&parse("(a : int)")).unwrap();
    assert_eq!(param, Parameter::new("a".to_string(), Some(int_type())));
    let param = parse_parameter(&parse("a")).unwrap();
    assert_eq!(param, Parameter::new("a".to_string(), None));
}

#[test]
fn into_ast_let_expr() {
    should_be_ast(
        "(let x : int 1)",
        &Expr::Let(Let::new(
            "x".to_string(),
            Some(int_type()),
            Box::new(Expr::Literal(Value::Number(1))),
        )),
    );
}

#[test]
fn into_ast_let_wo_anno() {
    should_be_ast(
        "(let x 1)",
        &Expr::Let(Let::new(
            "x".to_string(),
            None,
            Box::new(Expr::Literal(Value::Number(1))),
        )),
    );
}

#[test]
fn fn_def() {
    let fn_def = Expr::FnDef(FnDef::new(
        vec![Parameter::new("x".to_string(), Some(int_type()))],
        Box::new(Expr::Variable("x".to_string())),
    ));
    should_be_ast("(fn (x : int) x)", &fn_def);
}

#[test]
fn fn_wo_anno() {
    let fn_def = Expr::FnDef(FnDef::new(
        vec![Parameter::new("x".to_string(), None)],
        Box::new(Expr::Variable("x".to_string())),
    ));
    should_be_ast("(fn x x)", &fn_def);
}

#[test]
fn into_ast_app() {
    let fn_app = Expr::FnApp(FnApp::new(
        Expr::Variable("succ".to_string()),
        vec![Expr::Literal(Value::Number(1))],
    ));
    should_be_ast("(succ 1)", &fn_app);
}

#[test]
fn type_def() {
    let expr = Expr::TypeDef(TypeDef::new("a".to_string(), int_type()));
    should_be_ast("(type a : int)", &expr);
}

#[test]
fn case() {
    let expr = Expr::Case(Case::new(vec![
        (Expr::Literal(Value::Number(1)), Expr::Literal(Value::Number(2))),
        (Expr::Literal(Value::Number(3)), Expr::Literal(Value::Number(4))),
    ]));
    should_be_ast("(case (1 => 2) (3 => 4))", &expr);
}

#[test]
fn external_and_include() {
    should_be_ast(
        "(external +)",
        &Expr::Literal(Value::External(External("+".to_string()))),
    );
    should_be_ast("(include 'prelude')", &Expr::Include("'prelude'".to_string()));
}

#[test]
fn malformed_forms_are_rejected() {
    for text in ["()", "(let)", "(let x : 1)", "(fn)", "(type a int)", "(case (1 2))", "(record (a 1))"] {
        assert_eq!(into_ast(&parse(text)), Err(TypeError::Syntax), "{}", text);
    }
    assert_eq!(into_ast(&TypeExpr::Empty), Err(TypeError::Syntax));
}

#[test]
fn numbers_are_read_exactly() {
    assert!(is_number("0123"));
    assert!(!is_number("12a"));
    assert!(!is_number(""));
    assert_eq!(parse_number("0123"), Some(123));
    assert_eq!(parse_number("9223372036854775807"), Some(i64::MAX));
    assert_eq!(parse_number("9223372036854775808"), None);
    assert_eq!(into_ast(&parse("9223372036854775808")), Err(TypeError::Syntax));
}

#[test]
fn atoms_lose_their_colons() {
    should_be_ast("::x", &Expr::Literal(Value::Atom("x".to_string())));
}

#[test]
fn parsing_and_printing_use_the_parser_crate() {
    let e = parse("(a (b c)  d)");
    assert_eq!(
        e,
        TypeExpr::List(vec![
            TypeExpr::Atom("a".to_string()),
            TypeExpr::List(vec![
                TypeExpr::Atom("b".to_string()),
                TypeExpr::Atom("c".to_string()),
            ]),
            TypeExpr::Atom("d".to_string()),
        ])
    );
    assert_eq!(e.render(), "(a (b c) d)");
    assert_eq!(TypeExpr::Atom("a b".to_string()).render(), "\"a b\"");
    assert_eq!(TypeExpr::Atom("".to_string()).render(), "\"\"");
    assert_eq!(TypeExpr::Atom("50%".to_string()).render(), "\"50%\"");
    assert_eq!(TypeExpr::List(vec![]).render(), "()");
    assert_eq!(TypeExpr::Empty.render(), "");
    assert_eq!(
        TypeExpr::List(vec![TypeExpr::Atom("a".to_string()), TypeExpr::Empty]).render(),
        "(a )"
    );
    assert!(TypeExpr::parse("(a").is_none());
    assert_eq!(TypeExpr::parse(""), Some(TypeExpr::Empty));
}
