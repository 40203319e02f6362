use structural_typesystem::ast::{from_expr, Expr, Value};
use structural_typesystem::error::TypeError;
use structural_typesystem::into_ast::into_ast;
use structural_typesystem::sexp::TypeExpr;
use structural_typesystem::type_check::{uniform_type, TypeCheck};
use structural_typesystem::type_env::TypeEnv;

fn check(text: &str) -> Result<usize, TypeError> {
    let mut env = TypeEnv::default();
    into_ast(&TypeExpr::parse(text).unwrap())
        .unwrap()
        .type_check(&mut env)
}

#[test]
fn checker_errors_are_exact() {
    assert_eq!(check("(case (1 => 0))"), Err(TypeError::GuardNotBool(1)));
    assert_eq!(check("(vec 1 true)"), Err(TypeError::NotUniform(1, 2)));
    assert_eq!(check("(vec)"), Err(TypeError::Untypable));
    assert_eq!(check("(external +)"), Err(TypeError::Untypable));
    assert_eq!(check("(let f (external +))"), Err(TypeError::Untypable));
    assert_eq!(check("(1 2)"), Err(TypeError::Mismatch(7, 1)));
    assert_eq!(check("(let x : bool 1)"), Err(TypeError::NotSubtype(1, 2)));
}

#[test]
fn uniform_types() {
    assert_eq!(uniform_type(&vec![3, 3, 3]), Ok(3));
    assert_eq!(uniform_type(&vec![3, 3, 4, 5]), Err(TypeError::NotUniform(3, 4)));
    assert_eq!(uniform_type(&vec![]), Err(TypeError::Untypable));
}

#[test]
fn let_binds_the_declared_type() {
    let mut env = TypeEnv::default();
    let e = into_ast(&TypeExpr::parse("(let x : any 1)").unwrap()).unwrap();
    assert_eq!(e.type_check(&mut env), Ok(0));
    assert_eq!(env.get_variable("x"), Ok(0));
    let f = into_ast(&TypeExpr::parse("(let y 1)").unwrap()).unwrap();
    assert_eq!(f.type_check(&mut env), Ok(1));
    assert_eq!(env.get_variable("y"), Ok(1));
}

#[test]
fn values_give_what_they_are() {
    let n = Value::Number(3);
    assert_eq!(n.number(), Ok(3));
    assert_eq!(n.boolean(), Err(TypeError::BadArgument));
    assert_eq!(Value::Bool(true).boolean(), Ok(true));
    assert_eq!(Value::Atom("a".to_string()).atom(), Ok("a".to_string()));
    assert_eq!(Value::String("s".to_string()).string(), Ok("s".to_string()));
    assert_eq!(Value::List(vec![]).list(), Ok(&vec![]));
    assert_eq!(Value::Record(vec![]).record(), Ok(&vec![]));
    assert!(n.list().is_err());
    let e = Expr::Literal(Value::Number(3));
    assert_eq!(e.literal(), Ok(&Value::Number(3)));
    assert_eq!(from_expr(&e), Ok(&Value::Number(3)));
    assert!(!e.has_context());
    assert_eq!(Expr::Variable("x".to_string()).name(), Ok("x".to_string()));
    assert_eq!(e.name(), Err(TypeError::BadArgument));
}
