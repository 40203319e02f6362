use structural_typesystem::infer::InferType;
use structural_typesystem::into_ast::into_ast;
use structural_typesystem::sexp::TypeExpr;
use structural_typesystem::type_env::TypeEnv;

fn should_infer(env: &mut TypeEnv, expr: &str, type_expr: &str) {
    let expected = TypeExpr::parse(type_expr).unwrap();
    let exp = into_ast(&TypeExpr::parse(expr).unwrap()).unwrap();
    let infer_ty_id = exp.infer_type(env, &Vec::new()).unwrap();
    let actual = env.name_of(infer_ty_id).unwrap();
    assert_eq!(expected, actual);
}

#[test]
fn infer_test_literal() {
    let mut env = TypeEnv::default();
    should_infer(&mut env, "true", "bool");
    should_infer(&mut env, "1", "int");
    should_infer(&mut env, "(record (a : 1))", "(record (a : int))");
}

#[test]
fn test_fn() {
    let mut env = TypeEnv::default();
    should_infer(&mut env, "(fn (x : int) 1)", "((int) -> int)");
}

#[test]
fn infer_test_app() {
    let mut env = TypeEnv::default();
    let ty = env.new_type_str("((bool) -> bool)").unwrap();
    env.set_variable("not", ty);
    should_infer(&mut env, "(not true)", "bool");
}

#[test]
fn infer_test_let_app() {
    let mut env = TypeEnv::default();
    let ty = env.new_type_str("((a) -> a)").unwrap();
    env.set_variable("id", ty);
    should_infer(&mut env, "(let a (id 1))", "int");
}

#[test]
fn infer_test_tvar() {
    let mut env = TypeEnv::default();
    let ty = env.new_type_str("((a) -> a)").unwrap();
    env.set_variable("id", ty);
    should_infer(&mut env, "id", "((a) -> a)");
}

#[test]
fn test_fn_tvar() {
    let mut env = TypeEnv::default();
    should_infer(&mut env, "(fn x y x)", "((a b) -> a))");
}

#[test]
fn infer_lists_atoms_and_strings() {
    let mut env = TypeEnv::default();
    should_infer(&mut env, "(vec 1 2)", "(vec int)");
    should_infer(&mut env, "(vec)", "(vec a)");
    should_infer(&mut env, ":ok", ":ok");
    should_infer(&mut env, "'hi'", "str");
    should_infer(&mut env, "(include 'x')", "str");
}

#[test]
fn infer_case_unifies_bodies() {
    let mut env = TypeEnv::default();
    should_infer(&mut env, "(fn x (case (true => x) (false => 1)))", "((int) -> int)");
    let bad = into_ast(&TypeExpr::parse("(case (true => 1) (false => true))").unwrap()).unwrap();
    assert!(bad.infer_type(&mut env, &Vec::new()).is_err());
}

#[test]
fn infer_is_the_same_on_every_run() {
    let text = "(fn f x (f (f x)))";
    let mut first = TypeEnv::default();
    let mut second = TypeEnv::default();
    let e = into_ast(&TypeExpr::parse(text).unwrap()).unwrap();
    let a = e.infer_type(&mut first, &Vec::new()).unwrap();
    let b = e.infer_type(&mut second, &Vec::new()).unwrap();
    assert_eq!(a, b);
    assert_eq!(first.name_of(a).unwrap(), second.name_of(b).unwrap());
    assert_eq!(first.name_of(a).unwrap(), TypeExpr::parse("((((a) -> a) a) -> a)").unwrap());
}

#[test]
fn unknown_variables_and_bad_applications() {
    let mut env = TypeEnv::default();
    let e = into_ast(&TypeExpr::parse("y").unwrap()).unwrap();
    assert!(e.infer_type(&mut env, &Vec::new()).is_err());
    let f = into_ast(&TypeExpr::parse("(1 2)").unwrap()).unwrap();
    assert!(f.infer_type(&mut env, &Vec::new()).is_err());
}

#[test]
fn test_var() {
    let mut env = TypeEnv::default();
    should_infer(&mut env, "true", "bool");
}

#[test]
fn test_iszero() {
    let mut env = TypeEnv::default();
    let ty = env.new_type_str("((int) -> bool)").unwrap();
    env.set_variable("zero?", ty);
    should_infer(&mut env, "(zero? 0)", "bool");
}
