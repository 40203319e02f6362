use structural_typesystem::ast::{Expr, Program, Value};
use structural_typesystem::environment::Environment;
use structural_typesystem::error::TypeError;
use structural_typesystem::eval::{eval_externals, range, remainder, Eval};
use structural_typesystem::externals::define_externals;
use structural_typesystem::into_ast::into_ast;
use structural_typesystem::sexp::TypeExpr;
use structural_typesystem::type_check::TypeCheck;
use structural_typesystem::type_env::TypeEnv;

fn parse(text: &str) -> Program {
    let list = match TypeExpr::parse(&format!("({})", text)).unwrap() {
        TypeExpr::List(l) => l,
        _ => panic!("a list was expected"),
    };
    Program(list.iter().map(|s| into_ast(s).unwrap()).collect())
}

fn eval(text: &str) -> Result<Expr, TypeError> {
    let mut type_env = TypeEnv::default();
    let mut env = Environment::new(None);
    define_externals(&mut type_env, &mut env).unwrap();
    let program = parse(text);
    program.type_check(&mut type_env)?;
    program.eval(&type_env, env, 1000).map(|r| r.0)
}

fn should_eval(expr: &str, expected: &str) {
    let expected = into_ast(&TypeExpr::parse(expected).unwrap()).unwrap();
    assert_eq!(eval(expr).unwrap(), expected);
}

fn num(n: i64) -> Expr {
    Expr::Literal(Value::Number(n))
}

#[test]
fn test_nest_fn() {
    should_eval(
        "(let g (fn x (fn y (+ x y))))
            ((g 1) ((g 2) 3))",
        "6",
    );
}

#[test]
fn scenario_values() {
    should_eval("1", "1");
    should_eval("(+ 1 2)", "3");
    should_eval("(let id (fn x x)) (id 42)", "42");
    should_eval("(map (fn n (+ n 1)) (vec 1 2 3))", "(vec 2 3 4)");
    should_eval("(let r (record (a : 1) (b : true))) ([] r :a)", "1");
    should_eval("(case (false => 0) (true => 7))", "7");
}

#[test]
fn arithmetic_and_logic() {
    assert_eq!(eval("(- 1 3)"), Ok(num(-2)));
    should_eval("(% 7 3)", "1");
    should_eval("(== 2 2)", "true");
    should_eval("(!= 2 2)", "false");
    should_eval("(not true)", "false");
    should_eval("(& true false)", "false");
    should_eval("(| true false)", "true");
    should_eval("(id 5)", "5");
    assert_eq!(
        eval("(to_string (vec 1 (+ 1 1)))"),
        Ok(Expr::Literal(Value::String("(vec 1 2)".to_string())))
    );
    should_eval("(to_string :a)", "':a'");
    should_eval("(dbg 5)", "5");
    assert_eq!(remainder(-7, 3), -1);
    assert_eq!(remainder(7, -3), 1);
    assert_eq!(remainder(i64::MIN, -1), 0);
}

#[test]
fn list_primitives() {
    should_eval("(range 1 4)", "(vec 1 2 3)");
    should_eval("(range 4 1)", "(vec)");
    should_eval("(filter (fn n (== (% n 2) 0)) (range 0 6))", "(vec 0 2 4)");
    should_eval("(map (fn n (- n 1)) (range 0 0))", "(vec)");
    assert_eq!(range(2, 4), vec![num(2), num(3)]);
}

#[test]
fn literals_evaluate_their_parts() {
    should_eval("(vec (+ 1 1) 3)", "(vec 2 3)");
    should_eval("(record (a : (+ 1 1)))", "(record (a : 2))");
    should_eval("(include 'x')", "''");
}

#[test]
fn let_binds_the_value() {
    should_eval("(let x (+ 1 2)) (let y (+ x x)) y", "6");
    should_eval("(let x 1) (let x 2) x", "2");
}

#[test]
fn evaluation_errors() {
    let type_env = TypeEnv::default();
    let env = Environment::new(None);
    let run = |text: &str, fuel: usize| {
        parse(text)
            .eval(&type_env, Environment::new(None), fuel)
            .map(|r| r.0)
    };
    assert_eq!(run("x", 10), Err(TypeError::UnboundVariable));
    assert_eq!(run("(1 2)", 10), Err(TypeError::NotFunction));
    assert_eq!(run("(case (false => 1))", 10), Err(TypeError::NoMatchingCase));
    assert_eq!(run("((external nothing) 1)", 10), Err(TypeError::UnknownExternal));
    assert_eq!(run("((external +) 1 true)", 10), Err(TypeError::BadArgument));
    assert_eq!(run("((external +) 1)", 10), Err(TypeError::BadArgument));
    assert_eq!(run("((external %) 1 0)", 10), Err(TypeError::BadArgument));
    assert_eq!(
        run("((external +) 9223372036854775807 1)", 10),
        Err(TypeError::Overflow)
    );
    assert_eq!(run("(let f (external +))", 10), Err(TypeError::Untypable));
    assert_eq!(run("((fn x x) 1)", 1), Err(TypeError::OutOfFuel));
    assert_eq!(run("((fn x x) 1)", 3), Ok(num(1)));
    assert_eq!(
        eval_externals(&type_env, &env, "[]", &vec![num(1), num(2)], 5),
        Err(TypeError::BadArgument)
    );
}

#[test]
fn empty_program_is_zero() {
    let type_env = TypeEnv::default();
    let r = Program(vec![]).eval(&type_env, Environment::new(None), 5).unwrap();
    assert_eq!(r.0, num(0));
}

#[test]
fn runaway_recursion_runs_out_of_fuel() {
    let type_env = TypeEnv::default();
    let program = parse("(let f (fn x (f x))) (f 1)");
    let r = program.eval(&type_env, Environment::new(None), 50);
    assert_eq!(r.map(|r| r.0), Err(TypeError::OutOfFuel));
}

#[test]
fn externals_declared_through_let() {
    let mut type_env = TypeEnv::default();
    let program = parse("(let plus : ((int int) -> int) (external +)) (plus 20 22)");
    assert!(program.type_check(&mut type_env).is_ok());
    let r = program.eval(&type_env, Environment::new(None), 50).unwrap();
    assert_eq!(r.0, num(42));
}

#[test]
fn scopes_look_outwards() {
    let mut outer = Environment::new(None);
    outer.insert("x", num(1));
    let mut inner = Environment::new(Some(Box::new(outer)));
    inner.insert("y", num(2));
    assert_eq!(inner.get("x"), Ok(&num(1)));
    assert_eq!(inner.get("y"), Ok(&num(2)));
    inner.insert("x", num(3));
    assert_eq!(inner.get("x"), Ok(&num(3)));
    assert_eq!(inner.parent.as_ref().unwrap().get("x"), Ok(&num(1)));
    assert_eq!(inner.get("z"), Err(TypeError::UnboundVariable));
}

#[test]
fn functions_see_the_bindings_at_the_call() {
    let text = "(let x (fn y y)) (let h (fn z (x z))) (let x 1) (h 2)";
    let mut type_env = TypeEnv::default();
    let program = parse(text);
    assert!(program.type_check(&mut type_env).is_ok());
    let r = program.eval(&type_env, Environment::new(None), 100);
    assert_eq!(r.map(|r| r.0), Err(TypeError::NotFunction));
    should_eval("(let x 1) (let h (fn z (+ x z))) (let x 10) (h 2)", "12");
}
