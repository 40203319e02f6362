use structural_typesystem::ast::Program;
use structural_typesystem::environment::Environment;
use structural_typesystem::error::TypeError;
use structural_typesystem::externals::define_externals;
use structural_typesystem::into_ast::into_ast;
use structural_typesystem::sexp::TypeExpr;
use structural_typesystem::type_check::TypeCheck;
use structural_typesystem::type_env::TypeEnv;

fn check(text: &str) -> Result<String, String> {
    let mut env = TypeEnv::default();
    let mut values = Environment::new(None);
    define_externals(&mut env, &mut values).unwrap();
    let list = match TypeExpr::parse(&format!("({})", text)).unwrap() {
        TypeExpr::List(l) => l,
        _ => panic!("a list was expected"),
    };
    let program = Program(list.iter().map(|s| into_ast(s).unwrap()).collect());
    match program.type_check(&mut env) {
        Ok(id) => Ok(env.name_of(id).unwrap().render()),
        Err(e) => Err(env.describe(e)),
    }
}

#[test]
fn type_check_let() {
    for (expected, error) in [
        ("(let x : (record (a : int)) (record (a : 3)))", None),
        (
            "(let x : (record (a : any) (b : bool)) (record (a : 1) (b : true)))",
            None,
        ),
        (
            "(let x : (record (a : bool) (b : int)) (record (b : 1) (a : 2)))",
            Some(
                "(record (a : int) (b : int)) is not subtype of (record (a : bool) (b : int))"
                    .to_string(),
            ),
        ),
    ] {
        let ast = into_ast(&TypeExpr::parse(expected).unwrap()).unwrap();
        let mut env = TypeEnv::default();
        let got = ast.type_check(&mut env).err().map(|e| env.describe(e));
        assert_eq!(got, error);
    }
}

#[test]
fn scenario_types() {
    assert_eq!(check("1").unwrap(), "int");
    assert_eq!(check("(+ 1 2)").unwrap(), "int");
    assert_eq!(check("(let id (fn x x)) (id 42)").unwrap(), "int");
    assert_eq!(
        check("(let g (fn x (fn y (+ x y)))) ((g 1) ((g 2) 3))").unwrap(),
        "int"
    );
    assert_eq!(check("(map (fn n (+ n 1)) (vec 1 2 3))").unwrap(), "(vec int)");
    assert_eq!(
        check("(let r (record (a : 1) (b : true))) ([] r :a)").unwrap(),
        "int"
    );
    assert_eq!(check("(case (false => 0) (true => 7))").unwrap(), "int");
}

#[test]
fn application_sites_require_subtypes() {
    assert!(check("(+ 1 true)").is_err());
    assert!(check("(not 1)").is_err());
    assert_eq!(check("(not true)").unwrap(), "bool");
    assert_eq!(check("(== 1 2)").unwrap(), "bool");
    assert_eq!(check("(range 0 3)").unwrap(), "(vec int)");
    assert_eq!(check("(filter (fn n (== n 1)) (vec 1 2))").unwrap(), "(vec int)");
}

#[test]
fn case_guards_and_bodies() {
    assert!(check("(case (1 => 0))").is_err());
    assert!(check("(case (true => 0) (false => true))").is_err());
    assert!(check("(case)").is_err());
}

#[test]
fn lists_are_homogeneous() {
    assert_eq!(check("(vec 1 2 3)").unwrap(), "(vec int)");
    assert!(check("(vec 1 true)").is_err());
}

#[test]
fn type_definitions_are_aliases() {
    assert_eq!(
        check("(type point : (record (x : int) (y : int))) (let p : point (record (x : 1) (y : 2)))")
            .unwrap(),
        "(record (x : int) (y : int))"
    );
    assert_eq!(check("(type n : (| (| int) bool)) (let v : n 1)").unwrap(), "(| int bool)");
}

#[test]
fn unknown_names_are_errors() {
    assert!(check("x").is_err());
    assert!(check("(f 1)").is_err());
    let mut env = TypeEnv::default();
    let e = into_ast(&TypeExpr::parse("x").unwrap()).unwrap();
    assert_eq!(e.type_check(&mut env), Err(TypeError::NameNotFound));
    assert_eq!(Program(vec![]).type_check(&mut env), Err(TypeError::Untypable));
}

#[test]
fn checking_is_the_same_on_every_run() {
    let text = "(let twice (fn f x (f (f x)))) (twice (fn n (+ n 1)) 0)";
    assert_eq!(check(text), check(text));
    assert_eq!(check(text).unwrap(), "int");
}
