use structural_typesystem::error::TypeError;
use structural_typesystem::type_env::TypeEnv;
use structural_typesystem::type_eval::{ensure_subtype, type_eval};

fn assert_type_eval(t: &str, s: &str) {
    let mut env = TypeEnv::default();
    let t = env.new_type_str(t).unwrap();
    let s = env.new_type_str(s).unwrap();
    assert_eq!(type_eval(&mut env, t).unwrap(), s);
}

#[test]
fn test_type_eval() {
    assert_type_eval("([] (record (a : int)) :a)", "int");
    assert_type_eval("(| (| 1) 2)", "(| 1 2)");
}

#[test]
fn type_eval_is_idempotent_on_samples() {
    for text in ["(| (| 1 2) (| 2 3))", "int", "([] (record (a : (| 1 (| 2)))) :a)"] {
        let mut env = TypeEnv::default();
        let t = env.new_type_str(text).unwrap();
        let once = type_eval(&mut env, t).unwrap();
        let twice = type_eval(&mut env, once).unwrap();
        assert_eq!(once, twice);
    }
}

#[test]
fn projection_errors() {
    let mut env = TypeEnv::default();
    let t = env.new_type_str("([] (record (a : int)) :b)").unwrap();
    assert!(matches!(type_eval(&mut env, t), Err(TypeError::FieldNotFound(_, _))));
    let u = env.new_type_str("([] int :a)").unwrap();
    assert!(matches!(type_eval(&mut env, u), Err(TypeError::NotRecord(_))));
}

#[test]
fn ensure_subtype_names_the_types() {
    let mut env = TypeEnv::default();
    let a = env.new_type_str("(record (a : int) (b : int))").unwrap();
    let b = env.new_type_str("(record (a : bool) (b : int))").unwrap();
    assert_eq!(ensure_subtype(&env, a, a), Ok(()));
    let err = ensure_subtype(&env, a, b).unwrap_err();
    assert_eq!(err, TypeError::NotSubtype(a, b));
    assert_eq!(
        env.describe(err),
        "(record (a : int) (b : int)) is not subtype of (record (a : bool) (b : int))"
    );
}

#[test]
fn errors_are_described_with_their_types() {
    let mut env = TypeEnv::default();
    let f = env.new_type_str("((int) -> int)").unwrap();
    assert_eq!(env.describe(TypeError::Mismatch(1, f)), "int != ((int) -> int)");
    assert_eq!(env.describe(TypeError::GuardNotBool(1)), "pattern must be bool: int");
    assert_eq!(env.describe(TypeError::NotUniform(1, 2)), "int and bool");
    assert_eq!(env.describe(TypeError::Recursive), "recursive unification");
    assert_eq!(env.describe(TypeError::NoMatchingCase), "unreachable in case");
    assert_eq!(env.describe(TypeError::NotSubtype(1, 999)), "not a subtype");
}
