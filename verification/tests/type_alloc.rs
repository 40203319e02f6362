use structural_typesystem::sexp::TypeExpr;
use structural_typesystem::type_env::TypeEnv;

fn parse(text: &str) -> TypeExpr {
    TypeExpr::parse(text).unwrap()
}

#[test]
fn parse_fn_type() {
    let mut type_env = TypeEnv::default();
    let int_int = type_env.new_type(&parse("((int) -> int)")).unwrap();
    assert_eq!(type_env.name_of(int_int).unwrap(), parse("((int) -> int)"));
}

#[test]
fn parse_record_type() {
    let mut type_env = TypeEnv::default();
    let rec = type_env.new_type(&parse("(record (a : int))")).unwrap();
    assert_eq!(type_env.alloc.as_sexp(rec).unwrap(), parse("(record (a : int))"));
}

#[test]
fn arena_ids_are_positions() {
    let mut env = TypeEnv::default();
    assert_eq!(env.alloc.issue_id(), 6);
    let f = env.new_type_str("((int bool) -> str)").unwrap();
    assert_eq!(f, 6);
    assert_eq!(env.alloc.get(f).unwrap().id(), 6);
    assert_eq!(env.alloc.issue_id(), 7);
    assert!(env.alloc.get(7).is_err());
}

#[test]
fn interning_is_stable() {
    let mut env = TypeEnv::default();
    let a = env.new_type_str("(record (b : int) (a : (vec bool)))").unwrap();
    let n = env.alloc.issue_id();
    let b = env.new_type_str("(record (b : int) (a : (vec bool)))").unwrap();
    assert_eq!(a, b);
    assert_eq!(env.alloc.issue_id(), n);
    assert_eq!(
        env.name_of(a).unwrap(),
        parse("(record (a : (vec bool)) (b : int))")
    );
}

#[test]
fn variables_render_in_order_met() {
    let mut env = TypeEnv::default();
    let t = env.new_type_str("((x y) -> x)").unwrap();
    assert_eq!(env.name_of(t).unwrap(), parse("((a b) -> a)"));
    assert!(env.alloc.is_generic(t).unwrap());
    let u = env.new_type_str("((int) -> int)").unwrap();
    assert!(!env.alloc.is_generic(u).unwrap());
}

#[test]
fn from_sexp_finds_first_rendering() {
    let mut env = TypeEnv::default();
    let t = env.new_type_str("((int) -> bool)").unwrap();
    let e = env.alloc.as_sexp(t).unwrap();
    assert_eq!(env.alloc.from_sexp(&e).unwrap(), t);
    assert_eq!(env.alloc.from_sexp(&parse("int")).unwrap(), 1);
    assert!(env.alloc.from_sexp(&parse("(nothing here)")).is_err());
}

#[test]
fn union_members_are_a_set() {
    let mut env = TypeEnv::default();
    let u = env.new_type_str("(| bool int bool)").unwrap();
    assert_eq!(env.name_of(u).unwrap(), parse("(| int bool)"));
}

#[test]
fn unsupported_type_expressions() {
    let mut env = TypeEnv::default();
    assert!(env.new_type_str("(foo int)").is_err());
    assert!(env.new_type_str("(").is_err());
    assert!(env.new_type(&TypeExpr::Empty).is_err());
}

#[test]
fn aliases_and_variables() {
    let mut env = TypeEnv::default();
    let r = env.new_type_str("(record (a : int))").unwrap();
    env.new_alias("point", r);
    assert_eq!(env.new_type_str("point").unwrap(), r);
    env.set_variable("p", r);
    assert_eq!(env.get_variable("p").unwrap(), r);
    assert!(env.get_variable("q").is_err());
    env.set_variable("p", 1);
    assert_eq!(env.get_variable("p").unwrap(), 1);
}

#[test]
fn rendering_gives_up_on_deep_nesting() {
    let mut env = TypeEnv::default();
    let deep = "(vec (vec (vec (vec (vec (vec (vec (vec (vec (vec (vec int)))))))))))";
    let t = env.new_type_str(deep).unwrap();
    assert!(env.name_of(t).is_err());
    let ok = env.new_type_str("(vec (vec (vec int)))").unwrap();
    assert_eq!(env.name_of(ok).unwrap(), parse("(vec (vec (vec int)))"));
}
