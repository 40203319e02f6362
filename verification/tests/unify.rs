use structural_typesystem::error::TypeError;
use structural_typesystem::sexp::TypeExpr;
use structural_typesystem::type_env::TypeEnv;
use structural_typesystem::unify::{fresh, is_generic, occurs_in_type, prune, unify};

fn parse(text: &str) -> TypeExpr {
    TypeExpr::parse(text).unwrap()
}

#[test]
fn unify_binds_a_variable() {
    let mut env = TypeEnv::default();
    let a = env.new_type_str("a").unwrap();
    let int = env.new_type_str("int").unwrap();
    assert_eq!(unify(&mut env, a, int).unwrap(), int);
    assert_eq!(prune(&mut env.alloc, a).unwrap(), int);
    assert_eq!(prune(&mut env.alloc, int).unwrap(), int);
    assert_eq!(env.name_of(a).unwrap(), parse("int"));
}

#[test]
fn unify_with_itself_changes_nothing() {
    let mut env = TypeEnv::default();
    let f = env.new_type_str("((a) -> b)").unwrap();
    let n = env.alloc.issue_id();
    assert_eq!(unify(&mut env, f, f).unwrap(), f);
    assert_eq!(env.alloc.issue_id(), n);
    assert_eq!(env.name_of(f).unwrap(), parse("((a) -> b)"));
}

#[test]
fn unify_functions_part_by_part() {
    let mut env = TypeEnv::default();
    let f = env.new_type_str("((a) -> a)").unwrap();
    let g = env.new_type_str("((int) -> b)").unwrap();
    let u = unify(&mut env, f, g).unwrap();
    assert_eq!(env.name_of(u).unwrap(), parse("((int) -> int)"));
    assert_eq!(env.name_of(f).unwrap(), parse("((int) -> int)"));
    assert_eq!(env.name_of(g).unwrap(), parse("((int) -> int)"));
}

#[test]
fn unify_mismatches() {
    let mut env = TypeEnv::default();
    let int = env.new_type_str("int").unwrap();
    let b = env.new_type_str("bool").unwrap();
    assert_eq!(unify(&mut env, int, b), Err(TypeError::Mismatch(int, b)));
    let f = env.new_type_str("((int) -> int)").unwrap();
    let g = env.new_type_str("((int int) -> int)").unwrap();
    assert_eq!(unify(&mut env, f, g), Err(TypeError::Mismatch(f, g)));
    let r = env.new_type_str("(record (a : int))").unwrap();
    let s = env.new_type_str("(record (b : int))").unwrap();
    assert_eq!(unify(&mut env, r, s), Err(TypeError::Mismatch(r, s)));
}

#[test]
fn occurs_check_stops_recursive_types() {
    let mut env = TypeEnv::default();
    let a = env.new_type_str("a").unwrap();
    let f = env.new_type_str("((a) -> int)").unwrap();
    assert!(occurs_in_type(&env.alloc, a, f).unwrap());
    assert_eq!(unify(&mut env, a, f), Err(TypeError::Recursive));
    let v = env.new_type_str("(vec a)").unwrap();
    assert_eq!(unify(&mut env, a, v), Err(TypeError::Recursive));
}

#[test]
fn fresh_renames_generic_variables_only() {
    let mut env = TypeEnv::default();
    let f = env.new_type_str("((a b) -> a)").unwrap();
    let a = env.new_type_str("a").unwrap();
    let b = env.new_type_str("b").unwrap();
    let n = env.alloc.issue_id();
    let g = fresh(&mut env, f, &vec![b]).unwrap();
    assert_eq!(env.alloc.issue_id(), n + 2);
    assert_eq!(env.name_of(g).unwrap(), parse("((a b) -> a)"));
    match env.alloc.get(g).unwrap() {
        structural_typesystem::types::Type::Function { args, ret, .. } => {
            assert_eq!(args.len(), 2);
            assert_eq!(args[0], ret);
            assert_ne!(args[0], a);
            assert_eq!(args[1], b);
        }
        _ => panic!("a function type was expected"),
    }
    assert!(is_generic(&env.alloc, a, &vec![b]).unwrap());
    assert!(!is_generic(&env.alloc, b, &vec![b]).unwrap());
}

#[test]
fn every_type_unifies_with_itself() {
    let mut env = TypeEnv::default();
    env.new_type_str("((a (vec b)) -> (record (x : (| int bool))))").unwrap();
    let v = env.new_type_str("(c <: int)").unwrap();
    assert_eq!(prune(&mut env.alloc, v), Ok(1));
    let n = env.alloc.issue_id();
    for t in 0..n {
        let before = env.alloc.debug(t).unwrap();
        let rep = env.alloc.find(t).unwrap();
        assert_eq!(unify(&mut env, t, t), Ok(rep));
        assert_eq!(env.alloc.debug(t).unwrap(), before);
    }
    assert_eq!(env.alloc.issue_id(), n);
    assert_eq!(unify(&mut env, v, 1), Ok(1));
    assert_eq!(env.alloc.issue_id(), n);
}

#[test]
fn chains_in_a_circle_are_found_out() {
    let mut env = TypeEnv::default();
    let a = env.new_variable();
    let b = env.new_variable();
    env.alloc.get_mut(a).unwrap().set_instance(b);
    assert!(env.alloc.is_well_formed());
    assert_eq!(env.alloc.follow(a), Ok(b));
    env.alloc.get_mut(b).unwrap().set_instance(a);
    assert!(!env.alloc.is_well_formed());
    assert_eq!(env.alloc.follow(a), Err(TypeError::Cyclic));
    let mut other = TypeEnv::default();
    let c = other.new_variable();
    other.alloc.get_mut(c).unwrap().set_instance(c);
    assert!(!other.is_well_formed());
}
