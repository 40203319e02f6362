use structural_typesystem::error::TypeError;
use structural_typesystem::issuer::Issuer;
use structural_typesystem::sexp::TypeExpr;
use structural_typesystem::type_env::TypeEnv;
use structural_typesystem::type_eval::type_eval;
use structural_typesystem::types::Type;

#[test]
fn names_are_given_in_order_and_kept() {
    let mut issuer = Issuer::default();
    assert_eq!(issuer.name(7), Some("a".to_string()));
    assert_eq!(issuer.name(3), Some("b".to_string()));
    assert_eq!(issuer.name(7), Some("a".to_string()));
    assert_eq!(issuer.name(9), Some("c".to_string()));
}

#[test]
fn names_run_out_after_z() {
    let mut issuer = Issuer::default();
    for id in 0..26 {
        assert!(issuer.name(id).is_some());
    }
    assert_eq!(issuer.name(25), Some("z".to_string()));
    assert_eq!(issuer.name(26), None);
    assert_eq!(issuer.name(0), Some("a".to_string()));
}

#[test]
fn rendering_more_variables_than_letters_fails() {
    let mut env = TypeEnv::default();
    let mut args = Vec::new();
    for _ in 0..27 {
        let id = env.new_variable();
        args.push(id);
    }
    let f = env.alloc.issue_id();
    env.push_node(Type::function(f, args, 0));
    assert_eq!(env.name_of(f), Err(TypeError::TooManyVariables));
}

#[test]
fn precise_errors() {
    let mut env = TypeEnv::default();
    let deep = "(vec (vec (vec (vec (vec (vec (vec (vec (vec (vec (vec int)))))))))))";
    let t = env.new_type_str(deep).unwrap();
    assert_eq!(env.name_of(t), Err(TypeError::Cyclic));
    assert_eq!(env.new_type_str("(foo int)"), Err(TypeError::Unsupported));
    assert_eq!(env.new_type_str("(record (a int))"), Err(TypeError::Unsupported));
    assert_eq!(env.new_type_str("((int) -> int"), Err(TypeError::Syntax));
    assert_eq!(env.new_type(&TypeExpr::Empty), Err(TypeError::Unsupported));
    let p = env.new_type_str("([] (record (a : int)) (vec int))").unwrap();
    assert!(matches!(type_eval(&mut env, p), Err(TypeError::NotAtom(_))));
    assert_eq!(env.alloc.get(1000).err(), Some(TypeError::IdNotFound(1000)));
    assert_eq!(env.get_variable("nothing"), Err(TypeError::NameNotFound));
}

#[test]
fn names_of_ids() {
    let mut env = TypeEnv::default();
    assert_eq!(env.get_by_id(&1), Ok("int".to_string()));
    let f = env.new_type_str("((int) -> int)").unwrap();
    assert_eq!(env.get_by_id(&f), Ok("((int) -> int)".to_string()));
    env.new_alias("unary", f);
    assert_eq!(env.get_by_id(&f), Ok("((int) -> int)".to_string()));
    assert_eq!(env.get_by_id(&999), Err(TypeError::NameNotFound));
    assert!(env.is_well_formed());
}

#[test]
fn arena_nodes_must_fit() {
    let mut env = TypeEnv::default();
    assert!(env.alloc.is_well_formed());
    let v = env.new_variable();
    env.alloc.bind(v, 1);
    assert!(env.alloc.is_well_formed());
    assert_eq!(env.alloc.find(v), Ok(1));
    assert_eq!(env.alloc.resolve(v, 5), Ok(1));
    assert_eq!(env.alloc.resolve(v, 1), Err(TypeError::Cyclic));
}

#[test]
fn nodes_can_be_changed_in_place() {
    let mut env = TypeEnv::default();
    let v = env.new_variable();
    env.alloc.get_mut(v).unwrap().set_instance(2);
    assert_eq!(env.name_of(v).unwrap(), TypeExpr::Atom("bool".to_string()));
    assert_eq!(env.alloc.get_mut(99).err(), Some(TypeError::IdNotFound(99)));
}

#[test]
fn types_written_for_inspection() {
    let mut env = TypeEnv::default();
    let f = env.new_type_str("((int a) -> (vec a))").unwrap();
    assert_eq!(env.alloc.debug(1), Ok("int_#1".to_string()));
    assert_eq!(
        env.alloc.debug(f),
        Ok("([int_#1 ?_#6] -> (vec_#5 ?_#6) #8)".to_string())
    );
    let r = env.new_type_str("(record (b : int) (a : bool))").unwrap();
    assert_eq!(
        env.alloc.debug(r),
        Ok("(record_#9 {\"a\": 2, \"b\": 1})".to_string())
    );
    let u = env.new_type_str("(| bool int)").unwrap();
    assert_eq!(env.alloc.debug(u), Ok("(|_#10 1 2)".to_string()));
    assert_eq!(env.alloc.debug(77), Err(TypeError::IdNotFound(77)));
}

#[test]
fn a_name_bound_anew_names_its_old_id_no_more() {
    let mut env = TypeEnv::default();
    env.new_alias("int", 2);
    assert_eq!(env.get(&TypeExpr::Atom("int".to_string())), Ok(2));
    assert_eq!(env.get_by_id(&1), Err(TypeError::NameNotFound));
    assert_eq!(env.get_by_id(&2), Ok("bool".to_string()));
    env.new_alias("bool", 0);
    assert_eq!(env.get_by_id(&2), Ok("int".to_string()));
    assert_eq!(env.get_by_id(&0), Ok("any".to_string()));
}

#[test]
fn bounded_variables_stand_for_their_bound() {
    let mut env = TypeEnv::default();
    let v = env.new_type_str("(a <: int)").unwrap();
    assert_eq!(v, 6);
    assert_eq!(env.name_of(v).unwrap(), TypeExpr::Atom("int".to_string()));
    assert!(env.is_subtype(v, 1).unwrap());
    assert!(env.is_subtype(v, 0).unwrap());
    assert!(!env.is_subtype(v, 2).unwrap());
    assert_eq!(env.new_type_str("(a <: int)"), Ok(6));
    assert_eq!(env.alloc.issue_id(), 7);
    assert_eq!(env.new_type_str("(1 <: int)"), Err(TypeError::Unsupported));
    assert_eq!(env.new_type_str("((a) <: int)"), Err(TypeError::Unsupported));
    assert_eq!(env.new_type_str("(b <: nothing)"), Err(TypeError::NameNotFound));
    assert_eq!(env.alloc.issue_id(), 7);
    assert_eq!(env.get(&TypeExpr::parse("(b <: nothing)").unwrap()), Ok(7));
    assert!(env.is_well_formed());
}

#[test]
fn interning_leaves_what_was_there() {
    let mut env = TypeEnv::default();
    let before: Vec<String> = (0..6).map(|i| env.alloc.debug(i).unwrap()).collect();
    env.new_type_str("((int (vec a)) -> (record (x : bool)))").unwrap();
    let after: Vec<String> = (0..6).map(|i| env.alloc.debug(i).unwrap()).collect();
    assert_eq!(before, after);
    for (i, name) in ["any", "int", "bool", "atom", "str", "vec"].iter().enumerate() {
        assert_eq!(env.get(&TypeExpr::Atom(name.to_string())), Ok(i));
    }
}
