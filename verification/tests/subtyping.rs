use structural_typesystem::type_env::TypeEnv;

fn is_subtype(a: &str, b: &str) -> bool {
    let mut env = TypeEnv::default();
    let a = env.new_type_str(a).unwrap();
    let b = env.new_type_str(b).unwrap();
    env.is_subtype(a, b).unwrap()
}

#[test]
fn test_is_subtype_any() {
    assert!(is_subtype("int", "any"));
    assert!(is_subtype("((int) -> int)", "any"));
}

#[test]
fn test_is_subtype_literal() {
    assert!(is_subtype(":ok", "atom"));
    assert!(is_subtype(":ok", "any"));
    assert!(is_subtype(":ok", "(| :ok :err)"));
    assert!(!is_subtype(":hoge", "(| :ok :err)"));
    assert!(is_subtype("3", "int"));
    assert!(is_subtype("3", "any"));
}

#[test]
fn test_is_subtype_fn() {
    assert!(is_subtype("((any) -> int)", "((int) -> any)"));
}

#[test]
fn test_is_subtype_record() {
    assert!(is_subtype(
        "(record (a : int) (b : int))",
        "(record (a : any) (b : int))",
    ));
}

#[test]
fn test_is_subtype_union() {
    assert!(is_subtype("int", "(| int any)"));
    assert!(is_subtype("any", "(| int any)"));
    assert!(is_subtype("3", "(| 1 2 3)"));
    assert!(!is_subtype("3", "(| 0)"));
}

#[test]
fn function_arguments_are_contravariant() {
    assert!(!is_subtype("((int) -> int)", "((any) -> int)"));
    assert!(is_subtype("((any) -> int)", "((int) -> int)"));
    assert!(!is_subtype("((int) -> any)", "((int) -> int)"));
    assert!(!is_subtype("((int int) -> int)", "((int) -> int)"));
}

#[test]
fn records_need_the_same_labels() {
    assert!(!is_subtype("(record (a : int) (b : int))", "(record (a : int))"));
    assert!(!is_subtype("(record (a : int))", "(record (a : int) (b : int))"));
    assert!(!is_subtype("(record (a : bool))", "(record (a : int))"));
    assert!(is_subtype("(record (a : 1))", "(record (a : int))"));
}

#[test]
fn containers_compare_elementwise() {
    assert!(is_subtype("(vec 3)", "(vec int)"));
    assert!(!is_subtype("(vec int)", "(vec bool)"));
}

#[test]
fn string_literals_are_strings() {
    assert!(is_subtype("'hello'", "str"));
    assert!(!is_subtype("'hello'", "int"));
    assert!(!is_subtype("int", "3"));
}

#[test]
fn variables_are_only_themselves() {
    let mut env = TypeEnv::default();
    let a = env.new_type_str("a").unwrap();
    let b = env.new_type_str("b").unwrap();
    assert!(env.is_subtype(a, a).unwrap());
    assert!(!env.is_subtype(a, b).unwrap());
    assert!(env.is_subtype(a, 0).unwrap());
}

#[test]
fn subtyping_is_transitive_on_samples() {
    let names = [
        "3", "int", "any", ":ok", "atom", "(| int atom)", "(vec 3)", "(vec int)",
        "((int) -> 3)", "((3) -> int)", "(record (a : 3))", "(record (a : int))",
    ];
    let mut env = TypeEnv::default();
    let ids: Vec<usize> = names.iter().map(|n| env.new_type_str(n).unwrap()).collect();
    for &a in &ids {
        for &b in &ids {
            for &c in &ids {
                if env.is_subtype(a, b).unwrap() && env.is_subtype(b, c).unwrap() {
                    assert!(env.is_subtype(a, c).unwrap());
                }
            }
        }
    }
}
