use structural_typesystem::into_ast::into_ast;
use structural_typesystem::sexp::TypeExpr;
use structural_typesystem::show::{join, natural_string, number_string, show};

fn shown(text: &str) -> String {
    show(&into_ast(&TypeExpr::parse(text).unwrap()).unwrap())
}

#[test]
fn numbers_in_decimal() {
    assert_eq!(natural_string(0), "0");
    assert_eq!(natural_string(907), "907");
    assert_eq!(number_string(-15), "-15");
    assert_eq!(number_string(i64::MIN), "-9223372036854775808");
    assert_eq!(number_string(i64::MAX), "9223372036854775807");
}

#[test]
fn joining() {
    let parts = vec!["a".to_string(), "b".to_string(), "c".to_string()];
    assert_eq!(join(&parts, ", ", 0), "a, b, c");
    assert_eq!(join(&parts, ", ", 2), "c");
    assert_eq!(join(&parts, ", ", 3), "");
}

#[test]
fn values_as_text() {
    assert_eq!(shown("12"), "12");
    assert_eq!(shown("true"), "true");
    assert_eq!(shown(":ok"), ":ok");
    assert_eq!(shown("'hi'"), "'hi'");
    assert_eq!(shown("(vec 1 2)"), "(vec 1 2)");
    assert_eq!(shown("(record (a : 1) (b : (vec)))"), "(record (a : 1) (b : (vec )))");
    assert_eq!(shown("(external +)"), "external(+)");
}

#[test]
fn expressions_as_text() {
    assert_eq!(shown("x"), "x");
    assert_eq!(shown("(f 1 2)"), "(f 1 2)");
    assert_eq!(shown("(let x : int 1)"), "let x:int = 1");
    assert_eq!(shown("(let x 1)"), "let x = 1");
    assert_eq!(shown("(fn (x : int) y x)"), "(x: int y) -> x");
    assert_eq!(shown("(type a : (vec int))"), "type a = (vec int)");
    assert_eq!(shown("(case (1 => 2) (3 => 4))"), "(case\n  (1 => 2)\n  (3 => 4)\n)");
}
