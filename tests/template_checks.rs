use threaded::template::{check_arity, check_compiled, TemplateError};

#[test]
fn one_argument_is_accepted() {
    assert!(check_arity(1).is_ok());
}

#[test]
fn other_arities_are_refused() {
    match check_arity(2) {
        Err(e) => assert_eq!(e.message(), "Found 2 arguments, expected 1"),
        Ok(()) => panic!("two arguments accepted"),
    }
    assert!(matches!(check_arity(0), Err(TemplateError::Arity(0))));
}

#[test]
fn first_parse_error_comes_first() {
    let parse = vec!["unexpected token".to_string(), "second".to_string()];
    let compile = vec!["external command".to_string()];
    match check_compiled(&parse, &compile) {
        Err(e) => assert_eq!(e.message(), "Parse error: unexpected token"),
        Ok(()) => panic!("parse error missed"),
    }
}

#[test]
fn compile_error_when_parse_is_clean() {
    let compile = vec!["external command `ls` not available".to_string()];
    match check_compiled(&Vec::new(), &compile) {
        Err(e) => {
            let m = e.message();
            assert!(m.contains("Compile error"));
            assert_eq!(m, "Compile error: external command `ls` not available");
        }
        Ok(()) => panic!("compile error missed"),
    }
}

#[test]
fn clean_template_is_accepted() {
    assert!(check_compiled(&Vec::new(), &Vec::new()).is_ok());
}
