use forth::{Error, Evaluator};

#[test]
fn empty_and_blank_lines() {
    let mut ev = Evaluator::new();
    assert_eq!(ev.process("").unwrap(), Vec::<i64>::new());
    assert_eq!(ev.process("   \t  ").unwrap(), Vec::<i64>::new());
}

#[test]
fn whitespace_separators() {
    let mut ev = Evaluator::new();
    assert_eq!(ev.process("1\t2  +").unwrap(), vec![3]);
}

#[test]
fn unknown_command_reports_token_as_typed() {
    let mut ev = Evaluator::new();
    let e = ev.process("Frobnicate").unwrap_err();
    assert!(matches!(e, Error::UnknownCommand(_)));
    assert_eq!(e.message(), "Unknown command: 'Frobnicate'");
}

#[test]
fn error_kinds() {
    let mut ev = Evaluator::new();
    assert!(matches!(ev.process("5 0 /").unwrap_err(), Error::DivideByZero));
    assert!(matches!(ev.process(": 7 dup ;").unwrap_err(), Error::IllegalDefinition));
    assert!(matches!(ev.process("dup").unwrap_err(), Error::InsufficientOperands(_, _)));
    assert!(matches!(ev.process("quux").unwrap_err(), Error::UnknownCommand(_)));
}

#[test]
fn malformed_definitions() {
    let mut ev = Evaluator::new();
    // missing terminator
    assert!(matches!(ev.process(": foo 1 2").unwrap_err(), Error::IllegalDefinition));
    // missing name and body
    assert!(matches!(ev.process(":").unwrap_err(), Error::IllegalDefinition));
    assert!(matches!(ev.process(": ;").unwrap_err(), Error::IllegalDefinition));
    // a failed definition binds nothing
    assert!(matches!(ev.process("foo").unwrap_err(), Error::UnknownCommand(_)));
    // negative literals are numbers too
    assert!(matches!(ev.process(": -2 dup ;").unwrap_err(), Error::IllegalDefinition));
}

#[test]
fn empty_body_definition() {
    let mut ev = Evaluator::new();
    assert_eq!(ev.process(": nop ;").unwrap(), Vec::<i64>::new());
    assert_eq!(ev.process("1 nop 2").unwrap(), vec![1, 2]);
}

#[test]
fn errors_leave_evaluator_usable() {
    let mut ev = Evaluator::new();
    assert!(ev.process("+").is_err());
    assert_eq!(ev.process("1 2 +").unwrap(), vec![3]);
    assert!(ev.process(": foo bar ;").is_err());
    assert!(ev.process("foo").is_err());
    assert_eq!(ev.process(": foo 5 ;").unwrap(), Vec::<i64>::new());
    assert_eq!(ev.process("foo").unwrap(), vec![5]);
}

#[test]
fn definition_returns_empty_stack() {
    let mut ev = Evaluator::new();
    assert_eq!(ev.process(": two 2 ;").unwrap(), Vec::<i64>::new());
}

#[test]
fn division_truncates_toward_zero() {
    let mut ev = Evaluator::new();
    assert_eq!(ev.process("-7 2 /").unwrap(), vec![-3]);
    assert_eq!(ev.process("7 -2 /").unwrap(), vec![-3]);
    assert_eq!(ev.process("-7 -2 /").unwrap(), vec![3]);
}

#[test]
fn sixty_four_bit_limits() {
    let mut ev = Evaluator::new();
    assert_eq!(
        ev.process("-9223372036854775808 -1 -").unwrap(),
        vec![-9223372036854775807]
    );
    assert_eq!(ev.process("9223372036854775807").unwrap(), vec![9223372036854775807]);
    // one past the largest literal is no literal at all
    assert!(matches!(
        ev.process("9223372036854775808").unwrap_err(),
        Error::UnknownCommand(_)
    ));
    // arithmetic wraps around on overflow
    assert_eq!(
        ev.process("9223372036854775807 1 +").unwrap(),
        vec![-9223372036854775808]
    );
    assert_eq!(
        ev.process("-9223372036854775808 -1 /").unwrap(),
        vec![-9223372036854775808]
    );
}

#[test]
fn negative_operand_in_error_message() {
    let mut ev = Evaluator::new();
    let e = ev.process("-5 *").unwrap_err();
    assert_eq!(e.message(), "too few arguments for 'Mul': [-5]");
    let mut ev = Evaluator::new();
    let e = ev.process("drop").unwrap_err();
    assert_eq!(e.message(), "too few arguments for 'Drop': []");
}

#[test]
fn signed_literal_spellings() {
    let mut ev = Evaluator::new();
    assert_eq!(ev.process("+5 -0 10").unwrap(), vec![5, 0, 10]);
    assert!(matches!(ev.process("+").unwrap_err(), Error::InsufficientOperands(_, _)));
    assert!(matches!(ev.process("1-2").unwrap_err(), Error::UnknownCommand(_)));
}

#[test]
fn shadowing_binds_at_definition_time() {
    let mut ev = Evaluator::new();
    ev.process(": double dup + ;").unwrap();
    ev.process(": + * ;").unwrap();
    // `double` captured the built-in `+`, not the later redefinition
    assert_eq!(ev.process("3 double").unwrap(), vec![6]);
    assert_eq!(ev.process("3 4 +").unwrap(), vec![12]);
}

#[test]
fn nested_definitions_expand_recursively() {
    let mut ev = Evaluator::new();
    ev.process(": one 1 ;").unwrap();
    ev.process(": two one one + ;").unwrap();
    ev.process(": four two two + ;").unwrap();
    assert_eq!(ev.process("four").unwrap(), vec![4]);
}
