use forth::{Error, Evaluator};

/// Runs the lines on a fresh evaluator; the first error wins, otherwise
/// the last line's stack comes back.
fn run_lines(lines: &[&str]) -> Result<Vec<i64>, Error> {
    let mut ev = Evaluator::new();
    let mut ret: Vec<i64> = Vec::new();
    for row in lines {
        ret = ev.process(row)?;
    }
    Ok(ret)
}

fn check_ok(lines: &[&str], expected: &[i64]) {
    let got = run_lines(lines).unwrap();
    assert_eq!(expected.to_vec(), got);
}

fn check_err(lines: &[&str]) {
    assert!(run_lines(lines).is_err());
}

#[test]
fn test_num() {
    let mut ev = Evaluator::new();
    let stack = ev.process("10");
    assert_eq!(vec![10], stack.unwrap());

    let stack = ev.process("1 2 3");
    assert_eq!(vec![1, 2, 3], stack.unwrap());

    let stack = ev.process("1 3 -2");
    assert_eq!(vec![1, 3, -2], stack.unwrap());
}

#[test]
fn test_plus() {
    let mut ev = Evaluator::new();
    let stack = ev.process("1 2 +");
    assert_eq!(vec![3], stack.unwrap());

    let mut ev = Evaluator::new();
    let e = ev.process("2 +").unwrap_err();
    assert_eq!(e.message(), "too few arguments for 'Plus': [2]");
}

#[test]
fn test_minus() {
    let mut ev = Evaluator::new();
    let stack = ev.process("1 2 -");
    assert_eq!(vec![-1], stack.unwrap());
    let stack = ev.process("10 2 -");
    assert_eq!(vec![8], stack.unwrap());
}

#[test]
fn test_mul() {
    let mut ev = Evaluator::new();
    let stack = ev.process("3 2 *");
    assert_eq!(vec![6], stack.unwrap());
}

#[test]
fn test_div() {
    let mut ev = Evaluator::new();
    let stack = ev.process("3 9 /");
    assert_eq!(vec![0], stack.unwrap());
    let stack = ev.process("9 3 /");
    assert_eq!(vec![3], stack.unwrap());

    let e = ev.process("9 0 /").unwrap_err();
    assert_eq!(e.message(), "attempt to divide by zero");
}

#[test]
fn test_dup() {
    let mut ev = Evaluator::new();
    let stack = ev.process("3 dup");
    assert_eq!(vec![3, 3], stack.unwrap());
    let stack = ev.process("9 3 dup");
    assert_eq!(vec![9, 3, 3], stack.unwrap());
}

#[test]
fn test_over() {
    let mut ev = Evaluator::new();
    let stack = ev.process("1 3 over");
    assert_eq!(vec![1, 3, 1], stack.unwrap());
    let stack = ev.process("1 2 3 over");
    assert_eq!(vec![1, 2, 3, 2], stack.unwrap());

    let e = ev.process("9 over").unwrap_err();
    assert_eq!(e.message(), "too few arguments for 'Over': [9]");
}

#[test]
fn test_swap() {
    let mut ev = Evaluator::new();
    let stack = ev.process("1 3 swap");
    assert_eq!(vec![3, 1], stack.unwrap());
    let stack = ev.process("1 2 3 swap");
    assert_eq!(vec![1, 3, 2], stack.unwrap());

    let e = ev.process("9 swap").unwrap_err();
    assert_eq!(e.message(), "too few arguments for 'Swap': [9]");
}

#[test]
fn test_big() {
    // push numbers
    check_ok(&["1 2 3 4 5"], &[1, 2, 3, 4, 5]);
    // add
    check_ok(&["1 2 +"], &[3]);
    // nothing to add
    check_err(&["+"]);
    // add arity
    check_err(&["1 +"]);
    // sub
    check_ok(&["3 4 -"], &[-1]);
    // nothing to sub
    check_err(&["-"]);
    // sub arity
    check_err(&["1 -"]);
    // mul
    check_ok(&["2 4 *"], &[8]);
    // nothing to mul
    check_err(&["*"]);
    // mul arity
    check_err(&["1 *"]);
    // div
    check_ok(&["12 3 /"], &[4]);
    // integer division
    check_ok(&["8 3 /"], &[2]);
    // division by zero
    check_err(&["4 0 /"]);
    // nothing to div
    check_err(&["/"]);
    // div arity
    check_err(&["1 /"]);
    // add sub
    check_ok(&["1 2 + 4 -"], &[-1]);
    // mul div
    check_ok(&["2 4 * 3 /"], &[2]);
    // dup
    check_ok(&["1 dup"], &[1, 1]);
    // dup top
    check_ok(&["1 2 dup"], &[1, 2, 2]);
    // nothing to dup
    check_err(&["dup"]);
    // drop
    check_ok(&["1 drop"], &[]);
    // drop top
    check_ok(&["1 2 drop"], &[1]);
    // nothing to drop
    check_err(&["drop"]);
    // swap
    check_ok(&["1 2 swap"], &[2, 1]);
    // swap top
    check_ok(&["1 2 3 swap"], &[1, 3, 2]);
    // nothing to swap
    check_err(&["swap"]);
    // swap arity
    check_err(&["1 swap"]);
    // over
    check_ok(&["1 2 over"], &[1, 2, 1]);
    // over2
    check_ok(&["1 2 3 over"], &[1, 2, 3, 2]);
    // nothing to over
    check_err(&["over"]);
    // over arity
    check_err(&["1 over"]);
    // user-defined
    check_ok(&[": dup-twice dup dup ;", "1 dup-twice"], &[1, 1, 1]);
    // user-defined order
    check_ok(&[": countup 1 2 3 ;", "countup"], &[1, 2, 3]);
    // user-defined override
    check_ok(&[": foo dup ;", ": foo dup dup ;", "1 foo"], &[1, 1, 1]);
    // built-in override
    check_ok(&[": swap dup ;", "1 swap"], &[1, 1]);
    // built-in operator override
    check_ok(&[": + * ;", "3 4 +"], &[12]);
    // no redefinition
    check_ok(&[": foo 5 ;", ": bar foo ;", ": foo 6 ;", "bar foo"], &[5, 6]);
    // reuse in definition
    check_ok(&[": foo 10 ;", ": foo foo 1 + ;", "foo"], &[11]);
    // redefine numbers
    check_err(&[": 1 2 ;"]);
    // non-existent word
    check_err(&["foo"]);
    // DUP case insensitivity
    check_ok(&["1 DUP Dup dup"], &[1, 1, 1, 1]);
    // DROP case insensitivity
    check_ok(&["1 2 3 4 DROP Drop drop"], &[1]);
    // SWAP case insensitivity
    check_ok(&["1 2 SWAP 3 Swap 4 swap"], &[2, 3, 4, 1]);
    // OVER case insensitivity
    check_ok(&["1 2 OVER Over over"], &[1, 2, 1, 2, 1]);
    // user-defined case insensitivity
    check_ok(&[": foo dup ;", "1 FOO Foo foo"], &[1, 1, 1, 1]);
    // definition case insensitivity
    check_ok(&[": SWAP DUP Dup dup ;", "1 swap"], &[1, 1, 1, 1]);
    // redefine of builtin after define user function on it
    check_ok(&[": foo dup ;", ": dup 1 ;", "2 foo"], &[2, 2]);
}
