use crisp::{Environment, EvalError, Mismatch, Value};

const FIBONACCI: &str = "(progn
  (defun fibonacci [n]
    (if (= n 0)
      0
      (if (= n 1)
        1
        (+ (fibonacci (- n 1)) (fibonacci (- n 2)))))))";

#[test]
fn factorial() {
    let mut environment = Environment::new_configured();

    environment.top_level().put_str("input", Value::Integer(5));

    let program = "(progn
      (defun factorial [n]
        (if (= n 0) 1 (* n (factorial (- n 1)))))
      (factorial input))";

    assert_eq!(environment.eval_str(program).unwrap(), Value::Integer(120));
}

#[test]
fn fibonacci() {
    let mut environment = Environment::new_configured();

    environment.eval_str(FIBONACCI).unwrap();

    assert_eq!(
        environment.eval_str("(fibonacci 5)").unwrap(),
        Value::Integer(5)
    );
}

#[test]
fn quoted_args() {
    let mut environment = Environment::new_configured();

    let program = "(progn
      (defun choose [c 'then 'else] (if c ,then ,else))
      (choose t (* 1 2 3 4 5) (/ 1 0)))";

    assert_eq!(environment.eval_str(program).unwrap(), Value::Integer(120));
}

#[test]
fn rest_args() {
    let mut environment = Environment::new_configured();

    environment
        .eval_str("(progn (defun rcar [args...] (car args)) (defun rcdr [args...] (cdr args)))")
        .unwrap();

    assert_eq!(
        environment.eval_str("(rcar 1 2 3)").unwrap(),
        Value::Integer(1)
    );
    assert_eq!(
        environment.eval_str("(rcdr 1 2 3)").unwrap(),
        Value::List(vec![Value::Integer(2), Value::Integer(3),])
    );

    assert!(environment.eval_str("(defun buggy [a... b...])").is_err());
}

#[test]
fn scenario_arithmetic_and_conditionals() {
    let eval = |buffer| Environment::new_configured().eval_str(buffer).unwrap();

    assert_eq!(eval("(+ 1 2 3)"), Value::Integer(6));
    assert_eq!(eval("(- 10)"), Value::Integer(-10));
    assert_eq!(eval("(- 10 3)"), Value::Integer(7));
    assert_eq!(eval("(if nil 1 2)"), Value::Integer(2));
    assert_eq!(eval("(if 0 1 2)"), Value::Integer(1));
}

#[test]
fn scenario_car_cdr_of_quoted_symbols() {
    let eval = |buffer| Environment::new_configured().eval_str(buffer).unwrap();

    assert_eq!(eval("(car ['a 'b 'c])"), crisp::parse(&"'a".into()).unwrap());
    assert_eq!(
        eval("(cdr ['a 'b 'c])"),
        Value::List(vec![
            crisp::parse(&"'b".into()).unwrap(),
            crisp::parse(&"'c".into()).unwrap()
        ])
    );
}

#[test]
fn scenario_add1() {
    let mut environment = Environment::new_configured();
    environment.eval_str("(defun add1 [n] (+ n 1))").unwrap();
    assert_eq!(environment.eval_str("(add1 41)").unwrap(), Value::Integer(42));
}

#[test]
fn single_rest_parameter_after_fixed_ones() {
    let mut environment = Environment::new_configured();
    environment.eval_str("(defun tail [a b... ] b)").unwrap();
    assert_eq!(
        environment.eval_str("(tail 1 (+ 1 1) 3)").unwrap(),
        Value::List(vec![Value::Integer(2), Value::Integer(3)])
    );
    environment.eval_str("(defun raw ['a...] a)").unwrap();
    assert_eq!(
        environment.eval_str("(raw (+ 1 1))").unwrap(),
        Value::List(vec![crisp::parse(&"(+ 1 1)".into()).unwrap()])
    );
}

#[test]
fn rest_parameter_must_be_last() {
    let mut environment = Environment::new_configured();
    match environment.eval_str("(defun bad [a... b] a)") {
        Err(EvalError::ArgsMismatch(name, Mismatch::RestNotLast)) => assert_eq!(name, "defun"),
        other => panic!("unexpected {:?}", other),
    }
    assert!(matches!(
        environment.eval_str("(bad 1 2)"),
        Err(EvalError::FunctionDefinitionIsVoid(_))
    ));
}

#[test]
fn missing_argument() {
    let mut environment = Environment::new_configured();
    environment.eval_str("(defun two [a b] a)").unwrap();
    assert!(matches!(
        environment.eval_str("(two 1)"),
        Err(EvalError::ArgsMismatch(_, Mismatch::NotEnoughArgs))
    ));
}

#[test]
fn redefinition_overwrites() {
    let mut environment = Environment::new_configured();
    environment.eval_str("(defun f [] 1)").unwrap();
    environment.eval_str("(defun f [] 2)").unwrap();
    assert_eq!(environment.eval_str("(f)").unwrap(), Value::Integer(2));
}
