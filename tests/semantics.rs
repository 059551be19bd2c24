use crisp::{Environment, EvalError, Mismatch, ParserError, Quote, Symbol, Value};

fn eval(buffer: &str) -> Result<Value, EvalError> {
    Environment::new_configured().eval_str(buffer)
}

#[test]
fn atoms_evaluate_to_themselves_twice() {
    let mut environment = Environment::new_configured();
    for text in ["nil", "t", "42", "\"s\""] {
        let value = crisp::parse(&text.into()).unwrap();
        let once = value.eval(&mut environment).unwrap();
        let twice = once.eval(&mut environment).unwrap();
        assert_eq!(once, value);
        assert_eq!(twice, value);
    }
}

#[test]
fn quoting_algebra() {
    let mut environment = Environment::new_configured();
    environment
        .top_level()
        .put(Symbol::from_str("a"), Value::Symbol(Symbol::from_str("b")));
    environment.eval_str("(set 'b 7)").unwrap();
    assert_eq!(
        environment.eval_str("'a").unwrap(),
        Value::Symbol(Symbol::new("a".into(), Quote::Single, false))
    );
    assert_eq!(
        environment.eval_str("a").unwrap(),
        Value::Symbol(Symbol::from_str("b"))
    );
    assert_eq!(environment.eval_str(",a").unwrap(), Value::Integer(7));
    environment.eval_str("(set 'c 'b)").unwrap();
    assert_eq!(
        environment.eval_str(",c").unwrap(),
        Value::Symbol(Symbol::new("b".into(), Quote::Single, false))
    );
}

#[test]
fn let_binds_in_the_frame_of_its_caller() {
    let mut environment = Environment::new_configured();
    assert_eq!(environment.eval_str("(let 'y 2)").unwrap(), Value::Integer(2));
    assert_eq!(environment.eval_str("y").unwrap(), Value::Integer(2));

    environment.eval_str("(defun f [] (let 'z 3) z)").unwrap();
    assert_eq!(environment.eval_str("(f)").unwrap(), Value::Integer(3));
    assert!(matches!(
        environment.eval_str("z"),
        Err(EvalError::VariableIsVoid(name)) if name == "z"
    ));
}

#[test]
fn set_updates_the_nearest_binding() {
    let mut environment = Environment::new_configured();
    environment.eval_str("(set 'x 1)").unwrap();
    environment.eval_str("(defun g [x] (set 'x 10) x)").unwrap();
    assert_eq!(environment.eval_str("(g 5)").unwrap(), Value::Integer(10));
    assert_eq!(environment.eval_str("x").unwrap(), Value::Integer(1));

    environment.eval_str("(defun h [] (set 'fresh 4))").unwrap();
    environment.eval_str("(h)").unwrap();
    assert_eq!(environment.eval_str("fresh").unwrap(), Value::Integer(4));
}

#[test]
fn frames_key_on_the_name_alone() {
    let mut environment = Environment::new_configured();
    environment
        .top_level()
        .put(Symbol::new("k".into(), Quote::Single, true), Value::Integer(9));
    assert_eq!(environment.eval_str("k").unwrap(), Value::Integer(9));
    assert!(Symbol::new("k".into(), Quote::Single, true) != Symbol::from_str("k"));
}

#[test]
fn while_loop_and_when() {
    assert_eq!(
        eval("(progn (set 'i 0) (set 's 0) (while (/= i 5) (set 's (+ s i)) (set 'i (+ i 1))) s)")
            .unwrap(),
        Value::Integer(10)
    );
    assert_eq!(eval("(when t 1 2)").unwrap(), Value::Integer(2));
    assert_eq!(eval("(when nil 1)").unwrap(), Value::Nil);
    assert_eq!(eval("(while nil 1)").unwrap(), Value::Nil);
}

#[test]
fn truthiness() {
    assert_eq!(eval("(if \"\" 1 2)").unwrap(), Value::Integer(2));
    assert_eq!(eval("(if [] 1 2)").unwrap(), Value::Integer(2));
    assert_eq!(eval("(if \"x\" 1 2)").unwrap(), Value::Integer(1));
    assert_eq!(eval("(if [nil] 1 2)").unwrap(), Value::Integer(1));
}

#[test]
fn equality() {
    assert_eq!(eval("(= 1 1)").unwrap(), Value::T);
    assert_eq!(eval("(= 1 2)").unwrap(), Value::Nil);
    assert_eq!(eval("(/= 1 2)").unwrap(), Value::T);
    assert_eq!(eval("(= [1 \"a\"] [1 \"a\"])").unwrap(), Value::T);
    assert_eq!(eval("(= 'a 'a)").unwrap(), Value::T);
}

#[test]
fn arithmetic_errors() {
    assert!(matches!(eval("(/ 1 0)"), Err(EvalError::ArgsMismatch(_, Mismatch::DivisionByZero))));
    assert!(matches!(eval("(+ 2147483647 1)"), Err(EvalError::ArgsMismatch(_, Mismatch::Overflow))));
    assert!(matches!(eval("(- -2147483648)"), Err(EvalError::ArgsMismatch(_, Mismatch::Overflow))));
    assert!(matches!(eval("(* 65536 65536)"), Err(EvalError::ArgsMismatch(_, Mismatch::Overflow))));
    assert!(matches!(eval("(+ 1 \"a\")"), Err(EvalError::ArgsMismatch(_, Mismatch::NotAnInteger))));
    assert!(matches!(eval("(- \"a\" 1)"), Err(EvalError::ArgsMismatch(_, Mismatch::BadStartingValue))));
    assert!(matches!(eval("(+)"), Err(EvalError::ArgsMismatch(_, Mismatch::NoArgs))));
    assert!(matches!(eval("(-)"), Err(EvalError::ArgsMismatch(_, Mismatch::NoCar))));
    match eval("(car 1)") {
        Err(EvalError::ArgsMismatch(name, Mismatch::NotAList)) => assert_eq!(name, "car"),
        other => panic!("unexpected {:?}", other),
    }
}

#[test]
fn division_rounds_toward_zero() {
    assert_eq!(eval("(/ -7 2)").unwrap(), Value::Integer(-3));
    assert_eq!(eval("(/ 7 -2)").unwrap(), Value::Integer(-3));
    assert_eq!(eval("(/ 100 5 2)").unwrap(), Value::Integer(10));
}

#[test]
fn unbound_names() {
    assert!(matches!(eval("nothing"), Err(EvalError::VariableIsVoid(name)) if name == "nothing"));
    assert!(matches!(eval("(nothing 1)"), Err(EvalError::FunctionDefinitionIsVoid(name)) if name == "nothing"));
}

#[test]
fn failed_list_evaluation_has_no_partial_result() {
    let mut environment = Environment::new_configured();
    assert!(environment.eval_str("[(set 'p 1) missing (set 'q 2)]").is_err());
    assert_eq!(environment.eval_str("p").unwrap(), Value::Integer(1));
    assert!(environment.eval_str("q").is_err());
}

#[test]
fn step_budget_stops_endless_loops() {
    let mut environment = Environment::new_configured();
    environment.set_budget(100);
    assert!(matches!(
        environment.eval_str("(while t 1)"),
        Err(EvalError::StepLimitReached)
    ));
    assert_eq!(environment.budget(), 0);
    assert_eq!(environment.depth(), 1);
}

#[test]
fn frames_are_popped_after_calls() {
    let mut environment = Environment::new_configured();
    assert!(environment.eval_str("(+ 1 nothing)").is_err());
    assert_eq!(environment.depth(), 1);
    assert!(environment.pop().is_none());
    assert_eq!(environment.depth(), 1);
    environment.push_to_stack(&"frame".to_string());
    assert_eq!(environment.current().caller, "frame");
    assert_eq!(environment.outer().caller, "top-level");
    assert!(environment.pop().is_some());
}

#[test]
fn parse_errors() {
    let parse = |text: &str| crisp::parse(&text.into());
    assert!(matches!(parse("()"), Err(ParserError::EmptyFuncall)));
    assert!(matches!(parse("('a 1)"), Err(ParserError::InvalidFuncall)));
    assert!(matches!(parse("(1 2)"), Err(ParserError::InvalidFuncall)));
    assert!(matches!(parse("\"a\\qb\""), Err(ParserError::InvalidEscapeSequence('q'))));
    assert!(matches!(parse(""), Err(ParserError::NoMatchingParser)));
    assert!(matches!(parse("(+ 1"), Err(ParserError::NoMatchingParser)));
    assert!(matches!(parse("2147483648"), Err(ParserError::IntegerOverflow)));
    assert!(matches!(parse("\"\\\""), Err(ParserError::MalformedInput(_))));
    assert!(matches!(
        Environment::new_configured().eval_str("(+ 1"),
        Err(EvalError::FailedToParse(ParserError::NoMatchingParser))
    ));
}

#[test]
fn integer_bounds_round_trip() {
    for n in [i32::MIN, -1, 0, 7, i32::MAX] {
        assert_eq!(crisp::parse(&format!("{}", n)).unwrap(), Value::Integer(n));
    }
    assert!(matches!(crisp::parse(&"-2147483649".into()), Err(ParserError::IntegerOverflow)));
}

#[test]
fn brackets_make_calls_or_lists() {
    let parse = |text: &str| crisp::parse(&text.into()).unwrap();
    assert_eq!(parse("[]"), Value::List(vec![]));
    assert_eq!(
        parse("(f [1] \"a b\")"),
        Value::Funcall(
            Symbol::from_str("f"),
            vec![Value::List(vec![Value::Integer(1)]), Value::String("a b".into())]
        )
    );
    assert_eq!(parse("[+ 1]"), Value::List(vec![Value::Symbol(Symbol::from_str("+")), Value::Integer(1)]));
}

#[test]
fn mismatch_names_operation_and_reason() {
    match eval("(car 1 2)") {
        Err(EvalError::ArgsMismatch(operation, reason)) => {
            assert_eq!(operation, "car");
            assert_eq!(reason, Mismatch::NotOneList);
            assert_eq!(reason.reason(), "This function takes exactly one list argument");
        }
        other => panic!("unexpected {:?}", other),
    }
}
