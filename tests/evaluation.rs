use crisp::{Environment, Quote, Symbol, Value};

#[test]
fn funcall() {
    let eval = |buffer| Environment::new_configured().eval_str(buffer).unwrap();

    assert_eq!(eval("(+ 1 2 3)"), Value::Integer(6));
    assert_eq!(eval("(+ 10 -5)"), Value::Integer(5));
    assert_eq!(eval("(- 10)"), Value::Integer(-10));
    assert_eq!(eval("(* 2 -2)"), Value::Integer(-4));
    assert_eq!(eval("(/ 10 2)"), Value::Integer(5));

    assert_eq!(
        eval("(car ['a 'b 'c 10 -10 \"meh\"])"),
        Value::Symbol(Symbol::new("a".into(), Quote::Single, false))
    );

    assert_eq!(
        eval("(car [[10 20] [30 40]])"),
        Value::List(vec![Value::Integer(10), Value::Integer(20)])
    );

    assert_eq!(
        eval("(cdr ['hello-world \"foo\" \"bar\"])"),
        Value::List(vec![
            Value::String("foo".into()),
            Value::String("bar".into())
        ])
    );

    assert_eq!(eval("(progn 1 2 3 4 5)"), Value::Integer(5));
    assert_eq!(eval("(progn (+ 1 2 3) (- 1 2 3))"), Value::Integer(-4));

    assert_eq!(eval("(if nil 100)"), Value::Nil);
    assert_eq!(eval("(if nil 1 0)"), Value::Integer(0));
    assert_eq!(eval("(if t 1 0)"), Value::Integer(1));
}
