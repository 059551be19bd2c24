//! The native operations and the registration of them in a function table.
use vstd::prelude::*;

use crate::environment::{symbol_models, Environment, Function};
use crate::error::{EvalError, Mismatch};
use crate::eval::{evolved, list_result_model, mismatch, result_model, EvalResult};
use crate::semantics::{
    arith, binding, car_form, cdr_form, defun_form, equal_chain, first_then_fold, fold_equal,
    fold_int, if_form, invoke, is_nil as is_nil_spec, lemma_find_frame_in_range, let_form,
    list_arg as list_arg_spec, params_of, progn as progn_spec, set_form, trunc_div, when_form,
    while_loop, Builtin, EnvModel, FunctionModel,
};
use crate::value::{
    clone_values, lemma_arg_decreases, lemma_models, models, tail_from, values_equal, Symbol,
    SymbolModel, Value,
};

verus! {

broadcast use Environment::lemma_wf_depth;

/// The names under which `configure` registers the native operations.
pub open spec fn with_builtins(m: Map<Seq<char>, FunctionModel>) -> Map<Seq<char>, FunctionModel> {
    m.insert("progn"@, FunctionModel::Builtin(Builtin::Progn))
        .insert("if"@, FunctionModel::Builtin(Builtin::If))
        .insert("when"@, FunctionModel::Builtin(Builtin::When))
        .insert("while"@, FunctionModel::Builtin(Builtin::While))
        .insert("set"@, FunctionModel::Builtin(Builtin::SetVar))
        .insert("let"@, FunctionModel::Builtin(Builtin::LetVar))
        .insert("="@, FunctionModel::Builtin(Builtin::Equal))
        .insert("/="@, FunctionModel::Builtin(Builtin::NotEqual))
        .insert("+"@, FunctionModel::Builtin(Builtin::Plus))
        .insert("-"@, FunctionModel::Builtin(Builtin::Minus))
        .insert("*"@, FunctionModel::Builtin(Builtin::Times))
        .insert("/"@, FunctionModel::Builtin(Builtin::Divide))
        .insert("car"@, FunctionModel::Builtin(Builtin::Car))
        .insert("cdr"@, FunctionModel::Builtin(Builtin::Cdr))
        .insert("defun"@, FunctionModel::Builtin(Builtin::Defun))
}

/// Registers the native operations.
pub fn configure(environment: &mut Environment)
    requires
        old(environment).wf(),
    ensures
        final(environment).wf(),
        final(environment)@ == (EnvModel { functions: with_builtins(old(environment)@.functions), ..old(environment)@ }),
{
    environment.add_function(Symbol::from_str("progn"), Function::new_builtin(Builtin::Progn));
    environment.add_function(Symbol::from_str("if"), Function::new_builtin(Builtin::If));
    environment.add_function(Symbol::from_str("when"), Function::new_builtin(Builtin::When));
    environment.add_function(Symbol::from_str("while"), Function::new_builtin(Builtin::While));
    environment.add_function(Symbol::from_str("set"), Function::new_builtin(Builtin::SetVar));
    environment.add_function(Symbol::from_str("let"), Function::new_builtin(Builtin::LetVar));
    environment.add_function(Symbol::from_str("="), Function::new_builtin(Builtin::Equal));
    environment.add_function(Symbol::from_str("/="), Function::new_builtin(Builtin::NotEqual));
    environment.add_function(Symbol::from_str("+"), Function::new_builtin(Builtin::Plus));
    environment.add_function(Symbol::from_str("-"), Function::new_builtin(Builtin::Minus));
    environment.add_function(Symbol::from_str("*"), Function::new_builtin(Builtin::Times));
    environment.add_function(Symbol::from_str("/"), Function::new_builtin(Builtin::Divide));
    environment.add_function(Symbol::from_str("car"), Function::new_builtin(Builtin::Car));
    environment.add_function(Symbol::from_str("cdr"), Function::new_builtin(Builtin::Cdr));
    environment.add_function(Symbol::from_str("defun"), Function::new_builtin(Builtin::Defun));
}

/// Whether a value counts as false.
pub fn is_nil(value: &Value) -> (r: bool)
    ensures
        r == is_nil_spec(value.model()),
{
    proof {
        match value {
            Value::List(elements) => lemma_models(elements@),
            _ => {},
        }
    }
    match value {
        Value::Nil => true,
        Value::List(elements) => elements.len() == 0,
        Value::String(string) => string.as_str().is_empty(),
        _ => false,
    }
}

/// One step of an integer reduction, with overflow and division by zero
/// reported.
pub fn arithmetic(op: Builtin, x: i32, y: i32) -> (r: Result<i32, Mismatch>)
    requires
        op == Builtin::Plus || op == Builtin::Minus || op == Builtin::Times || op == Builtin::Divide,
    ensures
        r == arith(op, x, y),
{
    let a = x as i64;
    let b = y as i64;
    let r: i64 = match op {
        Builtin::Plus => a + b,
        Builtin::Minus => a - b,
        Builtin::Times => {
            assert(-0x4000_0000_0000_0000 <= a * b <= 0x4000_0000_0000_0000) by (nonlinear_arith)
                requires
                    -0x8000_0000 <= a <= 0x7fff_ffff,
                    -0x8000_0000 <= b <= 0x7fff_ffff,
            ;
            a * b
        },
        _ => {
            if b == 0 {
                return Err(Mismatch::DivisionByZero);
            }
            let ua: u64 = if a < 0 { (-a) as u64 } else { a as u64 };
            let ub: u64 = if b < 0 { (-b) as u64 } else { b as u64 };
            let q = (ua / ub) as i64;
            assert(q == trunc_div(x as int, y as int) || -q == trunc_div(x as int, y as int));
            if (a < 0) == (b < 0) {
                q
            } else {
                -q
            }
        },
    };
    if r < i32::MIN as i64 || r > i32::MAX as i64 {
        Err(Mismatch::Overflow)
    } else {
        Ok(r as i32)
    }
}

/// `progn`: each argument in order; the last one's value, or Nil for none.
pub fn progn(environment: &mut Environment, args: Vec<Value>) -> (r: EvalResult)
    requires
        old(environment).wf(),
    ensures
        final(environment).wf(),
        evolved(old(environment)@, final(environment)@),
        (final(environment)@, result_model(r)) == progn_spec(models(args@), old(environment)@),
    decreases old(environment)@.budget, models(args@), 1nat,
{
    let ghost ms = models(args@);
    let ghost e0 = environment@;
    proof {
        lemma_models(args@);
        assert(ms.subrange(0, ms.len() as int) =~= ms);
    }
    if args.len() == 0 {
        return Ok(Value::Nil);
    }
    let mut i: usize = 0;
    while i < args.len() - 1
        invariant
            i + 1 <= args@.len(),
            ms == models(args@),
            ms.len() == args@.len(),
            forall|j: int| 0 <= j < ms.len() ==> #[trigger] ms[j] == args@[j].model(),
            environment.wf(),
            e0 == old(environment)@,
            evolved(e0, environment@),
            progn_spec(ms, e0) == progn_spec(ms.subrange(i as int, ms.len() as int), environment@),
        decreases args@.len() - i,
    {
        let ghost sub = ms.subrange(i as int, ms.len() as int);
        assert(sub[0] == ms[i as int]);
        assert(sub.drop_first() =~= ms.subrange(i + 1, ms.len() as int));
        match args[i].eval(environment) {
            Err(x) => {
                return Err(x);
            },
            Ok(_) => {},
        }
        i += 1;
    }
    assert(ms.subrange(i as int, ms.len() as int)[0] == ms[i as int]);
    args[i].eval(environment)
}

/// `if`: the second argument where the first is true, else `progn` of the rest.
pub fn if_(environment: &mut Environment, args: Vec<Value>) -> (r: EvalResult)
    requires
        old(environment).wf(),
    ensures
        final(environment).wf(),
        evolved(old(environment)@, final(environment)@),
        (final(environment)@, result_model(r)) == if_form(models(args@), old(environment)@),
    decreases old(environment)@.budget, models(args@), 1nat,
{
    proof {
        lemma_models(args@);
    }
    if args.len() == 0 {
        return Err(mismatch(environment, Mismatch::NoCondition));
    }
    proof {
        lemma_arg_decreases(args@, 0);
    }
    let condition = match args[0].eval(environment) {
        Ok(c) => c,
        Err(x) => {
            return Err(x);
        },
    };
    if args.len() < 2 {
        return Err(mismatch(environment, Mismatch::NoThenBranch));
    }
    if !is_nil(&condition) {
        proof {
            lemma_arg_decreases(args@, 1);
        }
        args[1].eval(environment)
    } else {
        progn(environment, tail_from(&args, 2))
    }
}

/// `when`: `progn` of the rest where the first argument is true, else Nil.
pub fn when(environment: &mut Environment, args: Vec<Value>) -> (r: EvalResult)
    requires
        old(environment).wf(),
    ensures
        final(environment).wf(),
        evolved(old(environment)@, final(environment)@),
        (final(environment)@, result_model(r)) == when_form(models(args@), old(environment)@),
    decreases old(environment)@.budget, models(args@), 1nat,
{
    proof {
        lemma_models(args@);
    }
    if args.len() == 0 {
        return Err(mismatch(environment, Mismatch::NoCondition));
    }
    proof {
        lemma_arg_decreases(args@, 0);
    }
    let condition = match args[0].eval(environment) {
        Ok(c) => c,
        Err(x) => {
            return Err(x);
        },
    };
    if !is_nil(&condition) {
        progn(environment, tail_from(&args, 1))
    } else {
        Ok(Value::Nil)
    }
}

/// `while`: evaluates the condition, then the body forms in order, until the
/// condition is false; Nil then. Each round uses one unit of budget.
pub fn while_(environment: &mut Environment, args: Vec<Value>) -> (r: EvalResult)
    requires
        old(environment).wf(),
    ensures
        final(environment).wf(),
        evolved(old(environment)@, final(environment)@),
        (final(environment)@, result_model(r)) == invoke(
            FunctionModel::Builtin(Builtin::While),
            models(args@),
            old(environment)@,
        ),
    decreases old(environment)@.budget, models(args@), 1nat,
{
    let ghost ms = models(args@);
    proof {
        lemma_models(args@);
    }
    if args.len() < 2 {
        return Err(mismatch(environment, Mismatch::NoLoopBody));
    }
    let body = tail_from(&args, 1);
    assert(models(body@) =~= ms.drop_first());
    let ghost e0 = environment@;
    loop
        invariant
            ms == models(args@),
            ms.len() == args@.len(),
            args@.len() >= 2,
            ms[0] == args@[0].model(),
            models(body@) == ms.drop_first(),
            environment.wf(),
            e0 == old(environment)@,
            evolved(e0, environment@),
            while_loop(ms, e0) == while_loop(ms, environment@),
        decreases environment@.budget,
    {
        if environment.budget() == 0 {
            return Err(EvalError::StepLimitReached);
        }
        environment.spend();
        proof {
            lemma_arg_decreases(args@, 0);
        }
        let condition = match args[0].eval(environment) {
            Ok(c) => c,
            Err(x) => {
                return Err(x);
            },
        };
        if is_nil(&condition) {
            return Ok(Value::Nil);
        }
        match progn(environment, clone_values(&body)) {
            Ok(_) => {},
            Err(x) => {
                return Err(x);
            },
        }
    }
}

/// The symbol and the value of a binding form, both evaluated.
fn symbol_binding_argslist(environment: &mut Environment, args: &Vec<Value>) -> (r: Result<(Symbol, Value), EvalError>)
    requires
        old(environment).wf(),
    ensures
        final(environment).wf(),
        evolved(old(environment)@, final(environment)@),
        (final(environment)@, match r {
            Ok((s, v)) => Ok((s@, v.model())),
            Err(x) => Err(x.model()),
        }) == binding(models(args@), old(environment)@),
    decreases old(environment)@.budget, models(args@), 0nat,
{
    proof {
        lemma_models(args@);
    }
    if args.len() != 2 {
        return Err(mismatch(environment, Mismatch::NotABinding));
    }
    proof {
        lemma_arg_decreases(args@, 0);
    }
    let symbol = match args[0].eval(environment) {
        Ok(Value::Symbol(s)) => s,
        Ok(_) => {
            return Err(mismatch(environment, Mismatch::NotASymbol));
        },
        Err(x) => {
            return Err(x);
        },
    };
    proof {
        lemma_arg_decreases(args@, 1);
    }
    match args[1].eval(environment) {
        Ok(value) => Ok((symbol, value)),
        Err(x) => Err(x),
    }
}

/// `set`: rebinds in the innermost frame that binds the name, or else binds
/// at the top level; returns the value.
pub fn set(environment: &mut Environment, args: Vec<Value>) -> (r: EvalResult)
    requires
        old(environment).wf(),
    ensures
        final(environment).wf(),
        evolved(old(environment)@, final(environment)@),
        (final(environment)@, result_model(r)) == set_form(models(args@), old(environment)@),
    decreases old(environment)@.budget, models(args@), 1nat,
{
    let (symbol, value) = match symbol_binding_argslist(environment, &args) {
        Ok(pair) => pair,
        Err(x) => {
            return Err(x);
        },
    };
    let result = value.clone();
    proof {
        lemma_find_frame_in_range(environment@.stack, symbol.name@);
    }
    match environment.find_frame(&symbol) {
        Some(i) => environment.put_at(i, symbol, value),
        None => environment.put_at(0, symbol, value),
    }
    Ok(result)
}

/// `let`: binds in the frame of the form that called `let`, the one below
/// `let`'s own frame; returns the value.
pub fn let_(environment: &mut Environment, args: Vec<Value>) -> (r: EvalResult)
    requires
        old(environment).wf(),
        old(environment)@.stack.len() >= 2,
    ensures
        final(environment).wf(),
        evolved(old(environment)@, final(environment)@),
        (final(environment)@, result_model(r)) == let_form(models(args@), old(environment)@),
    decreases old(environment)@.budget, models(args@), 1nat,
{
    let (symbol, value) = match symbol_binding_argslist(environment, &args) {
        Ok(pair) => pair,
        Err(x) => {
            return Err(x);
        },
    };
    let result = value.clone();
    let outer = environment.depth() - 2;
    environment.put_at(outer, symbol, value);
    Ok(result)
}

/// `=`: folds left from the first argument's value, each step giving T where
/// the running value equals the next argument's value and Nil where not.
pub fn eq(environment: &mut Environment, args: Vec<Value>) -> (r: EvalResult)
    requires
        old(environment).wf(),
    ensures
        final(environment).wf(),
        evolved(old(environment)@, final(environment)@),
        (final(environment)@, result_model(r)) == equal_chain(models(args@), old(environment)@),
    decreases old(environment)@.budget, models(args@), 0nat,
{
    let ghost ms = models(args@);
    let ghost e0 = environment@;
    proof {
        lemma_models(args@);
    }
    if args.len() == 0 {
        return Err(mismatch(environment, Mismatch::NoCar));
    }
    proof {
        lemma_arg_decreases(args@, 0);
    }
    let mut acc = match args[0].eval(environment) {
        Ok(v) => v,
        Err(x) => {
            return Err(x);
        },
    };
    assert(ms.subrange(1, ms.len() as int) =~= ms.drop_first());
    let mut i: usize = 1;
    while i < args.len()
        invariant
            1 <= i <= args@.len(),
            ms == models(args@),
            ms.len() == args@.len(),
            forall|j: int| 0 <= j < ms.len() ==> #[trigger] ms[j] == args@[j].model(),
            environment.wf(),
            e0 == old(environment)@,
            evolved(e0, environment@),
            equal_chain(ms, e0) == fold_equal(acc.model(), ms.subrange(i as int, ms.len() as int), environment@),
        decreases args@.len() - i,
    {
        let ghost sub = ms.subrange(i as int, ms.len() as int);
        assert(sub[0] == ms[i as int]);
        assert(sub.drop_first() =~= ms.subrange(i + 1, ms.len() as int));
        let w = match args[i].eval(environment) {
            Ok(w) => w,
            Err(x) => {
                return Err(x);
            },
        };
        acc = if values_equal(&acc, &w) {
            Value::T
        } else {
            Value::Nil
        };
        i += 1;
    }
    Ok(acc)
}

/// `/=`: T where `=` gives anything but T, Nil where it gives T.
pub fn neq(environment: &mut Environment, args: Vec<Value>) -> (r: EvalResult)
    requires
        old(environment).wf(),
    ensures
        final(environment).wf(),
        evolved(old(environment)@, final(environment)@),
        (final(environment)@, result_model(r)) == invoke(
            FunctionModel::Builtin(Builtin::NotEqual),
            models(args@),
            old(environment)@,
        ),
    decreases old(environment)@.budget, models(args@), 1nat,
{
    match eq(environment, args) {
        Ok(Value::T) => Ok(Value::Nil),
        Ok(_) => Ok(Value::T),
        Err(x) => Err(x),
    }
}

/// Folds `op` over the integer values of `args` from index `start` on,
/// beginning with `acc`.
fn reduce(environment: &mut Environment, op: Builtin, acc: i32, args: &Vec<Value>, start: usize) -> (r: EvalResult)
    requires
        old(environment).wf(),
        start <= args@.len(),
        op == Builtin::Plus || op == Builtin::Minus || op == Builtin::Times || op == Builtin::Divide,
    ensures
        final(environment).wf(),
        evolved(old(environment)@, final(environment)@),
        (final(environment)@, result_model(r)) == fold_int(
            op,
            acc,
            models(args@).subrange(start as int, args@.len() as int),
            old(environment)@,
        ),
    decreases old(environment)@.budget, models(args@).subrange(start as int, args@.len() as int), 0nat,
{
    let ghost ms = models(args@);
    let ghost e0 = environment@;
    proof {
        lemma_models(args@);
    }
    let mut total = acc;
    let mut i: usize = start;
    while i < args.len()
        invariant
            start <= i <= args@.len(),
            ms == models(args@),
            ms.len() == args@.len(),
            forall|j: int| 0 <= j < ms.len() ==> #[trigger] ms[j] == args@[j].model(),
            op == Builtin::Plus || op == Builtin::Minus || op == Builtin::Times || op == Builtin::Divide,
            environment.wf(),
            e0 == old(environment)@,
            evolved(e0, environment@),
            fold_int(op, acc, ms.subrange(start as int, ms.len() as int), e0)
                == fold_int(op, total, ms.subrange(i as int, ms.len() as int), environment@),
        decreases args@.len() - i,
    {
        let ghost sub = ms.subrange(i as int, ms.len() as int);
        assert(sub[0] == ms[i as int]);
        assert(sub.drop_first() =~= ms.subrange(i + 1, ms.len() as int));
        assert(ms.subrange(start as int, ms.len() as int)[i - start] == ms[i as int]);
        let y = match args[i].eval(environment) {
            Ok(Value::Integer(y)) => y,
            Ok(_) => {
                return Err(mismatch(environment, Mismatch::NotAnInteger));
            },
            Err(x) => {
                return Err(x);
            },
        };
        total = match arithmetic(op, total, y) {
            Ok(z) => z,
            Err(m) => {
                return Err(mismatch(environment, m));
            },
        };
        i += 1;
    }
    Ok(Value::Integer(total))
}

/// Folds `op` over the integer values of `args`, beginning with the first.
fn reduce_car_cdr(environment: &mut Environment, op: Builtin, args: &Vec<Value>) -> (r: EvalResult)
    requires
        old(environment).wf(),
        op == Builtin::Minus || op == Builtin::Divide,
    ensures
        final(environment).wf(),
        evolved(old(environment)@, final(environment)@),
        (final(environment)@, result_model(r)) == first_then_fold(op, models(args@), old(environment)@),
    decreases old(environment)@.budget, models(args@), 0nat,
{
    proof {
        lemma_models(args@);
    }
    if args.len() == 0 {
        return Err(mismatch(environment, Mismatch::NoCar));
    }
    proof {
        lemma_arg_decreases(args@, 0);
    }
    let x = match args[0].eval(environment) {
        Ok(Value::Integer(x)) => x,
        Ok(_) => {
            return Err(mismatch(environment, Mismatch::BadStartingValue));
        },
        Err(x) => {
            return Err(x);
        },
    };
    assert(models(args@).subrange(1, args@.len() as int) =~= models(args@).drop_first());
    reduce(environment, op, x, args, 1)
}

/// `+`: the sum of one or more integers.
pub fn add(environment: &mut Environment, args: Vec<Value>) -> (r: EvalResult)
    requires
        old(environment).wf(),
    ensures
        final(environment).wf(),
        evolved(old(environment)@, final(environment)@),
        (final(environment)@, result_model(r)) == invoke(
            FunctionModel::Builtin(Builtin::Plus),
            models(args@),
            old(environment)@,
        ),
    decreases old(environment)@.budget, models(args@), 1nat,
{
    if args.len() == 0 {
        return Err(mismatch(environment, Mismatch::NoArgs));
    }
    assert(models(args@).subrange(0, args@.len() as int) =~= models(args@));
    reduce(environment, Builtin::Plus, 0, &args, 0)
}

/// `*`: the product of one or more integers.
pub fn mul(environment: &mut Environment, args: Vec<Value>) -> (r: EvalResult)
    requires
        old(environment).wf(),
    ensures
        final(environment).wf(),
        evolved(old(environment)@, final(environment)@),
        (final(environment)@, result_model(r)) == invoke(
            FunctionModel::Builtin(Builtin::Times),
            models(args@),
            old(environment)@,
        ),
    decreases old(environment)@.budget, models(args@), 1nat,
{
    if args.len() == 0 {
        return Err(mismatch(environment, Mismatch::NoArgs));
    }
    assert(models(args@).subrange(0, args@.len() as int) =~= models(args@));
    reduce(environment, Builtin::Times, 1, &args, 0)
}

/// `-`: the negation of one integer, or the first minus the rest.
pub fn sub(environment: &mut Environment, args: Vec<Value>) -> (r: EvalResult)
    requires
        old(environment).wf(),
    ensures
        final(environment).wf(),
        evolved(old(environment)@, final(environment)@),
        (final(environment)@, result_model(r)) == invoke(
            FunctionModel::Builtin(Builtin::Minus),
            models(args@),
            old(environment)@,
        ),
    decreases old(environment)@.budget, models(args@), 1nat,
{
    proof {
        lemma_models(args@);
    }
    if args.len() == 1 {
        proof {
            lemma_arg_decreases(args@, 0);
        }
        match args[0].eval(environment) {
            Ok(Value::Integer(i)) => if i == i32::MIN {
                Err(mismatch(environment, Mismatch::Overflow))
            } else {
                Ok(Value::Integer(-i))
            },
            Ok(_) => Err(mismatch(environment, Mismatch::NotAnInteger)),
            Err(x) => Err(x),
        }
    } else {
        reduce_car_cdr(environment, Builtin::Minus, &args)
    }
}

/// `/`: the first integer divided by the rest, rounding toward zero.
pub fn div(environment: &mut Environment, args: Vec<Value>) -> (r: EvalResult)
    requires
        old(environment).wf(),
    ensures
        final(environment).wf(),
        evolved(old(environment)@, final(environment)@),
        (final(environment)@, result_model(r)) == first_then_fold(Builtin::Divide, models(args@), old(environment)@),
    decreases old(environment)@.budget, models(args@), 1nat,
{
    reduce_car_cdr(environment, Builtin::Divide, &args)
}

/// The elements of the one list argument, evaluated.
fn list_arg(environment: &mut Environment, args: &Vec<Value>) -> (r: Result<Vec<Value>, EvalError>)
    requires
        old(environment).wf(),
    ensures
        final(environment).wf(),
        evolved(old(environment)@, final(environment)@),
        (final(environment)@, list_result_model(r)) == list_arg_spec(models(args@), old(environment)@),
    decreases old(environment)@.budget, models(args@), 0nat,
{
    proof {
        lemma_models(args@);
    }
    if args.len() != 1 {
        return Err(mismatch(environment, Mismatch::NotOneList));
    }
    proof {
        lemma_arg_decreases(args@, 0);
    }
    match args[0].eval(environment) {
        Ok(Value::List(elements)) => Ok(elements),
        Ok(_) => Err(mismatch(environment, Mismatch::NotAList)),
        Err(x) => Err(x),
    }
}

/// `car`: the first element of the list (Nil for none), evaluated again.
pub fn car(environment: &mut Environment, args: Vec<Value>) -> (r: EvalResult)
    requires
        old(environment).wf(),
    ensures
        final(environment).wf(),
        evolved(old(environment)@, final(environment)@),
        (final(environment)@, result_model(r)) == car_form(models(args@), old(environment)@),
    decreases old(environment)@.budget, models(args@), 1nat,
{
    let elements = match list_arg(environment, &args) {
        Ok(elements) => elements,
        Err(x) => {
            return Err(x);
        },
    };
    proof {
        lemma_models(elements@);
    }
    if environment.budget() == 0 {
        return Err(EvalError::StepLimitReached);
    }
    environment.spend();
    if elements.len() > 0 {
        elements[0].eval(environment)
    } else {
        Value::Nil.eval(environment)
    }
}

/// `cdr`: the list without its first element, evaluated again.
pub fn cdr(environment: &mut Environment, args: Vec<Value>) -> (r: EvalResult)
    requires
        old(environment).wf(),
    ensures
        final(environment).wf(),
        evolved(old(environment)@, final(environment)@),
        (final(environment)@, result_model(r)) == cdr_form(models(args@), old(environment)@),
    decreases old(environment)@.budget, models(args@), 1nat,
{
    let elements = match list_arg(environment, &args) {
        Ok(elements) => elements,
        Err(x) => {
            return Err(x);
        },
    };
    if environment.budget() == 0 {
        return Err(EvalError::StepLimitReached);
    }
    environment.spend();
    let rest = if elements.len() > 0 {
        tail_from(&elements, 1)
    } else {
        elements
    };
    Value::List(rest).eval(environment)
}

/// The parameter descriptors of a definition, each checked to be a symbol,
/// with a rest parameter only in last place.
pub fn parameters(ps: &Vec<Value>) -> (r: Result<Vec<Symbol>, Mismatch>)
    ensures
        match r {
            Ok(takes) => params_of(models(ps@), false) == Ok::<Seq<SymbolModel>, Mismatch>(symbol_models(takes@)),
            Err(m) => params_of(models(ps@), false) == Err::<Seq<SymbolModel>, Mismatch>(m),
        },
{
    let ghost ms = models(ps@);
    proof {
        lemma_models(ps@);
        assert(ms.subrange(0, ms.len() as int) =~= ms);
    }
    let mut takes: Vec<Symbol> = Vec::new();
    let mut after_rest = false;
    let mut i: usize = 0;
    while i < ps.len()
        invariant
            i <= ps@.len(),
            ms == models(ps@),
            ms.len() == ps@.len(),
            forall|j: int| 0 <= j < ms.len() ==> #[trigger] ms[j] == ps@[j].model(),
            params_of(ms, false) == match params_of(ms.subrange(i as int, ms.len() as int), after_rest) {
                Ok(rest) => Ok(symbol_models(takes@) + rest),
                Err(m) => Err(m),
            },
        decreases ps@.len() - i,
    {
        let ghost sub = ms.subrange(i as int, ms.len() as int);
        assert(sub[0] == ms[i as int]);
        assert(sub.drop_first() =~= ms.subrange(i + 1, ms.len() as int));
        match &ps[i] {
            Value::Symbol(symbol) => {
                if after_rest {
                    return Err(Mismatch::RestNotLast);
                }
                let ghost before = symbol_models(takes@);
                takes.push(symbol.clone());
                after_rest = symbol.rest;
                proof {
                    assert(symbol_models(takes@) =~= before.push(symbol@));
                    match params_of(ms.subrange(i + 1, ms.len() as int), after_rest) {
                        Ok(rest) => {
                            assert(before + (seq![symbol@] + rest) =~= before.push(symbol@) + rest);
                        },
                        Err(_) => {},
                    }
                }
            },
            _ => {
                return Err(Mismatch::ParamNotSymbol);
            },
        }
        i += 1;
    }
    assert(symbol_models(takes@) + Seq::<SymbolModel>::empty() =~= symbol_models(takes@));
    Ok(takes)
}

/// `defun`: registers a user function under the (unevaluated) name, with the
/// parameter list as written and the remaining forms as body.
pub fn defun(environment: &mut Environment, args: Vec<Value>) -> (r: EvalResult)
    requires
        old(environment).wf(),
    ensures
        final(environment).wf(),
        evolved(old(environment)@, final(environment)@),
        (final(environment)@, result_model(r)) == defun_form(models(args@), old(environment)@),
{
    proof {
        lemma_models(args@);
    }
    if args.len() < 2 {
        return Err(mismatch(environment, Mismatch::DefunArity));
    }
    let name = match &args[0] {
        Value::Symbol(symbol) => symbol.clone(),
        _ => {
            return Err(mismatch(environment, Mismatch::NameNotSymbol));
        },
    };
    let takes = match &args[1] {
        Value::List(ps) => match parameters(ps) {
            Ok(takes) => takes,
            Err(m) => {
                return Err(mismatch(environment, m));
            },
        },
        _ => {
            return Err(mismatch(environment, Mismatch::ParamsNotList));
        },
    };
    let body = tail_from(&args, 2);
    environment.add_function(name, Function::new_defun(body, takes));
    Ok(Value::Nil)
}

} // verus!
