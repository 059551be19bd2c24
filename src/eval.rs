//! Evaluation of values, calls, and the binding of a user function's
//! parameters.
use vstd::prelude::*;

use crate::builtins;
use crate::builtins::{configure, with_builtins};
use crate::environment::{symbol_models, Closure, Environment, Function};
use crate::error::{ErrorModel, EvalError, Mismatch};
use crate::parser::{parse, parse_text};
use crate::semantics::{bind, call, eval_list, eval_value, invoke, Builtin, EnvModel, FrameModel, Outcome};
use crate::value::{clone_values, lemma_models, models, tail_from, Quote, Symbol, Value, ValueModel};

verus! {

broadcast use Environment::lemma_wf_depth;

pub type EvalResult = Result<Value, EvalError>;

pub open spec fn result_model(r: EvalResult) -> Result<ValueModel, ErrorModel> {
    match r {
        Ok(v) => Ok(v.model()),
        Err(x) => Err(x.model()),
    }
}

pub open spec fn list_result_model(r: Result<Vec<Value>, EvalError>) -> Result<Seq<ValueModel>, ErrorModel> {
    match r {
        Ok(vs) => Ok(models(vs@)),
        Err(x) => Err(x.model()),
    }
}

/// What every evaluation keeps: the budget does not grow and the stack has as
/// many frames afterwards as before.
pub open spec fn evolved(before: EnvModel, after: EnvModel) -> bool {
    after.budget <= before.budget && after.stack.len() == before.stack.len()
}

/// `done` put in front of the values that `rest` evaluated to.
pub open spec fn prepend(
    done: Seq<ValueModel>,
    rest: (EnvModel, Result<Seq<ValueModel>, ErrorModel>),
) -> (EnvModel, Result<Seq<ValueModel>, ErrorModel>) {
    (rest.0, match rest.1 {
        Ok(ws) => Ok(done + ws),
        Err(x) => Err(x),
    })
}

/// The error for refused arguments, naming the operation of the innermost frame.
pub(crate) fn mismatch(environment: &Environment, reason: Mismatch) -> (r: EvalError)
    requires
        environment.wf(),
    ensures
        r.model() == ErrorModel::ArgsMismatch(environment@.caller(), reason),
{
    EvalError::ArgsMismatch(environment.caller(), reason)
}

/// Each value of `elements` evaluated, left to right; the first error ends it.
pub(crate) fn eval_values(elements: &Vec<Value>, environment: &mut Environment) -> (r: Result<Vec<Value>, EvalError>)
    requires
        old(environment).wf(),
    ensures
        final(environment).wf(),
        evolved(old(environment)@, final(environment)@),
        (final(environment)@, list_result_model(r)) == eval_list(models(elements@), old(environment)@),
    decreases old(environment)@.budget, models(elements@), 0nat,
{
    let ghost ms = models(elements@);
    let ghost e0 = environment@;
    proof {
        lemma_models(elements@);
        assert(ms.subrange(0, ms.len() as int) =~= ms);
    }
    let mut out: Vec<Value> = Vec::new();
    let mut i: usize = 0;
    while i < elements.len()
        invariant
            i <= elements@.len(),
            ms == models(elements@),
            ms.len() == elements@.len(),
            forall|j: int| 0 <= j < ms.len() ==> #[trigger] ms[j] == elements@[j].model(),
            environment.wf(),
            e0 == old(environment)@,
            evolved(e0, environment@),
            eval_list(ms, e0) == prepend(models(out@), eval_list(ms.subrange(i as int, ms.len() as int), environment@)),
        decreases elements@.len() - i,
    {
        let ghost before = environment@;
        let ghost sub = ms.subrange(i as int, ms.len() as int);
        assert(sub[0] == ms[i as int]);
        assert(sub.drop_first() =~= ms.subrange(i + 1, ms.len() as int));
        match elements[i].eval(environment) {
            Err(x) => {
                return Err(x);
            },
            Ok(w) => {
                let ghost wm = w.model();
                let ghost out_before = models(out@);
                out.push(w);
                proof {
                    lemma_models(out@);
                    assert(models(out@) =~= out_before.push(wm));
                    let rest = eval_list(ms.subrange(i + 1, ms.len() as int), environment@);
                    match rest.1 {
                        Ok(ws) => {
                            assert(out_before + (seq![wm] + ws) =~= out_before.push(wm) + ws);
                        },
                        Err(_) => {},
                    }
                }
            },
        }
        i += 1;
    }
    proof {
        assert(ms.subrange(i as int, ms.len() as int) =~= Seq::<ValueModel>::empty());
        assert(models(out@) + Seq::<ValueModel>::empty() =~= models(out@));
    }
    Ok(out)
}

/// Binds the parameters `takes` of a user function to the unevaluated `args`
/// in the innermost frame.
fn bind_params(takes: &Vec<Symbol>, args: Vec<Value>, environment: &mut Environment) -> (r: EvalResult)
    requires
        old(environment).wf(),
    ensures
        final(environment).wf(),
        evolved(old(environment)@, final(environment)@),
        (final(environment)@, result_model(r)) == bind(symbol_models(takes@), models(args@), old(environment)@),
    decreases old(environment)@.budget, models(args@), 1nat,
{
    let ghost ts = symbol_models(takes@);
    let ghost ms = models(args@);
    let ghost e0 = environment@;
    proof {
        lemma_models(args@);
        assert(ts.subrange(0, ts.len() as int) =~= ts);
        assert(ms.subrange(0, ms.len() as int) =~= ms);
    }
    let mut p: usize = 0;
    while p < takes.len()
        invariant
            p <= takes@.len(),
            p <= args@.len(),
            ts == symbol_models(takes@),
            ms == models(args@),
            ms.len() == args@.len(),
            forall|j: int| 0 <= j < ms.len() ==> #[trigger] ms[j] == args@[j].model(),
            environment.wf(),
            e0 == old(environment)@,
            evolved(e0, environment@),
            bind(ts, ms, e0) == bind(ts.subrange(p as int, ts.len() as int), ms.subrange(p as int, ms.len() as int), environment@),
        decreases takes@.len() - p,
    {
        let ghost tsub = ts.subrange(p as int, ts.len() as int);
        let ghost msub = ms.subrange(p as int, ms.len() as int);
        assert(tsub[0] == takes@[p as int]@);
        assert(tsub.drop_first() =~= ts.subrange(p + 1, ts.len() as int));
        let symbol = &takes[p];
        let top = environment.depth() - 1;
        if symbol.rest {
            let rest = tail_from(&args, p);
            let value = if symbol.quote == Quote::Single {
                Value::List(rest)
            } else {
                if p == 0 {
                    assert(models(rest@) == ms);
                }
                match eval_values(&rest, environment) {
                    Ok(values) => Value::List(values),
                    Err(x) => {
                        return Err(x);
                    },
                }
            };
            let top = environment.depth() - 1;
            environment.put_at(top, symbol.clone(), value);
            return Ok(Value::Nil);
        }
        if p >= args.len() {
            return Err(mismatch(environment, Mismatch::NotEnoughArgs));
        }
        assert(msub[0] == ms[p as int]);
        assert(msub.drop_first() =~= ms.subrange(p + 1, ms.len() as int));
        let value = if symbol.quote == Quote::Single {
            args[p].clone()
        } else {
            match args[p].eval(environment) {
                Ok(v) => v,
                Err(x) => {
                    return Err(x);
                },
            }
        };
        environment.put_at(top, symbol.clone(), value);
        p += 1;
    }
    Ok(Value::Nil)
}

impl Value {
    /// Evaluates this value: atoms stand for themselves; a Single-quoted
    /// symbol for itself, an unquoted one for its binding, an Eval-quoted one
    /// for its binding evaluated again; a list for the list of its elements'
    /// values; a call for what the named function returns.
    pub fn eval(&self, environment: &mut Environment) -> (r: EvalResult)
        requires
            old(environment).wf(),
        ensures
            final(environment).wf(),
            evolved(old(environment)@, final(environment)@),
            (final(environment)@, result_model(r)) == eval_value(self.model(), old(environment)@),
        decreases old(environment)@.budget, self.model(), 0nat,
    {
        proof {
            if let Value::List(elements) = self {
                assert(self.model() == ValueModel::List(models(elements@)));
            }
        }
        match self {
            Value::Symbol(symbol) => {
                if symbol.quote == Quote::Single {
                    return Ok(self.clone());
                }
                match environment.lookup(symbol) {
                    Some(value) => {
                        if symbol.quote == Quote::Unquoted {
                            Ok(value)
                        } else if environment.budget() == 0 {
                            Err(EvalError::StepLimitReached)
                        } else {
                            environment.spend();
                            value.eval(environment)
                        }
                    },
                    None => Err(EvalError::VariableIsVoid(symbol.name.clone())),
                }
            },
            Value::Funcall(symbol, args) => {
                let copied = clone_values(args);
                proof {
                    let m = self.model();
                    assert(m->Funcall_1 == models(copied@));
                    assert(decreases_to!(m => m->Funcall_1));
                }
                environment.call(symbol, copied)
            },
            Value::List(elements) => match eval_values(elements, environment) {
                Ok(values) => Ok(Value::List(values)),
                Err(x) => Err(x),
            },
            _ => Ok(self.clone()),
        }
    }
}

impl Environment {
    /// Calls the function registered under the symbol's name on the
    /// unevaluated `args`, in a new frame labelled with the name that is
    /// removed again on every path. An unknown name fails without a frame.
    pub fn call(&mut self, symbol: &Symbol, args: Vec<Value>) -> (r: EvalResult)
        requires
            old(self).wf(),
        ensures
            final(self).wf(),
            evolved(old(self)@, final(self)@),
            (final(self)@, result_model(r)) == call(symbol@, models(args@), old(self)@),
        decreases old(self)@.budget, models(args@), 3nat,
    {
        match self.function(&symbol.name) {
            None => Err(EvalError::FunctionDefinitionIsVoid(symbol.name.clone())),
            Some(function) => {
                self.push_to_stack(&symbol.name);
                let result = function.call(self, args);
                let _ = self.pop();
                result
            },
        }
    }
}

/// Parsing `s`, then evaluating what it parses to.
pub open spec fn eval_text(s: Seq<char>, e: EnvModel) -> Outcome {
    match parse_text(s) {
        Err(p) => (e, Err(ErrorModel::FailedToParse(p))),
        Ok(v) => eval_value(v, e),
    }
}

impl Environment {
    /// Parses `buffer` into one value and evaluates it.
    pub fn eval(&mut self, buffer: &String) -> (r: EvalResult)
        requires
            old(self).wf(),
        ensures
            final(self).wf(),
            evolved(old(self)@, final(self)@),
            (final(self)@, result_model(r)) == eval_text(buffer@, old(self)@),
    {
        match parse(buffer) {
            Ok(value) => value.eval(self),
            Err(x) => Err(EvalError::FailedToParse(x)),
        }
    }

    /// `eval` on a string slice.
    pub fn eval_str(&mut self, buffer: &str) -> (r: EvalResult)
        requires
            old(self).wf(),
        ensures
            final(self).wf(),
            evolved(old(self)@, final(self)@),
            (final(self)@, result_model(r)) == eval_text(buffer@, old(self)@),
    {
        self.eval(&buffer.to_owned())
    }

    /// An environment whose table holds the native operations.
    pub fn new_configured() -> (r: Environment)
        ensures
            r.wf(),
            r@ == (EnvModel {
                stack: seq![Environment::top_frame()],
                functions: with_builtins(Map::empty()),
                budget: u64::MAX as nat,
            }),
    {
        let mut environment = Environment::new();
        configure(&mut environment);
        environment
    }
}

impl Closure {
    /// Binds the symbol that `key` parses to.
    pub fn put_str(&mut self, key: &str, value: Value)
        requires
            old(self).wf(),
            parse_text(key@) matches Ok(ValueModel::Symbol(_)),
        ensures
            final(self).wf(),
            parse_text(key@) matches Ok(ValueModel::Symbol(s)) && final(self).model() == (FrameModel {
                caller: old(self).model().caller,
                scope: old(self).model().scope.insert(s.name, value.model()),
            }),
    {
        match parse(&key.to_owned()) {
            Ok(Value::Symbol(symbol)) => self.put(symbol, value),
            _ => {},
        }
    }
}

impl Function {
    /// Runs this function on the unevaluated `args` in the innermost frame,
    /// which its caller pushed for it.
    pub fn call(&self, environment: &mut Environment, args: Vec<Value>) -> (r: EvalResult)
        requires
            old(environment).wf(),
            old(environment)@.stack.len() >= 2,
        ensures
            final(environment).wf(),
            evolved(old(environment)@, final(environment)@),
            (final(environment)@, result_model(r)) == invoke(self.model(), models(args@), old(environment)@),
        decreases old(environment)@.budget, models(args@), 2nat,
    {
        match self {
            Function::Builtin(b) => match *b {
                Builtin::Progn => builtins::progn(environment, args),
                Builtin::If => builtins::if_(environment, args),
                Builtin::When => builtins::when(environment, args),
                Builtin::While => builtins::while_(environment, args),
                Builtin::SetVar => builtins::set(environment, args),
                Builtin::LetVar => builtins::let_(environment, args),
                Builtin::Equal => builtins::eq(environment, args),
                Builtin::NotEqual => builtins::neq(environment, args),
                Builtin::Plus => builtins::add(environment, args),
                Builtin::Minus => builtins::sub(environment, args),
                Builtin::Times => builtins::mul(environment, args),
                Builtin::Divide => builtins::div(environment, args),
                Builtin::Car => builtins::car(environment, args),
                Builtin::Cdr => builtins::cdr(environment, args),
                Builtin::Defun => builtins::defun(environment, args),
            },
            Function::Defun(d) => {
                let (body, takes) = d.parts();
                match bind_params(takes, args, environment) {
                    Err(x) => Err(x),
                    Ok(_) => {
                        if environment.budget() == 0 {
                            Err(EvalError::StepLimitReached)
                        } else {
                            environment.spend();
                            builtins::progn(environment, clone_values(body))
                        }
                    },
                }
            },
        }
    }
}

} // verus!
