//! The meaning of evaluation, stated over models: frames, the function table,
//! the evaluation budget, and one spec function per evaluation rule.
use vstd::prelude::*;

use crate::error::{ErrorModel, Mismatch};
use crate::value::{Quote, SymbolModel, ValueModel};

verus! {

/// The native operations that the function table can hold.
#[derive(Clone, Copy, Debug, PartialEq, Eq, Structural)]
pub enum Builtin {
    Progn,
    If,
    When,
    While,
    SetVar,
    LetVar,
    Equal,
    NotEqual,
    Plus,
    Minus,
    Times,
    Divide,
    Car,
    Cdr,
    Defun,
}

/// The model of one call's frame.
pub struct FrameModel {
    pub caller: Seq<char>,
    pub scope: Map<Seq<char>, ValueModel>,
}

/// The model of a function of the table.
pub enum FunctionModel {
    Builtin(Builtin),
    /// Body forms and parameter descriptors.
    Defun(Seq<ValueModel>, Seq<SymbolModel>),
}

/// The model of an environment: the frame stack (innermost last), the
/// function table keyed by name, and the evaluation budget.
pub struct EnvModel {
    pub stack: Seq<FrameModel>,
    pub functions: Map<Seq<char>, FunctionModel>,
    pub budget: nat,
}

/// What an evaluation leaves behind: the environment after it, and its result.
pub type Outcome = (EnvModel, Result<ValueModel, ErrorModel>);

impl EnvModel {
    /// One unit of budget used.
    pub open spec fn spend(self) -> EnvModel {
        EnvModel { budget: (self.budget - 1) as nat, ..self }
    }

    /// The label of the innermost frame.
    pub open spec fn caller(self) -> Seq<char> {
        self.stack.last().caller
    }

    pub open spec fn mismatch(self, m: Mismatch) -> Outcome {
        (self, Err(ErrorModel::ArgsMismatch(self.caller(), m)))
    }

    /// `name` bound to `v` in frame `i`.
    pub open spec fn put(self, i: int, name: Seq<char>, v: ValueModel) -> EnvModel {
        EnvModel {
            stack: self.stack.update(
                i,
                FrameModel { caller: self.stack[i].caller, scope: self.stack[i].scope.insert(name, v) },
            ),
            ..self
        }
    }

    /// `name` bound to `v` in the innermost frame.
    pub open spec fn put_current(self, name: Seq<char>, v: ValueModel) -> EnvModel {
        self.put(self.stack.len() - 1, name, v)
    }

    pub open spec fn push_frame(self, caller: Seq<char>) -> EnvModel {
        EnvModel { stack: self.stack.push(FrameModel { caller, scope: Map::empty() }), ..self }
    }

    pub open spec fn pop_frame(self) -> EnvModel {
        EnvModel { stack: self.stack.drop_last(), ..self }
    }

    pub open spec fn define(self, name: Seq<char>, f: FunctionModel) -> EnvModel {
        EnvModel { functions: self.functions.insert(name, f), ..self }
    }
}

/// The value bound to `name` in the innermost frame that binds it.
pub open spec fn lookup(stack: Seq<FrameModel>, name: Seq<char>) -> Option<ValueModel>
    decreases stack.len(),
{
    if stack.len() == 0 {
        None
    } else if stack.last().scope.contains_key(name) {
        Some(stack.last().scope[name])
    } else {
        lookup(stack.drop_last(), name)
    }
}

/// The index of the innermost frame that binds `name`.
pub open spec fn find_frame(stack: Seq<FrameModel>, name: Seq<char>) -> Option<int>
    decreases stack.len(),
{
    if stack.len() == 0 {
        None
    } else if stack.last().scope.contains_key(name) {
        Some(stack.len() - 1)
    } else {
        find_frame(stack.drop_last(), name)
    }
}

/// The frame found is one of the stack's, and binds the name.
pub proof fn lemma_find_frame_in_range(stack: Seq<FrameModel>, name: Seq<char>)
    ensures
        find_frame(stack, name) matches Some(i) ==> 0 <= i < stack.len() && stack[i].scope.contains_key(name),
    decreases stack.len(),
{
    if stack.len() > 0 && !stack.last().scope.contains_key(name) {
        lemma_find_frame_in_range(stack.drop_last(), name);
    }
}

/// Nil, the empty list and the empty string are false; all else is true.
pub open spec fn is_nil(v: ValueModel) -> bool {
    match v {
        ValueModel::Nil => true,
        ValueModel::List(s) => s.len() == 0,
        ValueModel::Str(s) => s.len() == 0,
        _ => false,
    }
}

/// Integer division rounding toward zero.
pub open spec fn trunc_div(x: int, y: int) -> int {
    let q = (if x < 0 { -x } else { x }) / (if y < 0 { -y } else { y });
    if (x < 0) == (y < 0) { q } else { -q }
}

pub open spec fn fits_i32(x: int) -> bool {
    i32::MIN <= x <= i32::MAX
}

/// One step of an integer reduction.
pub open spec fn arith(op: Builtin, x: i32, y: i32) -> Result<i32, Mismatch> {
    let r = match op {
        Builtin::Plus => x + y,
        Builtin::Minus => x - y,
        Builtin::Times => x * y,
        _ => if y == 0 { 0 } else { trunc_div(x as int, y as int) },
    };
    if op == Builtin::Divide && y == 0 {
        Err(Mismatch::DivisionByZero)
    } else if fits_i32(r) {
        Ok(r as i32)
    } else {
        Err(Mismatch::Overflow)
    }
}

/// The parameter descriptors of a definition: each must be a symbol, and only
/// the last may be a rest parameter. `after_rest` says that a rest parameter
/// came before `ps`.
pub open spec fn params_of(ps: Seq<ValueModel>, after_rest: bool) -> Result<Seq<SymbolModel>, Mismatch>
    decreases ps.len(),
{
    if ps.len() == 0 {
        Ok(Seq::empty())
    } else {
        match ps[0] {
            ValueModel::Symbol(s) => if after_rest {
                Err(Mismatch::RestNotLast)
            } else {
                match params_of(ps.drop_first(), s.rest) {
                    Ok(rest) => Ok(seq![s] + rest),
                    Err(m) => Err(m),
                }
            },
            _ => Err(Mismatch::ParamNotSymbol),
        }
    }
}

/// Evaluation of one value.
pub open spec fn eval_value(v: ValueModel, e: EnvModel) -> Outcome
    decreases e.budget, v, 0nat,
{
    match v {
        ValueModel::Symbol(s) => match s.quote {
            Quote::Single => (e, Ok(v)),
            Quote::Unquoted => match lookup(e.stack, s.name) {
                Some(x) => (e, Ok(x)),
                None => (e, Err(ErrorModel::VariableIsVoid(s.name))),
            },
            Quote::Eval => match lookup(e.stack, s.name) {
                Some(x) => if e.budget == 0 {
                    (e, Err(ErrorModel::StepLimitReached))
                } else {
                    eval_value(x, e.spend())
                },
                None => (e, Err(ErrorModel::VariableIsVoid(s.name))),
            },
        },
        ValueModel::Funcall(s, args) => call(s, args, e),
        ValueModel::List(vs) => {
            let (e1, r) = eval_list(vs, e);
            match r {
                Ok(ws) => (e1, Ok(ValueModel::List(ws))),
                Err(x) => (e1, Err(x)),
            }
        },
        _ => (e, Ok(v)),
    }
}

/// Evaluation of each of `vs`, left to right, stopping at the first error.
pub open spec fn eval_list(vs: Seq<ValueModel>, e: EnvModel) -> (EnvModel, Result<Seq<ValueModel>, ErrorModel>)
    decreases e.budget, vs, 0nat,
{
    if vs.len() == 0 {
        (e, Ok(Seq::empty()))
    } else {
        let (e1, r) = eval_value(vs[0], e);
        match r {
            Err(x) => (e1, Err(x)),
            Ok(w) => if e1.budget > e.budget {
                (e1, Err(ErrorModel::StepLimitReached))
            } else {
                let (e2, rs) = eval_list(vs.drop_first(), e1);
                match rs {
                    Ok(ws) => (e2, Ok(seq![w] + ws)),
                    Err(x) => (e2, Err(x)),
                }
            },
        }
    }
}

/// A call of the function named by `s`: in a new frame labelled with the
/// name, which is gone again afterwards.
pub open spec fn call(s: SymbolModel, args: Seq<ValueModel>, e: EnvModel) -> Outcome
    decreases e.budget, args, 3nat,
{
    if !e.functions.contains_key(s.name) {
        (e, Err(ErrorModel::FunctionDefinitionIsVoid(s.name)))
    } else {
        let (e1, r) = invoke(e.functions[s.name], args, e.push_frame(s.name));
        (e1.pop_frame(), r)
    }
}

/// What a function does with its unevaluated arguments, in its own frame.
pub open spec fn invoke(f: FunctionModel, args: Seq<ValueModel>, e: EnvModel) -> Outcome
    decreases e.budget, args, 2nat,
{
    match f {
        FunctionModel::Builtin(b) => match b {
            Builtin::Progn => progn(args, e),
            Builtin::If => if_form(args, e),
            Builtin::When => when_form(args, e),
            Builtin::While => if args.len() < 2 {
                e.mismatch(Mismatch::NoLoopBody)
            } else {
                while_loop(args, e)
            },
            Builtin::SetVar => set_form(args, e),
            Builtin::LetVar => let_form(args, e),
            Builtin::Equal => equal_chain(args, e),
            Builtin::NotEqual => {
                let (e1, r) = equal_chain(args, e);
                match r {
                    Ok(ValueModel::T) => (e1, Ok(ValueModel::Nil)),
                    Ok(_) => (e1, Ok(ValueModel::T)),
                    Err(x) => (e1, Err(x)),
                }
            },
            Builtin::Plus => if args.len() == 0 {
                e.mismatch(Mismatch::NoArgs)
            } else {
                fold_int(Builtin::Plus, 0, args, e)
            },
            Builtin::Times => if args.len() == 0 {
                e.mismatch(Mismatch::NoArgs)
            } else {
                fold_int(Builtin::Times, 1, args, e)
            },
            Builtin::Minus => if args.len() == 1 {
                negate(args, e)
            } else {
                first_then_fold(Builtin::Minus, args, e)
            },
            Builtin::Divide => first_then_fold(Builtin::Divide, args, e),
            Builtin::Car => car_form(args, e),
            Builtin::Cdr => cdr_form(args, e),
            Builtin::Defun => defun_form(args, e),
        },
        FunctionModel::Defun(body, takes) => {
            let (e1, r) = bind(takes, args, e);
            match r {
                Err(x) => (e1, Err(x)),
                Ok(_) => if e1.budget == 0 || e1.budget > e.budget {
                    (e1, Err(ErrorModel::StepLimitReached))
                } else {
                    progn(body, e1.spend())
                },
            }
        },
    }
}

/// Each of `args` in order; the last one's value, or Nil for none.
pub open spec fn progn(args: Seq<ValueModel>, e: EnvModel) -> Outcome
    decreases e.budget, args, 1nat,
{
    if args.len() == 0 {
        (e, Ok(ValueModel::Nil))
    } else if args.len() == 1 {
        eval_value(args[0], e)
    } else {
        let (e1, r) = eval_value(args[0], e);
        match r {
            Err(x) => (e1, Err(x)),
            Ok(_) => if e1.budget > e.budget {
                (e1, Err(ErrorModel::StepLimitReached))
            } else {
                progn(args.drop_first(), e1)
            },
        }
    }
}

/// `(if c then else...)`: `then` where `c` is true, else `progn` of the rest.
pub open spec fn if_form(args: Seq<ValueModel>, e: EnvModel) -> Outcome
    decreases e.budget, args, 1nat,
{
    if args.len() == 0 {
        e.mismatch(Mismatch::NoCondition)
    } else {
        let (e1, r) = eval_value(args[0], e);
        match r {
            Err(x) => (e1, Err(x)),
            Ok(c) => if args.len() < 2 {
                e1.mismatch(Mismatch::NoThenBranch)
            } else if e1.budget > e.budget {
                (e1, Err(ErrorModel::StepLimitReached))
            } else if !is_nil(c) {
                eval_value(args[1], e1)
            } else {
                progn(args.subrange(2, args.len() as int), e1)
            },
        }
    }
}

/// `(when c body...)`: `progn` of the body where `c` is true, else Nil.
pub open spec fn when_form(args: Seq<ValueModel>, e: EnvModel) -> Outcome
    decreases e.budget, args, 1nat,
{
    if args.len() == 0 {
        e.mismatch(Mismatch::NoCondition)
    } else {
        let (e1, r) = eval_value(args[0], e);
        match r {
            Err(x) => (e1, Err(x)),
            Ok(c) => if e1.budget > e.budget {
                (e1, Err(ErrorModel::StepLimitReached))
            } else if !is_nil(c) {
                progn(args.drop_first(), e1)
            } else {
                (e1, Ok(ValueModel::Nil))
            },
        }
    }
}

/// `(while c body...)`: each round costs one unit of budget, evaluates `c`,
/// and stops with Nil where it is false; else evaluates the body forms in order.
pub open spec fn while_loop(args: Seq<ValueModel>, e: EnvModel) -> Outcome
    decreases e.budget, args, 0nat,
{
    if e.budget == 0 {
        (e, Err(ErrorModel::StepLimitReached))
    } else {
        let e0 = e.spend();
        let (e1, r) = eval_value(args[0], e0);
        match r {
            Err(x) => (e1, Err(x)),
            Ok(c) => if is_nil(c) {
                (e1, Ok(ValueModel::Nil))
            } else if e1.budget > e0.budget {
                (e1, Err(ErrorModel::StepLimitReached))
            } else {
                let (e2, r2) = progn(args.drop_first(), e1);
                match r2 {
                    Err(x) => (e2, Err(x)),
                    Ok(_) => if e2.budget > e1.budget {
                        (e2, Err(ErrorModel::StepLimitReached))
                    } else {
                        while_loop(args, e2)
                    },
                }
            },
        }
    }
}

/// The symbol and the value of a binding form `(op sym value)`, both evaluated.
pub open spec fn binding(args: Seq<ValueModel>, e: EnvModel) -> (EnvModel, Result<(SymbolModel, ValueModel), ErrorModel>)
    decreases e.budget, args, 0nat,
{
    if args.len() != 2 {
        (e, Err(ErrorModel::ArgsMismatch(e.caller(), Mismatch::NotABinding)))
    } else {
        let (e1, r) = eval_value(args[0], e);
        match r {
            Err(x) => (e1, Err(x)),
            Ok(ValueModel::Symbol(s)) => if e1.budget > e.budget {
                (e1, Err(ErrorModel::StepLimitReached))
            } else {
                let (e2, r2) = eval_value(args[1], e1);
                match r2 {
                    Ok(w) => (e2, Ok((s, w))),
                    Err(x) => (e2, Err(x)),
                }
            },
            Ok(_) => (e1, Err(ErrorModel::ArgsMismatch(e1.caller(), Mismatch::NotASymbol))),
        }
    }
}

/// `(set sym value)`: rebinds in the innermost frame that binds the name, or
/// else binds in frame 0.
pub open spec fn set_form(args: Seq<ValueModel>, e: EnvModel) -> Outcome
    decreases e.budget, args, 1nat,
{
    let (e1, r) = binding(args, e);
    match r {
        Err(x) => (e1, Err(x)),
        Ok((s, w)) => match find_frame(e1.stack, s.name) {
            Some(i) => (e1.put(i, s.name, w), Ok(w)),
            None => (e1.put(0, s.name, w), Ok(w)),
        },
    }
}

/// `(let sym value)`: binds in the frame below the innermost one, which is the
/// frame of the form that called `let`.
pub open spec fn let_form(args: Seq<ValueModel>, e: EnvModel) -> Outcome
    decreases e.budget, args, 1nat,
{
    let (e1, r) = binding(args, e);
    match r {
        Err(x) => (e1, Err(x)),
        Ok((s, w)) => (e1.put(e1.stack.len() - 2, s.name, w), Ok(w)),
    }
}

/// `(= a b...)`: folds left from `a`, each step giving T where the running
/// value equals the next argument and Nil where it does not.
pub open spec fn equal_chain(args: Seq<ValueModel>, e: EnvModel) -> Outcome
    decreases e.budget, args, 1nat,
{
    if args.len() == 0 {
        e.mismatch(Mismatch::NoCar)
    } else {
        let (e1, r) = eval_value(args[0], e);
        match r {
            Err(x) => (e1, Err(x)),
            Ok(w) => if e1.budget > e.budget {
                (e1, Err(ErrorModel::StepLimitReached))
            } else {
                fold_equal(w, args.drop_first(), e1)
            },
        }
    }
}

pub open spec fn fold_equal(acc: ValueModel, rest: Seq<ValueModel>, e: EnvModel) -> Outcome
    decreases e.budget, rest, 0nat,
{
    if rest.len() == 0 {
        (e, Ok(acc))
    } else {
        let (e1, r) = eval_value(rest[0], e);
        match r {
            Err(x) => (e1, Err(x)),
            Ok(w) => if e1.budget > e.budget {
                (e1, Err(ErrorModel::StepLimitReached))
            } else {
                fold_equal(
                    if acc == w { ValueModel::T } else { ValueModel::Nil },
                    rest.drop_first(),
                    e1,
                )
            },
        }
    }
}

/// Folds `op` over the integer values of `rest`, starting from `acc`.
pub open spec fn fold_int(op: Builtin, acc: i32, rest: Seq<ValueModel>, e: EnvModel) -> Outcome
    decreases e.budget, rest, 0nat,
{
    if rest.len() == 0 {
        (e, Ok(ValueModel::Integer(acc)))
    } else {
        let (e1, r) = eval_value(rest[0], e);
        match r {
            Err(x) => (e1, Err(x)),
            Ok(ValueModel::Integer(y)) => match arith(op, acc, y) {
                Err(m) => e1.mismatch(m),
                Ok(z) => if e1.budget > e.budget {
                    (e1, Err(ErrorModel::StepLimitReached))
                } else {
                    fold_int(op, z, rest.drop_first(), e1)
                },
            },
            Ok(_) => e1.mismatch(Mismatch::NotAnInteger),
        }
    }
}

/// Folds `op` over the integer values of `args`, starting from the first.
pub open spec fn first_then_fold(op: Builtin, args: Seq<ValueModel>, e: EnvModel) -> Outcome
    decreases e.budget, args, 1nat,
{
    if args.len() == 0 {
        e.mismatch(Mismatch::NoCar)
    } else {
        let (e1, r) = eval_value(args[0], e);
        match r {
            Err(x) => (e1, Err(x)),
            Ok(ValueModel::Integer(x)) => if e1.budget > e.budget {
                (e1, Err(ErrorModel::StepLimitReached))
            } else {
                fold_int(op, x, args.drop_first(), e1)
            },
            Ok(_) => e1.mismatch(Mismatch::BadStartingValue),
        }
    }
}

/// `(- x)`: the negated value of `x`.
pub open spec fn negate(args: Seq<ValueModel>, e: EnvModel) -> Outcome
    decreases e.budget, args, 1nat,
{
    if args.len() != 1 {
        e.mismatch(Mismatch::NoArgs)
    } else {
        let (e1, r) = eval_value(args[0], e);
        match r {
            Err(x) => (e1, Err(x)),
            Ok(ValueModel::Integer(x)) => if x == i32::MIN {
                e1.mismatch(Mismatch::Overflow)
            } else {
                (e1, Ok(ValueModel::Integer((-x) as i32)))
            },
            Ok(_) => e1.mismatch(Mismatch::NotAnInteger),
        }
    }
}

/// The elements of the one list argument, evaluated.
pub open spec fn list_arg(args: Seq<ValueModel>, e: EnvModel) -> (EnvModel, Result<Seq<ValueModel>, ErrorModel>)
    decreases e.budget, args, 0nat,
{
    if args.len() != 1 {
        (e, Err(ErrorModel::ArgsMismatch(e.caller(), Mismatch::NotOneList)))
    } else {
        let (e1, r) = eval_value(args[0], e);
        match r {
            Err(x) => (e1, Err(x)),
            Ok(ValueModel::List(xs)) => (e1, Ok(xs)),
            Ok(_) => (e1, Err(ErrorModel::ArgsMismatch(e1.caller(), Mismatch::NotAList))),
        }
    }
}

/// `(car list)`: the first element (Nil for none), evaluated once more at the
/// cost of one unit of budget.
pub open spec fn car_form(args: Seq<ValueModel>, e: EnvModel) -> Outcome
    decreases e.budget, args, 1nat,
{
    let (e1, r) = list_arg(args, e);
    match r {
        Err(x) => (e1, Err(x)),
        Ok(xs) => if e1.budget == 0 || e1.budget > e.budget {
            (e1, Err(ErrorModel::StepLimitReached))
        } else {
            eval_value(if xs.len() > 0 { xs[0] } else { ValueModel::Nil }, e1.spend())
        },
    }
}

/// `(cdr list)`: the list without its first element, evaluated once more at
/// the cost of one unit of budget.
pub open spec fn cdr_form(args: Seq<ValueModel>, e: EnvModel) -> Outcome
    decreases e.budget, args, 1nat,
{
    let (e1, r) = list_arg(args, e);
    match r {
        Err(x) => (e1, Err(x)),
        Ok(xs) => if e1.budget == 0 || e1.budget > e.budget {
            (e1, Err(ErrorModel::StepLimitReached))
        } else {
            eval_value(
                ValueModel::List(if xs.len() > 0 { xs.drop_first() } else { xs }),
                e1.spend(),
            )
        },
    }
}

/// `(defun name [params...] body...)`: registers a user function with the
/// body forms as written.
pub open spec fn defun_form(args: Seq<ValueModel>, e: EnvModel) -> Outcome {
    if args.len() < 2 {
        e.mismatch(Mismatch::DefunArity)
    } else {
        match args[0] {
            ValueModel::Symbol(name) => match args[1] {
                ValueModel::List(ps) => match params_of(ps, false) {
                    Ok(takes) => (
                        e.define(
                            name.name,
                            FunctionModel::Defun(args.subrange(2, args.len() as int), takes),
                        ),
                        Ok(ValueModel::Nil),
                    ),
                    Err(m) => e.mismatch(m),
                },
                _ => e.mismatch(Mismatch::ParamsNotList),
            },
            _ => e.mismatch(Mismatch::NameNotSymbol),
        }
    }
}

/// Binding of a user function's parameters to the actual arguments, in the
/// innermost frame. A parameter is bound to its argument, evaluated unless
/// Single-quoted; a rest parameter takes the list of all remaining arguments,
/// evaluated unless Single-quoted, and ends the binding.
pub open spec fn bind(takes: Seq<SymbolModel>, args: Seq<ValueModel>, e: EnvModel) -> Outcome
    decreases e.budget, args, 1nat,
{
    if takes.len() == 0 {
        (e, Ok(ValueModel::Nil))
    } else {
        let p = takes[0];
        if p.rest {
            if p.quote == Quote::Single {
                (e.put_current(p.name, ValueModel::List(args)), Ok(ValueModel::Nil))
            } else {
                let (e1, r) = eval_list(args, e);
                match r {
                    Ok(ws) => (e1.put_current(p.name, ValueModel::List(ws)), Ok(ValueModel::Nil)),
                    Err(x) => (e1, Err(x)),
                }
            }
        } else if args.len() == 0 {
            e.mismatch(Mismatch::NotEnoughArgs)
        } else {
            let (e1, r) = if p.quote == Quote::Single {
                (e, Ok(args[0]))
            } else {
                eval_value(args[0], e)
            };
            match r {
                Err(x) => (e1, Err(x)),
                Ok(w) => if e1.budget > e.budget {
                    (e1, Err(ErrorModel::StepLimitReached))
                } else {
                    bind(takes.drop_first(), args.drop_first(), e1.put_current(p.name, w))
                },
            }
        }
    }
}

} // verus!
