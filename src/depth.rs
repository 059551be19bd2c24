//! Every evaluation rule leaves as many frames as it found: a call's frame is
//! gone again when the call is over.
use vstd::prelude::*;

use crate::semantics::{
    arith, bind, binding, call, car_form, cdr_form, equal_chain, eval_list, eval_value, first_then_fold,
    fold_equal, fold_int, if_form, invoke, lemma_find_frame_in_range, let_form, list_arg, lookup,
    negate, progn, set_form, when_form, while_loop, Builtin, EnvModel, FunctionModel,
};
use crate::value::{Quote, SymbolModel, ValueModel};

verus! {

/// `after` has as many frames as `e`.
pub open spec fn keeps_depth(e: EnvModel, after: EnvModel) -> bool {
    after.stack.len() == e.stack.len()
}

/// Evaluating a value leaves as many frames as it found.
pub proof fn lemma_eval_depth(v: ValueModel, e: EnvModel)
    requires
        e.stack.len() >= 1,
    ensures
        keeps_depth(e, eval_value(v, e).0),
    decreases e.budget, v, 0nat,
{
    match v {
        ValueModel::Symbol(s) => {
            if s.quote == Quote::Eval && lookup(e.stack, s.name) is Some && e.budget > 0 {
                lemma_eval_depth(lookup(e.stack, s.name)->Some_0, e.spend());
            }
        },
        ValueModel::Funcall(s, args) => lemma_call_depth(s, args, e),
        ValueModel::List(vs) => lemma_list_depth(vs, e),
        _ => {},
    }
}

pub proof fn lemma_list_depth(vs: Seq<ValueModel>, e: EnvModel)
    requires
        e.stack.len() >= 1,
    ensures
        keeps_depth(e, eval_list(vs, e).0),
    decreases e.budget, vs, 0nat,
{
    if vs.len() > 0 {
        lemma_eval_depth(vs[0], e);
        let (e1, r) = eval_value(vs[0], e);
        if r is Ok && e1.budget <= e.budget {
            lemma_list_depth(vs.drop_first(), e1);
        }
    }
}

/// A call pushes one frame and pops it again.
pub proof fn lemma_call_depth(s: SymbolModel, args: Seq<ValueModel>, e: EnvModel)
    requires
        e.stack.len() >= 1,
    ensures
        keeps_depth(e, call(s, args, e).0),
    decreases e.budget, args, 3nat,
{
    if e.functions.contains_key(s.name) {
        lemma_invoke_depth(e.functions[s.name], args, e.push_frame(s.name));
    }
}

pub proof fn lemma_invoke_depth(f: FunctionModel, args: Seq<ValueModel>, e: EnvModel)
    requires
        e.stack.len() >= 2,
    ensures
        keeps_depth(e, invoke(f, args, e).0),
    decreases e.budget, args, 2nat,
{
    match f {
        FunctionModel::Builtin(b) => match b {
            Builtin::Progn => lemma_progn_depth(args, e),
            Builtin::If => lemma_if_depth(args, e),
            Builtin::When => lemma_when_depth(args, e),
            Builtin::While => if args.len() >= 2 {
                lemma_while_depth(args, e);
            },
            Builtin::SetVar => lemma_set_depth(args, e),
            Builtin::LetVar => lemma_let_depth(args, e),
            Builtin::Equal => lemma_equal_depth(args, e),
            Builtin::NotEqual => lemma_equal_depth(args, e),
            Builtin::Plus => if args.len() > 0 {
                lemma_fold_int_depth(Builtin::Plus, 0, args, e);
            },
            Builtin::Times => if args.len() > 0 {
                lemma_fold_int_depth(Builtin::Times, 1, args, e);
            },
            Builtin::Minus => if args.len() == 1 {
                lemma_negate_depth(args, e);
            } else {
                lemma_first_fold_depth(Builtin::Minus, args, e);
            },
            Builtin::Divide => lemma_first_fold_depth(Builtin::Divide, args, e),
            Builtin::Car => lemma_car_depth(args, e),
            Builtin::Cdr => lemma_cdr_depth(args, e),
            Builtin::Defun => {},
        },
        FunctionModel::Defun(body, takes) => {
            lemma_bind_depth(takes, args, e);
            let (e1, r) = bind(takes, args, e);
            if r is Ok && e1.budget > 0 && e1.budget <= e.budget {
                lemma_progn_depth(body, e1.spend());
            }
        },
    }
}

pub proof fn lemma_progn_depth(args: Seq<ValueModel>, e: EnvModel)
    requires
        e.stack.len() >= 1,
    ensures
        keeps_depth(e, progn(args, e).0),
    decreases e.budget, args, 1nat,
{
    if args.len() > 0 {
        lemma_eval_depth(args[0], e);
        let (e1, r) = eval_value(args[0], e);
        if args.len() > 1 && r is Ok && e1.budget <= e.budget {
            lemma_progn_depth(args.drop_first(), e1);
        }
    }
}

pub proof fn lemma_if_depth(args: Seq<ValueModel>, e: EnvModel)
    requires
        e.stack.len() >= 1,
    ensures
        keeps_depth(e, if_form(args, e).0),
    decreases e.budget, args, 1nat,
{
    if args.len() > 0 {
        lemma_eval_depth(args[0], e);
        let (e1, r) = eval_value(args[0], e);
        if args.len() >= 2 && r is Ok && e1.budget <= e.budget {
            lemma_eval_depth(args[1], e1);
            lemma_progn_depth(args.subrange(2, args.len() as int), e1);
        }
    }
}

pub proof fn lemma_when_depth(args: Seq<ValueModel>, e: EnvModel)
    requires
        e.stack.len() >= 1,
    ensures
        keeps_depth(e, when_form(args, e).0),
    decreases e.budget, args, 1nat,
{
    if args.len() > 0 {
        lemma_eval_depth(args[0], e);
        let (e1, r) = eval_value(args[0], e);
        if r is Ok && e1.budget <= e.budget {
            lemma_progn_depth(args.drop_first(), e1);
        }
    }
}

pub proof fn lemma_while_depth(args: Seq<ValueModel>, e: EnvModel)
    requires
        e.stack.len() >= 1,
    ensures
        keeps_depth(e, while_loop(args, e).0),
    decreases e.budget, args, 0nat,
{
    if e.budget > 0 {
        let e0 = e.spend();
        lemma_eval_depth(args[0], e0);
        let (e1, r) = eval_value(args[0], e0);
        if r is Ok && e1.budget <= e0.budget {
            lemma_progn_depth(args.drop_first(), e1);
            let (e2, r2) = progn(args.drop_first(), e1);
            if r2 is Ok && e2.budget <= e1.budget {
                lemma_while_depth(args, e2);
            }
        }
    }
}

pub proof fn lemma_binding_depth(args: Seq<ValueModel>, e: EnvModel)
    requires
        e.stack.len() >= 1,
    ensures
        keeps_depth(e, binding(args, e).0),
    decreases e.budget, args, 0nat,
{
    if args.len() == 2 {
        lemma_eval_depth(args[0], e);
        let (e1, r) = eval_value(args[0], e);
        if e1.budget <= e.budget {
            lemma_eval_depth(args[1], e1);
        }
    }
}

pub proof fn lemma_set_depth(args: Seq<ValueModel>, e: EnvModel)
    requires
        e.stack.len() >= 1,
    ensures
        keeps_depth(e, set_form(args, e).0),
    decreases e.budget, args, 1nat,
{
    lemma_binding_depth(args, e);
    let (e1, r) = binding(args, e);
    if let Ok((s, w)) = r {
        lemma_find_frame_in_range(e1.stack, s.name);
    }
}

pub proof fn lemma_let_depth(args: Seq<ValueModel>, e: EnvModel)
    requires
        e.stack.len() >= 2,
    ensures
        keeps_depth(e, let_form(args, e).0),
    decreases e.budget, args, 1nat,
{
    lemma_binding_depth(args, e);
}

pub proof fn lemma_equal_depth(args: Seq<ValueModel>, e: EnvModel)
    requires
        e.stack.len() >= 1,
    ensures
        keeps_depth(e, equal_chain(args, e).0),
    decreases e.budget, args, 1nat,
{
    if args.len() > 0 {
        lemma_eval_depth(args[0], e);
        let (e1, r) = eval_value(args[0], e);
        if r is Ok && e1.budget <= e.budget {
            lemma_fold_equal_depth(r->Ok_0, args.drop_first(), e1);
        }
    }
}

pub proof fn lemma_fold_equal_depth(acc: ValueModel, rest: Seq<ValueModel>, e: EnvModel)
    requires
        e.stack.len() >= 1,
    ensures
        keeps_depth(e, fold_equal(acc, rest, e).0),
    decreases e.budget, rest, 0nat,
{
    if rest.len() > 0 {
        lemma_eval_depth(rest[0], e);
        let (e1, r) = eval_value(rest[0], e);
        if r is Ok && e1.budget <= e.budget {
            let w = r->Ok_0;
            lemma_fold_equal_depth(
                if acc == w { ValueModel::T } else { ValueModel::Nil },
                rest.drop_first(),
                e1,
            );
        }
    }
}

pub proof fn lemma_fold_int_depth(op: Builtin, acc: i32, rest: Seq<ValueModel>, e: EnvModel)
    requires
        e.stack.len() >= 1,
    ensures
        keeps_depth(e, fold_int(op, acc, rest, e).0),
    decreases e.budget, rest, 0nat,
{
    if rest.len() > 0 {
        lemma_eval_depth(rest[0], e);
        let (e1, r) = eval_value(rest[0], e);
        if let Ok(ValueModel::Integer(y)) = r {
            if let Ok(z) = arith(op, acc, y) {
                if e1.budget <= e.budget {
                    lemma_fold_int_depth(op, z, rest.drop_first(), e1);
                }
            }
        }
    }
}

pub proof fn lemma_first_fold_depth(op: Builtin, args: Seq<ValueModel>, e: EnvModel)
    requires
        e.stack.len() >= 1,
    ensures
        keeps_depth(e, first_then_fold(op, args, e).0),
    decreases e.budget, args, 1nat,
{
    if args.len() > 0 {
        lemma_eval_depth(args[0], e);
        let (e1, r) = eval_value(args[0], e);
        if let Ok(ValueModel::Integer(x)) = r {
            if e1.budget <= e.budget {
                lemma_fold_int_depth(op, x, args.drop_first(), e1);
            }
        }
    }
}

pub proof fn lemma_negate_depth(args: Seq<ValueModel>, e: EnvModel)
    requires
        e.stack.len() >= 1,
    ensures
        keeps_depth(e, negate(args, e).0),
    decreases e.budget, args, 1nat,
{
    if args.len() == 1 {
        lemma_eval_depth(args[0], e);
    }
}

pub proof fn lemma_list_arg_depth(args: Seq<ValueModel>, e: EnvModel)
    requires
        e.stack.len() >= 1,
    ensures
        keeps_depth(e, list_arg(args, e).0),
    decreases e.budget, args, 0nat,
{
    if args.len() == 1 {
        lemma_eval_depth(args[0], e);
    }
}

pub proof fn lemma_car_depth(args: Seq<ValueModel>, e: EnvModel)
    requires
        e.stack.len() >= 1,
    ensures
        keeps_depth(e, car_form(args, e).0),
    decreases e.budget, args, 1nat,
{
    lemma_list_arg_depth(args, e);
    let (e1, r) = list_arg(args, e);
    if let Ok(xs) = r {
        if e1.budget > 0 && e1.budget <= e.budget {
            lemma_eval_depth(if xs.len() > 0 { xs[0] } else { ValueModel::Nil }, e1.spend());
        }
    }
}

pub proof fn lemma_cdr_depth(args: Seq<ValueModel>, e: EnvModel)
    requires
        e.stack.len() >= 1,
    ensures
        keeps_depth(e, cdr_form(args, e).0),
    decreases e.budget, args, 1nat,
{
    lemma_list_arg_depth(args, e);
    let (e1, r) = list_arg(args, e);
    if let Ok(xs) = r {
        if e1.budget > 0 && e1.budget <= e.budget {
            lemma_eval_depth(
                ValueModel::List(if xs.len() > 0 { xs.drop_first() } else { xs }),
                e1.spend(),
            );
        }
    }
}

pub proof fn lemma_bind_depth(takes: Seq<SymbolModel>, args: Seq<ValueModel>, e: EnvModel)
    requires
        e.stack.len() >= 1,
    ensures
        keeps_depth(e, bind(takes, args, e).0),
    decreases e.budget, args, 1nat,
{
    if takes.len() > 0 {
        let p = takes[0];
        if p.rest {
            if p.quote != Quote::Single {
                lemma_list_depth(args, e);
            }
        } else if args.len() > 0 {
            if p.quote != Quote::Single {
                lemma_eval_depth(args[0], e);
            }
            let (e1, r) = if p.quote == Quote::Single {
                (e, Ok::<ValueModel, crate::error::ErrorModel>(args[0]))
            } else {
                eval_value(args[0], e)
            };
            if r is Ok && e1.budget <= e.budget {
                lemma_bind_depth(takes.drop_first(), args.drop_first(), e1.put_current(p.name, r->Ok_0));
            }
        }
    }
}

} // verus!
