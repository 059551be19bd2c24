//! Properties that relate several operations of the library, stated over the
//! models and proved from the definitions that the operations' contracts use.
use vstd::prelude::*;

use crate::error::{ErrorModel, Mismatch, ParseFault};
use crate::parser::{digit_value, digits_value, is_digit, is_integer_text, parse_text, sign_len};
use crate::semantics::{
    bind, binding, call, eval_list, eval_value, find_frame, fits_i32, invoke, let_form, lookup,
    params_of, set_form, Builtin, EnvModel, FunctionModel,
};
use crate::value::{Quote, SymbolModel, ValueModel};

verus! {

pub open spec fn digit_char(d: nat) -> char {
    if d == 0 {
        '0'
    } else if d == 1 {
        '1'
    } else if d == 2 {
        '2'
    } else if d == 3 {
        '3'
    } else if d == 4 {
        '4'
    } else if d == 5 {
        '5'
    } else if d == 6 {
        '6'
    } else if d == 7 {
        '7'
    } else if d == 8 {
        '8'
    } else {
        '9'
    }
}

/// The decimal digits of `m`, without leading zeros.
pub open spec fn decimal_nat(m: nat) -> Seq<char>
    decreases m,
{
    if m < 10 {
        seq![digit_char(m)]
    } else {
        decimal_nat(m / 10).push(digit_char(m % 10))
    }
}

/// The canonical text of an integer: a minus sign where it is negative, then
/// its decimal digits.
pub open spec fn decimal(n: int) -> Seq<char> {
    if n < 0 {
        seq!['-'] + decimal_nat((-n) as nat)
    } else {
        decimal_nat(n as nat)
    }
}

proof fn lemma_decimal_nat(m: nat)
    ensures
        decimal_nat(m).len() >= 1,
        forall|i: int| 0 <= i < decimal_nat(m).len() ==> is_digit(#[trigger] decimal_nat(m)[i]),
        digits_value(decimal_nat(m)) == m,
    decreases m,
{
    if m >= 10 {
        lemma_decimal_nat(m / 10);
        let s = decimal_nat(m);
        assert(s.drop_last() =~= decimal_nat(m / 10));
        assert(digit_value(digit_char(m % 10)) == m % 10);
        assert(s.last() == digit_char(m % 10));
        assert(m == (m / 10) * 10 + m % 10);
        assert(digits_value(s) == digits_value(decimal_nat(m / 10)) * 10 + digit_value(s.last()));
        assert(forall|i: int| 0 <= i < s.len() - 1 ==> s[i] == decimal_nat(m / 10)[i]);
    } else {
        let s = decimal_nat(m);
        assert(s.drop_last() =~= Seq::<char>::empty());
        assert(digits_value(Seq::<char>::empty()) == 0);
        assert(digit_value(digit_char(m)) == m);
        assert(digits_value(s) == digits_value(s.drop_last()) * 10 + digit_value(s.last()));
    }
}

/// Every integer literal, an optional sign and one or more digits, parses to
/// its value where that value fits in 32 signed bits, and to the overflow
/// error where it does not: it never wraps.
pub proof fn law_integer_literal(sign: Seq<char>, digits: Seq<char>)
    requires
        sign == Seq::<char>::empty() || sign == seq!['+'] || sign == seq!['-'],
        digits.len() >= 1,
        forall|i: int| 0 <= i < digits.len() ==> is_digit(#[trigger] digits[i]),
    ensures
        ({
            let v = if sign == seq!['-'] { -(digits_value(digits) as int) } else { digits_value(digits) as int };
            parse_text(sign + digits) == if fits_i32(v) {
                Ok::<ValueModel, ParseFault>(ValueModel::Integer(v as i32))
            } else {
                Err::<ValueModel, ParseFault>(ParseFault::IntegerOverflow)
            }
        }),
{
    let s = sign + digits;
    assert(is_digit(digits[0]));
    assert(sign_len(s) == sign.len());
    assert(s.subrange(sign_len(s), s.len() as int) =~= digits);
    assert forall|i: int| sign_len(s) <= i < s.len() implies is_digit(#[trigger] s[i]) by {
        assert(s[i] == digits[i - sign.len()]);
    }
    assert(is_integer_text(s));
}

/// An integer written out in canonical decimal parses back to itself, so
/// parsing and writing out again gives back the text.
pub proof fn law_integer_round_trip(n: i32)
    ensures
        parse_text(decimal(n as int)) == Ok::<ValueModel, ParseFault>(ValueModel::Integer(n)),
{
    if n < 0 {
        lemma_decimal_nat((-n) as nat);
        law_integer_literal(seq!['-'], decimal_nat((-n) as nat));
    } else {
        lemma_decimal_nat(n as nat);
        law_integer_literal(Seq::empty(), decimal_nat(n as nat));
        assert(Seq::<char>::empty() + decimal_nat(n as nat) =~= decimal_nat(n as nat));
    }
}

pub open spec fn is_atom(v: ValueModel) -> bool {
    v is Nil || v is T || v is Integer || v is Str
}

/// Nil, T, integers and strings evaluate to themselves and leave the
/// environment as it was; evaluating the result again gives the same.
pub proof fn law_atoms_self_evaluate(v: ValueModel, e: EnvModel)
    requires
        is_atom(v),
    ensures
        eval_value(v, e) == (e, Ok::<ValueModel, ErrorModel>(v)),
        eval_value(eval_value(v, e).1->Ok_0, eval_value(v, e).0) == eval_value(v, e),
{
}

/// For a name bound to `bound`: a Single-quoted reference evaluates to the
/// symbol itself, an unquoted one to `bound`, and an Eval-quoted one to what
/// `bound` evaluates to, at the cost of one unit of budget.
pub proof fn law_quoting(name: Seq<char>, rest: bool, bound: ValueModel, e: EnvModel)
    requires
        lookup(e.stack, name) == Some(bound),
    ensures
        ({
            let single = ValueModel::Symbol(SymbolModel { name, quote: Quote::Single, rest });
            eval_value(single, e) == (e, Ok::<ValueModel, ErrorModel>(single))
        }),
        eval_value(ValueModel::Symbol(SymbolModel { name, quote: Quote::Unquoted, rest }), e)
            == (e, Ok::<ValueModel, ErrorModel>(bound)),
        e.budget > 0 ==> eval_value(ValueModel::Symbol(SymbolModel { name, quote: Quote::Eval, rest }), e)
            == eval_value(bound, e.spend()),
{
}

/// A Single-quoted symbol: it evaluates to itself.
pub open spec fn quoted(name: Seq<char>) -> ValueModel {
    ValueModel::Symbol(SymbolModel { name, quote: Quote::Single, rest: false })
}

/// The call `(op args...)`.
pub open spec fn form(op: Seq<char>, args: Seq<ValueModel>) -> ValueModel {
    ValueModel::Funcall(SymbolModel { name: op, quote: Quote::Unquoted, rest: false }, args)
}

/// `(let 'name x)` binds the value of `x` in the frame of whoever evaluates
/// the form: the frame below `let`'s own. The binding is visible there once
/// `let` has returned.
pub proof fn law_let_binds_in_caller_frame(e: EnvModel, name: Seq<char>, x: ValueModel)
    requires
        e.stack.len() >= 1,
        e.functions.contains_key("let"@),
        e.functions["let"@] == FunctionModel::Builtin(Builtin::LetVar),
    ensures
        ({
            let (e2, r) = eval_value(x, e.push_frame("let"@));
            eval_value(form("let"@, seq![quoted(name), x]), e) == match r {
                Ok(w) => (e2.pop_frame().put(e.stack.len() - 1, name, w), r),
                Err(_) => (e2.pop_frame(), r),
            }
        }),
        ({
            let (e2, r) = eval_value(x, e.push_frame("let"@));
            r matches Ok(w) ==> lookup(e2.pop_frame().put(e.stack.len() - 1, name, w).stack, name) == Some(w)
        }),
{
    let args = seq![quoted(name), x];
    let op = SymbolModel { name: "let"@, quote: Quote::Unquoted, rest: false };
    let e1 = e.push_frame("let"@);
    assert(eval_value(form("let"@, args), e) == call(op, args, e));
    assert(args[0] == quoted(name) && args[1] == x);
    assert(eval_value(quoted(name), e1) == (e1, Ok::<ValueModel, ErrorModel>(quoted(name))));
    crate::depth::lemma_eval_depth(x, e1);
    let (e2, r) = eval_value(x, e1);
    match r {
        Ok(w) => {
            assert(binding(args, e1) == (e2, Ok::<(SymbolModel, ValueModel), ErrorModel>((SymbolModel { name, quote: Quote::Single, rest: false }, w))));
            let after = e2.put(e2.stack.len() - 2, name, w);
            assert(let_form(args, e1) == (after, Ok::<ValueModel, ErrorModel>(w)));
            assert(call(op, args, e) == (after.pop_frame(), Ok::<ValueModel, ErrorModel>(w)));
            assert(after.pop_frame().stack =~= e2.pop_frame().put(e.stack.len() - 1, name, w).stack);
            assert(after.pop_frame() == e2.pop_frame().put(e.stack.len() - 1, name, w));
            assert(e2.pop_frame().put(e.stack.len() - 1, name, w).stack.last().scope.contains_key(name));
        },
        Err(_) => {
            assert(let_form(args, e1) == (e2, r));
        },
    }
}

/// `(set 'name x)` rebinds, to the value of `x`, the innermost frame that
/// binds the name; where none does, it binds at the top level. (Where
/// evaluating `x` binds the name in `set`'s own frame, that frame is the
/// innermost and the binding leaves with it.)
pub proof fn law_set_updates_nearest_binding(e: EnvModel, name: Seq<char>, x: ValueModel)
    requires
        e.stack.len() >= 1,
        e.functions.contains_key("set"@),
        e.functions["set"@] == FunctionModel::Builtin(Builtin::SetVar),
    ensures
        ({
            let (e2, r) = eval_value(x, e.push_frame("set"@));
            let base = e2.pop_frame();
            &&& r is Err ==> eval_value(form("set"@, seq![quoted(name), x]), e) == (base, r)
            &&& r is Ok && !e2.stack.last().scope.contains_key(name) ==> eval_value(
                form("set"@, seq![quoted(name), x]),
                e,
            ) == (match find_frame(base.stack, name) {
                Some(i) => base.put(i, name, r->Ok_0),
                None => base.put(0, name, r->Ok_0),
            }, r)
        }),
{
    let args = seq![quoted(name), x];
    let op = SymbolModel { name: "set"@, quote: Quote::Unquoted, rest: false };
    let e1 = e.push_frame("set"@);
    assert(eval_value(form("set"@, args), e) == call(op, args, e));
    assert(args[0] == quoted(name) && args[1] == x);
    assert(eval_value(quoted(name), e1) == (e1, Ok::<ValueModel, ErrorModel>(quoted(name))));
    crate::depth::lemma_eval_depth(x, e1);
    let (e2, r) = eval_value(x, e1);
    let base = e2.pop_frame();
    match r {
        Ok(w) => {
            assert(binding(args, e1) == (e2, Ok::<(SymbolModel, ValueModel), ErrorModel>((SymbolModel { name, quote: Quote::Single, rest: false }, w))));
            if !e2.stack.last().scope.contains_key(name) {
                assert(e2.stack.drop_last() =~= base.stack);
                assert(find_frame(e2.stack, name) == find_frame(base.stack, name));
                crate::semantics::lemma_find_frame_in_range(base.stack, name);
                let i = match find_frame(base.stack, name) {
                    Some(i) => i,
                    None => 0,
                };
                assert(set_form(args, e1) == (e2.put(i, name, w), Ok::<ValueModel, ErrorModel>(w)));
                assert(call(op, args, e) == (e2.put(i, name, w).pop_frame(), Ok::<ValueModel, ErrorModel>(w)));
                assert(e2.put(i, name, w).pop_frame().stack =~= base.put(i, name, w).stack);
                assert(e2.put(i, name, w).pop_frame() == base.put(i, name, w));
            }
        },
        Err(_) => {
            assert(set_form(args, e1) == (e2, r));
        },
    }
}

/// A `let` in a user function's body binds in that function's own frame, so
/// the binding is gone once the call returns and no later call sees it: the
/// call leaves the environment as evaluating the value left it, without the
/// two frames that the call and `let` made.
pub proof fn law_let_in_body_is_local(e: EnvModel, f: Seq<char>, name: Seq<char>, x: ValueModel)
    requires
        e.stack.len() >= 1,
        e.functions.contains_key("let"@),
        e.functions["let"@] == FunctionModel::Builtin(Builtin::LetVar),
        e.functions.contains_key(f),
        e.functions[f] == FunctionModel::Defun(seq![form("let"@, seq![quoted(name), x])], Seq::empty()),
    ensures
        e.budget == 0 ==> call(SymbolModel { name: f, quote: Quote::Unquoted, rest: false }, Seq::empty(), e)
            == (e, Err::<ValueModel, ErrorModel>(ErrorModel::StepLimitReached)),
        e.budget > 0 ==> ({
            let (e2, r) = eval_value(x, e.push_frame(f).spend().push_frame("let"@));
            call(SymbolModel { name: f, quote: Quote::Unquoted, rest: false }, Seq::empty(), e)
                == (e2.pop_frame().pop_frame(), r)
        }),
{
    let e1 = e.push_frame(f);
    assert(bind(Seq::empty(), Seq::empty(), e1) == (e1, Ok::<ValueModel, ErrorModel>(ValueModel::Nil)));
    assert(e1.pop_frame().stack =~= e.stack);
    assert(e1.pop_frame() == e);
    if e.budget > 0 {
        let es = e1.spend();
        law_let_binds_in_caller_frame(es, name, x);
        crate::depth::lemma_eval_depth(x, es.push_frame("let"@));
        let (e2, r) = eval_value(x, es.push_frame("let"@));
        match r {
            Ok(w) => {
                let after = e2.pop_frame().put(es.stack.len() - 1, name, w);
                assert(after.pop_frame().stack =~= e2.pop_frame().pop_frame().stack);
                assert(after.pop_frame() == e2.pop_frame().pop_frame());
            },
            Err(_) => {},
        }
    }
}

/// Only the last parameter may be a rest parameter.
proof fn lemma_rest_not_last(ps: Seq<ValueModel>, after_rest: bool, i: int)
    requires
        forall|k: int| 0 <= k < ps.len() ==> (#[trigger] ps[k]) is Symbol,
        0 <= i < ps.len() - 1,
        ps[i]->Symbol_0.rest,
    ensures
        params_of(ps, after_rest) == Err::<Seq<SymbolModel>, Mismatch>(Mismatch::RestNotLast),
    decreases ps.len(),
{
    assert(ps[0] is Symbol);
    if !after_rest {
        let t = ps.drop_first();
        assert(t[0] == ps[1]);
        if i == 0 {
            assert(t[0] is Symbol);
        } else {
            assert forall|k: int| 0 <= k < t.len() implies (#[trigger] t[k]) is Symbol by {
                assert(t[k] == ps[k + 1]);
            }
            assert(t[i - 1] == ps[i]);
            lemma_rest_not_last(t, ps[0]->Symbol_0.rest, i - 1);
        }
    }
}

/// A definition whose parameter list holds two rest parameters is refused
/// when it is made, and the function table stays as it was.
pub proof fn law_two_rest_parameters_refused(
    e: EnvModel,
    name: SymbolModel,
    ps: Seq<ValueModel>,
    body: Seq<ValueModel>,
    i: int,
    j: int,
)
    requires
        forall|k: int| 0 <= k < ps.len() ==> (#[trigger] ps[k]) is Symbol,
        0 <= i < j < ps.len(),
        ps[i]->Symbol_0.rest,
        ps[j]->Symbol_0.rest,
    ensures
        invoke(
            FunctionModel::Builtin(Builtin::Defun),
            seq![ValueModel::Symbol(name), ValueModel::List(ps)] + body,
            e,
        ) == e.mismatch(Mismatch::RestNotLast),
{
    lemma_rest_not_last(ps, false, i);
    let args = seq![ValueModel::Symbol(name), ValueModel::List(ps)] + body;
    assert(args[0] == ValueModel::Symbol(name));
    assert(args[1] == ValueModel::List(ps));
}

/// A rest parameter after fixed ones takes the list of all the arguments
/// that the fixed ones leave: as written where it is Single-quoted, else each
/// evaluated, in the frame as the fixed parameters left it. Where binding the
/// fixed parameters fails, so does the whole.
pub proof fn law_rest_parameter_takes_trailing_args(
    fixed: Seq<SymbolModel>,
    p: SymbolModel,
    args: Seq<ValueModel>,
    e: EnvModel,
)
    requires
        forall|k: int| 0 <= k < fixed.len() ==> !(#[trigger] fixed[k]).rest,
        p.rest,
        fixed.len() <= args.len(),
    ensures
        ({
            let (ek, r) = bind(fixed, args, e);
            let trailing = args.subrange(fixed.len() as int, args.len() as int);
            bind(fixed.push(p), args, e) == match r {
                Err(x) => (ek, Err(x)),
                Ok(_) => if p.quote == Quote::Single {
                    (ek.put_current(p.name, ValueModel::List(trailing)), Ok(ValueModel::Nil))
                } else {
                    let (e2, r2) = eval_list(trailing, ek);
                    match r2 {
                        Ok(ws) => (e2.put_current(p.name, ValueModel::List(ws)), Ok(ValueModel::Nil)),
                        Err(x) => (e2, Err(x)),
                    }
                },
            }
        }),
    decreases fixed.len(),
{
    let takes = fixed.push(p);
    if fixed.len() == 0 {
        assert(takes[0] == p);
        assert(args.subrange(0, args.len() as int) =~= args);
    } else {
        assert(takes[0] == fixed[0]);
        assert(!fixed[0].rest);
        assert(takes.drop_first() =~= fixed.drop_first().push(p));
        assert forall|k: int| 0 <= k < fixed.drop_first().len() implies !(#[trigger] fixed.drop_first()[k]).rest by {
            assert(fixed.drop_first()[k] == fixed[k + 1]);
        }
        let t = args.drop_first();
        assert(t.subrange(fixed.len() - 1, t.len() as int) =~= args.subrange(fixed.len() as int, args.len() as int));
        let (e1, r) = if fixed[0].quote == Quote::Single {
            (e, Ok::<ValueModel, ErrorModel>(args[0]))
        } else {
            eval_value(args[0], e)
        };
        match r {
            Ok(w) => {
                if e1.budget <= e.budget {
                    law_rest_parameter_takes_trailing_args(fixed.drop_first(), p, t, e1.put_current(fixed[0].name, w));
                }
            },
            Err(_) => {},
        }
    }
}

} // verus!
