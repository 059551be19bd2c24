//! Values, symbols and their mathematical models.
use vstd::prelude::*;

verus! {

/// How a symbol is evaluated where it is referenced.
#[derive(Clone, Copy, Debug, PartialEq, Eq, Structural)]
pub enum Quote {
    /// Resolved in the frame stack.
    Unquoted,
    /// Never evaluated: stands for itself.
    Single,
    /// Resolved, and the value found is evaluated again.
    Eval,
}

/// A name together with its use-site markers.
#[derive(Debug)]
pub struct Symbol {
    pub name: String,
    pub quote: Quote,
    pub rest: bool,
}

/// The model of a symbol.
pub struct SymbolModel {
    pub name: Seq<char>,
    pub quote: Quote,
    pub rest: bool,
}

impl View for Symbol {
    type V = SymbolModel;

    open spec fn view(&self) -> SymbolModel {
        SymbolModel { name: self.name@, quote: self.quote, rest: self.rest }
    }
}

/// The one integer type of the language.
pub type Integer = i32;

/// A value of the language; also its abstract syntax.
#[derive(Debug)]
pub enum Value {
    Nil,
    T,
    Integer(Integer),
    String(String),
    Symbol(Symbol),
    Funcall(Symbol, Vec<Value>),
    List(Vec<Value>),
}

/// The model of a value.
pub enum ValueModel {
    Nil,
    T,
    Integer(i32),
    Str(Seq<char>),
    Symbol(SymbolModel),
    Funcall(SymbolModel, Seq<ValueModel>),
    List(Seq<ValueModel>),
}

/// The models of a sequence of values.
pub open spec fn models(vs: Seq<Value>) -> Seq<ValueModel>
    decreases vs,
{
    Seq::new(vs.len(), |i: int| if 0 <= i < vs.len() { vs[i].model() } else { ValueModel::Nil })
}

/// `models` is taken element by element.
pub proof fn lemma_models(vs: Seq<Value>)
    ensures
        models(vs).len() == vs.len(),
        forall|i: int| 0 <= i < vs.len() ==> #[trigger] models(vs)[i] == vs[i].model(),
{
}

/// Each value of a sequence is below the sequence's models.
pub proof fn lemma_arg_decreases(vs: Seq<Value>, k: int)
    requires
        0 <= k < vs.len(),
    ensures
        models(vs)[k] == vs[k].model(),
        decreases_to!(models(vs) => vs[k].model()),
{
    lemma_models(vs);
    assert(decreases_to!(models(vs) => models(vs)[k]));
}

impl Value {
    pub open spec fn model(&self) -> ValueModel
        decreases self,
    {
        match self {
            Value::Nil => ValueModel::Nil,
            Value::T => ValueModel::T,
            Value::Integer(i) => ValueModel::Integer(*i),
            Value::String(s) => ValueModel::Str(s@),
            Value::Symbol(s) => ValueModel::Symbol(s@),
            Value::Funcall(s, args) => ValueModel::Funcall(s@, models(args@)),
            Value::List(vs) => ValueModel::List(models(vs@)),
        }
    }
}

impl Symbol {
    pub fn new(name: String, quote: Quote, rest: bool) -> (r: Symbol)
        ensures
            r@ == (SymbolModel { name: name@, quote, rest }),
    {
        Symbol { name, quote, rest }
    }

    /// An unquoted symbol without rest marker.
    pub fn from_str(name: &str) -> (r: Symbol)
        ensures
            r@ == (SymbolModel { name: name@, quote: Quote::Unquoted, rest: false }),
    {
        Symbol::new(name.to_owned(), Quote::Unquoted, false)
    }

    pub fn as_str(&self) -> (r: &str)
        ensures
            r@ == self.name@,
    {
        self.name.as_str()
    }

    /// The name alone.
    pub fn to_string(&self) -> (r: String)
        ensures
            r@ == self.name@,
    {
        self.name.clone()
    }
}

impl Clone for Symbol {
    fn clone(&self) -> (r: Symbol)
        ensures
            r@ == self@,
    {
        Symbol { name: self.name.clone(), quote: self.quote, rest: self.rest }
    }
}

/// A copy of each value of `vs`, in order.
pub fn clone_values(vs: &Vec<Value>) -> (r: Vec<Value>)
    ensures
        models(r@) == models(vs@),
    decreases vs@, 1nat,
{
    let mut r: Vec<Value> = Vec::new();
    let mut i: usize = 0;
    while i < vs.len()
        invariant
            i <= vs.len(),
            r@.len() == i,
            forall|j: int| 0 <= j < i ==> #[trigger] r@[j].model() == vs@[j].model(),
        decreases vs.len() - i,
    {
        r.push(vs[i].clone());
        i += 1;
    }
    proof {
        lemma_models(r@);
        lemma_models(vs@);
    }
    assert(models(r@) =~= models(vs@));
    r
}

/// A copy of the values of `vs` from index `k` on.
pub fn tail_from(vs: &Vec<Value>, k: usize) -> (r: Vec<Value>)
    requires
        k <= vs@.len(),
    ensures
        models(r@) == models(vs@).subrange(k as int, vs@.len() as int),
{
    let mut r: Vec<Value> = Vec::new();
    let mut i: usize = k;
    while i < vs.len()
        invariant
            k <= i <= vs@.len(),
            r@.len() == i - k,
            forall|j: int| 0 <= j < i - k ==> #[trigger] r@[j].model() == vs@[j + k].model(),
        decreases vs@.len() - i,
    {
        r.push(vs[i].clone());
        i += 1;
    }
    proof {
        lemma_models(r@);
        lemma_models(vs@);
    }
    assert(models(r@) =~= models(vs@).subrange(k as int, vs@.len() as int));
    r
}

/// Structural equality of two symbols: name, quote mode and rest marker.
pub fn symbols_equal(a: &Symbol, b: &Symbol) -> (r: bool)
    ensures
        r == (a@ == b@),
{
    a.name == b.name && a.quote == b.quote && a.rest == b.rest
}

/// Structural equality of two sequences of values.
pub fn all_equal(a: &Vec<Value>, b: &Vec<Value>) -> (r: bool)
    ensures
        r == (models(a@) == models(b@)),
    decreases a@, 1nat,
{
    proof {
        lemma_models(a@);
        lemma_models(b@);
    }
    if a.len() != b.len() {
        return false;
    }
    let mut i: usize = 0;
    while i < a.len()
        invariant
            i <= a@.len(),
            a@.len() == b@.len(),
            forall|j: int| 0 <= j < i ==> #[trigger] models(a@)[j] == models(b@)[j],
        decreases a@.len() - i,
    {
        if !values_equal(&a[i], &b[i]) {
            assert(models(a@)[i as int] != models(b@)[i as int]);
            return false;
        }
        i += 1;
    }
    assert(models(a@) =~= models(b@));
    true
}

/// Structural equality of two values.
pub fn values_equal(a: &Value, b: &Value) -> (r: bool)
    ensures
        r == (a.model() == b.model()),
    decreases a, 0nat,
{
    match (a, b) {
        (Value::Nil, Value::Nil) => true,
        (Value::T, Value::T) => true,
        (Value::Integer(i), Value::Integer(j)) => *i == *j,
        (Value::String(s), Value::String(t)) => *s == *t,
        (Value::Symbol(s), Value::Symbol(t)) => symbols_equal(s, t),
        (Value::Funcall(s, xs), Value::Funcall(t, ys)) => symbols_equal(s, t) && all_equal(xs, ys),
        (Value::List(xs), Value::List(ys)) => all_equal(xs, ys),
        _ => false,
    }
}

impl PartialEq for Symbol {
    fn eq(&self, other: &Symbol) -> (r: bool) {
        symbols_equal(self, other)
    }
}

impl vstd::std_specs::cmp::PartialEqSpecImpl for Symbol {
    open spec fn obeys_eq_spec() -> bool {
        true
    }

    open spec fn eq_spec(&self, other: &Symbol) -> bool {
        self@ == other@
    }
}

impl PartialEq for Value {
    fn eq(&self, other: &Value) -> (r: bool) {
        values_equal(self, other)
    }
}

impl vstd::std_specs::cmp::PartialEqSpecImpl for Value {
    open spec fn obeys_eq_spec() -> bool {
        true
    }

    open spec fn eq_spec(&self, other: &Value) -> bool {
        self.model() == other.model()
    }
}

impl Clone for Value {
    fn clone(&self) -> (r: Value)
        ensures
            r.model() == self.model(),
        decreases self, 0nat,
    {
        match self {
            Value::Nil => Value::Nil,
            Value::T => Value::T,
            Value::Integer(i) => Value::Integer(*i),
            Value::String(s) => Value::String(s.clone()),
            Value::Symbol(s) => Value::Symbol(s.clone()),
            Value::Funcall(s, args) => Value::Funcall(s.clone(), clone_values(args)),
            Value::List(vs) => Value::List(clone_values(vs)),
        }
    }
}

} // verus!
