//! Frames, the function table and the environment that owns them.
use vstd::prelude::*;

use crate::semantics::{find_frame, lemma_find_frame_in_range, lookup, Builtin, EnvModel, FrameModel, FunctionModel};
use crate::value::{clone_values, models, Symbol, SymbolModel, Value, ValueModel};

verus! {

/// The map that an association list stands for: a later entry wins.
pub open spec fn assoc<V>(s: Seq<(Seq<char>, V)>) -> Map<Seq<char>, V>
    decreases s.len(),
{
    if s.len() == 0 {
        Map::empty()
    } else {
        assoc(s.drop_last()).insert(s.last().0, s.last().1)
    }
}

pub open spec fn keys_unique<V>(s: Seq<(Seq<char>, V)>) -> bool {
    forall|i: int, j: int| 0 <= i < j < s.len() ==> s[i].0 != s[j].0
}

/// Each key of a list with unique keys maps to its entry's value.
pub proof fn lemma_assoc_index<V>(s: Seq<(Seq<char>, V)>, i: int)
    requires
        keys_unique(s),
        0 <= i < s.len(),
    ensures
        assoc(s).contains_key(s[i].0),
        assoc(s)[s[i].0] == s[i].1,
    decreases s.len(),
{
    if i < s.len() - 1 {
        lemma_assoc_index(s.drop_last(), i);
    }
}

/// A key that no entry has is not in the map.
pub proof fn lemma_assoc_absent<V>(s: Seq<(Seq<char>, V)>, k: Seq<char>)
    requires
        forall|i: int| 0 <= i < s.len() ==> s[i].0 != k,
    ensures
        !assoc(s).contains_key(k),
    decreases s.len(),
{
    if s.len() > 0 {
        lemma_assoc_absent(s.drop_last(), k);
    }
}

/// Replacing the value of an entry is an insert into the map.
pub proof fn lemma_assoc_update<V>(s: Seq<(Seq<char>, V)>, i: int, v: V)
    requires
        keys_unique(s),
        0 <= i < s.len(),
    ensures
        assoc(s.update(i, (s[i].0, v))) == assoc(s).insert(s[i].0, v),
    decreases s.len(),
{
    let t = s.update(i, (s[i].0, v));
    if i == s.len() - 1 {
        assert(t.drop_last() =~= s.drop_last());
        assert(assoc(t) =~= assoc(s).insert(s[i].0, v));
    } else {
        assert(t.drop_last() =~= s.drop_last().update(i, (s[i].0, v)));
        lemma_assoc_update(s.drop_last(), i, v);
        assert(assoc(t) =~= assoc(s).insert(s[i].0, v));
    }
}

/// One call's frame: the name of the call that made it, and its bindings.
#[derive(Debug)]
pub struct Closure {
    pub caller: String,
    scope: Vec<(String, Value)>,
}

impl Closure {
    pub closed spec fn entries(&self) -> Seq<(Seq<char>, ValueModel)> {
        self.scope@.map_values(|e: (String, Value)| (e.0@, e.1.model()))
    }

    /// No name is bound twice.
    pub closed spec fn wf(&self) -> bool {
        keys_unique(self.entries())
    }

    pub closed spec fn model(&self) -> FrameModel {
        FrameModel { caller: self.caller@, scope: assoc(self.entries()) }
    }

    pub fn new(caller: String) -> (r: Closure)
        ensures
            r.wf(),
            r.model() == (FrameModel { caller: caller@, scope: Map::empty() }),
    {
        let r = Closure { caller, scope: Vec::new() };
        assert(r.entries() =~= Seq::empty());
        r
    }

    /// The index of the entry for `name`, if any.
    fn position(&self, name: &String) -> (r: Option<usize>)
        ensures
            match r {
                Some(i) => i < self.scope@.len() && self.entries()[i as int].0 == name@,
                None => forall|j: int| 0 <= j < self.scope@.len() ==> self.entries()[j].0 != name@,
            },
    {
        let mut i: usize = 0;
        while i < self.scope.len()
            invariant
                i <= self.scope@.len(),
                forall|j: int| 0 <= j < i ==> self.entries()[j].0 != name@,
            decreases self.scope@.len() - i,
        {
            if self.scope[i].0 == *name {
                return Some(i);
            }
            i += 1;
        }
        None
    }

    /// Binds the symbol's name (its markers play no part) to `value`.
    pub fn put(&mut self, symbol: Symbol, value: Value)
        requires
            old(self).wf(),
        ensures
            final(self).wf(),
            final(self).model() == (FrameModel {
                caller: old(self).model().caller,
                scope: old(self).model().scope.insert(symbol.name@, value.model()),
            }),
    {
        let ghost old_entries = self.entries();
        let ghost name = symbol.name@;
        let ghost vm = value.model();
        match self.position(&symbol.name) {
            Some(i) => {
                self.scope.set(i, (symbol.name, value));
                proof {
                    assert(self.entries() =~= old_entries.update(i as int, (name, vm)));
                    lemma_assoc_update(old_entries, i as int, vm);
                }
            },
            None => {
                self.scope.push((symbol.name, value));
                proof {
                    assert(self.entries() =~= old_entries.push((name, vm)));
                    assert(self.entries().drop_last() =~= old_entries);
                }
            },
        }
    }

    /// The value bound to the symbol's name.
    pub fn get(&self, symbol: &Symbol) -> (r: Option<&Value>)
        requires
            self.wf(),
        ensures
            r is Some <==> self.model().scope.contains_key(symbol.name@),
            r is Some ==> r->Some_0.model() == self.model().scope[symbol.name@],
    {
        match self.position(&symbol.name) {
            Some(i) => {
                proof {
                    lemma_assoc_index(self.entries(), i as int);
                }
                Some(&self.scope[i].1)
            },
            None => {
                proof {
                    lemma_assoc_absent(self.entries(), symbol.name@);
                }
                None
            },
        }
    }

    /// Whether the symbol's name is bound here.
    pub fn has(&self, symbol: &Symbol) -> (r: bool)
        requires
            self.wf(),
        ensures
            r == self.model().scope.contains_key(symbol.name@),
    {
        self.get(symbol).is_some()
    }
}

/// A user-defined function: its body forms and its parameter descriptors.
#[derive(Debug)]
pub struct Defun {
    body: Vec<Value>,
    takes: Vec<Symbol>,
}

/// An entry of the function table.
#[derive(Debug)]
pub enum Function {
    Builtin(Builtin),
    Defun(Defun),
}

pub open spec fn symbol_models(s: Seq<Symbol>) -> Seq<SymbolModel> {
    s.map_values(|x: Symbol| x@)
}

impl Defun {
    pub closed spec fn body_model(&self) -> Seq<ValueModel> {
        models(self.body@)
    }

    pub closed spec fn takes_model(&self) -> Seq<SymbolModel> {
        symbol_models(self.takes@)
    }

    pub(crate) fn parts(&self) -> (r: (&Vec<Value>, &Vec<Symbol>))
        ensures
            models(r.0@) == self.body_model(),
            symbol_models(r.1@) == self.takes_model(),
    {
        (&self.body, &self.takes)
    }
}

impl Function {
    pub open spec fn model(&self) -> FunctionModel {
        match self {
            Function::Builtin(b) => FunctionModel::Builtin(*b),
            Function::Defun(d) => FunctionModel::Defun(d.body_model(), d.takes_model()),
        }
    }

    pub fn new_defun(body: Vec<Value>, takes: Vec<Symbol>) -> (r: Function)
        ensures
            r.model() == FunctionModel::Defun(models(body@), symbol_models(takes@)),
    {
        Function::Defun(Defun { body, takes })
    }

    pub fn new_builtin(function: Builtin) -> (r: Function)
        ensures
            r.model() == FunctionModel::Builtin(function),
    {
        Function::Builtin(function)
    }
}

impl Clone for Function {
    fn clone(&self) -> (r: Function)
        ensures
            r.model() == self.model(),
    {
        match self {
            Function::Builtin(b) => Function::Builtin(*b),
            Function::Defun(d) => {
                let mut takes: Vec<Symbol> = Vec::new();
                let mut i: usize = 0;
                while i < d.takes.len()
                    invariant
                        i <= d.takes@.len(),
                        takes@.len() == i,
                        forall|j: int| 0 <= j < i ==> #[trigger] takes@[j]@ == d.takes@[j]@,
                    decreases d.takes@.len() - i,
                {
                    takes.push(d.takes[i].clone());
                    i += 1;
                }
                assert(symbol_models(takes@) =~= symbol_models(d.takes@));
                Function::Defun(Defun { body: clone_values(&d.body), takes })
            },
        }
    }
}

pub open spec fn frame_models(s: Seq<Closure>) -> Seq<FrameModel> {
    s.map_values(|c: Closure| c.model())
}

/// Replacing a frame replaces its model.
pub broadcast proof fn lemma_frame_models_update(s: Seq<Closure>, i: int, c: Closure)
    requires
        0 <= i < s.len(),
    ensures
        #[trigger] frame_models(s.update(i, c)) == frame_models(s).update(i, c.model()),
{
    assert(frame_models(s.update(i, c)) =~= frame_models(s).update(i, c.model()));
}

/// What evaluation runs against: a stack of frames whose first, the top
/// level, lives as long as the environment; the function table, keyed by name;
/// and a budget of evaluation steps, of which each function body, loop round,
/// dereferenced symbol and re-evaluated list element uses one.
#[derive(Debug)]
pub struct Environment {
    stack: Vec<Closure>,
    functions_table: Vec<(String, Function)>,
    budget: u64,
}

impl Environment {
    pub closed spec fn fn_entries(&self) -> Seq<(Seq<char>, FunctionModel)> {
        self.functions_table@.map_values(|e: (String, Function)| (e.0@, e.1.model()))
    }

    /// The stack is never empty, and no table or frame binds a name twice.
    pub closed spec fn wf(&self) -> bool {
        &&& self.stack@.len() >= 1
        &&& forall|i: int| 0 <= i < self.stack@.len() ==> (#[trigger] self.stack@[i]).wf()
        &&& keys_unique(self.fn_entries())
    }

    /// A well-formed environment has at least one frame.
    pub broadcast proof fn lemma_wf_depth(&self)
        requires
            #[trigger] self.wf(),
        ensures
            self@.stack.len() >= 1,
    {
    }

    /// The initial frame stack: the top level alone.
    pub open spec fn top_frame() -> FrameModel {
        FrameModel { caller: "top-level"@, scope: Map::empty() }
    }

    /// An environment with an empty function table and a budget that no
    /// practical evaluation exhausts.
    pub fn new() -> (r: Environment)
        ensures
            r.wf(),
            r@ == (EnvModel {
                stack: seq![Environment::top_frame()],
                functions: Map::empty(),
                budget: u64::MAX as nat,
            }),
    {
        let top = Closure::new("top-level".to_owned());
        let mut stack: Vec<Closure> = Vec::new();
        stack.push(top);
        let r = Environment { stack, functions_table: Vec::new(), budget: u64::MAX };
        assert(r@.stack =~= seq![Environment::top_frame()]);
        assert(r.fn_entries() =~= Seq::empty());
        r
    }

    /// The number of evaluation steps left.
    pub fn budget(&self) -> (r: u64)
        ensures
            r as nat == self@.budget,
    {
        self.budget
    }

    pub fn set_budget(&mut self, budget: u64)
        requires
            old(self).wf(),
        ensures
            final(self).wf(),
            final(self)@ == (EnvModel { budget: budget as nat, ..old(self)@ }),
    {
        self.budget = budget;
    }

    pub(crate) fn spend(&mut self)
        requires
            old(self).wf(),
            old(self)@.budget > 0,
        ensures
            final(self).wf(),
            final(self)@ == old(self)@.spend(),
    {
        self.budget = self.budget - 1;
    }

    /// The number of frames.
    pub fn depth(&self) -> (r: usize)
        ensures
            r == self@.stack.len(),
    {
        self.stack.len()
    }

    /// The frame at index `i`, counted from the top level.
    fn frame_mut(&mut self, i: usize) -> (r: &mut Closure)
        requires
            old(self).wf(),
            i < old(self)@.stack.len(),
        ensures
            r.wf(),
            r.model() == old(self)@.stack[i as int],
            final(self)@ == (EnvModel { stack: old(self)@.stack.update(i as int, final(r).model()), ..old(self)@ }),
            final(r).wf() ==> final(self).wf(),
    {
        broadcast use lemma_frame_models_update;

        let r = &mut self.stack[i];
        proof {
            assert(r.wf());
        }
        r
    }

    /// The top-level frame.
    pub fn top_level(&mut self) -> (r: &mut Closure)
        requires
            old(self).wf(),
        ensures
            r.wf(),
            r.model() == old(self)@.stack[0],
            final(self)@ == (EnvModel { stack: old(self)@.stack.update(0, final(r).model()), ..old(self)@ }),
            final(r).wf() ==> final(self).wf(),
    {
        self.frame_mut(0)
    }

    /// The innermost frame.
    pub fn current(&mut self) -> (r: &mut Closure)
        requires
            old(self).wf(),
        ensures
            r.wf(),
            r.model() == old(self)@.stack.last(),
            final(self)@ == (EnvModel {
                stack: old(self)@.stack.update(old(self)@.stack.len() - 1, final(r).model()),
                ..old(self)@
            }),
            final(r).wf() ==> final(self).wf(),
    {
        let i = self.stack.len() - 1;
        self.frame_mut(i)
    }

    /// The frame below the innermost one.
    pub fn outer(&mut self) -> (r: &mut Closure)
        requires
            old(self).wf(),
            old(self)@.stack.len() >= 2,
        ensures
            r.wf(),
            r.model() == old(self)@.stack[old(self)@.stack.len() - 2],
            final(self)@ == (EnvModel {
                stack: old(self)@.stack.update(old(self)@.stack.len() - 2, final(r).model()),
                ..old(self)@
            }),
            final(r).wf() ==> final(self).wf(),
    {
        let i = self.stack.len() - 2;
        self.frame_mut(i)
    }

    /// Binds `symbol`'s name to `value` in frame `i`.
    pub(crate) fn put_at(&mut self, i: usize, symbol: Symbol, value: Value)
        requires
            old(self).wf(),
            i < old(self)@.stack.len(),
        ensures
            final(self).wf(),
            final(self)@ == old(self)@.put(i as int, symbol.name@, value.model()),
    {
        let frame = self.frame_mut(i);
        frame.put(symbol, value);
    }

    /// The label of the innermost frame.
    pub(crate) fn caller(&self) -> (r: String)
        requires
            self.wf(),
        ensures
            r@ == self@.caller(),
    {
        self.stack[self.stack.len() - 1].caller.clone()
    }

    pub fn push_to_stack(&mut self, caller: &String)
        requires
            old(self).wf(),
        ensures
            final(self).wf(),
            final(self)@ == old(self)@.push_frame(caller@),
    {
        self.stack.push(Closure::new(caller.clone()));
        assert(self@.stack =~= old(self)@.stack.push(FrameModel { caller: caller@, scope: Map::empty() }));
    }

    /// Removes the innermost frame, unless it is the top level.
    pub fn pop(&mut self) -> (r: Option<Closure>)
        requires
            old(self).wf(),
        ensures
            final(self).wf(),
            old(self)@.stack.len() > 1 ==> r is Some && r->Some_0.model() == old(self)@.stack.last()
                && final(self)@ == old(self)@.pop_frame(),
            old(self)@.stack.len() <= 1 ==> r is None && final(self)@ == old(self)@,
    {
        if self.stack.len() > 1 {
            let r = self.stack.pop();
            assert(self@.stack =~= old(self)@.stack.drop_last());
            r
        } else {
            None
        }
    }

    /// The index of the table entry for `name`, if any.
    fn function_position(&self, name: &String) -> (r: Option<usize>)
        ensures
            match r {
                Some(i) => i < self.functions_table@.len() && self.fn_entries()[i as int].0 == name@,
                None => forall|j: int|
                    0 <= j < self.functions_table@.len() ==> self.fn_entries()[j].0 != name@,
            },
    {
        let mut i: usize = 0;
        while i < self.functions_table.len()
            invariant
                i <= self.functions_table@.len(),
                forall|j: int| 0 <= j < i ==> self.fn_entries()[j].0 != name@,
            decreases self.functions_table@.len() - i,
        {
            if self.functions_table[i].0 == *name {
                return Some(i);
            }
            i += 1;
        }
        None
    }

    /// Registers `function` under the key's name; an earlier one of that name
    /// is replaced.
    pub fn add_function(&mut self, key: Symbol, function: Function)
        requires
            old(self).wf(),
        ensures
            final(self).wf(),
            final(self)@ == old(self)@.define(key.name@, function.model()),
    {
        let ghost old_entries = self.fn_entries();
        let ghost name = key.name@;
        let ghost fm = function.model();
        match self.function_position(&key.name) {
            Some(i) => {
                self.functions_table.set(i, (key.name, function));
                proof {
                    assert(self.fn_entries() =~= old_entries.update(i as int, (name, fm)));
                    lemma_assoc_update(old_entries, i as int, fm);
                }
            },
            None => {
                self.functions_table.push((key.name, function));
                proof {
                    assert(self.fn_entries() =~= old_entries.push((name, fm)));
                    assert(self.fn_entries().drop_last() =~= old_entries);
                }
            },
        }
        assert(self@.functions =~= old(self)@.functions.insert(name, fm));
    }

    /// A copy of the function registered under `name`.
    pub(crate) fn function(&self, name: &String) -> (r: Option<Function>)
        requires
            self.wf(),
        ensures
            r is Some <==> self@.functions.contains_key(name@),
            r is Some ==> r->Some_0.model() == self@.functions[name@],
    {
        match self.function_position(name) {
            Some(i) => {
                proof {
                    lemma_assoc_index(self.fn_entries(), i as int);
                }
                Some(self.functions_table[i].1.clone())
            },
            None => {
                proof {
                    lemma_assoc_absent(self.fn_entries(), name@);
                }
                None
            },
        }
    }

    /// The index of the innermost frame that binds the symbol's name.
    pub(crate) fn find_frame(&self, symbol: &Symbol) -> (r: Option<usize>)
        requires
            self.wf(),
        ensures
            match r {
                Some(i) => find_frame(self@.stack, symbol.name@) == Some(i as int),
                None => find_frame(self@.stack, symbol.name@) is None,
            },
    {
        let ghost st = self@.stack;
        let mut i: usize = self.stack.len();
        assert(st.subrange(0, i as int) =~= st);
        while i > 0
            invariant
                i <= self.stack@.len(),
                self.wf(),
                st == self@.stack,
                find_frame(st, symbol.name@) == find_frame(st.subrange(0, i as int), symbol.name@),
            decreases i,
        {
            let ghost sub = st.subrange(0, i as int);
            assert(sub.drop_last() =~= st.subrange(0, i - 1));
            if self.stack[i - 1].has(symbol) {
                return Some(i - 1);
            }
            i -= 1;
        }
        None
    }

    /// The innermost frame that binds the symbol's name.
    pub fn find_closure(&mut self, symbol: &Symbol) -> (r: Option<&mut Closure>)
        requires
            old(self).wf(),
        ensures
            find_frame(old(self)@.stack, symbol.name@) is None ==> r is None && final(self)@ == old(self)@,
            find_frame(old(self)@.stack, symbol.name@) matches Some(i) ==> r is Some
                && r->Some_0.wf()
                && r->Some_0.model() == old(self)@.stack[i]
                && final(self)@ == (EnvModel { stack: old(self)@.stack.update(i, final(r->Some_0).model()), ..old(self)@ })
                && (final(r->Some_0).wf() ==> final(self).wf()),
    {
        proof {
            lemma_find_frame_in_range(self@.stack, symbol.name@);
        }
        match self.find_frame(symbol) {
            Some(i) => Some(self.frame_mut(i)),
            None => None,
        }
    }

    /// A copy of the value bound to the symbol's name in the innermost frame
    /// that binds it.
    pub fn lookup(&self, symbol: &Symbol) -> (r: Option<Value>)
        requires
            self.wf(),
        ensures
            match r {
                Some(v) => lookup(self@.stack, symbol.name@) == Some(v.model()),
                None => lookup(self@.stack, symbol.name@) is None,
            },
    {
        let ghost st = self@.stack;
        let mut i: usize = self.stack.len();
        assert(st.subrange(0, i as int) =~= st);
        while i > 0
            invariant
                i <= self.stack@.len(),
                self.wf(),
                st == self@.stack,
                lookup(st, symbol.name@) == lookup(st.subrange(0, i as int), symbol.name@),
            decreases i,
        {
            let ghost sub = st.subrange(0, i as int);
            assert(sub.drop_last() =~= st.subrange(0, i - 1));
            if let Some(v) = self.stack[i - 1].get(symbol) {
                return Some(v.clone());
            }
            i -= 1;
        }
        None
    }
}

impl View for Environment {
    type V = EnvModel;

    closed spec fn view(&self) -> EnvModel {
        EnvModel {
            stack: frame_models(self.stack@),
            functions: assoc(self.fn_entries()),
            budget: self.budget as nat,
        }
    }
}

} // verus!
