use crate::expressions::{NativeFunction, SValue, Value};
use crate::text::str_eq;
use vstd::prelude::*;

verus! {

/// Why a variable could not be read.
#[derive(PartialEq, Eq, Structural, Copy, Clone, Debug)]
pub enum GetError {
    /// No scope defines it.
    Undefined,
    /// The nearest scope that defines it has no value for it yet.
    Uninitalised,
}

/// A binding in a scope: a name, and a value unless uninitialised.
pub type Binding<'a, N> = (&'a str, Option<Value<'a, N>>);

/// What a scope holds for one name: a value, or none while uninitialised.
pub type Slot<'a, N> = Option<SValue<'a, N>>;

/// The model of an optional value.
pub open spec fn slot_of<'a, N>(value: Option<Value<'a, N>>) -> Slot<'a, N> {
    match value {
        Some(v) => Some(v@),
        None => None,
    }
}

/// The entry for `key` in `entries`: the last binding of that name.
pub open spec fn assoc<'a, N>(entries: Seq<Binding<'a, N>>, key: Seq<char>) -> Option<
    Option<Value<'a, N>>,
>
    decreases entries.len(),
{
    if entries.len() == 0 {
        None
    } else if entries.last().0@ == key {
        Some(entries.last().1)
    } else {
        assoc(entries.drop_last(), key)
    }
}

/// A function value refers only to scopes below `n`.
pub open spec fn svalue_wf<'a, N>(v: SValue<'a, N>, n: nat) -> bool {
    match v {
        SValue::Function { closure, .. } => closure < n,
        _ => true,
    }
}

/// The model of the variables in force: every scope created so far (a
/// function keeps the scope it was declared in), and the stack of scopes
/// in force, innermost last.
pub struct SEnv<'a, N> {
    pub heap: Seq<Map<Seq<char>, Slot<'a, N>>>,
    pub stack: Seq<usize>,
}

/// The innermost scope of `stack` that defines `key`.
pub open spec fn defining_scope<'a, N>(
    heap: Seq<Map<Seq<char>, Slot<'a, N>>>,
    stack: Seq<usize>,
    key: Seq<char>,
) -> Option<usize>
    decreases stack.len(),
{
    if stack.len() == 0 {
        None
    } else if heap[stack.last() as int].contains_key(key) {
        Some(stack.last())
    } else {
        defining_scope(heap, stack.drop_last(), key)
    }
}

impl<'a, N> SEnv<'a, N> {
    /// What the innermost scope defining `key` holds for it; `None` when
    /// no scope in force defines it.
    pub open spec fn lookup(self, key: Seq<char>) -> Option<Slot<'a, N>> {
        match defining_scope(self.heap, self.stack, key) {
            Some(h) => Some(self.heap[h as int][key]),
            None => None,
        }
    }

    pub open spec fn top(self) -> usize {
        self.stack.last()
    }

    /// Binds `key` in the innermost scope.
    pub open spec fn define(self, key: Seq<char>, slot: Slot<'a, N>) -> Self {
        SEnv {
            heap: self.heap.update(self.top() as int, self.heap[self.top() as int].insert(key, slot)),
            stack: self.stack,
        }
    }

    /// Assigns `value` to `key` in the innermost scope defining it; `None`
    /// when no scope in force defines it.
    pub open spec fn assign(self, key: Seq<char>, value: SValue<'a, N>) -> Option<Self> {
        match defining_scope(self.heap, self.stack, key) {
            Some(h) => Some(
                SEnv {
                    heap: self.heap.update(h as int, self.heap[h as int].insert(key, Some(value))),
                    stack: self.stack,
                },
            ),
            None => None,
        }
    }

    /// Creates an empty scope and enters it.
    pub open spec fn narrow(self) -> Self {
        SEnv { heap: self.heap.push(Map::empty()), stack: self.stack.push(self.heap.len() as usize) }
    }

    /// Enters the existing scope `scope`.
    pub open spec fn enter(self, scope: usize) -> Self {
        SEnv { heap: self.heap, stack: self.stack.push(scope) }
    }

    /// Leaves the innermost scope.
    pub open spec fn leave(self) -> Self {
        SEnv { heap: self.heap, stack: self.stack.drop_last() }
    }

    /// A scope is in force, every scope in force exists, and every stored
    /// function value refers to an existing scope.
    pub open spec fn wf(self) -> bool {
        &&& self.stack.len() > 0
        &&& forall|i: int| 0 <= i < self.stack.len() ==> #[trigger] self.stack[i] < self.heap.len()
        &&& forall|h: int, k: Seq<char>|
            0 <= h < self.heap.len() && #[trigger] self.heap[h].contains_key(k) ==> (
            self.heap[h][k] matches Some(v) ==> svalue_wf(v, self.heap.len()))
    }
}

/// The scope that defines `key` is one of the scopes in force, and it
/// defines `key`.
pub proof fn lemma_defining_scope<'a, N>(
    heap: Seq<Map<Seq<char>, Slot<'a, N>>>,
    stack: Seq<usize>,
    key: Seq<char>,
)
    ensures
        defining_scope(heap, stack, key) matches Some(h) ==> heap[h as int].contains_key(key)
            && exists|i: int| 0 <= i < stack.len() && stack[i] == h,
    decreases stack.len(),
{
    if stack.len() > 0 {
        lemma_defining_scope(heap, stack.drop_last(), key);
        if let Some(h) = defining_scope(heap, stack, key) {
            if heap[stack.last() as int].contains_key(key) {
                assert(stack[stack.len() - 1] == h);
            } else {
                let i = choose|i: int| 0 <= i < stack.drop_last().len() && stack.drop_last()[i] == h;
                assert(stack[i] == h);
            }
        }
    }
}

/// A value read from a well-formed environment refers to an existing
/// scope.
pub proof fn lemma_lookup_wf<'a, N>(env: SEnv<'a, N>, key: Seq<char>)
    requires
        env.wf(),
    ensures
        env.lookup(key) matches Some(Some(v)) ==> svalue_wf(v, env.heap.len()),
{
    lemma_defining_scope(env.heap, env.stack, key);
    if let Some(h) = defining_scope(env.heap, env.stack, key) {
        let i = choose|i: int| 0 <= i < env.stack.len() && env.stack[i] == h;
        assert(env.stack[i] < env.heap.len());
        assert(env.heap[h as int].contains_key(key));
    }
}

/// Scopes that agree on whether they define `key` give the same scope
/// defining it.
pub proof fn lemma_defining_agree<'a, N>(
    heap: Seq<Map<Seq<char>, Slot<'a, N>>>,
    heap2: Seq<Map<Seq<char>, Slot<'a, N>>>,
    stack: Seq<usize>,
    key: Seq<char>,
)
    requires
        forall|i: int| 0 <= i < stack.len() ==> #[trigger] stack[i] < heap.len() && stack[i] < heap2.len()
            && heap2[stack[i] as int].contains_key(key) == heap[stack[i] as int].contains_key(key),
    ensures
        defining_scope(heap2, stack, key) == defining_scope(heap, stack, key),
    decreases stack.len(),
{
    if stack.len() > 0 {
        assert(stack[stack.len() - 1] == stack.last());
        lemma_defining_agree(heap, heap2, stack.drop_last(), key);
    }
}

/// Reading a name right after defining it gives what was defined, and
/// every other name reads as before.
pub proof fn lemma_define_then_lookup<'a, N>(env: SEnv<'a, N>, key: Seq<char>, slot: Slot<'a, N>)
    requires
        env.wf(),
    ensures
        env.define(key, slot).lookup(key) == Some(slot),
        forall|k: Seq<char>| k != key ==> #[trigger] env.define(key, slot).lookup(k) == env.lookup(k),
{
    let e2 = env.define(key, slot);
    assert(env.stack[env.stack.len() - 1] == env.top());
    assert forall|k: Seq<char>| k != key implies #[trigger] e2.lookup(k) == env.lookup(k) by {
        lemma_defining_agree(env.heap, e2.heap, env.stack, k);
        lemma_defining_scope(env.heap, env.stack, k);
        if let Some(h) = defining_scope(env.heap, env.stack, k) {
            let i = choose|i: int| 0 <= i < env.stack.len() && env.stack[i] == h;
            assert(env.stack[i] < env.heap.len());
        }
    }
}

/// Assigning fails exactly when no scope in force defines the name;
/// otherwise the name then reads as the assigned value, and every other
/// name reads as before.
pub proof fn lemma_assign_then_lookup<'a, N>(env: SEnv<'a, N>, key: Seq<char>, value: SValue<'a, N>)
    requires
        env.wf(),
    ensures
        env.assign(key, value) is None <==> env.lookup(key) is None,
        env.assign(key, value) matches Some(e2) ==> e2.lookup(key) == Some(Some(value)) && forall|
            k: Seq<char>,
        | k != key ==> #[trigger] e2.lookup(k) == env.lookup(k),
{
    lemma_defining_scope(env.heap, env.stack, key);
    if let Some(e2) = env.assign(key, value) {
        let h = defining_scope(env.heap, env.stack, key).unwrap();
        let i = choose|i: int| 0 <= i < env.stack.len() && env.stack[i] == h;
        assert(env.stack[i] < env.heap.len());
        lemma_defining_agree(env.heap, e2.heap, env.stack, key);
        assert forall|k: Seq<char>| k != key implies #[trigger] e2.lookup(k) == env.lookup(k) by {
            lemma_defining_agree(env.heap, e2.heap, env.stack, k);
            lemma_defining_scope(env.heap, env.stack, k);
            if let Some(g) = defining_scope(env.heap, env.stack, k) {
                let j = choose|j: int| 0 <= j < env.stack.len() && env.stack[j] == g;
                assert(env.stack[j] < env.heap.len());
            }
        }
    }
}

/// A new scope changes no reading, and leaving it restores the scopes in
/// force.
pub proof fn lemma_narrow_then_leave<'a, N>(env: SEnv<'a, N>, key: Seq<char>)
    requires
        env.wf(),
        env.heap.len() <= usize::MAX,
    ensures
        env.narrow().lookup(key) == env.lookup(key),
        env.narrow().leave().stack == env.stack,
        env.narrow().leave().lookup(key) == env.lookup(key),
{
    let e2 = env.narrow();
    assert(e2.stack.drop_last() =~= env.stack);
    assert(e2.heap.last() == Map::<Seq<char>, Slot<'a, N>>::empty());
    assert(e2.stack.last() == env.heap.len());
    lemma_defining_agree(env.heap, e2.heap, env.stack, key);
    lemma_defining_scope(env.heap, env.stack, key);
    if let Some(h) = defining_scope(env.heap, env.stack, key) {
        let i = choose|i: int| 0 <= i < env.stack.len() && env.stack[i] == h;
        assert(env.stack[i] < env.heap.len());
    }
}

/// The environment a program starts in: one scope, holding the host's
/// functions.
pub open spec fn initial_env<'a, N>() -> SEnv<'a, N> {
    SEnv {
        heap: seq![Map::empty().insert("clock"@, Some(SValue::NativeFunction(NativeFunction::Clock)))],
        stack: seq![0usize],
    }
}

/// What reading a variable gives, from what the scopes hold for it.
pub open spec fn lookup_result<'a, N>(found: Option<Slot<'a, N>>) -> Result<SValue<'a, N>, GetError> {
    match found {
        None => Err(GetError::Undefined),
        Some(None) => Err(GetError::Uninitalised),
        Some(Some(v)) => Ok(v),
    }
}

/// The model of the result of reading a variable.
pub open spec fn read_view<'a, N>(r: Result<Value<'a, N>, GetError>) -> Result<SValue<'a, N>, GetError> {
    match r {
        Ok(v) => Ok(v@),
        Err(e) => Err(e),
    }
}

/// The variables of one scope.
pub struct Scope<'a, N> {
    entries: Vec<Binding<'a, N>>,
}

impl<'a, N> View for Scope<'a, N> {
    type V = Map<Seq<char>, Slot<'a, N>>;

    closed spec fn view(&self) -> Map<Seq<char>, Slot<'a, N>> {
        Map::new(
            |k: Seq<char>| assoc(self.entries@, k) is Some,
            |k: Seq<char>| slot_of(assoc(self.entries@, k).unwrap()),
        )
    }
}

impl<'a, N: Copy> Scope<'a, N> {
    pub fn new() -> (res: Self)
        ensures
            res@ == Map::<Seq<char>, Slot<'a, N>>::empty(),
    {
        let res = Scope { entries: Vec::new() };
        assert(res@ =~= Map::<Seq<char>, Slot<'a, N>>::empty());
        res
    }

    /// Binds `key` to `value` in this scope.
    pub fn insert(&mut self, key: &'a str, value: Option<Value<'a, N>>)
        ensures
            final(self)@ == old(self)@.insert(key@, slot_of(value)),
    {
        let ghost old_entries = self.entries@;
        let mut i = self.entries.len();
        while i > 0
            invariant
                i <= self.entries.len(),
                self.entries@ == old_entries,
                old_entries == old(self).entries@,
                forall|j: int| i <= j < old_entries.len() ==> old_entries[j].0@ != key@,
            decreases i,
        {
            if str_eq(self.entries[i - 1].0, key) {
                let ghost j = (i - 1) as int;
                self.entries.set(i - 1, (key, value));
                proof {
                    lemma_assoc_update(old_entries, j, key, value);
                    assert(self@ =~= old(self)@.insert(key@, slot_of(value)));
                }
                return;
            }
            i = i - 1;
        }
        self.entries.push((key, value));
        proof {
            assert(self.entries@.drop_last() =~= old_entries);
            assert forall|k: Seq<char>| k != key@ implies assoc(self.entries@, k) == assoc(
                old_entries,
                k,
            ) by {}
            assert(self@ =~= old(self)@.insert(key@, slot_of(value)));
        }
    }

    pub fn contains_key(&self, key: &'a str) -> (res: bool)
        ensures
            res == self@.contains_key(key@),
    {
        match self.find(key) {
            Some(_) => true,
            None => false,
        }
    }

    /// The position of the last binding of `key`.
    fn find(&self, key: &str) -> (res: Option<usize>)
        ensures
            match res {
                Some(i) => i < self.entries@.len() && assoc(self.entries@, key@) == Some(
                    self.entries@[i as int].1,
                ),
                None => assoc(self.entries@, key@) is None,
            },
    {
        let mut i = self.entries.len();
        proof {
            assert(self.entries@.take(i as int) =~= self.entries@);
        }
        while i > 0
            invariant
                i <= self.entries.len(),
                assoc(self.entries@, key@) == assoc(self.entries@.take(i as int), key@),
            decreases i,
        {
            proof {
                assert(self.entries@.take(i as int).drop_last() =~= self.entries@.take(i - 1));
            }
            if str_eq(self.entries[i - 1].0, key) {
                return Some(i - 1);
            }
            i = i - 1;
        }
        None
    }

    /// The value of `key`: undefined, uninitialised, or its value.
    pub fn get(&self, key: &'a str) -> (res: Result<Value<'a, N>, GetError>)
        ensures
            read_view(res) == lookup_result(
                if self@.contains_key(key@) {
                    Some(self@[key@])
                } else {
                    None
                },
            ),
    {
        match self.find(key) {
            None => Err(GetError::Undefined),
            Some(i) => match &self.entries[i].1 {
                Some(v) => Ok(v.duplicate()),
                None => Err(GetError::Uninitalised),
            },
        }
    }
}

/// Replacing the last binding of `key` rebinds `key` and nothing else.
pub proof fn lemma_assoc_update<'a, N>(
    entries: Seq<Binding<'a, N>>,
    j: int,
    key: &'a str,
    value: Option<Value<'a, N>>,
)
    requires
        0 <= j < entries.len(),
        entries[j].0@ == key@,
        forall|t: int| j < t < entries.len() ==> entries[t].0@ != key@,
    ensures
        assoc(entries.update(j, (key, value)), key@) == Some(value),
        forall|k: Seq<char>|
            k != key@ ==> assoc(entries.update(j, (key, value)), k) == assoc(entries, k),
    decreases entries.len(),
{
    let e2 = entries.update(j, (key, value));
    if j < entries.len() - 1 {
        assert(e2.drop_last() =~= entries.drop_last().update(j, (key, value)));
        lemma_assoc_update(entries.drop_last(), j, key, value);
        assert(e2.last() == entries.last());
    } else {
        assert(e2.drop_last() =~= entries.drop_last());
    }
    assert forall|k: Seq<char>| k != key@ implies assoc(e2, k) == assoc(entries, k) by {
        if j < entries.len() - 1 {
            assert(e2.last() == entries.last());
            assert(e2.drop_last() =~= entries.drop_last().update(j, (key, value)));
            assert(assoc(e2.drop_last(), k) == assoc(entries.drop_last(), k));
        } else {
            assert(e2.last() == (key, value));
            assert(entries.last() == entries[j]);
            assert(e2.drop_last() =~= entries.drop_last());
        }
    }
}

/// The variables in force: a stack of scopes, each held in an arena so
/// that functions can keep the scope they close over.
pub struct Environment<'a, N> {
    heap: Vec<Scope<'a, N>>,
    scopes: Vec<usize>,
}

impl<'a, N> View for Environment<'a, N> {
    type V = SEnv<'a, N>;

    closed spec fn view(&self) -> SEnv<'a, N> {
        SEnv { heap: self.heap@.map_values(|s: Scope<'a, N>| s@), stack: self.scopes@ }
    }
}

impl<'a, N: Copy> Environment<'a, N> {
    /// An environment holding one scope, in which the host's functions are
    /// defined.
    pub fn new() -> (res: Self)
        ensures
            res@ == initial_env::<'a, N>(),
            res@.wf(),
    {
        let mut env = Environment { heap: vec![Scope::new()], scopes: vec![0] };
        proof {
            assert(env@.heap =~= seq![Map::<Seq<char>, Slot<'a, N>>::empty()]);
        }
        crate::evaluator::globals::define_globals(&mut env);
        proof {
            assert(env@.heap =~= initial_env::<'a, N>().heap);
            assert(env@.stack =~= initial_env::<'a, N>().stack);
        }
        env
    }

    /// Creates an empty scope and enters it.
    pub fn narrow(&mut self)
        requires
            old(self)@.wf(),
        ensures
            final(self)@ == old(self)@.narrow(),
            final(self)@.wf(),
    {
        let s = Scope::new();
        let n = self.heap.len();
        self.heap.push(s);
        self.scopes.push(n);
        proof {
            assert(self@.heap =~= old(self)@.narrow().heap);
            assert(self@.stack =~= old(self)@.narrow().stack);
        }
    }

    /// Enters the existing scope `scope`.
    pub fn push(&mut self, scope: usize)
        requires
            old(self)@.wf(),
            scope < old(self)@.heap.len(),
        ensures
            final(self)@ == old(self)@.enter(scope),
            final(self)@.wf(),
    {
        self.scopes.push(scope);
        proof {
            assert(self@.heap =~= old(self)@.heap);
            assert(self@.stack =~= old(self)@.enter(scope).stack);
        }
    }

    /// Leaves the innermost scope and returns it.
    pub fn pop(&mut self) -> (res: usize)
        requires
            old(self)@.stack.len() > 1,
            old(self)@.wf(),
        ensures
            final(self)@ == old(self)@.leave(),
            final(self)@.wf(),
            res == old(self)@.top(),
    {
        let r = self.scopes.pop().unwrap();
        proof {
            assert(self@.heap =~= old(self)@.heap);
            assert(self@.stack =~= old(self)@.leave().stack);
        }
        r
    }

    /// The innermost scope.
    pub fn top(&self) -> (res: usize)
        requires
            self@.wf(),
        ensures
            res == self@.top(),
            res < self@.heap.len(),
    {
        self.scopes[self.scopes.len() - 1]
    }

    /// Binds `name` in the innermost scope.
    pub fn define(&mut self, name: &'a str, value: Option<Value<'a, N>>)
        requires
            old(self)@.wf(),
            value matches Some(v) ==> svalue_wf(v@, old(self)@.heap.len()),
        ensures
            final(self)@ == old(self)@.define(name@, slot_of(value)),
            final(self)@.wf(),
    {
        let top = self.scopes[self.scopes.len() - 1];
        self.insert_into(top, name, value);
    }

    /// Binds `name` in the scope `h`.
    fn insert_into(&mut self, h: usize, name: &'a str, value: Option<Value<'a, N>>)
        requires
            old(self)@.wf(),
            h < old(self)@.heap.len(),
            value matches Some(v) ==> svalue_wf(v@, old(self)@.heap.len()),
        ensures
            final(self)@ == (SEnv {
                heap: old(self)@.heap.update(h as int, old(self)@.heap[h as int].insert(name@, slot_of(value))),
                stack: old(self)@.stack,
            }),
            final(self)@.wf(),
    {
        let mut scope = Scope::new();
        std::mem::swap(&mut scope, &mut self.heap[h]);
        scope.insert(name, value);
        std::mem::swap(&mut scope, &mut self.heap[h]);
        proof {
            assert(self@.heap =~= old(self)@.heap.update(h as int, old(self)@.heap[h as int].insert(name@, slot_of(value))));
        }
    }

    /// Assigns `value` to `name` in the innermost scope that defines it;
    /// fails, changing nothing, when no scope in force defines it.
    pub fn update(&mut self, name: &'a str, value: Value<'a, N>) -> (res: Result<(), ()>)
        requires
            old(self)@.wf(),
            svalue_wf(value@, old(self)@.heap.len()),
        ensures
            final(self)@.wf(),
            res is Ok <==> old(self)@.assign(name@, value@) is Some,
            final(self)@ == match old(self)@.assign(name@, value@) {
                Some(env) => env,
                None => old(self)@,
            },
    {
        let mut i = self.scopes.len();
        proof {
            assert(self@.stack.take(i as int) =~= self@.stack);
        }
        while i > 0
            invariant
                *self == *old(self),
                self@.wf(),
                svalue_wf(value@, self@.heap.len()),
                i <= self@.stack.len(),
                defining_scope(self@.heap, self@.stack, name@) == defining_scope(
                    self@.heap,
                    self@.stack.take(i as int),
                    name@,
                ),
            decreases i,
        {
            let h = self.scopes[i - 1];
            proof {
                assert(self@.stack.take(i as int).drop_last() =~= self@.stack.take(i - 1));
                assert(self@.stack.take(i as int).last() == h);
                assert(self@.stack[i - 1] == h);
            }
            if self.heap[h].contains_key(name) {
                self.insert_into(h, name, Some(value));
                return Ok(());
            }
            i = i - 1;
        }
        Err(())
    }

    /// The value of `name` in the scopes in force.
    pub fn get(&self, name: &'a str) -> (res: Result<Value<'a, N>, GetError>)
        requires
            self@.wf(),
        ensures
            read_view(res) == lookup_result(self@.lookup(name@)),
    {
        let mut i = self.scopes.len();
        proof {
            assert(self@.stack.take(i as int) =~= self@.stack);
        }
        while i > 0
            invariant
                self@.wf(),
                i <= self@.stack.len(),
                defining_scope(self@.heap, self@.stack, name@) == defining_scope(
                    self@.heap,
                    self@.stack.take(i as int),
                    name@,
                ),
            decreases i,
        {
            let h = self.scopes[i - 1];
            proof {
                assert(self@.stack.take(i as int).drop_last() =~= self@.stack.take(i - 1));
                assert(self@.stack.take(i as int).last() == h);
                assert(self@.stack[i - 1] == h);
            }
            let value = self.heap[h].get(name);
            match value {
                Err(GetError::Undefined) => {},
                _ => {
                    return value;
                },
            }
            i = i - 1;
        }
        Err(GetError::Undefined)
    }

    /// Binds `name` to `value` in the outermost scope.
    pub fn add_global(&mut self, name: &'a str, value: Value<'a, N>)
        requires
            old(self)@.wf(),
            svalue_wf(value@, old(self)@.heap.len()),
        ensures
            final(self)@ == (SEnv {
                heap: old(self)@.heap.update(
                    old(self)@.stack[0] as int,
                    old(self)@.heap[old(self)@.stack[0] as int].insert(name@, Some(value@)),
                ),
                stack: old(self)@.stack,
            }),
            final(self)@.wf(),
    {
        let g = self.scopes[0];
        self.insert_into(g, name, Some(value));
    }
}

} // verus!
