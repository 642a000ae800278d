use vstd::prelude::*;

use crate::ast::{clone_value, RuntimeValue, ValueV};
use crate::error::{ErrorV, RuntimeError};

verus! {

/// The bindings of one scope, in the order they were made.
pub type ScopeV = Seq<(Seq<char>, ValueV)>;

pub open spec fn scope_view(s: Seq<(String, RuntimeValue)>) -> ScopeV {
    s.map_values(|b: (String, RuntimeValue)| (b.0@, b.1@))
}

/// The value that `name` has in `scope`.
pub open spec fn scope_find(scope: ScopeV, name: Seq<char>) -> Option<ValueV>
    decreases scope.len(),
{
    if scope.len() == 0 {
        None
    } else if scope[0].0 == name {
        Some(scope[0].1)
    } else {
        scope_find(scope.drop_first(), name)
    }
}

/// The value of `name`: in the innermost scope that binds it.
pub open spec fn env_lookup(env: Seq<ScopeV>, name: Seq<char>) -> Option<ValueV>
    decreases env.len(),
{
    if env.len() == 0 {
        None
    } else {
        match scope_find(env.last(), name) {
            Some(v) => Some(v),
            None => env_lookup(env.drop_last(), name),
        }
    }
}

pub open spec fn scope_define(scope: ScopeV, name: Seq<char>, v: ValueV) -> Result<ScopeV, ErrorV> {
    if scope_find(scope, name) is Some {
        Err(ErrorV::AlreadyDefined { name })
    } else {
        Ok(scope.push((name, v)))
    }
}

/// Binds `name` in the innermost scope, unless that scope binds it already
/// (in a new scope where there is none).
pub open spec fn env_define(env: Seq<ScopeV>, name: Seq<char>, v: ValueV) -> Result<
    Seq<ScopeV>,
    ErrorV,
> {
    if env.len() == 0 {
        Ok(seq![seq![(name, v)]])
    } else {
        match scope_define(env.last(), name, v) {
            Ok(s) => Ok(env.update(env.len() - 1, s)),
            Err(e) => Err(e),
        }
    }
}

pub proof fn lemma_scope_find_push(scope: ScopeV, b: (Seq<char>, ValueV), name: Seq<char>)
    ensures
        scope_find(scope.push(b), name) == match scope_find(scope, name) {
            Some(x) => Some(x),
            None => if b.0 == name {
                Some(b.1)
            } else {
                None
            },
        },
    decreases scope.len(),
{
    if scope.len() > 0 {
        assert(scope.push(b)[0] == scope[0]);
        assert(scope.push(b).drop_first() =~= scope.drop_first().push(b));
        lemma_scope_find_push(scope.drop_first(), b, name);
    } else {
        assert(scope.push(b)[0] == b);
        assert(scope.push(b).drop_first() =~= Seq::<(Seq<char>, ValueV)>::empty());
        assert(scope_find(Seq::<(Seq<char>, ValueV)>::empty(), name) is None);
    }
}

/// Read after write: once `name` is defined, looking it up gives the value
/// it was defined with.
pub proof fn lemma_define_then_lookup(env: Seq<ScopeV>, name: Seq<char>, v: ValueV)
    requires
        env_define(env, name, v) is Ok,
    ensures
        env_lookup(env_define(env, name, v)->Ok_0, name) == Some(v),
{
    let e2 = env_define(env, name, v)->Ok_0;
    if env.len() == 0 {
        assert(e2.last() == seq![(name, v)]);
        assert(seq![(name, v)][0].0 == name);
    } else {
        lemma_scope_find_push(env.last(), (name, v), name);
        assert(e2.last() == env.last().push((name, v)));
    }
}

/// A definition leaves the value of every other name as it was.
pub proof fn lemma_define_keeps_others(env: Seq<ScopeV>, name: Seq<char>, v: ValueV, other: Seq<char>)
    requires
        env_define(env, name, v) is Ok,
        other != name,
    ensures
        env_lookup(env_define(env, name, v)->Ok_0, other) == env_lookup(env, other),
{
    let e2 = env_define(env, name, v)->Ok_0;
    if env.len() == 0 {
        assert(e2.last() == seq![(name, v)]);
        assert(seq![(name, v)].drop_first() =~= Seq::<(Seq<char>, ValueV)>::empty());
        assert(scope_find(Seq::<(Seq<char>, ValueV)>::empty(), other) is None);
        assert(scope_find(e2.last(), other) is None);
        assert(e2.drop_last() =~= Seq::<ScopeV>::empty());
        assert(env_lookup(e2.drop_last(), other) is None);
    } else {
        lemma_scope_find_push(env.last(), (name, v), other);
        assert(e2.last() == env.last().push((name, v)));
        assert(scope_find(e2.last(), other) == scope_find(env.last(), other));
        assert(e2.drop_last() =~= env.drop_last());
    }
}

/// A name cannot be defined twice in the same scope: the second definition
/// fails with `AlreadyDefined` and changes nothing.
pub proof fn lemma_define_twice(env: Seq<ScopeV>, name: Seq<char>, v: ValueV, w: ValueV)
    requires
        env_define(env, name, v) is Ok,
    ensures
        env_define(env_define(env, name, v)->Ok_0, name, w) == Err::<Seq<ScopeV>, ErrorV>(
            ErrorV::AlreadyDefined { name },
        ),
{
    let e2 = env_define(env, name, v)->Ok_0;
    if env.len() == 0 {
        assert(e2.last() == seq![(name, v)]);
        assert(seq![(name, v)][0].0 == name);
    } else {
        lemma_scope_find_push(env.last(), (name, v), name);
        assert(e2.last() == env.last().push((name, v)));
    }
}

/// A new inner scope sees every binding of the scopes around it.
pub proof fn lemma_child_sees_parent(env: Seq<ScopeV>, name: Seq<char>)
    ensures
        env_lookup(env.push(Seq::empty()), name) == env_lookup(env, name),
{
    assert(env.push(Seq::<(Seq<char>, ValueV)>::empty()).drop_last() =~= env);
}

/// A name bound in the innermost scope hides every outer binding of it.
pub proof fn lemma_inner_scope_shadows(env: Seq<ScopeV>, scope: ScopeV, name: Seq<char>)
    requires
        scope_find(scope, name) is Some,
    ensures
        env_lookup(env.push(scope), name) == scope_find(scope, name),
{
    assert(env.push(scope).last() == scope);
}

/// The variables of a running program: a stack of scopes, the innermost last.
#[derive(Debug)]
pub struct Environment {
    scopes: Vec<Vec<(String, RuntimeValue)>>,
}

impl View for Environment {
    type V = Seq<ScopeV>;

    closed spec fn view(&self) -> Seq<ScopeV> {
        self.scopes@.map_values(|s: Vec<(String, RuntimeValue)>| scope_view(s@))
    }
}

pub(crate) fn find_in_scope(scope: &Vec<(String, RuntimeValue)>, name: &String) -> (r: Option<usize>)
    ensures
        match scope_find(scope_view(scope@), name@) {
            Some(v) => r matches Some(i) && i < scope@.len() && scope@[i as int].1@ == v,
            None => r is None,
        },
{
    let ghost sv = scope_view(scope@);
    assert(sv.skip(0) =~= sv);
    let mut i: usize = 0;
    while i < scope.len()
        invariant
            i <= scope@.len(),
            sv == scope_view(scope@),
            scope_find(sv, name@) == scope_find(sv.skip(i as int), name@),
        decreases scope.len() - i,
    {
        assert(sv.skip(i as int)[0] == sv[i as int]);
        assert(sv.skip(i as int).drop_first() =~= sv.skip(i + 1));
        if scope[i].0.eq(name) {
            return Some(i);
        }
        i = i + 1;
    }
    assert(sv.skip(i as int) =~= Seq::<(Seq<char>, ValueV)>::empty());
    None
}

impl Environment {
    /// The outermost environment: one empty scope.
    pub fn new() -> (r: Self)
        ensures
            r@ == seq![Seq::<(Seq<char>, ValueV)>::empty()],
    {
        let mut scopes: Vec<Vec<(String, RuntimeValue)>> = Vec::new();
        scopes.push(Vec::new());
        let r = Environment { scopes };
        assert(scope_view(r.scopes@[0]@) =~= Seq::<(Seq<char>, ValueV)>::empty());
        assert(r@ =~= seq![Seq::<(Seq<char>, ValueV)>::empty()]);
        r
    }

    /// An environment whose innermost scope is new and empty, inside `parent`.
    ///
    /// The child owns the scopes of `parent`: what is defined in them through
    /// the child stays there, and the child is the only way left to reach
    /// them. (A lock shared between threads, which would let the parent go on
    /// defining while the child exists, is not something this library
    /// verifies; see [`crate::semantics::builtin_start_coroutine`].)
    pub fn child(parent: Environment) -> (r: Self)
        ensures
            r@ == parent@.push(Seq::empty()),
    {
        let mut parent = parent;
        parent.push_scope(Vec::new());
        proof {
            assert(scope_view(Seq::<(String, RuntimeValue)>::empty()) =~= Seq::empty());
        }
        parent
    }

    pub fn define(&mut self, name: String, value: RuntimeValue) -> (r: Result<(), RuntimeError>)
        ensures
            match env_define(old(self)@, name@, value@) {
                Ok(e) => r is Ok && final(self)@ == e,
                Err(x) => r is Err && r->Err_0@ == x && final(self)@ == old(self)@,
            },
    {
        if self.scopes.len() == 0 {
            let mut scope = Vec::new();
            scope.push((name, value));
            assert(scope_view(scope@) =~= seq![(name@, value@)]);
            self.scopes.push(scope);
            assert(self@ =~= seq![seq![(name@, value@)]]);
            return Ok(());
        }
        let last = self.scopes.len() - 1;
        let ghost old_view = self@;
        assert(old_view.last() == scope_view(self.scopes@[last as int]@));
        if find_in_scope(&self.scopes[last], &name).is_some() {
            return Err(RuntimeError::AlreadyDefined { name });
        }
        let mut scope = Vec::new();
        std::mem::swap(&mut scope, &mut self.scopes[last]);
        let ghost sv = scope_view(scope@);
        scope.push((name, value));
        assert(scope_view(scope@) =~= sv.push((name@, value@)));
        self.scopes.set(last, scope);
        assert(self@ =~= old_view.update(last as int, sv.push((name@, value@))));
        Ok(())
    }

    pub fn get(&self, name: &str) -> (r: RuntimeValue)
        ensures
            r@ == match env_lookup(self@, name@) {
                Some(v) => v,
                None => ValueV::Null,
            },
    {
        match self.try_get(name) {
            Some(v) => v,
            None => RuntimeValue::Null,
        }
    }

    pub fn try_get(&self, name: &str) -> (r: Option<RuntimeValue>)
        ensures
            match env_lookup(self@, name@) {
                Some(v) => r matches Some(x) && x@ == v,
                None => r is None,
            },
    {
        let key = String::from_str(name);
        self.lookup(&key)
    }

    pub(crate) fn lookup(&self, name: &String) -> (r: Option<RuntimeValue>)
        ensures
            match env_lookup(self@, name@) {
                Some(v) => r matches Some(x) && x@ == v,
                None => r is None,
            },
    {
        let ghost ev = self@;
        let mut i: usize = self.scopes.len();
        assert(ev.take(i as int) =~= ev);
        while i > 0
            invariant
                i <= self.scopes@.len(),
                ev == self@,
                env_lookup(ev, name@) == env_lookup(ev.take(i as int), name@),
            decreases i,
        {
            let ghost sub = ev.take(i as int);
            assert(sub.last() == scope_view(self.scopes@[i - 1]@));
            assert(sub.drop_last() =~= ev.take(i - 1));
            match find_in_scope(&self.scopes[i - 1], name) {
                Some(j) => {
                    return Some(clone_value(&self.scopes[i - 1][j].1));
                },
                None => {},
            }
            i = i - 1;
        }
        assert(ev.take(0) =~= Seq::<ScopeV>::empty());
        None
    }

    pub(crate) fn push_scope(&mut self, scope: Vec<(String, RuntimeValue)>)
        ensures
            final(self)@ == old(self)@.push(scope_view(scope@)),
    {
        let ghost old_view = self@;
        self.scopes.push(scope);
        assert(self@ =~= old_view.push(scope_view(scope@)));
    }

    pub(crate) fn pop_scope(&mut self)
        requires
            old(self)@.len() >= 1,
        ensures
            final(self)@ == old(self)@.drop_last(),
    {
        let ghost old_view = self@;
        self.scopes.pop();
        assert(self@ =~= old_view.drop_last());
    }

    /// A copy with the same scopes and bindings.
    pub fn snapshot(&self) -> (r: Environment)
        ensures
            r@ == self@,
    {
        let mut scopes: Vec<Vec<(String, RuntimeValue)>> = Vec::new();
        let mut i: usize = 0;
        while i < self.scopes.len()
            invariant
                i <= self.scopes@.len(),
                scopes@.len() == i,
                forall|j: int| 0 <= j < i ==> scope_view(#[trigger] scopes@[j]@) == scope_view(
                    self.scopes@[j]@,
                ),
            decreases self.scopes.len() - i,
        {
            let src = &self.scopes[i];
            let mut copy: Vec<(String, RuntimeValue)> = Vec::new();
            let mut k: usize = 0;
            while k < src.len()
                invariant
                    k <= src@.len(),
                    copy@.len() == k,
                    forall|j: int| 0 <= j < k ==> (#[trigger] copy@[j]).0@ == src@[j].0@ && copy@[j].1@
                        == src@[j].1@,
                decreases src.len() - k,
            {
                copy.push((src[k].0.clone(), clone_value(&src[k].1)));
                k = k + 1;
            }
            assert(scope_view(copy@) =~= scope_view(src@));
            scopes.push(copy);
            i = i + 1;
        }
        let r = Environment { scopes };
        assert(r@ =~= self@);
        r
    }
}

} // verus!
