//! The environment chain: a stack of scopes, innermost last.  A lookup
//! walks the stack from the innermost scope outward and takes the newest
//! binding of the name; `define` always writes into the innermost scope;
//! `assign` mutates the newest reachable binding and fails exactly when
//! the name is bound nowhere.

use vstd::prelude::*;

verus! {

use vstd::pervasive::VecAdditionalExecFns;
use crate::errors::{MyError, VErr};
use crate::tokens::{Token, Type, VType, type_view, type_dup};

/// The mirror of one scope: bindings in the order they were written.
pub open spec fn scope_view(s: Seq<(String, Type)>) -> Seq<(Seq<char>, VType)> {
    Seq::new(
        s.len(),
        |i: int|
            if 0 <= i < s.len() {
                (s[i].0@, type_view(s[i].1))
            } else {
                arbitrary()
            },
    )
}

/// The mirror of a whole stack of scopes.
pub open spec fn scopes_v(v: Seq<Vec<(String, Type)>>) -> Seq<Seq<(Seq<char>, VType)>> {
    Seq::new(
        v.len(),
        |i: int|
            if 0 <= i < v.len() {
                scope_view(v[i]@)
            } else {
                arbitrary()
            },
    )
}

/// The newest binding of `name` in one scope.
pub open spec fn scope_find(s: Seq<(Seq<char>, VType)>, name: Seq<char>) -> Option<VType>
    decreases s.len(),
{
    if s.len() == 0 {
        None
    } else if s.last().0 == name {
        Some(s.last().1)
    } else {
        scope_find(s.drop_last(), name)
    }
}

/// The index of the newest binding of `name` in one scope, or minus one.
pub open spec fn scope_pos(s: Seq<(Seq<char>, VType)>, name: Seq<char>) -> int
    decreases s.len(),
{
    if s.len() == 0 {
        -1
    } else if s.last().0 == name {
        s.len() - 1
    } else {
        scope_pos(s.drop_last(), name)
    }
}

/// The binding of `name` that a lookup sees: the newest one of the
/// innermost scope that has any.
pub open spec fn env_find(e: Seq<Seq<(Seq<char>, VType)>>, name: Seq<char>) -> Option<VType>
    decreases e.len(),
{
    if e.len() == 0 {
        None
    } else {
        match scope_find(e.last(), name) {
            Some(v) => Some(v),
            None => env_find(e.drop_last(), name),
        }
    }
}

/// Whether `name` is reachable anywhere in the chain.
pub open spec fn env_has(e: Seq<Seq<(Seq<char>, VType)>>, name: Seq<char>) -> bool {
    env_find(e, name) is Some
}

/// The index of the innermost scope that binds `name`, or minus one.
pub open spec fn env_scope_pos(e: Seq<Seq<(Seq<char>, VType)>>, name: Seq<char>) -> int
    decreases e.len(),
{
    if e.len() == 0 {
        -1
    } else if scope_find(e.last(), name) is Some {
        e.len() - 1
    } else {
        env_scope_pos(e.drop_last(), name)
    }
}

/// The chain after `define`: the binding appended to the innermost scope.
pub open spec fn env_define(
    e: Seq<Seq<(Seq<char>, VType)>>,
    name: Seq<char>,
    v: VType,
) -> Seq<Seq<(Seq<char>, VType)>>
    recommends
        e.len() > 0,
{
    e.update(e.len() - 1, e.last().push((name, v)))
}

/// The chain after a successful `assign`: the newest reachable binding of
/// `name` overwritten in place.
pub open spec fn env_assign(
    e: Seq<Seq<(Seq<char>, VType)>>,
    name: Seq<char>,
    v: VType,
) -> Seq<Seq<(Seq<char>, VType)>>
    recommends
        env_has(e, name),
{
    let k = env_scope_pos(e, name);
    let p = scope_pos(e[k], name);
    e.update(k, e[k].update(p, (name, v)))
}

/// A found position within a scope names the sought binding.
pub proof fn lemma_scope_pos(s: Seq<(Seq<char>, VType)>, name: Seq<char>)
    ensures
        (scope_find(s, name) is Some) == (0 <= scope_pos(s, name) && scope_pos(s, name)
            < s.len()),
        scope_find(s, name) is None ==> scope_pos(s, name) == -1,
        scope_find(s, name) is Some ==> s[scope_pos(s, name)].0 == name && scope_find(s, name)
            == Some(s[scope_pos(s, name)].1),
    decreases s.len(),
{
    if s.len() == 0 {
        assert(scope_find(s, name) is None);
        assert(scope_pos(s, name) == -1);
    } else if s.last().0 == name {
        assert(scope_find(s, name) == Some(s.last().1));
        assert(scope_pos(s, name) == s.len() - 1);
        assert(s[s.len() - 1] == s.last());
    } else {
        lemma_scope_pos(s.drop_last(), name);
        assert(scope_find(s, name) == scope_find(s.drop_last(), name));
        assert(scope_pos(s, name) == scope_pos(s.drop_last(), name));
        let p = scope_pos(s.drop_last(), name);
        if 0 <= p < s.drop_last().len() {
            assert(s.drop_last()[p] == s[p]);
        }
        assert(s.drop_last().len() == s.len() - 1);
    }
}

/// A found scope index names a scope that binds the sought name.
pub proof fn lemma_env_pos(e: Seq<Seq<(Seq<char>, VType)>>, name: Seq<char>)
    ensures
        (env_find(e, name) is Some) == (0 <= env_scope_pos(e, name) && env_scope_pos(e, name)
            < e.len()),
        env_find(e, name) is None ==> env_scope_pos(e, name) == -1,
        env_find(e, name) is Some ==> scope_find(e[env_scope_pos(e, name)], name) == env_find(
            e,
            name,
        ),
    decreases e.len(),
{
    if e.len() > 0 && scope_find(e.last(), name) is None {
        lemma_env_pos(e.drop_last(), name);
        let k = env_scope_pos(e.drop_last(), name);
        if 0 <= k < e.drop_last().len() {
            assert(e.drop_last()[k] == e[k]);
        }
    }
}

/// A lookup fails exactly when no scope of the chain binds the name.
pub proof fn lemma_env_find_none(e: Seq<Seq<(Seq<char>, VType)>>, name: Seq<char>)
    ensures
        (env_find(e, name) is None) <==> (forall|k: int|
            0 <= k < e.len() ==> scope_find(e[k], name) is None),
    decreases e.len(),
{
    if e.len() > 0 {
        lemma_env_find_none(e.drop_last(), name);
        if env_find(e, name) is None {
            assert forall|k: int| 0 <= k < e.len() implies scope_find(e[k], name) is None by {
                if k < e.len() - 1 {
                    assert(e.drop_last()[k] == e[k]);
                }
            }
        }
    }
}

/// The environment chain as the interpreter holds it: scope zero is the
/// global scope, the last scope is the active innermost one.
#[derive(Debug)]
pub struct Environment {
    pub scopes: Vec<Vec<(String, Type)>>,
}

impl View for Environment {
    type V = Seq<Seq<(Seq<char>, VType)>>;

    open spec fn view(&self) -> Seq<Seq<(Seq<char>, VType)>> {
        scopes_v(self.scopes@)
    }
}

fn scope_find_exec(s: &Vec<(String, Type)>, j: usize, name: &String) -> (r: Option<Type>)
    requires
        j <= s@.len(),
    ensures
        match r {
            Some(t) => scope_find(scope_view(s@).subrange(0, j as int), name@) == Some(
                type_view(t),
            ),
            None => scope_find(scope_view(s@).subrange(0, j as int), name@) is None,
        },
    decreases j,
{
    if j == 0 {
        proof {
            assert(scope_view(s@).subrange(0, 0) =~= Seq::<(Seq<char>, VType)>::empty());
        }
        None
    } else {
        let pair = &s[j - 1];
        proof {
            assert(scope_view(s@).subrange(0, j as int).last() == scope_view(s@)[j - 1]);
            assert(scope_view(s@).subrange(0, j as int).drop_last() =~= scope_view(s@).subrange(
                0,
                j - 1,
            ));
        }
        if pair.0.eq(name) {
            Some(type_dup(&pair.1))
        } else {
            scope_find_exec(s, j - 1, name)
        }
    }
}

fn scopes_find_exec(scopes: &Vec<Vec<(String, Type)>>, k: usize, name: &String) -> (r: Option<
    Type,
>)
    requires
        k <= scopes@.len(),
    ensures
        match r {
            Some(t) => env_find(scopes_v(scopes@).subrange(0, k as int), name@) == Some(
                type_view(t),
            ),
            None => env_find(scopes_v(scopes@).subrange(0, k as int), name@) is None,
        },
    decreases k,
{
    if k == 0 {
        proof {
            assert(scopes_v(scopes@).subrange(0, 0) =~= Seq::<Seq<(Seq<char>, VType)>>::empty());
        }
        None
    } else {
        let sc = &scopes[k - 1];
        proof {
            assert(scopes_v(scopes@).subrange(0, k as int).last() == scopes_v(scopes@)[k - 1]);
            assert(scopes_v(scopes@).subrange(0, k as int).drop_last() =~= scopes_v(
                scopes@,
            ).subrange(0, k - 1));
            assert(scope_view(sc@).subrange(0, sc@.len() as int) =~= scope_view(sc@));
        }
        match scope_find_exec(sc, sc.len(), name) {
            Some(t) => Some(t),
            None => scopes_find_exec(scopes, k - 1, name),
        }
    }
}

fn scope_pos_exec(s: &Vec<(String, Type)>, j: usize, name: &String) -> (r: Option<usize>)
    requires
        j <= s@.len(),
    ensures
        match r {
            Some(p) => p < j && scope_pos(scope_view(s@).subrange(0, j as int), name@) == p as int,
            None => scope_pos(scope_view(s@).subrange(0, j as int), name@) == -1,
        },
    decreases j,
{
    if j == 0 {
        proof {
            assert(scope_view(s@).subrange(0, 0) =~= Seq::<(Seq<char>, VType)>::empty());
        }
        None
    } else {
        let pair = &s[j - 1];
        proof {
            assert(scope_view(s@).subrange(0, j as int).last() == scope_view(s@)[j - 1]);
            assert(scope_view(s@).subrange(0, j as int).drop_last() =~= scope_view(s@).subrange(
                0,
                j - 1,
            ));
        }
        if pair.0.eq(name) {
            Some(j - 1)
        } else {
            scope_pos_exec(s, j - 1, name)
        }
    }
}

fn locate_exec(scopes: &Vec<Vec<(String, Type)>>, k: usize, name: &String) -> (r: Option<(
    usize,
    usize,
)>)
    requires
        k <= scopes@.len(),
    ensures
        match r {
            Some(kp) => {
                &&& kp.0 < k
                &&& env_scope_pos(scopes_v(scopes@).subrange(0, k as int), name@) == kp.0 as int
                &&& kp.1 < scopes@[kp.0 as int]@.len()
                &&& scope_pos(scope_view(scopes@[kp.0 as int]@), name@) == kp.1 as int
            },
            None => env_scope_pos(scopes_v(scopes@).subrange(0, k as int), name@) == -1,
        },
    decreases k,
{
    if k == 0 {
        proof {
            assert(scopes_v(scopes@).subrange(0, 0) =~= Seq::<Seq<(Seq<char>, VType)>>::empty());
        }
        None
    } else {
        let sc = &scopes[k - 1];
        proof {
            assert(scopes_v(scopes@).subrange(0, k as int).last() == scopes_v(scopes@)[k - 1]);
            assert(scopes_v(scopes@).subrange(0, k as int).drop_last() =~= scopes_v(
                scopes@,
            ).subrange(0, k - 1));
            assert(scope_view(sc@).subrange(0, sc@.len() as int) =~= scope_view(sc@));
            lemma_scope_pos(scope_view(sc@), name@);
        }
        match scope_pos_exec(sc, sc.len(), name) {
            Some(p) => Some((k - 1, p)),
            None => locate_exec(scopes, k - 1, name),
        }
    }
}

impl Environment {
    /// A fresh chain holding one empty scope: the globals.
    pub fn new() -> (r: Environment)
        ensures
            r@.len() == 1,
            r@[0].len() == 0,
    {
        let mut scopes: Vec<Vec<(String, Type)>> = Vec::new();
        scopes.push(Vec::new());
        Environment { scopes }
    }

    /// Opens a fresh innermost scope.
    pub fn push_scope(&mut self)
        ensures
            final(self)@ == old(self)@.push(Seq::<(Seq<char>, VType)>::empty()),
    {
        self.scopes.push(Vec::new());
        proof {
            assert(self@ =~~= old(self)@.push(Seq::<(Seq<char>, VType)>::empty()));
        }
    }

    /// Closes the innermost scope.
    pub fn pop_scope(&mut self)
        requires
            old(self)@.len() > 0,
        ensures
            final(self)@ == old(self)@.drop_last(),
    {
        let _ = self.scopes.pop();
        proof {
            assert(self@ =~~= old(self)@.drop_last());
        }
    }

    /// Writes a binding into the innermost scope, unconditionally.  It
    /// never fails: a name already bound there is shadowed by the newer
    /// binding.
    pub fn define(&mut self, name: &String, value: &Type)
        requires
            old(self)@.len() >= 1,
        ensures
            final(self)@ == env_define(old(self)@, name@, type_view(*value)),
    {
        let mut last = self.scopes.pop().unwrap();
        last.push((name.clone(), type_dup(value)));
        self.scopes.push(last);
        proof {
            assert(scope_view(last@) =~= old(self)@.last().push((name@, type_view(*value))));
            assert(self@ =~~= env_define(old(self)@, name@, type_view(*value)));
        }
    }

    /// Swaps the chain to a call activation: the globals plus one fresh
    /// frame; the local scopes of the caller are handed back for
    /// restoration.
    pub fn enter_function(&mut self) -> (saved: Vec<Vec<(String, Type)>>)
        requires
            old(self)@.len() >= 1,
        ensures
            final(self)@ == seq![old(self)@[0], Seq::<(Seq<char>, VType)>::empty()],
            scopes_v(saved@) == old(self)@.subrange(1, old(self)@.len() as int),
    {
        let saved = self.scopes.split_off(1);
        self.scopes.push(Vec::new());
        proof {
            assert(self@ =~~= seq![
                old(self)@[0],
                Seq::<(Seq<char>, VType)>::empty(),
            ]);
            assert(scopes_v(saved@) =~~= old(self)@.subrange(1, old(self)@.len() as int));
        }
        saved
    }

    /// Restores the caller's local scopes after a call, keeping whatever
    /// the call did to the globals.
    pub fn exit_function(&mut self, saved: Vec<Vec<(String, Type)>>)
        requires
            old(self)@.len() >= 1,
        ensures
            final(self)@ == seq![old(self)@[0]] + scopes_v(saved@),
    {
        self.scopes.truncate(1);
        let mut rest = saved;
        self.scopes.append(&mut rest);
        proof {
            assert(self@ =~~= seq![old(self)@[0]] + scopes_v(saved@));
        }
    }

    /// Reads the newest reachable binding of the token's name, walking the
    /// chain from the innermost scope outward; unbound names report
    /// exactly an unbound-variable error.
    pub fn get(&self, name: &Token) -> (r: Result<Type, MyError>)
        ensures
            match env_find(self@, name.lexeme@) {
                Some(v) => r matches Ok(t) && type_view(t) == v,
                None => r matches Err(e) && e@ == VErr::EnValueNotFound(name.lexeme@),
            },
    {
        proof {
            assert(scopes_v(self.scopes@).subrange(0, self.scopes@.len() as int) =~= scopes_v(
                self.scopes@,
            ));
        }
        match scopes_find_exec(&self.scopes, self.scopes.len(), &name.lexeme) {
            Some(t) => Ok(t),
            None => Err(MyError::EnValueNotFoundError(name.lexeme.clone())),
        }
    }

    /// Overwrites the newest reachable binding of the token's name, or
    /// reports exactly an unbound-variable error and changes nothing.
    pub fn assign(&mut self, name: &Token, value: &Type) -> (r: Result<(), MyError>)
        ensures
            env_has(old(self)@, name.lexeme@) ==> (r matches Ok(u) && final(self)@ == env_assign(
                old(self)@,
                name.lexeme@,
                type_view(*value),
            )),
            !env_has(old(self)@, name.lexeme@) ==> (r matches Err(e) && e@
                == VErr::EnValueNotFound(name.lexeme@) && final(self)@ == old(self)@),
    {
        proof {
            assert(scopes_v(self.scopes@).subrange(0, self.scopes@.len() as int) =~= scopes_v(
                self.scopes@,
            ));
            lemma_env_pos(self@, name.lexeme@);
        }
        match locate_exec(&self.scopes, self.scopes.len(), &name.lexeme) {
            Some(kp) => {
                let ks = kp.0;
                let p = kp.1;
                let mut tmp: Vec<(String, Type)> = Vec::new();
                self.scopes.set_and_swap(ks, &mut tmp);
                tmp.set(p, (name.lexeme.clone(), type_dup(value)));
                self.scopes.set(ks, tmp);
                proof {
                    let e = old(self)@;
                    let nm = name.lexeme@;
                    let v = type_view(*value);
                    assert(scope_view(self.scopes@[ks as int]@) =~= e[ks as int].update(
                        p as int,
                        (nm, v),
                    ));
                    assert(self@ =~~= env_assign(e, nm, v));
                }
                Ok(())
            },
            None => {
                proof {
                    assert(self@ =~~= old(self)@);
                }
                Err(MyError::EnValueNotFoundError(name.lexeme.clone()))
            },
        }
    }
}

} // verus!
