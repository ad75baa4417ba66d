//! The scope chain: a mutable mapping from names to values with a link to an
//! enclosing scope. A binding holds `None` while the variable is declared but
//! not yet initialized. The model of a chain is a sequence of scopes,
//! outermost first; each scope is a sequence of bindings where the latest
//! binding of a name wins.
use crate::error::{RuntimeError, RuntimeErrorView};
use crate::text::{chars_eq, clone_chars};
use crate::token::{opt_value_view, Token, Value, ValueView};
use vstd::prelude::*;

verus! {

/// One name-to-value binding; `None` marks an uninitialized variable.
#[derive(Debug)]
pub struct Binding {
    pub name: Vec<char>,
    pub value: Option<Value>,
}

/// The model of one scope: its bindings in the order they were made.
pub type ScopeView = Seq<(Seq<char>, Option<ValueView>)>;

/// The model of a scope chain: its scopes, outermost first.
pub type EnvView = Seq<ScopeView>;

/// A lexical scope with its bindings and an optional enclosing scope.
pub struct Environment {
    pub values: Vec<Binding>,
    pub enclosing: Option<Box<Environment>>,
}

/// The model of a scope's bindings.
pub open spec fn scope_view(bs: Seq<Binding>) -> ScopeView {
    bs.map_values(|b: Binding| (b.name@, opt_value_view(b.value)))
}

/// The model of a scope chain, outermost scope first.
pub open spec fn env_view(e: Environment) -> EnvView
    decreases e,
{
    match e.enclosing {
        None => seq![scope_view(e.values@)],
        Some(enc) => env_view(*enc).push(scope_view(e.values@)),
    }
}

/// What a scope binds a name to: `None` if the scope does not bind it, and
/// otherwise the latest binding of the name.
pub open spec fn scope_find(s: ScopeView, name: Seq<char>) -> Option<Option<ValueView>>
    decreases s.len(),
{
    if s.len() == 0 {
        None
    } else if s.last().0 == name {
        Some(s.last().1)
    } else {
        scope_find(s.drop_last(), name)
    }
}

/// What a chain binds a name to: the innermost scope that binds it decides.
pub open spec fn env_find(e: EnvView, name: Seq<char>) -> Option<Option<ValueView>>
    decreases e.len(),
{
    if e.len() == 0 {
        None
    } else {
        match scope_find(e.last(), name) {
            Some(v) => Some(v),
            None => env_find(e.drop_last(), name),
        }
    }
}

/// Declaring a name: a new binding in the innermost scope, shadowing any
/// earlier binding of the same name there.
pub open spec fn env_define(e: EnvView, name: Seq<char>, v: Option<ValueView>) -> EnvView {
    e.update(e.len() - 1, e.last().push((name, v)))
}

/// Assignment within one scope: the latest binding of the name is replaced.
pub open spec fn scope_assign(s: ScopeView, name: Seq<char>, v: Option<ValueView>) -> ScopeView
    decreases s.len(),
{
    if s.len() == 0 {
        s
    } else if s.last().0 == name {
        s.update(s.len() - 1, (name, v))
    } else {
        scope_assign(s.drop_last(), name, v).push(s.last())
    }
}

/// Assignment along the chain: the innermost scope that binds the name is
/// updated in place; `None` when no scope binds it.
pub open spec fn env_assign(e: EnvView, name: Seq<char>, v: Option<ValueView>) -> Option<EnvView>
    decreases e.len(),
{
    if e.len() == 0 {
        None
    } else if scope_find(e.last(), name) is Some {
        Some(e.update(e.len() - 1, scope_assign(e.last(), name, v)))
    } else {
        match env_assign(e.drop_last(), name, v) {
            Some(e2) => Some(e2.push(e.last())),
            None => None,
        }
    }
}

/// A scope with a match at `j` and none later finds that binding.
proof fn lemma_scope_find_found(s: ScopeView, name: Seq<char>, j: int)
    requires
        0 <= j < s.len(),
        s[j].0 == name,
        forall|k: int| j < k < s.len() ==> s[k].0 != name,
    ensures
        scope_find(s, name) == Some(s[j].1),
    decreases s.len(),
{
    if j == s.len() - 1 {
    } else {
        assert(s.drop_last()[j] == s[j]);
        lemma_scope_find_found(s.drop_last(), name, j);
    }
}

/// A scope with no match finds nothing.
proof fn lemma_scope_find_missing(s: ScopeView, name: Seq<char>)
    requires
        forall|k: int| 0 <= k < s.len() ==> s[k].0 != name,
    ensures
        scope_find(s, name) is None,
    decreases s.len(),
{
    if s.len() > 0 {
        lemma_scope_find_missing(s.drop_last(), name);
    }
}

/// Assignment in a scope with a match at `j` and none later updates exactly
/// that binding.
proof fn lemma_scope_assign_found(s: ScopeView, name: Seq<char>, v: Option<ValueView>, j: int)
    requires
        0 <= j < s.len(),
        s[j].0 == name,
        forall|k: int| j < k < s.len() ==> s[k].0 != name,
    ensures
        scope_assign(s, name, v) == s.update(j, (name, v)),
    decreases s.len(),
{
    if j == s.len() - 1 {
    } else {
        assert(s.drop_last()[j] == s[j]);
        lemma_scope_assign_found(s.drop_last(), name, v, j);
        assert(s.drop_last().update(j, (name, v)).push(s.last()) =~= s.update(j, (name, v)));
    }
}

/// A chain's model always holds at least one scope, and exactly one when
/// the chain has no enclosing scope.
pub proof fn lemma_env_view_len(e: Environment)
    ensures
        env_view(e).len() >= 1,
        env_view(e).len() == 1 <==> e.enclosing is None,
    decreases e,
{
    match e.enclosing {
        None => {},
        Some(enc) => {
            lemma_env_view_len(*enc);
        },
    }
}

/// Assignment never changes how many scopes a chain has, nor how many
/// bindings each scope holds.
pub proof fn lemma_env_assign_len(e: EnvView, name: Seq<char>, v: Option<ValueView>)
    ensures
        env_assign(e, name, v) matches Some(e2) ==> e2.len() == e.len(),
    decreases e.len(),
{
    if e.len() == 0 {
    } else if scope_find(e.last(), name) is Some {
    } else {
        lemma_env_assign_len(e.drop_last(), name, v);
    }
}

/// Replacing one binding of a scope replaces one entry of its model.
proof fn lemma_scope_view_update(bs: Seq<Binding>, j: int, b: Binding)
    requires
        0 <= j < bs.len(),
    ensures
        scope_view(bs.update(j, b)) =~= scope_view(bs).update(j, (b.name@, opt_value_view(b.value))),
{
    assert forall|k: int| 0 <= k < bs.len() implies scope_view(bs.update(j, b))[k] == scope_view(
        bs,
    ).update(j, (b.name@, opt_value_view(b.value)))[k] by {
        assert(scope_view(bs.update(j, b))[k] == (
            bs.update(j, b)[k].name@,
            opt_value_view(bs.update(j, b)[k].value),
        ));
        assert(scope_view(bs)[k] == (bs[k].name@, opt_value_view(bs[k].value)));
    }
}

impl Environment {
    /// A fresh scope with no bindings, chained onto `enclosing`.
    pub fn new(enclosing: Option<Box<Environment>>) -> (r: Environment)
        ensures
            env_view(r) == match enclosing {
                None => seq![Seq::<(Seq<char>, Option<ValueView>)>::empty()],
                Some(enc) => env_view(*enc).push(Seq::empty()),
            },
    {
        let r = Environment { values: Vec::new(), enclosing };
        proof {
            assert(scope_view(r.values@) =~= Seq::<(Seq<char>, Option<ValueView>)>::empty());
        }
        r
    }

    /// Declares `name` in this scope, overwriting a declaration already made
    /// in this same scope but never one of an enclosing scope.
    pub fn define(&mut self, name: Vec<char>, value: Option<Value>)
        ensures
            env_view(*final(self)) == env_define(env_view(*old(self)), name@, opt_value_view(value)),
    {
        let ghost ghost_name = name@;
        let ghost ghost_value = opt_value_view(value);
        self.values.push(Binding { name, value });
        proof {
            assert(scope_view(self.values@) =~= scope_view(old(self).values@).push(
                (ghost_name, ghost_value),
            ));
            assert(env_view(*self) =~= env_define(env_view(*old(self)), ghost_name, ghost_value));
        }
    }

    /// Looks the name of `token` up, walking outward through the chain:
    /// undefined-variable if no scope binds it, uninitialized-variable if the
    /// innermost binding was declared without an initializer.
    pub fn get(&self, token: &Token) -> (r: Result<Value, RuntimeError>)
        ensures
            match env_find(env_view(*self), token.lexeme@) {
                Some(Some(v)) => r matches Ok(got) && got@ == v,
                Some(None) => r matches Err(e) && e@ == RuntimeErrorView::UninitializedVariable(
                    token.lexeme@,
                    token.line,
                ),
                None => r matches Err(e) && e@ == RuntimeErrorView::UndefinedVariable(
                    token.lexeme@,
                    token.line,
                ),
            },
        decreases *self,
    {
        let ghost s = scope_view(self.values@);
        let mut j: usize = self.values.len();
        while j > 0
            invariant
                0 <= j <= self.values.len(),
                s == scope_view(self.values@),
                forall|k: int| j <= k < s.len() ==> s[k].0 != token.lexeme@,
            decreases j,
        {
            j = j - 1;
            if chars_eq(&self.values[j].name, &token.lexeme) {
                proof {
                    lemma_scope_find_found(s, token.lexeme@, j as int);
                }
                match &self.values[j].value {
                    Some(v) => {
                        return Ok(v.clone());
                    },
                    None => {
                        return Err(
                            RuntimeError::UninitializedVariable(
                                clone_chars(&token.lexeme),
                                token.line,
                            ),
                        );
                    },
                }
            }
        }
        proof {
            lemma_scope_find_missing(s, token.lexeme@);
        }
        match &self.enclosing {
            Some(enc) => {
                proof {
                    assert(env_view(*self) == env_view(**enc).push(s));
                    assert(env_view(*self).last() == s);
                    assert(env_view(*self).drop_last() =~= env_view(**enc));
                }
                enc.get(token)
            },
            None => {
                proof {
                    assert(env_view(*self) == seq![s]);
                    assert(env_view(*self).drop_last().len() == 0);
                    assert(env_find(env_view(*self).drop_last(), token.lexeme@) is None);
                    assert(env_find(env_view(*self), token.lexeme@) is None);
                }
                Err(RuntimeError::UndefinedVariable(clone_chars(&token.lexeme), token.line))
            },
        }
    }

    /// Assigns to an existing binding, walking outward through the chain;
    /// assignment never creates a binding, so an unbound name is an
    /// undefined-variable error and leaves the chain unchanged.
    pub fn assign(&mut self, name: &Token, value: Option<Value>) -> (r: Result<(), RuntimeError>)
        ensures
            match env_assign(env_view(*old(self)), name.lexeme@, opt_value_view(value)) {
                Some(e2) => r matches Ok(()) && env_view(*final(self)) == e2,
                None => r matches Err(e) && e@ == RuntimeErrorView::UndefinedVariable(
                    name.lexeme@,
                    name.line,
                ) && env_view(*final(self)) == env_view(*old(self)),
            },
        decreases *old(self),
    {
        let ghost s = scope_view(self.values@);
        let ghost v = opt_value_view(value);
        let mut j: usize = self.values.len();
        while j > 0
            invariant
                0 <= j <= self.values.len(),
                s == scope_view(self.values@),
                v == opt_value_view(value),
                *self == *old(self),
                forall|k: int| j <= k < s.len() ==> s[k].0 != name.lexeme@,
            decreases j,
        {
            j = j - 1;
            if chars_eq(&self.values[j].name, &name.lexeme) {
                proof {
                    lemma_scope_find_found(s, name.lexeme@, j as int);
                    lemma_scope_assign_found(s, name.lexeme@, v, j as int);
                }
                let b = Binding { name: clone_chars(&name.lexeme), value: value };
                let ghost vals0 = self.values@;
                let ghost b0 = b;
                self.values.set(j, b);
                proof {
                    lemma_scope_view_update(vals0, j as int, b0);
                    assert(scope_view(self.values@) =~= scope_assign(s, name.lexeme@, v));
                    assert(env_view(*old(self)).last() == s);
                    assert(env_view(*self) =~= env_view(*old(self)).update(
                        env_view(*old(self)).len() - 1,
                        scope_assign(s, name.lexeme@, v),
                    ));
                }
                return Ok(());
            }
        }
        proof {
            lemma_scope_find_missing(s, name.lexeme@);
        }
        let ghost pre = *self;
        match self.enclosing.take() {
            Some(mut enc) => {
                let ghost enc_pre = *enc;
                let r = enc.assign(name, value);
                let ghost enc_post = *enc;
                self.enclosing = Some(enc);
                proof {
                    assert(env_view(pre) == env_view(enc_pre).push(s));
                    assert(env_view(pre).drop_last() =~= env_view(enc_pre));
                    assert(self.values@ == pre.values@);
                    assert(env_view(pre).last() == s);
                    match env_assign(env_view(enc_pre), name.lexeme@, v) {
                        Some(e2) => {
                            assert(env_view(enc_post) == e2);
                            assert(env_view(*self) == e2.push(s));
                            assert(env_assign(env_view(pre), name.lexeme@, v) == Some(e2.push(s)));
                            assert(r is Ok);
                        },
                        None => {
                            assert(env_view(enc_post) == env_view(enc_pre));
                            assert(env_view(*self) == env_view(pre));
                            assert(env_assign(env_view(pre), name.lexeme@, v) is None);
                            assert(r is Err);
                        },
                    }
                }
                r
            },
            None => {
                proof {
                    assert(env_view(*self) == env_view(pre));
                    assert(env_view(pre).last() == s);
                    assert(env_view(pre).drop_last().len() == 0);
                    assert(env_assign(env_view(pre).drop_last(), name.lexeme@, v) is None);
                    assert(env_assign(env_view(pre), name.lexeme@, v) is None);
                }
                Err(RuntimeError::UndefinedVariable(clone_chars(&name.lexeme), name.line))
            },
        }
    }
}

} // verus!
