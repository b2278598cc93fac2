//! The runtime mapping from variable names to values: a single flat scope.
//! `define` is an upsert — redefinition silently replaces the binding — and
//! `get` on a missing name fails with a runtime error naming the token.

use crate::error::JialoxError;
use crate::literal::LitView;
use crate::literal::Literal;
use crate::token::Token;
use vstd::prelude::*;

verus! {

/// The mapping a sequence of bindings denotes; a later binding for the
/// same name wins.
pub open spec fn env_map(s: Seq<(String, Literal)>) -> Map<Seq<char>, LitView>
    decreases s.len(),
{
    if s.len() == 0 {
        Map::empty()
    } else {
        env_map(s.drop_last()).insert(s.last().0@, s.last().1@)
    }
}

/// A binding found under a distinct-keys discipline is the binding of the
/// map.
proof fn lemma_env_map_get(s: Seq<(String, Literal)>, i: int)
    requires
        0 <= i < s.len(),
        forall|p: int, q: int| 0 <= p < q < s.len() ==> (#[trigger] s[p]).0@ != (#[trigger] s[q]).0@,
    ensures
        env_map(s).contains_key(s[i].0@),
        env_map(s)[s[i].0@] == s[i].1@,
    decreases s.len(),
{
    if i == s.len() - 1 {
    } else {
        assert(s.drop_last()[i] == s[i]);
        lemma_env_map_get(s.drop_last(), i);
        assert(s.last().0@ != s[i].0@);
    }
}

/// A name bound nowhere in the sequence is not in the map.
proof fn lemma_env_map_absent(s: Seq<(String, Literal)>, k: Seq<char>)
    requires
        forall|p: int| 0 <= p < s.len() ==> (#[trigger] s[p]).0@ != k,
    ensures
        !env_map(s).contains_key(k),
    decreases s.len(),
{
    if s.len() > 0 {
        assert(forall|p: int|
            0 <= p < s.drop_last().len() ==> (#[trigger] s.drop_last()[p]).0@ != k) by {
            assert(forall|p: int|
                0 <= p < s.drop_last().len() ==> s.drop_last()[p] == (#[trigger] s[p]));
        }
        lemma_env_map_absent(s.drop_last(), k);
    }
}

/// Replacing the one binding of a name in place denotes the same map as
/// inserting the new value.
proof fn lemma_env_map_update(s: Seq<(String, Literal)>, i: int, v: Literal)
    requires
        0 <= i < s.len(),
        forall|p: int, q: int| 0 <= p < q < s.len() ==> (#[trigger] s[p]).0@ != (#[trigger] s[q]).0@,
    ensures
        env_map(s.update(i, (s[i].0, v))) == env_map(s).insert(s[i].0@, v@),
    decreases s.len(),
{
    let t = s.update(i, (s[i].0, v));
    if i == s.len() - 1 {
        assert(t.drop_last() =~= s.drop_last());
        assert(env_map(t) =~= env_map(s).insert(s[i].0@, v@));
    } else {
        assert(t.drop_last() =~= s.drop_last().update(i, (s[i].0, v)));
        assert(s.drop_last()[i] == s[i]);
        lemma_env_map_update(s.drop_last(), i, v);
        assert(s.last().0@ != s[i].0@);
        assert(t.last() == s.last());
        assert(env_map(t) =~= env_map(s).insert(s[i].0@, v@));
    }
}

/// The variable environment of one evaluation session.
pub struct Environment {
    pub values: Vec<(String, Literal)>,
}

impl View for Environment {
    type V = Map<Seq<char>, LitView>;

    open spec fn view(&self) -> Map<Seq<char>, LitView> {
        env_map(self.values@)
    }
}

impl Environment {
    /// Names are bound at most once, and every stored value is well formed
    /// and not the internal sentinel.
    pub open spec fn wf(&self) -> bool {
        let s = self.values@;
        (forall|p: int, q: int| 0 <= p < q < s.len() ==> (#[trigger] s[p]).0@ != (#[trigger] s[q]).0@)
            && (forall|p: int|
            0 <= p < s.len() ==> (#[trigger] s[p]).1.wf() && !(s[p].1 is ArithmeticError))
    }

    pub fn new() -> (e: Environment)
        ensures
            e.wf(),
            e@ == Map::<Seq<char>, LitView>::empty(),
    {
        Environment { values: Vec::new() }
    }

    /// Binds `name` to `value`, replacing any previous binding.
    pub fn define(&mut self, name: &str, value: Literal)
        requires
            old(self).wf(),
            value.wf(),
            !(value is ArithmeticError),
        ensures
            final(self).wf(),
            final(self)@ == old(self)@.insert(name@, value@),
    {
        let key = String::from_str(name);
        let ghost orig = self.values@;
        let n = self.values.len();
        let mut i: usize = 0;
        while i < n
            invariant
                self.values@ == orig,
                orig == old(self).values@,
                old(self).wf(),
                value.wf(),
                !(value is ArithmeticError),
                n == orig.len(),
                i <= n,
                key@ == name@,
                forall|p: int| 0 <= p < i ==> (#[trigger] orig[p]).0@ != name@,
            decreases n - i,
        {
            if self.values[i].0.eq(&key) {
                let ghost iv = i as int;
                let stored_key = self.values[i].0.clone();
                self.values[i] = (stored_key, value);
                proof {
                    let t = orig.update(iv, (orig[iv].0, value));
                    assert(self.values@ =~= t);
                    lemma_env_map_update(orig, iv, value);
                    assert(forall|p: int, q: int|
                        0 <= p < q < t.len() ==> (#[trigger] t[p]).0@ != (#[trigger] t[q]).0@) by {
                        assert(forall|p: int| 0 <= p < t.len() && p != iv ==> t[p] == (
                        #[trigger] orig[p]));
                        assert(t[iv].0@ == orig[iv].0@);
                    }
                }
                return ;
            }
            i += 1;
        }
        self.values.push((String::from_str(name), value));
        proof {
            assert(self.values@.drop_last() =~= orig);
            assert(self.values@.last() == (self.values@[orig.len() as int]));
            assert(forall|p: int, q: int|
                0 <= p < q < self.values@.len() ==> (#[trigger] self.values@[p]).0@ != (
                #[trigger] self.values@[q]).0@) by {
                assert(forall|p: int|
                    0 <= p < orig.len() ==> self.values@[p] == (#[trigger] orig[p]));
                assert(self.values@[orig.len() as int].0@ == name@);
            }
        }
    }

    /// Looks the name of `name` up; an unbound name is a runtime error
    /// reading `var <name> is not defined.`.
    pub fn get(&self, name: &Token) -> (r: Result<Literal, JialoxError>)
        requires
            self.wf(),
        ensures
            match r {
                Ok(v) => self@.contains_key(name@.lexeme) && v@ == self@[name@.lexeme] && v.wf()
                    && !(v is ArithmeticError),
                Err(e) => !self@.contains_key(name@.lexeme) && e@.token == Some(name@) && e@.line
                    == name@.line && e@.message == "var "@ + name@.lexeme + " is not defined."@,
            },
    {
        let lex = name.lexeme();
        let n = self.values.len();
        let mut i: usize = 0;
        while i < n
            invariant
                self.wf(),
                n == self.values@.len(),
                i <= n,
                lex@ == name@.lexeme,
                forall|p: int| 0 <= p < i ==> (#[trigger] self.values@[p]).0@ != name@.lexeme,
            decreases n - i,
        {
            if self.values[i].0.eq(&lex) {
                proof {
                    lemma_env_map_get(self.values@, i as int);
                }
                return Ok(self.values[i].1.duplicate());
            }
            i += 1;
        }
        proof {
            lemma_env_map_absent(self.values@, name@.lexeme);
        }
        let mut msg = String::from_str("var ");
        msg.append(lex.as_str());
        msg.append(" is not defined.");
        let e = JialoxError::runtime_error(name, msg.as_str());
        proof {
            assert(e@.message =~= "var "@ + name@.lexeme + " is not defined."@);
        }
        Err(e)
    }
}

} // verus!
