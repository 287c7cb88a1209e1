//! Lexical environments: an arena of binding frames linked by parent indices.
use vstd::prelude::*;

use crate::atom::{Atom, Term};

verus! {

/// One frame of bindings. Bindings are an append-only log: the newest binding
/// of a name shadows the older ones of the same frame.
#[derive(Debug)]
pub struct Scope {
    pub parent: Option<usize>,
    pub bindings: Vec<(String, Atom)>,
}

/// All frames of one evaluation. A frame is addressed by its index; a child
/// names its parent by index, so frames can be shared by closures and outlive
/// the form that created them.
#[derive(Debug)]
pub struct Environment {
    pub scopes: Vec<Scope>,
}

/// The model of a frame.
pub struct Frame {
    pub parent: Option<nat>,
    pub bindings: Seq<(Seq<char>, Term)>,
}

/// The model of a binding list.
pub open spec fn bindings_view(b: Seq<(String, Atom)>) -> Seq<(Seq<char>, Term)> {
    Seq::new(b.len(), |i: int| (b[i].0@, b[i].1@))
}

/// The model of a parent link.
pub open spec fn parent_view(p: Option<usize>) -> Option<nat> {
    match p {
        Some(i) => Some(i as nat),
        None => None,
    }
}

impl View for Scope {
    type V = Frame;

    open spec fn view(&self) -> Frame {
        Frame { parent: parent_view(self.parent), bindings: bindings_view(self.bindings@) }
    }
}

/// The models of the frames of an arena.
pub open spec fn frames_view(s: Seq<Scope>) -> Seq<Frame> {
    Seq::new(s.len(), |i: int| s[i]@)
}

impl View for Environment {
    type V = Seq<Frame>;

    open spec fn view(&self) -> Seq<Frame> {
        frames_view(self.scopes@)
    }
}

/// Index of the newest binding of `name` in `b`.
pub open spec fn newest_index(b: Seq<(Seq<char>, Term)>, name: Seq<char>) -> Option<int>
    decreases b.len(),
{
    if b.len() == 0 {
        None
    } else if b.last().0 == name {
        Some(b.len() - 1)
    } else {
        newest_index(b.drop_last(), name)
    }
}

/// The value of the newest binding of `name` in one frame.
pub open spec fn lookup_local(f: Frame, name: Seq<char>) -> Option<Term> {
    match newest_index(f.bindings, name) {
        Some(k) => Some(f.bindings[k].1),
        None => None,
    }
}

/// The nearest frame, from `at` up the parent chain, that binds `name`.
/// A parent link must point to an older frame.
pub open spec fn owner(env: Seq<Frame>, at: nat, name: Seq<char>) -> Option<nat>
    decreases at,
{
    if at >= env.len() {
        None
    } else if newest_index(env[at as int].bindings, name) is Some {
        Some(at)
    } else {
        match env[at as int].parent {
            Some(p) => if p < at { owner(env, p, name) } else { None },
            None => None,
        }
    }
}

/// What `name` denotes seen from frame `at`.
pub open spec fn lookup(env: Seq<Frame>, at: nat, name: Seq<char>) -> Option<Term> {
    match owner(env, at, name) {
        Some(o) => lookup_local(env[o as int], name),
        None => None,
    }
}

/// What `name` denotes seen from a frame `f` whose parents are in `env`.
pub open spec fn lookup_from(env: Seq<Frame>, f: Frame, name: Seq<char>) -> Option<Term> {
    match lookup_local(f, name) {
        Some(v) => Some(v),
        None => match f.parent {
            Some(p) => lookup(env, p, name),
            None => None,
        },
    }
}

/// `env` with a new binding appended to frame `at`.
pub open spec fn define(env: Seq<Frame>, at: nat, name: Seq<char>, value: Term) -> Seq<Frame> {
    if at < env.len() {
        env.update(
            at as int,
            Frame {
                parent: env[at as int].parent,
                bindings: env[at as int].bindings.push((name, value)),
            },
        )
    } else {
        env
    }
}

/// `env` with the binding that `name` denotes from `at` overwritten in place.
pub open spec fn assign(env: Seq<Frame>, at: nat, name: Seq<char>, value: Term) -> Seq<Frame> {
    match owner(env, at, name) {
        Some(o) => {
            let b = env[o as int].bindings;
            let k = newest_index(b, name)->0;
            env.update(o as int, Frame { parent: env[o as int].parent, bindings: b.update(k, (name, value)) })
        },
        None => env,
    }
}

/// `env` with a new empty frame whose parent is `parent`.
pub open spec fn push_frame(env: Seq<Frame>, parent: Option<nat>) -> Seq<Frame> {
    env.push(Frame { parent, bindings: Seq::empty() })
}

/// The newest binding found is a binding of the name, and none is missed.
pub proof fn lemma_newest_index(b: Seq<(Seq<char>, Term)>, name: Seq<char>)
    ensures
        match newest_index(b, name) {
            Some(k) => 0 <= k < b.len() && b[k].0 == name && forall|j: int|
                k < j < b.len() ==> #[trigger] b[j].0 != name,
            None => forall|j: int| 0 <= j < b.len() ==> #[trigger] b[j].0 != name,
        },
    decreases b.len(),
{
    if b.len() > 0 {
        lemma_newest_index(b.drop_last(), name);
        assert(forall|j: int| 0 <= j < b.len() - 1 ==> b.drop_last()[j] == b[j]);
    }
}

/// The frame that owns a name is a frame of the environment, and binds it.
pub proof fn lemma_owner(env: Seq<Frame>, at: nat, name: Seq<char>)
    ensures
        owner(env, at, name) matches Some(o) ==> o <= at && o < env.len()
            && newest_index(env[o as int].bindings, name) is Some,
    decreases at,
{
    if at < env.len() && newest_index(env[at as int].bindings, name) is None {
        if let Some(p) = env[at as int].parent {
            if p < at {
                lemma_owner(env, p, name);
            }
        }
    }
}

/// The model of a value that may be absent.
pub open spec fn opt_view(o: Option<Atom>) -> Option<Term> {
    match o {
        Some(a) => Some(a@),
        None => None,
    }
}

impl Scope {
    /// A frame with no parent and no bindings.
    pub fn new() -> (r: Scope)
        ensures
            r@ == (Frame { parent: None, bindings: Seq::empty() }),
    {
        let r = Scope { parent: None, bindings: Vec::new() };
        assert(bindings_view(r.bindings@) =~= Seq::empty());
        r
    }

    /// Position of the newest binding of `key` in this frame.
    fn local_index(&self, key: &String) -> (r: Option<usize>)
        ensures
            match r {
                Some(k) => newest_index(self@.bindings, key@) == Some(k as int),
                None => newest_index(self@.bindings, key@) is None,
            },
    {
        let ghost b = bindings_view(self.bindings@);
        let mut i: usize = self.bindings.len();
        assert(b.take(i as int) =~= b);
        while i > 0
            invariant
                i <= self.bindings@.len(),
                b == bindings_view(self.bindings@),
                newest_index(b, key@) == newest_index(b.take(i as int), key@),
            decreases i,
        {
            assert(b.take(i as int).drop_last() =~= b.take(i - 1));
            if self.bindings[i - 1].0 == *key {
                return Some(i - 1);
            }
            i = i - 1;
        }
        None
    }

    /// The newest binding of `target` in this frame alone.
    pub fn get_local(&self, target: &str) -> (r: Option<Atom>)
        ensures
            opt_view(r) == lookup_local(self@, target@),
    {
        let key = String::from_str(target);
        proof {
            lemma_newest_index(self@.bindings, target@);
        }
        match self.local_index(&key) {
            Some(k) => Some(self.bindings[k].1.clone()),
            None => None,
        }
    }

    /// Appends a binding to this frame; it shadows older bindings of the name.
    pub fn set_local(&mut self, name: &str, value: Atom)
        ensures
            final(self)@ == (Frame {
                parent: old(self)@.parent,
                bindings: old(self)@.bindings.push((name@, value@)),
            }),
    {
        self.bindings.push((String::from_str(name), value));
        assert(bindings_view(self.bindings@) =~= old(self)@.bindings.push((name@, value@)));
    }

    /// What `name` denotes seen from this frame, whose ancestors live in `env`.
    pub fn get(&self, env: &Environment, name: &str) -> (r: Option<Atom>)
        ensures
            opt_view(r) == lookup_from(env@, self@, name@),
    {
        match self.get_local(name) {
            Some(v) => Some(v),
            None => match self.parent {
                Some(p) => env.lookup(p, name),
                None => None,
            },
        }
    }

    /// Overwrites, in place, the binding that `name` denotes seen from frame
    /// `at` of `env`, and returns the value it held; `None`, with `env`
    /// unchanged, where no frame of the chain binds `name`.
    pub fn set_inherited(env: &mut Environment, at: usize, name: &str, value: Atom) -> (r: Option<Atom>)
        ensures
            opt_view(r) == lookup(old(env)@, at as nat, name@),
            final(env)@ == assign(old(env)@, at as nat, name@, value@),
            final(env)@.len() == old(env)@.len(),
    {
        let key = String::from_str(name);
        proof {
            lemma_owner(env@, at as nat, name@);
        }
        match env.owner_of(at, &key) {
            Some(o) => {
                proof {
                    lemma_newest_index(env@[o as int].bindings, name@);
                }
                let k = env.scopes[o].local_index(&key).unwrap();
                let previous = env.scopes[o].bindings[k].1.clone();
                env.scopes[o].bindings.set(k, (key, value));
                assert(bindings_view(env.scopes@[o as int].bindings@) =~= old(env)@[o as int].bindings.update(k as int, (name@, value@)));
                assert(env@ =~= assign(old(env)@, at as nat, name@, value@));
                Some(previous)
            },
            None => None,
        }
    }
}

impl Environment {
    /// An environment with no frames.
    pub fn new() -> (r: Environment)
        ensures
            r@ == Seq::<Frame>::empty(),
    {
        let r = Environment { scopes: Vec::new() };
        assert(r@ =~= Seq::<Frame>::empty());
        r
    }

    /// The number of frames.
    pub fn len(&self) -> (r: usize)
        ensures
            r == self@.len(),
    {
        self.scopes.len()
    }

    /// The frame, from `at` up the parent chain, that binds `key`.
    fn owner_of(&self, at: usize, key: &String) -> (r: Option<usize>)
        ensures
            match r {
                Some(o) => owner(self@, at as nat, key@) == Some(o as nat) && o < self@.len(),
                None => owner(self@, at as nat, key@) is None,
            },
    {
        let mut cur: usize = at;
        loop
            invariant
                owner(self@, at as nat, key@) == owner(self@, cur as nat, key@),
            decreases cur,
        {
            if cur >= self.scopes.len() {
                return None;
            }
            if self.scopes[cur].local_index(key).is_some() {
                return Some(cur);
            }
            match self.scopes[cur].parent {
                Some(p) => {
                    if p < cur {
                        cur = p;
                    } else {
                        return None;
                    }
                },
                None => {
                    return None;
                },
            }
        }
    }

    /// What `name` denotes seen from frame `at`.
    pub fn lookup(&self, at: usize, name: &str) -> (r: Option<Atom>)
        ensures
            opt_view(r) == lookup(self@, at as nat, name@),
    {
        let key = String::from_str(name);
        match self.owner_of(at, &key) {
            Some(o) => self.scopes[o].get_local(name),
            None => None,
        }
    }

    /// Appends a binding of `name` to frame `at`.
    pub fn define(&mut self, at: usize, name: &str, value: Atom)
        requires
            at < old(self)@.len(),
        ensures
            final(self)@ == define(old(self)@, at as nat, name@, value@),
            final(self)@.len() == old(self)@.len(),
    {
        self.scopes[at].set_local(name, value);
        assert(self@ =~= define(old(self)@, at as nat, name@, value@));
    }
}

/// Adds a root frame (no parent) to `env` and returns its index.
pub fn new_scope(env: &mut Environment) -> (r: usize)
    requires
        old(env)@.len() < usize::MAX,
    ensures
        r == old(env)@.len(),
        final(env)@ == push_frame(old(env)@, None),
{
    let r = env.scopes.len();
    env.scopes.push(Scope::new());
    assert(env@ =~= push_frame(old(env)@, None));
    r
}

/// Adds a frame whose parent is frame `scope` and returns its index.
pub fn new_child_scope(env: &mut Environment, scope: usize) -> (r: usize)
    requires
        old(env)@.len() < usize::MAX,
    ensures
        r == old(env)@.len(),
        final(env)@ == push_frame(old(env)@, Some(scope as nat)),
{
    let r = env.scopes.len();
    let mut child = Scope::new();
    child.parent = Some(scope);
    env.scopes.push(child);
    assert(env@ =~= push_frame(old(env)@, Some(scope as nat)));
    r
}

} // verus!
