use vstd::prelude::*;

use crate::value::{val_wf, LoxValue, Val};

verus! {

/// The run-time environment: a tree of scopes kept in an arena, and the
/// scope that code runs in now.
///
/// Scope 0 is the global scope. Each other scope names its parent, which was
/// made before it; a function value holds the index of the scope it was
/// declared in, so the scope outlives the block that made it. Bindings are
/// kept in one list, each tagged with its scope; a name is bound at most once
/// in a scope.
pub struct Environment {
    parents: Vec<Option<usize>>,
    owners: Vec<usize>,
    names: Vec<String>,
    values: Vec<LoxValue>,
    current: usize,
}

pub ghost struct EnvView {
    pub parents: Seq<Option<nat>>,
    pub owners: Seq<nat>,
    pub names: Seq<Seq<char>>,
    pub values: Seq<Val>,
    pub current: nat,
}

impl View for Environment {
    type V = EnvView;

    closed spec fn view(&self) -> EnvView {
        EnvView {
            parents: self.parents@.map_values(|p: Option<usize>|
                match p {
                    Some(i) => Some(i as nat),
                    None => None,
                }
            ),
            owners: self.owners@.map_values(|o: usize| o as nat),
            names: self.names@.map_values(|s: String| s@),
            values: self.values@.map_values(|v: LoxValue| v@),
            current: self.current as nat,
        }
    }
}

impl EnvView {
    pub open spec fn wf(self) -> bool {
        &&& self.parents.len() >= 1
        &&& self.parents[0] is None
        &&& forall|i: int| 1 <= i < self.parents.len() ==> {
            let p = #[trigger] self.parents[i];
            p is Some && p.unwrap() < i
        }
        &&& self.current < self.parents.len()
        &&& self.owners.len() == self.names.len() == self.values.len()
        &&& forall|k: int| 0 <= k < self.owners.len() ==> #[trigger] self.owners[k] < self.parents.len()
        &&& forall|k: int| 0 <= k < self.values.len() ==> val_wf(#[trigger] self.values[k])
    }

    /// The binding of `name` in scope `s` among the first `k` bindings,
    /// searched from the newest: its index, or -1.
    pub open spec fn find(self, s: nat, name: Seq<char>, k: int) -> int
        decreases k,
    {
        if k <= 0 {
            -1
        } else if self.owners[k - 1] == s && self.names[k - 1] == name {
            k - 1
        } else {
            self.find(s, name, k - 1)
        }
    }

    pub open spec fn find_in(self, s: nat, name: Seq<char>) -> int {
        self.find(s, name, self.owners.len() as int)
    }

    /// The scope `d` steps out from scope `s`.
    pub open spec fn ancestor(self, s: nat, d: nat) -> Option<nat>
        decreases d,
    {
        if s >= self.parents.len() {
            None
        } else if d == 0 {
            Some(s)
        } else {
            match self.parents[s as int] {
                Some(p) => self.ancestor(p, (d - 1) as nat),
                None => None,
            }
        }
    }

    /// The value bound to `name` in scope `s` itself.
    pub open spec fn lookup_in(self, s: nat, name: Seq<char>) -> Option<Val> {
        let k = self.find_in(s, name);
        if k >= 0 {
            Some(self.values[k])
        } else {
            None
        }
    }

    /// The value of `name` in the scope `d` steps out from the current one.
    pub open spec fn get_at(self, d: nat, name: Seq<char>) -> Option<Val> {
        match self.ancestor(self.current, d) {
            Some(s) => self.lookup_in(s, name),
            None => None,
        }
    }

    /// The value of `name` in the global scope.
    pub open spec fn get(self, name: Seq<char>) -> Option<Val> {
        self.lookup_in(0, name)
    }

    /// Binds `name` in scope `s`, replacing an earlier binding there.
    pub open spec fn bind(self, s: nat, name: Seq<char>, v: Val) -> EnvView {
        let k = self.find_in(s, name);
        if k >= 0 {
            EnvView { values: self.values.update(k, v), ..self }
        } else {
            EnvView {
                owners: self.owners.push(s),
                names: self.names.push(name),
                values: self.values.push(v),
                ..self
            }
        }
    }

    /// Declares `name` in the current scope.
    pub open spec fn define(self, name: Seq<char>, v: Val) -> EnvView {
        self.bind(self.current, name, v)
    }

    /// Replaces the value of `name` in scope `s`, where it must be bound.
    pub open spec fn assign_in(self, s: nat, name: Seq<char>, v: Val) -> Option<EnvView> {
        let k = self.find_in(s, name);
        if k >= 0 {
            Some(EnvView { values: self.values.update(k, v), ..self })
        } else {
            None
        }
    }

    pub open spec fn assign_at(self, d: nat, name: Seq<char>, v: Val) -> Option<EnvView> {
        match self.ancestor(self.current, d) {
            Some(s) => self.assign_in(s, name, v),
            None => None,
        }
    }

    pub open spec fn assign(self, name: Seq<char>, v: Val) -> Option<EnvView> {
        self.assign_in(0, name, v)
    }

    /// Opens a new empty scope whose parent is `parent`, and enters it.
    pub open spec fn begin_scope(self, parent: nat) -> EnvView {
        EnvView {
            parents: self.parents.push(Some(parent)),
            current: self.parents.len(),
            ..self
        }
    }

    /// Goes back to scope `current`; where `drop` holds, forgets the scopes
    /// from `n_scopes` on and the bindings from `n_bindings` on.
    pub open spec fn leave(self, current: nat, drop: bool, n_scopes: nat, n_bindings: nat) -> EnvView {
        if drop {
            EnvView {
                parents: self.parents.take(n_scopes as int),
                owners: self.owners.take(n_bindings as int),
                names: self.names.take(n_bindings as int),
                values: self.values.take(n_bindings as int),
                current,
            }
        } else {
            EnvView { current, ..self }
        }
    }
}

proof fn lemma_find_range(e: EnvView, s: nat, name: Seq<char>, k: int)
    requires
        0 <= k <= e.owners.len(),
    ensures
        -1 <= e.find(s, name, k) < k,
        e.find(s, name, k) >= 0 ==> e.owners[e.find(s, name, k)] == s
            && e.names[e.find(s, name, k)] == name,
    decreases k,
{
    if k > 0 {
        lemma_find_range(e, s, name, k - 1);
    }
}

proof fn lemma_ancestor_range(e: EnvView, s: nat, d: nat)
    requires
        e.wf(),
    ensures
        e.ancestor(s, d) is Some ==> e.ancestor(s, d).unwrap() < e.parents.len(),
    decreases d,
{
    if s < e.parents.len() && d > 0 {
        if let Some(p) = e.parents[s as int] {
            if s >= 1 {
                assert(e.parents[s as int].unwrap() < s);
            }
            lemma_ancestor_range(e, p, (d - 1) as nat);
        }
    }
}

impl Environment {
    pub open spec fn wf(&self) -> bool {
        self@.wf()
    }

    /// An environment holding only the empty global scope.
    pub fn new() -> (r: Environment)
        ensures
            r.wf(),
            r@.parents == seq![Option::<nat>::None],
            r@.owners.len() == 0,
            r@.current == 0,
    {
        let r = Environment {
            parents: vec![None],
            owners: Vec::new(),
            names: Vec::new(),
            values: Vec::new(),
            current: 0,
        };
        assert(r@.owners =~= Seq::<nat>::empty());
        r
    }

    pub fn current(&self) -> (r: usize)
        ensures
            r == self@.current,
    {
        self.current
    }

    pub fn n_scopes(&self) -> (r: usize)
        ensures
            r == self@.parents.len(),
    {
        self.parents.len()
    }

    pub fn n_bindings(&self) -> (r: usize)
        requires
            self.wf(),
        ensures
            r == self@.owners.len(),
    {
        self.owners.len()
    }

    fn find(&self, s: usize, name: &String) -> (r: Option<usize>)
        requires
            self.wf(),
        ensures
            match r {
                Some(k) => k as int == self@.find_in(s as nat, name@),
                None => self@.find_in(s as nat, name@) == -1,
            },
    {
        let mut k = self.owners.len();
        proof { lemma_find_range(self@, s as nat, name@, k as int); }
        while k > 0
            invariant
                k <= self.owners.len(),
                self.owners.len() == self.names.len(),
                self@.find_in(s as nat, name@) == self@.find(s as nat, name@, k as int),
            decreases k,
        {
            assert(self@.owners[k - 1] == self.owners@[k - 1] as nat);
            assert(self@.names[k - 1] == self.names@[k - 1]@);
            if self.owners[k - 1] == s && self.names[k - 1] == *name {
                return Some(k - 1);
            }
            k = k - 1;
        }
        None
    }

    fn ancestor(&self, s: usize, d: usize) -> (r: Option<usize>)
        requires
            self.wf(),
        ensures
            match r {
                Some(a) => self@.ancestor(s as nat, d as nat) == Some(a as nat),
                None => self@.ancestor(s as nat, d as nat) is None,
            },
    {
        if s >= self.parents.len() {
            return None;
        }
        let mut cur = s;
        let mut i: usize = 0;
        while i < d
            invariant
                self.wf(),
                i <= d,
                cur < self.parents.len(),
                self@.ancestor(s as nat, d as nat) == self@.ancestor(cur as nat, (d - i) as nat),
            decreases d - i,
        {
            assert(self@.parents[cur as int] == match self.parents@[cur as int] {
                Some(p) => Some(p as nat),
                None => None::<nat>,
            });
            match self.parents[cur] {
                Some(p) => {
                    if cur >= 1 {
                        assert(self@.parents[cur as int].unwrap() < cur);
                    }
                    assert(p < self.parents.len()) by {
                        if cur == 0 {
                            assert(self@.parents[0] is None);
                        }
                    }
                    cur = p;
                },
                None => {
                    return None;
                },
            }
            i = i + 1;
        }
        Some(cur)
    }

    fn lookup_in(&self, s: usize, name: &String) -> (r: Option<LoxValue>)
        requires
            self.wf(),
        ensures
            match r {
                Some(v) => self@.lookup_in(s as nat, name@) == Some(v@) && v.wf(),
                None => self@.lookup_in(s as nat, name@) is None,
            },
    {
        match self.find(s, name) {
            Some(k) => {
                proof { lemma_find_range(self@, s as nat, name@, self@.owners.len() as int); }
                assert(self@.values[k as int] == self.values@[k as int]@);
                Some(self.values[k].copy())
            },
            None => None,
        }
    }

    /// The value of `name` in the scope `d` steps out from the current one.
    pub fn get_at(&self, d: usize, name: &String) -> (r: Option<LoxValue>)
        requires
            self.wf(),
        ensures
            match r {
                Some(v) => self@.get_at(d as nat, name@) == Some(v@) && v.wf(),
                None => self@.get_at(d as nat, name@) is None,
            },
    {
        match self.ancestor(self.current, d) {
            Some(s) => self.lookup_in(s, name),
            None => None,
        }
    }

    /// The value of `name` in the global scope.
    pub fn get(&self, name: &String) -> (r: Option<LoxValue>)
        requires
            self.wf(),
        ensures
            match r {
                Some(v) => self@.get(name@) == Some(v@) && v.wf(),
                None => self@.get(name@) is None,
            },
    {
        self.lookup_in(0, name)
    }

    fn bind(&mut self, s: usize, name: &String, v: LoxValue)
        requires
            old(self).wf(),
            s < old(self)@.parents.len(),
            v.wf(),
        ensures
            final(self).wf(),
            final(self)@ == old(self)@.bind(s as nat, name@, v@),
    {
        proof { lemma_find_range(self@, s as nat, name@, self@.owners.len() as int); }
        match self.find(s, name) {
            Some(k) => {
                self.values.set(k, v);
                assert(self@.values =~= old(self)@.values.update(k as int, v@));
                assert(self@ =~= old(self)@.bind(s as nat, name@, v@));
            },
            None => {
                self.owners.push(s);
                self.names.push(name.clone());
                self.values.push(v);
                assert(self@.owners =~= old(self)@.owners.push(s as nat));
                assert(self@.names =~= old(self)@.names.push(name@));
                assert(self@.values =~= old(self)@.values.push(v@));
                assert(self@ =~= old(self)@.bind(s as nat, name@, v@));
            },
        }
    }

    /// Declares `name` in the current scope, replacing a binding of the same
    /// name there.
    pub fn define(&mut self, name: &String, v: LoxValue)
        requires
            old(self).wf(),
            v.wf(),
        ensures
            final(self).wf(),
            final(self)@ == old(self)@.define(name@, v@),
    {
        let s = self.current;
        self.bind(s, name, v);
    }

    fn assign_in(&mut self, s: usize, name: &String, v: LoxValue) -> (r: bool)
        requires
            old(self).wf(),
            v.wf(),
        ensures
            final(self).wf(),
            match old(self)@.assign_in(s as nat, name@, v@) {
                Some(e) => r && final(self)@ == e,
                None => !r && final(self)@ == old(self)@,
            },
    {
        proof { lemma_find_range(self@, s as nat, name@, self@.owners.len() as int); }
        match self.find(s, name) {
            Some(k) => {
                self.values.set(k, v);
                assert(self@.values =~= old(self)@.values.update(k as int, v@));
                assert(self@ =~= old(self)@.assign_in(s as nat, name@, v@).unwrap());
                true
            },
            None => false,
        }
    }

    /// Assigns to `name` in the scope `d` steps out from the current one.
    pub fn assign_at(&mut self, d: usize, name: &String, v: LoxValue) -> (r: bool)
        requires
            old(self).wf(),
            v.wf(),
        ensures
            final(self).wf(),
            match old(self)@.assign_at(d as nat, name@, v@) {
                Some(e) => r && final(self)@ == e,
                None => !r && final(self)@ == old(self)@,
            },
    {
        match self.ancestor(self.current, d) {
            Some(s) => self.assign_in(s, name, v),
            None => false,
        }
    }

    /// Assigns to `name` in the global scope.
    pub fn assign(&mut self, name: &String, v: LoxValue) -> (r: bool)
        requires
            old(self).wf(),
            v.wf(),
        ensures
            final(self).wf(),
            match old(self)@.assign(name@, v@) {
                Some(e) => r && final(self)@ == e,
                None => !r && final(self)@ == old(self)@,
            },
    {
        self.assign_in(0, name, v)
    }

    /// Opens a new empty scope under `parent` and enters it.
    pub fn begin_scope(&mut self, parent: usize)
        requires
            old(self).wf(),
            parent < old(self)@.parents.len(),
        ensures
            final(self).wf(),
            final(self)@ == old(self)@.begin_scope(parent as nat),
    {
        let n = self.parents.len();
        self.parents.push(Some(parent));
        self.current = n;
        assert(self@.parents =~= old(self)@.parents.push(Some(parent as nat)));
        assert(self@ =~= old(self)@.begin_scope(parent as nat));
    }

    /// Returns to scope `current`; where `drop` holds, forgets the scopes
    /// from `n_scopes` on and the bindings from `n_bindings` on.
    pub fn end_scope(&mut self, current: usize, drop: bool, n_scopes: usize, n_bindings: usize)
        requires
            old(self).wf(),
            current < n_scopes <= old(self)@.parents.len(),
            n_bindings <= old(self)@.owners.len(),
            drop ==> forall|k: int|
                0 <= k < n_bindings ==> #[trigger] old(self)@.owners[k] < n_scopes,
        ensures
            final(self).wf(),
            final(self)@ == old(self)@.leave(current as nat, drop, n_scopes as nat, n_bindings as nat),
    {
        if drop {
            self.parents.truncate(n_scopes);
            self.owners.truncate(n_bindings);
            self.names.truncate(n_bindings);
            self.values.truncate(n_bindings);
        }
        self.current = current;
        assert(self@.parents =~= old(self)@.leave(current as nat, drop, n_scopes as nat, n_bindings as nat).parents);
        assert(self@.owners =~= old(self)@.leave(current as nat, drop, n_scopes as nat, n_bindings as nat).owners);
        assert(self@.names =~= old(self)@.leave(current as nat, drop, n_scopes as nat, n_bindings as nat).names);
        assert(self@.values =~= old(self)@.leave(current as nat, drop, n_scopes as nat, n_bindings as nat).values);
    }
}

} // verus!
