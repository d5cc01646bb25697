//! Nested scopes of named values, innermost scope last.

use vstd::prelude::*;
use vstd::string::*;

verus! {

/// The value `name` has in `scopes`: its binding in the innermost scope
/// that binds it.
pub open spec fn lookup<V>(scopes: Seq<Map<Seq<char>, V>>, name: Seq<char>) -> Option<V>
    decreases scopes.len(),
{
    if scopes.len() == 0 {
        None
    } else if scopes.last().contains_key(name) {
        Some(scopes.last()[name])
    } else {
        lookup(scopes.drop_last(), name)
    }
}

/// The index of the innermost scope that binds `name`.
pub open spec fn innermost_binding<V>(scopes: Seq<Map<Seq<char>, V>>, name: Seq<char>) -> Option<int>
    decreases scopes.len(),
{
    if scopes.len() == 0 {
        None
    } else if scopes.last().contains_key(name) {
        Some(scopes.len() - 1)
    } else {
        innermost_binding(scopes.drop_last(), name)
    }
}

/// `scopes` after assigning `value` to `name`: the innermost scope that
/// binds `name` gets the new value; when none does, the current (innermost)
/// scope gets a new binding.
pub open spec fn assign<V>(scopes: Seq<Map<Seq<char>, V>>, name: Seq<char>, value: V) -> Seq<
    Map<Seq<char>, V>,
> {
    match innermost_binding(scopes, name) {
        Some(k) => scopes.update(k, scopes[k].insert(name, value)),
        None => scopes.update(scopes.len() - 1, scopes.last().insert(name, value)),
    }
}

/// Where the innermost binding of `name` is, and that it gives the value
/// `lookup` finds.
pub proof fn lemma_innermost_binding<V>(scopes: Seq<Map<Seq<char>, V>>, name: Seq<char>)
    ensures
        match innermost_binding(scopes, name) {
            Some(k) => {
                &&& 0 <= k < scopes.len()
                &&& scopes[k].contains_key(name)
                &&& forall|j: int| k < j < scopes.len() ==> !(#[trigger] scopes[j]).contains_key(name)
                &&& lookup(scopes, name) == Some(scopes[k][name])
            },
            None => {
                &&& forall|j: int| 0 <= j < scopes.len() ==> !(#[trigger] scopes[j]).contains_key(name)
                &&& lookup(scopes, name) is None
            },
        },
    decreases scopes.len(),
{
    if scopes.len() > 0 && !scopes.last().contains_key(name) {
        let rest = scopes.drop_last();
        lemma_innermost_binding(rest, name);
        match innermost_binding(rest, name) {
            Some(k) => {
                assert(scopes[k] == rest[k]);
                assert forall|j: int| k < j < scopes.len() implies !(
                #[trigger] scopes[j]).contains_key(name) by {
                    if j < scopes.len() - 1 {
                        assert(scopes[j] == rest[j]);
                    }
                }
            },
            None => {
                assert forall|j: int| 0 <= j < scopes.len() implies !(
                #[trigger] scopes[j]).contains_key(name) by {
                    if j < scopes.len() - 1 {
                        assert(scopes[j] == rest[j]);
                    }
                }
            },
        }
    }
}

proof fn lemma_lookup_agrees<V>(a: Seq<Map<Seq<char>, V>>, b: Seq<Map<Seq<char>, V>>, name: Seq<char>)
    requires
        a.len() == b.len(),
        forall|j: int|
            0 <= j < a.len() ==> (#[trigger] a[j]).contains_key(name) == b[j].contains_key(name),
        forall|j: int|
            0 <= j < a.len() && (#[trigger] a[j]).contains_key(name) ==> a[j][name] == b[j][name],
    ensures
        lookup(a, name) == lookup(b, name),
    decreases a.len(),
{
    if a.len() > 0 {
        let (ra, rb) = (a.drop_last(), b.drop_last());
        assert forall|j: int| 0 <= j < ra.len() implies (#[trigger] ra[j]).contains_key(name)
            == rb[j].contains_key(name) && (ra[j].contains_key(name) ==> ra[j][name]
            == rb[j][name]) by {
            assert(ra[j] == a[j] && rb[j] == b[j]);
        }
        lemma_lookup_agrees(ra, rb, name);
        assert(a.last() == a[a.len() - 1] && b.last() == b[b.len() - 1]);
    }
}

/// Law: after assigning `value` to `name`, looking `name` up gives `value`.
pub proof fn lemma_lookup_after_assign<V>(scopes: Seq<Map<Seq<char>, V>>, name: Seq<char>, value: V)
    requires
        scopes.len() >= 1,
    ensures
        lookup(assign(scopes, name, value), name) == Some(value),
        assign(scopes, name, value).len() == scopes.len(),
{
    lemma_innermost_binding(scopes, name);
    let after = assign(scopes, name, value);
    let k = match innermost_binding(scopes, name) {
        Some(k) => k,
        None => scopes.len() - 1,
    };
    assert(after[k].contains_key(name) && after[k][name] == value);
    assert forall|j: int| k < j < after.len() implies !(#[trigger] after[j]).contains_key(name) by {
        assert(after[j] == scopes[j]);
    }
    lemma_innermost_binding(after, name);
    match innermost_binding(after, name) {
        Some(k2) => {
            if k2 < k {
                assert(!after[k].contains_key(name));
            }
        },
        None => {},
    }
}

/// Law: assigning to `name` changes what no other name looks up to.
pub proof fn lemma_lookup_other_after_assign<V>(
    scopes: Seq<Map<Seq<char>, V>>,
    name: Seq<char>,
    other: Seq<char>,
    value: V,
)
    requires
        scopes.len() >= 1,
        other != name,
    ensures
        lookup(assign(scopes, name, value), other) == lookup(scopes, other),
{
    lemma_innermost_binding(scopes, name);
    let after = assign(scopes, name, value);
    assert(after.len() == scopes.len());
    assert forall|j: int| 0 <= j < after.len() implies (#[trigger] after[j]).contains_key(other)
        == scopes[j].contains_key(other) && (after[j].contains_key(other) ==> after[j][other]
        == scopes[j][other]) by {}
    lemma_lookup_agrees(after, scopes, other);
}

/// Law: a binding made in a scope opened on top of `scopes` shadows `name`
/// while that scope is open, and once it is closed `name` looks up as before.
pub proof fn lemma_child_scope_binding_is_dropped<V>(
    scopes: Seq<Map<Seq<char>, V>>,
    name: Seq<char>,
    value: V,
)
    ensures
        ({
            let opened = scopes.push(Map::empty());
            let bound = opened.update(opened.len() - 1, opened.last().insert(name, value));
            &&& lookup(bound, name) == Some(value)
            &&& bound.drop_last() == scopes
            &&& lookup(bound.drop_last(), name) == lookup(scopes, name)
        }),
{
    let opened = scopes.push(Map::empty());
    let bound = opened.update(opened.len() - 1, opened.last().insert(name, value));
    assert(bound.last() == opened.last().insert(name, value));
    assert(bound.drop_last() =~= scopes);
}

/// Law: after opening a scope on top of the global one there are at least
/// two, so it may be closed; closing it leaves the scopes as they were.
pub proof fn lemma_open_then_close<V>(scopes: Seq<Map<Seq<char>, V>>)
    requires
        scopes.len() >= 1,
    ensures
        scopes.push(Map::empty()).len() >= 2,
        scopes.push(Map::empty()).drop_last() == scopes,
{
    assert(scopes.push(Map::empty()).drop_last() =~= scopes);
}

spec fn keys_distinct<V>(s: Seq<(String, V)>) -> bool {
    forall|i: int, j: int| 0 <= i < s.len() && 0 <= j < s.len() && i != j ==> s[i].0@ != s[j].0@
}

spec fn scope_map<V>(s: Seq<(String, V)>) -> Map<Seq<char>, V> {
    Map::new(
        |k: Seq<char>| exists|i: int| 0 <= i < s.len() && s[i].0@ == k,
        |k: Seq<char>| s[choose|i: int| 0 <= i < s.len() && s[i].0@ == k].1,
    )
}

proof fn lemma_scope_map_at<V>(s: Seq<(String, V)>, i: int)
    requires
        keys_distinct(s),
        0 <= i < s.len(),
    ensures
        scope_map(s).contains_key(s[i].0@),
        scope_map(s)[s[i].0@] == s[i].1,
{
    let k = s[i].0@;
    assert(exists|j: int| 0 <= j < s.len() && s[j].0@ == k);
    let j = choose|j: int| 0 <= j < s.len() && s[j].0@ == k;
    assert(j == i);
}

proof fn lemma_scope_map_push<V>(s: Seq<(String, V)>, key: String, value: V)
    requires
        keys_distinct(s),
        !scope_map(s).contains_key(key@),
    ensures
        keys_distinct(s.push((key, value))),
        scope_map(s.push((key, value))) =~= scope_map(s).insert(key@, value),
{
    let t = s.push((key, value));
    assert forall|i: int, j: int|
        0 <= i < t.len() && 0 <= j < t.len() && i != j implies t[i].0@ != t[j].0@ by {
        if i < s.len() && j == s.len() {
            assert(scope_map(s).contains_key(s[i].0@));
        }
        if j < s.len() && i == s.len() {
            assert(scope_map(s).contains_key(s[j].0@));
        }
    }
    assert forall|k: Seq<char>| #[trigger] scope_map(t).contains_key(k) implies scope_map(
        s,
    ).insert(key@, value).contains_key(k) by {
        let i = choose|i: int| 0 <= i < t.len() && t[i].0@ == k;
        if i < s.len() {
            assert(scope_map(s).contains_key(s[i].0@));
        }
    }
    assert forall|k: Seq<char>| #[trigger] scope_map(s).insert(key@, value).contains_key(k)
        implies scope_map(t).contains_key(k) && scope_map(t)[k] == scope_map(s).insert(
        key@,
        value,
    )[k] by {
        if k == key@ {
            lemma_scope_map_at(t, s.len() as int);
        } else {
            let i = choose|i: int| 0 <= i < s.len() && s[i].0@ == k;
            lemma_scope_map_at(s, i);
            lemma_scope_map_at(t, i);
        }
    }
}

proof fn lemma_scope_map_update<V>(s: Seq<(String, V)>, i: int, key: String, value: V)
    requires
        keys_distinct(s),
        0 <= i < s.len(),
        s[i].0@ == key@,
    ensures
        keys_distinct(s.update(i, (key, value))),
        scope_map(s.update(i, (key, value))) =~= scope_map(s).insert(key@, value),
{
    let t = s.update(i, (key, value));
    assert forall|a: int, b: int|
        0 <= a < t.len() && 0 <= b < t.len() && a != b implies t[a].0@ != t[b].0@ by {
        assert(t[a].0@ == s[a].0@);
        assert(t[b].0@ == s[b].0@);
    }
    assert forall|k: Seq<char>| #[trigger] scope_map(t).contains_key(k) implies scope_map(
        s,
    ).contains_key(k) by {
        let j = choose|j: int| 0 <= j < t.len() && t[j].0@ == k;
        assert(s[j].0@ == k);
    }
    assert forall|k: Seq<char>| #[trigger] scope_map(s).insert(key@, value).contains_key(k)
        implies scope_map(t).contains_key(k) && scope_map(t)[k] == scope_map(s).insert(
        key@,
        value,
    )[k] by {
        if k == key@ {
            lemma_scope_map_at(t, i);
        } else {
            let j = choose|j: int| 0 <= j < s.len() && s[j].0@ == k;
            lemma_scope_map_at(s, j);
            lemma_scope_map_at(t, j);
        }
    }
}

/// The position in `scope` of the binding of `key`, if any.
fn scope_find<V>(scope: &Vec<(String, V)>, key: &String) -> (found: Option<usize>)
    requires
        keys_distinct(scope@),
    ensures
        match found {
            Some(i) => i < scope@.len() && scope@[i as int].0@ == key@,
            None => !scope_map(scope@).contains_key(key@),
        },
{
    let n = scope.len();
    for i in 0..n
        invariant
            n == scope@.len(),
            forall|j: int| 0 <= j < i ==> scope@[j].0@ != key@,
    {
        if scope[i].0 == *key {
            return Some(i);
        }
    }
    None
}

/// Binds `key` to `value` in `scope`, replacing an earlier binding of `key`.
fn scope_insert<V>(scope: &mut Vec<(String, V)>, key: String, value: V)
    requires
        keys_distinct(old(scope)@),
    ensures
        keys_distinct(final(scope)@),
        scope_map(final(scope)@) == scope_map(old(scope)@).insert(key@, value),
{
    match scope_find(scope, &key) {
        Some(i) => {
            proof {
                lemma_scope_map_update(scope@, i as int, key, value);
            }
            scope.set(i, (key, value));
        },
        None => {
            proof {
                lemma_scope_map_push(scope@, key, value);
            }
            scope.push((key, value));
        },
    }
}

/// The scopes held in `v`, outermost first, each as a map from names to values.
spec fn scopes_of<V>(v: Seq<Vec<(String, V)>>) -> Seq<Map<Seq<char>, V>> {
    Seq::new(v.len(), |k: int| scope_map(v[k]@))
}

/// No name bound twice in any one scope of `v`.
spec fn scopes_distinct<V>(v: Seq<Vec<(String, V)>>) -> bool {
    forall|k: int| 0 <= k < v.len() ==> keys_distinct(#[trigger] v[k]@)
}

proof fn lemma_scopes_of_update<V>(v: Seq<Vec<(String, V)>>, k: int, scope: Vec<(String, V)>)
    requires
        0 <= k < v.len(),
    ensures
        scopes_of(v.update(k, scope)) == scopes_of(v).update(k, scope_map(scope@)),
{
    assert(scopes_of(v.update(k, scope)) =~= scopes_of(v).update(k, scope_map(scope@)));
}

/// A single empty scope.
fn one_empty_scope<V>() -> (v: Vec<Vec<(String, V)>>)
    ensures
        v@.len() == 1,
        v@[0]@.len() == 0,
        scopes_distinct(v@),
        scopes_of(v@) == seq![Map::<Seq<char>, V>::empty()],
{
    let mut v: Vec<Vec<(String, V)>> = Vec::new();
    v.push(Vec::new());
    assert(scope_map(v@[0]@) =~= Map::<Seq<char>, V>::empty());
    assert(scopes_of(v@) =~= seq![Map::<Seq<char>, V>::empty()]);
    v
}

/// Named values in nested scopes. There is always a global (outermost) scope.
pub struct ValiableContext<V> {
    variables: Vec<Vec<(String, V)>>,
}

impl<V> ValiableContext<V> {
    /// At least one scope, and no name bound twice in one scope.
    #[verifier::type_invariant]
    spec fn wf(self) -> bool {
        &&& self.variables@.len() >= 1
        &&& scopes_distinct(self.variables@)
    }

    /// The scopes, outermost first, each as a map from names to values.
    pub closed spec fn scopes(&self) -> Seq<Map<Seq<char>, V>> {
        scopes_of(self.variables@)
    }

    /// A context with only an empty global scope.
    pub fn new() -> (c: Self)
        ensures
            c.scopes() == seq![Map::<Seq<char>, V>::empty()],
    {
        ValiableContext { variables: one_empty_scope() }
    }

    /// How many scopes are open, the global one included; always at least one.
    pub fn depth(&self) -> (n: usize)
        ensures
            n == self.scopes().len(),
            n >= 1,
    {
        proof {
            use_type_invariant(self);
        }
        self.variables.len()
    }

    /// Binds `name` to `value` in the current (innermost) scope.
    pub fn set_in_current_scoupe(&mut self, name: &str, value: V)
        ensures
            final(self).scopes() == old(self).scopes().update(
                old(self).scopes().len() - 1,
                old(self).scopes().last().insert(name@, value),
            ),
            final(self).scopes().len() >= 1,
    {
        proof {
            use_type_invariant(&*self);
        }
        let ghost before = self.variables@;
        let mut vars = one_empty_scope();
        std::mem::swap(&mut vars, &mut self.variables);
        let mut scope = vars.pop().unwrap();
        proof {
            assert(keys_distinct(before[before.len() - 1]@));
        }
        scope_insert(&mut scope, String::from_str(name), value);
        vars.push(scope);
        proof {
            assert(vars@ =~= before.update(before.len() - 1, scope));
            lemma_scopes_of_update(before, before.len() - 1, scope);
            assert forall|k: int| 0 <= k < vars@.len() implies keys_distinct(#[trigger] vars@[k]@) by {
                if k < before.len() - 1 {
                    assert(vars@[k] == before[k]);
                }
            }
        }
        self.variables = vars;
    }

    /// Whether the current (innermost) scope binds `name`.
    pub fn has_in_current_scoupe(&self, name: &str) -> (found: bool)
        ensures
            found == self.scopes().last().contains_key(name@),
    {
        proof {
            use_type_invariant(self);
        }
        let last = self.variables.len() - 1;
        let key = String::from_str(name);
        assert(keys_distinct(self.variables@[last as int]@));
        match scope_find(&self.variables[last], &key) {
            Some(i) => {
                proof {
                    lemma_scope_map_at(self.variables@[last as int]@, i as int);
                }
                true
            },
            None => false,
        }
    }

    /// The innermost scope that binds `name`, searching from the current
    /// scope outwards, with the binding's position in that scope.
    fn find_binding(&self, key: &String) -> (found: Option<(usize, usize)>)
        ensures
            innermost_binding(self.scopes(), key@) == match found {
                Some((k, _)) => Some(k as int),
                None => None::<int>,
            },
            found matches Some((k, i)) ==> k < self.variables@.len() && i
                < self.variables@[k as int]@.len() && self.variables@[k as int]@[i as int].0@
                == key@,
    {
        proof {
            use_type_invariant(self);
            lemma_innermost_binding(self.scopes(), key@);
        }
        let mut k = self.variables.len();
        while k > 0
            invariant
                k <= self.variables@.len(),
                scopes_distinct(self.variables@),
                forall|j: int|
                    k <= j < self.variables@.len() ==> !(#[trigger] self.scopes()[j]).contains_key(
                        key@,
                    ),
            decreases k,
        {
            k = k - 1;
            assert(keys_distinct(self.variables@[k as int]@));
            match scope_find(&self.variables[k], key) {
                Some(i) => {
                    proof {
                        lemma_scope_map_at(self.variables@[k as int]@, i as int);
                        lemma_innermost_binding(self.scopes(), key@);
                        assert(self.scopes()[k as int].contains_key(key@));
                        match innermost_binding(self.scopes(), key@) {
                            Some(k2) => {
                                if k2 < k {
                                    assert(!self.scopes()[k as int].contains_key(key@));
                                }
                            },
                            None => {},
                        }
                    }
                    return Some((k, i));
                },
                None => {},
            }
        }
        None
    }

    /// Assigns `value` to `name` in the innermost scope that binds it, or
    /// binds it in the current scope when no scope does.
    pub fn set_variable(&mut self, name: &str, value: V)
        ensures
            final(self).scopes() == assign(old(self).scopes(), name@, value),
            final(self).scopes().len() >= 1,
    {
        proof {
            use_type_invariant(&*self);
        }
        let key = String::from_str(name);
        match self.find_binding(&key) {
            Some((k, _)) => {
                let ghost before = self.variables@;
                let mut vars = one_empty_scope();
                std::mem::swap(&mut vars, &mut self.variables);
                let mut scope = vars.remove(k);
                proof {
                    assert(scope == before[k as int]);
                    assert(keys_distinct(scope@));
                }
                scope_insert(&mut scope, key, value);
                vars.insert(k, scope);
                proof {
                    assert(vars@ =~= before.update(k as int, scope));
                    lemma_scopes_of_update(before, k as int, scope);
                    assert forall|j: int| 0 <= j < vars@.len() implies keys_distinct(#[trigger] vars@[j]@) by {
                        if j != k {
                            assert(vars@[j] == before[j]);
                        }
                    }
                }
                self.variables = vars;
            },
            None => {
                self.set_in_current_scoupe(name, value);
            },
        }
    }

    /// The value of `name` in the innermost scope that binds it.
    pub fn get_variable(&self, name: &str) -> (value: Option<&V>)
        ensures
            match value {
                Some(v) => lookup(self.scopes(), name@) == Some(*v),
                None => lookup(self.scopes(), name@) is None,
            },
    {
        proof {
            use_type_invariant(self);
        }
        let key = String::from_str(name);
        proof {
            lemma_innermost_binding(self.scopes(), name@);
        }
        match self.find_binding(&key) {
            Some((k, i)) => {
                proof {
                    assert(keys_distinct(self.variables@[k as int]@));
                    lemma_scope_map_at(self.variables@[k as int]@, i as int);
                }
                Some(&self.variables[k][i].1)
            },
            None => None,
        }
    }

    /// Whether some open scope binds `name`.
    pub fn has_variable(&self, name: &str) -> (found: bool)
        ensures
            found == lookup(self.scopes(), name@) is Some,
    {
        let key = String::from_str(name);
        proof {
            lemma_innermost_binding(self.scopes(), name@);
        }
        self.find_binding(&key).is_some()
    }

    /// Opens a new, empty innermost scope.
    pub fn new_child_scoupe(&mut self)
        ensures
            final(self).scopes() == old(self).scopes().push(Map::empty()),
            final(self).scopes().len() >= 2,
    {
        proof {
            use_type_invariant(&*self);
        }
        let ghost before = self.variables@;
        let mut vars = one_empty_scope();
        std::mem::swap(&mut vars, &mut self.variables);
        vars.push(Vec::new());
        proof {
            assert(scope_map(vars@.last()@) =~= Map::<Seq<char>, V>::empty());
            assert(scopes_of(vars@) =~= scopes_of(before).push(Map::empty()));
            assert forall|j: int| 0 <= j < vars@.len() implies keys_distinct(#[trigger] vars@[j]@) by {
                if j < before.len() {
                    assert(vars@[j] == before[j]);
                }
            }
        }
        self.variables = vars;
    }

    /// Closes the innermost scope; the global scope is never closed.
    pub fn exit_scoupe(&mut self)
        requires
            old(self).scopes().len() >= 2,
        ensures
            final(self).scopes() == old(self).scopes().drop_last(),
            final(self).scopes().len() >= 1,
    {
        proof {
            use_type_invariant(&*self);
        }
        let ghost before = self.variables@;
        let mut vars = one_empty_scope();
        std::mem::swap(&mut vars, &mut self.variables);
        let _ = vars.pop();
        proof {
            assert(scopes_of(vars@) =~= scopes_of(before).drop_last());
            assert forall|j: int| 0 <= j < vars@.len() implies keys_distinct(#[trigger] vars@[j]@) by {
                assert(vars@[j] == before[j]);
            }
        }
        self.variables = vars;
    }
}

} // verus!
