use crate::types::{lemma_val_wf_mono, val_model, val_wf, MalType, ValModel};
use vstd::prelude::*;
use vstd::string::StringExecFns;

verus! {

// ---------------------------------------------------------------------------
// Scopes and the environment arena
// ---------------------------------------------------------------------------

/// One lexical scope: an ordered run of bindings and an optional link to
/// the enclosing scope.
pub struct Scope {
    pub outer: Option<usize>,
    pub data: Vec<(String, MalType)>,
}

/// The model of one scope.
pub struct ScopeModel {
    pub outer: Option<int>,
    pub data: Seq<(Seq<char>, ValModel)>,
}

/// Model of a run of bindings, elementwise.
pub open spec fn binds_of(s: Seq<(String, MalType)>) -> Seq<(Seq<char>, ValModel)>
    decreases s.len(),
{
    if s.len() == 0 {
        Seq::empty()
    } else {
        binds_of(s.drop_last()).push((s.last().0@, val_model(s.last().1)))
    }
}

proof fn lemma_binds_of_len_ind(s: Seq<(String, MalType)>)
    ensures
        binds_of(s).len() == s.len(),
    decreases s.len(),
{
    if s.len() > 0 {
        lemma_binds_of_len_ind(s.drop_last());
    }
}

proof fn lemma_binds_of_index_ind(s: Seq<(String, MalType)>, i: int)
    requires
        0 <= i < s.len(),
    ensures
        binds_of(s)[i] == (s[i].0@, s[i].1@),
    decreases s.len(),
{
    lemma_binds_of_len_ind(s);
    if s.len() > 0 {
        lemma_binds_of_len_ind(s.drop_last());
        if i < s.len() - 1 {
            lemma_binds_of_index_ind(s.drop_last(), i);
        }
    }
}

pub broadcast proof fn lemma_binds_of_len(s: Seq<(String, MalType)>)
    ensures
        #[trigger] binds_of(s).len() == s.len(),
{
    lemma_binds_of_len_ind(s);
}

pub broadcast proof fn lemma_binds_of_index(s: Seq<(String, MalType)>, i: int)
    requires
        0 <= i < s.len(),
    ensures
        #[trigger] binds_of(s)[i] == (s[i].0@, s[i].1@),
{
    lemma_binds_of_index_ind(s, i);
}

impl View for Scope {
    type V = ScopeModel;

    open spec fn view(&self) -> ScopeModel {
        ScopeModel {
            outer: match self.outer {
                Some(j) => Some(j as int),
                None => None,
            },
            data: binds_of(self.data@),
        }
    }
}

/// Model of a run of scopes, elementwise.
pub open spec fn scopes_of(s: Seq<Scope>) -> Seq<ScopeModel>
    decreases s.len(),
{
    if s.len() == 0 {
        Seq::empty()
    } else {
        scopes_of(s.drop_last()).push(s.last()@)
    }
}

proof fn lemma_scopes_of_len_ind(s: Seq<Scope>)
    ensures
        scopes_of(s).len() == s.len(),
    decreases s.len(),
{
    if s.len() > 0 {
        lemma_scopes_of_len_ind(s.drop_last());
    }
}

proof fn lemma_scopes_of_index_ind(s: Seq<Scope>, i: int)
    requires
        0 <= i < s.len(),
    ensures
        scopes_of(s)[i] == s[i]@,
    decreases s.len(),
{
    lemma_scopes_of_len_ind(s);
    if s.len() > 0 {
        lemma_scopes_of_len_ind(s.drop_last());
        if i < s.len() - 1 {
            lemma_scopes_of_index_ind(s.drop_last(), i);
        }
    }
}

pub broadcast proof fn lemma_scopes_of_len(s: Seq<Scope>)
    ensures
        #[trigger] scopes_of(s).len() == s.len(),
{
    lemma_scopes_of_len_ind(s);
}

pub broadcast proof fn lemma_scopes_of_index(s: Seq<Scope>, i: int)
    requires
        0 <= i < s.len(),
    ensures
        #[trigger] scopes_of(s)[i] == s[i]@,
{
    lemma_scopes_of_index_ind(s, i);
}

pub broadcast group group_env_facts {
    lemma_binds_of_len,
    lemma_binds_of_index,
    lemma_scopes_of_len,
    lemma_scopes_of_index,
}

/// The arena of every scope created so far. A scope is named by its index;
/// a closure captures such an index, so scopes are shared, never copied.
pub struct Env {
    scopes: Vec<Scope>,
}

/// The model of the arena.
pub struct EnvModel {
    pub scopes: Seq<ScopeModel>,
}

impl View for Env {
    type V = EnvModel;

    closed spec fn view(&self) -> EnvModel {
        EnvModel { scopes: scopes_of(self.scopes@) }
    }
}

// ---------------------------------------------------------------------------
// Lookup and update, specified
// ---------------------------------------------------------------------------

/// The value bound to a name in one scope: the first binding with that name.
pub open spec fn scope_get(data: Seq<(Seq<char>, ValModel)>, name: Seq<char>) -> Option<ValModel>
    decreases data.len(),
{
    if data.len() == 0 {
        None
    } else if data[0].0 == name {
        Some(data[0].1)
    } else {
        scope_get(data.skip(1), name)
    }
}

/// The value a name resolves to from a scope, walking outward through the
/// chain of enclosing scopes; `None` when the root is reached without a match.
pub open spec fn env_lookup(e: EnvModel, s: int, name: Seq<char>) -> Option<ValModel>
    decreases s,
{
    if !(0 <= s < e.scopes.len()) {
        None
    } else {
        match scope_get(e.scopes[s].data, name) {
            Some(v) => Some(v),
            None => match e.scopes[s].outer {
                Some(j) => if 0 <= j < s {
                    env_lookup(e, j, name)
                } else {
                    None
                },
                None => None,
            },
        }
    }
}

/// The number of links from a scope to the root.
pub open spec fn depth_spec(e: EnvModel, s: int) -> int
    decreases s,
{
    if !(0 <= s < e.scopes.len()) {
        0
    } else {
        match e.scopes[s].outer {
            Some(j) => if 0 <= j < s {
                1 + depth_spec(e, j)
            } else {
                0
            },
            None => 0,
        }
    }
}

/// A run of bindings after one name is bound to a value: an existing
/// binding of the name is overwritten in place, else the binding is
/// appended at the end.
pub open spec fn set_binding(
    data: Seq<(Seq<char>, ValModel)>,
    name: Seq<char>,
    v: ValModel,
) -> Seq<(Seq<char>, ValModel)>
    decreases data.len(),
{
    if data.len() == 0 {
        seq![(name, v)]
    } else if data[0].0 == name {
        seq![(name, v)] + data.skip(1)
    } else {
        seq![data[0]] + set_binding(data.skip(1), name, v)
    }
}

/// A run of bindings after the first binding of a name is removed.
pub open spec fn remove_binding(
    data: Seq<(Seq<char>, ValModel)>,
    name: Seq<char>,
) -> Seq<(Seq<char>, ValModel)>
    decreases data.len(),
{
    if data.len() == 0 {
        data
    } else if data[0].0 == name {
        data.skip(1)
    } else {
        seq![data[0]] + remove_binding(data.skip(1), name)
    }
}

/// What a binding update means for lookup in that scope.
pub proof fn lemma_scope_get_after_set(
    data: Seq<(Seq<char>, ValModel)>,
    name: Seq<char>,
    v: ValModel,
    n2: Seq<char>,
)
    ensures
        scope_get(set_binding(data, name, v), n2) == if n2 == name {
            Some(v)
        } else {
            scope_get(data, n2)
        },
    decreases data.len(),
{
    if data.len() == 0 {
        let d2 = set_binding(data, name, v);
        assert(d2 == seq![(name, v)]);
        assert(d2.len() == 1);
        assert(d2[0] == (name, v));
        assert(d2.skip(1) =~= Seq::<(Seq<char>, ValModel)>::empty());
        if n2 == name {
            assert(scope_get(d2, n2) == Some(v));
        } else {
            assert(scope_get(d2, n2) == scope_get(d2.skip(1), n2));
            assert(scope_get(d2.skip(1), n2) is None);
        }
    } else if data[0].0 == name {
        let d2 = seq![(name, v)] + data.skip(1);
        assert(set_binding(data, name, v) == d2);
        assert(d2.len() == 1 + data.skip(1).len());
        assert(d2[0] == (name, v));
        assert(d2.skip(1) =~= data.skip(1));
        if n2 == name {
            assert(scope_get(d2, n2) == Some(v));
        } else {
            assert(scope_get(d2, n2) == scope_get(data.skip(1), n2));
            assert(scope_get(data, n2) == scope_get(data.skip(1), n2));
        }
    } else {
        let d2 = seq![data[0]] + set_binding(data.skip(1), name, v);
        assert(d2[0] == data[0]);
        assert(d2.skip(1) =~= set_binding(data.skip(1), name, v));
        lemma_scope_get_after_set(data.skip(1), name, v, n2);
    }
}

/// Keys pairwise distinct in a run of bindings.
pub open spec fn keys_distinct(data: Seq<(Seq<char>, ValModel)>) -> bool {
    forall|i: int, j: int| 0 <= i < j < data.len() ==> (#[trigger] data[i]).0 != (#[trigger] data[j]).0
}

/// What removing a binding means for lookup, when keys are distinct.
pub proof fn lemma_scope_get_after_remove(
    data: Seq<(Seq<char>, ValModel)>,
    name: Seq<char>,
    n2: Seq<char>,
)
    requires
        keys_distinct(data),
    ensures
        scope_get(remove_binding(data, name), n2) == if n2 == name {
            None::<ValModel>
        } else {
            scope_get(data, n2)
        },
    decreases data.len(),
{
    if data.len() == 0 {
    } else if data[0].0 == name {
        assert forall|k: int| 0 <= k < data.skip(1).len() implies (#[trigger] data.skip(1)[k]).0
            != name by {
            assert(data.skip(1)[k] == data[k + 1]);
        }
        lemma_scope_get_absent(data.skip(1), name);
    } else {
        let d2 = seq![data[0]] + remove_binding(data.skip(1), name);
        assert(d2[0] == data[0]);
        assert(d2.skip(1) =~= remove_binding(data.skip(1), name));
        assert forall|i: int, j: int| 0 <= i < j < data.skip(1).len() implies (#[trigger] data.skip(
            1,
        )[i]).0 != (#[trigger] data.skip(1)[j]).0 by {
            assert(data.skip(1)[i] == data[i + 1]);
            assert(data.skip(1)[j] == data[j + 1]);
        }
        lemma_scope_get_after_remove(data.skip(1), name, n2);
    }
}

/// A name bound nowhere in a run of bindings resolves to nothing there.
pub proof fn lemma_scope_get_absent(data: Seq<(Seq<char>, ValModel)>, name: Seq<char>)
    requires
        forall|k: int| 0 <= k < data.len() ==> (#[trigger] data[k]).0 != name,
    ensures
        scope_get(data, name) is None,
    decreases data.len(),
{
    if data.len() > 0 {
        assert forall|k: int| 0 <= k < data.skip(1).len() implies (#[trigger] data.skip(1)[k]).0
            != name by {
            assert(data.skip(1)[k] == data[k + 1]);
        }
        lemma_scope_get_absent(data.skip(1), name);
    }
}

/// The first binding of a name gives the looked-up value.
pub proof fn lemma_scope_get_found(data: Seq<(Seq<char>, ValModel)>, name: Seq<char>, i: int)
    requires
        0 <= i < data.len(),
        data[i].0 == name,
        forall|k: int| 0 <= k < i ==> (#[trigger] data[k]).0 != name,
    ensures
        scope_get(data, name) == Some(data[i].1),
    decreases data.len(),
{
    if i == 0 {
    } else {
        assert forall|k: int| 0 <= k < i - 1 implies (#[trigger] data.skip(1)[k]).0 != name by {
            assert(data.skip(1)[k] == data[k + 1]);
        }
        assert(data.skip(1)[i - 1] == data[i]);
        lemma_scope_get_found(data.skip(1), name, i - 1);
    }
}

// ---------------------------------------------------------------------------
// Well-formedness of the arena
// ---------------------------------------------------------------------------

/// One scope is well formed for its position: the outer link points to an
/// earlier scope, keys are distinct, and every stored value is well formed
/// for the whole arena.
pub open spec fn scope_wf(sc: ScopeModel, i: int, n: int) -> bool {
    &&& match sc.outer {
        Some(j) => 0 <= j < i,
        None => true,
    }
    &&& keys_distinct(sc.data)
    &&& forall|k: int| 0 <= k < sc.data.len() ==> val_wf((#[trigger] sc.data[k]).1, n)
}

/// The arena is well formed.
pub open spec fn env_wf(e: EnvModel) -> bool {
    forall|i: int|
        0 <= i < e.scopes.len() ==> scope_wf(#[trigger] e.scopes[i], i, e.scopes.len() as int)
}

/// A well-formed scope stays well formed when the arena grows.
pub proof fn lemma_scope_wf_mono(sc: ScopeModel, i: int, n: int, m: int)
    requires
        scope_wf(sc, i, n),
        n <= m,
    ensures
        scope_wf(sc, i, m),
{
    assert forall|k: int| 0 <= k < sc.data.len() implies val_wf((#[trigger] sc.data[k]).1, m) by {
        lemma_val_wf_mono(sc.data[k].1, n, m);
    }
}

// ---------------------------------------------------------------------------
// Executable environment operations
// ---------------------------------------------------------------------------

/// Finds the first binding of a key in a run of bindings.
#[verifier::loop_isolation(false)]
fn find_binding(data: &Vec<(String, MalType)>, key: &str) -> (r: Option<usize>)
    ensures
        match r {
            Some(i) => i < data@.len() && data@[i as int].0@ == key@ && forall|k: int|
                0 <= k < i ==> (#[trigger] data@[k]).0@ != key@,
            None => forall|k: int| 0 <= k < data@.len() ==> (#[trigger] data@[k]).0@ != key@,
        },
{
    let mut i: usize = 0;
    while i < data.len()
        invariant
            i <= data@.len(),
            forall|k: int| 0 <= k < i ==> (#[trigger] data@[k]).0@ != key@,
        decreases data@.len() - i,
    {
        if crate::text::str_eq(data[i].0.as_str(), key) {
            return Some(i);
        }
        i = i + 1;
    }
    None
}

/// The message of the error that a failed lookup carries.
pub open spec fn lookup_err_msg(name: Seq<char>) -> Seq<char> {
    "'"@ + name + "' not found."@
}

impl Env {
    /// A fresh arena holding only the root scope.
    pub fn new() -> (e: Env)
        ensures
            e@.scopes.len() == 1,
            e@.scopes[0].outer is None,
            e@.scopes[0].data == Seq::<(Seq<char>, ValModel)>::empty(),
            env_wf(e@),
    {
        broadcast use group_env_facts;

        let root = Scope { outer: None, data: Vec::new() };
        let mut scopes: Vec<Scope> = Vec::new();
        scopes.push(root);
        let e = Env { scopes };
        proof {
            assert(e@.scopes[0].data =~= Seq::<(Seq<char>, ValModel)>::empty());
        }
        e
    }

    /// Creates a new scope whose enclosing scope is `outer`.
    pub fn push_scope(&mut self, outer: usize) -> (id: usize)
        requires
            env_wf(old(self)@),
            outer < old(self)@.scopes.len(),
        ensures
            id == old(self)@.scopes.len(),
            final(self)@.scopes == old(self)@.scopes.push(
                ScopeModel { outer: Some(outer as int), data: Seq::empty() },
            ),
            env_wf(final(self)@),
    {
        broadcast use group_env_facts;

        let id = self.scopes.len();
        let sc = Scope { outer: Some(outer), data: Vec::new() };
        proof {
            assert(sc@.data =~= Seq::<(Seq<char>, ValModel)>::empty());
        }
        self.scopes.push(sc);
        proof {
            let e2 = self@;
            let e1 = old(self)@;
            assert(e2.scopes =~= e1.scopes.push(
                ScopeModel { outer: Some(outer as int), data: Seq::empty() },
            ));
            assert forall|i: int| 0 <= i < e2.scopes.len() implies scope_wf(
                #[trigger] e2.scopes[i],
                i,
                e2.scopes.len() as int,
            ) by {
                if i < e1.scopes.len() {
                    assert(scope_wf(e1.scopes[i], i, e1.scopes.len() as int));
                    lemma_scope_wf_mono(e1.scopes[i], i, e1.scopes.len() as int,
                        e2.scopes.len() as int);
                    assert(e2.scopes[i] == e1.scopes[i]);
                }
            }
        }
        id
    }

    /// Binds a name to a value in one scope, overwriting any binding of the
    /// same name there; outer scopes are never touched.
    pub fn set(&mut self, sc: usize, key: &str, value: MalType)
        requires
            env_wf(old(self)@),
            sc < old(self)@.scopes.len(),
            val_wf(value@, old(self)@.scopes.len() as int),
        ensures
            final(self)@.scopes.len() == old(self)@.scopes.len(),
            forall|i: int|
                0 <= i < old(self)@.scopes.len() && i != sc ==> final(self)@.scopes[i] == old(
                    self,
                )@.scopes[i],
            final(self)@.scopes[sc as int].outer == old(self)@.scopes[sc as int].outer,
            final(self)@.scopes[sc as int].data == set_binding(
                old(self)@.scopes[sc as int].data,
                key@,
                value@,
            ),
            env_wf(final(self)@),
    {
        broadcast use group_env_facts;

        let ghost e1 = old(self)@;
        let ghost old_data = self.scopes@[sc as int].data@;
        let found = find_binding(&self.scopes[sc].data, key);
        match found {
            Some(i) => {
                let pair = (key.to_owned(), value);
                self.scopes[sc].data[i] = pair;
                proof {
                    lemma_set_binding_found(binds_of(old_data), key@, value@, i as int);
                    assert(binds_of(self.scopes@[sc as int].data@) =~= binds_of(old_data).update(
                        i as int,
                        (key@, value@),
                    ));
                }
            },
            None => {
                let pair = (key.to_owned(), value);
                self.scopes[sc].data.push(pair);
                proof {
                    lemma_set_binding_absent(binds_of(old_data), key@, value@);
                    assert(binds_of(self.scopes@[sc as int].data@) =~= binds_of(old_data).push(
                        (key@, value@),
                    ));
                }
            },
        }
        proof {
            let e2 = self@;
            assert forall|i: int| 0 <= i < e1.scopes.len() && i != sc implies e2.scopes[i]
                == e1.scopes[i] by {
                assert(self.scopes@[i] == old(self).scopes@[i]);
            }
            lemma_set_binding_wf(e1.scopes[sc as int].data, key@, value@,
                e1.scopes.len() as int);
            assert forall|i: int| 0 <= i < e2.scopes.len() implies scope_wf(
                #[trigger] e2.scopes[i],
                i,
                e2.scopes.len() as int,
            ) by {
                assert(scope_wf(e1.scopes[i], i, e1.scopes.len() as int));
            }
        }
    }

    /// Removes any binding of a name from one scope; outer scopes are never
    /// touched.
    pub fn remove(&mut self, sc: usize, key: &str)
        requires
            env_wf(old(self)@),
            sc < old(self)@.scopes.len(),
        ensures
            final(self)@.scopes.len() == old(self)@.scopes.len(),
            forall|i: int|
                0 <= i < old(self)@.scopes.len() && i != sc ==> final(self)@.scopes[i] == old(
                    self,
                )@.scopes[i],
            final(self)@.scopes[sc as int].outer == old(self)@.scopes[sc as int].outer,
            final(self)@.scopes[sc as int].data == remove_binding(
                old(self)@.scopes[sc as int].data,
                key@,
            ),
            env_wf(final(self)@),
    {
        broadcast use group_env_facts;

        let ghost e1 = old(self)@;
        let ghost old_data = self.scopes@[sc as int].data@;
        let found = find_binding(&self.scopes[sc].data, key);
        match found {
            Some(i) => {
                self.scopes[sc].data.remove(i);
                proof {
                    lemma_remove_binding_found(binds_of(old_data), key@, i as int);
                    assert(binds_of(self.scopes@[sc as int].data@) =~= binds_of(old_data).remove(
                        i as int,
                    ));
                }
            },
            None => {
                proof {
                    lemma_remove_binding_absent(binds_of(old_data), key@);
                }
            },
        }
        proof {
            let e2 = self@;
            assert forall|i: int| 0 <= i < e1.scopes.len() && i != sc implies e2.scopes[i]
                == e1.scopes[i] by {
                assert(self.scopes@[i] == old(self).scopes@[i]);
            }
            lemma_remove_binding_wf(e1.scopes[sc as int].data, key@, e1.scopes.len() as int);
            assert forall|i: int| 0 <= i < e2.scopes.len() implies scope_wf(
                #[trigger] e2.scopes[i],
                i,
                e2.scopes.len() as int,
            ) by {
                assert(scope_wf(e1.scopes[i], i, e1.scopes.len() as int));
            }
        }
    }

    /// Resolves a name from a scope outward through the chain; a failed
    /// lookup gives an error naming the looked-up symbol.
    #[verifier::loop_isolation(false)]
    pub fn get(&self, sc: usize, key: &str) -> (r: Result<MalType, crate::MalError>)
        requires
            env_wf(self@),
            sc < self@.scopes.len(),
        ensures
            match r {
                Ok(v) => env_lookup(self@, sc as int, key@) == Some(v@),
                Err(e) => env_lookup(self@, sc as int, key@) is None && e@ == lookup_err_msg(key@),
            },
    {
        broadcast use group_env_facts;

        let mut cur: usize = sc;
        loop
            invariant
                cur < self@.scopes.len(),
                env_lookup(self@, sc as int, key@) == env_lookup(self@, cur as int, key@),
            decreases cur,
        {
            let found = find_binding(&self.scopes[cur].data, key);
            match found {
                Some(i) => {
                    let v = self.scopes[cur].data[i].1.clone();
                    proof {
                        lemma_scope_get_found(self@.scopes[cur as int].data, key@, i as int);
                    }
                    return Ok(v);
                },
                None => {
                    proof {
                        lemma_scope_get_absent(self@.scopes[cur as int].data, key@);
                    }
                    let sc_outer = self.scopes[cur].outer;
                    match sc_outer {
                        Some(j) => {
                            proof {
                                assert(scope_wf(self@.scopes[cur as int], cur as int,
                                    self@.scopes.len() as int));
                            }
                            cur = j;
                        },
                        None => {
                            let mut msg = String::new();
                            msg.append("'");
                            msg.append(key);
                            msg.append("' not found.");
                            proof {
                                assert(msg@ =~= lookup_err_msg(key@));
                            }
                            return Err(crate::MalError::new(msg.as_str()));
                        },
                    }
                },
            }
        }
    }

    /// The number of links from a scope to the root.
    #[verifier::loop_isolation(false)]
    pub fn depth(&self, sc: usize) -> (d: usize)
        requires
            env_wf(self@),
            sc < self@.scopes.len(),
        ensures
            d == depth_spec(self@, sc as int),
    {
        broadcast use group_env_facts;

        let mut cur: usize = sc;
        let mut d: usize = 0;
        loop
            invariant
                cur <= sc,
                cur < self@.scopes.len(),
                d <= sc - cur,
                depth_spec(self@, sc as int) == d + depth_spec(self@, cur as int),
            decreases cur,
        {
            proof {
                assert(scope_wf(self@.scopes[cur as int], cur as int, self@.scopes.len() as int));
            }
            let sc_outer = self.scopes[cur].outer;
            match sc_outer {
                Some(j) => {
                    cur = j;
                    d = d + 1;
                },
                None => {
                    return d;
                },
            }
        }
    }
}

// ---------------------------------------------------------------------------
// Update lemmas used by the methods above
// ---------------------------------------------------------------------------

proof fn lemma_set_binding_absent(data: Seq<(Seq<char>, ValModel)>, name: Seq<char>, v: ValModel)
    requires
        forall|k: int| 0 <= k < data.len() ==> (#[trigger] data[k]).0 != name,
    ensures
        set_binding(data, name, v) == data.push((name, v)),
    decreases data.len(),
{
    if data.len() == 0 {
        assert(set_binding(data, name, v) =~= data.push((name, v)));
    } else {
        assert forall|k: int| 0 <= k < data.skip(1).len() implies (#[trigger] data.skip(1)[k]).0
            != name by {
            assert(data.skip(1)[k] == data[k + 1]);
        }
        lemma_set_binding_absent(data.skip(1), name, v);
        assert(set_binding(data, name, v) =~= data.push((name, v)));
    }
}

proof fn lemma_set_binding_found(
    data: Seq<(Seq<char>, ValModel)>,
    name: Seq<char>,
    v: ValModel,
    i: int,
)
    requires
        0 <= i < data.len(),
        data[i].0 == name,
        forall|k: int| 0 <= k < i ==> (#[trigger] data[k]).0 != name,
    ensures
        set_binding(data, name, v) == data.update(i, (name, v)),
    decreases data.len(),
{
    if i == 0 {
        assert(set_binding(data, name, v) =~= data.update(0, (name, v)));
    } else {
        assert forall|k: int| 0 <= k < i - 1 implies (#[trigger] data.skip(1)[k]).0 != name by {
            assert(data.skip(1)[k] == data[k + 1]);
        }
        assert(data.skip(1)[i - 1] == data[i]);
        lemma_set_binding_found(data.skip(1), name, v, i - 1);
        assert(set_binding(data, name, v) =~= data.update(i, (name, v)));
    }
}

proof fn lemma_remove_binding_absent(data: Seq<(Seq<char>, ValModel)>, name: Seq<char>)
    requires
        forall|k: int| 0 <= k < data.len() ==> (#[trigger] data[k]).0 != name,
    ensures
        remove_binding(data, name) == data,
    decreases data.len(),
{
    if data.len() > 0 {
        assert forall|k: int| 0 <= k < data.skip(1).len() implies (#[trigger] data.skip(1)[k]).0
            != name by {
            assert(data.skip(1)[k] == data[k + 1]);
        }
        lemma_remove_binding_absent(data.skip(1), name);
        assert(remove_binding(data, name) =~= data);
    }
}

proof fn lemma_remove_binding_found(data: Seq<(Seq<char>, ValModel)>, name: Seq<char>, i: int)
    requires
        0 <= i < data.len(),
        data[i].0 == name,
        forall|k: int| 0 <= k < i ==> (#[trigger] data[k]).0 != name,
    ensures
        remove_binding(data, name) == data.remove(i),
    decreases data.len(),
{
    if i == 0 {
        assert(remove_binding(data, name) =~= data.remove(0));
    } else {
        assert forall|k: int| 0 <= k < i - 1 implies (#[trigger] data.skip(1)[k]).0 != name by {
            assert(data.skip(1)[k] == data[k + 1]);
        }
        assert(data.skip(1)[i - 1] == data[i]);
        lemma_remove_binding_found(data.skip(1), name, i - 1);
        assert(remove_binding(data, name) =~= data.remove(i));
    }
}

proof fn lemma_set_binding_wf(data: Seq<(Seq<char>, ValModel)>, name: Seq<char>, v: ValModel, n: int)
    requires
        keys_distinct(data),
        forall|k: int| 0 <= k < data.len() ==> val_wf((#[trigger] data[k]).1, n),
        val_wf(v, n),
    ensures
        keys_distinct(set_binding(data, name, v)),
        forall|k: int|
            0 <= k < set_binding(data, name, v).len() ==> val_wf(
                (#[trigger] set_binding(data, name, v)[k]).1,
                n,
            ),
    decreases data.len(),
{
    let d2 = set_binding(data, name, v);
    if data.len() == 0 {
    } else if data[0].0 == name {
        assert(d2 == seq![(name, v)] + data.skip(1));
        assert forall|i: int, j: int| 0 <= i < j < d2.len() implies (#[trigger] d2[i]).0
            != (#[trigger] d2[j]).0 by {
            if i == 0 {
                assert(d2[j] == data[j]);
            } else {
                assert(d2[i] == data[i]);
                assert(d2[j] == data[j]);
            }
        }
        assert forall|k: int| 0 <= k < d2.len() implies val_wf((#[trigger] d2[k]).1, n) by {
            if k > 0 {
                assert(d2[k] == data[k]);
            }
        }
    } else {
        assert forall|i: int, j: int| 0 <= i < j < data.skip(1).len() implies (#[trigger] data.skip(
            1,
        )[i]).0 != (#[trigger] data.skip(1)[j]).0 by {
            assert(data.skip(1)[i] == data[i + 1]);
            assert(data.skip(1)[j] == data[j + 1]);
        }
        assert forall|k: int| 0 <= k < data.skip(1).len() implies val_wf(
            (#[trigger] data.skip(1)[k]).1,
            n,
        ) by {
            assert(data.skip(1)[k] == data[k + 1]);
        }
        lemma_set_binding_wf(data.skip(1), name, v, n);
        let r2 = set_binding(data.skip(1), name, v);
        assert(d2 == seq![data[0]] + r2);
        assert forall|i: int, j: int| 0 <= i < j < d2.len() implies (#[trigger] d2[i]).0
            != (#[trigger] d2[j]).0 by {
            if i == 0 {
                assert(d2[j] == r2[j - 1]);
                lemma_set_binding_keys(data.skip(1), name, v, j - 1);
            } else {
                assert(d2[i] == r2[i - 1]);
                assert(d2[j] == r2[j - 1]);
            }
        }
        assert forall|k: int| 0 <= k < d2.len() implies val_wf((#[trigger] d2[k]).1, n) by {
            if k > 0 {
                assert(d2[k] == r2[k - 1]);
            }
        }
    }
}

/// Every key after a set is an old key or the set name.
proof fn lemma_set_binding_keys(
    data: Seq<(Seq<char>, ValModel)>,
    name: Seq<char>,
    v: ValModel,
    k: int,
)
    requires
        0 <= k < set_binding(data, name, v).len(),
    ensures
        set_binding(data, name, v)[k].0 == name || (exists|j: int|
            0 <= j < data.len() && (#[trigger] data[j]).0 == set_binding(data, name, v)[k].0),
    decreases data.len(),
{
    let d2 = set_binding(data, name, v);
    if data.len() == 0 {
    } else if data[0].0 == name {
        if k > 0 {
            assert(d2[k] == data[k]);
        }
    } else {
        if k == 0 {
            assert(d2[0] == data[0]);
        } else {
            assert(d2[k] == set_binding(data.skip(1), name, v)[k - 1]);
            lemma_set_binding_keys(data.skip(1), name, v, k - 1);
            if set_binding(data.skip(1), name, v)[k - 1].0 != name {
                let j = choose|j: int|
                    0 <= j < data.skip(1).len() && (#[trigger] data.skip(1)[j]).0 == set_binding(
                        data.skip(1),
                        name,
                        v,
                    )[k - 1].0;
                assert(data[j + 1].0 == d2[k].0);
            }
        }
    }
}

proof fn lemma_remove_binding_wf(data: Seq<(Seq<char>, ValModel)>, name: Seq<char>, n: int)
    requires
        keys_distinct(data),
        forall|k: int| 0 <= k < data.len() ==> val_wf((#[trigger] data[k]).1, n),
    ensures
        keys_distinct(remove_binding(data, name)),
        forall|k: int|
            0 <= k < remove_binding(data, name).len() ==> val_wf(
                (#[trigger] remove_binding(data, name)[k]).1,
                n,
            ),
    decreases data.len(),
{
    let d2 = remove_binding(data, name);
    if data.len() == 0 {
    } else if data[0].0 == name {
        assert forall|i: int, j: int| 0 <= i < j < d2.len() implies (#[trigger] d2[i]).0
            != (#[trigger] d2[j]).0 by {
            assert(d2[i] == data[i + 1]);
            assert(d2[j] == data[j + 1]);
        }
        assert forall|k: int| 0 <= k < d2.len() implies val_wf((#[trigger] d2[k]).1, n) by {
            assert(d2[k] == data[k + 1]);
        }
    } else {
        assert forall|i: int, j: int| 0 <= i < j < data.skip(1).len() implies (#[trigger] data.skip(
            1,
        )[i]).0 != (#[trigger] data.skip(1)[j]).0 by {
            assert(data.skip(1)[i] == data[i + 1]);
            assert(data.skip(1)[j] == data[j + 1]);
        }
        assert forall|k: int| 0 <= k < data.skip(1).len() implies val_wf(
            (#[trigger] data.skip(1)[k]).1,
            n,
        ) by {
            assert(data.skip(1)[k] == data[k + 1]);
        }
        lemma_remove_binding_wf(data.skip(1), name, n);
        let r2 = remove_binding(data.skip(1), name);
        assert(d2 == seq![data[0]] + r2);
        assert forall|i: int, j: int| 0 <= i < j < d2.len() implies (#[trigger] d2[i]).0
            != (#[trigger] d2[j]).0 by {
            if i == 0 {
                assert(d2[j] == r2[j - 1]);
                lemma_remove_binding_keys(data.skip(1), name, j - 1);
            } else {
                assert(d2[i] == r2[i - 1]);
                assert(d2[j] == r2[j - 1]);
            }
        }
        assert forall|k: int| 0 <= k < d2.len() implies val_wf((#[trigger] d2[k]).1, n) by {
            if k > 0 {
                assert(d2[k] == r2[k - 1]);
            }
        }
    }
}

/// Every key after a remove is an old key.
proof fn lemma_remove_binding_keys(data: Seq<(Seq<char>, ValModel)>, name: Seq<char>, k: int)
    requires
        0 <= k < remove_binding(data, name).len(),
    ensures
        exists|j: int|
            0 <= j < data.len() && (#[trigger] data[j]).0 == remove_binding(data, name)[k].0,
    decreases data.len(),
{
    let d2 = remove_binding(data, name);
    if data.len() == 0 {
    } else if data[0].0 == name {
        assert(d2[k] == data[k + 1]);
    } else {
        if k == 0 {
            assert(d2[0] == data[0]);
        } else {
            assert(d2[k] == remove_binding(data.skip(1), name)[k - 1]);
            lemma_remove_binding_keys(data.skip(1), name, k - 1);
            let j = choose|j: int|
                0 <= j < data.skip(1).len() && (#[trigger] data.skip(1)[j]).0 == remove_binding(
                    data.skip(1),
                    name,
                )[k - 1].0;
            assert(data[j + 1].0 == d2[k].0);
        }
    }
}

} // verus!
