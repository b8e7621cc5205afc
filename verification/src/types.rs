use vstd::prelude::*;

verus! {

// ---------------------------------------------------------------------------
// Token
// ---------------------------------------------------------------------------

/// One lexical token: a span of source text produced by the tokenizer.
pub struct Token(pub String);

impl View for Token {
    type V = Seq<char>;

    open spec fn view(&self) -> Seq<char> {
        self.0@
    }
}

impl Token {
    pub fn new(s: &str) -> (t: Token)
        ensures
            t@ == s@,
    {
        Token(s.to_owned())
    }

    pub fn to_string(&self) -> (s: String)
        ensures
            s@ == self@,
    {
        self.0.clone()
    }
}

impl Clone for Token {
    fn clone(&self) -> (t: Self)
        ensures
            t@ == self@,
    {
        Token(self.0.clone())
    }
}

// ---------------------------------------------------------------------------
// Number
// ---------------------------------------------------------------------------

/// A numeric value. The language's numbers are signed 64-bit integers.
#[derive(Clone, Copy, Debug, PartialEq, Eq, Structural)]
pub enum Number {
    Int(i64),
}

impl Number {
    pub open spec fn spec_int(self) -> int {
        match self {
            Number::Int(i) => i as int,
        }
    }
}

// ---------------------------------------------------------------------------
// Builtin and MalFunc
// ---------------------------------------------------------------------------

/// The closed set of primitive functions installed in the root environment.
#[derive(Clone, Copy, Debug, PartialEq, Eq, Structural)]
pub enum Builtin {
    Plus,
    Minus,
    Times,
    Divide,
    Equal,
    Less,
    LessEq,
    Greater,
    GreaterEq,
    List,
    IsList,
    IsEmpty,
    Count,
    PrStr,
    Str,
    Prn,
    Println,
}

/// The name under which a primitive is bound in the root environment,
/// and under which it prints as `#<name>`.
pub open spec fn builtin_name(op: Builtin) -> Seq<char> {
    match op {
        Builtin::Plus => "+"@,
        Builtin::Minus => "-"@,
        Builtin::Times => "*"@,
        Builtin::Divide => "/"@,
        Builtin::Equal => "="@,
        Builtin::Less => "<"@,
        Builtin::LessEq => "<="@,
        Builtin::Greater => ">"@,
        Builtin::GreaterEq => ">="@,
        Builtin::List => "list"@,
        Builtin::IsList => "list?"@,
        Builtin::IsEmpty => "empty?"@,
        Builtin::Count => "count"@,
        Builtin::PrStr => "pr-str"@,
        Builtin::Str => "str"@,
        Builtin::Prn => "prn"@,
        Builtin::Println => "println"@,
    }
}

/// A primitive function value: one of the closed set of builtins.
#[derive(Clone, Copy, Debug, PartialEq, Eq, Structural)]
pub struct MalFunc {
    pub op: Builtin,
}

impl MalFunc {
    pub fn new(op: Builtin) -> (f: MalFunc)
        ensures
            f.op == op,
    {
        MalFunc { op }
    }

    pub fn name(&self) -> (s: String)
        ensures
            s@ == builtin_name(self.op),
    {
        match self.op {
            Builtin::Plus => "+".to_owned(),
            Builtin::Minus => "-".to_owned(),
            Builtin::Times => "*".to_owned(),
            Builtin::Divide => "/".to_owned(),
            Builtin::Equal => "=".to_owned(),
            Builtin::Less => "<".to_owned(),
            Builtin::LessEq => "<=".to_owned(),
            Builtin::Greater => ">".to_owned(),
            Builtin::GreaterEq => ">=".to_owned(),
            Builtin::List => "list".to_owned(),
            Builtin::IsList => "list?".to_owned(),
            Builtin::IsEmpty => "empty?".to_owned(),
            Builtin::Count => "count".to_owned(),
            Builtin::PrStr => "pr-str".to_owned(),
            Builtin::Str => "str".to_owned(),
            Builtin::Prn => "prn".to_owned(),
            Builtin::Println => "println".to_owned(),
        }
    }
}

// ---------------------------------------------------------------------------
// MalType and its mathematical model
// ---------------------------------------------------------------------------

/// An ordered sequence value: a list (`true`, parenthesized) or a vector
/// (`false`, bracketed). The two differ only in surface syntax.
pub struct MalListVec(pub bool, pub Vec<MalType>);

/// A runtime value.
pub enum MalType {
    /// Pseudo-value for a line comment; discarded inside sequences.
    Comment,
    Nil,
    True,
    False,
    Num(Number),
    Str(String),
    Keyword(String),
    Symbol(String),
    ListVec(MalListVec),
    /// An ordered association list of key/value pairs, curly-brace syntax.
    Hashmap(Vec<(MalType, MalType)>),
    /// A primitive function.
    Fn(MalFunc),
    /// A closure: parameter names (possibly with a `&` rest marker), a
    /// one-element body, and the index of the captured environment scope.
    Lambda(Vec<String>, Vec<MalType>, usize),
}

/// The mathematical model of a runtime value.
pub enum ValModel {
    Comment,
    Nil,
    True,
    False,
    Num(int),
    Str(Seq<char>),
    Keyword(Seq<char>),
    Symbol(Seq<char>),
    Sequence(bool, Seq<ValModel>),
    Hashmap(Seq<(ValModel, ValModel)>),
    Fn(Builtin),
    Lambda(Seq<Seq<char>>, Seq<ValModel>, int),
}

/// The mathematical model of a value.
pub open spec fn val_model(m: MalType) -> ValModel
    decreases m,
{
    match m {
        MalType::Comment => ValModel::Comment,
        MalType::Nil => ValModel::Nil,
        MalType::True => ValModel::True,
        MalType::False => ValModel::False,
        MalType::Num(n) => ValModel::Num(n.spec_int()),
        MalType::Str(s) => ValModel::Str(s@),
        MalType::Keyword(s) => ValModel::Keyword(s@),
        MalType::Symbol(s) => ValModel::Symbol(s@),
        MalType::ListVec(lv) => ValModel::Sequence(lv.0, vals_of(lv.1@)),
        MalType::Hashmap(ps) => ValModel::Hashmap(pairs_of(ps@)),
        MalType::Fn(f) => ValModel::Fn(f.op),
        MalType::Lambda(ps, body, env) => ValModel::Lambda(
            strs_of(ps@),
            vals_of(body@),
            env as int,
        ),
    }
}

/// Model of a vector of values, elementwise.
pub open spec fn vals_of(s: Seq<MalType>) -> Seq<ValModel>
    decreases s,
{
    if s.len() == 0 {
        Seq::empty()
    } else {
        vals_of(s.drop_last()).push(val_model(s.last()))
    }
}

/// Model of a vector of key/value pairs, elementwise.
pub open spec fn pairs_of(s: Seq<(MalType, MalType)>) -> Seq<(ValModel, ValModel)>
    decreases s,
{
    if s.len() == 0 {
        Seq::empty()
    } else {
        pairs_of(s.drop_last()).push((val_model(s.last().0), val_model(s.last().1)))
    }
}

/// Model of a vector of names, elementwise.
pub open spec fn strs_of(s: Seq<String>) -> Seq<Seq<char>>
    decreases s.len(),
{
    if s.len() == 0 {
        Seq::empty()
    } else {
        strs_of(s.drop_last()).push(s.last()@)
    }
}

impl View for MalType {
    type V = ValModel;

    open spec fn view(&self) -> ValModel {
        val_model(*self)
    }
}

impl View for MalListVec {
    type V = (bool, Seq<ValModel>);

    open spec fn view(&self) -> (bool, Seq<ValModel>) {
        (self.0, vals_of(self.1@))
    }
}

/// Indexing facts for the elementwise models.
proof fn lemma_vals_of_len_ind(s: Seq<MalType>)
    ensures
        vals_of(s).len() == s.len(),
    decreases s,
{
    if s.len() > 0 {
        lemma_vals_of_len_ind(s.drop_last());
    }
}

proof fn lemma_vals_of_index_ind(s: Seq<MalType>, i: int)
    requires
        0 <= i < s.len(),
    ensures
        vals_of(s)[i] == s[i]@,
    decreases s,
{
    lemma_vals_of_len_ind(s);
    if s.len() > 0 {
        lemma_vals_of_len_ind(s.drop_last());
        if i < s.len() - 1 {
            lemma_vals_of_index_ind(s.drop_last(), i);
        }
    }
}

proof fn lemma_pairs_of_len_ind(s: Seq<(MalType, MalType)>)
    ensures
        pairs_of(s).len() == s.len(),
    decreases s,
{
    if s.len() > 0 {
        lemma_pairs_of_len_ind(s.drop_last());
    }
}

proof fn lemma_pairs_of_index_ind(s: Seq<(MalType, MalType)>, i: int)
    requires
        0 <= i < s.len(),
    ensures
        pairs_of(s)[i] == (s[i].0@, s[i].1@),
    decreases s,
{
    lemma_pairs_of_len_ind(s);
    if s.len() > 0 {
        lemma_pairs_of_len_ind(s.drop_last());
        if i < s.len() - 1 {
            lemma_pairs_of_index_ind(s.drop_last(), i);
        }
    }
}

proof fn lemma_strs_of_len_ind(s: Seq<String>)
    ensures
        strs_of(s).len() == s.len(),
    decreases s.len(),
{
    if s.len() > 0 {
        lemma_strs_of_len_ind(s.drop_last());
    }
}

proof fn lemma_strs_of_index_ind(s: Seq<String>, i: int)
    requires
        0 <= i < s.len(),
    ensures
        strs_of(s)[i] == s[i]@,
    decreases s.len(),
{
    lemma_strs_of_len_ind(s);
    if s.len() > 0 {
        lemma_strs_of_len_ind(s.drop_last());
        if i < s.len() - 1 {
            lemma_strs_of_index_ind(s.drop_last(), i);
        }
    }
}

pub broadcast proof fn lemma_vals_of_len(s: Seq<MalType>)
    ensures
        #[trigger] vals_of(s).len() == s.len(),
{
    lemma_vals_of_len_ind(s);
}

pub broadcast proof fn lemma_vals_of_index(s: Seq<MalType>, i: int)
    requires
        0 <= i < s.len(),
    ensures
        #[trigger] vals_of(s)[i] == s[i]@,
{
    lemma_vals_of_index_ind(s, i);
}

pub broadcast proof fn lemma_pairs_of_len(s: Seq<(MalType, MalType)>)
    ensures
        #[trigger] pairs_of(s).len() == s.len(),
{
    lemma_pairs_of_len_ind(s);
}

pub broadcast proof fn lemma_pairs_of_index(s: Seq<(MalType, MalType)>, i: int)
    requires
        0 <= i < s.len(),
    ensures
        #[trigger] pairs_of(s)[i] == (s[i].0@, s[i].1@),
{
    lemma_pairs_of_index_ind(s, i);
}

pub broadcast proof fn lemma_strs_of_len(s: Seq<String>)
    ensures
        #[trigger] strs_of(s).len() == s.len(),
{
    lemma_strs_of_len_ind(s);
}

pub broadcast proof fn lemma_strs_of_index(s: Seq<String>, i: int)
    requires
        0 <= i < s.len(),
    ensures
        #[trigger] strs_of(s)[i] == s[i]@,
{
    lemma_strs_of_index_ind(s, i);
}

/// Unfolding fact: a nonempty run of names models as its front part plus
/// its last name.
pub proof fn lemma_strs_of_snoc(s: Seq<String>)
    requires
        s.len() > 0,
    ensures
        strs_of(s) == strs_of(s.drop_last()).push(s.last()@),
{
}

pub broadcast group group_model_facts {
    lemma_vals_of_len,
    lemma_vals_of_index,
    lemma_pairs_of_len,
    lemma_pairs_of_index,
    lemma_strs_of_len,
    lemma_strs_of_index,
}

// ---------------------------------------------------------------------------
// Structural equality
// ---------------------------------------------------------------------------

/// Structural equality between two values, as used by the `=` primitive:
/// lists and vectors compare by their element sequences alone, ignoring
/// the list-versus-vector tag.
pub open spec fn eq_spec(a: ValModel, b: ValModel) -> bool
    decreases a, 0nat,
{
    match (a, b) {
        (ValModel::Sequence(_, x), ValModel::Sequence(_, y)) => eq_seq_spec(x, y),
        (ValModel::Hashmap(x), ValModel::Hashmap(y)) => eq_pairs_spec(x, y),
        (ValModel::Lambda(px, bx, ex), ValModel::Lambda(py, by, ey)) => {
            &&& px == py
            &&& ex == ey
            &&& eq_seq_spec(bx, by)
        },
        (x, y) => x == y,
    }
}

/// Elementwise structural equality of two runs of values.
pub open spec fn eq_seq_spec(x: Seq<ValModel>, y: Seq<ValModel>) -> bool
    decreases x, 1nat,
{
    if x.len() != y.len() {
        false
    } else if x.len() == 0 {
        true
    } else {
        eq_seq_spec(x.drop_last(), y.drop_last()) && eq_spec(x.last(), y.last())
    }
}

/// Elementwise structural equality of two runs of key/value pairs.
pub open spec fn eq_pairs_spec(x: Seq<(ValModel, ValModel)>, y: Seq<(ValModel, ValModel)>) -> bool
    decreases x, 1nat,
{
    if x.len() != y.len() {
        false
    } else if x.len() == 0 {
        true
    } else {
        &&& eq_pairs_spec(x.drop_last(), y.drop_last())
        &&& eq_spec(x.last().0, y.last().0)
        &&& eq_spec(x.last().1, y.last().1)
    }
}

pub(crate) proof fn lemma_eq_seq_take(x: Seq<ValModel>, y: Seq<ValModel>, i: int)
    requires
        x.len() == y.len(),
        0 <= i < x.len(),
    ensures
        eq_seq_spec(x.take(i + 1), y.take(i + 1)) == (eq_seq_spec(x.take(i), y.take(i)) && eq_spec(
            x[i],
            y[i],
        )),
{
    assert(x.take(i + 1).drop_last() =~= x.take(i));
    assert(y.take(i + 1).drop_last() =~= y.take(i));
    assert(x.take(i + 1).last() == x[i]);
    assert(y.take(i + 1).last() == y[i]);
}

pub(crate) proof fn lemma_eq_seq_whole(x: Seq<ValModel>, y: Seq<ValModel>)
    requires
        x.len() == y.len(),
        eq_seq_spec(x.take(x.len() as int), y.take(y.len() as int)),
    ensures
        eq_seq_spec(x, y),
{
    assert(x.take(x.len() as int) =~= x);
    assert(y.take(y.len() as int) =~= y);
}

pub(crate) proof fn lemma_eq_seq_false(x: Seq<ValModel>, y: Seq<ValModel>, i: int)
    requires
        x.len() == y.len(),
        0 <= i < x.len(),
        !eq_spec(x[i], y[i]),
    ensures
        !eq_seq_spec(x, y),
    decreases x.len(),
{
    if i == x.len() - 1 {
    } else {
        assert(x.drop_last()[i] == x[i]);
        assert(y.drop_last()[i] == y[i]);
        lemma_eq_seq_false(x.drop_last(), y.drop_last(), i);
    }
}

pub(crate) proof fn lemma_eq_pairs_take(
    x: Seq<(ValModel, ValModel)>,
    y: Seq<(ValModel, ValModel)>,
    i: int,
)
    requires
        x.len() == y.len(),
        0 <= i < x.len(),
    ensures
        eq_pairs_spec(x.take(i + 1), y.take(i + 1)) == (eq_pairs_spec(x.take(i), y.take(i))
            && eq_spec(x[i].0, y[i].0) && eq_spec(x[i].1, y[i].1)),
{
    assert(x.take(i + 1).drop_last() =~= x.take(i));
    assert(y.take(i + 1).drop_last() =~= y.take(i));
    assert(x.take(i + 1).last() == x[i]);
    assert(y.take(i + 1).last() == y[i]);
}

pub(crate) proof fn lemma_eq_pairs_whole(x: Seq<(ValModel, ValModel)>, y: Seq<(ValModel, ValModel)>)
    requires
        x.len() == y.len(),
        eq_pairs_spec(x.take(x.len() as int), y.take(y.len() as int)),
    ensures
        eq_pairs_spec(x, y),
{
    assert(x.take(x.len() as int) =~= x);
    assert(y.take(y.len() as int) =~= y);
}

pub(crate) proof fn lemma_eq_pairs_false(
    x: Seq<(ValModel, ValModel)>,
    y: Seq<(ValModel, ValModel)>,
    i: int,
)
    requires
        x.len() == y.len(),
        0 <= i < x.len(),
        !(eq_spec(x[i].0, y[i].0) && eq_spec(x[i].1, y[i].1)),
    ensures
        !eq_pairs_spec(x, y),
    decreases x.len(),
{
    if i == x.len() - 1 {
    } else {
        assert(x.drop_last()[i] == x[i]);
        assert(y.drop_last()[i] == y[i]);
        lemma_eq_pairs_false(x.drop_last(), y.drop_last(), i);
    }
}

// ---------------------------------------------------------------------------
// Well-formedness with respect to an environment arena
// ---------------------------------------------------------------------------

/// Whether a value is well formed with respect to an arena of `n` scopes:
/// every closure in it captures an existing scope and has a one-element body.
pub open spec fn val_wf(v: ValModel, n: int) -> bool
    decreases v, 0nat,
{
    match v {
        ValModel::Sequence(_, items) => vals_wf(items, n),
        ValModel::Hashmap(ps) => pairs_wf(ps, n),
        ValModel::Lambda(_, body, e) => {
            &&& 0 <= e < n
            &&& body.len() == 1
            &&& val_wf(body[0], n)
        },
        _ => true,
    }
}

/// Every element of a run of value models is well formed.
pub open spec fn vals_wf(items: Seq<ValModel>, n: int) -> bool
    decreases items, 1nat,
{
    items.len() == 0 || (vals_wf(items.drop_last(), n) && val_wf(items.last(), n))
}

/// Every side of a run of key/value pair models is well formed.
pub open spec fn pairs_wf(ps: Seq<(ValModel, ValModel)>, n: int) -> bool
    decreases ps, 1nat,
{
    ps.len() == 0 || (pairs_wf(ps.drop_last(), n) && val_wf(ps.last().0, n) && val_wf(
        ps.last().1,
        n,
    ))
}

/// An element of a well-formed run is well formed.
pub proof fn lemma_vals_wf_elem(items: Seq<ValModel>, n: int, i: int)
    requires
        vals_wf(items, n),
        0 <= i < items.len(),
    ensures
        val_wf(items[i], n),
    decreases items.len(),
{
    if i == items.len() - 1 {
    } else {
        assert(items.drop_last()[i] == items[i]);
        lemma_vals_wf_elem(items.drop_last(), n, i);
    }
}

/// A run of well-formed elements is well formed.
pub proof fn lemma_vals_wf_intro(items: Seq<ValModel>, n: int)
    requires
        forall|i: int| 0 <= i < items.len() ==> val_wf(#[trigger] items[i], n),
    ensures
        vals_wf(items, n),
    decreases items.len(),
{
    if items.len() > 0 {
        assert(forall|i: int|
            0 <= i < items.drop_last().len() ==> #[trigger] items.drop_last()[i] == items[i]);
        lemma_vals_wf_intro(items.drop_last(), n);
    }
}

/// A pair of a well-formed run of pairs is well formed.
pub proof fn lemma_pairs_wf_elem(ps: Seq<(ValModel, ValModel)>, n: int, i: int)
    requires
        pairs_wf(ps, n),
        0 <= i < ps.len(),
    ensures
        val_wf(ps[i].0, n),
        val_wf(ps[i].1, n),
    decreases ps.len(),
{
    if i == ps.len() - 1 {
    } else {
        assert(ps.drop_last()[i] == ps[i]);
        lemma_pairs_wf_elem(ps.drop_last(), n, i);
    }
}

/// A run of well-formed pairs is well formed.
pub proof fn lemma_pairs_wf_intro(ps: Seq<(ValModel, ValModel)>, n: int)
    requires
        forall|i: int| 0 <= i < ps.len() ==> val_wf((#[trigger] ps[i]).0, n) && val_wf(ps[i].1, n),
    ensures
        pairs_wf(ps, n),
    decreases ps.len(),
{
    if ps.len() > 0 {
        assert(forall|i: int|
            0 <= i < ps.drop_last().len() ==> #[trigger] ps.drop_last()[i] == ps[i]);
        lemma_pairs_wf_intro(ps.drop_last(), n);
    }
}

/// A value well formed for a small arena stays well formed when the arena grows.
pub proof fn lemma_val_wf_mono(v: ValModel, n: int, m: int)
    requires
        val_wf(v, n),
        n <= m,
    ensures
        val_wf(v, m),
    decreases v, 0nat,
{
    match v {
        ValModel::Sequence(_, items) => {
            lemma_vals_wf_mono(items, n, m);
        },
        ValModel::Hashmap(ps) => {
            lemma_pairs_wf_mono(ps, n, m);
        },
        ValModel::Lambda(_, body, e) => {
            lemma_val_wf_mono(body[0], n, m);
        },
        _ => {},
    }
}

proof fn lemma_vals_wf_mono(items: Seq<ValModel>, n: int, m: int)
    requires
        vals_wf(items, n),
        n <= m,
    ensures
        vals_wf(items, m),
    decreases items, 1nat,
{
    if items.len() > 0 {
        lemma_vals_wf_mono(items.drop_last(), n, m);
        lemma_val_wf_mono(items.last(), n, m);
    }
}

proof fn lemma_pairs_wf_mono(ps: Seq<(ValModel, ValModel)>, n: int, m: int)
    requires
        pairs_wf(ps, n),
        n <= m,
    ensures
        pairs_wf(ps, m),
    decreases ps, 1nat,
{
    if ps.len() > 0 {
        lemma_pairs_wf_mono(ps.drop_last(), n, m);
        lemma_val_wf_mono(ps.last().0, n, m);
        lemma_val_wf_mono(ps.last().1, n, m);
    }
}

// ---------------------------------------------------------------------------
// Cloning
// ---------------------------------------------------------------------------

pub(crate) proof fn lemma_vals_of_ext(r: Seq<MalType>, v: Seq<MalType>)
    requires
        r.len() == v.len(),
        forall|j: int| 0 <= j < r.len() ==> #[trigger] r[j]@ == v[j]@,
    ensures
        vals_of(r) == vals_of(v),
{
    broadcast use group_model_facts;

    assert(vals_of(r) =~= vals_of(v));
}

pub(crate) proof fn lemma_pairs_of_ext(r: Seq<(MalType, MalType)>, v: Seq<(MalType, MalType)>)
    requires
        r.len() == v.len(),
        forall|j: int|
            0 <= j < r.len() ==> (#[trigger] r[j]).0@ == v[j].0@ && r[j].1@ == v[j].1@,
    ensures
        pairs_of(r) == pairs_of(v),
{
    broadcast use group_model_facts;

    assert(pairs_of(r) =~= pairs_of(v));
}

pub(crate) proof fn lemma_strs_of_ext(r: Seq<String>, v: Seq<String>)
    requires
        r.len() == v.len(),
        forall|j: int| 0 <= j < r.len() ==> #[trigger] r[j]@ == v[j]@,
    ensures
        strs_of(r) == strs_of(v),
{
    broadcast use group_model_facts;

    assert(strs_of(r) =~= strs_of(v));
}

#[verifier::loop_isolation(false)]
pub(crate) fn clone_mals(v: &Vec<MalType>) -> (r: Vec<MalType>)
    ensures
        r@.len() == v@.len(),
        forall|i: int| 0 <= i < v@.len() ==> #[trigger] r@[i]@ == v@[i]@,
        vals_of(r@) == vals_of(v@),
    decreases v@, 1nat,
{
    let mut r: Vec<MalType> = Vec::new();
    let mut i: usize = 0;
    while i < v.len()
        invariant
            i <= v.len(),
            r@.len() == i,
            forall|j: int| 0 <= j < i ==> #[trigger] r@[j]@ == v@[j]@,
        decreases v@.len() - i,
    {
        proof {
            assert(decreases_to!(v@ => v@[i as int]));
        }
        r.push(v[i].clone());
        i = i + 1;
    }
    proof {
        lemma_vals_of_ext(r@, v@);
    }
    r
}

#[verifier::loop_isolation(false)]
pub(crate) fn clone_pairs(v: &Vec<(MalType, MalType)>) -> (r: Vec<(MalType, MalType)>)
    ensures
        r@.len() == v@.len(),
        forall|i: int|
            0 <= i < v@.len() ==> (#[trigger] r@[i]).0@ == v@[i].0@ && r@[i].1@ == v@[i].1@,
        pairs_of(r@) == pairs_of(v@),
    decreases v@, 1nat,
{
    let mut r: Vec<(MalType, MalType)> = Vec::new();
    let mut i: usize = 0;
    while i < v.len()
        invariant
            i <= v.len(),
            r@.len() == i,
            forall|j: int|
                0 <= j < i ==> (#[trigger] r@[j]).0@ == v@[j].0@ && r@[j].1@ == v@[j].1@,
        decreases v@.len() - i,
    {
        proof {
            assert(decreases_to!(v@ => v@[i as int]));
            assert(decreases_to!(v@[i as int] => v@[i as int].0));
            assert(decreases_to!(v@[i as int] => v@[i as int].1));
        }
        let p = (v[i].0.clone(), v[i].1.clone());
        r.push(p);
        i = i + 1;
    }
    proof {
        lemma_pairs_of_ext(r@, v@);
    }
    r
}

#[verifier::loop_isolation(false)]
pub(crate) fn clone_strs(v: &Vec<String>) -> (r: Vec<String>)
    ensures
        r@.len() == v@.len(),
        forall|i: int| 0 <= i < v@.len() ==> #[trigger] r@[i]@ == v@[i]@,
        strs_of(r@) == strs_of(v@),
{
    let mut r: Vec<String> = Vec::new();
    let mut i: usize = 0;
    while i < v.len()
        invariant
            i <= v.len(),
            r@.len() == i,
            forall|j: int| 0 <= j < i ==> #[trigger] r@[j]@ == v@[j]@,
        decreases v@.len() - i,
    {
        r.push(v[i].clone());
        i = i + 1;
    }
    proof {
        lemma_strs_of_ext(r@, v@);
    }
    r
}

impl Clone for MalType {
    fn clone(&self) -> (r: Self)
        ensures
            r@ == self@,
        decreases *self, 0nat,
    {
        match self {
            MalType::Comment => MalType::Comment,
            MalType::Nil => MalType::Nil,
            MalType::True => MalType::True,
            MalType::False => MalType::False,
            MalType::Num(n) => MalType::Num(*n),
            MalType::Str(s) => MalType::Str(s.clone()),
            MalType::Keyword(s) => MalType::Keyword(s.clone()),
            MalType::Symbol(s) => MalType::Symbol(s.clone()),
            MalType::ListVec(lv) => {
                proof {
                    assert(decreases_to!(*self => self->ListVec_0));
                    assert(decreases_to!(*lv => lv.1));
                    assert(decreases_to!(lv.1 => lv.1@));
                }
                MalType::ListVec(MalListVec(lv.0, clone_mals(&lv.1)))
            },
            MalType::Hashmap(ps) => {
                proof {
                    assert(decreases_to!(*self => self->Hashmap_0));
                    assert(decreases_to!(*ps => ps@));
                }
                MalType::Hashmap(clone_pairs(ps))
            },
            MalType::Fn(f) => MalType::Fn(*f),
            MalType::Lambda(ps, body, env) => {
                proof {
                    assert(decreases_to!(*self => self->Lambda_1));
                    assert(decreases_to!(*body => body@));
                }
                MalType::Lambda(clone_strs(ps), clone_mals(body), *env)
            },
        }
    }
}

impl Clone for MalListVec {
    fn clone(&self) -> (r: Self)
        ensures
            r@ == self@,
    {
        MalListVec(self.0, clone_mals(&self.1))
    }
}

// ---------------------------------------------------------------------------
// Structural equality, executable
// ---------------------------------------------------------------------------

/// Structural equality, as used by the `=` primitive.
#[verifier::loop_isolation(false)]
pub fn mal_eq(a: &MalType, b: &MalType) -> (r: bool)
    ensures
        r == eq_spec(a@, b@),
    decreases *a, 0nat,
{
    broadcast use group_model_facts;

    match (a, b) {
        (MalType::Comment, MalType::Comment) => true,
        (MalType::Nil, MalType::Nil) => true,
        (MalType::True, MalType::True) => true,
        (MalType::False, MalType::False) => true,
        (MalType::Num(x), MalType::Num(y)) => x == y,
        (MalType::Str(x), MalType::Str(y)) => crate::text::str_eq(x.as_str(), y.as_str()),
        (MalType::Keyword(x), MalType::Keyword(y)) => crate::text::str_eq(x.as_str(), y.as_str()),
        (MalType::Symbol(x), MalType::Symbol(y)) => crate::text::str_eq(x.as_str(), y.as_str()),
        (MalType::ListVec(x), MalType::ListVec(y)) => {
            proof {
                assert(decreases_to!(*a => a->ListVec_0));
                assert(decreases_to!(*x => x.1));
                assert(decreases_to!(x.1 => x.1@));
            }
            mal_vecs_eq(&x.1, &y.1)
        },
        (MalType::Hashmap(x), MalType::Hashmap(y)) => {
            proof {
                assert(a@ == ValModel::Hashmap(pairs_of(x@)));
                assert(b@ == ValModel::Hashmap(pairs_of(y@)));
            }
            if x.len() != y.len() {
                return false;
            }
            let n = x.len();
            let mut i: usize = 0;
            while i < n
                invariant
                    i <= n,
                    eq_pairs_spec(pairs_of(x@).take(i as int), pairs_of(y@).take(i as int)),
                decreases n - i,
            {
                proof {
                    assert(decreases_to!(*a => a->Hashmap_0));
                    assert(decreases_to!(*x => x@));
                    assert(decreases_to!(x@ => x@[i as int]));
                    assert(decreases_to!(x@[i as int] => x@[i as int].0));
                    assert(decreases_to!(x@[i as int] => x@[i as int].1));
                    lemma_eq_pairs_take(pairs_of(x@), pairs_of(y@), i as int);
                }
                let e0 = mal_eq(&x[i].0, &y[i].0);
                let e1 = mal_eq(&x[i].1, &y[i].1);
                if !(e0 && e1) {
                    proof {
                        lemma_eq_pairs_false(pairs_of(x@), pairs_of(y@), i as int);
                    }
                    return false;
                }
                i = i + 1;
            }
            proof {
                lemma_eq_pairs_whole(pairs_of(x@), pairs_of(y@));
            }
            true
        },
        (MalType::Fn(f), MalType::Fn(g)) => f.op == g.op,
        (MalType::Lambda(px, bx, ex), MalType::Lambda(py, by, ey)) => {
            proof {
                assert(a@ == ValModel::Lambda(strs_of(px@), vals_of(bx@), *ex as int));
                assert(b@ == ValModel::Lambda(strs_of(py@), vals_of(by@), *ey as int));
            }
            if *ex != *ey {
                return false;
            }
            if px.len() != py.len() {
                assert(strs_of(px@).len() != strs_of(py@).len());
                return false;
            }
            let n = px.len();
            let mut i: usize = 0;
            while i < n
                invariant
                    i <= n,
                    forall|j: int| 0 <= j < i ==> #[trigger] px@[j]@ == py@[j]@,
                decreases n - i,
            {
                if !crate::text::str_eq(px[i].as_str(), py[i].as_str()) {
                    assert(strs_of(px@)[i as int] != strs_of(py@)[i as int]);
                    return false;
                }
                i = i + 1;
            }
            proof {
                lemma_strs_of_ext(px@, py@);
                assert(decreases_to!(*a => a->Lambda_1));
                assert(decreases_to!(*bx => bx@));
            }
            mal_vecs_eq(bx, by)
        },
        _ => {
            assert(!eq_spec(a@, b@));
            false
        },
    }
}

#[verifier::loop_isolation(false)]
fn mal_vecs_eq(x: &Vec<MalType>, y: &Vec<MalType>) -> (r: bool)
    ensures
        r == eq_seq_spec(vals_of(x@), vals_of(y@)),
    decreases x@, 1nat,
{
    broadcast use group_model_facts;

    if x.len() != y.len() {
        return false;
    }
    let n = x.len();
    let mut i: usize = 0;
    while i < n
        invariant
            i <= n,
            eq_seq_spec(vals_of(x@).take(i as int), vals_of(y@).take(i as int)),
        decreases n - i,
    {
        proof {
            assert(decreases_to!(x@ => x@[i as int]));
            lemma_eq_seq_take(vals_of(x@), vals_of(y@), i as int);
        }
        if !mal_eq(&x[i], &y[i]) {
            proof {
                lemma_eq_seq_false(vals_of(x@), vals_of(y@), i as int);
            }
            return false;
        }
        i = i + 1;
    }
    proof {
        lemma_eq_seq_whole(vals_of(x@), vals_of(y@));
    }
    true
}

// ---------------------------------------------------------------------------
// Accessors
// ---------------------------------------------------------------------------

/// Pairs up an even-length run of forms into key/value pairs, in order.
pub open spec fn pair_up(s: Seq<ValModel>) -> Seq<(ValModel, ValModel)>
    decreases s.len(),
{
    if s.len() < 2 {
        Seq::empty()
    } else {
        seq![(s[0], s[1])] + pair_up(s.skip(2))
    }
}

#[verifier::loop_isolation(false)]
#[verifier::rlimit(30)]
fn pairs_from(v: &Vec<MalType>) -> (ps: Vec<(MalType, MalType)>)
    requires
        v@.len() % 2 == 0,
    ensures
        pairs_of(ps@) == pair_up(vals_of(v@)),
{
    broadcast use group_model_facts;

    let ghost vals = vals_of(v@);
    let mut ps: Vec<(MalType, MalType)> = Vec::new();
    let mut i: usize = 0;
    proof {
        assert(vals.skip(0) =~= vals);
        assert(pairs_of(ps@) =~= Seq::<(ValModel, ValModel)>::empty());
    }
    while i + 1 < v.len()
        invariant
            i <= v@.len(),
            i % 2 == 0,
            pairs_of(ps@) + pair_up(vals.skip(i as int)) == pair_up(vals),
        decreases v@.len() - i,
    {
        let ghost old_ps = ps@;
        let p = (v[i].clone(), v[i + 1].clone());
        ps.push(p);
        proof {
            assert(vals.skip(i as int)[0] == vals[i as int]);
            assert(vals.skip(i as int)[1] == vals[i + 1]);
            assert(vals.skip(i as int).skip(2) =~= vals.skip(i + 2));
            assert(pair_up(vals.skip(i as int)) == seq![(vals[i as int], vals[i + 1])] + pair_up(
                vals.skip(i + 2),
            ));
            assert(pairs_of(ps@) =~= pairs_of(old_ps) + seq![(vals[i as int], vals[i + 1])]);
            assert(pairs_of(ps@) + pair_up(vals.skip(i + 2)) =~= pairs_of(old_ps) + pair_up(
                vals.skip(i as int),
            ));
        }
        i = i + 2;
    }
    proof {
        assert(i == v@.len());
        assert(vals.skip(i as int).len() < 2);
        assert(pairs_of(ps@) + pair_up(vals.skip(i as int)) =~= pairs_of(ps@));
    }
    ps
}

impl MalType {
    /// Builds a list, vector or hash-map value out of the given elements.
    pub fn new_vec(typ: &str, v: &Vec<MalType>) -> (r: Self)
        requires
            typ@ == "list"@ || typ@ == "vec"@ || typ@ == "hashmap"@,
            typ@ == "hashmap"@ ==> v@.len() % 2 == 0,
        ensures
            typ@ == "list"@ ==> r@ == ValModel::Sequence(true, vals_of(v@)),
            typ@ == "vec"@ ==> r@ == ValModel::Sequence(false, vals_of(v@)),
            typ@ == "hashmap"@ ==> r@ == ValModel::Hashmap(pair_up(vals_of(v@))),
    {
        proof {
            reveal_strlit("list");
            reveal_strlit("vec");
            reveal_strlit("hashmap");
            assert("list"@.len() == 4);
            assert("vec"@.len() == 3);
            assert("hashmap"@.len() == 7);
            assert("list"@ != "vec"@ && "list"@ != "hashmap"@ && "vec"@ != "hashmap"@);
        }
        if crate::text::str_eq(typ, "list") {
            let r = MalType::ListVec(MalListVec(true, clone_mals(v)));
            proof {
                assert(r@ == ValModel::Sequence(true, vals_of(v@)));
            }
            r
        } else if crate::text::str_eq(typ, "vec") {
            let r = MalType::ListVec(MalListVec(false, clone_mals(v)));
            proof {
                assert(r@ == ValModel::Sequence(false, vals_of(v@)));
            }
            r
        } else {
            let r = MalType::Hashmap(pairs_from(v));
            proof {
                assert(r@ == ValModel::Hashmap(pair_up(vals_of(v@))));
            }
            r
        }
    }

    /// The elements of a list; `None` for a vector or any other value.
    pub fn list(&self) -> (r: Option<Vec<MalType>>)
        ensures
            match r {
                Some(v) => self@ matches ValModel::Sequence(true, items) && vals_of(v@) == items,
                None => !(self@ matches ValModel::Sequence(b, _) && b),
            },
    {
        match self {
            MalType::ListVec(lv) if lv.0 => Some(clone_mals(&lv.1)),
            _ => None,
        }
    }

    /// The elements of a list or a vector; `None` for any other value.
    pub fn list_or_vec(&self) -> (r: Option<Vec<MalType>>)
        ensures
            match r {
                Some(v) => self@ matches ValModel::Sequence(_, items) && vals_of(v@) == items,
                None => !(self@ matches ValModel::Sequence(_, _)),
            },
    {
        match self {
            MalType::ListVec(lv) => Some(clone_mals(&lv.1)),
            _ => None,
        }
    }

    /// The name of a symbol; `None` for any other value.
    pub fn symbol(&self) -> (r: Option<String>)
        ensures
            match r {
                Some(s) => self@ == ValModel::Symbol(s@),
                None => !(self@ matches ValModel::Symbol(_)),
            },
    {
        match self {
            MalType::Symbol(s) => Some(s.clone()),
            _ => None,
        }
    }

    /// The contents of a string; `None` for any other value.
    pub fn string(&self) -> (r: Option<String>)
        ensures
            match r {
                Some(s) => self@ == ValModel::Str(s@),
                None => !(self@ matches ValModel::Str(_)),
            },
    {
        match self {
            MalType::Str(s) => Some(s.clone()),
            _ => None,
        }
    }

    /// The numeric payload; `None` for any other value.
    pub fn num(&self) -> (r: Option<Number>)
        ensures
            match r {
                Some(n) => self@ == ValModel::Num(n.spec_int()),
                None => !(self@ matches ValModel::Num(_)),
            },
    {
        match self {
            MalType::Num(n) => Some(*n),
            _ => None,
        }
    }

    /// The element at an index of a list or vector; `None` elsewhere.
    pub fn get(&self, i: usize) -> (r: Option<MalType>)
        ensures
            match r {
                Some(v) => self@ matches ValModel::Sequence(_, items) && i < items.len() && v@
                    == items[i as int],
                None => !(self@ matches ValModel::Sequence(_, items) && i < items.len()),
            },
    {
        broadcast use group_model_facts;

        match self {
            MalType::ListVec(lv) => {
                if i < lv.1.len() {
                    let r = lv.1[i].clone();
                    proof {
                        assert(vals_of(lv.1@).len() == lv.1@.len());
                        assert(vals_of(lv.1@)[i as int] == lv.1@[i as int]@);
                        assert(self@ == ValModel::Sequence(lv.0, vals_of(lv.1@)));
                    }
                    Some(r)
                } else {
                    proof {
                        assert(vals_of(lv.1@).len() == lv.1@.len());
                    }
                    None
                }
            },
            _ => None,
        }
    }
}

} // verus!
