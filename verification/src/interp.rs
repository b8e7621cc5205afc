use crate::env::{
    env_lookup, env_wf, lookup_err_msg, scope_wf, set_binding, remove_binding, Env, EnvModel,
    ScopeModel,
};
use crate::prims::builtin_spec;
use crate::printer::print_spec;
use crate::text::int_str;
use crate::types::{builtin_name, val_wf, ValModel};
use vstd::prelude::*;

verus! {

// ---------------------------------------------------------------------------
// Heights of value models, for termination
// ---------------------------------------------------------------------------

/// The structural height of a value model.
pub open spec fn vheight(v: ValModel) -> nat
    decreases v, 0nat,
{
    match v {
        ValModel::Sequence(_, items) => 1 + seq_height(items),
        ValModel::Hashmap(ps) => 1 + pairs_height(ps),
        ValModel::Lambda(_, body, _) => 1 + seq_height(body),
        _ => 0,
    }
}

/// The largest height among a run of value models.
pub open spec fn seq_height(items: Seq<ValModel>) -> nat
    decreases items, 1nat,
{
    if items.len() == 0 {
        0
    } else {
        let h1 = seq_height(items.drop_last());
        let h2 = vheight(items.last());
        if h1 >= h2 {
            h1
        } else {
            h2
        }
    }
}

/// The largest height among a run of key/value pair models.
pub open spec fn pairs_height(ps: Seq<(ValModel, ValModel)>) -> nat
    decreases ps, 1nat,
{
    if ps.len() == 0 {
        0
    } else {
        let h1 = pairs_height(ps.drop_last());
        let h2 = vheight(ps.last().0);
        let h3 = vheight(ps.last().1);
        let m = if h2 >= h3 {
            h2
        } else {
            h3
        };
        if h1 >= m {
            h1
        } else {
            m
        }
    }
}

pub proof fn lemma_seq_height_elem(items: Seq<ValModel>, i: int)
    requires
        0 <= i < items.len(),
    ensures
        vheight(items[i]) <= seq_height(items),
    decreases items.len(),
{
    if i == items.len() - 1 {
    } else {
        assert(items.drop_last()[i] == items[i]);
        lemma_seq_height_elem(items.drop_last(), i);
    }
}

pub proof fn lemma_pairs_height_elem(ps: Seq<(ValModel, ValModel)>, i: int)
    requires
        0 <= i < ps.len(),
    ensures
        vheight(ps[i].0) <= pairs_height(ps),
        vheight(ps[i].1) <= pairs_height(ps),
    decreases ps.len(),
{
    if i == ps.len() - 1 {
    } else {
        assert(ps.drop_last()[i] == ps[i]);
        lemma_pairs_height_elem(ps.drop_last(), i);
    }
}

// ---------------------------------------------------------------------------
// Environment edits at the model level
// ---------------------------------------------------------------------------

/// The arena after a binding is set in one scope.
pub open spec fn env_set_model(e: EnvModel, s: int, name: Seq<char>, v: ValModel) -> EnvModel {
    if 0 <= s < e.scopes.len() {
        EnvModel {
            scopes: e.scopes.update(
                s,
                ScopeModel {
                    outer: e.scopes[s].outer,
                    data: set_binding(e.scopes[s].data, name, v),
                },
            ),
        }
    } else {
        e
    }
}

/// The arena after a binding is removed from one scope.
pub open spec fn env_remove_model(e: EnvModel, s: int, name: Seq<char>) -> EnvModel {
    if 0 <= s < e.scopes.len() {
        EnvModel {
            scopes: e.scopes.update(
                s,
                ScopeModel {
                    outer: e.scopes[s].outer,
                    data: remove_binding(e.scopes[s].data, name),
                },
            ),
        }
    } else {
        e
    }
}

/// The arena after a fresh scope is created under an enclosing one.
pub open spec fn env_push_model(e: EnvModel, outer: int) -> EnvModel {
    EnvModel { scopes: e.scopes.push(ScopeModel { outer: Some(outer), data: Seq::empty() }) }
}

// ---------------------------------------------------------------------------
// Error messages of the evaluator
// ---------------------------------------------------------------------------

/// The arity error for a closure applied to the wrong number of arguments.
pub open spec fn arity_msg(expected: int, got: int) -> Seq<char> {
    "Arity mismatch: expected "@ + int_str(expected) + " arguments, got "@ + int_str(got) + "."@
}

/// The error for a value in function position that cannot be applied.
pub open spec fn not_callable_msg(f: ValModel) -> Seq<char> {
    print_spec(f, false) + " is not a function nor a lambda."@
}

/// The error when the closure-application depth limit is exhausted.
pub open spec fn depth_msg() -> Seq<char> {
    "Maximum evaluation depth exceeded."@
}

// ---------------------------------------------------------------------------
// Closure parameter binding
// ---------------------------------------------------------------------------

/// The position of the `&` rest marker in a parameter list, if any.
pub open spec fn rest_pos(params: Seq<Seq<char>>) -> Option<int>
    decreases params.len(),
{
    if params.len() == 0 {
        None
    } else if params[0] == "&"@ {
        Some(0)
    } else {
        match rest_pos(params.skip(1)) {
            Some(k) => Some(k + 1),
            None => None,
        }
    }
}

/// How many arguments a parameter list requires: with a rest marker, its
/// fixed parameters are a lower bound; without one, the count is exact.
pub open spec fn bind_ok(params: Seq<Seq<char>>, nargs: int) -> bool {
    match rest_pos(params) {
        None => nargs == params.len(),
        Some(k) => nargs >= k,
    }
}

/// The count named as "expected" in an arity error.
pub open spec fn arity_expected(params: Seq<Seq<char>>) -> int {
    match rest_pos(params) {
        None => params.len() as int,
        Some(k) => k,
    }
}

/// The bindings a parameter list takes from an argument run: positional
/// parameters bind in order; at a `&` marker the following name binds the
/// remaining arguments as a list, and binding stops.
pub open spec fn bind_model(
    data: Seq<(Seq<char>, ValModel)>,
    params: Seq<Seq<char>>,
    fargs: Seq<ValModel>,
    k: int,
) -> Seq<(Seq<char>, ValModel)>
    decreases params.len() - k,
{
    if !(0 <= k < params.len()) {
        data
    } else if params[k] == "&"@ {
        if k + 1 < params.len() {
            set_binding(data, params[k + 1], ValModel::Sequence(true, fargs.skip(k)))
        } else {
            data
        }
    } else if k < fargs.len() {
        bind_model(set_binding(data, params[k], fargs[k]), params, fargs, k + 1)
    } else {
        data
    }
}

// ---------------------------------------------------------------------------
// The evaluator, specified
// ---------------------------------------------------------------------------

/// What one evaluation yields: a result or error, the arena afterwards,
/// and the lines printed along the way.
pub struct EvalOut {
    pub res: Result<ValModel, Seq<char>>,
    pub env: EnvModel,
    pub out: Seq<Seq<char>>,
}

/// Evaluates a form in a scope of the arena, with `fuel` bounding the
/// depth of nested closure applications.
pub open spec fn eval_spec(e: EnvModel, s: int, form: ValModel, fuel: nat) -> EvalOut
    decreases fuel, vheight(form), 0nat,
{
    match form {
        ValModel::Sequence(is_list, items) => {
            if items.len() == 0 {
                EvalOut { res: Ok(form), env: e, out: Seq::empty() }
            } else if !is_list {
                let (rs, e1, out1) = eval_seq_spec(e, s, items, 0, fuel);
                match rs {
                    Err(m) => EvalOut { res: Err(m), env: e1, out: out1 },
                    Ok(vs) => EvalOut {
                        res: Ok(ValModel::Sequence(false, vs)),
                        env: e1,
                        out: out1,
                    },
                }
            } else if items[0] == ValModel::Symbol("def!"@) {
                eval_def_spec(e, s, items, fuel)
            } else if items[0] == ValModel::Symbol("let*"@) {
                eval_let_spec(e, s, items, fuel)
            } else if items[0] == ValModel::Symbol("do"@) {
                eval_do_spec(e, s, items, 1, fuel)
            } else if items[0] == ValModel::Symbol("if"@) {
                eval_if_spec(e, s, items, fuel)
            } else if items[0] == ValModel::Symbol("fn*"@) {
                eval_fn_spec(e, s, items)
            } else {
                let (rs, e1, out1) = eval_seq_spec(e, s, items, 0, fuel);
                match rs {
                    Err(m) => EvalOut { res: Err(m), env: e1, out: out1 },
                    Ok(vs) => {
                        let o2 = apply_spec(e1, vs[0], vs.skip(1), fuel);
                        EvalOut { res: o2.res, env: o2.env, out: out1 + o2.out }
                    },
                }
            }
        },
        ValModel::Hashmap(ps) => {
            let (rs, e1, out1) = eval_pairs_spec(e, s, ps, 0, fuel);
            match rs {
                Err(m) => EvalOut { res: Err(m), env: e1, out: out1 },
                Ok(ps2) => EvalOut { res: Ok(ValModel::Hashmap(ps2)), env: e1, out: out1 },
            }
        },
        ValModel::Symbol(name) => {
            match env_lookup(e, s, name) {
                Some(v) => EvalOut { res: Ok(v), env: e, out: Seq::empty() },
                None => EvalOut { res: Err(lookup_err_msg(name)), env: e, out: Seq::empty() },
            }
        },
        _ => EvalOut { res: Ok(form), env: e, out: Seq::empty() },
    }
}

/// `(def! NAME EXPR)`: evaluates EXPR and binds it to NAME in the current
/// scope; a primitive function is rebound after its own name is removed,
/// so the old name does not stay as an alias. The bound value is returned.
pub open spec fn eval_def_spec(e: EnvModel, s: int, items: Seq<ValModel>, fuel: nat) -> EvalOut
    decreases fuel, seq_height(items), 1nat,
    via eval_def_spec_dec
{
    if items.len() == 3 && items[1] is Symbol {
        let o = eval_spec(e, s, items[2], fuel);
        match o.res {
            Err(m) => o,
            Ok(v) => {
                let name = items[1]->Symbol_0;
                let e2 = match v {
                    ValModel::Fn(op) => env_remove_model(o.env, s, builtin_name(op)),
                    _ => o.env,
                };
                EvalOut { res: Ok(v), env: env_set_model(e2, s, name, v), out: o.out }
            },
        }
    } else {
        EvalOut { res: Err("Syntax error of 'def!'."@), env: e, out: Seq::empty() }
    }
}

#[via_fn]
proof fn eval_def_spec_dec(e: EnvModel, s: int, items: Seq<ValModel>, fuel: nat) {
    if 2 < items.len() {
        lemma_seq_height_elem(items, 2);
    }
}

/// `(let* (N1 E1 ...) BODY)`: evaluates each binding in a fresh child
/// scope, each visible to the ones after it, then evaluates BODY there.
pub open spec fn eval_let_spec(e: EnvModel, s: int, items: Seq<ValModel>, fuel: nat) -> EvalOut
    decreases fuel, seq_height(items), 1nat,
    via eval_let_spec_dec
{
    if items.len() == 3 && items[1] is Sequence && items[1]->Sequence_1.len() % 2 == 0 {
        let child = e.scopes.len() as int;
        let e1 = env_push_model(e, s);
        let o = eval_binds_spec(e1, child, items[1]->Sequence_1, 0, fuel);
        match o.res {
            Err(m) => o,
            Ok(_) => {
                let o2 = eval_spec(o.env, child, items[2], fuel);
                EvalOut { res: o2.res, env: o2.env, out: o.out + o2.out }
            },
        }
    } else {
        EvalOut { res: Err("Syntax error of 'let*'."@), env: e, out: Seq::empty() }
    }
}

#[via_fn]
proof fn eval_let_spec_dec(e: EnvModel, s: int, items: Seq<ValModel>, fuel: nat) {
    if 1 < items.len() {
        lemma_seq_height_elem(items, 1);
    }
    if 2 < items.len() {
        lemma_seq_height_elem(items, 2);
    }
}

/// The bindings of a `let*`, evaluated and installed in order.
pub open spec fn eval_binds_spec(
    e: EnvModel,
    sc: int,
    binds: Seq<ValModel>,
    k: int,
    fuel: nat,
) -> EvalOut
    decreases fuel, seq_height(binds), binds.len() - k,
    via eval_binds_spec_dec
{
    if !(0 <= k && k + 1 < binds.len()) {
        EvalOut { res: Ok(ValModel::Nil), env: e, out: Seq::empty() }
    } else if !(binds[k] is Symbol) {
        EvalOut {
            res: Err("List of first arg for 'let*' must be Symbols and args."@),
            env: e,
            out: Seq::empty(),
        }
    } else {
        let o = eval_spec(e, sc, binds[k + 1], fuel);
        match o.res {
            Err(m) => o,
            Ok(v) => {
                let e2 = env_set_model(o.env, sc, binds[k]->Symbol_0, v);
                let o2 = eval_binds_spec(e2, sc, binds, k + 2, fuel);
                EvalOut { res: o2.res, env: o2.env, out: o.out + o2.out }
            },
        }
    }
}

#[via_fn]
proof fn eval_binds_spec_dec(e: EnvModel, sc: int, binds: Seq<ValModel>, k: int, fuel: nat) {
    if 0 <= k && k + 1 < binds.len() {
        lemma_seq_height_elem(binds, k + 1);
    }
}

/// `(do F1 ... Fn)`: evaluates every form in order; the last one's value
/// is the result, or nil where there is none.
pub open spec fn eval_do_spec(e: EnvModel, s: int, items: Seq<ValModel>, k: int, fuel: nat) -> EvalOut
    decreases fuel, seq_height(items), items.len() - k,
    via eval_do_spec_dec
{
    if !(0 <= k < items.len()) {
        EvalOut { res: Ok(ValModel::Nil), env: e, out: Seq::empty() }
    } else {
        let o = eval_spec(e, s, items[k], fuel);
        if k == items.len() - 1 {
            o
        } else {
            match o.res {
                Err(m) => o,
                Ok(_) => {
                    let o2 = eval_do_spec(o.env, s, items, k + 1, fuel);
                    EvalOut { res: o2.res, env: o2.env, out: o.out + o2.out }
                },
            }
        }
    }
}

#[via_fn]
proof fn eval_do_spec_dec(e: EnvModel, s: int, items: Seq<ValModel>, k: int, fuel: nat) {
    if 0 <= k < items.len() {
        lemma_seq_height_elem(items, k);
    }
}

/// `(if COND THEN ELSE?)`: any condition value but nil and false is true;
/// only the taken branch is evaluated; a missing else-branch gives nil.
pub open spec fn eval_if_spec(e: EnvModel, s: int, items: Seq<ValModel>, fuel: nat) -> EvalOut
    decreases fuel, seq_height(items), 1nat,
    via eval_if_spec_dec
{
    if items.len() >= 3 {
        let o = eval_spec(e, s, items[1], fuel);
        match o.res {
            Err(m) => o,
            Ok(c) => {
                let truthy = !(c == ValModel::Nil || c == ValModel::False);
                if truthy {
                    let o2 = eval_spec(o.env, s, items[2], fuel);
                    EvalOut { res: o2.res, env: o2.env, out: o.out + o2.out }
                } else if items.len() > 3 {
                    let o2 = eval_spec(o.env, s, items[3], fuel);
                    EvalOut { res: o2.res, env: o2.env, out: o.out + o2.out }
                } else {
                    EvalOut { res: Ok(ValModel::Nil), env: o.env, out: o.out }
                }
            },
        }
    } else {
        EvalOut { res: Err("Syntax error of 'if'."@), env: e, out: Seq::empty() }
    }
}

#[via_fn]
proof fn eval_if_spec_dec(e: EnvModel, s: int, items: Seq<ValModel>, fuel: nat) {
    if 1 < items.len() {
        lemma_seq_height_elem(items, 1);
    }
    if 2 < items.len() {
        lemma_seq_height_elem(items, 2);
    }
    if 3 < items.len() {
        lemma_seq_height_elem(items, 3);
    }
}

/// The parameter names of a `fn*` list, where every element is a symbol.
pub open spec fn names_opt(items: Seq<ValModel>) -> Option<Seq<Seq<char>>>
    decreases items.len(),
{
    if items.len() == 0 {
        Some(Seq::empty())
    } else {
        match names_opt(items.drop_last()) {
            None => None,
            Some(ns) => if items.last() is Symbol {
                Some(ns.push(items.last()->Symbol_0))
            } else {
                None
            },
        }
    }
}

/// `(fn* (A B ...) BODY)`: a closure capturing the parameter names, the
/// body, and the current scope by reference.
pub open spec fn eval_fn_spec(e: EnvModel, s: int, items: Seq<ValModel>) -> EvalOut {
    if items.len() == 3 && items[1] is Sequence && names_opt(items[1]->Sequence_1) is Some {
        EvalOut {
            res: Ok(
                ValModel::Lambda(names_opt(items[1]->Sequence_1)->Some_0, seq![items[2]], s),
            ),
            env: e,
            out: Seq::empty(),
        }
    } else {
        EvalOut { res: Err("Syntax error of 'fn*'."@), env: e, out: Seq::empty() }
    }
}

/// The elements of a form under application, evaluated left to right.
pub open spec fn eval_seq_spec(e: EnvModel, s: int, items: Seq<ValModel>, k: int, fuel: nat) -> (
    Result<Seq<ValModel>, Seq<char>>,
    EnvModel,
    Seq<Seq<char>>,
)
    decreases fuel, seq_height(items), items.len() - k,
    via eval_seq_spec_dec
{
    if !(0 <= k < items.len()) {
        (Ok(Seq::empty()), e, Seq::empty())
    } else {
        let o = eval_spec(e, s, items[k], fuel);
        match o.res {
            Err(m) => (Err(m), o.env, o.out),
            Ok(v) => {
                let (rs, e2, out2) = eval_seq_spec(o.env, s, items, k + 1, fuel);
                match rs {
                    Err(m) => (Err(m), e2, o.out + out2),
                    Ok(vs) => (Ok(seq![v] + vs), e2, o.out + out2),
                }
            },
        }
    }
}

#[via_fn]
proof fn eval_seq_spec_dec(e: EnvModel, s: int, items: Seq<ValModel>, k: int, fuel: nat) {
    if 0 <= k < items.len() {
        lemma_seq_height_elem(items, k);
    }
}

/// The values of a hash-map's pairs, evaluated in order; keys stay as
/// they are.
pub open spec fn eval_pairs_spec(
    e: EnvModel,
    s: int,
    ps: Seq<(ValModel, ValModel)>,
    k: int,
    fuel: nat,
) -> (Result<Seq<(ValModel, ValModel)>, Seq<char>>, EnvModel, Seq<Seq<char>>)
    decreases fuel, pairs_height(ps), ps.len() - k,
    via eval_pairs_spec_dec
{
    if !(0 <= k < ps.len()) {
        (Ok(Seq::empty()), e, Seq::empty())
    } else {
        let o = eval_spec(e, s, ps[k].1, fuel);
        match o.res {
            Err(m) => (Err(m), o.env, o.out),
            Ok(v) => {
                let (rs, e2, out2) = eval_pairs_spec(o.env, s, ps, k + 1, fuel);
                match rs {
                    Err(m) => (Err(m), e2, o.out + out2),
                    Ok(ps2) => (Ok(seq![(ps[k].0, v)] + ps2), e2, o.out + out2),
                }
            },
        }
    }
}

#[via_fn]
proof fn eval_pairs_spec_dec(e: EnvModel, s: int, ps: Seq<(ValModel, ValModel)>, k: int, fuel: nat) {
    if 0 <= k < ps.len() {
        lemma_pairs_height_elem(ps, k);
    }
}

/// A value in function position applied to evaluated arguments: a
/// primitive runs its native operation; a closure binds its parameters in
/// a fresh scope whose enclosing scope is the closure's captured one (not
/// the caller's), and its body is evaluated there; anything else fails.
pub open spec fn apply_spec(e: EnvModel, f: ValModel, fargs: Seq<ValModel>, fuel: nat) -> EvalOut
    decreases fuel, 0nat, 0nat,
{
    match f {
        ValModel::Fn(op) => {
            let (r, lines) = builtin_spec(op, fargs);
            EvalOut { res: r, env: e, out: lines }
        },
        ValModel::Lambda(params, body, ce) => {
            if fuel == 0 {
                EvalOut { res: Err(depth_msg()), env: e, out: Seq::empty() }
            } else if !bind_ok(params, fargs.len() as int) {
                EvalOut {
                    res: Err(arity_msg(arity_expected(params), fargs.len() as int)),
                    env: e,
                    out: Seq::empty(),
                }
            } else {
                let data = bind_model(Seq::empty(), params, fargs, 0);
                let child = e.scopes.len() as int;
                let e1 = EnvModel {
                    scopes: e.scopes.push(ScopeModel { outer: Some(ce), data: data }),
                };
                eval_spec(e1, child, body[0], (fuel - 1) as nat)
            }
        },
        _ => EvalOut { res: Err(not_callable_msg(f)), env: e, out: Seq::empty() },
    }
}

} // verus!

verus! {

broadcast use crate::types::group_model_facts;

use crate::env::scope_get;
use crate::prims::{apply_builtin, builtin_spec as prim_spec, lemma_builtin_wf};
use crate::printer::pr_str;
use crate::reader::{read_spec, read_str};
use crate::text::{chars_to_string, push_u64_digits, str_eq};
use crate::types::{
    lemma_val_wf_mono, pairs_of, strs_of, vals_of, Builtin, MalFunc, MalListVec, MalType,
};
use crate::MalError;
use crate::printer::push_str_chars;
use vstd::string::StringExecFns;

// ---------------------------------------------------------------------------
// Small executable helpers
// ---------------------------------------------------------------------------

/// How the outcome of one evaluation step relates an executable result,
/// environment and output sink to the specified outcome.
pub open spec fn eval_post(
    o: EvalOut,
    r: Result<MalType, MalError>,
    e2: EnvModel,
    out1: Seq<String>,
    out2: Seq<String>,
) -> bool {
    &&& e2 == o.env
    &&& strs_of(out2) == strs_of(out1) + o.out
    &&& match (r, o.res) {
        (Ok(v), Ok(m)) => v@ == m,
        (Err(e), Err(m)) => e@ == m,
        _ => false,
    }
}

fn arity_err(expected: usize, got: usize) -> (e: MalError)
    ensures
        e@ == arity_msg(expected as int, got as int),
{
    let mut cs: Vec<char> = Vec::new();
    push_str_chars(&mut cs, "Arity mismatch: expected ");
    push_u64_digits(expected as u64, &mut cs);
    push_str_chars(&mut cs, " arguments, got ");
    push_u64_digits(got as u64, &mut cs);
    push_str_chars(&mut cs, ".");
    let s = chars_to_string(&cs);
    proof {
        assert(s@ =~= arity_msg(expected as int, got as int));
    }
    MalError::new(s.as_str())
}

pub proof fn lemma_rest_pos_found(ps: Seq<Seq<char>>, i: int)
    requires
        0 <= i < ps.len(),
        ps[i] == "&"@,
        forall|j: int| 0 <= j < i ==> #[trigger] ps[j] != "&"@,
    ensures
        rest_pos(ps) == Some(i),
    decreases ps.len(),
{
    if i == 0 {
    } else {
        assert(ps[0] != "&"@);
        assert forall|j: int| 0 <= j < i - 1 implies #[trigger] ps.skip(1)[j] != "&"@ by {
            assert(ps.skip(1)[j] == ps[j + 1]);
        }
        assert(ps.skip(1)[i - 1] == ps[i]);
        lemma_rest_pos_found(ps.skip(1), i - 1);
    }
}

pub proof fn lemma_rest_pos_no_amp(ps: Seq<Seq<char>>, q: int)
    requires
        rest_pos(ps) is None,
        0 <= q < ps.len(),
    ensures
        ps[q] != "&"@,
    decreases ps.len(),
{
    if q == 0 {
    } else {
        assert(ps.skip(1)[q - 1] == ps[q]);
        lemma_rest_pos_no_amp(ps.skip(1), q - 1);
    }
}

proof fn lemma_rest_pos_none(ps: Seq<Seq<char>>)
    requires
        forall|j: int| 0 <= j < ps.len() ==> #[trigger] ps[j] != "&"@,
    ensures
        rest_pos(ps) is None,
    decreases ps.len(),
{
    if ps.len() > 0 {
        assert forall|j: int| 0 <= j < ps.len() - 1 implies #[trigger] ps.skip(1)[j] != "&"@ by {
            assert(ps.skip(1)[j] == ps[j + 1]);
        }
        lemma_rest_pos_none(ps.skip(1));
    }
}

#[verifier::loop_isolation(false)]
fn find_amp(params: &Vec<String>) -> (r: Option<usize>)
    ensures
        match r {
            Some(i) => rest_pos(strs_of(params@)) == Some(i as int),
            None => rest_pos(strs_of(params@)) is None,
        },
{
    let n = params.len();
    let mut i: usize = 0;
    while i < n
        invariant
            i <= n,
            n == params@.len(),
            forall|j: int| 0 <= j < i ==> #[trigger] strs_of(params@)[j] != "&"@,
        decreases n - i,
    {
        if str_eq(params[i].as_str(), "&") {
            proof {
                lemma_rest_pos_found(strs_of(params@), i as int);
            }
            return Some(i);
        }
        i = i + 1;
    }
    proof {
        lemma_rest_pos_none(strs_of(params@));
    }
    None
}

proof fn lemma_names_opt_take(items: Seq<ValModel>, i: int)
    requires
        0 <= i < items.len(),
    ensures
        names_opt(items.take(i + 1)) == (match names_opt(items.take(i)) {
            None => None,
            Some(ns) => if items[i] is Symbol {
                Some(ns.push(items[i]->Symbol_0))
            } else {
                None::<Seq<Seq<char>>>
            },
        }),
{
    assert(items.take(i + 1).drop_last() =~= items.take(i));
    assert(items.take(i + 1).last() == items[i]);
}

proof fn lemma_names_opt_none(items: Seq<ValModel>, i: int)
    requires
        0 <= i < items.len(),
        !(items[i] is Symbol),
    ensures
        names_opt(items) is None,
    decreases items.len(),
{
    if i == items.len() - 1 {
    } else {
        assert(items.drop_last()[i] == items[i]);
        lemma_names_opt_none(items.drop_last(), i);
    }
}

// ---------------------------------------------------------------------------
// The evaluator, executable
// ---------------------------------------------------------------------------

/// The pairs of a well-formed hash-map model are well formed.
proof fn lemma_val_wf_hashmap_elems(ps: Seq<(ValModel, ValModel)>, n: int, i: int)
    requires
        val_wf(ValModel::Hashmap(ps), n),
        0 <= i < ps.len(),
    ensures
        val_wf(ps[i].0, n),
        val_wf(ps[i].1, n),
{
    assert(crate::types::pairs_wf(ps, n));
    crate::types::lemma_pairs_wf_elem(ps, n, i);
}

/// A hash-map model is well formed when its pairs are, elementwise.
proof fn lemma_val_wf_hashmap(ps: Seq<(ValModel, ValModel)>, n: int)
    requires
        forall|i: int|
            0 <= i < ps.len() ==> val_wf((#[trigger] ps[i]).0, n) && val_wf(ps[i].1, n),
    ensures
        val_wf(ValModel::Hashmap(ps), n),
{
    crate::types::lemma_pairs_wf_intro(ps, n);
}

/// Every element of a run of value models is well formed.
pub open spec fn all_wf(ms: Seq<ValModel>, n: int) -> bool {
    forall|i: int| 0 <= i < ms.len() ==> val_wf(#[trigger] ms[i], n)
}

proof fn lemma_all_wf_mono(ms: Seq<ValModel>, n: int, m: int)
    requires
        all_wf(ms, n),
        n <= m,
    ensures
        all_wf(ms, m),
{
    assert forall|i: int| 0 <= i < ms.len() implies val_wf(#[trigger] ms[i], m) by {
        lemma_val_wf_mono(ms[i], n, m);
    }
}

/// Evaluates every element of a form, left to right, starting at `k`.
#[verifier::loop_isolation(false)]
#[verifier::rlimit(80)]
fn eval_elems(
    env: &mut Env,
    scope: usize,
    items: &Vec<MalType>,
    k: usize,
    fuel: u64,
    out: &mut Vec<String>,
) -> (r: Result<Vec<MalType>, MalError>)
    requires
        env_wf(old(env)@),
        scope < old(env)@.scopes.len(),
        all_wf(vals_of(items@), old(env)@.scopes.len() as int),
    ensures
        ({
            let (rs, e2, outs) = eval_seq_spec(
                old(env)@,
                scope as int,
                vals_of(items@),
                k as int,
                fuel as nat,
            );
            &&& final(env)@ == e2
            &&& strs_of(final(out)@) == strs_of(old(out)@) + outs
            &&& match (r, rs) {
                (Ok(v), Ok(vs)) => vals_of(v@) == vs,
                (Err(e), Err(m)) => e@ == m,
                _ => false,
            }
        }),
        env_wf(final(env)@),
        old(env)@.scopes.len() <= final(env)@.scopes.len(),
        r is Ok ==> r->Ok_0@.len() == (if k <= items@.len() {
            items@.len() - k
        } else {
            0
        }),
        r is Ok ==> all_wf(vals_of(r->Ok_0@), final(env)@.scopes.len() as int),
    decreases fuel, seq_height(vals_of(items@)), items@.len() - k + 1,
{
    let ghost ms = vals_of(items@);
    if k >= items.len() {
        let empty: Vec<MalType> = Vec::new();
        proof {
            assert(vals_of(empty@) =~= Seq::<ValModel>::empty());
            assert(strs_of(final(out)@) =~= strs_of(old(out)@) + Seq::<Seq<char>>::empty());
        }
        return Ok(empty);
    }
    proof {
        lemma_seq_height_elem(ms, k as int);
        assert(ms[k as int] == items@[k as int]@);
    }
    let v = match EVAL(&items[k], env, scope, fuel, out) {
        Err(e) => {
            return Err(e);
        },
        Ok(v) => v,
    };
    let ghost mid_env = env@;
    proof {
        lemma_all_wf_mono(ms, old(env)@.scopes.len() as int, env@.scopes.len() as int);
    }
    let rest = match eval_elems(env, scope, items, k + 1, fuel, out) {
        Err(e) => {
            proof {
                let o1 = eval_spec(old(env)@, scope as int, ms[k as int], fuel as nat);
                let (rs2, e2, outs2) = eval_seq_spec(
                    mid_env,
                    scope as int,
                    ms,
                    k + 1,
                    fuel as nat,
                );
                assert(strs_of(final(out)@) =~= strs_of(old(out)@) + (o1.out + outs2));
            }
            return Err(e);
        },
        Ok(rest) => rest,
    };
    let ghost rest_m = vals_of(rest@);
    let mut res = rest;
    res.insert(0, v);
    proof {
        let o1 = eval_spec(old(env)@, scope as int, ms[k as int], fuel as nat);
        let (rs2, e2, outs2) = eval_seq_spec(mid_env, scope as int, ms, k + 1, fuel as nat);
        assert(strs_of(final(out)@) =~= strs_of(old(out)@) + (o1.out + outs2));
        assert(vals_of(res@) =~= seq![o1.res->Ok_0] + rest_m);
        assert forall|i: int| 0 <= i < vals_of(res@).len() implies val_wf(
            #[trigger] vals_of(res@)[i],
            final(env)@.scopes.len() as int,
        ) by {
            if i == 0 {
                lemma_val_wf_mono(
                    vals_of(res@)[0],
                    mid_env.scopes.len() as int,
                    final(env)@.scopes.len() as int,
                );
            } else {
                assert(vals_of(res@)[i] == rest_m[i - 1]);
            }
        }
    }
    Ok(res)
}

/// Evaluates the values of a hash-map's pairs, in order, from `k`.
#[verifier::loop_isolation(false)]
#[verifier::rlimit(80)]
fn eval_pairs(
    env: &mut Env,
    scope: usize,
    ps: &Vec<(MalType, MalType)>,
    k: usize,
    fuel: u64,
    out: &mut Vec<String>,
) -> (r: Result<Vec<(MalType, MalType)>, MalError>)
    requires
        env_wf(old(env)@),
        scope < old(env)@.scopes.len(),
        val_wf(ValModel::Hashmap(pairs_of(ps@)), old(env)@.scopes.len() as int),
    ensures
        ({
            let (rs, e2, outs) = eval_pairs_spec(
                old(env)@,
                scope as int,
                pairs_of(ps@),
                k as int,
                fuel as nat,
            );
            &&& final(env)@ == e2
            &&& strs_of(final(out)@) == strs_of(old(out)@) + outs
            &&& match (r, rs) {
                (Ok(v), Ok(vs)) => pairs_of(v@) == vs,
                (Err(e), Err(m)) => e@ == m,
                _ => false,
            }
        }),
        env_wf(final(env)@),
        old(env)@.scopes.len() <= final(env)@.scopes.len(),
        r is Ok ==> val_wf(
            ValModel::Hashmap(pairs_of(r->Ok_0@)),
            final(env)@.scopes.len() as int,
        ),
    decreases fuel, pairs_height(pairs_of(ps@)), ps@.len() - k + 1,
{
    let ghost ms = pairs_of(ps@);
    if k >= ps.len() {
        let empty: Vec<(MalType, MalType)> = Vec::new();
        proof {
            assert(pairs_of(empty@) =~= Seq::<(ValModel, ValModel)>::empty());
            assert(strs_of(final(out)@) =~= strs_of(old(out)@) + Seq::<Seq<char>>::empty());
            assert(crate::types::pairs_wf(pairs_of(empty@), final(env)@.scopes.len() as int));
            assert(val_wf(ValModel::Hashmap(pairs_of(empty@)), final(env)@.scopes.len() as int));
        }
        return Ok(empty);
    }
    proof {
        lemma_pairs_height_elem(ms, k as int);
        assert(ms[k as int] == (ps@[k as int].0@, ps@[k as int].1@));
        lemma_val_wf_hashmap_elems(ms, old(env)@.scopes.len() as int, k as int);
    }
    let v = match EVAL(&ps[k].1, env, scope, fuel, out) {
        Err(e) => {
            return Err(e);
        },
        Ok(v) => v,
    };
    let ghost mid_env = env@;
    proof {
        assert forall|i: int| 0 <= i < ms.len() implies val_wf(
            (#[trigger] ms[i]).0,
            mid_env.scopes.len() as int,
        ) && val_wf(ms[i].1, mid_env.scopes.len() as int) by {
            lemma_val_wf_hashmap_elems(ms, old(env)@.scopes.len() as int, i);
            lemma_val_wf_mono(ms[i].0, old(env)@.scopes.len() as int, mid_env.scopes.len() as int);
            lemma_val_wf_mono(ms[i].1, old(env)@.scopes.len() as int, mid_env.scopes.len() as int);
        }
        lemma_val_wf_hashmap(ms, mid_env.scopes.len() as int);
    }
    let rest = match eval_pairs(env, scope, ps, k + 1, fuel, out) {
        Err(e) => {
            proof {
                let o1 = eval_spec(old(env)@, scope as int, ms[k as int].1, fuel as nat);
                let (rs2, e2, outs2) = eval_pairs_spec(
                    mid_env,
                    scope as int,
                    ms,
                    k + 1,
                    fuel as nat,
                );
                assert(strs_of(final(out)@) =~= strs_of(old(out)@) + (o1.out + outs2));
            }
            return Err(e);
        },
        Ok(rest) => rest,
    };
    let ghost rest_m = pairs_of(rest@);
    let key = ps[k].0.clone();
    let mut res = rest;
    res.insert(0, (key, v));
    proof {
        let o1 = eval_spec(old(env)@, scope as int, ms[k as int].1, fuel as nat);
        let (rs2, e2, outs2) = eval_pairs_spec(mid_env, scope as int, ms, k + 1, fuel as nat);
        assert(strs_of(final(out)@) =~= strs_of(old(out)@) + (o1.out + outs2));
        assert(pairs_of(res@) =~= seq![(ms[k as int].0, o1.res->Ok_0)] + rest_m);
        assert(val_wf(ValModel::Hashmap(rest_m), final(env)@.scopes.len() as int));
        assert forall|i: int| 0 <= i < pairs_of(res@).len() implies val_wf(
            (#[trigger] pairs_of(res@)[i]).0,
            final(env)@.scopes.len() as int,
        ) && val_wf(pairs_of(res@)[i].1, final(env)@.scopes.len() as int) by {
            if i == 0 {
                lemma_val_wf_hashmap_elems(ms, old(env)@.scopes.len() as int, k as int);
                lemma_val_wf_mono(
                    ms[k as int].0,
                    old(env)@.scopes.len() as int,
                    final(env)@.scopes.len() as int,
                );
                lemma_val_wf_mono(
                    o1.res->Ok_0,
                    mid_env.scopes.len() as int,
                    final(env)@.scopes.len() as int,
                );
            } else {
                assert(pairs_of(res@)[i] == rest_m[i - 1]);
                lemma_val_wf_hashmap_elems(rest_m, final(env)@.scopes.len() as int, i - 1);
            }
        }
        lemma_val_wf_hashmap(pairs_of(res@), final(env)@.scopes.len() as int);
    }
    Ok(res)
}

/// Evaluates the trailing forms of a `do`, returning the last one's value.
#[verifier::loop_isolation(false)]
#[verifier::rlimit(80)]
fn eval_do(
    env: &mut Env,
    scope: usize,
    items: &Vec<MalType>,
    k: usize,
    fuel: u64,
    out: &mut Vec<String>,
) -> (r: Result<MalType, MalError>)
    requires
        env_wf(old(env)@),
        scope < old(env)@.scopes.len(),
        all_wf(vals_of(items@), old(env)@.scopes.len() as int),
    ensures
        eval_post(
            eval_do_spec(old(env)@, scope as int, vals_of(items@), k as int, fuel as nat),
            r,
            final(env)@,
            old(out)@,
            final(out)@,
        ),
        env_wf(final(env)@),
        old(env)@.scopes.len() <= final(env)@.scopes.len(),
        scope < final(env)@.scopes.len(),
        r is Ok ==> val_wf(r->Ok_0@, final(env)@.scopes.len() as int),
    decreases fuel, seq_height(vals_of(items@)), items@.len() - k + 1,
{
    let ghost ms = vals_of(items@);
    if k >= items.len() {
        proof {
            assert(strs_of(final(out)@) =~= strs_of(old(out)@) + Seq::<Seq<char>>::empty());
        }
        return Ok(MalType::Nil);
    }
    proof {
        lemma_seq_height_elem(ms, k as int);
        assert(ms[k as int] == items@[k as int]@);
    }
    let v = EVAL(&items[k], env, scope, fuel, out);
    if k == items.len() - 1 {
        return v;
    }
    let ghost mid_env = env@;
    match v {
        Err(e) => Err(e),
        Ok(_) => {
            proof {
                lemma_all_wf_mono(ms, old(env)@.scopes.len() as int, env@.scopes.len() as int);
            }
            let r2 = eval_do(env, scope, items, k + 1, fuel, out);
            proof {
                let o1 = eval_spec(old(env)@, scope as int, ms[k as int], fuel as nat);
                let o2 = eval_do_spec(mid_env, scope as int, ms, k + 1, fuel as nat);
                assert(strs_of(final(out)@) =~= strs_of(old(out)@) + (o1.out + o2.out));
            }
            r2
        },
    }
}

/// Evaluates and installs the bindings of a `let*`, in order, from `k`.
#[verifier::loop_isolation(false)]
#[verifier::rlimit(80)]
fn eval_binds(
    env: &mut Env,
    sc: usize,
    binds: &Vec<MalType>,
    k: usize,
    fuel: u64,
    out: &mut Vec<String>,
) -> (r: Result<(), MalError>)
    requires
        env_wf(old(env)@),
        sc < old(env)@.scopes.len(),
        all_wf(vals_of(binds@), old(env)@.scopes.len() as int),
    ensures
        ({
            let o = eval_binds_spec(old(env)@, sc as int, vals_of(binds@), k as int, fuel as nat);
            &&& final(env)@ == o.env
            &&& strs_of(final(out)@) == strs_of(old(out)@) + o.out
            &&& match (r, o.res) {
                (Ok(_), Ok(_)) => true,
                (Err(e), Err(m)) => e@ == m,
                _ => false,
            }
        }),
        env_wf(final(env)@),
        old(env)@.scopes.len() <= final(env)@.scopes.len(),
        sc < final(env)@.scopes.len(),
    decreases fuel, seq_height(vals_of(binds@)), binds@.len() - k + 1,
{
    let ghost ms = vals_of(binds@);
    if k >= binds.len() || k + 1 >= binds.len() {
        proof {
            assert(strs_of(final(out)@) =~= strs_of(old(out)@) + Seq::<Seq<char>>::empty());
        }
        return Ok(());
    }
    let name = match binds[k].symbol() {
        Some(n) => n,
        None => {
            proof {
                assert(ms[k as int] == binds@[k as int]@);
                assert(strs_of(final(out)@) =~= strs_of(old(out)@) + Seq::<Seq<char>>::empty());
            }
            return Err(MalError::new("List of first arg for 'let*' must be Symbols and args."));
        },
    };
    proof {
        lemma_seq_height_elem(ms, k + 1);
        assert(ms[k + 1] == binds@[k + 1]@);
        assert(ms[k as int] == binds@[k as int]@);
    }
    let v = match EVAL(&binds[k + 1], env, sc, fuel, out) {
        Err(e) => {
            return Err(e);
        },
        Ok(v) => v,
    };
    let ghost o1 = eval_spec(old(env)@, sc as int, ms[k + 1], fuel as nat);
    env.set(sc, name.as_str(), v);
    proof {
        assert(env@.scopes =~= env_set_model(o1.env, sc as int, name@, o1.res->Ok_0).scopes);
        assert(env@ == env_set_model(o1.env, sc as int, name@, o1.res->Ok_0));
        lemma_all_wf_mono(ms, old(env)@.scopes.len() as int, env@.scopes.len() as int);
    }
    let ghost mid_env = env@;
    let r2 = eval_binds(env, sc, binds, k + 2, fuel, out);
    proof {
        let o2 = eval_binds_spec(mid_env, sc as int, ms, k + 2, fuel as nat);
        assert(strs_of(final(out)@) =~= strs_of(old(out)@) + (o1.out + o2.out));
    }
    r2
}

/// Applies an evaluated head value to evaluated arguments.
#[verifier::loop_isolation(false)]
#[verifier::rlimit(100)]
fn apply_exec(f: MalType, args: Vec<MalType>, env: &mut Env, fuel: u64, out: &mut Vec<String>) -> (r:
    Result<MalType, MalError>)
    requires
        env_wf(old(env)@),
        val_wf(f@, old(env)@.scopes.len() as int),
        all_wf(vals_of(args@), old(env)@.scopes.len() as int),
    ensures
        eval_post(
            apply_spec(old(env)@, f@, vals_of(args@), fuel as nat),
            r,
            final(env)@,
            old(out)@,
            final(out)@,
        ),
        env_wf(final(env)@),
        old(env)@.scopes.len() <= final(env)@.scopes.len(),
        r is Ok ==> val_wf(r->Ok_0@, final(env)@.scopes.len() as int),
    decreases fuel, 0nat, 0nat,
{
    let ghost fargs = vals_of(args@);
    match f {
        MalType::Fn(mf) => {
            let rb = apply_builtin(mf.op, &args, out);
            proof {
                lemma_builtin_wf(mf.op, fargs, old(env)@.scopes.len() as int);
            }
            rb
        },
        MalType::Lambda(params, bodyvec, ce) => {
            proof {
                assert(f@ == ValModel::Lambda(strs_of(params@), vals_of(bodyvec@), ce as int));
            }
            if fuel == 0 {
                proof {
                    assert(strs_of(final(out)@) =~= strs_of(old(out)@) + Seq::<Seq<char>>::empty());
                }
                return Err(MalError::new("Maximum evaluation depth exceeded."));
            }
            let ghost pm = strs_of(params@);
            let amp = find_amp(&params);
            let ok = match amp {
                Some(kk) => args.len() >= kk,
                None => args.len() == params.len(),
            };
            if !ok {
                let expected = match amp {
                    Some(kk) => kk,
                    None => params.len(),
                };
                proof {
                    assert(strs_of(final(out)@) =~= strs_of(old(out)@) + Seq::<Seq<char>>::empty());
                }
                return Err(arity_err(expected, args.len()));
            }
            let ghost mid_env = old(env)@;
            let child = env.push_scope(ce);
            proof {
                assert(env@.scopes =~= mid_env.scopes.push(
                    ScopeModel { outer: Some(ce as int), data: Seq::empty() },
                ));
                assert(env@.scopes[child as int].data =~= Seq::<(Seq<char>, ValModel)>::empty());
                lemma_all_wf_mono(fargs, mid_env.scopes.len() as int, env@.scopes.len() as int);
            }
            let mut k: usize = 0;
            while k < params.len()
                invariant
                    k <= params@.len(),
                    child < env@.scopes.len(),
                    env_wf(env@),
                    env@.scopes.len() == mid_env.scopes.len() + 1,
                    forall|i: int|
                        0 <= i < mid_env.scopes.len() ==> env@.scopes[i] == mid_env.scopes[i],
                    env@.scopes[child as int].outer == Some(ce as int),
                    bind_model(Seq::empty(), pm, fargs, 0) == bind_model(
                        env@.scopes[child as int].data,
                        pm,
                        fargs,
                        k as int,
                    ),
                    k < params@.len() ==> forall|j: int| 0 <= j < k ==> #[trigger] pm[j] != "&"@,
                decreases params@.len() - k,
            {
                proof {
                    assert(pm[k as int] == params@[k as int]@);
                }
                if str_eq(params[k].as_str(), "&") {
                    proof {
                        lemma_rest_pos_found(pm, k as int);
                        assert(args@.len() >= k);
                    }
                    if k + 1 < params.len() {
                        let mut restvec: Vec<MalType> = Vec::new();
                        let mut j: usize = k;
                        proof {
                            assert(vals_of(restvec@) =~= fargs.skip(k as int).take(0));
                        }
                        while j < args.len()
                            invariant
                                k <= j <= args@.len(),
                                vals_of(restvec@) == fargs.skip(k as int).take(j - k),
                                restvec@.len() == j - k,
                            decreases args@.len() - j,
                        {
                            let ghost old_rv = restvec@;
                            restvec.push(args[j].clone());
                            proof {
                                assert(restvec@.drop_last() =~= old_rv);
                                assert(vals_of(restvec@) =~= vals_of(old_rv).push(
                                    args@[j as int]@,
                                ));
                                assert(args@[j as int]@ == vals_of(args@)[j as int]);
                                assert(vals_of(old_rv).push(fargs.skip(k as int)[j - k]) =~= fargs.skip(
                                    k as int,
                                ).take(j - k + 1));
                            }
                            j = j + 1;
                        }
                        proof {
                            assert(fargs.skip(k as int).take(args@.len() - k) =~= fargs.skip(
                                k as int,
                            ));
                        }
                        let restlist = MalType::ListVec(MalListVec(true, restvec));
                        proof {
                            assert(restlist@ == ValModel::Sequence(true, fargs.skip(k as int)));
                            assert forall|i: int| 0 <= i < fargs.skip(k as int).len() implies val_wf(
                                #[trigger] fargs.skip(k as int)[i],
                                env@.scopes.len() as int,
                            ) by {
                                assert(fargs.skip(k as int)[i] == fargs[k + i]);
                            }
                            crate::types::lemma_vals_wf_intro(
                                fargs.skip(k as int),
                                env@.scopes.len() as int,
                            );
                            assert(val_wf(restlist@, env@.scopes.len() as int));
                            assert(pm[k + 1] == params@[k + 1]@);
                        }
                        let ghost data0 = env@.scopes[child as int].data;
                        env.set(child, params[k + 1].as_str(), restlist);
                        proof {
                            assert(bind_model(data0, pm, fargs, k as int) == set_binding(
                                data0,
                                pm[k + 1],
                                ValModel::Sequence(true, fargs.skip(k as int)),
                            ));
                            assert(env@.scopes[child as int].data == set_binding(
                                data0,
                                pm[k + 1],
                                ValModel::Sequence(true, fargs.skip(k as int)),
                            ));
                            assert(bind_model(
                                env@.scopes[child as int].data,
                                pm,
                                fargs,
                                params@.len() as int,
                            ) == env@.scopes[child as int].data);
                        }
                        k = params.len();
                    } else {
                        proof {
                            assert(bind_model(
                                env@.scopes[child as int].data,
                                pm,
                                fargs,
                                k as int,
                            ) == env@.scopes[child as int].data);
                            assert(bind_model(
                                env@.scopes[child as int].data,
                                pm,
                                fargs,
                                params@.len() as int,
                            ) == env@.scopes[child as int].data);
                        }
                        k = params.len();
                    }
                } else {
                    if k >= args.len() {
                        proof {
                            assert(bind_model(
                                env@.scopes[child as int].data,
                                pm,
                                fargs,
                                k as int,
                            ) == env@.scopes[child as int].data);
                            assert(bind_model(
                                env@.scopes[child as int].data,
                                pm,
                                fargs,
                                params@.len() as int,
                            ) == env@.scopes[child as int].data);
                        }
                        k = params.len();
                    } else {
                        proof {
                            assert(vals_of(args@)[k as int] == fargs[k as int]);
                            assert(args@[k as int]@ == fargs[k as int]);
                        }
                        let ghost data0 = env@.scopes[child as int].data;
                        let av = args[k].clone();
                        env.set(child, params[k].as_str(), av);
                        proof {
                            assert(env@.scopes[child as int].data == set_binding(
                                data0,
                                pm[k as int],
                                fargs[k as int],
                            ));
                            assert(bind_model(data0, pm, fargs, k as int) == bind_model(
                                set_binding(data0, pm[k as int], fargs[k as int]),
                                pm,
                                fargs,
                                k + 1,
                            ));
                        }
                        k = k + 1;
                    }
                }
            }
            proof {
                assert(bind_model(
                    env@.scopes[child as int].data,
                    pm,
                    fargs,
                    params@.len() as int,
                ) == env@.scopes[child as int].data);
                assert(env@.scopes[child as int].data == bind_model(Seq::empty(), pm, fargs, 0));
                assert(env@.scopes =~= mid_env.scopes.push(
                    ScopeModel {
                        outer: Some(ce as int),
                        data: bind_model(Seq::empty(), pm, fargs, 0),
                    },
                ));
            }
            // The body runs in the fresh scope, whose enclosing scope is the
            // closure's captured one, not the caller's.
            proof {
                assert(vals_of(bodyvec@).len() == 1);
                assert(vals_of(bodyvec@)[0] == bodyvec@[0]@);
                lemma_val_wf_mono(
                    bodyvec@[0]@,
                    mid_env.scopes.len() as int,
                    env@.scopes.len() as int,
                );
            }
            let rb = EVAL(&bodyvec[0], env, child, fuel - 1, out);
            proof {
                let eb = EnvModel {
                    scopes: mid_env.scopes.push(
                        ScopeModel {
                            outer: Some(ce as int),
                            data: bind_model(Seq::empty(), pm, fargs, 0),
                        },
                    ),
                };
                let o2 = eval_spec(
                    eb,
                    mid_env.scopes.len() as int,
                    vals_of(bodyvec@)[0],
                    (fuel - 1) as nat,
                );
            }
            rb
        },
        _ => {
            let mut msg = pr_str(&f, false);
            msg.append(" is not a function nor a lambda.");
            proof {
                assert(msg@ =~= not_callable_msg(f@));
                assert(strs_of(final(out)@) =~= strs_of(old(out)@) + Seq::<Seq<char>>::empty());
                assert(!(f@ is Fn) && !(f@ is Lambda));
            }
            Err(MalError::new(msg.as_str()))
        },
    }
}

/// Evaluates a form in a scope of the arena. Special forms dispatch on the
/// head symbol; any other nonempty list or vector is an application. The
/// `fuel` bounds the depth of nested closure applications; `out` receives
/// the lines that `prn` and `println` print.
#[allow(non_snake_case)]
#[verifier::loop_isolation(false)]
#[verifier::rlimit(100)]
pub fn EVAL(ast: &MalType, env: &mut Env, scope: usize, fuel: u64, out: &mut Vec<String>) -> (r:
    Result<MalType, MalError>)
    requires
        env_wf(old(env)@),
        scope < old(env)@.scopes.len(),
        val_wf(ast@, old(env)@.scopes.len() as int),
    ensures
        eval_post(
            eval_spec(old(env)@, scope as int, ast@, fuel as nat),
            r,
            final(env)@,
            old(out)@,
            final(out)@,
        ),
        env_wf(final(env)@),
        old(env)@.scopes.len() <= final(env)@.scopes.len(),
        scope < final(env)@.scopes.len(),
        r is Ok ==> val_wf(r->Ok_0@, final(env)@.scopes.len() as int),
    decreases fuel, vheight(ast@), 1nat,
{
    let ghost o = eval_spec(old(env)@, scope as int, ast@, fuel as nat);
    match ast {
        MalType::ListVec(lv) => {
            let ghost ms = vals_of(lv.1@);
            proof {
                assert(ast@ == ValModel::Sequence(lv.0, ms));
            }
            if lv.1.len() == 0 {
                proof {
                    assert(strs_of(final(out)@) =~= strs_of(old(out)@) + Seq::<Seq<char>>::empty());
                }
                return Ok(ast.clone());
            }
            proof {
                assert(ms[0] == lv.1@[0]@);
                assert(crate::types::vals_wf(ms, old(env)@.scopes.len() as int));
                assert forall|i: int| 0 <= i < ms.len() implies val_wf(
                    #[trigger] ms[i],
                    old(env)@.scopes.len() as int,
                ) by {
                    crate::types::lemma_vals_wf_elem(ms, old(env)@.scopes.len() as int, i);
                }
                assert(all_wf(ms, old(env)@.scopes.len() as int));
            }
            if !lv.0 {
                // A vector evaluates elementwise; it is never an application.
                let elems = match eval_elems(env, scope, &lv.1, 0, fuel, out) {
                    Err(e) => {
                        return Err(e);
                    },
                    Ok(v) => v,
                };
                let ghost elems_m = vals_of(elems@);
                let r = MalType::ListVec(MalListVec(false, elems));
                proof {
                    crate::types::lemma_vals_wf_intro(elems_m, final(env)@.scopes.len() as int);
                    assert(r@ == ValModel::Sequence(false, elems_m));
                }
                return Ok(r);
            }
            let head_name = lv.1[0].symbol();
            let is_def = match &head_name {
                Some(n) => str_eq(n.as_str(), "def!"),
                None => false,
            };
            let is_let = match &head_name {
                Some(n) => str_eq(n.as_str(), "let*"),
                None => false,
            };
            let is_do = match &head_name {
                Some(n) => str_eq(n.as_str(), "do"),
                None => false,
            };
            let is_if = match &head_name {
                Some(n) => str_eq(n.as_str(), "if"),
                None => false,
            };
            let is_fn = match &head_name {
                Some(n) => str_eq(n.as_str(), "fn*"),
                None => false,
            };
            proof {
                assert(is_def == (ms[0] == ValModel::Symbol("def!"@)));
                assert(is_let == (ms[0] == ValModel::Symbol("let*"@)));
                assert(is_do == (ms[0] == ValModel::Symbol("do"@)));
                assert(is_if == (ms[0] == ValModel::Symbol("if"@)));
                assert(is_fn == (ms[0] == ValModel::Symbol("fn*"@)));
            }
            if is_def {
                return eval_def_exec(&lv.1, env, scope, fuel, out);
            }
            if is_let {
                return eval_let_exec(&lv.1, env, scope, fuel, out);
            }
            if is_do {
                proof {
                    assert(o == eval_do_spec(old(env)@, scope as int, ms, 1, fuel as nat));
                }
                return eval_do(env, scope, &lv.1, 1, fuel, out);
            }
            if is_if {
                return eval_if_exec(&lv.1, env, scope, fuel, out);
            }
            if is_fn {
                proof {
                    assert(o == eval_fn_spec(old(env)@, scope as int, ms));
                    assert(strs_of(final(out)@) =~= strs_of(old(out)@) + Seq::<Seq<char>>::empty());
                }
                return eval_fn_exec(&lv.1, env, scope);
            }
            // Application: every element is evaluated, then the head value
            // is applied to the rest.
            proof {
                if head_name is Some {
                    assert(ms[0] == ValModel::Symbol(head_name->Some_0@));
                } else {
                    assert(!(ms[0] is Symbol));
                }
            }
            let mut elems = match eval_elems(env, scope, &lv.1, 0, fuel, out) {
                Err(e) => {
                    return Err(e);
                },
                Ok(v) => v,
            };
            let ghost seq_out = eval_seq_spec(old(env)@, scope as int, ms, 0, fuel as nat);
            let ghost vs = seq_out.0->Ok_0;
            let ghost mid_env = env@;
            proof {
                assert(vals_of(elems@) == vs);
                assert(elems@.len() == vals_of(elems@).len());
                assert(elems@.len() == ms.len());
            }
            let f = elems.remove(0);
            proof {
                assert(vals_of(elems@) =~= vs.skip(1));
                assert(f@ == vs[0]);
                assert(val_wf(f@, env@.scopes.len() as int));
            }
            let rb = apply_exec(f, elems, env, fuel, out);
            proof {
                let oa = apply_spec(mid_env, vs[0], vs.skip(1), fuel as nat);
                assert(strs_of(final(out)@) =~= strs_of(old(out)@) + (seq_out.2 + oa.out));
            }
            return rb;
        },
        MalType::Hashmap(ps) => {
            proof {
                assert(ast@ == ValModel::Hashmap(pairs_of(ps@)));
            }
            match eval_pairs(env, scope, ps, 0, fuel, out) {
                Err(e) => Err(e),
                Ok(ps2) => {
                    let r = MalType::Hashmap(ps2);
                    proof {
                        let (rs, e2, outs) = eval_pairs_spec(
                            old(env)@,
                            scope as int,
                            pairs_of(ps@),
                            0,
                            fuel as nat,
                        );
                        assert(r@ == ValModel::Hashmap(rs->Ok_0));
                    }
                    Ok(r)
                },
            }
        },
        MalType::Symbol(s) => {
            proof {
                assert(strs_of(final(out)@) =~= strs_of(old(out)@) + Seq::<Seq<char>>::empty());
            }
            match env.get(scope, s.as_str()) {
                Ok(v) => {
                    proof {
                        lemma_env_lookup_wf(env@, scope as int, s@);
                    }
                    Ok(v)
                },
                Err(e) => Err(e),
            }
        },
        _ => {
            proof {
                assert(o.res == Ok::<ValModel, Seq<char>>(ast@));
                assert(strs_of(final(out)@) =~= strs_of(old(out)@) + Seq::<Seq<char>>::empty());
            }
            Ok(ast.clone())
        },
    }
}

/// `(def! NAME EXPR)`, executable.
#[verifier::loop_isolation(false)]
#[verifier::rlimit(100)]
fn eval_def_exec(
    items: &Vec<MalType>,
    env: &mut Env,
    scope: usize,
    fuel: u64,
    out: &mut Vec<String>,
) -> (r: Result<MalType, MalError>)
    requires
        env_wf(old(env)@),
        scope < old(env)@.scopes.len(),
        all_wf(vals_of(items@), old(env)@.scopes.len() as int),
    ensures
        eval_post(
            eval_def_spec(old(env)@, scope as int, vals_of(items@), fuel as nat),
            r,
            final(env)@,
            old(out)@,
            final(out)@,
        ),
        env_wf(final(env)@),
        old(env)@.scopes.len() <= final(env)@.scopes.len(),
        scope < final(env)@.scopes.len(),
        r is Ok ==> val_wf(r->Ok_0@, final(env)@.scopes.len() as int),
    decreases fuel, seq_height(vals_of(items@)), 2nat,
{
    let ghost ms = vals_of(items@);
    if items.len() != 3 {
        proof {
            assert(strs_of(final(out)@) =~= strs_of(old(out)@) + Seq::<Seq<char>>::empty());
        }
        return Err(MalError::new("Syntax error of 'def!'."));
    }
    proof {
        assert(ms[1] == items@[1]@);
        assert(ms[2] == items@[2]@);
    }
    let name = match items[1].symbol() {
        Some(n) => n,
        None => {
            proof {
                assert(strs_of(final(out)@) =~= strs_of(old(out)@) + Seq::<Seq<char>>::empty());
            }
            return Err(MalError::new("Syntax error of 'def!'."));
        },
    };
    proof {
        lemma_seq_height_elem(ms, 2);
    }
    let v = match EVAL(&items[2], env, scope, fuel, out) {
        Err(e) => {
            return Err(e);
        },
        Ok(v) => v,
    };
    let ghost o1 = eval_spec(old(env)@, scope as int, ms[2], fuel as nat);
    match &v {
        MalType::Fn(f) => {
            let fname = f.name();
            env.remove(scope, fname.as_str());
            proof {
                assert(env@.scopes =~= env_remove_model(
                    o1.env,
                    scope as int,
                    builtin_name(f.op),
                ).scopes);
                assert(env@ == env_remove_model(o1.env, scope as int, builtin_name(f.op)));
            }
        },
        _ => {},
    }
    let ghost e2 = env@;
    env.set(scope, name.as_str(), v.clone());
    proof {
        assert(env@.scopes =~= env_set_model(e2, scope as int, name@, v@).scopes);
        assert(env@ == env_set_model(e2, scope as int, name@, v@));
        assert(strs_of(final(out)@) =~= strs_of(old(out)@) + o1.out);
        lemma_val_wf_mono(v@, o1.env.scopes.len() as int, env@.scopes.len() as int);
    }
    Ok(v)
}

/// `(let* BINDINGS BODY)`, executable.
#[verifier::loop_isolation(false)]
#[verifier::rlimit(100)]
fn eval_let_exec(
    items: &Vec<MalType>,
    env: &mut Env,
    scope: usize,
    fuel: u64,
    out: &mut Vec<String>,
) -> (r: Result<MalType, MalError>)
    requires
        env_wf(old(env)@),
        scope < old(env)@.scopes.len(),
        all_wf(vals_of(items@), old(env)@.scopes.len() as int),
    ensures
        eval_post(
            eval_let_spec(old(env)@, scope as int, vals_of(items@), fuel as nat),
            r,
            final(env)@,
            old(out)@,
            final(out)@,
        ),
        env_wf(final(env)@),
        old(env)@.scopes.len() <= final(env)@.scopes.len(),
        scope < final(env)@.scopes.len(),
        r is Ok ==> val_wf(r->Ok_0@, final(env)@.scopes.len() as int),
    decreases fuel, seq_height(vals_of(items@)), 2nat,
{
    let ghost ms = vals_of(items@);
    if items.len() != 3 {
        proof {
            assert(strs_of(final(out)@) =~= strs_of(old(out)@) + Seq::<Seq<char>>::empty());
        }
        return Err(MalError::new("Syntax error of 'let*'."));
    }
    proof {
        assert(ms[1] == items@[1]@);
        assert(ms[2] == items@[2]@);
    }
    let binds = match items[1].list_or_vec() {
        Some(b) => b,
        None => {
            proof {
                assert(strs_of(final(out)@) =~= strs_of(old(out)@) + Seq::<Seq<char>>::empty());
            }
            return Err(MalError::new("Syntax error of 'let*'."));
        },
    };
    if binds.len() % 2 != 0 {
        proof {
            assert(vals_of(binds@).len() == binds@.len());
            assert(strs_of(final(out)@) =~= strs_of(old(out)@) + Seq::<Seq<char>>::empty());
        }
        return Err(MalError::new("Syntax error of 'let*'."));
    }
    let child = env.push_scope(scope);
    proof {
        assert(env@.scopes =~= env_push_model(old(env)@, scope as int).scopes);
        assert(env@ == env_push_model(old(env)@, scope as int));
        assert(vals_of(binds@) == ms[1]->Sequence_1);
        assert(val_wf(ms[1], old(env)@.scopes.len() as int));
        assert(crate::types::vals_wf(vals_of(binds@), old(env)@.scopes.len() as int));
        assert forall|i: int| 0 <= i < vals_of(binds@).len() implies val_wf(
            #[trigger] vals_of(binds@)[i],
            env@.scopes.len() as int,
        ) by {
            crate::types::lemma_vals_wf_elem(
                vals_of(binds@),
                old(env)@.scopes.len() as int,
                i,
            );
            lemma_val_wf_mono(
                vals_of(binds@)[i],
                old(env)@.scopes.len() as int,
                env@.scopes.len() as int,
            );
        }
        lemma_seq_height_elem(ms, 1);
        assert(seq_height(vals_of(binds@)) < vheight(ms[1]));
    }
    let ghost push_env = env@;
    match eval_binds(env, child, &binds, 0, fuel, out) {
        Err(e) => {
            return Err(e);
        },
        Ok(_) => {},
    }
    let ghost ob = eval_binds_spec(push_env, child as int, vals_of(binds@), 0, fuel as nat);
    proof {
        lemma_seq_height_elem(ms, 2);
        lemma_val_wf_mono(ms[2], old(env)@.scopes.len() as int, env@.scopes.len() as int);
    }
    let r2 = EVAL(&items[2], env, child, fuel, out);
    proof {
        let o2 = eval_spec(ob.env, child as int, ms[2], fuel as nat);
        assert(strs_of(final(out)@) =~= strs_of(old(out)@) + (ob.out + o2.out));
    }
    r2
}

/// `(if COND THEN ELSE?)`, executable.
#[verifier::loop_isolation(false)]
#[verifier::rlimit(100)]
fn eval_if_exec(
    items: &Vec<MalType>,
    env: &mut Env,
    scope: usize,
    fuel: u64,
    out: &mut Vec<String>,
) -> (r: Result<MalType, MalError>)
    requires
        env_wf(old(env)@),
        scope < old(env)@.scopes.len(),
        all_wf(vals_of(items@), old(env)@.scopes.len() as int),
    ensures
        eval_post(
            eval_if_spec(old(env)@, scope as int, vals_of(items@), fuel as nat),
            r,
            final(env)@,
            old(out)@,
            final(out)@,
        ),
        env_wf(final(env)@),
        old(env)@.scopes.len() <= final(env)@.scopes.len(),
        scope < final(env)@.scopes.len(),
        r is Ok ==> val_wf(r->Ok_0@, final(env)@.scopes.len() as int),
    decreases fuel, seq_height(vals_of(items@)), 2nat,
{
    let ghost ms = vals_of(items@);
    if items.len() < 3 {
        proof {
            assert(strs_of(final(out)@) =~= strs_of(old(out)@) + Seq::<Seq<char>>::empty());
        }
        return Err(MalError::new("Syntax error of 'if'."));
    }
    proof {
        assert(ms[1] == items@[1]@);
        assert(ms[2] == items@[2]@);
        lemma_seq_height_elem(ms, 1);
    }
    let c = match EVAL(&items[1], env, scope, fuel, out) {
        Err(e) => {
            return Err(e);
        },
        Ok(c) => c,
    };
    let ghost o1 = eval_spec(old(env)@, scope as int, ms[1], fuel as nat);
    let truthy = match &c {
        MalType::Nil => false,
        MalType::False => false,
        _ => true,
    };
    proof {
        assert(truthy == !(c@ == ValModel::Nil || c@ == ValModel::False));
    }
    if truthy {
        proof {
            lemma_seq_height_elem(ms, 2);
            lemma_val_wf_mono(ms[2], old(env)@.scopes.len() as int, env@.scopes.len() as int);
        }
        let r2 = EVAL(&items[2], env, scope, fuel, out);
        proof {
            let o2 = eval_spec(o1.env, scope as int, ms[2], fuel as nat);
            assert(strs_of(final(out)@) =~= strs_of(old(out)@) + (o1.out + o2.out));
        }
        r2
    } else if items.len() > 3 {
        proof {
            assert(ms[3] == items@[3]@);
            lemma_seq_height_elem(ms, 3);
            lemma_val_wf_mono(ms[3], old(env)@.scopes.len() as int, env@.scopes.len() as int);
        }
        let r2 = EVAL(&items[3], env, scope, fuel, out);
        proof {
            let o2 = eval_spec(o1.env, scope as int, ms[3], fuel as nat);
            assert(strs_of(final(out)@) =~= strs_of(old(out)@) + (o1.out + o2.out));
        }
        r2
    } else {
        Ok(MalType::Nil)
    }
}

/// `(fn* PARAMS BODY)`, executable.
#[verifier::loop_isolation(false)]
#[verifier::rlimit(100)]
fn eval_fn_exec(items: &Vec<MalType>, env: &Env, scope: usize) -> (r: Result<MalType, MalError>)
    requires
        env_wf(env@),
        scope < env@.scopes.len(),
        all_wf(vals_of(items@), env@.scopes.len() as int),
    ensures
        ({
            let o = eval_fn_spec(env@, scope as int, vals_of(items@));
            match (r, o.res) {
                (Ok(v), Ok(m)) => v@ == m,
                (Err(e), Err(m)) => e@ == m,
                _ => false,
            }
        }),
        r is Ok ==> val_wf(r->Ok_0@, env@.scopes.len() as int),
{
    let ghost ms = vals_of(items@);
    if items.len() != 3 {
        return Err(MalError::new("Syntax error of 'fn*'."));
    }
    proof {
        assert(ms[1] == items@[1]@);
        assert(ms[2] == items@[2]@);
    }
    let params = match items[1].list_or_vec() {
        Some(p) => p,
        None => {
            return Err(MalError::new("Syntax error of 'fn*'."));
        },
    };
    let ghost pm = vals_of(params@);
    let mut names: Vec<String> = Vec::new();
    let n = params.len();
    let mut i: usize = 0;
    proof {
        assert(pm.take(0) =~= Seq::<ValModel>::empty());
        assert(strs_of(names@) =~= Seq::<Seq<char>>::empty());
    }
    while i < n
        invariant
            i <= n,
            n == params@.len(),
            pm == vals_of(params@),
            names_opt(pm.take(i as int)) == Some(strs_of(names@)),
        decreases n - i,
    {
        proof {
            assert(pm[i as int] == params@[i as int]@);
        }
        let nm = match params[i].symbol() {
            Some(nm) => nm,
            None => {
                proof {
                    lemma_names_opt_none(pm, i as int);
                }
                return Err(MalError::new("Syntax error of 'fn*'."));
            },
        };
        let ghost old_names = names@;
        names.push(nm);
        proof {
            lemma_names_opt_take(pm, i as int);
            assert(names@.drop_last() =~= old_names);
            crate::types::lemma_strs_of_snoc(names@);
            assert(strs_of(names@) =~= strs_of(old_names).push(pm[i as int]->Symbol_0));
        }
        i = i + 1;
    }
    proof {
        assert(pm.take(n as int) =~= pm);
    }
    let body = items[2].clone();
    let mut bodyvec: Vec<MalType> = Vec::new();
    bodyvec.push(body);
    let lam = MalType::Lambda(names, bodyvec, scope);
    proof {
        assert(vals_of(bodyvec@) =~= seq![ms[2]]);
        assert(lam@ == ValModel::Lambda(
            names_opt(ms[1]->Sequence_1)->Some_0,
            seq![ms[2]],
            scope as int,
        ));
        assert(val_wf(lam@, env@.scopes.len() as int));
    }
    Ok(lam)
}

/// A value found by lookup in a well-formed arena is well formed.
pub proof fn lemma_env_lookup_wf(e: EnvModel, s: int, name: Seq<char>)
    requires
        env_wf(e),
        env_lookup(e, s, name) is Some,
    ensures
        val_wf(env_lookup(e, s, name)->Some_0, e.scopes.len() as int),
    decreases s,
{
    if 0 <= s < e.scopes.len() {
        assert(scope_wf(e.scopes[s], s, e.scopes.len() as int));
        match scope_get(e.scopes[s].data, name) {
            Some(v) => {
                lemma_scope_get_wf(e.scopes[s].data, name, e.scopes.len() as int);
            },
            None => {
                match e.scopes[s].outer {
                    Some(j) => {
                        if 0 <= j < s {
                            lemma_env_lookup_wf(e, j, name);
                        }
                    },
                    None => {},
                }
            },
        }
    }
}

proof fn lemma_scope_get_wf(data: Seq<(Seq<char>, ValModel)>, name: Seq<char>, n: int)
    requires
        scope_get(data, name) is Some,
        forall|k: int| 0 <= k < data.len() ==> val_wf((#[trigger] data[k]).1, n),
    ensures
        val_wf(scope_get(data, name)->Some_0, n),
    decreases data.len(),
{
    if data.len() > 0 {
        if data[0].0 == name {
        } else {
            assert forall|k: int| 0 <= k < data.skip(1).len() implies val_wf(
                (#[trigger] data.skip(1)[k]).1,
                n,
            ) by {
                assert(data.skip(1)[k] == data[k + 1]);
            }
            lemma_scope_get_wf(data.skip(1), name, n);
        }
    }
}

} // verus!

verus! {

use crate::env::lemma_scope_get_after_set;
use crate::reader::{parse_form, parse_seq, parse_wrap, tokenize_spec};

// ---------------------------------------------------------------------------
// Results of reading are well formed
// ---------------------------------------------------------------------------

proof fn lemma_atom_wf(t: Seq<char>, n: int)
    ensures
        crate::reader::atom_of(t) is Ok ==> val_wf(crate::reader::atom_of(t)->Ok_0, n),
{
}

proof fn lemma_vals_wf_skip2(s: Seq<ValModel>, n: int)
    requires
        crate::types::vals_wf(s, n),
        s.len() >= 2,
    ensures
        crate::types::vals_wf(s.skip(2), n),
{
    assert forall|i: int| 0 <= i < s.skip(2).len() implies val_wf(#[trigger] s.skip(2)[i], n) by {
        assert(s.skip(2)[i] == s[i + 2]);
        crate::types::lemma_vals_wf_elem(s, n, i + 2);
    }
    crate::types::lemma_vals_wf_intro(s.skip(2), n);
}

proof fn lemma_pair_up_wf(s: Seq<ValModel>, n: int)
    requires
        crate::types::vals_wf(s, n),
    ensures
        crate::types::pairs_wf(crate::types::pair_up(s), n),
    decreases s.len(),
{
    if s.len() < 2 {
    } else {
        lemma_vals_wf_skip2(s, n);
        lemma_pair_up_wf(s.skip(2), n);
        let rest = crate::types::pair_up(s.skip(2));
        let whole = crate::types::pair_up(s);
        assert(whole == seq![(s[0], s[1])] + rest);
        assert forall|j: int| 0 <= j < whole.len() implies val_wf(
            (#[trigger] whole[j]).0,
            n,
        ) && val_wf(whole[j].1, n) by {
            if j == 0 {
                crate::types::lemma_vals_wf_elem(s, n, 0);
                crate::types::lemma_vals_wf_elem(s, n, 1);
            } else {
                assert(whole[j] == rest[j - 1]);
                crate::types::lemma_pairs_wf_elem(rest, n, j - 1);
            }
        }
        crate::types::lemma_pairs_wf_intro(whole, n);
    }
}

proof fn lemma_parse_form_wf(toks: Seq<Seq<char>>, i: int, n: int)
    ensures
        parse_form(toks, i).0 is Ok ==> val_wf(parse_form(toks, i).0->Ok_0, n),
    decreases toks.len() - i, 1nat,
{
    if 0 <= i < toks.len() {
        let t = toks[i];
        if t == "'"@ {
            lemma_parse_wrap_wf(toks, i, "quote"@, n);
        } else if t == "`"@ {
            lemma_parse_wrap_wf(toks, i, "quasiquote"@, n);
        } else if t == "~"@ {
            lemma_parse_wrap_wf(toks, i, "unquote"@, n);
        } else if t == "~@"@ {
            lemma_parse_wrap_wf(toks, i, "splice-unquote"@, n);
        } else if t == "@"@ {
            lemma_parse_wrap_wf(toks, i, "deref"@, n);
        } else if t == "^"@ {
            lemma_parse_form_wf(toks, i + 1, n);
            let (rm, j) = parse_form(toks, i + 1);
            if rm is Ok && i + 1 < j <= toks.len() {
                lemma_parse_form_wf(toks, j, n);
                let (rf, k) = parse_form(toks, j);
                if rf is Ok {
                    let items = seq![ValModel::Symbol("with-meta"@), rf->Ok_0, rm->Ok_0];
                    assert forall|q: int| 0 <= q < items.len() implies val_wf(
                        #[trigger] items[q],
                        n,
                    ) by {}
                    crate::types::lemma_vals_wf_intro(items, n);
                }
            }
        } else if t == "("@ {
            lemma_parse_seq_wf(toks, i + 1, ")"@, n);
        } else if t == "["@ {
            lemma_parse_seq_wf(toks, i + 1, "]"@, n);
        } else if t == "{"@ {
            lemma_parse_seq_wf(toks, i + 1, "}"@, n);
            let (rs, k) = parse_seq(toks, i + 1, "}"@);
            if rs is Ok && rs->Ok_0.len() % 2 == 0 {
                lemma_pair_up_wf(rs->Ok_0, n);
            }
        } else if t == ")"@ || t == "]"@ || t == "}"@ {
        } else {
            lemma_atom_wf(t, n);
        }
    }
}

proof fn lemma_parse_wrap_wf(toks: Seq<Seq<char>>, i: int, sym: Seq<char>, n: int)
    ensures
        parse_wrap(toks, i, sym).0 is Ok ==> val_wf(parse_wrap(toks, i, sym).0->Ok_0, n),
    decreases toks.len() - i, 0nat,
{
    if 0 <= i && i + 1 <= toks.len() {
        lemma_parse_form_wf(toks, i + 1, n);
        let (r, j) = parse_form(toks, i + 1);
        if r is Ok {
            let items = seq![ValModel::Symbol(sym), r->Ok_0];
            assert forall|q: int| 0 <= q < items.len() implies val_wf(#[trigger] items[q], n) by {}
            crate::types::lemma_vals_wf_intro(items, n);
        }
    }
}

proof fn lemma_parse_seq_wf(toks: Seq<Seq<char>>, i: int, closer: Seq<char>, n: int)
    ensures
        parse_seq(toks, i, closer).0 is Ok ==> crate::types::vals_wf(
            parse_seq(toks, i, closer).0->Ok_0,
            n,
        ),
    decreases toks.len() - i, 2nat,
{
    if 0 <= i < toks.len() {
        if toks[i] == closer {
            crate::types::lemma_vals_wf_intro(Seq::empty(), n);
        } else {
            lemma_parse_form_wf(toks, i, n);
            let (r, j) = parse_form(toks, i);
            match r {
                Err(_) => {},
                Ok(v) => {
                    if i < j <= toks.len() {
                        lemma_parse_seq_wf(toks, j, closer, n);
                        let (rs, k) = parse_seq(toks, j, closer);
                        if rs is Ok && !(v is Comment) {
                            let items = seq![v] + rs->Ok_0;
                            assert forall|q: int| 0 <= q < items.len() implies val_wf(
                                #[trigger] items[q],
                                n,
                            ) by {
                                if q > 0 {
                                    assert(items[q] == rs->Ok_0[q - 1]);
                                    crate::types::lemma_vals_wf_elem(rs->Ok_0, n, q - 1);
                                }
                            }
                            crate::types::lemma_vals_wf_intro(items, n);
                        }
                    }
                },
            }
        }
    } else {
        crate::types::lemma_vals_wf_intro(Seq::empty(), n);
    }
}

/// What reading yields is well formed for any arena: reading never
/// produces a closure.
pub proof fn lemma_read_wf(s: Seq<char>, n: int)
    ensures
        read_spec(s) is Ok ==> val_wf(read_spec(s)->Ok_0, n),
{
    lemma_parse_form_wf(tokenize_spec(s), 0, n);
}

// ---------------------------------------------------------------------------
// The read-eval-print round and the root environment
// ---------------------------------------------------------------------------

/// The closure-application depth available to one `rep` round.
pub const REP_FUEL: u64 = 1000;

/// Reads one form from an input line.
#[allow(non_snake_case)]
pub fn READ(s: &str) -> (r: Result<MalType, MalError>)
    ensures
        match (r, read_spec(s@)) {
            (Ok(v), Ok(m)) => v@ == m,
            (Err(e), Err(m)) => e@ == m,
            _ => false,
        },
{
    read_str(s)
}

/// Renders a value readably.
#[allow(non_snake_case)]
pub fn PRINT(ast: &MalType) -> (r: Result<String, MalError>)
    ensures
        r is Ok && r->Ok_0@ == crate::printer::print_spec(ast@, true),
{
    Ok(pr_str(ast, true))
}

/// What one read-eval-print round yields: the rendered result or the
/// error, the arena afterwards, and the lines printed along the way.
pub open spec fn rep_spec(s: Seq<char>, e: EnvModel) -> (
    Result<Seq<char>, Seq<char>>,
    EnvModel,
    Seq<Seq<char>>,
) {
    match read_spec(s) {
        Err(m) => (Err(m), e, Seq::empty()),
        Ok(form) => {
            let o = eval_spec(e, 0, form, REP_FUEL as nat);
            match o.res {
                Err(m) => (Err(m), o.env, o.out),
                Ok(v) => (Ok(crate::printer::print_spec(v, true)), o.env, o.out),
            }
        },
    }
}

/// One read-eval-print round: reads a line, evaluates its first form in
/// the root scope, and renders the result readably.
pub fn rep(s: &str, env: &mut Env, out: &mut Vec<String>) -> (r: Result<String, MalError>)
    requires
        env_wf(old(env)@),
        old(env)@.scopes.len() >= 1,
    ensures
        ({
            let (sr, e2, outs) = rep_spec(s@, old(env)@);
            &&& final(env)@ == e2
            &&& strs_of(final(out)@) == strs_of(old(out)@) + outs
            &&& match (r, sr) {
                (Ok(v), Ok(m)) => v@ == m,
                (Err(e), Err(m)) => e@ == m,
                _ => false,
            }
        }),
        env_wf(final(env)@),
        old(env)@.scopes.len() <= final(env)@.scopes.len(),
{
    let form = match READ(s) {
        Err(e) => {
            proof {
                assert(strs_of(final(out)@) =~= strs_of(old(out)@) + Seq::<Seq<char>>::empty());
            }
            return Err(e);
        },
        Ok(form) => form,
    };
    proof {
        lemma_read_wf(s@, old(env)@.scopes.len() as int);
    }
    let v = match EVAL(&form, env, 0, REP_FUEL, out) {
        Err(e) => {
            return Err(e);
        },
        Ok(v) => v,
    };
    PRINT(&v)
}

/// The root environment: one scope holding every primitive under its name.
#[verifier::rlimit(100)]
pub fn base_env() -> (e: Env)
    ensures
        env_wf(e@),
        e@.scopes.len() == 1,
        e@.scopes[0].outer is None,
        forall|op: Builtin|
            env_lookup(e@, 0, #[trigger] builtin_name(op)) == Some(ValModel::Fn(op)),
{
    broadcast use vstd::string::group_string_axioms;

    proof {
        reveal_strlit("+");
        reveal_strlit("-");
        reveal_strlit("*");
        reveal_strlit("/");
        reveal_strlit("list");
        reveal_strlit("list?");
        reveal_strlit("empty?");
        reveal_strlit("count");
        reveal_strlit("=");
        reveal_strlit("<");
        reveal_strlit("<=");
        reveal_strlit(">");
        reveal_strlit(">=");
        reveal_strlit("pr-str");
        reveal_strlit("str");
        reveal_strlit("prn");
        reveal_strlit("println");
        assert("+"@[0] == '+');
        assert("-"@[0] == '-');
        assert("*"@[0] == '*');
        assert("/"@[0] == '/');
        assert("list"@[0] == 'l');
        assert("list"@[1] == 'i');
        assert("list"@[2] == 's');
        assert("list"@[3] == 't');
        assert("list?"@[0] == 'l');
        assert("list?"@[1] == 'i');
        assert("list?"@[2] == 's');
        assert("list?"@[3] == 't');
        assert("list?"@[4] == '?');
        assert("empty?"@[0] == 'e');
        assert("empty?"@[1] == 'm');
        assert("empty?"@[2] == 'p');
        assert("empty?"@[3] == 't');
        assert("empty?"@[4] == 'y');
        assert("empty?"@[5] == '?');
        assert("count"@[0] == 'c');
        assert("count"@[1] == 'o');
        assert("count"@[2] == 'u');
        assert("count"@[3] == 'n');
        assert("count"@[4] == 't');
        assert("="@[0] == '=');
        assert("<"@[0] == '<');
        assert("<="@[0] == '<');
        assert("<="@[1] == '=');
        assert(">"@[0] == '>');
        assert(">="@[0] == '>');
        assert(">="@[1] == '=');
        assert("pr-str"@[0] == 'p');
        assert("pr-str"@[1] == 'r');
        assert("pr-str"@[2] == '-');
        assert("pr-str"@[3] == 's');
        assert("pr-str"@[4] == 't');
        assert("pr-str"@[5] == 'r');
        assert("str"@[0] == 's');
        assert("str"@[1] == 't');
        assert("str"@[2] == 'r');
        assert("prn"@[0] == 'p');
        assert("prn"@[1] == 'r');
        assert("prn"@[2] == 'n');
        assert("println"@[0] == 'p');
        assert("println"@[1] == 'r');
        assert("println"@[2] == 'i');
        assert("println"@[3] == 'n');
        assert("println"@[4] == 't');
        assert("println"@[5] == 'l');
        assert("println"@[6] == 'n');
        assert("+"@.len() == 1);
        assert("-"@.len() == 1);
        assert("*"@.len() == 1);
        assert("/"@.len() == 1);
        assert("list"@.len() == 4);
        assert("list?"@.len() == 5);
        assert("empty?"@.len() == 6);
        assert("count"@.len() == 5);
        assert("="@.len() == 1);
        assert("<"@.len() == 1);
        assert("<="@.len() == 2);
        assert(">"@.len() == 1);
        assert(">="@.len() == 2);
        assert("pr-str"@.len() == 6);
        assert("str"@.len() == 3);
        assert("prn"@.len() == 3);
        assert("println"@.len() == 7);
        assert("+"@ != "-"@);
        assert("+"@ != "*"@);
        assert("+"@ != "/"@);
        assert("+"@ != "list"@);
        assert("+"@ != "list?"@);
        assert("+"@ != "empty?"@);
        assert("+"@ != "count"@);
        assert("+"@ != "="@);
        assert("+"@ != "<"@);
        assert("+"@ != "<="@);
        assert("+"@ != ">"@);
        assert("+"@ != ">="@);
        assert("+"@ != "pr-str"@);
        assert("+"@ != "str"@);
        assert("+"@ != "prn"@);
        assert("+"@ != "println"@);
        assert("-"@ != "*"@);
        assert("-"@ != "/"@);
        assert("-"@ != "list"@);
        assert("-"@ != "list?"@);
        assert("-"@ != "empty?"@);
        assert("-"@ != "count"@);
        assert("-"@ != "="@);
        assert("-"@ != "<"@);
        assert("-"@ != "<="@);
        assert("-"@ != ">"@);
        assert("-"@ != ">="@);
        assert("-"@ != "pr-str"@);
        assert("-"@ != "str"@);
        assert("-"@ != "prn"@);
        assert("-"@ != "println"@);
        assert("*"@ != "/"@);
        assert("*"@ != "list"@);
        assert("*"@ != "list?"@);
        assert("*"@ != "empty?"@);
        assert("*"@ != "count"@);
        assert("*"@ != "="@);
        assert("*"@ != "<"@);
        assert("*"@ != "<="@);
        assert("*"@ != ">"@);
        assert("*"@ != ">="@);
        assert("*"@ != "pr-str"@);
        assert("*"@ != "str"@);
        assert("*"@ != "prn"@);
        assert("*"@ != "println"@);
        assert("/"@ != "list"@);
        assert("/"@ != "list?"@);
        assert("/"@ != "empty?"@);
        assert("/"@ != "count"@);
        assert("/"@ != "="@);
        assert("/"@ != "<"@);
        assert("/"@ != "<="@);
        assert("/"@ != ">"@);
        assert("/"@ != ">="@);
        assert("/"@ != "pr-str"@);
        assert("/"@ != "str"@);
        assert("/"@ != "prn"@);
        assert("/"@ != "println"@);
        assert("list"@ != "list?"@);
        assert("list"@ != "empty?"@);
        assert("list"@ != "count"@);
        assert("list"@ != "="@);
        assert("list"@ != "<"@);
        assert("list"@ != "<="@);
        assert("list"@ != ">"@);
        assert("list"@ != ">="@);
        assert("list"@ != "pr-str"@);
        assert("list"@ != "str"@);
        assert("list"@ != "prn"@);
        assert("list"@ != "println"@);
        assert("list?"@ != "empty?"@);
        assert("list?"@ != "count"@);
        assert("list?"@ != "="@);
        assert("list?"@ != "<"@);
        assert("list?"@ != "<="@);
        assert("list?"@ != ">"@);
        assert("list?"@ != ">="@);
        assert("list?"@ != "pr-str"@);
        assert("list?"@ != "str"@);
        assert("list?"@ != "prn"@);
        assert("list?"@ != "println"@);
        assert("empty?"@ != "count"@);
        assert("empty?"@ != "="@);
        assert("empty?"@ != "<"@);
        assert("empty?"@ != "<="@);
        assert("empty?"@ != ">"@);
        assert("empty?"@ != ">="@);
        assert("empty?"@ != "pr-str"@);
        assert("empty?"@ != "str"@);
        assert("empty?"@ != "prn"@);
        assert("empty?"@ != "println"@);
        assert("count"@ != "="@);
        assert("count"@ != "<"@);
        assert("count"@ != "<="@);
        assert("count"@ != ">"@);
        assert("count"@ != ">="@);
        assert("count"@ != "pr-str"@);
        assert("count"@ != "str"@);
        assert("count"@ != "prn"@);
        assert("count"@ != "println"@);
        assert("="@ != "<"@);
        assert("="@ != "<="@);
        assert("="@ != ">"@);
        assert("="@ != ">="@);
        assert("="@ != "pr-str"@);
        assert("="@ != "str"@);
        assert("="@ != "prn"@);
        assert("="@ != "println"@);
        assert("<"@ != "<="@);
        assert("<"@ != ">"@);
        assert("<"@ != ">="@);
        assert("<"@ != "pr-str"@);
        assert("<"@ != "str"@);
        assert("<"@ != "prn"@);
        assert("<"@ != "println"@);
        assert("<="@ != ">"@);
        assert("<="@ != ">="@);
        assert("<="@ != "pr-str"@);
        assert("<="@ != "str"@);
        assert("<="@ != "prn"@);
        assert("<="@ != "println"@);
        assert(">"@ != ">="@);
        assert(">"@ != "pr-str"@);
        assert(">"@ != "str"@);
        assert(">"@ != "prn"@);
        assert(">"@ != "println"@);
        assert(">="@ != "pr-str"@);
        assert(">="@ != "str"@);
        assert(">="@ != "prn"@);
        assert(">="@ != "println"@);
        assert("pr-str"@ != "str"@);
        assert("pr-str"@ != "prn"@);
        assert("pr-str"@ != "println"@);
        assert("str"@ != "prn"@);
        assert("str"@ != "println"@);
        assert("prn"@ != "println"@);
    }
    let mut e = Env::new();
    let ghost d0 = e@.scopes[0].data;
    e.set(0, "+", MalType::Fn(MalFunc::new(Builtin::Plus)));
    proof {
        assert(e@.scopes[0].data == set_binding(d0, "+"@, ValModel::Fn(Builtin::Plus)));
        lemma_scope_get_after_set(d0, "+"@, ValModel::Fn(Builtin::Plus), "+"@);
        assert(scope_get(e@.scopes[0].data, "+"@) == Some(ValModel::Fn(Builtin::Plus)));
    }
    let ghost d1 = e@.scopes[0].data;
    e.set(0, "-", MalType::Fn(MalFunc::new(Builtin::Minus)));
    proof {
        assert(e@.scopes[0].data == set_binding(d1, "-"@, ValModel::Fn(Builtin::Minus)));
        lemma_scope_get_after_set(d1, "-"@, ValModel::Fn(Builtin::Minus), "+"@);
        lemma_scope_get_after_set(d1, "-"@, ValModel::Fn(Builtin::Minus), "-"@);
        assert(scope_get(e@.scopes[0].data, "+"@) == Some(ValModel::Fn(Builtin::Plus)));
        assert(scope_get(e@.scopes[0].data, "-"@) == Some(ValModel::Fn(Builtin::Minus)));
    }
    let ghost d2 = e@.scopes[0].data;
    e.set(0, "*", MalType::Fn(MalFunc::new(Builtin::Times)));
    proof {
        assert(e@.scopes[0].data == set_binding(d2, "*"@, ValModel::Fn(Builtin::Times)));
        lemma_scope_get_after_set(d2, "*"@, ValModel::Fn(Builtin::Times), "+"@);
        lemma_scope_get_after_set(d2, "*"@, ValModel::Fn(Builtin::Times), "-"@);
        lemma_scope_get_after_set(d2, "*"@, ValModel::Fn(Builtin::Times), "*"@);
        assert(scope_get(e@.scopes[0].data, "+"@) == Some(ValModel::Fn(Builtin::Plus)));
        assert(scope_get(e@.scopes[0].data, "-"@) == Some(ValModel::Fn(Builtin::Minus)));
        assert(scope_get(e@.scopes[0].data, "*"@) == Some(ValModel::Fn(Builtin::Times)));
    }
    let ghost d3 = e@.scopes[0].data;
    e.set(0, "/", MalType::Fn(MalFunc::new(Builtin::Divide)));
    proof {
        assert(e@.scopes[0].data == set_binding(d3, "/"@, ValModel::Fn(Builtin::Divide)));
        lemma_scope_get_after_set(d3, "/"@, ValModel::Fn(Builtin::Divide), "+"@);
        lemma_scope_get_after_set(d3, "/"@, ValModel::Fn(Builtin::Divide), "-"@);
        lemma_scope_get_after_set(d3, "/"@, ValModel::Fn(Builtin::Divide), "*"@);
        lemma_scope_get_after_set(d3, "/"@, ValModel::Fn(Builtin::Divide), "/"@);
        assert(scope_get(e@.scopes[0].data, "+"@) == Some(ValModel::Fn(Builtin::Plus)));
        assert(scope_get(e@.scopes[0].data, "-"@) == Some(ValModel::Fn(Builtin::Minus)));
        assert(scope_get(e@.scopes[0].data, "*"@) == Some(ValModel::Fn(Builtin::Times)));
        assert(scope_get(e@.scopes[0].data, "/"@) == Some(ValModel::Fn(Builtin::Divide)));
    }
    let ghost d4 = e@.scopes[0].data;
    e.set(0, "list", MalType::Fn(MalFunc::new(Builtin::List)));
    proof {
        assert(e@.scopes[0].data == set_binding(d4, "list"@, ValModel::Fn(Builtin::List)));
        lemma_scope_get_after_set(d4, "list"@, ValModel::Fn(Builtin::List), "+"@);
        lemma_scope_get_after_set(d4, "list"@, ValModel::Fn(Builtin::List), "-"@);
        lemma_scope_get_after_set(d4, "list"@, ValModel::Fn(Builtin::List), "*"@);
        lemma_scope_get_after_set(d4, "list"@, ValModel::Fn(Builtin::List), "/"@);
        lemma_scope_get_after_set(d4, "list"@, ValModel::Fn(Builtin::List), "list"@);
        assert(scope_get(e@.scopes[0].data, "+"@) == Some(ValModel::Fn(Builtin::Plus)));
        assert(scope_get(e@.scopes[0].data, "-"@) == Some(ValModel::Fn(Builtin::Minus)));
        assert(scope_get(e@.scopes[0].data, "*"@) == Some(ValModel::Fn(Builtin::Times)));
        assert(scope_get(e@.scopes[0].data, "/"@) == Some(ValModel::Fn(Builtin::Divide)));
        assert(scope_get(e@.scopes[0].data, "list"@) == Some(ValModel::Fn(Builtin::List)));
    }
    let ghost d5 = e@.scopes[0].data;
    e.set(0, "list?", MalType::Fn(MalFunc::new(Builtin::IsList)));
    proof {
        assert(e@.scopes[0].data == set_binding(d5, "list?"@, ValModel::Fn(Builtin::IsList)));
        lemma_scope_get_after_set(d5, "list?"@, ValModel::Fn(Builtin::IsList), "+"@);
        lemma_scope_get_after_set(d5, "list?"@, ValModel::Fn(Builtin::IsList), "-"@);
        lemma_scope_get_after_set(d5, "list?"@, ValModel::Fn(Builtin::IsList), "*"@);
        lemma_scope_get_after_set(d5, "list?"@, ValModel::Fn(Builtin::IsList), "/"@);
        lemma_scope_get_after_set(d5, "list?"@, ValModel::Fn(Builtin::IsList), "list"@);
        lemma_scope_get_after_set(d5, "list?"@, ValModel::Fn(Builtin::IsList), "list?"@);
        assert(scope_get(e@.scopes[0].data, "+"@) == Some(ValModel::Fn(Builtin::Plus)));
        assert(scope_get(e@.scopes[0].data, "-"@) == Some(ValModel::Fn(Builtin::Minus)));
        assert(scope_get(e@.scopes[0].data, "*"@) == Some(ValModel::Fn(Builtin::Times)));
        assert(scope_get(e@.scopes[0].data, "/"@) == Some(ValModel::Fn(Builtin::Divide)));
        assert(scope_get(e@.scopes[0].data, "list"@) == Some(ValModel::Fn(Builtin::List)));
        assert(scope_get(e@.scopes[0].data, "list?"@) == Some(ValModel::Fn(Builtin::IsList)));
    }
    let ghost d6 = e@.scopes[0].data;
    e.set(0, "empty?", MalType::Fn(MalFunc::new(Builtin::IsEmpty)));
    proof {
        assert(e@.scopes[0].data == set_binding(d6, "empty?"@, ValModel::Fn(Builtin::IsEmpty)));
        lemma_scope_get_after_set(d6, "empty?"@, ValModel::Fn(Builtin::IsEmpty), "+"@);
        lemma_scope_get_after_set(d6, "empty?"@, ValModel::Fn(Builtin::IsEmpty), "-"@);
        lemma_scope_get_after_set(d6, "empty?"@, ValModel::Fn(Builtin::IsEmpty), "*"@);
        lemma_scope_get_after_set(d6, "empty?"@, ValModel::Fn(Builtin::IsEmpty), "/"@);
        lemma_scope_get_after_set(d6, "empty?"@, ValModel::Fn(Builtin::IsEmpty), "list"@);
        lemma_scope_get_after_set(d6, "empty?"@, ValModel::Fn(Builtin::IsEmpty), "list?"@);
        lemma_scope_get_after_set(d6, "empty?"@, ValModel::Fn(Builtin::IsEmpty), "empty?"@);
        assert(scope_get(e@.scopes[0].data, "+"@) == Some(ValModel::Fn(Builtin::Plus)));
        assert(scope_get(e@.scopes[0].data, "-"@) == Some(ValModel::Fn(Builtin::Minus)));
        assert(scope_get(e@.scopes[0].data, "*"@) == Some(ValModel::Fn(Builtin::Times)));
        assert(scope_get(e@.scopes[0].data, "/"@) == Some(ValModel::Fn(Builtin::Divide)));
        assert(scope_get(e@.scopes[0].data, "list"@) == Some(ValModel::Fn(Builtin::List)));
        assert(scope_get(e@.scopes[0].data, "list?"@) == Some(ValModel::Fn(Builtin::IsList)));
        assert(scope_get(e@.scopes[0].data, "empty?"@) == Some(ValModel::Fn(Builtin::IsEmpty)));
    }
    let ghost d7 = e@.scopes[0].data;
    e.set(0, "count", MalType::Fn(MalFunc::new(Builtin::Count)));
    proof {
        assert(e@.scopes[0].data == set_binding(d7, "count"@, ValModel::Fn(Builtin::Count)));
        lemma_scope_get_after_set(d7, "count"@, ValModel::Fn(Builtin::Count), "+"@);
        lemma_scope_get_after_set(d7, "count"@, ValModel::Fn(Builtin::Count), "-"@);
        lemma_scope_get_after_set(d7, "count"@, ValModel::Fn(Builtin::Count), "*"@);
        lemma_scope_get_after_set(d7, "count"@, ValModel::Fn(Builtin::Count), "/"@);
        lemma_scope_get_after_set(d7, "count"@, ValModel::Fn(Builtin::Count), "list"@);
        lemma_scope_get_after_set(d7, "count"@, ValModel::Fn(Builtin::Count), "list?"@);
        lemma_scope_get_after_set(d7, "count"@, ValModel::Fn(Builtin::Count), "empty?"@);
        lemma_scope_get_after_set(d7, "count"@, ValModel::Fn(Builtin::Count), "count"@);
        assert(scope_get(e@.scopes[0].data, "+"@) == Some(ValModel::Fn(Builtin::Plus)));
        assert(scope_get(e@.scopes[0].data, "-"@) == Some(ValModel::Fn(Builtin::Minus)));
        assert(scope_get(e@.scopes[0].data, "*"@) == Some(ValModel::Fn(Builtin::Times)));
        assert(scope_get(e@.scopes[0].data, "/"@) == Some(ValModel::Fn(Builtin::Divide)));
        assert(scope_get(e@.scopes[0].data, "list"@) == Some(ValModel::Fn(Builtin::List)));
        assert(scope_get(e@.scopes[0].data, "list?"@) == Some(ValModel::Fn(Builtin::IsList)));
        assert(scope_get(e@.scopes[0].data, "empty?"@) == Some(ValModel::Fn(Builtin::IsEmpty)));
        assert(scope_get(e@.scopes[0].data, "count"@) == Some(ValModel::Fn(Builtin::Count)));
    }
    let ghost d8 = e@.scopes[0].data;
    e.set(0, "=", MalType::Fn(MalFunc::new(Builtin::Equal)));
    proof {
        assert(e@.scopes[0].data == set_binding(d8, "="@, ValModel::Fn(Builtin::Equal)));
        lemma_scope_get_after_set(d8, "="@, ValModel::Fn(Builtin::Equal), "+"@);
        lemma_scope_get_after_set(d8, "="@, ValModel::Fn(Builtin::Equal), "-"@);
        lemma_scope_get_after_set(d8, "="@, ValModel::Fn(Builtin::Equal), "*"@);
        lemma_scope_get_after_set(d8, "="@, ValModel::Fn(Builtin::Equal), "/"@);
        lemma_scope_get_after_set(d8, "="@, ValModel::Fn(Builtin::Equal), "list"@);
        lemma_scope_get_after_set(d8, "="@, ValModel::Fn(Builtin::Equal), "list?"@);
        lemma_scope_get_after_set(d8, "="@, ValModel::Fn(Builtin::Equal), "empty?"@);
        lemma_scope_get_after_set(d8, "="@, ValModel::Fn(Builtin::Equal), "count"@);
        lemma_scope_get_after_set(d8, "="@, ValModel::Fn(Builtin::Equal), "="@);
        assert(scope_get(e@.scopes[0].data, "+"@) == Some(ValModel::Fn(Builtin::Plus)));
        assert(scope_get(e@.scopes[0].data, "-"@) == Some(ValModel::Fn(Builtin::Minus)));
        assert(scope_get(e@.scopes[0].data, "*"@) == Some(ValModel::Fn(Builtin::Times)));
        assert(scope_get(e@.scopes[0].data, "/"@) == Some(ValModel::Fn(Builtin::Divide)));
        assert(scope_get(e@.scopes[0].data, "list"@) == Some(ValModel::Fn(Builtin::List)));
        assert(scope_get(e@.scopes[0].data, "list?"@) == Some(ValModel::Fn(Builtin::IsList)));
        assert(scope_get(e@.scopes[0].data, "empty?"@) == Some(ValModel::Fn(Builtin::IsEmpty)));
        assert(scope_get(e@.scopes[0].data, "count"@) == Some(ValModel::Fn(Builtin::Count)));
        assert(scope_get(e@.scopes[0].data, "="@) == Some(ValModel::Fn(Builtin::Equal)));
    }
    let ghost d9 = e@.scopes[0].data;
    e.set(0, "<", MalType::Fn(MalFunc::new(Builtin::Less)));
    proof {
        assert(e@.scopes[0].data == set_binding(d9, "<"@, ValModel::Fn(Builtin::Less)));
        lemma_scope_get_after_set(d9, "<"@, ValModel::Fn(Builtin::Less), "+"@);
        lemma_scope_get_after_set(d9, "<"@, ValModel::Fn(Builtin::Less), "-"@);
        lemma_scope_get_after_set(d9, "<"@, ValModel::Fn(Builtin::Less), "*"@);
        lemma_scope_get_after_set(d9, "<"@, ValModel::Fn(Builtin::Less), "/"@);
        lemma_scope_get_after_set(d9, "<"@, ValModel::Fn(Builtin::Less), "list"@);
        lemma_scope_get_after_set(d9, "<"@, ValModel::Fn(Builtin::Less), "list?"@);
        lemma_scope_get_after_set(d9, "<"@, ValModel::Fn(Builtin::Less), "empty?"@);
        lemma_scope_get_after_set(d9, "<"@, ValModel::Fn(Builtin::Less), "count"@);
        lemma_scope_get_after_set(d9, "<"@, ValModel::Fn(Builtin::Less), "="@);
        lemma_scope_get_after_set(d9, "<"@, ValModel::Fn(Builtin::Less), "<"@);
        assert(scope_get(e@.scopes[0].data, "+"@) == Some(ValModel::Fn(Builtin::Plus)));
        assert(scope_get(e@.scopes[0].data, "-"@) == Some(ValModel::Fn(Builtin::Minus)));
        assert(scope_get(e@.scopes[0].data, "*"@) == Some(ValModel::Fn(Builtin::Times)));
        assert(scope_get(e@.scopes[0].data, "/"@) == Some(ValModel::Fn(Builtin::Divide)));
        assert(scope_get(e@.scopes[0].data, "list"@) == Some(ValModel::Fn(Builtin::List)));
        assert(scope_get(e@.scopes[0].data, "list?"@) == Some(ValModel::Fn(Builtin::IsList)));
        assert(scope_get(e@.scopes[0].data, "empty?"@) == Some(ValModel::Fn(Builtin::IsEmpty)));
        assert(scope_get(e@.scopes[0].data, "count"@) == Some(ValModel::Fn(Builtin::Count)));
        assert(scope_get(e@.scopes[0].data, "="@) == Some(ValModel::Fn(Builtin::Equal)));
        assert(scope_get(e@.scopes[0].data, "<"@) == Some(ValModel::Fn(Builtin::Less)));
    }
    let ghost d10 = e@.scopes[0].data;
    e.set(0, "<=", MalType::Fn(MalFunc::new(Builtin::LessEq)));
    proof {
        assert(e@.scopes[0].data == set_binding(d10, "<="@, ValModel::Fn(Builtin::LessEq)));
        lemma_scope_get_after_set(d10, "<="@, ValModel::Fn(Builtin::LessEq), "+"@);
        lemma_scope_get_after_set(d10, "<="@, ValModel::Fn(Builtin::LessEq), "-"@);
        lemma_scope_get_after_set(d10, "<="@, ValModel::Fn(Builtin::LessEq), "*"@);
        lemma_scope_get_after_set(d10, "<="@, ValModel::Fn(Builtin::LessEq), "/"@);
        lemma_scope_get_after_set(d10, "<="@, ValModel::Fn(Builtin::LessEq), "list"@);
        lemma_scope_get_after_set(d10, "<="@, ValModel::Fn(Builtin::LessEq), "list?"@);
        lemma_scope_get_after_set(d10, "<="@, ValModel::Fn(Builtin::LessEq), "empty?"@);
        lemma_scope_get_after_set(d10, "<="@, ValModel::Fn(Builtin::LessEq), "count"@);
        lemma_scope_get_after_set(d10, "<="@, ValModel::Fn(Builtin::LessEq), "="@);
        lemma_scope_get_after_set(d10, "<="@, ValModel::Fn(Builtin::LessEq), "<"@);
        lemma_scope_get_after_set(d10, "<="@, ValModel::Fn(Builtin::LessEq), "<="@);
        assert(scope_get(e@.scopes[0].data, "+"@) == Some(ValModel::Fn(Builtin::Plus)));
        assert(scope_get(e@.scopes[0].data, "-"@) == Some(ValModel::Fn(Builtin::Minus)));
        assert(scope_get(e@.scopes[0].data, "*"@) == Some(ValModel::Fn(Builtin::Times)));
        assert(scope_get(e@.scopes[0].data, "/"@) == Some(ValModel::Fn(Builtin::Divide)));
        assert(scope_get(e@.scopes[0].data, "list"@) == Some(ValModel::Fn(Builtin::List)));
        assert(scope_get(e@.scopes[0].data, "list?"@) == Some(ValModel::Fn(Builtin::IsList)));
        assert(scope_get(e@.scopes[0].data, "empty?"@) == Some(ValModel::Fn(Builtin::IsEmpty)));
        assert(scope_get(e@.scopes[0].data, "count"@) == Some(ValModel::Fn(Builtin::Count)));
        assert(scope_get(e@.scopes[0].data, "="@) == Some(ValModel::Fn(Builtin::Equal)));
        assert(scope_get(e@.scopes[0].data, "<"@) == Some(ValModel::Fn(Builtin::Less)));
        assert(scope_get(e@.scopes[0].data, "<="@) == Some(ValModel::Fn(Builtin::LessEq)));
    }
    let ghost d11 = e@.scopes[0].data;
    e.set(0, ">", MalType::Fn(MalFunc::new(Builtin::Greater)));
    proof {
        assert(e@.scopes[0].data == set_binding(d11, ">"@, ValModel::Fn(Builtin::Greater)));
        lemma_scope_get_after_set(d11, ">"@, ValModel::Fn(Builtin::Greater), "+"@);
        lemma_scope_get_after_set(d11, ">"@, ValModel::Fn(Builtin::Greater), "-"@);
        lemma_scope_get_after_set(d11, ">"@, ValModel::Fn(Builtin::Greater), "*"@);
        lemma_scope_get_after_set(d11, ">"@, ValModel::Fn(Builtin::Greater), "/"@);
        lemma_scope_get_after_set(d11, ">"@, ValModel::Fn(Builtin::Greater), "list"@);
        lemma_scope_get_after_set(d11, ">"@, ValModel::Fn(Builtin::Greater), "list?"@);
        lemma_scope_get_after_set(d11, ">"@, ValModel::Fn(Builtin::Greater), "empty?"@);
        lemma_scope_get_after_set(d11, ">"@, ValModel::Fn(Builtin::Greater), "count"@);
        lemma_scope_get_after_set(d11, ">"@, ValModel::Fn(Builtin::Greater), "="@);
        lemma_scope_get_after_set(d11, ">"@, ValModel::Fn(Builtin::Greater), "<"@);
        lemma_scope_get_after_set(d11, ">"@, ValModel::Fn(Builtin::Greater), "<="@);
        lemma_scope_get_after_set(d11, ">"@, ValModel::Fn(Builtin::Greater), ">"@);
        assert(scope_get(e@.scopes[0].data, "+"@) == Some(ValModel::Fn(Builtin::Plus)));
        assert(scope_get(e@.scopes[0].data, "-"@) == Some(ValModel::Fn(Builtin::Minus)));
        assert(scope_get(e@.scopes[0].data, "*"@) == Some(ValModel::Fn(Builtin::Times)));
        assert(scope_get(e@.scopes[0].data, "/"@) == Some(ValModel::Fn(Builtin::Divide)));
        assert(scope_get(e@.scopes[0].data, "list"@) == Some(ValModel::Fn(Builtin::List)));
        assert(scope_get(e@.scopes[0].data, "list?"@) == Some(ValModel::Fn(Builtin::IsList)));
        assert(scope_get(e@.scopes[0].data, "empty?"@) == Some(ValModel::Fn(Builtin::IsEmpty)));
        assert(scope_get(e@.scopes[0].data, "count"@) == Some(ValModel::Fn(Builtin::Count)));
        assert(scope_get(e@.scopes[0].data, "="@) == Some(ValModel::Fn(Builtin::Equal)));
        assert(scope_get(e@.scopes[0].data, "<"@) == Some(ValModel::Fn(Builtin::Less)));
        assert(scope_get(e@.scopes[0].data, "<="@) == Some(ValModel::Fn(Builtin::LessEq)));
        assert(scope_get(e@.scopes[0].data, ">"@) == Some(ValModel::Fn(Builtin::Greater)));
    }
    let ghost d12 = e@.scopes[0].data;
    e.set(0, ">=", MalType::Fn(MalFunc::new(Builtin::GreaterEq)));
    proof {
        assert(e@.scopes[0].data == set_binding(d12, ">="@, ValModel::Fn(Builtin::GreaterEq)));
        lemma_scope_get_after_set(d12, ">="@, ValModel::Fn(Builtin::GreaterEq), "+"@);
        lemma_scope_get_after_set(d12, ">="@, ValModel::Fn(Builtin::GreaterEq), "-"@);
        lemma_scope_get_after_set(d12, ">="@, ValModel::Fn(Builtin::GreaterEq), "*"@);
        lemma_scope_get_after_set(d12, ">="@, ValModel::Fn(Builtin::GreaterEq), "/"@);
        lemma_scope_get_after_set(d12, ">="@, ValModel::Fn(Builtin::GreaterEq), "list"@);
        lemma_scope_get_after_set(d12, ">="@, ValModel::Fn(Builtin::GreaterEq), "list?"@);
        lemma_scope_get_after_set(d12, ">="@, ValModel::Fn(Builtin::GreaterEq), "empty?"@);
        lemma_scope_get_after_set(d12, ">="@, ValModel::Fn(Builtin::GreaterEq), "count"@);
        lemma_scope_get_after_set(d12, ">="@, ValModel::Fn(Builtin::GreaterEq), "="@);
        lemma_scope_get_after_set(d12, ">="@, ValModel::Fn(Builtin::GreaterEq), "<"@);
        lemma_scope_get_after_set(d12, ">="@, ValModel::Fn(Builtin::GreaterEq), "<="@);
        lemma_scope_get_after_set(d12, ">="@, ValModel::Fn(Builtin::GreaterEq), ">"@);
        lemma_scope_get_after_set(d12, ">="@, ValModel::Fn(Builtin::GreaterEq), ">="@);
        assert(scope_get(e@.scopes[0].data, "+"@) == Some(ValModel::Fn(Builtin::Plus)));
        assert(scope_get(e@.scopes[0].data, "-"@) == Some(ValModel::Fn(Builtin::Minus)));
        assert(scope_get(e@.scopes[0].data, "*"@) == Some(ValModel::Fn(Builtin::Times)));
        assert(scope_get(e@.scopes[0].data, "/"@) == Some(ValModel::Fn(Builtin::Divide)));
        assert(scope_get(e@.scopes[0].data, "list"@) == Some(ValModel::Fn(Builtin::List)));
        assert(scope_get(e@.scopes[0].data, "list?"@) == Some(ValModel::Fn(Builtin::IsList)));
        assert(scope_get(e@.scopes[0].data, "empty?"@) == Some(ValModel::Fn(Builtin::IsEmpty)));
        assert(scope_get(e@.scopes[0].data, "count"@) == Some(ValModel::Fn(Builtin::Count)));
        assert(scope_get(e@.scopes[0].data, "="@) == Some(ValModel::Fn(Builtin::Equal)));
        assert(scope_get(e@.scopes[0].data, "<"@) == Some(ValModel::Fn(Builtin::Less)));
        assert(scope_get(e@.scopes[0].data, "<="@) == Some(ValModel::Fn(Builtin::LessEq)));
        assert(scope_get(e@.scopes[0].data, ">"@) == Some(ValModel::Fn(Builtin::Greater)));
        assert(scope_get(e@.scopes[0].data, ">="@) == Some(ValModel::Fn(Builtin::GreaterEq)));
    }
    let ghost d13 = e@.scopes[0].data;
    e.set(0, "pr-str", MalType::Fn(MalFunc::new(Builtin::PrStr)));
    proof {
        assert(e@.scopes[0].data == set_binding(d13, "pr-str"@, ValModel::Fn(Builtin::PrStr)));
        lemma_scope_get_after_set(d13, "pr-str"@, ValModel::Fn(Builtin::PrStr), "+"@);
        lemma_scope_get_after_set(d13, "pr-str"@, ValModel::Fn(Builtin::PrStr), "-"@);
        lemma_scope_get_after_set(d13, "pr-str"@, ValModel::Fn(Builtin::PrStr), "*"@);
        lemma_scope_get_after_set(d13, "pr-str"@, ValModel::Fn(Builtin::PrStr), "/"@);
        lemma_scope_get_after_set(d13, "pr-str"@, ValModel::Fn(Builtin::PrStr), "list"@);
        lemma_scope_get_after_set(d13, "pr-str"@, ValModel::Fn(Builtin::PrStr), "list?"@);
        lemma_scope_get_after_set(d13, "pr-str"@, ValModel::Fn(Builtin::PrStr), "empty?"@);
        lemma_scope_get_after_set(d13, "pr-str"@, ValModel::Fn(Builtin::PrStr), "count"@);
        lemma_scope_get_after_set(d13, "pr-str"@, ValModel::Fn(Builtin::PrStr), "="@);
        lemma_scope_get_after_set(d13, "pr-str"@, ValModel::Fn(Builtin::PrStr), "<"@);
        lemma_scope_get_after_set(d13, "pr-str"@, ValModel::Fn(Builtin::PrStr), "<="@);
        lemma_scope_get_after_set(d13, "pr-str"@, ValModel::Fn(Builtin::PrStr), ">"@);
        lemma_scope_get_after_set(d13, "pr-str"@, ValModel::Fn(Builtin::PrStr), ">="@);
        lemma_scope_get_after_set(d13, "pr-str"@, ValModel::Fn(Builtin::PrStr), "pr-str"@);
        assert(scope_get(e@.scopes[0].data, "+"@) == Some(ValModel::Fn(Builtin::Plus)));
        assert(scope_get(e@.scopes[0].data, "-"@) == Some(ValModel::Fn(Builtin::Minus)));
        assert(scope_get(e@.scopes[0].data, "*"@) == Some(ValModel::Fn(Builtin::Times)));
        assert(scope_get(e@.scopes[0].data, "/"@) == Some(ValModel::Fn(Builtin::Divide)));
        assert(scope_get(e@.scopes[0].data, "list"@) == Some(ValModel::Fn(Builtin::List)));
        assert(scope_get(e@.scopes[0].data, "list?"@) == Some(ValModel::Fn(Builtin::IsList)));
        assert(scope_get(e@.scopes[0].data, "empty?"@) == Some(ValModel::Fn(Builtin::IsEmpty)));
        assert(scope_get(e@.scopes[0].data, "count"@) == Some(ValModel::Fn(Builtin::Count)));
        assert(scope_get(e@.scopes[0].data, "="@) == Some(ValModel::Fn(Builtin::Equal)));
        assert(scope_get(e@.scopes[0].data, "<"@) == Some(ValModel::Fn(Builtin::Less)));
        assert(scope_get(e@.scopes[0].data, "<="@) == Some(ValModel::Fn(Builtin::LessEq)));
        assert(scope_get(e@.scopes[0].data, ">"@) == Some(ValModel::Fn(Builtin::Greater)));
        assert(scope_get(e@.scopes[0].data, ">="@) == Some(ValModel::Fn(Builtin::GreaterEq)));
        assert(scope_get(e@.scopes[0].data, "pr-str"@) == Some(ValModel::Fn(Builtin::PrStr)));
    }
    let ghost d14 = e@.scopes[0].data;
    e.set(0, "str", MalType::Fn(MalFunc::new(Builtin::Str)));
    proof {
        assert(e@.scopes[0].data == set_binding(d14, "str"@, ValModel::Fn(Builtin::Str)));
        lemma_scope_get_after_set(d14, "str"@, ValModel::Fn(Builtin::Str), "+"@);
        lemma_scope_get_after_set(d14, "str"@, ValModel::Fn(Builtin::Str), "-"@);
        lemma_scope_get_after_set(d14, "str"@, ValModel::Fn(Builtin::Str), "*"@);
        lemma_scope_get_after_set(d14, "str"@, ValModel::Fn(Builtin::Str), "/"@);
        lemma_scope_get_after_set(d14, "str"@, ValModel::Fn(Builtin::Str), "list"@);
        lemma_scope_get_after_set(d14, "str"@, ValModel::Fn(Builtin::Str), "list?"@);
        lemma_scope_get_after_set(d14, "str"@, ValModel::Fn(Builtin::Str), "empty?"@);
        lemma_scope_get_after_set(d14, "str"@, ValModel::Fn(Builtin::Str), "count"@);
        lemma_scope_get_after_set(d14, "str"@, ValModel::Fn(Builtin::Str), "="@);
        lemma_scope_get_after_set(d14, "str"@, ValModel::Fn(Builtin::Str), "<"@);
        lemma_scope_get_after_set(d14, "str"@, ValModel::Fn(Builtin::Str), "<="@);
        lemma_scope_get_after_set(d14, "str"@, ValModel::Fn(Builtin::Str), ">"@);
        lemma_scope_get_after_set(d14, "str"@, ValModel::Fn(Builtin::Str), ">="@);
        lemma_scope_get_after_set(d14, "str"@, ValModel::Fn(Builtin::Str), "pr-str"@);
        lemma_scope_get_after_set(d14, "str"@, ValModel::Fn(Builtin::Str), "str"@);
        assert(scope_get(e@.scopes[0].data, "+"@) == Some(ValModel::Fn(Builtin::Plus)));
        assert(scope_get(e@.scopes[0].data, "-"@) == Some(ValModel::Fn(Builtin::Minus)));
        assert(scope_get(e@.scopes[0].data, "*"@) == Some(ValModel::Fn(Builtin::Times)));
        assert(scope_get(e@.scopes[0].data, "/"@) == Some(ValModel::Fn(Builtin::Divide)));
        assert(scope_get(e@.scopes[0].data, "list"@) == Some(ValModel::Fn(Builtin::List)));
        assert(scope_get(e@.scopes[0].data, "list?"@) == Some(ValModel::Fn(Builtin::IsList)));
        assert(scope_get(e@.scopes[0].data, "empty?"@) == Some(ValModel::Fn(Builtin::IsEmpty)));
        assert(scope_get(e@.scopes[0].data, "count"@) == Some(ValModel::Fn(Builtin::Count)));
        assert(scope_get(e@.scopes[0].data, "="@) == Some(ValModel::Fn(Builtin::Equal)));
        assert(scope_get(e@.scopes[0].data, "<"@) == Some(ValModel::Fn(Builtin::Less)));
        assert(scope_get(e@.scopes[0].data, "<="@) == Some(ValModel::Fn(Builtin::LessEq)));
        assert(scope_get(e@.scopes[0].data, ">"@) == Some(ValModel::Fn(Builtin::Greater)));
        assert(scope_get(e@.scopes[0].data, ">="@) == Some(ValModel::Fn(Builtin::GreaterEq)));
        assert(scope_get(e@.scopes[0].data, "pr-str"@) == Some(ValModel::Fn(Builtin::PrStr)));
        assert(scope_get(e@.scopes[0].data, "str"@) == Some(ValModel::Fn(Builtin::Str)));
    }
    let ghost d15 = e@.scopes[0].data;
    e.set(0, "prn", MalType::Fn(MalFunc::new(Builtin::Prn)));
    proof {
        assert(e@.scopes[0].data == set_binding(d15, "prn"@, ValModel::Fn(Builtin::Prn)));
        lemma_scope_get_after_set(d15, "prn"@, ValModel::Fn(Builtin::Prn), "+"@);
        lemma_scope_get_after_set(d15, "prn"@, ValModel::Fn(Builtin::Prn), "-"@);
        lemma_scope_get_after_set(d15, "prn"@, ValModel::Fn(Builtin::Prn), "*"@);
        lemma_scope_get_after_set(d15, "prn"@, ValModel::Fn(Builtin::Prn), "/"@);
        lemma_scope_get_after_set(d15, "prn"@, ValModel::Fn(Builtin::Prn), "list"@);
        lemma_scope_get_after_set(d15, "prn"@, ValModel::Fn(Builtin::Prn), "list?"@);
        lemma_scope_get_after_set(d15, "prn"@, ValModel::Fn(Builtin::Prn), "empty?"@);
        lemma_scope_get_after_set(d15, "prn"@, ValModel::Fn(Builtin::Prn), "count"@);
        lemma_scope_get_after_set(d15, "prn"@, ValModel::Fn(Builtin::Prn), "="@);
        lemma_scope_get_after_set(d15, "prn"@, ValModel::Fn(Builtin::Prn), "<"@);
        lemma_scope_get_after_set(d15, "prn"@, ValModel::Fn(Builtin::Prn), "<="@);
        lemma_scope_get_after_set(d15, "prn"@, ValModel::Fn(Builtin::Prn), ">"@);
        lemma_scope_get_after_set(d15, "prn"@, ValModel::Fn(Builtin::Prn), ">="@);
        lemma_scope_get_after_set(d15, "prn"@, ValModel::Fn(Builtin::Prn), "pr-str"@);
        lemma_scope_get_after_set(d15, "prn"@, ValModel::Fn(Builtin::Prn), "str"@);
        lemma_scope_get_after_set(d15, "prn"@, ValModel::Fn(Builtin::Prn), "prn"@);
        assert(scope_get(e@.scopes[0].data, "+"@) == Some(ValModel::Fn(Builtin::Plus)));
        assert(scope_get(e@.scopes[0].data, "-"@) == Some(ValModel::Fn(Builtin::Minus)));
        assert(scope_get(e@.scopes[0].data, "*"@) == Some(ValModel::Fn(Builtin::Times)));
        assert(scope_get(e@.scopes[0].data, "/"@) == Some(ValModel::Fn(Builtin::Divide)));
        assert(scope_get(e@.scopes[0].data, "list"@) == Some(ValModel::Fn(Builtin::List)));
        assert(scope_get(e@.scopes[0].data, "list?"@) == Some(ValModel::Fn(Builtin::IsList)));
        assert(scope_get(e@.scopes[0].data, "empty?"@) == Some(ValModel::Fn(Builtin::IsEmpty)));
        assert(scope_get(e@.scopes[0].data, "count"@) == Some(ValModel::Fn(Builtin::Count)));
        assert(scope_get(e@.scopes[0].data, "="@) == Some(ValModel::Fn(Builtin::Equal)));
        assert(scope_get(e@.scopes[0].data, "<"@) == Some(ValModel::Fn(Builtin::Less)));
        assert(scope_get(e@.scopes[0].data, "<="@) == Some(ValModel::Fn(Builtin::LessEq)));
        assert(scope_get(e@.scopes[0].data, ">"@) == Some(ValModel::Fn(Builtin::Greater)));
        assert(scope_get(e@.scopes[0].data, ">="@) == Some(ValModel::Fn(Builtin::GreaterEq)));
        assert(scope_get(e@.scopes[0].data, "pr-str"@) == Some(ValModel::Fn(Builtin::PrStr)));
        assert(scope_get(e@.scopes[0].data, "str"@) == Some(ValModel::Fn(Builtin::Str)));
        assert(scope_get(e@.scopes[0].data, "prn"@) == Some(ValModel::Fn(Builtin::Prn)));
    }
    let ghost d16 = e@.scopes[0].data;
    e.set(0, "println", MalType::Fn(MalFunc::new(Builtin::Println)));
    proof {
        assert(e@.scopes[0].data == set_binding(d16, "println"@, ValModel::Fn(Builtin::Println)));
        lemma_scope_get_after_set(d16, "println"@, ValModel::Fn(Builtin::Println), "+"@);
        lemma_scope_get_after_set(d16, "println"@, ValModel::Fn(Builtin::Println), "-"@);
        lemma_scope_get_after_set(d16, "println"@, ValModel::Fn(Builtin::Println), "*"@);
        lemma_scope_get_after_set(d16, "println"@, ValModel::Fn(Builtin::Println), "/"@);
        lemma_scope_get_after_set(d16, "println"@, ValModel::Fn(Builtin::Println), "list"@);
        lemma_scope_get_after_set(d16, "println"@, ValModel::Fn(Builtin::Println), "list?"@);
        lemma_scope_get_after_set(d16, "println"@, ValModel::Fn(Builtin::Println), "empty?"@);
        lemma_scope_get_after_set(d16, "println"@, ValModel::Fn(Builtin::Println), "count"@);
        lemma_scope_get_after_set(d16, "println"@, ValModel::Fn(Builtin::Println), "="@);
        lemma_scope_get_after_set(d16, "println"@, ValModel::Fn(Builtin::Println), "<"@);
        lemma_scope_get_after_set(d16, "println"@, ValModel::Fn(Builtin::Println), "<="@);
        lemma_scope_get_after_set(d16, "println"@, ValModel::Fn(Builtin::Println), ">"@);
        lemma_scope_get_after_set(d16, "println"@, ValModel::Fn(Builtin::Println), ">="@);
        lemma_scope_get_after_set(d16, "println"@, ValModel::Fn(Builtin::Println), "pr-str"@);
        lemma_scope_get_after_set(d16, "println"@, ValModel::Fn(Builtin::Println), "str"@);
        lemma_scope_get_after_set(d16, "println"@, ValModel::Fn(Builtin::Println), "prn"@);
        lemma_scope_get_after_set(d16, "println"@, ValModel::Fn(Builtin::Println), "println"@);
        assert(scope_get(e@.scopes[0].data, "+"@) == Some(ValModel::Fn(Builtin::Plus)));
        assert(scope_get(e@.scopes[0].data, "-"@) == Some(ValModel::Fn(Builtin::Minus)));
        assert(scope_get(e@.scopes[0].data, "*"@) == Some(ValModel::Fn(Builtin::Times)));
        assert(scope_get(e@.scopes[0].data, "/"@) == Some(ValModel::Fn(Builtin::Divide)));
        assert(scope_get(e@.scopes[0].data, "list"@) == Some(ValModel::Fn(Builtin::List)));
        assert(scope_get(e@.scopes[0].data, "list?"@) == Some(ValModel::Fn(Builtin::IsList)));
        assert(scope_get(e@.scopes[0].data, "empty?"@) == Some(ValModel::Fn(Builtin::IsEmpty)));
        assert(scope_get(e@.scopes[0].data, "count"@) == Some(ValModel::Fn(Builtin::Count)));
        assert(scope_get(e@.scopes[0].data, "="@) == Some(ValModel::Fn(Builtin::Equal)));
        assert(scope_get(e@.scopes[0].data, "<"@) == Some(ValModel::Fn(Builtin::Less)));
        assert(scope_get(e@.scopes[0].data, "<="@) == Some(ValModel::Fn(Builtin::LessEq)));
        assert(scope_get(e@.scopes[0].data, ">"@) == Some(ValModel::Fn(Builtin::Greater)));
        assert(scope_get(e@.scopes[0].data, ">="@) == Some(ValModel::Fn(Builtin::GreaterEq)));
        assert(scope_get(e@.scopes[0].data, "pr-str"@) == Some(ValModel::Fn(Builtin::PrStr)));
        assert(scope_get(e@.scopes[0].data, "str"@) == Some(ValModel::Fn(Builtin::Str)));
        assert(scope_get(e@.scopes[0].data, "prn"@) == Some(ValModel::Fn(Builtin::Prn)));
        assert(scope_get(e@.scopes[0].data, "println"@) == Some(ValModel::Fn(Builtin::Println)));
    }

    proof {
        assert forall|op: Builtin| env_lookup(e@, 0, #[trigger] builtin_name(op)) == Some(
            ValModel::Fn(op),
        ) by {
            match op {
            Builtin::Plus => {
                assert(scope_get(e@.scopes[0].data, "+"@) == Some(ValModel::Fn(Builtin::Plus)));
            },
            Builtin::Minus => {
                assert(scope_get(e@.scopes[0].data, "-"@) == Some(ValModel::Fn(Builtin::Minus)));
            },
            Builtin::Times => {
                assert(scope_get(e@.scopes[0].data, "*"@) == Some(ValModel::Fn(Builtin::Times)));
            },
            Builtin::Divide => {
                assert(scope_get(e@.scopes[0].data, "/"@) == Some(ValModel::Fn(Builtin::Divide)));
            },
            Builtin::List => {
                assert(scope_get(e@.scopes[0].data, "list"@) == Some(ValModel::Fn(Builtin::List)));
            },
            Builtin::IsList => {
                assert(scope_get(e@.scopes[0].data, "list?"@) == Some(ValModel::Fn(Builtin::IsList)));
            },
            Builtin::IsEmpty => {
                assert(scope_get(e@.scopes[0].data, "empty?"@) == Some(ValModel::Fn(Builtin::IsEmpty)));
            },
            Builtin::Count => {
                assert(scope_get(e@.scopes[0].data, "count"@) == Some(ValModel::Fn(Builtin::Count)));
            },
            Builtin::Equal => {
                assert(scope_get(e@.scopes[0].data, "="@) == Some(ValModel::Fn(Builtin::Equal)));
            },
            Builtin::Less => {
                assert(scope_get(e@.scopes[0].data, "<"@) == Some(ValModel::Fn(Builtin::Less)));
            },
            Builtin::LessEq => {
                assert(scope_get(e@.scopes[0].data, "<="@) == Some(ValModel::Fn(Builtin::LessEq)));
            },
            Builtin::Greater => {
                assert(scope_get(e@.scopes[0].data, ">"@) == Some(ValModel::Fn(Builtin::Greater)));
            },
            Builtin::GreaterEq => {
                assert(scope_get(e@.scopes[0].data, ">="@) == Some(ValModel::Fn(Builtin::GreaterEq)));
            },
            Builtin::PrStr => {
                assert(scope_get(e@.scopes[0].data, "pr-str"@) == Some(ValModel::Fn(Builtin::PrStr)));
            },
            Builtin::Str => {
                assert(scope_get(e@.scopes[0].data, "str"@) == Some(ValModel::Fn(Builtin::Str)));
            },
            Builtin::Prn => {
                assert(scope_get(e@.scopes[0].data, "prn"@) == Some(ValModel::Fn(Builtin::Prn)));
            },
            Builtin::Println => {
                assert(scope_get(e@.scopes[0].data, "println"@) == Some(ValModel::Fn(Builtin::Println)));
            },
            }
        }
    }
    e
}

} // verus!
