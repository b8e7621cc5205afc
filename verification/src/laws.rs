use crate::env::{
    env_lookup, lemma_scope_get_after_set, scope_get, set_binding, EnvModel, ScopeModel,
};
use crate::interp::{
    apply_spec, arity_msg, bind_model, bind_ok, eval_binds_spec, eval_def_spec, eval_do_spec,
    eval_if_spec, eval_let_spec, eval_pairs_spec, eval_seq_spec, eval_spec,
    lemma_pairs_height_elem, lemma_seq_height_elem, rest_pos,
};
use crate::env::lookup_err_msg;
use crate::printer::{print_items_spec, print_spec};
use crate::reader::{
    atom_of, atom_len, is_atom_end, is_special, is_ws, parse_form, read_spec, string_body_len,
    string_closed, token_len, tokenize_spec,
};
use crate::text::{
    all_digits, digit_char, digits_val, escape_spec, int_str, is_digit, nat_digits,
    parse_int_spec, unescape_spec,
};
use crate::types::ValModel;
use vstd::prelude::*;

verus! {

// ---------------------------------------------------------------------------
// Evaluation touches no pre-existing scope but its own
// ---------------------------------------------------------------------------

/// The frame property between an arena before and after an evaluation in
/// scope `s`: the arena only grows, and every scope that already existed,
/// other than `s` itself, is untouched.
pub open spec fn frames(e: EnvModel, s: int, e2: EnvModel) -> bool {
    &&& e2.scopes.len() >= e.scopes.len()
    &&& forall|i: int| 0 <= i < e.scopes.len() && i != s ==> e2.scopes[i] == e.scopes[i]
}

proof fn lemma_frames_trans(e1: EnvModel, s: int, e2: EnvModel, e3: EnvModel)
    requires
        frames(e1, s, e2),
        frames(e2, s, e3),
    ensures
        frames(e1, s, e3),
{
}

/// Evaluation mutates, among the scopes that existed before it began,
/// only the scope it was given: a closure's captured scope is never
/// changed by evaluations elsewhere, which is what makes earlier captures
/// immune to later rebindings in unrelated scopes.
pub proof fn lemma_eval_frame(e: EnvModel, s: int, form: ValModel, fuel: nat)
    ensures
        frames(e, s, eval_spec(e, s, form, fuel).env),
    decreases fuel, crate::interp::vheight(form), 0nat,
{
    match form {
        ValModel::Sequence(is_list, items) => {
            if items.len() == 0 {
            } else if !is_list {
                lemma_seq_frame(e, s, items, 0, fuel);
            } else if items[0] == ValModel::Symbol("def!"@) {
                lemma_def_frame(e, s, items, fuel);
            } else if items[0] == ValModel::Symbol("let*"@) {
                lemma_let_frame(e, s, items, fuel);
            } else if items[0] == ValModel::Symbol("do"@) {
                lemma_do_frame(e, s, items, 1, fuel);
            } else if items[0] == ValModel::Symbol("if"@) {
                lemma_if_frame(e, s, items, fuel);
            } else if items[0] == ValModel::Symbol("fn*"@) {
            } else {
                lemma_seq_frame(e, s, items, 0, fuel);
                let (rs, e1, out1) = eval_seq_spec(e, s, items, 0, fuel);
                match rs {
                    Err(_) => {},
                    Ok(vs) => {
                        lemma_apply_frame(e1, vs[0], vs.skip(1), fuel);
                        assert(frames(e1, s, apply_spec(e1, vs[0], vs.skip(1), fuel).env));
                        lemma_frames_trans(e, s, e1, apply_spec(e1, vs[0], vs.skip(1), fuel).env);
                    },
                }
            }
        },
        ValModel::Hashmap(ps) => {
            lemma_pairs_frame(e, s, ps, 0, fuel);
        },
        _ => {},
    }
}

proof fn lemma_def_frame(e: EnvModel, s: int, items: Seq<ValModel>, fuel: nat)
    ensures
        frames(e, s, eval_def_spec(e, s, items, fuel).env),
    decreases fuel, crate::interp::seq_height(items), 1nat,
{
    if items.len() == 3 && items[1] is Symbol {
        lemma_seq_height_elem(items, 2);
        lemma_eval_frame(e, s, items[2], fuel);
    }
}

proof fn lemma_let_frame(e: EnvModel, s: int, items: Seq<ValModel>, fuel: nat)
    ensures
        frames(e, s, eval_let_spec(e, s, items, fuel).env),
    decreases fuel, crate::interp::seq_height(items), 1nat,
{
    if items.len() == 3 && items[1] is Sequence && items[1]->Sequence_1.len() % 2 == 0 {
        let child = e.scopes.len() as int;
        let e1 = crate::interp::env_push_model(e, s);
        lemma_seq_height_elem(items, 1);
        lemma_binds_frame(e1, child, items[1]->Sequence_1, 0, fuel);
        let o = eval_binds_spec(e1, child, items[1]->Sequence_1, 0, fuel);
        assert(frames(e, child, e1) && frames(e, s, e1));
        match o.res {
            Err(_) => {
                assert(frames(e, s, o.env));
            },
            Ok(_) => {
                lemma_seq_height_elem(items, 2);
                lemma_eval_frame(o.env, child, items[2], fuel);
                let o2 = eval_spec(o.env, child, items[2], fuel);
                assert(frames(e, s, o.env));
                assert(frames(o.env, child, o2.env));
                assert(frames(e, s, o2.env));
            },
        }
    }
}

proof fn lemma_binds_frame(e: EnvModel, sc: int, binds: Seq<ValModel>, k: int, fuel: nat)
    ensures
        frames(e, sc, eval_binds_spec(e, sc, binds, k, fuel).env),
    decreases fuel, crate::interp::seq_height(binds), binds.len() - k,
{
    if 0 <= k && k + 1 < binds.len() && binds[k] is Symbol {
        lemma_seq_height_elem(binds, k + 1);
        lemma_eval_frame(e, sc, binds[k + 1], fuel);
        let o = eval_spec(e, sc, binds[k + 1], fuel);
        match o.res {
            Err(_) => {},
            Ok(v) => {
                let e2 = crate::interp::env_set_model(o.env, sc, binds[k]->Symbol_0, v);
                assert(frames(o.env, sc, e2));
                lemma_binds_frame(e2, sc, binds, k + 2, fuel);
                lemma_frames_trans(e, sc, e2, eval_binds_spec(e2, sc, binds, k + 2, fuel).env);
            },
        }
    }
}

proof fn lemma_do_frame(e: EnvModel, s: int, items: Seq<ValModel>, k: int, fuel: nat)
    ensures
        frames(e, s, eval_do_spec(e, s, items, k, fuel).env),
    decreases fuel, crate::interp::seq_height(items), items.len() - k,
{
    if 0 <= k < items.len() {
        lemma_seq_height_elem(items, k);
        lemma_eval_frame(e, s, items[k], fuel);
        let o = eval_spec(e, s, items[k], fuel);
        if k == items.len() - 1 {
        } else {
            match o.res {
                Err(_) => {},
                Ok(_) => {
                    lemma_do_frame(o.env, s, items, k + 1, fuel);
                    lemma_frames_trans(e, s, o.env, eval_do_spec(o.env, s, items, k + 1, fuel).env);
                },
            }
        }
    }
}

proof fn lemma_if_frame(e: EnvModel, s: int, items: Seq<ValModel>, fuel: nat)
    ensures
        frames(e, s, eval_if_spec(e, s, items, fuel).env),
    decreases fuel, crate::interp::seq_height(items), 1nat,
{
    if items.len() >= 3 {
        lemma_seq_height_elem(items, 1);
        lemma_eval_frame(e, s, items[1], fuel);
        let o = eval_spec(e, s, items[1], fuel);
        match o.res {
            Err(_) => {},
            Ok(c) => {
                let truthy = !(c == ValModel::Nil || c == ValModel::False);
                if truthy {
                    lemma_seq_height_elem(items, 2);
                    lemma_eval_frame(o.env, s, items[2], fuel);
                    lemma_frames_trans(e, s, o.env, eval_spec(o.env, s, items[2], fuel).env);
                } else if items.len() > 3 {
                    lemma_seq_height_elem(items, 3);
                    lemma_eval_frame(o.env, s, items[3], fuel);
                    lemma_frames_trans(e, s, o.env, eval_spec(o.env, s, items[3], fuel).env);
                }
            },
        }
    }
}

proof fn lemma_seq_frame(e: EnvModel, s: int, items: Seq<ValModel>, k: int, fuel: nat)
    ensures
        frames(e, s, eval_seq_spec(e, s, items, k, fuel).1),
    decreases fuel, crate::interp::seq_height(items), items.len() - k,
{
    if 0 <= k < items.len() {
        lemma_seq_height_elem(items, k);
        lemma_eval_frame(e, s, items[k], fuel);
        let o = eval_spec(e, s, items[k], fuel);
        match o.res {
            Err(_) => {},
            Ok(_) => {
                lemma_seq_frame(o.env, s, items, k + 1, fuel);
                lemma_frames_trans(e, s, o.env, eval_seq_spec(o.env, s, items, k + 1, fuel).1);
            },
        }
    }
}

proof fn lemma_pairs_frame(e: EnvModel, s: int, ps: Seq<(ValModel, ValModel)>, k: int, fuel: nat)
    ensures
        frames(e, s, eval_pairs_spec(e, s, ps, k, fuel).1),
    decreases fuel, crate::interp::pairs_height(ps), ps.len() - k,
{
    if 0 <= k < ps.len() {
        lemma_pairs_height_elem(ps, k);
        lemma_eval_frame(e, s, ps[k].1, fuel);
        let o = eval_spec(e, s, ps[k].1, fuel);
        match o.res {
            Err(_) => {},
            Ok(_) => {
                lemma_pairs_frame(o.env, s, ps, k + 1, fuel);
                lemma_frames_trans(e, s, o.env, eval_pairs_spec(o.env, s, ps, k + 1, fuel).1);
            },
        }
    }
}

proof fn lemma_apply_frame(e: EnvModel, f: ValModel, fargs: Seq<ValModel>, fuel: nat)
    ensures
        forall|s: int| #[trigger] frames(e, s, apply_spec(e, f, fargs, fuel).env),
    decreases fuel, 0nat, 1nat,
{
    assert forall|s: int| #[trigger] frames(e, s, apply_spec(e, f, fargs, fuel).env) by {
        match f {
            ValModel::Lambda(params, body, ce) => {
                if fuel > 0 && bind_ok(params, fargs.len() as int) {
                    let data = bind_model(Seq::empty(), params, fargs, 0);
                    let child = e.scopes.len() as int;
                    let e1 = EnvModel {
                        scopes: e.scopes.push(ScopeModel { outer: Some(ce), data: data }),
                    };
                    lemma_eval_frame(e1, child, body[0], (fuel - 1) as nat);
                    let o = eval_spec(e1, child, body[0], (fuel - 1) as nat);
                    assert(frames(e1, child, o.env));
                    assert(frames(e, s, o.env));
                }
            },
            _ => {},
        }
    }
}

// ---------------------------------------------------------------------------
// Defining binds, and stays visible to later lookups in the same scope
// ---------------------------------------------------------------------------

/// A successful `def!` returns the evaluated value, binds it in the very
/// scope it was evaluated in (overwriting any earlier binding of that
/// name there, rather than shadowing it), and a lookup from that scope
/// then finds it.
pub proof fn lemma_def_binds(e: EnvModel, s: int, items: Seq<ValModel>, fuel: nat)
    requires
        0 <= s < e.scopes.len(),
        items.len() == 3,
        items[0] == ValModel::Symbol("def!"@),
        items[1] is Symbol,
    ensures
        ({
            let o = eval_spec(e, s, ValModel::Sequence(true, items), fuel);
            o.res is Ok ==> {
                &&& o.res->Ok_0 == eval_spec(e, s, items[2], fuel).res->Ok_0
                &&& env_lookup(o.env, s, items[1]->Symbol_0) == Some(o.res->Ok_0)
            }
        }),
{
    let form = ValModel::Sequence(true, items);
    let o = eval_spec(e, s, form, fuel);
    assert(o == eval_def_spec(e, s, items, fuel));
    let o1 = eval_spec(e, s, items[2], fuel);
    match o1.res {
        Err(_) => {},
        Ok(v) => {
            lemma_seq_height_elem(items, 2);
            lemma_eval_frame(e, s, items[2], fuel);
            assert(o1.env.scopes.len() >= e.scopes.len());
            let e2 = match v {
                ValModel::Fn(op) => crate::interp::env_remove_model(
                    o1.env,
                    s,
                    crate::types::builtin_name(op),
                ),
                _ => o1.env,
            };
            assert(e2.scopes.len() == o1.env.scopes.len());
            let name = items[1]->Symbol_0;
            let e3 = crate::interp::env_set_model(e2, s, name, v);
            lemma_scope_get_after_set(e2.scopes[s].data, name, v, name);
            assert(scope_get(e3.scopes[s].data, name) == Some(v));
        },
    }
}

/// A `fn*` form evaluates to a closure that captures the very scope the
/// form was evaluated in, by reference: the scope's index, not a copy of
/// its contents.
pub proof fn lemma_fn_captures_definition_scope(
    e: EnvModel,
    s: int,
    items: Seq<ValModel>,
    fuel: nat,
)
    requires
        items.len() == 3,
        items[0] == ValModel::Symbol("fn*"@),
        items[1] is Sequence,
        crate::interp::names_opt(items[1]->Sequence_1) is Some,
    ensures
        ({
            let o = eval_spec(e, s, ValModel::Sequence(true, items), fuel);
            &&& o.env == e
            &&& o.res == Ok::<ValModel, Seq<char>>(
                ValModel::Lambda(
                    crate::interp::names_opt(items[1]->Sequence_1)->Some_0,
                    seq![items[2]],
                    s,
                ),
            )
        }),
{
    reveal_strlit("def!");
    reveal_strlit("let*");
    reveal_strlit("do");
    reveal_strlit("if");
    reveal_strlit("fn*");
    assert("fn*"@.len() == 3 && "def!"@.len() == 4 && "let*"@.len() == 4 && "do"@.len() == 2
        && "if"@.len() == 2);
    assert(eval_spec(e, s, ValModel::Sequence(true, items), fuel) == crate::interp::eval_fn_spec(
        e,
        s,
        items,
    ));
}

/// An `if` whose condition is nil or false and which has no else-branch
/// gives nil, not an error, and changes nothing beyond what evaluating
/// the condition changed.
pub proof fn lemma_if_defaults_to_nil(e: EnvModel, s: int, items: Seq<ValModel>, fuel: nat)
    requires
        items.len() == 3,
        eval_spec(e, s, items[1], fuel).res matches Ok(c) && (c == ValModel::Nil || c
            == ValModel::False),
    ensures
        eval_if_spec(e, s, items, fuel).res == Ok::<ValModel, Seq<char>>(ValModel::Nil),
        eval_if_spec(e, s, items, fuel).env == eval_spec(e, s, items[1], fuel).env,
{
}

// ---------------------------------------------------------------------------
// Lookup failure names the symbol
// ---------------------------------------------------------------------------

/// Evaluating a symbol bound nowhere in the chain fails, and the error
/// names the symbol; it neither panics nor silently gives nil.
pub proof fn lemma_lookup_failure(e: EnvModel, s: int, name: Seq<char>, fuel: nat)
    requires
        env_lookup(e, s, name) is None,
    ensures
        eval_spec(e, s, ValModel::Symbol(name), fuel).res == Err::<ValModel, Seq<char>>(
            lookup_err_msg(name),
        ),
        lookup_err_msg(name) == "'"@ + name + "' not found."@,
{
}

/// Evaluating a symbol that is bound gives exactly the bound value.
pub proof fn lemma_lookup_success(e: EnvModel, s: int, name: Seq<char>, fuel: nat)
    requires
        env_lookup(e, s, name) is Some,
    ensures
        eval_spec(e, s, ValModel::Symbol(name), fuel).res == Ok::<ValModel, Seq<char>>(
            env_lookup(e, s, name)->Some_0,
        ),
{
}

// ---------------------------------------------------------------------------
// Arity failure names the expected and actual counts
// ---------------------------------------------------------------------------

/// Applying a closure without a rest marker to the wrong number of
/// arguments fails with an arity error naming the expected and actual
/// counts; the body is never entered.
pub proof fn lemma_arity_failure(
    e: EnvModel,
    params: Seq<Seq<char>>,
    body: Seq<ValModel>,
    ce: int,
    fargs: Seq<ValModel>,
    fuel: nat,
)
    requires
        fuel > 0,
        rest_pos(params) is None,
        fargs.len() != params.len(),
    ensures
        apply_spec(e, ValModel::Lambda(params, body, ce), fargs, fuel).res == Err::<
            ValModel,
            Seq<char>,
        >(arity_msg(params.len() as int, fargs.len() as int)),
        apply_spec(e, ValModel::Lambda(params, body, ce), fargs, fuel).env == e,
{
}

// ---------------------------------------------------------------------------
// Variadic binding
// ---------------------------------------------------------------------------

/// With a `&` rest marker, a closure accepts any argument count at or
/// above its fixed parameters; the name after the marker binds the
/// remaining arguments, possibly none, as a list.
pub proof fn lemma_variadic_binding(params: Seq<Seq<char>>, fargs: Seq<ValModel>, k: int)
    requires
        0 <= k,
        k + 1 < params.len(),
        params[k] == "&"@,
        forall|j: int| 0 <= j < k ==> #[trigger] params[j] != "&"@,
        forall|j: int| 0 <= j < k ==> #[trigger] params[j] != params[k + 1],
        fargs.len() >= k,
    ensures
        bind_ok(params, fargs.len() as int),
        scope_get(bind_model(Seq::empty(), params, fargs, 0), params[k + 1]) == Some(
            ValModel::Sequence(true, fargs.skip(k)),
        ),
{
    crate::interp::lemma_rest_pos_found(params, k);
    lemma_bind_rest(Seq::empty(), params, fargs, 0, k);
}

proof fn lemma_bind_rest(
    data: Seq<(Seq<char>, ValModel)>,
    params: Seq<Seq<char>>,
    fargs: Seq<ValModel>,
    j: int,
    k: int,
)
    requires
        0 <= j <= k,
        k + 1 < params.len(),
        params[k] == "&"@,
        forall|q: int| 0 <= q < k ==> #[trigger] params[q] != "&"@,
        fargs.len() >= k,
    ensures
        scope_get(bind_model(data, params, fargs, j), params[k + 1]) == Some(
            ValModel::Sequence(true, fargs.skip(k)),
        ),
    decreases params.len() - j,
{
    if j == k {
        lemma_scope_get_after_set(
            data,
            params[k + 1],
            ValModel::Sequence(true, fargs.skip(k)),
            params[k + 1],
        );
    } else {
        let d2 = set_binding(data, params[j], fargs[j]);
        lemma_bind_rest(d2, params, fargs, j + 1, k);
    }
}

/// Binding parameters that all differ from a name leaves that name's
/// lookup unchanged.
proof fn lemma_bind_preserves(
    data: Seq<(Seq<char>, ValModel)>,
    params: Seq<Seq<char>>,
    fargs: Seq<ValModel>,
    q: int,
    name: Seq<char>,
)
    requires
        forall|p: int| q <= p < params.len() ==> #[trigger] params[p] != name,
    ensures
        scope_get(bind_model(data, params, fargs, q), name) == scope_get(data, name),
    decreases params.len() - q,
{
    if 0 <= q < params.len() {
        if params[q] == "&"@ {
            if q + 1 < params.len() {
                lemma_scope_get_after_set(
                    data,
                    params[q + 1],
                    ValModel::Sequence(true, fargs.skip(q)),
                    name,
                );
            }
        } else if q < fargs.len() {
            let d2 = set_binding(data, params[q], fargs[q]);
            lemma_scope_get_after_set(data, params[q], fargs[q], name);
            lemma_bind_preserves(d2, params, fargs, q + 1, name);
        }
    }
}

/// Without a rest marker, each parameter binds the argument in its
/// position, and a lookup of a parameter that no later parameter
/// shadows finds exactly that argument.
pub proof fn lemma_positional_binding(params: Seq<Seq<char>>, fargs: Seq<ValModel>, j: int)
    requires
        rest_pos(params) is None,
        fargs.len() == params.len(),
        0 <= j < params.len(),
        forall|q: int| j < q < params.len() ==> #[trigger] params[q] != params[j],
    ensures
        scope_get(bind_model(Seq::empty(), params, fargs, 0), params[j]) == Some(fargs[j]),
{
    lemma_bind_positional(Seq::empty(), params, fargs, 0, j);
}

proof fn lemma_bind_positional(
    data: Seq<(Seq<char>, ValModel)>,
    params: Seq<Seq<char>>,
    fargs: Seq<ValModel>,
    q: int,
    j: int,
)
    requires
        rest_pos(params) is None,
        fargs.len() == params.len(),
        0 <= q <= j < params.len(),
        forall|p: int| j < p < params.len() ==> #[trigger] params[p] != params[j],
    ensures
        scope_get(bind_model(data, params, fargs, q), params[j]) == Some(fargs[j]),
    decreases params.len() - q,
{
    crate::interp::lemma_rest_pos_no_amp(params, q);
    let d2 = set_binding(data, params[q], fargs[q]);
    lemma_scope_get_after_set(data, params[q], fargs[q], params[j]);
    if q == j {
        lemma_bind_preserves(d2, params, fargs, q + 1, params[j]);
    } else {
        lemma_bind_positional(d2, params, fargs, q + 1, j);
    }
}

// ---------------------------------------------------------------------------
// Printing and reading are inverses
// ---------------------------------------------------------------------------

proof fn lemma_nat_digits_are_digits(m: nat)
    ensures
        all_digits(nat_digits(m)),
        digits_val(nat_digits(m)) == m,
        nat_digits(m).len() >= 1,
        is_digit(nat_digits(m)[0]),
    decreases m,
{
    if m < 10 {
        assert(digit_char(m as int) as int == m + 48);
        assert(nat_digits(m) =~= seq![digit_char(m as int)]);
        assert(nat_digits(m).drop_last() =~= Seq::<char>::empty());
        assert(digits_val(Seq::<char>::empty()) == 0);
        assert(digits_val(nat_digits(m)) == digits_val(nat_digits(m).drop_last()) * 10 + (
        nat_digits(m).last() as int - 48));
    } else {
        lemma_nat_digits_are_digits(m / 10);
        let x = nat_digits(m / 10);
        let d = digit_char((m % 10) as int);
        assert(d as int == (m % 10) + 48);
        assert(nat_digits(m) == x.push(d));
        assert(x.push(d).drop_last() =~= x);
        assert(x.push(d).last() == d);
        assert forall|i: int| 0 <= i < x.push(d).len() implies is_digit(
            #[trigger] x.push(d)[i],
        ) by {
            if i < x.len() {
                assert(x.push(d)[i] == x[i]);
            }
        }
        assert(x.push(d)[0] == x[0]);
    }
}

/// The decimal rendering of an integer reads back as exactly that
/// integer: the printer and the reader are inverses on numbers.
pub proof fn lemma_int_round_trip(n: int)
    requires
        i64::MIN <= n <= i64::MAX,
    ensures
        parse_int_spec(int_str(n)) == Some(n),
{
    if n >= 0 {
        lemma_nat_digits_are_digits(n as nat);
        let s = int_str(n);
        assert(s == nat_digits(n as nat));
        assert(!(s[0] == '-' || s[0] == '+')) by {
            assert(is_digit(s[0]));
        }
    } else {
        lemma_nat_digits_are_digits((-n) as nat);
        let body = nat_digits((-n) as nat);
        let s = seq!['-'] + body;
        assert(int_str(n) == s);
        assert(s[0] == '-');
        assert(s.skip(1) =~= body);
    }
}

/// Decoding the escape sequences that readable rendering writes gives
/// back the characters that were encoded: escaping and unescaping are
/// inverses.
pub proof fn lemma_escape_round_trip(s: Seq<char>)
    ensures
        unescape_spec(escape_spec(s)) == s,
    decreases s.len(),
{
    if s.len() == 0 {
        assert(unescape_spec(escape_spec(s)) =~= s);
    } else {
        lemma_escape_round_trip(s.skip(1));
        let rest = escape_spec(s.skip(1));
        let c = s[0];
        if c == '\\' || c == '"' || c == '\n' {
            let pair = if c == '\\' {
                seq!['\\', '\\']
            } else if c == '"' {
                seq!['\\', '"']
            } else {
                seq!['\\', 'n']
            };
            assert(escape_spec(s) == pair + rest);
            assert((pair + rest)[0] == '\\');
            assert((pair + rest).len() >= 2);
            assert((pair + rest)[1] == pair[1]);
            assert((pair + rest).skip(2) =~= rest);
            assert(unescape_spec(escape_spec(s)) =~= s);
        } else {
            assert(escape_spec(s) == seq![c] + rest);
            assert((seq![c] + rest)[0] == c);
            assert((seq![c] + rest).skip(1) =~= rest);
            assert(unescape_spec(escape_spec(s)) =~= s);
        }
    }
}

proof fn lemma_int_str_chars(n: int)
    ensures
        int_str(n).len() >= 1,
        forall|i: int|
            0 <= i < int_str(n).len() ==> is_digit(#[trigger] int_str(n)[i]) || int_str(n)[i]
                == '-',
{
    let s = int_str(n);
    if n >= 0 {
        lemma_nat_digits_are_digits(n as nat);
        assert forall|i: int| 0 <= i < s.len() implies is_digit(#[trigger] s[i]) || s[i]
            == '-' by {
            assert(is_digit(nat_digits(n as nat)[i]));
        }
    } else {
        lemma_nat_digits_are_digits((-n) as nat);
        let body = nat_digits((-n) as nat);
        assert(s == seq!['-'] + body);
        assert forall|i: int| 0 <= i < s.len() implies is_digit(#[trigger] s[i]) || s[i]
            == '-' by {
            if i > 0 {
                assert(s[i] == body[i - 1]);
                assert(is_digit(body[i - 1]));
            }
        }
    }
}

proof fn lemma_plain_char(c: char)
    requires
        is_digit(c) || c == '-',
    ensures
        !is_atom_end(c),
        !is_ws(c),
        !is_special(c),
        c != '"',
        c != ';',
        c != '~',
{
}

/// A rendered number reads back as exactly that number: the full chain
/// of printing, tokenizing and parsing is the identity on number atoms.
pub proof fn lemma_number_round_trip(n: int)
    requires
        i64::MIN <= n <= i64::MAX,
    ensures
        read_spec(print_spec(ValModel::Num(n), true)) == Ok::<ValModel, Seq<char>>(
            ValModel::Num(n),
        ),
{
    lemma_form_round_trip(ValModel::Num(n));
}

/// The three named literals read back as themselves.
pub proof fn lemma_named_literal_round_trip()
    ensures
        read_spec(print_spec(ValModel::Nil, true)) == Ok::<ValModel, Seq<char>>(ValModel::Nil),
        read_spec(print_spec(ValModel::True, true)) == Ok::<ValModel, Seq<char>>(ValModel::True),
        read_spec(print_spec(ValModel::False, true)) == Ok::<ValModel, Seq<char>>(
            ValModel::False,
        ),
{
    lemma_form_round_trip(ValModel::Nil);
    lemma_form_round_trip(ValModel::True);
    lemma_form_round_trip(ValModel::False);
}

/// The escape-sequence scan passes over an escaped body and stops at
/// the closing quote right after it.
proof fn lemma_escaped_body_scans(s: Seq<char>)
    ensures
        string_body_len(escape_spec(s) + seq!['"']) == escape_spec(s).len() + 1,
        string_closed(escape_spec(s) + seq!['"']),
    decreases s.len(),
{
    if s.len() == 0 {
        assert(escape_spec(s) + seq!['"'] =~= seq!['"']);
    } else {
        lemma_escaped_body_scans(s.skip(1));
        let rest = escape_spec(s.skip(1));
        let c = s[0];
        let whole = escape_spec(s) + seq!['"'];
        if c == '\\' || c == '"' || c == '\n' {
            let pair = if c == '\\' {
                seq!['\\', '\\']
            } else if c == '"' {
                seq!['\\', '"']
            } else {
                seq!['\\', 'n']
            };
            assert(escape_spec(s) == pair + rest);
            assert(whole =~= pair + (rest + seq!['"']));
            assert(whole[0] == '\\');
            assert(whole.len() >= 2);
            assert(whole.skip(2) =~= rest + seq!['"']);
        } else {
            assert(escape_spec(s) == seq![c] + rest);
            assert(whole =~= seq![c] + (rest + seq!['"']));
            assert(whole[0] == c);
            assert(whole.skip(1) =~= rest + seq!['"']);
        }
    }
}

/// A rendered string reads back as exactly that string: quoting,
/// escaping, tokenizing, unescaping and parsing compose to the identity
/// on string atoms.
pub proof fn lemma_string_round_trip(s: Seq<char>)
    ensures
        read_spec(print_spec(ValModel::Str(s), true)) == Ok::<ValModel, Seq<char>>(
            ValModel::Str(s),
        ),
{
    lemma_form_round_trip(ValModel::Str(s));
}

/// A rendered keyword reads back as itself, for any keyword name made
/// of plain atom characters.
pub proof fn lemma_keyword_round_trip(s: Seq<char>)
    requires
        forall|i: int| 0 <= i < s.len() ==> !is_atom_end(#[trigger] s[i]),
    ensures
        read_spec(print_spec(ValModel::Keyword(s), true)) == Ok::<ValModel, Seq<char>>(
            ValModel::Keyword(s),
        ),
{
    lemma_form_round_trip(ValModel::Keyword(s));
}

/// A rendered symbol reads back as itself, for any symbol name made of
/// plain atom characters that does not itself read as a number, a
/// keyword, a comment or a named literal.
pub proof fn lemma_symbol_round_trip(s: Seq<char>)
    requires
        s.len() >= 1,
        forall|i: int| 0 <= i < s.len() ==> !is_atom_end(#[trigger] s[i]),
        s[0] != '~' && s[0] != '^' && s[0] != '@' && s[0] != ':' && s[0] != ';',
        parse_int_spec(s) is None,
        s != "nil"@ && s != "true"@ && s != "false"@,
    ensures
        read_spec(print_spec(ValModel::Symbol(s), true)) == Ok::<ValModel, Seq<char>>(
            ValModel::Symbol(s),
        ),
{
    lemma_form_round_trip(ValModel::Symbol(s));
}

// ---------------------------------------------------------------------------
// Full round trips for readable forms
// ---------------------------------------------------------------------------

/// The forms whose rendering reads back as the very same value: the
/// atoms shown above, and lists and vectors of such forms. A symbol or
/// keyword qualifies when its name is made of plain atom characters and
/// does not read as something else; every form that the reader itself
/// produces is of this shape.
pub open spec fn readable_form(v: ValModel) -> bool
    decreases v, 0nat,
{
    match v {
        ValModel::Nil | ValModel::True | ValModel::False => true,
        ValModel::Num(n) => i64::MIN <= n <= i64::MAX,
        ValModel::Str(_) => true,
        ValModel::Keyword(s) => forall|i: int| 0 <= i < s.len() ==> !is_atom_end(#[trigger] s[i]),
        ValModel::Symbol(s) => {
            &&& s.len() >= 1
            &&& forall|i: int| 0 <= i < s.len() ==> !is_atom_end(#[trigger] s[i])
            &&& s[0] != '~' && s[0] != '^' && s[0] != '@' && s[0] != ':' && s[0] != ';'
            &&& parse_int_spec(s) is None
            &&& s != "nil"@ && s != "true"@ && s != "false"@
        },
        ValModel::Sequence(_, items) => readable_items(items),
        _ => false,
    }
}

/// Every element of a run is a readable form.
pub open spec fn readable_items(items: Seq<ValModel>) -> bool
    decreases items, 1nat,
{
    items.len() == 0 || (readable_items(items.drop_last()) && readable_form(items.last()))
}

proof fn lemma_readable_items_elem(items: Seq<ValModel>, i: int)
    requires
        readable_items(items),
        0 <= i < items.len(),
    ensures
        readable_form(items[i]),
    decreases items.len(),
{
    if i == items.len() - 1 {
    } else {
        assert(items.drop_last()[i] == items[i]);
        lemma_readable_items_elem(items.drop_last(), i);
    }
}

/// The tokens a form renders to.
pub open spec fn form_tokens(v: ValModel) -> Seq<Seq<char>>
    decreases v, 0nat,
{
    match v {
        ValModel::Sequence(is_list, items) => if is_list {
            seq!["("@] + items_tokens(items) + seq![")"@]
        } else {
            seq!["["@] + items_tokens(items) + seq!["]"@]
        },
        _ => seq![print_spec(v, true)],
    }
}

/// The tokens a run of forms renders to, in order.
pub open spec fn items_tokens(items: Seq<ValModel>) -> Seq<Seq<char>>
    decreases items, 1nat,
{
    if items.len() == 0 {
        Seq::empty()
    } else {
        form_tokens(items[0]) + items_tokens(items.skip(1))
    }
}

/// Joined rendering, unfolded at the front.
proof fn lemma_print_items_front(items: Seq<ValModel>, readable: bool)
    requires
        items.len() >= 1,
    ensures
        print_items_spec(items, readable) == if items.len() == 1 {
            print_spec(items[0], readable)
        } else {
            print_spec(items[0], readable) + seq![' '] + print_items_spec(items.skip(1), readable)
        },
    decreases items.len(),
{
    if items.len() == 1 {
    } else if items.len() == 2 {
        assert(items.drop_last() =~= seq![items[0]]);
        assert(items.skip(1) =~= seq![items[1]]);
        assert(items.drop_last()[0] == items[0]);
        assert(items.skip(1)[0] == items[1]);
        assert(items.last() == items[1]);
        assert(print_items_spec(items.drop_last(), readable) == print_spec(items[0], readable));
        assert(print_items_spec(items.skip(1), readable) == print_spec(items[1], readable));
        assert(print_items_spec(items, readable) == print_items_spec(items.drop_last(), readable)
            + seq![' '] + print_spec(items.last(), readable));
    } else {
        lemma_print_items_front(items.drop_last(), readable);
        assert(items.drop_last().skip(1) =~= items.skip(1).drop_last());
        assert(items.drop_last()[0] == items[0]);
        assert(items.skip(1).last() == items.last());
        let a = print_spec(items[0], readable);
        let sp = seq![' '];
        let mid = print_items_spec(items.skip(1).drop_last(), readable);
        let z = print_spec(items.last(), readable);
        assert(print_items_spec(items.drop_last(), readable) == a + sp + mid);
        assert(print_items_spec(items, readable) == (a + sp + mid) + sp + z);
        assert(print_items_spec(items.skip(1), readable) == mid + sp + z);
        assert((a + sp + mid) + sp + z =~= a + sp + (mid + sp + z));
    }
}

/// Whether a continuation cannot extend a bare atom: it is empty or
/// starts with a character that ends atoms.
pub open spec fn stops_atoms(rest: Seq<char>) -> bool {
    rest.len() == 0 || is_atom_end(rest[0])
}

/// An atom's rendering followed by a stopping continuation tokenizes to
/// the atom's one token followed by the continuation's tokens.
proof fn lemma_tok_atom(v: ValModel, rest: Seq<char>)
    requires
        readable_form(v),
        !(v is Sequence),
        stops_atoms(rest),
    ensures
        tokenize_spec(print_spec(v, true) + rest) == seq![print_spec(v, true)] + tokenize_spec(
            rest,
        ),
{
    broadcast use vstd::string::group_string_axioms;

    let s = print_spec(v, true);
    let whole = s + rest;
    match v {
        ValModel::Str(body) => {
            lemma_escaped_body_scans(body);
            let t = seq!['"'] + escape_spec(body) + seq!['"'];
            assert(s == t);
            assert(whole[0] == '"');
            assert(!is_ws(whole[0]) && !is_special(whole[0]));
            assert(whole.skip(1) =~= (escape_spec(body) + seq!['"']) + rest);
            lemma_string_body_stops(escape_spec(body) + seq!['"'], rest);
            assert(token_len(whole) == s.len());
            assert(whole.take(s.len() as int) =~= s);
            assert(whole.skip(s.len() as int) =~= rest);
        },
        _ => {
            assert forall|i: int| 0 <= i < s.len() implies !is_atom_end(#[trigger] s[i]) by {
                match v {
                    ValModel::Num(n) => {
                        lemma_int_str_chars(n);
                        lemma_plain_char(s[i]);
                    },
                    ValModel::Nil => {
                        reveal_strlit("nil");
                    },
                    ValModel::True => {
                        reveal_strlit("true");
                    },
                    ValModel::False => {
                        reveal_strlit("false");
                    },
                    ValModel::Keyword(name) => {
                        if i > 0 {
                            assert(s[i] == name[i - 1]);
                        }
                    },
                    _ => {},
                }
            }
            assert(s.len() >= 1) by {
                match v {
                    ValModel::Num(n) => {
                        lemma_int_str_chars(n);
                    },
                    ValModel::Nil => {
                        reveal_strlit("nil");
                    },
                    ValModel::True => {
                        reveal_strlit("true");
                    },
                    ValModel::False => {
                        reveal_strlit("false");
                    },
                    _ => {},
                }
            }
            lemma_atom_run_stops(s, rest);
            assert(s[0] != '~' && s[0] != '^' && s[0] != '@') by {
                match v {
                    ValModel::Num(n) => {
                        lemma_int_str_chars(n);
                        lemma_plain_char(s[0]);
                    },
                    ValModel::Nil => {
                        reveal_strlit("nil");
                    },
                    ValModel::True => {
                        reveal_strlit("true");
                    },
                    ValModel::False => {
                        reveal_strlit("false");
                    },
                    ValModel::Keyword(name) => {
                        assert(s[0] == ':');
                    },
                    _ => {},
                }
            }
            assert(!is_ws(whole[0]) && !is_special(whole[0]) && whole[0] != '"' && whole[0]
                != ';' && !(whole.len() >= 2 && whole[0] == '~' && whole[1] == '@')) by {
                assert(whole[0] == s[0]);
                assert(!is_atom_end(s[0]));
            }
            assert(token_len(whole) == atom_len(whole));
            assert(atom_len(whole) == s.len());
            assert(whole.take(s.len() as int) =~= s);
            assert(whole.skip(s.len() as int) =~= rest);
        },
    }
}

/// The escape-sequence scan is unchanged by whatever follows the
/// closing quote.
proof fn lemma_string_body_stops(b: Seq<char>, rest: Seq<char>)
    requires
        string_closed(b),
    ensures
        string_body_len(b + rest) == b.len(),
    decreases b.len(),
{
    if b.len() == 0 {
    } else if b[0] == '"' {
        assert((b + rest)[0] == '"');
        assert(b.len() == 1);
    } else if b[0] == '\\' {
        assert((b + rest)[0] == '\\');
        assert(b.len() >= 2);
        assert((b + rest)[1] == b[1]);
        assert((b + rest).skip(2) =~= b.skip(2) + rest);
        lemma_string_body_stops(b.skip(2), rest);
    } else {
        assert((b + rest)[0] == b[0]);
        assert((b + rest).skip(1) =~= b.skip(1) + rest);
        lemma_string_body_stops(b.skip(1), rest);
    }
}

/// A run of plain atom characters followed by a stopping continuation
/// scans as exactly the run.
proof fn lemma_atom_run_stops(s: Seq<char>, rest: Seq<char>)
    requires
        forall|i: int| 0 <= i < s.len() ==> !is_atom_end(#[trigger] s[i]),
        stops_atoms(rest),
    ensures
        atom_len(s + rest) == s.len(),
    decreases s.len(),
{
    if s.len() == 0 {
        assert(s + rest =~= rest);
    } else {
        assert((s + rest)[0] == s[0]);
        assert((s + rest).skip(1) =~= s.skip(1) + rest);
        assert forall|i: int| 0 <= i < s.skip(1).len() implies !is_atom_end(
            #[trigger] s.skip(1)[i],
        ) by {
            assert(s.skip(1)[i] == s[i + 1]);
        }
        lemma_atom_run_stops(s.skip(1), rest);
    }
}

/// A form's rendering followed by a stopping continuation tokenizes to
/// the form's tokens followed by the continuation's tokens.
proof fn lemma_tok_form(v: ValModel, rest: Seq<char>)
    requires
        readable_form(v),
        stops_atoms(rest),
    ensures
        tokenize_spec(print_spec(v, true) + rest) == form_tokens(v) + tokenize_spec(rest),
    decreases v, 0nat,
{
    if !(v is Sequence) {
        lemma_tok_atom(v, rest);
        assert(seq![print_spec(v, true)] + tokenize_spec(rest) =~= form_tokens(v)
            + tokenize_spec(rest));
    } else {
        let items = v->Sequence_1;
        let op: char = if v->Sequence_0 {
            '('
        } else {
            '['
        };
        let cl: char = if v->Sequence_0 {
            ')'
        } else {
            ']'
        };
        let optok: Seq<char> = if v->Sequence_0 {
            "("@
        } else {
            "["@
        };
        let cltok: Seq<char> = if v->Sequence_0 {
            ")"@
        } else {
            "]"@
        };
        broadcast use vstd::string::group_string_axioms;

        reveal_strlit("(");
        reveal_strlit(")");
        reveal_strlit("[");
        reveal_strlit("]");
        assert(optok =~= seq![op]);
        assert(cltok =~= seq![cl]);
        let inner = print_items_spec(items, true);
        let s = print_spec(v, true);
        assert(s == seq![op] + inner + seq![cl]);
        let whole = s + rest;
        let crest = seq![cl] + rest;
        assert(whole =~= seq![op] + (inner + crest));
        assert(whole[0] == op);
        assert(!is_ws(op) && is_special(op) && op != '~');
        assert(token_len(whole) == 1);
        assert(whole.take(1) =~= optok);
        assert(whole.skip(1) =~= inner + crest);
        assert(is_atom_end(crest[0]));
        lemma_tok_items(items, crest);
        assert(tokenize_spec(crest) == seq![cltok] + tokenize_spec(rest)) by {
            assert(crest[0] == cl);
            assert(!is_ws(cl) && is_special(cl) && cl != '~');
            assert(token_len(crest) == 1);
            assert(crest.take(1) =~= cltok);
            assert(crest.skip(1) =~= rest);
        }
        assert(tokenize_spec(whole) == seq![optok] + (items_tokens(items) + (seq![cltok]
            + tokenize_spec(rest))));
        assert(seq![optok] + (items_tokens(items) + (seq![cltok] + tokenize_spec(rest)))
            =~= (seq![optok] + items_tokens(items) + seq![cltok]) + tokenize_spec(rest));
        assert(form_tokens(v) == seq![optok] + items_tokens(items) + seq![cltok]);
    }
}

/// A run of forms rendered with space separators, followed by a
/// stopping continuation, tokenizes to the concatenation of the forms'
/// tokens and the continuation's.
proof fn lemma_tok_items(items: Seq<ValModel>, crest: Seq<char>)
    requires
        readable_items(items),
        crest.len() >= 1,
        is_atom_end(crest[0]),
    ensures
        tokenize_spec(print_items_spec(items, true) + crest) == items_tokens(items)
            + tokenize_spec(crest),
    decreases items, 1nat,
{
    if items.len() == 0 {
        assert(print_items_spec(items, true) + crest =~= crest);
        assert(items_tokens(items) + tokenize_spec(crest) =~= tokenize_spec(crest));
    } else {
        lemma_readable_items_elem(items, 0);
        lemma_print_items_front(items, true);
        if items.len() == 1 {
            assert(print_items_spec(items, true) == print_spec(items[0], true));
            lemma_tok_form(items[0], crest);
            assert(items_tokens(items) =~= form_tokens(items[0]) + items_tokens(items.skip(1)));
            assert(items.skip(1).len() == 0);
            assert(items_tokens(items.skip(1)) =~= Seq::<Seq<char>>::empty());
            assert(items_tokens(items) + tokenize_spec(crest) =~= form_tokens(items[0])
                + tokenize_spec(crest));
        } else {
            let head = print_spec(items[0], true);
            let tail = print_items_spec(items.skip(1), true);
            assert(print_items_spec(items, true) == head + seq![' '] + tail);
            let cont = seq![' '] + (tail + crest);
            assert((head + seq![' '] + tail) + crest =~= head + cont);
            assert(is_ws(cont[0]));
            lemma_tok_form(items[0], cont);
            assert(cont.skip(1) =~= tail + crest);
            assert(tokenize_spec(cont) == tokenize_spec(tail + crest));
            assert forall|i: int| 0 <= i < items.skip(1).len() implies readable_form(
                #[trigger] items.skip(1)[i],
            ) by {
                assert(items.skip(1)[i] == items[i + 1]);
                lemma_readable_items_elem(items, i + 1);
            }
            lemma_readable_items_intro(items.skip(1));
            lemma_tok_items(items.skip(1), crest);
            assert(tokenize_spec(print_items_spec(items, true) + crest) == form_tokens(items[0])
                + (items_tokens(items.skip(1)) + tokenize_spec(crest)));
            assert(form_tokens(items[0]) + (items_tokens(items.skip(1)) + tokenize_spec(crest))
                =~= (form_tokens(items[0]) + items_tokens(items.skip(1))) + tokenize_spec(crest));
            assert(items_tokens(items) == form_tokens(items[0]) + items_tokens(items.skip(1)));
        }
    }
}

proof fn lemma_readable_items_intro(items: Seq<ValModel>)
    requires
        forall|i: int| 0 <= i < items.len() ==> readable_form(#[trigger] items[i]),
    ensures
        readable_items(items),
    decreases items.len(),
{
    if items.len() > 0 {
        assert(forall|i: int|
            0 <= i < items.drop_last().len() ==> #[trigger] items.drop_last()[i] == items[i]);
        lemma_readable_items_intro(items.drop_last());
    }
}

/// An atom's one token is no delimiter or reader-macro token, and
/// resolves back to the atom itself.
proof fn lemma_atom_token_reads(v: ValModel)
    requires
        readable_form(v),
        !(v is Sequence),
    ensures
        ({
            let t = print_spec(v, true);
            &&& atom_of(t) == Ok::<ValModel, Seq<char>>(v)
            &&& t != "'"@ && t != "`"@ && t != "~"@ && t != "~@"@ && t != "@"@ && t != "^"@
            &&& t != "("@ && t != ")"@ && t != "["@ && t != "]"@ && t != "{"@ && t != "}"@
        }),
{
    broadcast use vstd::string::group_string_axioms;

    let t = print_spec(v, true);
    reveal_strlit("'");
    reveal_strlit("`");
    reveal_strlit("~");
    reveal_strlit("~@");
    reveal_strlit("@");
    reveal_strlit("^");
    reveal_strlit("(");
    reveal_strlit(")");
    reveal_strlit("[");
    reveal_strlit("]");
    reveal_strlit("{");
    reveal_strlit("}");
    reveal_strlit("nil");
    reveal_strlit("true");
    reveal_strlit("false");
    match v {
        ValModel::Num(n) => {
            lemma_int_str_chars(n);
            lemma_plain_char(t[0]);
            assert(!is_atom_end(t[0]) && t[0] != '~');
            lemma_int_round_trip(n);
            assert(t[0] != ';');
        },
        ValModel::Str(body) => {
            lemma_escaped_body_scans(body);
            assert(t == seq!['"'] + escape_spec(body) + seq!['"']);
            assert(t[0] == '"');
            assert(parse_int_spec(t) is None) by {
                assert(!is_digit(t[0]));
                assert(!(t[0] == '-' || t[0] == '+'));
                assert(!all_digits(t));
            }
            assert(t.skip(1) =~= escape_spec(body) + seq!['"']);
            assert(t.subrange(1, t.len() - 1) =~= escape_spec(body));
            lemma_escape_round_trip(body);
        },
        ValModel::Keyword(name) => {
            assert(t == seq![':'] + name);
            assert(t[0] == ':');
            assert(parse_int_spec(t) is None) by {
                assert(!is_digit(t[0]));
                assert(!(t[0] == '-' || t[0] == '+'));
                assert(!all_digits(t));
            }
            assert(t.skip(1) =~= name);
        },
        ValModel::Symbol(name) => {
            assert(t == name);
            assert(!is_atom_end(t[0]));
        },
        _ => {
            assert(t == "nil"@ || t == "true"@ || t == "false"@);
            assert("nil"@.len() == 3 && "true"@.len() == 4 && "false"@.len() == 5);
            assert(parse_int_spec(t) is None) by {
                assert(!is_digit(t[0]));
                assert(!(t[0] == '-' || t[0] == '+'));
                assert(!all_digits(t));
            }
            assert(t[0] != ';' && t[0] != '"' && t[0] != ':');
            assert(t[0] != '\'' && t[0] != '`' && t[0] != '~' && t[0] != '@' && t[0] != '^'
                && t[0] != '(' && t[0] != ')' && t[0] != '[' && t[0] != ']' && t[0] != '{' && t[0]
                != '}');
        },
    }
}

/// The first token of a form's rendering opens the form: never a
/// closing delimiter.
proof fn lemma_form_first_token(v: ValModel)
    requires
        readable_form(v),
    ensures
        form_tokens(v).len() >= 1,
        form_tokens(v)[0] != ")"@,
        form_tokens(v)[0] != "]"@,
        form_tokens(v)[0] != "}"@,
    decreases v,
{
    broadcast use vstd::string::group_string_axioms;

    reveal_strlit("(");
    reveal_strlit(")");
    reveal_strlit("[");
    reveal_strlit("]");
    reveal_strlit("}");
    if v is Sequence {
        assert(form_tokens(v)[0] == "("@ || form_tokens(v)[0] == "["@);
        assert("("@ != ")"@ && "("@ != "]"@ && "("@ != "}"@) by {
            assert("("@[0] == '(' && ")"@[0] == ')' && "]"@[0] == ']' && "}"@[0] == '}');
        }
        assert("["@ != ")"@ && "["@ != "]"@ && "["@ != "}"@) by {
            assert("["@[0] == '[');
        }
    } else {
        lemma_atom_token_reads(v);
    }
}

/// Parsing a form's tokens from within a longer stream gives back the
/// form and stops right after its tokens.
proof fn lemma_parse_form_back(v: ValModel, toks: Seq<Seq<char>>, i: int)
    requires
        readable_form(v),
        0 <= i,
        i + form_tokens(v).len() <= toks.len(),
        toks.subrange(i, i + form_tokens(v).len()) == form_tokens(v),
    ensures
        parse_form(toks, i) == (Ok::<ValModel, Seq<char>>(v), i + form_tokens(v).len()),
    decreases v, 0nat,
{
    broadcast use vstd::string::group_string_axioms;

    let n = form_tokens(v).len();
    assert(toks[i] == form_tokens(v)[0]) by {
        lemma_form_first_token(v);
        assert(toks.subrange(i, i + n)[0] == toks[i]);
    }
    if !(v is Sequence) {
        lemma_atom_token_reads(v);
        assert(form_tokens(v) =~= seq![print_spec(v, true)]);
        assert(toks[i] == print_spec(v, true));
    } else {
        let items = v->Sequence_1;
        let optok: Seq<char> = if v->Sequence_0 {
            "("@
        } else {
            "["@
        };
        let cltok: Seq<char> = if v->Sequence_0 {
            ")"@
        } else {
            "]"@
        };
        assert(form_tokens(v) == seq![optok] + items_tokens(items) + seq![cltok]);
        assert(form_tokens(v)[0] == optok);
        reveal_strlit("'");
        reveal_strlit("`");
        reveal_strlit("~");
        reveal_strlit("~@");
        reveal_strlit("@");
        reveal_strlit("^");
        reveal_strlit("(");
        reveal_strlit(")");
        reveal_strlit("[");
        reveal_strlit("]");
        reveal_strlit("{");
        reveal_strlit("}");
        assert(optok[0] == '(' || optok[0] == '[');
        assert(toks[i] != "'"@ && toks[i] != "`"@ && toks[i] != "~"@ && toks[i] != "~@"@
            && toks[i] != "@"@ && toks[i] != "^"@) by {
            assert("'"@[0] == '\'' && "`"@[0] == '`' && "~"@[0] == '~' && "~@"@[0] == '~'
                && "@"@[0] == '@' && "^"@[0] == '^');
        }
        assert(("("@)[0] == '(' && ("["@)[0] == '[' && (")"@)[0] == ')' && ("]"@)[0] == ']'
            && ("{"@)[0] == '{' && ("}"@)[0] == '}');
        assert(toks.subrange(i + 1, i + n) =~= items_tokens(items) + seq![cltok]) by {
            assert forall|q: int| 0 <= q < n - 1 implies toks.subrange(i + 1, i + n)[q] == (
            items_tokens(items) + seq![cltok])[q] by {
                assert(toks.subrange(i, i + n)[1 + q] == toks[i + 1 + q]);
                assert(form_tokens(v)[1 + q] == (seq![optok] + items_tokens(items) + seq![
                    cltok,
                ])[1 + q]);
            }
        }
        lemma_parse_items_back(items, toks, i + 1, cltok);
        if v->Sequence_0 {
            assert(toks[i] == "("@);
            assert(toks[i] != "{"@ && toks[i] != "}"@ && toks[i] != ")"@ && toks[i] != "["@
                && toks[i] != "]"@);
        } else {
            assert(toks[i] == "["@);
            assert(toks[i] != "{"@ && toks[i] != "}"@ && toks[i] != ")"@ && toks[i] != "("@
                && toks[i] != "]"@);
        }
    }
}

/// Parsing a run of forms' tokens up to the closing delimiter gives
/// back the run and stops right after the closer.
proof fn lemma_parse_items_back(items: Seq<ValModel>, toks: Seq<Seq<char>>, j: int, cltok: Seq<char>)
    requires
        readable_items(items),
        cltok == ")"@ || cltok == "]"@,
        0 <= j,
        j + items_tokens(items).len() + 1 <= toks.len(),
        toks.subrange(j, j + items_tokens(items).len() + 1) == items_tokens(items) + seq![cltok],
    ensures
        crate::reader::parse_seq(toks, j, cltok) == (
            Ok::<Seq<ValModel>, Seq<char>>(items),
            j + items_tokens(items).len() + 1,
        ),
    decreases items, 1nat,
{
    broadcast use vstd::string::group_string_axioms;

    let m = items_tokens(items).len();
    if items.len() == 0 {
        assert(items_tokens(items) + seq![cltok] =~= seq![cltok]);
        assert(toks[j] == cltok) by {
            assert(toks.subrange(j, j + 1)[0] == toks[j]);
        }
        assert(items =~= Seq::<ValModel>::empty());
    } else {
        lemma_readable_items_elem(items, 0);
        let n0 = form_tokens(items[0]).len();
        assert(items_tokens(items) == form_tokens(items[0]) + items_tokens(items.skip(1)));
        assert(toks[j] == form_tokens(items[0])[0]) by {
            lemma_form_first_token(items[0]);
            assert(toks.subrange(j, j + m + 1)[0] == toks[j]);
            assert((items_tokens(items) + seq![cltok])[0] == form_tokens(items[0])[0]);
        }
        lemma_form_first_token(items[0]);
        assert(toks[j] != cltok);
        assert(toks.subrange(j, j + n0) =~= form_tokens(items[0])) by {
            assert forall|q: int| 0 <= q < n0 implies toks.subrange(j, j + n0)[q] == form_tokens(
                items[0],
            )[q] by {
                assert(toks.subrange(j, j + m + 1)[q] == toks[j + q]);
                assert((items_tokens(items) + seq![cltok])[q] == form_tokens(items[0])[q]);
            }
        }
        lemma_parse_form_back(items[0], toks, j);
        assert(!(items[0] is Comment));
        assert forall|i: int| 0 <= i < items.skip(1).len() implies readable_form(
            #[trigger] items.skip(1)[i],
        ) by {
            assert(items.skip(1)[i] == items[i + 1]);
            lemma_readable_items_elem(items, i + 1);
        }
        lemma_readable_items_intro(items.skip(1));
        assert(toks.subrange(j + n0, j + m + 1) =~= items_tokens(items.skip(1)) + seq![cltok]) by {
            assert forall|q: int| 0 <= q < m + 1 - n0 implies toks.subrange(j + n0, j + m + 1)[q]
                == (items_tokens(items.skip(1)) + seq![cltok])[q] by {
                assert(toks.subrange(j, j + m + 1)[n0 + q] == toks[j + n0 + q]);
                assert((items_tokens(items) + seq![cltok])[n0 + q] == (items_tokens(items.skip(1))
                    + seq![cltok])[q]);
            }
        }
        lemma_parse_items_back(items.skip(1), toks, j + n0, cltok);
        assert(seq![items[0]] + items.skip(1) =~= items);
        let m2 = items_tokens(items.skip(1)).len();
        assert(m == n0 + m2);
        assert(parse_form(toks, j) == (Ok::<ValModel, Seq<char>>(items[0]), j + n0));
        assert(crate::reader::parse_seq(toks, j + n0, cltok) == (
            Ok::<Seq<ValModel>, Seq<char>>(items.skip(1)),
            j + n0 + m2 + 1,
        ));
        assert(j + n0 > j && j + n0 <= toks.len());
    }
}

/// A readable form's rendering reads back as exactly that form:
/// printing and reading are inverses on every form the reader itself
/// can produce, the list-versus-vector bracket choice included.
pub proof fn lemma_form_round_trip(v: ValModel)
    requires
        readable_form(v),
    ensures
        read_spec(print_spec(v, true)) == Ok::<ValModel, Seq<char>>(v),
{
    let s = print_spec(v, true);
    assert(s + Seq::<char>::empty() =~= s);
    lemma_tok_form(v, Seq::empty());
    assert(tokenize_spec(Seq::<char>::empty()) =~= Seq::<Seq<char>>::empty());
    let toks = tokenize_spec(s);
    assert(toks =~= form_tokens(v));
    lemma_form_first_token(v);
    assert(toks.subrange(0, form_tokens(v).len() as int) =~= form_tokens(v));
    lemma_parse_form_back(v, toks, 0);
}

} // verus!
