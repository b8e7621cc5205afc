use crate::text::{chars_to_string, escape_into, escape_spec, int_str, push_i64};
use crate::types::{
    builtin_name, group_model_facts, pairs_of, strs_of, vals_of, MalType, ValModel,
};
use vstd::prelude::*;
use vstd::string::StrSliceExecFns;

verus! {

// ---------------------------------------------------------------------------
// Rendering, specified
// ---------------------------------------------------------------------------

/// The canonical rendering of a value. With `readable` true, strings are
/// escaped and quoted for re-parseability; with it false they render as
/// their raw characters.
pub open spec fn print_spec(v: ValModel, readable: bool) -> Seq<char>
    decreases v, 0nat,
{
    match v {
        ValModel::Comment => Seq::empty(),
        ValModel::Nil => "nil"@,
        ValModel::True => "true"@,
        ValModel::False => "false"@,
        ValModel::Num(i) => int_str(i),
        ValModel::Str(s) => if readable {
            seq!['"'] + escape_spec(s) + seq!['"']
        } else {
            s
        },
        ValModel::Keyword(s) => seq![':'] + s,
        ValModel::Symbol(s) => s,
        ValModel::Sequence(is_list, items) => if is_list {
            seq!['('] + print_items_spec(items, readable) + seq![')']
        } else {
            seq!['['] + print_items_spec(items, readable) + seq![']']
        },
        ValModel::Hashmap(ps) => seq!['{'] + print_pairs_spec(ps, readable) + seq!['}'],
        ValModel::Fn(op) => "#<"@ + builtin_name(op) + ">"@,
        ValModel::Lambda(ps, _, _) => "#<lambda:("@ + join_names_spec(ps) + ")>"@,
    }
}

/// A run of values rendered in order, separated by single spaces.
pub open spec fn print_items_spec(items: Seq<ValModel>, readable: bool) -> Seq<char>
    decreases items, 1nat,
{
    if items.len() == 0 {
        Seq::empty()
    } else if items.len() == 1 {
        print_spec(items[0], readable)
    } else {
        print_items_spec(items.drop_last(), readable) + seq![' '] + print_spec(
            items.last(),
            readable,
        )
    }
}

/// Key/value pairs rendered flattened, separated by single spaces.
pub open spec fn print_pairs_spec(ps: Seq<(ValModel, ValModel)>, readable: bool) -> Seq<char>
    decreases ps, 1nat,
{
    if ps.len() == 0 {
        Seq::empty()
    } else if ps.len() == 1 {
        print_spec(ps[0].0, readable) + seq![' '] + print_spec(ps[0].1, readable)
    } else {
        print_pairs_spec(ps.drop_last(), readable) + seq![' '] + print_spec(ps.last().0, readable)
            + seq![' '] + print_spec(ps.last().1, readable)
    }
}

/// Parameter names joined by single spaces.
pub open spec fn join_names_spec(ps: Seq<Seq<char>>) -> Seq<char>
    decreases ps.len(),
{
    if ps.len() == 0 {
        Seq::empty()
    } else if ps.len() == 1 {
        ps[0]
    } else {
        join_names_spec(ps.drop_last()) + seq![' '] + ps.last()
    }
}

/// A run of values rendered in order with no separator.
pub open spec fn print_concat_spec(items: Seq<ValModel>, readable: bool) -> Seq<char>
    decreases items, 1nat,
{
    if items.len() == 0 {
        Seq::empty()
    } else {
        print_concat_spec(items.drop_last(), readable) + print_spec(items.last(), readable)
    }
}

proof fn lemma_print_concat_take(items: Seq<ValModel>, readable: bool, i: int)
    requires
        0 <= i < items.len(),
    ensures
        print_concat_spec(items.take(i + 1), readable) == print_concat_spec(items.take(i), readable)
            + print_spec(items[i], readable),
{
    assert(items.take(i + 1).drop_last() =~= items.take(i));
    assert(items.take(i + 1).last() == items[i]);
}

proof fn lemma_print_items_take(items: Seq<ValModel>, readable: bool, i: int)
    requires
        0 <= i < items.len(),
    ensures
        print_items_spec(items.take(i + 1), readable) == if i == 0 {
            print_spec(items[0], readable)
        } else {
            print_items_spec(items.take(i), readable) + seq![' '] + print_spec(items[i], readable)
        },
{
    assert(items.take(i + 1).drop_last() =~= items.take(i));
    assert(items.take(i + 1).last() == items[i]);
    if i == 0 {
        assert(items.take(1)[0] == items[0]);
    }
}

proof fn lemma_print_pairs_take(ps: Seq<(ValModel, ValModel)>, readable: bool, i: int)
    requires
        0 <= i < ps.len(),
    ensures
        print_pairs_spec(ps.take(i + 1), readable) == if i == 0 {
            print_spec(ps[0].0, readable) + seq![' '] + print_spec(ps[0].1, readable)
        } else {
            print_pairs_spec(ps.take(i), readable) + seq![' '] + print_spec(ps[i].0, readable)
                + seq![' '] + print_spec(ps[i].1, readable)
        },
{
    assert(ps.take(i + 1).drop_last() =~= ps.take(i));
    assert(ps.take(i + 1).last() == ps[i]);
    if i == 0 {
        assert(ps.take(1)[0] == ps[0]);
    }
}

proof fn lemma_join_names_take(ps: Seq<Seq<char>>, i: int)
    requires
        0 <= i < ps.len(),
    ensures
        join_names_spec(ps.take(i + 1)) == if i == 0 {
            ps[0]
        } else {
            join_names_spec(ps.take(i)) + seq![' '] + ps[i]
        },
{
    assert(ps.take(i + 1).drop_last() =~= ps.take(i));
    assert(ps.take(i + 1).last() == ps[i]);
    if i == 0 {
        assert(ps.take(1)[0] == ps[0]);
    }
}

// ---------------------------------------------------------------------------
// Rendering, executable
// ---------------------------------------------------------------------------

/// Appends the characters of a string slice.
#[verifier::loop_isolation(false)]
pub(crate) fn push_str_chars(out: &mut Vec<char>, s: &str)
    ensures
        final(out)@ == old(out)@ + s@,
{
    let n = s.unicode_len();
    let mut i: usize = 0;
    while i < n
        invariant
            i <= n,
            n == s@.len(),
            out@ == old(out)@ + s@.take(i as int),
        decreases n - i,
    {
        out.push(s.get_char(i));
        proof {
            assert(old(out)@ + s@.take(i as int) + seq![s@[i as int]] =~= old(out)@ + s@.take(
                i + 1,
            ));
        }
        i = i + 1;
    }
    proof {
        assert(old(out)@ + s@.take(n as int) =~= old(out)@ + s@);
    }
}

#[verifier::loop_isolation(false)]
fn print_into(v: &MalType, readable: bool, out: &mut Vec<char>)
    ensures
        final(out)@ == old(out)@ + print_spec(v@, readable),
    decreases *v, 0nat,
{
    broadcast use group_model_facts;

    match v {
        MalType::Comment => {
            proof {
                assert(old(out)@ + print_spec(v@, readable) =~= old(out)@);
            }
        },
        MalType::Nil => {
            push_str_chars(out, "nil");
        },
        MalType::True => {
            push_str_chars(out, "true");
        },
        MalType::False => {
            push_str_chars(out, "false");
        },
        MalType::Num(n) => {
            let crate::types::Number::Int(i) = *n;
            push_i64(i, out);
        },
        MalType::Str(s) => {
            if readable {
                out.push('"');
                let cs = crate::text::chars_of_str(s.as_str());
                escape_into(&cs, out);
                out.push('"');
                proof {
                    assert(final(out)@ =~= old(out)@ + (seq!['"'] + escape_spec(s@) + seq!['"']));
                }
            } else {
                push_str_chars(out, s.as_str());
            }
        },
        MalType::Keyword(s) => {
            out.push(':');
            push_str_chars(out, s.as_str());
            proof {
                assert(final(out)@ =~= old(out)@ + (seq![':'] + s@));
            }
        },
        MalType::Symbol(s) => {
            push_str_chars(out, s.as_str());
        },
        MalType::ListVec(lv) => {
            proof {
                assert(decreases_to!(*v => v->ListVec_0));
                assert(decreases_to!(*lv => lv.1));
                assert(decreases_to!(lv.1 => lv.1@));
            }
            if lv.0 {
                out.push('(');
                print_items_into(&lv.1, readable, out);
                out.push(')');
                proof {
                    assert(final(out)@ =~= old(out)@ + (seq!['('] + print_items_spec(
                        vals_of(lv.1@),
                        readable,
                    ) + seq![')']));
                }
            } else {
                out.push('[');
                print_items_into(&lv.1, readable, out);
                out.push(']');
                proof {
                    assert(final(out)@ =~= old(out)@ + (seq!['['] + print_items_spec(
                        vals_of(lv.1@),
                        readable,
                    ) + seq![']']));
                }
            }
        },
        MalType::Hashmap(ps) => {
            proof {
                assert(decreases_to!(*v => v->Hashmap_0));
                assert(decreases_to!(*ps => ps@));
            }
            out.push('{');
            print_pairs_into(ps, readable, out);
            out.push('}');
            proof {
                assert(final(out)@ =~= old(out)@ + (seq!['{'] + print_pairs_spec(
                    pairs_of(ps@),
                    readable,
                ) + seq!['}']));
            }
        },
        MalType::Fn(f) => {
            push_str_chars(out, "#<");
            let name = f.name();
            push_str_chars(out, name.as_str());
            push_str_chars(out, ">");
            proof {
                assert(final(out)@ =~= old(out)@ + ("#<"@ + builtin_name(f.op) + ">"@));
            }
        },
        MalType::Lambda(ps, _, _) => {
            push_str_chars(out, "#<lambda:(");
            let n = ps.len();
            let mut i: usize = 0;
            let ghost mid = out@;
            while i < n
                invariant
                    i <= n,
                    n == ps@.len(),
                    out@ == mid + join_names_spec(strs_of(ps@).take(i as int)),
                decreases n - i,
            {
                if i > 0 {
                    out.push(' ');
                }
                push_str_chars(out, ps[i].as_str());
                proof {
                    lemma_join_names_take(strs_of(ps@), i as int);
                    if i == 0 {
                        assert(out@ =~= mid + join_names_spec(strs_of(ps@).take(1)));
                    } else {
                        assert(out@ =~= mid + (join_names_spec(strs_of(ps@).take(i as int))
                            + seq![' '] + strs_of(ps@)[i as int]));
                    }
                }
                i = i + 1;
            }
            proof {
                assert(strs_of(ps@).take(n as int) =~= strs_of(ps@));
            }
            push_str_chars(out, ")>");
            proof {
                assert(final(out)@ =~= old(out)@ + ("#<lambda:("@ + join_names_spec(strs_of(ps@))
                    + ")>"@));
            }
        },
    }
}

#[verifier::loop_isolation(false)]
fn print_items_into(items: &Vec<MalType>, readable: bool, out: &mut Vec<char>)
    ensures
        final(out)@ == old(out)@ + print_items_spec(vals_of(items@), readable),
    decreases items@, 1nat,
{
    broadcast use group_model_facts;

    let n = items.len();
    let mut i: usize = 0;
    while i < n
        invariant
            i <= n,
            n == items@.len(),
            out@ == old(out)@ + print_items_spec(vals_of(items@).take(i as int), readable),
        decreases n - i,
    {
        proof {
            assert(decreases_to!(items@ => items@[i as int]));
        }
        if i > 0 {
            out.push(' ');
        }
        print_into(&items[i], readable, out);
        proof {
            lemma_print_items_take(vals_of(items@), readable, i as int);
            if i == 0 {
                assert(out@ =~= old(out)@ + print_items_spec(vals_of(items@).take(1), readable));
            } else {
                assert(out@ =~= old(out)@ + (print_items_spec(
                    vals_of(items@).take(i as int),
                    readable,
                ) + seq![' '] + print_spec(vals_of(items@)[i as int], readable)));
            }
        }
        i = i + 1;
    }
    proof {
        assert(vals_of(items@).take(n as int) =~= vals_of(items@));
    }
}

#[verifier::loop_isolation(false)]
fn print_pairs_into(ps: &Vec<(MalType, MalType)>, readable: bool, out: &mut Vec<char>)
    ensures
        final(out)@ == old(out)@ + print_pairs_spec(pairs_of(ps@), readable),
    decreases ps@, 1nat,
{
    broadcast use group_model_facts;

    let n = ps.len();
    let mut i: usize = 0;
    while i < n
        invariant
            i <= n,
            n == ps@.len(),
            out@ == old(out)@ + print_pairs_spec(pairs_of(ps@).take(i as int), readable),
        decreases n - i,
    {
        proof {
            assert(decreases_to!(ps@ => ps@[i as int]));
            assert(decreases_to!(ps@[i as int] => ps@[i as int].0));
            assert(decreases_to!(ps@[i as int] => ps@[i as int].1));
        }
        if i > 0 {
            out.push(' ');
        }
        print_into(&ps[i].0, readable, out);
        out.push(' ');
        print_into(&ps[i].1, readable, out);
        proof {
            lemma_print_pairs_take(pairs_of(ps@), readable, i as int);
            if i == 0 {
                assert(out@ =~= old(out)@ + print_pairs_spec(pairs_of(ps@).take(1), readable));
            } else {
                assert(out@ =~= old(out)@ + (print_pairs_spec(
                    pairs_of(ps@).take(i as int),
                    readable,
                ) + seq![' '] + print_spec(pairs_of(ps@)[i as int].0, readable) + seq![' ']
                    + print_spec(pairs_of(ps@)[i as int].1, readable)));
            }
        }
        i = i + 1;
    }
    proof {
        assert(pairs_of(ps@).take(n as int) =~= pairs_of(ps@));
    }
}

/// Renders a run of values joined by single spaces.
#[verifier::loop_isolation(false)]
pub fn render_joined(args: &Vec<MalType>, readable: bool) -> (r: String)
    ensures
        r@ == print_items_spec(vals_of(args@), readable),
{
    broadcast use group_model_facts;

    let mut out: Vec<char> = Vec::new();
    let n = args.len();
    let mut i: usize = 0;
    while i < n
        invariant
            i <= n,
            n == args@.len(),
            out@ == print_items_spec(vals_of(args@).take(i as int), readable),
        decreases n - i,
    {
        if i > 0 {
            out.push(' ');
        }
        print_into(&args[i], readable, &mut out);
        proof {
            lemma_print_items_take(vals_of(args@), readable, i as int);
            if i == 0 {
                assert(out@ =~= print_items_spec(vals_of(args@).take(1), readable));
            } else {
                assert(out@ =~= print_items_spec(vals_of(args@).take(i as int), readable)
                    + seq![' '] + print_spec(vals_of(args@)[i as int], readable));
            }
        }
        i = i + 1;
    }
    proof {
        assert(vals_of(args@).take(n as int) =~= vals_of(args@));
    }
    chars_to_string(&out)
}

/// Renders a run of values with no separator.
#[verifier::loop_isolation(false)]
pub fn render_concat(args: &Vec<MalType>, readable: bool) -> (r: String)
    ensures
        r@ == print_concat_spec(vals_of(args@), readable),
{
    broadcast use group_model_facts;

    let mut out: Vec<char> = Vec::new();
    let n = args.len();
    let mut i: usize = 0;
    proof {
        assert(print_concat_spec(vals_of(args@).take(0), readable) =~= Seq::<char>::empty());
    }
    while i < n
        invariant
            i <= n,
            n == args@.len(),
            out@ == print_concat_spec(vals_of(args@).take(i as int), readable),
        decreases n - i,
    {
        print_into(&args[i], readable, &mut out);
        proof {
            lemma_print_concat_take(vals_of(args@), readable, i as int);
        }
        i = i + 1;
    }
    proof {
        assert(vals_of(args@).take(n as int) =~= vals_of(args@));
    }
    chars_to_string(&out)
}

impl MalType {
    /// The raw display rendering of a value: strings unquoted and
    /// unescaped, everything else as its canonical syntax.
    pub fn to_string(&self) -> (r: String)
        ensures
            r@ == print_spec(self@, false),
    {
        pr_str(self, false)
    }
}

/// Renders a value to its canonical surface syntax.
pub fn pr_str(v: &MalType, readable: bool) -> (r: String)
    ensures
        r@ == print_spec(v@, readable),
{
    let mut out: Vec<char> = Vec::new();
    print_into(v, readable, &mut out);
    proof {
        assert(out@ =~= print_spec(v@, readable));
    }
    chars_to_string(&out)
}

} // verus!
