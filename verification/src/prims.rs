use crate::printer::{print_concat_spec, print_items_spec, render_concat, render_joined};
use crate::types::{
    clone_mals, eq_spec, group_model_facts, mal_eq, strs_of, val_wf, vals_of, Builtin, MalFunc,
    MalListVec, MalType, Number, ValModel,
};
use crate::MalError;
use vstd::prelude::*;

verus! {

broadcast use group_model_facts;

// ---------------------------------------------------------------------------
// The primitive library, specified
// ---------------------------------------------------------------------------

/// The absolute value of an integer.
pub open spec fn abs_int(a: int) -> int {
    if a < 0 {
        -a
    } else {
        a
    }
}

/// Integer division truncated toward zero, as the `/` primitive computes it.
pub open spec fn div_trunc(a: int, b: int) -> int {
    let m = abs_int(a) / abs_int(b);
    if (a < 0) <==> (b < 0) {
        m
    } else {
        -m
    }
}

/// A truth value as a runtime value.
pub open spec fn bool_val(b: bool) -> ValModel {
    if b {
        ValModel::True
    } else {
        ValModel::False
    }
}

/// A sequence length as an integer value, saturating at the largest
/// 64-bit integer.
pub open spec fn len_val(n: nat) -> int {
    if n > i64::MAX {
        i64::MAX as int
    } else {
        n as int
    }
}

/// An integer result, or an overflow error where it leaves the 64-bit range.
pub open spec fn num_or_overflow(v: int) -> Result<ValModel, Seq<char>> {
    if i64::MIN <= v <= i64::MAX {
        Ok(ValModel::Num(v))
    } else {
        Err("Integer overflow."@)
    }
}

/// What one primitive call yields: its result or error, and the lines it
/// prints.
pub open spec fn builtin_spec(op: Builtin, args: Seq<ValModel>) -> (
    Result<ValModel, Seq<char>>,
    Seq<Seq<char>>,
) {
    let no_out = Seq::<Seq<char>>::empty();
    match op {
        Builtin::Plus | Builtin::Minus | Builtin::Times | Builtin::Divide => {
            if args.len() == 2 && args[0] is Num && args[1] is Num {
                let a = args[0]->Num_0;
                let b = args[1]->Num_0;
                let r = match op {
                    Builtin::Plus => num_or_overflow(a + b),
                    Builtin::Minus => num_or_overflow(a - b),
                    Builtin::Times => num_or_overflow(a * b),
                    _ => if b == 0 {
                        Err("Division by zero."@)
                    } else {
                        num_or_overflow(div_trunc(a, b))
                    },
                };
                (r, no_out)
            } else {
                (Err("Illegal args for the arithmetic operation."@), no_out)
            }
        },
        Builtin::Less | Builtin::LessEq | Builtin::Greater | Builtin::GreaterEq => {
            if args.len() == 2 && args[0] is Num && args[1] is Num {
                let a = args[0]->Num_0;
                let b = args[1]->Num_0;
                let r = match op {
                    Builtin::Less => bool_val(a < b),
                    Builtin::LessEq => bool_val(a <= b),
                    Builtin::Greater => bool_val(a > b),
                    _ => bool_val(a >= b),
                };
                (Ok(r), no_out)
            } else {
                (Err("Illegal args for the cmp operation."@), no_out)
            }
        },
        Builtin::Equal => {
            if args.len() == 2 {
                (Ok(bool_val(eq_spec(args[0], args[1]))), no_out)
            } else {
                (Err("Illegal args for the eq operation."@), no_out)
            }
        },
        Builtin::List => (Ok(ValModel::Sequence(true, args)), no_out),
        Builtin::IsList => (
            Ok(bool_val(args.len() > 0 && args[0] matches ValModel::Sequence(true, _))),
            no_out,
        ),
        Builtin::IsEmpty => (
            Ok(
                bool_val(
                    args.len() > 0 && (args[0] matches ValModel::Sequence(_, items) && items.len()
                        == 0),
                ),
            ),
            no_out,
        ),
        Builtin::Count => (
            Ok(
                if args.len() > 0 && args[0] matches ValModel::Sequence(_, items) {
                    ValModel::Num(len_val(args[0]->Sequence_1.len()))
                } else {
                    ValModel::Num(0)
                },
            ),
            no_out,
        ),
        Builtin::PrStr => (Ok(ValModel::Str(print_items_spec(args, true))), no_out),
        Builtin::Str => (Ok(ValModel::Str(print_concat_spec(args, false))), no_out),
        Builtin::Prn => (Ok(ValModel::Nil), seq![print_items_spec(args, true)]),
        Builtin::Println => (Ok(ValModel::Nil), seq![print_items_spec(args, false)]),
    }
}

// ---------------------------------------------------------------------------
// The primitive library, executable
// ---------------------------------------------------------------------------

fn two_nums(args: &Vec<MalType>) -> (r: Option<(i64, i64)>)
    ensures
        match r {
            Some((a, b)) => vals_of(args@).len() == 2 && vals_of(args@)[0] == ValModel::Num(
                a as int,
            ) && vals_of(args@)[1] == ValModel::Num(b as int),
            None => !(vals_of(args@).len() == 2 && vals_of(args@)[0] is Num && vals_of(
                args@,
            )[1] is Num),
        },
{
    if args.len() != 2 {
        return None;
    }
    match (&args[0], &args[1]) {
        (MalType::Num(Number::Int(a)), MalType::Num(Number::Int(b))) => Some((*a, *b)),
        _ => {
            proof {
                assert(vals_of(args@)[0] == args@[0]@);
                assert(vals_of(args@)[1] == args@[1]@);
            }
            None
        },
    }
}

/// The four arithmetic primitives.
#[verifier::rlimit(60)]
fn arith_builtin(op: Builtin, args: &Vec<MalType>) -> (r: Result<MalType, MalError>)
    requires
        op == Builtin::Plus || op == Builtin::Minus || op == Builtin::Times || op
            == Builtin::Divide,
    ensures
        match (r, builtin_spec(op, vals_of(args@)).0) {
            (Ok(v), Ok(m)) => v@ == m,
            (Err(e), Err(m)) => e@ == m,
            _ => false,
        },
        builtin_spec(op, vals_of(args@)).1 == Seq::<Seq<char>>::empty(),
{
    let ghost vargs = vals_of(args@);
    let (a, b) = match two_nums(args) {
        Some(p) => p,
        None => {
            proof {
                assert(builtin_spec(op, vargs).0 == Err::<ValModel, Seq<char>>(
                    "Illegal args for the arithmetic operation."@,
                ));
            }
            return Err(MalError::new("Illegal args for the arithmetic operation."));
        },
    };
    let wide: i128 = match op {
        Builtin::Plus => (a as i128) + (b as i128),
        Builtin::Minus => (a as i128) - (b as i128),
        Builtin::Times => {
            proof {
                assert((a as int) * (b as int) <= 0x40000000000000000000000000000000int && (
                a as int) * (b as int) >= -0x40000000000000000000000000000000int)
                    by (nonlinear_arith)
                    requires
                        -0x8000000000000000 <= a as int <= 0x7FFFFFFFFFFFFFFF,
                        -0x8000000000000000 <= b as int <= 0x7FFFFFFFFFFFFFFF,
                ;
            }
            (a as i128) * (b as i128)
        },
        _ => {
            if b == 0 {
                proof {
                    assert(builtin_spec(op, vargs).0 == Err::<ValModel, Seq<char>>(
                        "Division by zero."@,
                    ));
                }
                return Err(MalError::new("Division by zero."));
            }
            let am: u64 = if a >= 0 {
                a as u64
            } else {
                (-(a as i128)) as u64
            };
            let bm: u64 = if b >= 0 {
                b as u64
            } else {
                (-(b as i128)) as u64
            };
            let m: u64 = am / bm;
            proof {
                assert(am as int == abs_int(a as int));
                assert(bm as int == abs_int(b as int));
                assert(m as int == abs_int(a as int) / abs_int(b as int));
            }
            if (a < 0) == (b < 0) {
                m as i128
            } else {
                -(m as i128)
            }
        },
    };
    if wide < i64::MIN as i128 || wide > i64::MAX as i128 {
        proof {
            assert(builtin_spec(op, vargs).0 == Err::<ValModel, Seq<char>>("Integer overflow."@));
        }
        return Err(MalError::new("Integer overflow."));
    }
    let v = MalType::Num(Number::Int(wide as i64));
    proof {
        assert(builtin_spec(op, vargs).0 is Ok);
        assert(builtin_spec(op, vargs).0->Ok_0 == ValModel::Num(wide as int));
        assert((wide as i64) as int == wide as int);
        assert(v@ == ValModel::Num(wide as int));
    }
    Ok(v)
}

/// Applies one primitive to evaluated arguments; `prn` and `println` hand
/// their rendered line to `out` rather than writing it themselves.
#[verifier::rlimit(100)]
#[verifier::spinoff_prover]
pub fn apply_builtin(op: Builtin, args: &Vec<MalType>, out: &mut Vec<String>) -> (r: Result<
    MalType,
    MalError,
>)
    ensures
        strs_of(final(out)@) == strs_of(old(out)@) + builtin_spec(op, vals_of(args@)).1,
        match (r, builtin_spec(op, vals_of(args@)).0) {
            (Ok(v), Ok(m)) => v@ == m,
            (Err(e), Err(m)) => e@ == m,
            _ => false,
        },
{
    let ghost vargs = vals_of(args@);
    match op {
        Builtin::Plus | Builtin::Minus | Builtin::Times | Builtin::Divide => {
            proof {
                assert(strs_of(out@) =~= strs_of(old(out)@) + Seq::<Seq<char>>::empty());
            }
            arith_builtin(op, args)
        },
        Builtin::Less | Builtin::LessEq | Builtin::Greater | Builtin::GreaterEq => {
            proof {
                assert(strs_of(out@) =~= strs_of(old(out)@) + Seq::<Seq<char>>::empty());
            }
            let (a, b) = match two_nums(args) {
                Some(p) => p,
                None => {
                    return Err(MalError::new("Illegal args for the cmp operation."));
                },
            };
            let r = match op {
                Builtin::Less => a < b,
                Builtin::LessEq => a <= b,
                Builtin::Greater => a > b,
                _ => a >= b,
            };
            Ok(
                if r {
                    MalType::True
                } else {
                    MalType::False
                },
            )
        },
        Builtin::Equal => {
            proof {
                assert(strs_of(out@) =~= strs_of(old(out)@) + Seq::<Seq<char>>::empty());
            }
            if args.len() != 2 {
                return Err(MalError::new("Illegal args for the eq operation."));
            }
            proof {
                assert(vargs[0] == args@[0]@);
                assert(vargs[1] == args@[1]@);
            }
            let r = mal_eq(&args[0], &args[1]);
            Ok(
                if r {
                    MalType::True
                } else {
                    MalType::False
                },
            )
        },
        Builtin::List => {
            proof {
                assert(strs_of(out@) =~= strs_of(old(out)@) + Seq::<Seq<char>>::empty());
            }
            Ok(MalType::ListVec(MalListVec(true, clone_mals(args))))
        },
        Builtin::IsList => {
            proof {
                assert(strs_of(out@) =~= strs_of(old(out)@) + Seq::<Seq<char>>::empty());
                if args@.len() > 0 {
                    assert(vargs[0] == args@[0]@);
                }
            }
            let r = args.len() > 0 && (match &args[0] {
                MalType::ListVec(lv) => lv.0,
                _ => false,
            });
            Ok(
                if r {
                    MalType::True
                } else {
                    MalType::False
                },
            )
        },
        Builtin::IsEmpty => {
            proof {
                assert(strs_of(out@) =~= strs_of(old(out)@) + Seq::<Seq<char>>::empty());
                if args@.len() > 0 {
                    assert(vargs[0] == args@[0]@);
                }
            }
            let r = args.len() > 0 && (match &args[0] {
                MalType::ListVec(lv) => lv.1.len() == 0,
                _ => false,
            });
            Ok(
                if r {
                    MalType::True
                } else {
                    MalType::False
                },
            )
        },
        Builtin::Count => {
            proof {
                assert(strs_of(out@) =~= strs_of(old(out)@) + Seq::<Seq<char>>::empty());
                if args@.len() > 0 {
                    assert(vargs[0] == args@[0]@);
                }
            }
            if args.len() > 0 {
                match args[0].list_or_vec() {
                    Some(items) => {
                        let n = items.len();
                        proof {
                            assert(vals_of(items@).len() == items@.len());
                        }
                        let v: i64 = if (n as u64) > (i64::MAX as u64) {
                            i64::MAX
                        } else {
                            n as i64
                        };
                        proof {
                            assert(v as int == len_val(vals_of(items@).len()));
                            assert(vargs[0]->Sequence_1 == vals_of(items@));
                            assert(builtin_spec(op, vargs).0 == Ok::<ValModel, Seq<char>>(
                                ValModel::Num(len_val(vargs[0]->Sequence_1.len())),
                            ));
                        }
                        Ok(MalType::Num(Number::Int(v)))
                    },
                    None => Ok(MalType::Num(Number::Int(0))),
                }
            } else {
                Ok(MalType::Num(Number::Int(0)))
            }
        },
        Builtin::PrStr => {
            proof {
                assert(strs_of(out@) =~= strs_of(old(out)@) + Seq::<Seq<char>>::empty());
            }
            Ok(MalType::Str(render_joined(args, true)))
        },
        Builtin::Str => {
            proof {
                assert(strs_of(out@) =~= strs_of(old(out)@) + Seq::<Seq<char>>::empty());
            }
            Ok(MalType::Str(render_concat(args, false)))
        },
        Builtin::Prn => {
            let line = render_joined(args, true);
            let ghost old_out = out@;
            out.push(line);
            proof {
                assert(out@.drop_last() =~= old_out);
                crate::types::lemma_strs_of_snoc(out@);
                assert(strs_of(out@) =~= strs_of(old_out) + seq![print_items_spec(vargs, true)]);
            }
            Ok(MalType::Nil)
        },
        Builtin::Println => {
            let line = render_joined(args, false);
            let ghost old_out = out@;
            out.push(line);
            proof {
                assert(out@.drop_last() =~= old_out);
                crate::types::lemma_strs_of_snoc(out@);
                assert(strs_of(out@) =~= strs_of(old_out) + seq![print_items_spec(vargs, false)]);
            }
            Ok(MalType::Nil)
        },
    }
}

/// A primitive's result is well formed whenever its arguments are: no
/// primitive fabricates a closure.
pub proof fn lemma_builtin_wf(op: Builtin, args: Seq<ValModel>, n: int)
    requires
        forall|i: int| 0 <= i < args.len() ==> val_wf(#[trigger] args[i], n),
    ensures
        builtin_spec(op, args).0 is Ok ==> val_wf(builtin_spec(op, args).0->Ok_0, n),
{
    let r = builtin_spec(op, args).0;
    match op {
        Builtin::List => {
            crate::types::lemma_vals_wf_intro(args, n);
            assert(val_wf(ValModel::Sequence(true, args), n));
        },
        _ => {
            if r is Ok {
                assert(val_wf(r->Ok_0, n));
            }
        },
    }
}

/// The fixed table of primitives, in the order they are installed.
pub open spec fn builtin_table() -> Seq<Builtin> {
    seq![
        Builtin::Plus,
        Builtin::Minus,
        Builtin::Times,
        Builtin::Divide,
        Builtin::List,
        Builtin::IsList,
        Builtin::IsEmpty,
        Builtin::Count,
        Builtin::Equal,
        Builtin::Less,
        Builtin::LessEq,
        Builtin::Greater,
        Builtin::GreaterEq,
        Builtin::PrStr,
        Builtin::Str,
        Builtin::Prn,
        Builtin::Println,
    ]
}

/// The primitive-function registry, in installation order.
pub fn ns() -> (r: Vec<MalFunc>)
    ensures
        r@.len() == builtin_table().len(),
        forall|i: int| 0 <= i < r@.len() ==> (#[trigger] r@[i]).op == builtin_table()[i],
{
    let mut r: Vec<MalFunc> = Vec::new();
    r.push(MalFunc::new(Builtin::Plus));
    r.push(MalFunc::new(Builtin::Minus));
    r.push(MalFunc::new(Builtin::Times));
    r.push(MalFunc::new(Builtin::Divide));
    r.push(MalFunc::new(Builtin::List));
    r.push(MalFunc::new(Builtin::IsList));
    r.push(MalFunc::new(Builtin::IsEmpty));
    r.push(MalFunc::new(Builtin::Count));
    r.push(MalFunc::new(Builtin::Equal));
    r.push(MalFunc::new(Builtin::Less));
    r.push(MalFunc::new(Builtin::LessEq));
    r.push(MalFunc::new(Builtin::Greater));
    r.push(MalFunc::new(Builtin::GreaterEq));
    r.push(MalFunc::new(Builtin::PrStr));
    r.push(MalFunc::new(Builtin::Str));
    r.push(MalFunc::new(Builtin::Prn));
    r.push(MalFunc::new(Builtin::Println));
    r
}

} // verus!
