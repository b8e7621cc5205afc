use mal::interp::{base_env, rep, EVAL};
use mal::reader::read_str;
use mal::types::MalType;

fn rep_ok(env: &mut mal::env::Env, out: &mut Vec<String>, line: &str) -> String {
    match rep(line, env, out) {
        Ok(s) => s,
        Err(e) => panic!("rep of {} failed: {}", line, e.message()),
    }
}

fn rep_err(env: &mut mal::env::Env, out: &mut Vec<String>, line: &str) -> String {
    match rep(line, env, out) {
        Ok(s) => panic!("rep of {} unexpectedly gave {}", line, s),
        Err(e) => e.message(),
    }
}

#[test]
fn addition_of_integers() {
    let mut env = base_env();
    let mut out: Vec<String> = Vec::new();
    assert_eq!(rep_ok(&mut env, &mut out, "(+ 1 2)"), "3");
    assert_eq!(rep_ok(&mut env, &mut out, "(- 10 4)"), "6");
    assert_eq!(rep_ok(&mut env, &mut out, "(* 6 7)"), "42");
    assert_eq!(rep_ok(&mut env, &mut out, "(/ 7 2)"), "3");
    assert_eq!(rep_ok(&mut env, &mut out, "(/ -7 2)"), "-3");
    assert_eq!(rep_ok(&mut env, &mut out, "(+ 1 (* 2 3))"), "7");
}

#[test]
fn division_by_zero_fails() {
    let mut env = base_env();
    let mut out: Vec<String> = Vec::new();
    assert_eq!(rep_err(&mut env, &mut out, "(/ 1 0)"), "Division by zero.");
}

#[test]
fn addition_overflow_fails() {
    let mut env = base_env();
    let mut out: Vec<String> = Vec::new();
    assert_eq!(
        rep_err(&mut env, &mut out, "(+ 9223372036854775807 1)"),
        "Integer overflow."
    );
}

#[test]
fn arithmetic_on_non_numbers_fails() {
    let mut env = base_env();
    let mut out: Vec<String> = Vec::new();
    assert_eq!(
        rep_err(&mut env, &mut out, "(+ 1 \"x\")"),
        "Illegal args for the arithmetic operation."
    );
}

#[test]
fn define_then_look_up() {
    let mut env = base_env();
    let mut out: Vec<String> = Vec::new();
    assert_eq!(rep_ok(&mut env, &mut out, "(def! x 5)"), "5");
    assert_eq!(rep_ok(&mut env, &mut out, "x"), "5");
    assert_eq!(rep_ok(&mut env, &mut out, "(def! x 6)"), "6");
    assert_eq!(rep_ok(&mut env, &mut out, "x"), "6");
}

#[test]
fn define_rebinds_a_primitive_without_keeping_the_alias() {
    let mut env = base_env();
    let mut out: Vec<String> = Vec::new();
    assert_eq!(rep_ok(&mut env, &mut out, "(def! plus +)"), "#<+>");
    assert_eq!(rep_ok(&mut env, &mut out, "(plus 2 3)"), "5");
    assert_eq!(rep_err(&mut env, &mut out, "+"), "'+' not found.");
}

#[test]
fn let_bindings_see_earlier_bindings() {
    let mut env = base_env();
    let mut out: Vec<String> = Vec::new();
    assert_eq!(rep_ok(&mut env, &mut out, "(let* (a 1 b (+ a 1)) (+ a b))"), "3");
}

#[test]
fn let_scope_does_not_leak() {
    let mut env = base_env();
    let mut out: Vec<String> = Vec::new();
    assert_eq!(rep_ok(&mut env, &mut out, "(let* (q 9) q)"), "9");
    assert_eq!(rep_err(&mut env, &mut out, "q"), "'q' not found.");
}

#[test]
fn let_with_odd_bindings_fails() {
    let mut env = base_env();
    let mut out: Vec<String> = Vec::new();
    assert_eq!(rep_err(&mut env, &mut out, "(let* (a) a)"), "Syntax error of 'let*'.");
}

#[test]
fn let_with_non_symbol_binding_fails() {
    let mut env = base_env();
    let mut out: Vec<String> = Vec::new();
    assert_eq!(
        rep_err(&mut env, &mut out, "(let* (1 2) 3)"),
        "List of first arg for 'let*' must be Symbols and args."
    );
}

#[test]
fn do_returns_last_form() {
    let mut env = base_env();
    let mut out: Vec<String> = Vec::new();
    assert_eq!(rep_ok(&mut env, &mut out, "(do 1 2 3)"), "3");
    assert_eq!(rep_ok(&mut env, &mut out, "(do)"), "nil");
    assert_eq!(rep_ok(&mut env, &mut out, "(do (def! d 4) d)"), "4");
}

#[test]
fn if_takes_the_right_branch() {
    let mut env = base_env();
    let mut out: Vec<String> = Vec::new();
    assert_eq!(rep_ok(&mut env, &mut out, "(if false 1 2)"), "2");
    assert_eq!(rep_ok(&mut env, &mut out, "(if nil 1)"), "nil");
    assert_eq!(rep_ok(&mut env, &mut out, "(if true 1 2)"), "1");
    assert_eq!(rep_ok(&mut env, &mut out, "(if 0 1 2)"), "1");
    assert_eq!(rep_ok(&mut env, &mut out, "(if () 1 2)"), "1");
}

#[test]
fn untaken_branch_is_never_evaluated() {
    let mut env = base_env();
    let mut out: Vec<String> = Vec::new();
    assert_eq!(rep_ok(&mut env, &mut out, "(if true 1 missing)"), "1");
    assert_eq!(rep_ok(&mut env, &mut out, "(if false missing 2)"), "2");
}

#[test]
fn closures_capture_their_defining_environment() {
    let mut env = base_env();
    let mut out: Vec<String> = Vec::new();
    assert_eq!(rep_ok(&mut env, &mut out, "((let* (a 10) (fn* (x) (+ x a))) 5)"), "15");
}

#[test]
fn later_rebinding_elsewhere_does_not_reach_an_earlier_capture() {
    let mut env = base_env();
    let mut out: Vec<String> = Vec::new();
    assert_eq!(rep_ok(&mut env, &mut out, "(def! a 1)"), "1");
    assert_eq!(rep_ok(&mut env, &mut out, "(def! f (let* (a 10) (fn* (x) (+ x a))))"), "#<lambda:(x)>");
    assert_eq!(rep_ok(&mut env, &mut out, "(def! a 100)"), "100");
    assert_eq!(rep_ok(&mut env, &mut out, "(f 5)"), "15");
}

#[test]
fn closures_see_definitions_made_before_invocation() {
    let mut env = base_env();
    let mut out: Vec<String> = Vec::new();
    assert_eq!(rep_ok(&mut env, &mut out, "(def! g (fn* (x) (+ x b)))"), "#<lambda:(x)>");
    assert_eq!(rep_ok(&mut env, &mut out, "(def! b 7)"), "7");
    assert_eq!(rep_ok(&mut env, &mut out, "(g 1)"), "8");
}

#[test]
fn variadic_parameters_bind_the_rest_as_a_list() {
    let mut env = base_env();
    let mut out: Vec<String> = Vec::new();
    assert_eq!(rep_ok(&mut env, &mut out, "((fn* (a & rest) a) 1 2 3)"), "1");
    assert_eq!(rep_ok(&mut env, &mut out, "((fn* (a & rest) rest) 1 2 3)"), "(2 3)");
    assert_eq!(rep_ok(&mut env, &mut out, "((fn* (a & rest) rest) 1)"), "()");
    assert_eq!(rep_ok(&mut env, &mut out, "((fn* (a & rest) (count rest)) 1 2 3)"), "2");
}

#[test]
fn lookup_failure_names_the_symbol() {
    let mut env = base_env();
    let mut out: Vec<String> = Vec::new();
    assert_eq!(
        rep_err(&mut env, &mut out, "undefined-symbol"),
        "'undefined-symbol' not found."
    );
}

#[test]
fn arity_failure_names_expected_and_actual() {
    let mut env = base_env();
    let mut out: Vec<String> = Vec::new();
    assert_eq!(
        rep_err(&mut env, &mut out, "((fn* (a b) a) 1)"),
        "Arity mismatch: expected 2 arguments, got 1."
    );
    assert_eq!(
        rep_err(&mut env, &mut out, "((fn* (a b) a) 1 2 3)"),
        "Arity mismatch: expected 2 arguments, got 3."
    );
    assert_eq!(rep_ok(&mut env, &mut out, "((fn* (a b) b) 1 2)"), "2");
}

#[test]
fn applying_a_non_function_fails() {
    let mut env = base_env();
    let mut out: Vec<String> = Vec::new();
    assert_eq!(rep_err(&mut env, &mut out, "(1 2)"), "1 is not a function nor a lambda.");
}

#[test]
fn comparison_primitives() {
    let mut env = base_env();
    let mut out: Vec<String> = Vec::new();
    assert_eq!(rep_ok(&mut env, &mut out, "(< 1 2)"), "true");
    assert_eq!(rep_ok(&mut env, &mut out, "(<= 2 2)"), "true");
    assert_eq!(rep_ok(&mut env, &mut out, "(> 1 2)"), "false");
    assert_eq!(rep_ok(&mut env, &mut out, "(>= 1 2)"), "false");
}

#[test]
fn equality_is_structural_and_ignores_the_bracket_kind() {
    let mut env = base_env();
    let mut out: Vec<String> = Vec::new();
    assert_eq!(rep_ok(&mut env, &mut out, "(= (list 1 2) [1 2])"), "true");
    assert_eq!(rep_ok(&mut env, &mut out, "(= 1 2)"), "false");
    assert_eq!(rep_ok(&mut env, &mut out, "(= \"a\" \"a\")"), "true");
    assert_eq!(rep_ok(&mut env, &mut out, "(= :a :a)"), "true");
    assert_eq!(rep_ok(&mut env, &mut out, "(= nil nil)"), "true");
}

#[test]
fn list_predicates_and_count() {
    let mut env = base_env();
    let mut out: Vec<String> = Vec::new();
    assert_eq!(rep_ok(&mut env, &mut out, "(list 1 2 3)"), "(1 2 3)");
    assert_eq!(rep_ok(&mut env, &mut out, "(list? (list 1))"), "true");
    assert_eq!(rep_ok(&mut env, &mut out, "(list? [1])"), "false");
    assert_eq!(rep_ok(&mut env, &mut out, "(list? 1)"), "false");
    assert_eq!(rep_ok(&mut env, &mut out, "(empty? ())"), "true");
    assert_eq!(rep_ok(&mut env, &mut out, "(empty? (list 1))"), "false");
    assert_eq!(rep_ok(&mut env, &mut out, "(empty? 5)"), "false");
    assert_eq!(rep_ok(&mut env, &mut out, "(count (list 1 2 3))"), "3");
    assert_eq!(rep_ok(&mut env, &mut out, "(count nil)"), "0");
}

#[test]
fn string_rendering_primitives() {
    let mut env = base_env();
    let mut out: Vec<String> = Vec::new();
    assert_eq!(rep_ok(&mut env, &mut out, "(pr-str \"a\" 1)"), "\"\\\"a\\\" 1\"");
    assert_eq!(rep_ok(&mut env, &mut out, "(str \"a\" 1 :k)"), "\"a1:k\"");
}

#[test]
fn prn_and_println_hand_their_lines_out() {
    let mut env = base_env();
    let mut out: Vec<String> = Vec::new();
    assert_eq!(rep_ok(&mut env, &mut out, "(prn \"a b\" 1)"), "nil");
    assert_eq!(out, vec!["\"a b\" 1"]);
    assert_eq!(rep_ok(&mut env, &mut out, "(println \"a b\" 1)"), "nil");
    assert_eq!(out, vec!["\"a b\" 1", "a b 1"]);
}

#[test]
fn vectors_and_hash_maps_evaluate_their_contents() {
    let mut env = base_env();
    let mut out: Vec<String> = Vec::new();
    assert_eq!(rep_ok(&mut env, &mut out, "[(+ 1 2) 4]"), "[3 4]");
    assert_eq!(rep_ok(&mut env, &mut out, "{:a (+ 1 2)}"), "{:a 3}");
}

#[test]
fn self_evaluating_atoms() {
    let mut env = base_env();
    let mut out: Vec<String> = Vec::new();
    assert_eq!(rep_ok(&mut env, &mut out, "7"), "7");
    assert_eq!(rep_ok(&mut env, &mut out, "\"s\""), "\"s\"");
    assert_eq!(rep_ok(&mut env, &mut out, ":kw"), ":kw");
    assert_eq!(rep_ok(&mut env, &mut out, "nil"), "nil");
    assert_eq!(rep_ok(&mut env, &mut out, "()"), "()");
}

#[test]
fn define_not_via_rep_as_the_program_startup_does() {
    let mut env = base_env();
    let mut out: Vec<String> = Vec::new();
    rep_ok(&mut env, &mut out, "(def! not (fn* (a) (if a false true)))");
    assert_eq!(rep_ok(&mut env, &mut out, "(not true)"), "false");
    assert_eq!(rep_ok(&mut env, &mut out, "(not nil)"), "true");
    assert_eq!(rep_ok(&mut env, &mut out, "(not 0)"), "false");
}

#[test]
fn evaluation_depth_is_bounded() {
    let mut env = base_env();
    let mut out: Vec<String> = Vec::new();
    let form = match read_str("((fn* (x) (x x)) (fn* (x) (x x)))") {
        Ok(v) => v,
        Err(e) => panic!("read failed: {}", e.message()),
    };
    let r = EVAL(&form, &mut env, 0, 50, &mut out);
    match r {
        Ok(_) => panic!("expected the depth limit to bite"),
        Err(e) => assert_eq!(e.message(), "Maximum evaluation depth exceeded."),
    }
}

#[test]
fn special_form_syntax_errors() {
    let mut env = base_env();
    let mut out: Vec<String> = Vec::new();
    assert_eq!(rep_err(&mut env, &mut out, "(def! x)"), "Syntax error of 'def!'.");
    assert_eq!(rep_err(&mut env, &mut out, "(def! 1 2)"), "Syntax error of 'def!'.");
    assert_eq!(rep_err(&mut env, &mut out, "(if)"), "Syntax error of 'if'.");
    assert_eq!(rep_err(&mut env, &mut out, "(fn* (a))"), "Syntax error of 'fn*'.");
    assert_eq!(rep_err(&mut env, &mut out, "(fn* (1) 2)"), "Syntax error of 'fn*'.");
}

#[test]
fn equality_primitive_needs_two_arguments() {
    let mut env = base_env();
    let mut out: Vec<String> = Vec::new();
    assert_eq!(rep_err(&mut env, &mut out, "(= 1)"), "Illegal args for the eq operation.");
    assert_eq!(rep_err(&mut env, &mut out, "(< 1)"), "Illegal args for the cmp operation.");
}

#[test]
fn the_primitive_registry_is_complete_and_ordered() {
    let table = mal::prims::ns();
    let names: Vec<String> = table.iter().map(|f| f.name()).collect();
    assert_eq!(
        names,
        vec![
            "+", "-", "*", "/", "list", "list?", "empty?", "count", "=", "<", "<=", ">", ">=",
            "pr-str", "str", "prn", "println"
        ]
    );
}

#[test]
fn scope_depth_counts_the_chain() {
    let mut env = base_env();
    assert_eq!(env.depth(0), 0);
    let child = env.push_scope(0);
    let grand = env.push_scope(child);
    assert_eq!(env.depth(child), 1);
    assert_eq!(env.depth(grand), 2);
}

#[test]
fn set_get_and_remove_work_on_one_scope() {
    let mut env = base_env();
    env.set(0, "k", MalType::True);
    let got = match env.get(0, "k") {
        Ok(v) => v,
        Err(e) => panic!("lookup failed: {}", e.message()),
    };
    assert!(matches!(got, MalType::True));
    env.remove(0, "k");
    assert!(env.get(0, "k").is_err());
}
