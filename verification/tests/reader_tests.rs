use mal::printer::pr_str;
use mal::reader::{read_str, tokenize, Reader};
use mal::types::{mal_eq, MalType, Token};

fn read_ok(s: &str) -> MalType {
    match read_str(s) {
        Ok(v) => v,
        Err(e) => panic!("read failed: {}", e.message()),
    }
}

fn read_err(s: &str) -> String {
    match read_str(s) {
        Ok(v) => panic!("read of {} unexpectedly gave {}", s, pr_str(&v, true)),
        Err(e) => e.message(),
    }
}

fn round_trip(s: &str) {
    let v1 = read_ok(s);
    let printed = pr_str(&v1, true);
    let v2 = read_ok(printed.as_str());
    assert!(mal_eq(&v1, &v2), "round trip changed the value of {}", s);
}

#[test]
fn tokenize_splits_on_whitespace_and_commas() {
    let toks = tokenize("(+ 1,,2)");
    let texts: Vec<String> = toks.iter().map(|t| t.to_string()).collect();
    assert_eq!(texts, vec!["(", "+", "1", "2", ")"]);
}

#[test]
fn tokenize_splice_unquote_is_one_token() {
    let toks = tokenize("~@(1)");
    let texts: Vec<String> = toks.iter().map(|t| t.to_string()).collect();
    assert_eq!(texts, vec!["~@", "(", "1", ")"]);
}

#[test]
fn tokenize_strings_and_comments() {
    let toks = tokenize("\"a b\" ; trailing words");
    let texts: Vec<String> = toks.iter().map(|t| t.to_string()).collect();
    assert_eq!(texts, vec!["\"a b\"", "; trailing words"]);
}

#[test]
fn read_integer() {
    let v = read_ok("42");
    assert_eq!(pr_str(&v, true), "42");
}

#[test]
fn read_negative_and_plus_signed_integers() {
    assert_eq!(pr_str(&read_ok("-7"), true), "-7");
    assert_eq!(pr_str(&read_ok("+5"), true), "5");
}

#[test]
fn read_overflowing_digits_is_a_symbol() {
    let v = read_ok("99999999999999999999");
    assert!(matches!(v, MalType::Symbol(_)));
}

#[test]
fn read_named_literals() {
    assert!(matches!(read_ok("nil"), MalType::Nil));
    assert!(matches!(read_ok("true"), MalType::True));
    assert!(matches!(read_ok("false"), MalType::False));
}

#[test]
fn read_keyword_and_symbol() {
    assert_eq!(pr_str(&read_ok(":kw"), true), ":kw");
    assert_eq!(pr_str(&read_ok("abc"), true), "abc");
}

#[test]
fn read_string_with_escapes() {
    let v = read_ok("\"a\\nb\\\\c\\\"d\"");
    match &v {
        MalType::Str(s) => assert_eq!(s.as_str(), "a\nb\\c\"d"),
        _ => panic!("expected a string"),
    }
    assert_eq!(pr_str(&v, true), "\"a\\nb\\\\c\\\"d\"");
    assert_eq!(pr_str(&v, false), "a\nb\\c\"d");
}

#[test]
fn read_unterminated_string_fails() {
    assert_eq!(read_err("\"abc"), "expected '\"', got EOF");
}

#[test]
fn read_list_and_vector() {
    assert_eq!(pr_str(&read_ok("( 1 2 3 )"), true), "(1 2 3)");
    assert_eq!(pr_str(&read_ok("[1 [2] 3]"), true), "[1 [2] 3]");
}

#[test]
fn read_hash_map_pairs_in_order() {
    assert_eq!(pr_str(&read_ok("{:a 1 :b 2}"), true), "{:a 1 :b 2}");
}

#[test]
fn read_hash_map_with_odd_elements_fails() {
    assert!(read_str("{:a}").is_err());
}

#[test]
fn read_missing_closer_fails() {
    assert_eq!(read_err("(1 2"), "expected ')', got EOF");
}

#[test]
fn read_unexpected_closer_fails() {
    assert_eq!(read_err(")"), "unexpected ')'");
}

#[test]
fn read_empty_input_fails() {
    assert_eq!(read_err("   "), "expected a form, got EOF");
}

#[test]
fn reader_macros_rewrite_to_lists() {
    assert_eq!(pr_str(&read_ok("'a"), true), "(quote a)");
    assert_eq!(pr_str(&read_ok("`a"), true), "(quasiquote a)");
    assert_eq!(pr_str(&read_ok("~a"), true), "(unquote a)");
    assert_eq!(pr_str(&read_ok("~@(1 2)"), true), "(splice-unquote (1 2))");
    assert_eq!(pr_str(&read_ok("@a"), true), "(deref a)");
}

#[test]
fn with_meta_reads_meta_first_but_places_it_last() {
    assert_eq!(pr_str(&read_ok("^{:m 1} [1 2]"), true), "(with-meta [1 2] {:m 1})");
}

#[test]
fn comments_inside_sequences_are_discarded() {
    assert_eq!(pr_str(&read_ok("(1 ; a comment\n 2)"), true), "(1 2)");
}

#[test]
fn round_trips_preserve_structure() {
    round_trip("(1 2 3)");
    round_trip("[1 [2 \"x y\"] :kw sym nil true false]");
    round_trip("\"tricky \\\\ \\\" \\n end\"");
    round_trip("(quote (a b (c)))");
    round_trip("-9223372036854775808");
    round_trip("9223372036854775807");
    round_trip("()");
    round_trip("[]");
}

#[test]
fn list_equals_vector_with_same_elements() {
    let a = read_ok("(1 2)");
    let b = read_ok("[1 2]");
    assert!(mal_eq(&a, &b));
    let c = read_ok("[1 3]");
    assert!(!mal_eq(&a, &c));
}

#[test]
fn keyword_and_symbol_differ() {
    let a = read_ok(":a");
    let b = read_ok("a");
    assert!(!mal_eq(&a, &b));
}

#[test]
fn raw_display_rendering_leaves_strings_bare() {
    let v = read_ok("(\"a b\" :k [1])");
    assert_eq!(v.to_string(), "(a b :k [1])");
    assert_eq!(pr_str(&v, true), "(\"a b\" :k [1])");
}

#[test]
fn from_token_resolves_atoms_in_priority_order() {
    let num = MalType::from_token(&Token::new("12")).unwrap_or(MalType::Nil);
    assert!(matches!(num, MalType::Num(_)));
    let s = MalType::from_token(&Token::new("\"hi\"")).unwrap_or(MalType::Nil);
    assert!(matches!(s, MalType::Str(_)));
    let k = MalType::from_token(&Token::new(":x")).unwrap_or(MalType::Nil);
    assert!(matches!(k, MalType::Keyword(_)));
    let n = MalType::from_token(&Token::new("nil")).unwrap_or(MalType::False);
    assert!(matches!(n, MalType::Nil));
    let sym = MalType::from_token(&Token::new("zzz")).unwrap_or(MalType::Nil);
    assert!(matches!(sym, MalType::Symbol(_)));
}

#[test]
fn reader_peek_does_not_advance_but_next_does() {
    let toks = tokenize("a b");
    let mut r = Reader::new(&toks);
    let p1 = r.peek().map(|t| t.to_string());
    let p2 = r.peek().map(|t| t.to_string());
    assert_eq!(p1, Some("a".to_string()));
    assert_eq!(p2, Some("a".to_string()));
    let n1 = r.next().map(|t| t.to_string());
    assert_eq!(n1, Some("a".to_string()));
    let n2 = r.next().map(|t| t.to_string());
    assert_eq!(n2, Some("b".to_string()));
    assert!(r.next().is_none());
    assert!(r.peek().is_none());
}

#[test]
fn new_vec_builds_each_collection_kind() {
    let elems = vec![read_ok("1"), read_ok("2")];
    assert_eq!(pr_str(&MalType::new_vec("list", &elems), true), "(1 2)");
    assert_eq!(pr_str(&MalType::new_vec("vec", &elems), true), "[1 2]");
    assert_eq!(pr_str(&MalType::new_vec("hashmap", &elems), true), "{1 2}");
}

#[test]
fn accessors_see_through_the_value() {
    let v = read_ok("(1 2 3)");
    assert_eq!(v.list().map(|x| x.len()), Some(3));
    assert_eq!(v.list_or_vec().map(|x| x.len()), Some(3));
    assert!(read_ok("[1]").list().is_none());
    assert!(read_ok("[1]").list_or_vec().is_some());
    assert!(read_ok("sym").symbol().is_some());
    assert!(read_ok("\"s\"").string().is_some());
    assert!(read_ok("7").num().is_some());
    assert_eq!(v.get(1).map(|x| pr_str(&x, true)), Some("2".to_string()));
    assert!(v.get(3).is_none());
}
