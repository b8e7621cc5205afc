use crate::text::{
    chars_of_str, chars_to_string, parse_i64, parse_int_spec, str_eq, unescape, unescape_spec,
};
use crate::types::{pair_up, vals_of, MalListVec, MalType, Number, Token, ValModel};
use crate::MalError;
use vstd::prelude::*;

verus! {

// ---------------------------------------------------------------------------
// Tokenizing, specified
// ---------------------------------------------------------------------------

/// Whitespace for the tokenizer; commas count as whitespace.
pub open spec fn is_ws(c: char) -> bool {
    c == ' ' || c == '\t' || c == '\n' || c == '\r' || c == '\u{b}' || c == '\u{c}' || c == ','
}

/// The characters that form one-character tokens (with `~@` the one
/// two-character token).
pub open spec fn is_special(c: char) -> bool {
    c == '(' || c == ')' || c == '[' || c == ']' || c == '{' || c == '}' || c == '\'' || c == '`'
        || c == '~' || c == '^' || c == '@'
}

/// The characters that end a bare atom.
pub open spec fn is_atom_end(c: char) -> bool {
    is_ws(c) || c == '(' || c == ')' || c == '[' || c == ']' || c == '{' || c == '}' || c == '\''
        || c == '"' || c == '`' || c == ';'
}

/// How many characters a string token spans after its opening quote:
/// escape pairs and plain characters up to and including the closing
/// quote, or up to the end of input when unterminated.
pub open spec fn string_body_len(s: Seq<char>) -> int
    decreases s.len(),
{
    if s.len() == 0 {
        0
    } else if s[0] == '"' {
        1
    } else if s[0] == '\\' {
        if s.len() == 1 {
            1
        } else {
            2 + string_body_len(s.skip(2))
        }
    } else {
        1 + string_body_len(s.skip(1))
    }
}

/// How many characters a comment spans after its semicolon: everything up
/// to, but not including, the next newline.
pub open spec fn comment_len(s: Seq<char>) -> int
    decreases s.len(),
{
    if s.len() == 0 {
        0
    } else if s[0] == '\n' {
        0
    } else {
        1 + comment_len(s.skip(1))
    }
}

/// How many characters a bare atom spans.
pub open spec fn atom_len(s: Seq<char>) -> int
    decreases s.len(),
{
    if s.len() == 0 {
        0
    } else if is_atom_end(s[0]) {
        0
    } else {
        1 + atom_len(s.skip(1))
    }
}

proof fn lemma_atom_len_nonneg(s: Seq<char>)
    ensures
        atom_len(s) >= 0,
    decreases s.len(),
{
    if s.len() > 0 && !is_atom_end(s[0]) {
        lemma_atom_len_nonneg(s.skip(1));
    }
}

/// The length of the token starting at the head of `s`, which must not be
/// whitespace.
pub open spec fn token_len(s: Seq<char>) -> int {
    if s.len() >= 2 && s[0] == '~' && s[1] == '@' {
        2
    } else if is_special(s[0]) {
        1
    } else if s[0] == '"' {
        1 + string_body_len(s.skip(1))
    } else if s[0] == ';' {
        1 + comment_len(s.skip(1))
    } else {
        atom_len(s)
    }
}

/// The token texts of an input, in order; whitespace and commas separate
/// tokens and are dropped.
pub open spec fn tokenize_spec(s: Seq<char>) -> Seq<Seq<char>>
    decreases s.len(),
{
    if s.len() == 0 {
        Seq::empty()
    } else if is_ws(s[0]) {
        tokenize_spec(s.skip(1))
    } else {
        let l = token_len(s);
        if 1 <= l <= s.len() {
            seq![s.take(l)] + tokenize_spec(s.skip(l))
        } else {
            Seq::empty()
        }
    }
}

/// The texts of a run of tokens.
pub open spec fn toks_of(s: Seq<Token>) -> Seq<Seq<char>>
    decreases s.len(),
{
    if s.len() == 0 {
        Seq::empty()
    } else {
        toks_of(s.drop_last()).push(s.last()@)
    }
}

proof fn lemma_toks_of_len_ind(s: Seq<Token>)
    ensures
        toks_of(s).len() == s.len(),
    decreases s.len(),
{
    if s.len() > 0 {
        lemma_toks_of_len_ind(s.drop_last());
    }
}

proof fn lemma_toks_of_index_ind(s: Seq<Token>, i: int)
    requires
        0 <= i < s.len(),
    ensures
        toks_of(s)[i] == s[i]@,
    decreases s.len(),
{
    lemma_toks_of_len_ind(s);
    if s.len() > 0 {
        lemma_toks_of_len_ind(s.drop_last());
        if i < s.len() - 1 {
            lemma_toks_of_index_ind(s.drop_last(), i);
        }
    }
}

pub broadcast proof fn lemma_toks_of_len(s: Seq<Token>)
    ensures
        #[trigger] toks_of(s).len() == s.len(),
{
    lemma_toks_of_len_ind(s);
}

pub broadcast proof fn lemma_toks_of_index(s: Seq<Token>, i: int)
    requires
        0 <= i < s.len(),
    ensures
        #[trigger] toks_of(s)[i] == s[i]@,
{
    lemma_toks_of_index_ind(s, i);
}

pub broadcast group group_reader_facts {
    lemma_toks_of_len,
    lemma_toks_of_index,
}

// ---------------------------------------------------------------------------
// Tokenizing, executable
// ---------------------------------------------------------------------------

fn scan_string_body(cs: &Vec<char>, i: usize) -> (l: usize)
    requires
        i <= cs@.len(),
    ensures
        l == string_body_len(cs@.skip(i as int)),
        i + l <= cs@.len(),
    decreases cs@.len() - i,
{
    if i >= cs.len() {
        0
    } else {
        proof {
            assert(cs@.skip(i as int)[0] == cs@[i as int]);
        }
        let c = cs[i];
        if c == '"' {
            1
        } else if c == '\\' {
            if i + 1 >= cs.len() {
                assert(cs@.skip(i as int).len() == 1);
                1
            } else {
                proof {
                    assert(cs@.skip(i as int).skip(2) =~= cs@.skip(i + 2));
                }
                2 + scan_string_body(cs, i + 2)
            }
        } else {
            proof {
                assert(cs@.skip(i as int).skip(1) =~= cs@.skip(i + 1));
            }
            1 + scan_string_body(cs, i + 1)
        }
    }
}

fn scan_comment(cs: &Vec<char>, i: usize) -> (l: usize)
    requires
        i <= cs@.len(),
    ensures
        l == comment_len(cs@.skip(i as int)),
        i + l <= cs@.len(),
    decreases cs@.len() - i,
{
    if i >= cs.len() {
        0
    } else {
        proof {
            assert(cs@.skip(i as int)[0] == cs@[i as int]);
            assert(cs@.skip(i as int).skip(1) =~= cs@.skip(i + 1));
        }
        if cs[i] == '\n' {
            0
        } else {
            1 + scan_comment(cs, i + 1)
        }
    }
}

fn is_atom_end_exec(c: char) -> (r: bool)
    ensures
        r == is_atom_end(c),
{
    c == ' ' || c == '\t' || c == '\n' || c == '\r' || c == '\u{b}' || c == '\u{c}' || c == ','
        || c == '(' || c == ')' || c == '[' || c == ']' || c == '{' || c == '}' || c == '\'' || c
        == '"' || c == '`' || c == ';'
}

fn scan_atom(cs: &Vec<char>, i: usize) -> (l: usize)
    requires
        i <= cs@.len(),
    ensures
        l == atom_len(cs@.skip(i as int)),
        i + l <= cs@.len(),
    decreases cs@.len() - i,
{
    if i >= cs.len() {
        0
    } else {
        proof {
            assert(cs@.skip(i as int)[0] == cs@[i as int]);
            assert(cs@.skip(i as int).skip(1) =~= cs@.skip(i + 1));
        }
        if is_atom_end_exec(cs[i]) {
            0
        } else {
            1 + scan_atom(cs, i + 1)
        }
    }
}

#[verifier::loop_isolation(false)]
fn copy_range(cs: &Vec<char>, i: usize, l: usize) -> (r: Vec<char>)
    requires
        i + l <= cs@.len(),
    ensures
        r@ == cs@.subrange(i as int, i + l),
{
    let n = cs.len();
    let mut r: Vec<char> = Vec::new();
    let mut k: usize = 0;
    while k < l
        invariant
            k <= l,
            n == cs@.len(),
            i + l <= cs@.len(),
            r@ == cs@.subrange(i as int, i + k),
        decreases l - k,
    {
        r.push(cs[i + k]);
        proof {
            assert(cs@.subrange(i as int, i + k).push(cs@[i + k]) =~= cs@.subrange(
                i as int,
                i + k + 1,
            ));
        }
        k = k + 1;
    }
    r
}

/// Splits an input into its tokens, in order.
#[verifier::loop_isolation(false)]
pub fn tokenize(s: &str) -> (r: Vec<Token>)
    ensures
        toks_of(r@) == tokenize_spec(s@),
{
    broadcast use group_reader_facts;

    let cs = chars_of_str(s);
    let n = cs.len();
    let mut r: Vec<Token> = Vec::new();
    let mut i: usize = 0;
    proof {
        assert(cs@.skip(0) =~= cs@);
        assert(toks_of(r@) =~= Seq::<Seq<char>>::empty());
    }
    while i < n
        invariant
            i <= n,
            toks_of(r@) + tokenize_spec(cs@.skip(i as int)) == tokenize_spec(cs@),
        decreases n - i,
    {
        let c = cs[i];
        proof {
            assert(cs@.skip(i as int)[0] == cs@[i as int]);
        }
        if c == ' ' || c == '\t' || c == '\n' || c == '\r' || c == '\u{b}' || c == '\u{c}' || c
            == ',' {
            proof {
                assert(cs@.skip(i as int).skip(1) =~= cs@.skip(i + 1));
            }
            i = i + 1;
        } else {
            let l: usize = if c == '~' && i + 1 < n && cs[i + 1] == '@' {
                proof {
                    assert(cs@.skip(i as int)[1] == cs@[i + 1]);
                }
                2
            } else if c == '(' || c == ')' || c == '[' || c == ']' || c == '{' || c == '}' || c
                == '\'' || c == '`' || c == '~' || c == '^' || c == '@' {
                1
            } else if c == '"' {
                proof {
                    assert(cs@.skip(i as int).skip(1) =~= cs@.skip(i + 1));
                }
                1 + scan_string_body(&cs, i + 1)
            } else if c == ';' {
                proof {
                    assert(cs@.skip(i as int).skip(1) =~= cs@.skip(i + 1));
                }
                1 + scan_comment(&cs, i + 1)
            } else {
                let la = scan_atom(&cs, i);
                proof {
                    assert(!is_atom_end(cs@[i as int]));
                    assert(cs@.skip(i as int).skip(1) =~= cs@.skip(i + 1));
                    assert(atom_len(cs@.skip(i as int)) == 1 + atom_len(cs@.skip(i + 1)));
                    lemma_atom_len_nonneg(cs@.skip(i + 1));
                }
                la
            };
            proof {
                assert(l == token_len(cs@.skip(i as int)));
                assert(1 <= l <= cs@.skip(i as int).len());
            }
            let tok_chars = copy_range(&cs, i, l);
            let ghost old_r = r@;
            let t = Token(chars_to_string(&tok_chars));
            r.push(t);
            proof {
                assert(toks_of(r@) =~= toks_of(old_r).push(cs@.subrange(i as int, i + l)));
                assert(cs@.skip(i as int).take(l as int) =~= cs@.subrange(i as int, i + l));
                assert(cs@.skip(i as int).skip(l as int) =~= cs@.skip(i + l));
                assert(toks_of(r@) + tokenize_spec(cs@.skip(i + l)) =~= toks_of(old_r) + (seq![
                    cs@.skip(i as int).take(l as int),
                ] + tokenize_spec(cs@.skip(i as int).skip(l as int))));
            }
            i = i + l;
        }
    }
    proof {
        assert(cs@.skip(n as int).len() == 0);
        assert(toks_of(r@) + tokenize_spec(cs@.skip(n as int)) =~= toks_of(r@));
    }
    r
}

// ---------------------------------------------------------------------------
// Atom resolution
// ---------------------------------------------------------------------------

/// Whether the characters after a string token's opening quote form a
/// properly terminated string body.
pub open spec fn string_closed(s: Seq<char>) -> bool
    decreases s.len(),
{
    if s.len() == 0 {
        false
    } else if s[0] == '"' {
        s.len() == 1
    } else if s[0] == '\\' {
        s.len() >= 2 && string_closed(s.skip(2))
    } else {
        string_closed(s.skip(1))
    }
}

/// The value denoted by one non-delimiter token: a comment, an integer, a
/// string (or an unterminated-string error), a keyword, a named literal,
/// or a symbol, tried in that order.
pub open spec fn atom_of(t: Seq<char>) -> Result<ValModel, Seq<char>> {
    if t.len() > 0 && t[0] == ';' {
        Ok(ValModel::Comment)
    } else if parse_int_spec(t) is Some {
        Ok(ValModel::Num(parse_int_spec(t)->Some_0))
    } else if t.len() > 0 && t[0] == '"' {
        if string_closed(t.skip(1)) {
            Ok(ValModel::Str(unescape_spec(t.subrange(1, t.len() - 1))))
        } else {
            Err("expected '\"', got EOF"@)
        }
    } else if t.len() > 0 && t[0] == ':' {
        Ok(ValModel::Keyword(t.skip(1)))
    } else if t == "nil"@ {
        Ok(ValModel::Nil)
    } else if t == "true"@ {
        Ok(ValModel::True)
    } else if t == "false"@ {
        Ok(ValModel::False)
    } else {
        Ok(ValModel::Symbol(t))
    }
}

fn string_closed_exec(cs: &Vec<char>, i: usize) -> (r: bool)
    requires
        i <= cs@.len(),
    ensures
        r == string_closed(cs@.skip(i as int)),
    decreases cs@.len() - i,
{
    if i >= cs.len() {
        false
    } else {
        proof {
            assert(cs@.skip(i as int)[0] == cs@[i as int]);
            assert(cs@.skip(i as int).skip(1) =~= cs@.skip(i + 1));
        }
        let c = cs[i];
        if c == '"' {
            i + 1 == cs.len()
        } else if c == '\\' {
            if i + 1 >= cs.len() {
                false
            } else {
                proof {
                    assert(cs@.skip(i as int).skip(2) =~= cs@.skip(i + 2));
                }
                string_closed_exec(cs, i + 2)
            }
        } else {
            string_closed_exec(cs, i + 1)
        }
    }
}

impl MalType {
    /// Resolves one non-delimiter token to the value it denotes.
    pub fn from_token(token: &Token) -> (r: Result<MalType, MalError>)
        ensures
            match r {
                Ok(v) => atom_of(token@) is Ok && v@ == atom_of(token@)->Ok_0,
                Err(e) => atom_of(token@) is Err && e@ == atom_of(token@)->Err_0,
            },
    {
        let cs = chars_of_str(token.0.as_str());
        if cs.len() > 0 && cs[0] == ';' {
            return Ok(MalType::Comment);
        }
        match parse_i64(&cs) {
            Some(i) => {
                return Ok(MalType::Num(Number::Int(i)));
            },
            None => {},
        }
        if cs.len() > 0 && cs[0] == '"' {
            if string_closed_exec(&cs, 1) {
                proof {
                    if cs@.len() < 2 {
                        assert(!string_closed(cs@.skip(1)));
                    }
                }
                let body = copy_range(&cs, 1, cs.len() - 2);
                let un = unescape(&body);
                proof {
                    assert(cs@.subrange(1, cs@.len() as int - 1) =~= body@);
                }
                return Ok(MalType::Str(chars_to_string(&un)));
            } else {
                return Err(MalError::new("expected '\"', got EOF"));
            }
        }
        if cs.len() > 0 && cs[0] == ':' {
            let rest = copy_range(&cs, 1, cs.len() - 1);
            proof {
                assert(cs@.skip(1) =~= rest@);
            }
            return Ok(MalType::Keyword(chars_to_string(&rest)));
        }
        if str_eq(token.0.as_str(), "nil") {
            return Ok(MalType::Nil);
        }
        if str_eq(token.0.as_str(), "true") {
            return Ok(MalType::True);
        }
        if str_eq(token.0.as_str(), "false") {
            return Ok(MalType::False);
        }
        Ok(MalType::Symbol(token.to_string()))
    }
}

// ---------------------------------------------------------------------------
// Parsing, specified
// ---------------------------------------------------------------------------

/// The error message for a missing closing delimiter.
pub open spec fn missing_closer_msg(closer: Seq<char>) -> Seq<char> {
    "expected '"@ + closer + "', got EOF"@
}

/// The error message for an unexpected closing delimiter.
pub open spec fn unexpected_msg(t: Seq<char>) -> Seq<char> {
    "unexpected '"@ + t + "'"@
}

/// The error message when no form is left to read.
pub open spec fn no_form_msg() -> Seq<char> {
    "expected a form, got EOF"@
}

/// The error message for a curly-brace form with an odd number of elements.
pub open spec fn odd_map_msg() -> Seq<char> {
    "expected an even number of forms in a hash-map"@
}

/// Reads one form from the token stream starting at `i`; gives the form
/// (or a read error) and the position after it.
pub open spec fn parse_form(toks: Seq<Seq<char>>, i: int) -> (Result<ValModel, Seq<char>>, int)
    decreases toks.len() - i, 1nat,
{
    if !(0 <= i < toks.len()) {
        (Err(no_form_msg()), i)
    } else {
        let t = toks[i];
        if t == "'"@ {
            parse_wrap(toks, i, "quote"@)
        } else if t == "`"@ {
            parse_wrap(toks, i, "quasiquote"@)
        } else if t == "~"@ {
            parse_wrap(toks, i, "unquote"@)
        } else if t == "~@"@ {
            parse_wrap(toks, i, "splice-unquote"@)
        } else if t == "@"@ {
            parse_wrap(toks, i, "deref"@)
        } else if t == "^"@ {
            let (rm, j) = parse_form(toks, i + 1);
            match rm {
                Err(m) => (Err(m), j),
                Ok(meta) => if j <= i + 1 || j > toks.len() {
                    (Err(no_form_msg()), j)
                } else {
                    let (rf, k) = parse_form(toks, j);
                    match rf {
                        Err(m) => (Err(m), k),
                        Ok(f) => (
                            Ok(
                                ValModel::Sequence(
                                    true,
                                    seq![ValModel::Symbol("with-meta"@), f, meta],
                                ),
                            ),
                            k,
                        ),
                    }
                },
            }
        } else if t == "("@ {
            let (rs, k) = parse_seq(toks, i + 1, ")"@);
            match rs {
                Err(m) => (Err(m), k),
                Ok(items) => (Ok(ValModel::Sequence(true, items)), k),
            }
        } else if t == "["@ {
            let (rs, k) = parse_seq(toks, i + 1, "]"@);
            match rs {
                Err(m) => (Err(m), k),
                Ok(items) => (Ok(ValModel::Sequence(false, items)), k),
            }
        } else if t == "{"@ {
            let (rs, k) = parse_seq(toks, i + 1, "}"@);
            match rs {
                Err(m) => (Err(m), k),
                Ok(items) => if items.len() % 2 == 0 {
                    (Ok(ValModel::Hashmap(pair_up(items))), k)
                } else {
                    (Err(odd_map_msg()), k)
                },
            }
        } else if t == ")"@ || t == "]"@ || t == "}"@ {
            (Err(unexpected_msg(t)), i)
        } else {
            (
                match atom_of(t) {
                    Ok(v) => Ok(v),
                    Err(m) => Err(m),
                },
                i + 1,
            )
        }
    }
}

/// Reads one reader-macro form: the macro token, then one form, rewritten
/// to a two-element list headed by the given symbol.
pub open spec fn parse_wrap(toks: Seq<Seq<char>>, i: int, sym: Seq<char>) -> (
    Result<ValModel, Seq<char>>,
    int,
)
    decreases toks.len() - i, 0nat,
{
    if !(0 <= i && i + 1 <= toks.len()) {
        (Err(no_form_msg()), i + 1)
    } else {
        let (r, j) = parse_form(toks, i + 1);
        match r {
            Err(m) => (Err(m), j),
            Ok(v) => (Ok(ValModel::Sequence(true, seq![ValModel::Symbol(sym), v])), j),
        }
    }
}

/// Reads forms until the closing delimiter; comments are discarded.
pub open spec fn parse_seq(toks: Seq<Seq<char>>, i: int, closer: Seq<char>) -> (
    Result<Seq<ValModel>, Seq<char>>,
    int,
)
    decreases toks.len() - i, 2nat,
{
    if !(0 <= i < toks.len()) {
        (Err(missing_closer_msg(closer)), i)
    } else if toks[i] == closer {
        (Ok(Seq::empty()), i + 1)
    } else {
        let (r, j) = parse_form(toks, i);
        match r {
            Err(m) => (Err(m), j),
            Ok(v) => if j <= i || j > toks.len() {
                (Err(missing_closer_msg(closer)), j)
            } else {
                let (rs, k) = parse_seq(toks, j, closer);
                match rs {
                    Err(m) => (Err(m), k),
                    Ok(items) => (
                        Ok(
                            if v is Comment {
                                items
                            } else {
                                seq![v] + items
                            },
                        ),
                        k,
                    ),
                }
            },
        }
    }
}

/// What reading an input yields: the first form of its token stream.
pub open spec fn read_spec(s: Seq<char>) -> Result<ValModel, Seq<char>> {
    parse_form(tokenize_spec(s), 0).0
}

// ---------------------------------------------------------------------------
// Parsing, executable
// ---------------------------------------------------------------------------

/// The model of a reader: the token texts and the current position.
pub struct ReaderModel {
    pub toks: Seq<Seq<char>>,
    pub pos: int,
}

/// A stream of tokens with one position of lookahead.
pub struct Reader {
    tokens: Vec<Token>,
    pos: usize,
}

impl View for Reader {
    type V = ReaderModel;

    closed spec fn view(&self) -> ReaderModel {
        ReaderModel { toks: toks_of(self.tokens@), pos: self.pos as int }
    }
}

impl Reader {
    /// A reader over the given tokens, starting at the first.
    pub fn new(tokens: &Vec<Token>) -> (r: Reader)
        ensures
            r@.toks == toks_of(tokens@),
            r@.pos == 0,
    {
        broadcast use group_reader_facts;

        let mut copy: Vec<Token> = Vec::new();
        let mut i: usize = 0;
        while i < tokens.len()
            invariant
                i <= tokens@.len(),
                copy@.len() == i,
                forall|j: int| 0 <= j < i ==> #[trigger] copy@[j]@ == tokens@[j]@,
            decreases tokens@.len() - i,
        {
            copy.push(tokens[i].clone());
            i = i + 1;
        }
        let r = Reader { tokens: copy, pos: 0 };
        proof {
            assert forall|j: int| 0 <= j < toks_of(copy@).len() implies toks_of(copy@)[j]
                == toks_of(tokens@)[j] by {
                lemma_toks_of_index_ind(copy@, j);
                lemma_toks_of_index_ind(tokens@, j);
            }
            lemma_toks_of_len_ind(copy@);
            lemma_toks_of_len_ind(tokens@);
            assert(toks_of(copy@) =~= toks_of(tokens@));
        }
        r
    }

    /// The token at the current position, if any, without advancing.
    pub fn peek(&self) -> (r: Option<Token>)
        ensures
            match r {
                Some(t) => self@.pos < self@.toks.len() && t@ == self@.toks[self@.pos],
                None => self@.pos >= self@.toks.len(),
            },
    {
        broadcast use group_reader_facts;

        if self.pos < self.tokens.len() {
            Some(self.tokens[self.pos].clone())
        } else {
            None
        }
    }

    /// The token at the current position, advancing past it.
    pub fn next(&mut self) -> (r: Option<Token>)
        ensures
            final(self)@.toks == old(self)@.toks,
            match r {
                Some(t) => old(self)@.pos < old(self)@.toks.len() && t@
                    == old(self)@.toks[old(self)@.pos] && final(self)@.pos == old(self)@.pos + 1,
                None => old(self)@.pos >= old(self)@.toks.len() && final(self)@.pos == old(
                    self,
                )@.pos,
            },
    {
        broadcast use group_reader_facts;

        if self.pos < self.tokens.len() {
            let t = self.tokens[self.pos].clone();
            self.pos = self.pos + 1;
            Some(t)
        } else {
            None
        }
    }
}

} // verus!

verus! {

broadcast use crate::types::group_model_facts;

fn read_wrap(reader: &mut Reader, sym: &str) -> (r: Result<MalType, MalError>)
    requires
        old(reader)@.pos < old(reader)@.toks.len(),
    ensures
        ({
            let (sr, j) = parse_wrap(old(reader)@.toks, old(reader)@.pos, sym@);
            &&& final(reader)@.toks == old(reader)@.toks
            &&& final(reader)@.pos == j
            &&& match (r, sr) {
                (Ok(v), Ok(m)) => v@ == m,
                (Err(e), Err(m)) => e@ == m,
                _ => false,
            }
            &&& (r is Ok ==> final(reader)@.pos > old(reader)@.pos + 1 && final(reader)@.pos
                <= old(reader)@.toks.len())
        }),
    decreases old(reader)@.toks.len() - old(reader)@.pos, 0nat,
{
    reader.next();
    match read_form(reader) {
        Err(e) => Err(e),
        Ok(v) => {
            let mut items: Vec<MalType> = Vec::new();
            items.push(MalType::Symbol(sym.to_owned()));
            items.push(v);
            let r = MalType::ListVec(MalListVec(true, items));
            proof {
                let m = parse_wrap(old(reader)@.toks, old(reader)@.pos, sym@).0->Ok_0;
                assert(vals_of(items@) =~= seq![ValModel::Symbol(sym@), items@[1]@]);
                assert(r@ == m);
            }
            Ok(r)
        },
    }
}

/// Reads one form from the token stream: reader macros rewrite to lists
/// headed by their symbol, delimiters open sequence reads, and any other
/// token resolves as an atom.
pub fn read_form(reader: &mut Reader) -> (r: Result<MalType, MalError>)
    ensures
        ({
            let (sr, j) = parse_form(old(reader)@.toks, old(reader)@.pos);
            &&& final(reader)@.toks == old(reader)@.toks
            &&& final(reader)@.pos == j
            &&& match (r, sr) {
                (Ok(v), Ok(m)) => v@ == m,
                (Err(e), Err(m)) => e@ == m,
                _ => false,
            }
            &&& (r is Ok ==> final(reader)@.pos > old(reader)@.pos && final(reader)@.pos <= old(
                reader,
            )@.toks.len())
        }),
    decreases old(reader)@.toks.len() - old(reader)@.pos, 1nat,
{
    let t = match reader.peek() {
        None => {
            return Err(MalError::new("expected a form, got EOF"));
        },
        Some(t) => t,
    };
    if str_eq(t.0.as_str(), "'") {
        read_wrap(reader, "quote")
    } else if str_eq(t.0.as_str(), "`") {
        read_wrap(reader, "quasiquote")
    } else if str_eq(t.0.as_str(), "~") {
        read_wrap(reader, "unquote")
    } else if str_eq(t.0.as_str(), "~@") {
        read_wrap(reader, "splice-unquote")
    } else if str_eq(t.0.as_str(), "@") {
        read_wrap(reader, "deref")
    } else if str_eq(t.0.as_str(), "^") {
        reader.next();
        let meta = match read_form(reader) {
            Err(e) => {
                return Err(e);
            },
            Ok(v) => v,
        };
        let f = match read_form(reader) {
            Err(e) => {
                return Err(e);
            },
            Ok(v) => v,
        };
        let mut items: Vec<MalType> = Vec::new();
        items.push(MalType::Symbol("with-meta".to_owned()));
        items.push(f);
        items.push(meta);
        let r = MalType::ListVec(MalListVec(true, items));
        proof {
            assert(vals_of(items@) =~= seq![
                ValModel::Symbol("with-meta"@),
                items@[1]@,
                items@[2]@,
            ]);
        }
        Ok(r)
    } else if str_eq(t.0.as_str(), "(") {
        reader.next();
        match read_sequence(reader, ")") {
            Err(e) => Err(e),
            Ok(items) => Ok(MalType::ListVec(MalListVec(true, items))),
        }
    } else if str_eq(t.0.as_str(), "[") {
        reader.next();
        match read_sequence(reader, "]") {
            Err(e) => Err(e),
            Ok(items) => Ok(MalType::ListVec(MalListVec(false, items))),
        }
    } else if str_eq(t.0.as_str(), "{") {
        reader.next();
        match read_sequence(reader, "}") {
            Err(e) => Err(e),
            Ok(items) => {
                if items.len() % 2 == 0 {
                    let r = MalType::new_vec("hashmap", &items);
                    Ok(r)
                } else {
                    Err(MalError::new("expected an even number of forms in a hash-map"))
                }
            },
        }
    } else if str_eq(t.0.as_str(), ")") || str_eq(t.0.as_str(), "]") || str_eq(
        t.0.as_str(),
        "}",
    ) {
        let msg = crate::text::concat3("unexpected '", t.0.as_str(), "'");
        proof {
            assert(msg@ =~= unexpected_msg(t@));
        }
        Err(MalError::new(msg.as_str()))
    } else {
        reader.next();
        MalType::from_token(&t)
    }
}

#[verifier::loop_isolation(false)]
fn read_sequence(reader: &mut Reader, closer: &str) -> (r: Result<Vec<MalType>, MalError>)
    ensures
        ({
            let (sr, k) = parse_seq(old(reader)@.toks, old(reader)@.pos, closer@);
            &&& final(reader)@.toks == old(reader)@.toks
            &&& final(reader)@.pos == k
            &&& match (r, sr) {
                (Ok(v), Ok(items)) => vals_of(v@) == items,
                (Err(e), Err(m)) => e@ == m,
                _ => false,
            }
            &&& (r is Ok ==> final(reader)@.pos > old(reader)@.pos && final(reader)@.pos <= old(
                reader,
            )@.toks.len())
        }),
    decreases old(reader)@.toks.len() - old(reader)@.pos, 2nat,
{
    let t = match reader.peek() {
        None => {
            let msg = crate::text::concat3("expected '", closer, "', got EOF");
            proof {
                assert(msg@ =~= missing_closer_msg(closer@));
            }
            return Err(MalError::new(msg.as_str()));
        },
        Some(t) => t,
    };
    if str_eq(t.0.as_str(), closer) {
        reader.next();
        let empty: Vec<MalType> = Vec::new();
        proof {
            assert(vals_of(empty@) =~= Seq::<ValModel>::empty());
        }
        return Ok(empty);
    }
    let v = match read_form(reader) {
        Err(e) => {
            return Err(e);
        },
        Ok(v) => v,
    };
    let rest = match read_sequence(reader, closer) {
        Err(e) => {
            return Err(e);
        },
        Ok(items) => items,
    };
    match v {
        MalType::Comment => Ok(rest),
        _ => {
            let mut out = rest;
            out.insert(0, v);
            proof {
                let ghost items = parse_seq(old(reader)@.toks, old(reader)@.pos, closer@).0->Ok_0;
                assert(vals_of(out@) =~= items);
            }
            Ok(out)
        },
    }
}

/// Reads the first form of an input.
pub fn read_str(s: &str) -> (r: Result<MalType, MalError>)
    ensures
        match (r, read_spec(s@)) {
            (Ok(v), Ok(m)) => v@ == m,
            (Err(e), Err(m)) => e@ == m,
            _ => false,
        },
{
    let tokens = tokenize(s);
    let mut reader = Reader::new(&tokens);
    read_form(&mut reader)
}

} // verus!
