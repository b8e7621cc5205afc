use vstd::prelude::*;
use vstd::string::{StrSliceExecFns, StringExecFns};

verus! {

// ---------------------------------------------------------------------------
// Characters and strings
// ---------------------------------------------------------------------------

/// Relies on String::push: appends one character at the end.
#[verifier::external_body]
pub(crate) fn push_char(s: &mut String, c: char)
    ensures
        final(s)@ == old(s)@.push(c),
{
    s.push(c);
}

/// Builds a String out of a sequence of characters.
pub(crate) fn chars_to_string(v: &Vec<char>) -> (s: String)
    ensures
        s@ == v@,
{
    let mut s = String::new();
    let mut i: usize = 0;
    while i < v.len()
        invariant
            i <= v.len(),
            s@ == v@.take(i as int),
        decreases v.len() - i,
    {
        push_char(&mut s, v[i]);
        proof {
            assert(v@.take(i as int).push(v@[i as int]) =~= v@.take(i + 1));
        }
        i = i + 1;
    }
    proof {
        assert(v@.take(v@.len() as int) =~= v@);
    }
    s
}

/// The characters of a string slice, in order.
pub(crate) fn chars_of_str(s: &str) -> (v: Vec<char>)
    ensures
        v@ == s@,
{
    let n = s.unicode_len();
    let mut v: Vec<char> = Vec::new();
    let mut i: usize = 0;
    while i < n
        invariant
            i <= n,
            n == s@.len(),
            v@ == s@.take(i as int),
        decreases n - i,
    {
        v.push(s.get_char(i));
        proof {
            assert(s@.take(i as int).push(s@[i as int]) =~= s@.take(i + 1));
        }
        i = i + 1;
    }
    proof {
        assert(s@.take(s@.len() as int) =~= s@);
    }
    v
}

/// Whether two string slices hold the same characters.
pub(crate) fn str_eq(a: &str, b: &str) -> (r: bool)
    ensures
        r == (a@ == b@),
{
    let n = a.unicode_len();
    let m = b.unicode_len();
    if n != m {
        return false;
    }
    let mut i: usize = 0;
    while i < n
        invariant
            i <= n,
            n == a@.len(),
            n == b@.len(),
            forall|j: int| 0 <= j < i ==> a@[j] == b@[j],
        decreases n - i,
    {
        if a.get_char(i) != b.get_char(i) {
            return false;
        }
        i = i + 1;
    }
    proof {
        assert(a@ =~= b@);
    }
    true
}

// ---------------------------------------------------------------------------
// Rendering integers
// ---------------------------------------------------------------------------

/// The character for a single decimal digit.
pub open spec fn digit_char(d: int) -> char {
    ((d + 48) as u8) as char
}

/// The decimal digits of a natural number, most significant first.
pub open spec fn nat_digits(n: nat) -> Seq<char>
    decreases n,
{
    if n < 10 {
        seq![digit_char(n as int)]
    } else {
        nat_digits(n / 10).push(digit_char((n % 10) as int))
    }
}

/// The canonical decimal rendering of an integer.
pub open spec fn int_str(i: int) -> Seq<char> {
    if i < 0 {
        seq!['-'] + nat_digits((-i) as nat)
    } else {
        nat_digits(i as nat)
    }
}

pub(crate) fn push_u64_digits(n: u64, out: &mut Vec<char>)
    ensures
        final(out)@ == old(out)@ + nat_digits(n as nat),
    decreases n,
{
    if n < 10 {
        out.push(((n as u8) + 48) as char);
    } else {
        push_u64_digits(n / 10, out);
        out.push((((n % 10) as u8) + 48) as char);
    }
}

/// Appends the decimal rendering of an integer.
pub(crate) fn push_i64(i: i64, out: &mut Vec<char>)
    ensures
        final(out)@ == old(out)@ + int_str(i as int),
{
    if i < 0 {
        out.push('-');
        let m: u64 = (-(i as i128)) as u64;
        assert(m as nat == (-(i as int)) as nat);
        push_u64_digits(m, out);
        proof {
            assert(final(out)@ =~= old(out)@ + int_str(i as int));
        }
    } else {
        push_u64_digits(i as u64, out);
    }
}

// ---------------------------------------------------------------------------
// Parsing integers
// ---------------------------------------------------------------------------

/// Whether a character is a decimal digit.
pub open spec fn is_digit(c: char) -> bool {
    48 <= c as int <= 57
}

/// Whether every character of a sequence is a decimal digit.
pub open spec fn all_digits(s: Seq<char>) -> bool {
    forall|i: int| 0 <= i < s.len() ==> is_digit(#[trigger] s[i])
}

/// The value of a sequence of decimal digits.
pub open spec fn digits_val(s: Seq<char>) -> int
    decreases s.len(),
{
    if s.len() == 0 {
        0
    } else {
        digits_val(s.drop_last()) * 10 + (s.last() as int - 48)
    }
}

/// The integer denoted by a token, if the token is an optionally signed
/// run of decimal digits whose value fits in a signed 64-bit integer.
pub open spec fn parse_int_spec(s: Seq<char>) -> Option<int> {
    let signed = s.len() >= 1 && (s[0] == '-' || s[0] == '+');
    let body = if signed {
        s.skip(1)
    } else {
        s
    };
    let neg = s.len() >= 1 && s[0] == '-';
    if body.len() == 0 || !all_digits(body) {
        None
    } else {
        let v = if neg {
            -digits_val(body)
        } else {
            digits_val(body)
        };
        if i64::MIN <= v <= i64::MAX {
            Some(v)
        } else {
            None
        }
    }
}

proof fn lemma_digits_val_nonneg(s: Seq<char>)
    requires
        all_digits(s),
    ensures
        digits_val(s) >= 0,
    decreases s.len(),
{
    if s.len() > 0 {
        assert(all_digits(s.drop_last())) by {
            assert(forall|i: int|
                0 <= i < s.len() - 1 ==> is_digit(#[trigger] s.drop_last()[i]) == is_digit(s[i]));
        }
        lemma_digits_val_nonneg(s.drop_last());
    }
}

proof fn lemma_digits_val_step(s: Seq<char>, i: int)
    requires
        0 <= i < s.len(),
    ensures
        digits_val(s.take(i + 1)) == digits_val(s.take(i)) * 10 + (s[i] as int - 48),
{
    assert(s.take(i + 1).drop_last() =~= s.take(i));
    assert(s.take(i + 1).last() == s[i]);
}

proof fn lemma_digits_val_grows(s: Seq<char>, i: int)
    requires
        all_digits(s),
        0 <= i <= s.len(),
    ensures
        digits_val(s.take(i)) <= digits_val(s),
    decreases s.len() - i,
{
    lemma_digits_val_nonneg(s);
    if i == s.len() {
        assert(s.take(i) =~= s);
    } else {
        lemma_digits_val_step(s, i);
        assert(all_digits(s.take(i))) by {
            assert(forall|j: int|
                0 <= j < i ==> is_digit(#[trigger] s.take(i)[j]) == is_digit(s[j]));
        }
        lemma_digits_val_nonneg(s.take(i));
        assert(digits_val(s.take(i)) <= digits_val(s.take(i + 1)));
        lemma_digits_val_grows(s, i + 1);
    }
}

/// Parses an optionally signed run of decimal digits; `None` where the
/// characters are not such a run or the value does not fit in an `i64`.
#[verifier::loop_isolation(false)]
pub(crate) fn parse_i64(s: &Vec<char>) -> (r: Option<i64>)
    ensures
        match r {
            Some(v) => parse_int_spec(s@) == Some(v as int),
            None => parse_int_spec(s@) is None,
        },
{
    let n = s.len();
    let signed = n >= 1 && (s[0] == '-' || s[0] == '+');
    let neg = n >= 1 && s[0] == '-';
    let start: usize = if signed {
        1
    } else {
        0
    };
    // Copy the digit body so the loops below need no offsets.
    let mut body: Vec<char> = Vec::new();
    let mut i: usize = start;
    while i < n
        invariant
            start <= i <= n,
            start <= n ==> body@ == s@.subrange(start as int, i as int),
            n == s@.len(),
        decreases n - i,
    {
        body.push(s[i]);
        proof {
            assert(s@.subrange(start as int, i as int).push(s@[i as int]) =~= s@.subrange(
                start as int,
                i + 1,
            ));
        }
        i = i + 1;
    }
    proof {
        if start <= n {
            if signed {
                assert(s@.subrange(start as int, n as int) =~= s@.skip(1));
            } else {
                assert(s@.subrange(start as int, n as int) =~= s@);
            }
        }
    }
    let ghost spec_body = if signed {
        s@.skip(1)
    } else {
        s@
    };
    assert(body@ == spec_body);
    if body.len() == 0 {
        return None;
    }
    // Reject anything that is not all digits.
    let m = body.len();
    let mut j: usize = 0;
    while j < m
        invariant
            j <= m,
            m == body@.len(),
            forall|q: int| 0 <= q < j ==> is_digit(#[trigger] body@[q]),
        decreases m - j,
    {
        let c = body[j];
        if !(c >= '0' && c <= '9') {
            assert(!is_digit(body@[j as int]));
            return None;
        }
        assert(is_digit(body@[j as int]));
        j = j + 1;
    }
    assert(all_digits(body@));
    // Accumulate the value, watching for overflow.
    let mut acc: u64 = 0;
    let mut k: usize = 0;
    while k < m
        invariant
            k <= m,
            m == body@.len(),
            all_digits(body@),
            acc as int == digits_val(body@.take(k as int)),
        decreases m - k,
    {
        let c = body[k];
        proof {
            assert(is_digit(body@[k as int]));
            lemma_digits_val_step(body@, k as int);
        }
        let d: u64 = (c as u64) - 48;
        let wide: u128 = (acc as u128) * 10 + (d as u128);
        assert(wide as int == digits_val(body@.take(k + 1)));
        if wide > u64::MAX as u128 {
            proof {
                lemma_digits_val_nonneg(body@);
                lemma_digits_val_grows(body@, k + 1);
                assert(digits_val(body@) > u64::MAX);
            }
            return None;
        }
        acc = wide as u64;
        k = k + 1;
    }
    proof {
        assert(body@.take(m as int) =~= body@);
    }
    if neg {
        if acc > 9223372036854775808u64 {
            return None;
        }
        if acc == 9223372036854775808u64 {
            Some(i64::MIN)
        } else {
            Some(-(acc as i64))
        }
    } else {
        if acc > i64::MAX as u64 {
            return None;
        }
        Some(acc as i64)
    }
}

// ---------------------------------------------------------------------------
// String escaping
// ---------------------------------------------------------------------------

/// Decodes the escape sequences of a string literal's body: `\"` to a
/// double quote, `\n` to a newline, `\\` to a backslash; any other
/// backslash pair is kept as written.
pub open spec fn unescape_spec(s: Seq<char>) -> Seq<char>
    decreases s.len(),
{
    if s.len() == 0 {
        Seq::empty()
    } else if s[0] == '\\' && s.len() >= 2 {
        let c = s[1];
        let rest = unescape_spec(s.skip(2));
        if c == 'n' {
            seq!['\n'] + rest
        } else if c == '"' {
            seq!['"'] + rest
        } else if c == '\\' {
            seq!['\\'] + rest
        } else {
            seq!['\\', c] + rest
        }
    } else {
        seq![s[0]] + unescape_spec(s.skip(1))
    }
}

/// Encodes a string for readable rendering: a backslash before every
/// backslash and double quote, and newlines written as `\n`.
pub open spec fn escape_spec(s: Seq<char>) -> Seq<char>
    decreases s.len(),
{
    if s.len() == 0 {
        Seq::empty()
    } else {
        let rest = escape_spec(s.skip(1));
        if s[0] == '\\' {
            seq!['\\', '\\'] + rest
        } else if s[0] == '"' {
            seq!['\\', '"'] + rest
        } else if s[0] == '\n' {
            seq!['\\', 'n'] + rest
        } else {
            seq![s[0]] + rest
        }
    }
}

fn unescape_from(s: &Vec<char>, i: usize, out: &mut Vec<char>)
    requires
        i <= s@.len(),
    ensures
        final(out)@ == old(out)@ + unescape_spec(s@.skip(i as int)),
    decreases s@.len() - i,
{
    if i >= s.len() {
        assert(old(out)@ + unescape_spec(s@.skip(i as int)) =~= old(out)@);
        return;
    }
    let c = s[i];
    assert(s@.skip(i as int)[0] == c);
    if c == '\\' && i + 1 < s.len() {
        let c2 = s[i + 1];
        assert(s@.skip(i as int)[1] == c2);
        assert(s@.skip(i as int).skip(2) =~= s@.skip(i + 2));
        if c2 == 'n' {
            out.push('\n');
        } else if c2 == '"' {
            out.push('"');
        } else if c2 == '\\' {
            out.push('\\');
        } else {
            out.push('\\');
            out.push(c2);
        }
        unescape_from(s, i + 2, out);
        assert(final(out)@ =~= old(out)@ + unescape_spec(s@.skip(i as int)));
    } else {
        assert(s@.skip(i as int).len() == 1 ==> !(s@.skip(i as int)[0] == '\\' && s@.skip(
            i as int,
        ).len() >= 2));
        assert(s@.skip(i as int).skip(1) =~= s@.skip(i + 1));
        out.push(c);
        unescape_from(s, i + 1, out);
        assert(final(out)@ =~= old(out)@ + unescape_spec(s@.skip(i as int)));
    }
}

/// Decodes the escape sequences of a string literal's body.
pub(crate) fn unescape(s: &Vec<char>) -> (r: Vec<char>)
    ensures
        r@ == unescape_spec(s@),
{
    let mut out: Vec<char> = Vec::new();
    unescape_from(s, 0, &mut out);
    proof {
        assert(s@.skip(0) =~= s@);
        assert(out@ =~= unescape_spec(s@));
    }
    out
}

fn escape_from(s: &Vec<char>, i: usize, out: &mut Vec<char>)
    requires
        i <= s@.len(),
    ensures
        final(out)@ == old(out)@ + escape_spec(s@.skip(i as int)),
    decreases s@.len() - i,
{
    if i >= s.len() {
        assert(old(out)@ + escape_spec(s@.skip(i as int)) =~= old(out)@);
        return;
    }
    let c = s[i];
    assert(s@.skip(i as int)[0] == c);
    assert(s@.skip(i as int).skip(1) =~= s@.skip(i + 1));
    if c == '\\' {
        out.push('\\');
        out.push('\\');
    } else if c == '"' {
        out.push('\\');
        out.push('"');
    } else if c == '\n' {
        out.push('\\');
        out.push('n');
    } else {
        out.push(c);
    }
    escape_from(s, i + 1, out);
    assert(final(out)@ =~= old(out)@ + escape_spec(s@.skip(i as int)));
}

/// Encodes a string's characters for readable rendering.
pub(crate) fn escape_into(s: &Vec<char>, out: &mut Vec<char>)
    ensures
        final(out)@ == old(out)@ + escape_spec(s@),
{
    escape_from(s, 0, out);
    proof {
        assert(s@.skip(0) =~= s@);
    }
}

/// Three string slices joined into one string.
pub(crate) fn concat3(a: &str, b: &str, c: &str) -> (r: String)
    ensures
        r@ == a@ + b@ + c@,
{
    let mut r = String::new();
    r.append(a);
    r.append(b);
    r.append(c);
    proof {
        assert(r@ =~= a@ + b@ + c@);
    }
    r
}

} // verus!
