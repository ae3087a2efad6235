use vstd::prelude::*;

verus! {

/// Whether `s` holds exactly the characters of `lit`.
pub fn text_is(s: &str, lit: &str) -> (r: bool)
    ensures
        r == (s@ == lit@),
{
    let a = s.to_string();
    let b = lit.to_string();
    a == b
}

} // verus!

verus! {

/// The character sequences of a sequence of strings.
pub open spec fn names_of(v: Seq<String>) -> Seq<Seq<char>> {
    v.map_values(|s: String| s@)
}

/// Whether some string of `v` holds exactly the characters of `s`.
pub fn contains_name(v: &Vec<String>, s: &String) -> (r: bool)
    ensures
        r == names_of(v@).contains(s@),
{
    let mut i: usize = 0;
    while i < v.len()
        invariant
            i <= v@.len(),
            forall|j: int| 0 <= j < i ==> v@[j]@ != s@,
        decreases v@.len() - i,
    {
        if v[i] == *s {
            assert(names_of(v@)[i as int] == s@);
            return true;
        }
        i = i + 1;
    }
    assert forall|j: int| 0 <= j < names_of(v@).len() implies names_of(v@)[j] != s@ by {}
    false
}

/// A copy of a list of strings.
pub fn copy_names(v: &Vec<String>) -> (r: Vec<String>)
    ensures
        names_of(r@) == names_of(v@),
{
    let mut r: Vec<String> = Vec::new();
    let mut i: usize = 0;
    while i < v.len()
        invariant
            i <= v@.len(),
            names_of(r@) == names_of(v@.take(i as int)),
        decreases v@.len() - i,
    {
        r.push(v[i].clone());
        assert(names_of(v@.take(i + 1)) =~= names_of(v@.take(i as int)).push(v@[i as int]@));
        assert(names_of(r@) =~= names_of(v@.take(i as int)).push(v@[i as int]@));
        i = i + 1;
    }
    assert(v@.take(v@.len() as int) =~= v@);
    r
}

} // verus!

verus! {

/// Whether `c` is an ASCII decimal digit.
pub open spec fn is_digit(c: char) -> bool {
    '0' <= c <= '9'
}

/// The value of a run of decimal digits, most significant first.
pub open spec fn digits_value(s: Seq<char>) -> int
    decreases s.len(),
{
    if s.len() == 0 {
        0
    } else {
        digits_value(s.drop_last()) * 10 + (s.last() as int - '0' as int)
    }
}

/// The sign and the digits of a number's text: a leading `-` or `+` is the sign.
pub open spec fn sign_and_digits(s: Seq<char>) -> (bool, Seq<char>) {
    if s.len() > 0 && s[0] == '-' {
        (true, s.drop_first())
    } else if s.len() > 0 && s[0] == '+' {
        (false, s.drop_first())
    } else {
        (false, s)
    }
}

/// The `i32` written in `s`: an optional sign, then one or more decimal
/// digits, the value within the range of `i32`; `None` for any other text.
pub open spec fn i32_of(s: Seq<char>) -> Option<i32> {
    let (neg, body) = sign_and_digits(s);
    let v = if neg {
        -digits_value(body)
    } else {
        digits_value(body)
    };
    if body.len() > 0 && (forall|i: int| 0 <= i < body.len() ==> is_digit(#[trigger] body[i]))
        && i32::MIN <= v <= i32::MAX {
        Some(v as i32)
    } else {
        None
    }
}

proof fn lemma_digits_value_grows(s: Seq<char>, i: int)
    requires
        0 <= i <= s.len(),
        forall|j: int| 0 <= j < s.len() ==> is_digit(#[trigger] s[j]),
    ensures
        digits_value(s) >= digits_value(s.take(i)) >= 0,
    decreases s.len(),
{
    if s.len() > 0 {
        let t = s.drop_last();
        assert(is_digit(s[s.len() - 1]));
        if i == s.len() {
            lemma_digits_value_grows(t, t.len() as int);
            assert(s.take(i) =~= s);
        } else {
            lemma_digits_value_grows(t, i);
            assert(t.take(i) =~= s.take(i));
            lemma_digits_value_grows(t, t.len() as int);
            assert(t.take(t.len() as int) =~= t);
        }
    } else {
        assert(s.take(i) =~= s);
    }
}

/// The `i32` written in `s`, read as `str::parse::<i32>` reads it.
pub fn parse_i32(s: &str) -> (r: Option<i32>)
    ensures
        r == i32_of(s@),
{
    let n = s.unicode_len();
    let mut start: usize = 0;
    let mut neg = false;
    if n > 0 && s.get_char(0) == '-' {
        start = 1;
        neg = true;
    } else if n > 0 && s.get_char(0) == '+' {
        start = 1;
    }
    let ghost body = sign_and_digits(s@).1;
    assert(body =~= s@.skip(start as int));
    if start == n {
        return None;
    }
    let mut acc: i64 = 0;
    let mut i: usize = start;
    while i < n
        invariant
            start <= i <= n,
            n == s@.len(),
            body == s@.skip(start as int),
            body == sign_and_digits(s@).1,
            neg == sign_and_digits(s@).0,
            0 <= acc <= 2147483648,
            forall|j: int| 0 <= j < i - start ==> is_digit(#[trigger] body[j]),
            acc == digits_value(body.take(i - start)),
        decreases n - i,
    {
        let c = s.get_char(i);
        assert(body[i - start] == c);
        if !('0' <= c && c <= '9') {
            assert(!is_digit(body[i - start]));
            assert(body.len() == n - start);
            assert(!(forall|j: int| 0 <= j < body.len() ==> is_digit(#[trigger] body[j])));
            assert(i32_of(s@) is None);
            return None;
        }
        let d = (c as u32 - '0' as u32) as i64;
        assert(body.take(i + 1 - start).drop_last() =~= body.take(i - start));
        let next = acc * 10 + d;
        if next > 2147483648 {
            proof {
                let k = i + 1 - start;
                assert(body.take(k).last() == c);
                assert(digits_value(body.take(k)) == next);
                assert(body.len() == n - start);
                if forall|j: int| 0 <= j < body.len() ==> is_digit(#[trigger] body[j]) {
                    lemma_digits_value_grows(body, k);
                    assert(digits_value(body) > 2147483648);
                }
                assert(i32_of(s@) is None);
            }
            return None;
        }
        acc = next;
        i = i + 1;
    }
    assert(body.take(i - start) =~= body);
    if neg {
        Some((-acc) as i32)
    } else if acc <= 2147483647 {
        Some(acc as i32)
    } else {
        None
    }
}

} // verus!

verus! {

/// The number of characters satisfying `p` that `s` starts with.
pub open spec fn leading(s: Seq<char>, p: spec_fn(char) -> bool) -> nat
    decreases s.len(),
{
    if s.len() > 0 && p(s[0]) {
        1 + leading(s.drop_first(), p)
    } else {
        0
    }
}

/// The number of characters satisfying `p` that `s` ends with.
pub open spec fn trailing(s: Seq<char>, p: spec_fn(char) -> bool) -> nat
    decreases s.len(),
{
    if s.len() > 0 && p(s.last()) {
        1 + trailing(s.drop_last(), p)
    } else {
        0
    }
}

/// `s` without the characters satisfying `p` at its start and then at its end.
pub open spec fn stripped(s: Seq<char>, p: spec_fn(char) -> bool) -> Seq<char> {
    let rest = s.skip(leading(s, p) as int);
    rest.take(rest.len() - trailing(rest, p))
}

/// `leading` counts exactly the run of selected characters at the start.
pub proof fn lemma_leading(s: Seq<char>, p: spec_fn(char) -> bool, i: int)
    requires
        0 <= i <= s.len(),
        forall|j: int| 0 <= j < i ==> p(#[trigger] s[j]),
        i < s.len() ==> !p(s[i]),
    ensures
        leading(s, p) == i,
    decreases i,
{
    if i > 0 {
        lemma_leading(s.drop_first(), p, i - 1);
    }
}

/// `trailing` counts exactly the run of selected characters at the end.
pub proof fn lemma_trailing(s: Seq<char>, p: spec_fn(char) -> bool, j: int)
    requires
        0 <= j <= s.len(),
        forall|k: int| j <= k < s.len() ==> p(#[trigger] s[k]),
        j > 0 ==> !p(s[j - 1]),
    ensures
        trailing(s, p) == s.len() - j,
    decreases s.len() - j,
{
    if j < s.len() {
        lemma_trailing(s.drop_last(), p, j);
    }
}

/// Whether `c` has the Unicode White_Space property.
pub open spec fn is_ws(c: char) -> bool {
    c == '\t' || c == '\n' || c == '\u{0B}' || c == '\u{0C}' || c == '\r' || c == ' '
        || c == '\u{85}' || c == '\u{A0}' || c == '\u{1680}' || ('\u{2000}' <= c && c <= '\u{200A}')
        || c == '\u{2028}' || c == '\u{2029}' || c == '\u{202F}' || c == '\u{205F}'
        || c == '\u{3000}'
}

/// Whether `c` has the Unicode White_Space property.
pub fn is_whitespace(c: char) -> (r: bool)
    ensures
        r == is_ws(c),
{
    c == '\t' || c == '\n' || c == '\u{0B}' || c == '\u{0C}' || c == '\r' || c == ' '
        || c == '\u{85}' || c == '\u{A0}' || c == '\u{1680}' || ('\u{2000}' <= c && c <= '\u{200A}')
        || c == '\u{2028}' || c == '\u{2029}' || c == '\u{202F}' || c == '\u{205F}'
        || c == '\u{3000}'
}

/// `s` without its leading and trailing whitespace.
pub open spec fn trimmed(s: Seq<char>) -> Seq<char> {
    stripped(s, |c: char| is_ws(c))
}

/// The characters stripped: quotation marks where `quotes` is set, else whitespace.
pub open spec fn selector(quotes: bool) -> spec_fn(char) -> bool {
    if quotes {
        |c: char| c == '"' || c == '\''
    } else {
        |c: char| is_ws(c)
    }
}

fn selected(c: char, quotes: bool) -> (r: bool)
    ensures
        r == selector(quotes)(c),
{
    if quotes {
        c == '"' || c == '\''
    } else {
        is_whitespace(c)
    }
}

/// The bounds of `s` stripped of the characters `quotes` selects (quotation
/// marks where it is set, whitespace where it is not).
fn strip_bounds(s: &str, quotes: bool) -> (r: (usize, usize))
    ensures
        r.0 <= r.1 <= s@.len(),
        s@.subrange(r.0 as int, r.1 as int) == stripped(s@, selector(quotes)),
{
    let ghost p = selector(quotes);
    let n = s.unicode_len();
    let mut i: usize = 0;
    while i < n && selected(s.get_char(i), quotes)
        invariant
            i <= n,
            n == s@.len(),
            p == selector(quotes),
            forall|j: int| 0 <= j < i ==> p(#[trigger] s@[j]),
        decreases n - i,
    {
        i = i + 1;
    }
    proof {
        lemma_leading(s@, p, i as int);
    }
    let ghost rest = s@.skip(i as int);
    let mut j: usize = n;
    while j > i && selected(s.get_char(j - 1), quotes)
        invariant
            i <= j <= n,
            n == s@.len(),
            rest == s@.skip(i as int),
            p == selector(quotes),
            forall|k: int| j <= k < n ==> p(#[trigger] s@[k]),
        decreases j,
    {
        j = j - 1;
    }
    proof {
        assert forall|k: int| j - i <= k < rest.len() implies p(#[trigger] rest[k]) by {
            assert(rest[k] == s@[k + i]);
        }
        if j > i {
            assert(rest[j - i - 1] == s@[j - 1]);
        }
        lemma_trailing(rest, p, j - i);
        assert(rest.take(j - i) =~= s@.subrange(i as int, j as int));
    }
    (i, j)
}

/// `s` without its leading and trailing whitespace, as `str::trim` gives it.
pub fn trim(s: &str) -> (r: &str)
    ensures
        r@ == trimmed(s@),
{
    let (i, j) = strip_bounds(s, false);
    assert(selector(false) == (|c: char| is_ws(c)));
    s.substring_char(i, j)
}

/// `s` without the quotation marks at its start and then at its end.
pub fn strip_quotes(s: &str) -> (r: &str)
    ensures
        r@ == stripped(s@, |c: char| c == '"' || c == '\''),
{
    let (i, j) = strip_bounds(s, true);
    assert(selector(true) == (|c: char| c == '"' || c == '\''));
    s.substring_char(i, j)
}

} // verus!

verus! {

/// The decimal digit for `d`.
pub open spec fn digit_char(d: int) -> char {
    if d == 0 {
        '0'
    } else if d == 1 {
        '1'
    } else if d == 2 {
        '2'
    } else if d == 3 {
        '3'
    } else if d == 4 {
        '4'
    } else if d == 5 {
        '5'
    } else if d == 6 {
        '6'
    } else if d == 7 {
        '7'
    } else if d == 8 {
        '8'
    } else {
        '9'
    }
}

/// The decimal digits of the natural number `n`, most significant first.
pub open spec fn digits_of(n: nat) -> Seq<char>
    decreases n,
{
    if n < 10 {
        seq![digit_char(n as int)]
    } else {
        digits_of(n / 10).push(digit_char((n % 10) as int))
    }
}

/// The decimal text of the integer `n`, with a leading `-` when negative.
pub open spec fn decimal_of(n: int) -> Seq<char> {
    if n < 0 {
        seq!['-'] + digits_of((-n) as nat)
    } else {
        digits_of(n as nat)
    }
}

fn digit_str(d: u64) -> (r: &'static str)
    requires
        d < 10,
    ensures
        r@ == seq![digit_char(d as int)],
{
    proof {
        reveal_strlit("0");
        reveal_strlit("1");
        reveal_strlit("2");
        reveal_strlit("3");
        reveal_strlit("4");
        reveal_strlit("5");
        reveal_strlit("6");
        reveal_strlit("7");
        reveal_strlit("8");
        reveal_strlit("9");
    }
    let r = if d == 0 {
        "0"
    } else if d == 1 {
        "1"
    } else if d == 2 {
        "2"
    } else if d == 3 {
        "3"
    } else if d == 4 {
        "4"
    } else if d == 5 {
        "5"
    } else if d == 6 {
        "6"
    } else if d == 7 {
        "7"
    } else if d == 8 {
        "8"
    } else {
        "9"
    };
    assert(r@ =~= seq![digit_char(d as int)]);
    r
}

fn append_digits(out: &mut String, n: u64)
    ensures
        final(out)@ == old(out)@ + digits_of(n as nat),
    decreases n,
{
    if n >= 10 {
        append_digits(out, n / 10);
    }
    out.append(digit_str(n % 10));
    if n >= 10 {
        assert(digits_of(n as nat) == digits_of((n / 10) as nat).push(digit_char((n % 10) as int)));
        assert(final(out)@ =~= old(out)@ + digits_of(n as nat));
    } else {
        assert(digits_of(n as nat) == seq![digit_char(n as int)]);
        assert(final(out)@ =~= old(out)@ + digits_of(n as nat));
    }
}

/// Appends the decimal text of `n` to `out`.
pub fn append_decimal(out: &mut String, n: i32)
    ensures
        final(out)@ == old(out)@ + decimal_of(n as int),
{
    if n < 0 {
        out.append("-");
        let m: i64 = -(n as i64);
        append_digits(out, m as u64);
        proof {
            reveal_strlit("-");
        }
        assert(final(out)@ =~= old(out)@ + decimal_of(n as int));
    } else {
        append_digits(out, n as u64);
    }
}

} // verus!
