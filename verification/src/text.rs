//! Character-level helpers for the scene format: whitespace tokenization and
//! decimal integer literals, with the meaning Rust's `split_whitespace` and
//! `str::parse` give them.

use vstd::prelude::*;

verus! {

/// The Unicode `White_Space` property.
pub open spec fn is_ws(c: char) -> bool {
    let u = c as u32;
    ||| 0x9 <= u <= 0xd
    ||| u == 0x20
    ||| u == 0x85
    ||| u == 0xa0
    ||| u == 0x1680
    ||| 0x2000 <= u <= 0x200a
    ||| u == 0x2028
    ||| u == 0x2029
    ||| u == 0x202f
    ||| u == 0x205f
    ||| u == 0x3000
}

/// Length of the run of non-whitespace characters that starts `s`.
pub open spec fn run_len(s: Seq<char>) -> nat
    decreases s.len(),
{
    if s.len() == 0 || is_ws(s[0]) {
        0
    } else {
        1 + run_len(s.drop_first())
    }
}

/// A run of non-whitespace never outgrows the string, and is not empty when
/// the string starts with a non-whitespace character.
pub proof fn lemma_run_len_bounded(s: Seq<char>)
    ensures
        run_len(s) <= s.len(),
        s.len() > 0 && !is_ws(s[0]) ==> run_len(s) >= 1,
    decreases s.len(),
{
    if s.len() > 0 && !is_ws(s[0]) {
        lemma_run_len_bounded(s.drop_first());
    }
}

/// The maximal runs of non-whitespace characters of `s`, in order.
pub open spec fn tokens(s: Seq<char>) -> Seq<Seq<char>>
    decreases s.len(),
{
    if s.len() == 0 {
        seq![]
    } else if is_ws(s[0]) {
        tokens(s.drop_first())
    } else {
        let k = run_len(s);
        proof {
            lemma_run_len_bounded(s);
        }
        seq![s.take(k as int)] + tokens(s.skip(k as int))
    }
}

proof fn lemma_run_len_exact(s: Seq<char>, k: int)
    requires
        0 <= k <= s.len(),
        forall|m: int| 0 <= m < k ==> !is_ws(#[trigger] s[m]),
        k == s.len() || is_ws(s[k]),
    ensures
        run_len(s) == k,
    decreases k,
{
    if k > 0 {
        lemma_run_len_exact(s.drop_first(), k - 1);
    }
}

/// Whether `c` is Unicode whitespace.
pub fn is_whitespace(c: char) -> (b: bool)
    ensures
        b == is_ws(c),
{
    let u = c as u32;
    (0x9 <= u && u <= 0xd) || u == 0x20 || u == 0x85 || u == 0xa0 || u == 0x1680 || (0x2000 <= u
        && u <= 0x200a) || u == 0x2028 || u == 0x2029 || u == 0x202f || u == 0x205f || u == 0x3000
}

/// The characters of `s`.
pub fn chars_of(s: &str) -> (v: Vec<char>)
    ensures
        v@ == s@,
{
    let n = s.unicode_len();
    let mut v: Vec<char> = Vec::new();
    let mut i: usize = 0;
    while i < n
        invariant
            n == s@.len(),
            i <= n,
            v@ == s@.take(i as int),
        decreases n - i,
    {
        v.push(s.get_char(i));
        i += 1;
        assert(v@ =~= s@.take(i as int));
    }
    assert(s@.take(n as int) =~= s@);
    v
}

/// The whitespace-separated tokens of `s`.
pub fn split_whitespace(s: &[char]) -> (toks: Vec<Vec<char>>)
    ensures
        toks@.map_values(|t: Vec<char>| t@) == tokens(s@),
{
    let n = s.len();
    let mut toks: Vec<Vec<char>> = Vec::new();
    let mut i: usize = 0;
    assert(s@.skip(0) =~= s@);
    while i < n
        invariant
            n == s@.len(),
            i <= n,
            toks@.map_values(|t: Vec<char>| t@) + tokens(s@.skip(i as int)) == tokens(s@),
        decreases n - i,
    {
        let ghost rest = s@.skip(i as int);
        if is_whitespace(s[i]) {
            assert(rest.drop_first() =~= s@.skip(i + 1));
            i += 1;
        } else {
            let mut j: usize = i;
            let mut tok: Vec<char> = Vec::new();
            while j < n && !is_whitespace(s[j])
                invariant
                    n == s@.len(),
                    i <= j <= n,
                    tok@ == s@.subrange(i as int, j as int),
                    forall|m: int| i <= m < j ==> !is_ws(#[trigger] s@[m]),
                decreases n - j,
            {
                tok.push(s[j]);
                j += 1;
                assert(tok@ =~= s@.subrange(i as int, j as int));
            }
            proof {
                assert forall|m: int| 0 <= m < j - i implies !is_ws(#[trigger] rest[m]) by {
                    assert(rest[m] == s@[i + m]);
                }
                lemma_run_len_exact(rest, j - i);
                assert(rest.take(j - i) =~= tok@);
                assert(rest.skip(j - i) =~= s@.skip(j as int));
                assert(tokens(rest) == seq![tok@] + tokens(s@.skip(j as int)));
                let old_toks = toks@.map_values(|t: Vec<char>| t@);
                assert(old_toks + tokens(rest) == tokens(s@));
                assert(toks@.push(tok).map_values(|t: Vec<char>| t@) =~= old_toks.push(tok@));
                assert(old_toks.push(tok@) + tokens(s@.skip(j as int)) =~= old_toks + (seq![tok@]
                    + tokens(s@.skip(j as int))));
            }
            toks.push(tok);
            i = j;
        }
    }
    assert(s@.skip(n as int) =~= Seq::<char>::empty());
    assert(toks@.map_values(|t: Vec<char>| t@) + tokens(Seq::<char>::empty()) =~= toks@.map_values(
        |t: Vec<char>| t@,
    ));
    toks
}

/// An ASCII decimal digit.
pub open spec fn is_digit(c: char) -> bool {
    0x30 <= (c as u32) <= 0x39
}

/// The value of a decimal digit.
pub open spec fn digit_val(c: char) -> nat {
    ((c as u32) - 0x30) as nat
}

/// Every character is a decimal digit.
pub open spec fn all_digits(d: Seq<char>) -> bool {
    forall|i: int| 0 <= i < d.len() ==> is_digit(#[trigger] d[i])
}

/// The number that the decimal digits `d` denote (most significant first).
pub open spec fn digits_value(d: Seq<char>) -> nat
    decreases d.len(),
{
    if d.len() == 0 {
        0
    } else {
        digits_value(d.drop_last()) * 10 + digit_val(d.last())
    }
}

/// `s` without one leading `+`, if it has one.
pub open spec fn unsigned_digits(s: Seq<char>) -> Seq<char> {
    if s.len() > 0 && s[0] == '+' {
        s.drop_first()
    } else {
        s
    }
}

/// What `str::parse::<usize>` gives: an optional `+`, then at least one ASCII
/// digit, denoting a value that fits.
pub open spec fn parse_usize_spec(s: Seq<char>) -> Option<usize> {
    let d = unsigned_digits(s);
    if d.len() > 0 && all_digits(d) && digits_value(d) <= usize::MAX {
        Some(digits_value(d) as usize)
    } else {
        None
    }
}

/// Whether `s` starts with a `-` sign.
pub open spec fn is_negative_literal(s: Seq<char>) -> bool {
    s.len() > 0 && s[0] == '-'
}

/// `s` without one leading `+` or `-`, if it has one.
pub open spec fn signed_digits(s: Seq<char>) -> Seq<char> {
    if s.len() > 0 && (s[0] == '+' || s[0] == '-') {
        s.drop_first()
    } else {
        s
    }
}

/// The value a signed decimal literal denotes, if it is one.
pub open spec fn signed_value(s: Seq<char>) -> int {
    if is_negative_literal(s) {
        -digits_value(signed_digits(s))
    } else {
        digits_value(signed_digits(s)) as int
    }
}

/// What `str::parse::<i32>` gives: an optional sign, then at least one ASCII
/// digit, denoting a value within the range of `i32`.
pub open spec fn parse_i32_spec(s: Seq<char>) -> Option<i32> {
    let d = signed_digits(s);
    if d.len() > 0 && all_digits(d) && i32::MIN <= signed_value(s) <= i32::MAX {
        Some(signed_value(s) as i32)
    } else {
        None
    }
}

proof fn lemma_digits_prefix_le(d: Seq<char>, k: int)
    requires
        0 <= k <= d.len(),
    ensures
        digits_value(d.take(k)) <= digits_value(d),
    decreases d.len() - k,
{
    if k == d.len() {
        assert(d.take(k) =~= d);
    } else {
        lemma_digits_prefix_le(d.drop_last(), k);
        assert(d.drop_last().take(k) =~= d.take(k));
    }
}

proof fn lemma_digits_step(d: Seq<char>, k: int)
    requires
        0 <= k < d.len(),
    ensures
        digits_value(d.take(k + 1)) == digits_value(d.take(k)) * 10 + digit_val(d[k]),
{
    assert(d.take(k + 1).drop_last() =~= d.take(k));
}

/// Value of the ASCII digit `c`.
fn digit_of(c: char) -> (v: u32)
    requires
        is_digit(c),
    ensures
        v == digit_val(c),
        v < 10,
{
    (c as u32) - 0x30
}

/// Reads the digits `s[start..]`: their value when all are digits and the value
/// is at most `bound`.
fn read_digits(s: &[char], start: usize, bound: u64) -> (r: Option<u64>)
    requires
        start <= s@.len(),
    ensures
        match r {
            Some(v) => all_digits(s@.skip(start as int)) && v == digits_value(s@.skip(start as int))
                && v <= bound,
            None => !all_digits(s@.skip(start as int)) || digits_value(s@.skip(start as int))
                > bound,
        },
{
    let ghost d = s@.skip(start as int);
    let n = s.len();
    let mut acc: u64 = 0;
    let mut i: usize = start;
    assert(d.take(0) =~= Seq::<char>::empty());
    while i < n
        invariant
            n == s@.len(),
            start <= i <= n,
            d == s@.skip(start as int),
            all_digits(d.take(i - start)),
            acc == digits_value(d.take(i - start)),
            acc <= bound,
        decreases n - i,
    {
        let c = s[i];
        if !(0x30 <= (c as u32) && (c as u32) <= 0x39) {
            assert(d[i - start] == c);
            return None;
        }
        let v = digit_of(c);
        proof {
            lemma_digits_step(d, i - start);
            assert(d[i - start] == c);
        }
        let next = match acc.checked_mul(10) {
            Some(m) => m.checked_add(v as u64),
            None => None,
        };
        proof {
            lemma_digits_prefix_le(d, i - start + 1);
        }
        let next = match next {
            Some(x) => x,
            None => {
                return None;
            },
        };
        if next > bound {
            return None;
        }
        acc = next;
        i += 1;
        assert forall|m: int| 0 <= m < d.take(i - start).len() implies is_digit(
            #[trigger] d.take(i - start)[m],
        ) by {
            if m < i - 1 - start {
                assert(d.take(i - start)[m] == d.take(i - 1 - start)[m]);
            }
        }
    }
    assert(d.take(n - start) =~= d);
    Some(acc)
}

/// Parses a decimal `usize` literal the way `str::parse::<usize>` does.
pub fn parse_usize_chars(s: &[char]) -> (r: Option<usize>)
    ensures
        r == parse_usize_spec(s@),
{
    let start: usize = if s.len() > 0 && s[0] == '+' { 1 } else { 0 };
    assert(unsigned_digits(s@) =~= s@.skip(start as int));
    if start == s.len() {
        return None;
    }
    match read_digits(s, start, usize::MAX as u64) {
        Some(v) => Some(v as usize),
        None => None,
    }
}

/// Parses a decimal `i32` literal the way `str::parse::<i32>` does.
pub fn parse_i32_chars(s: &[char]) -> (r: Option<i32>)
    ensures
        r == parse_i32_spec(s@),
{
    let signed = s.len() > 0 && (s[0] == '+' || s[0] == '-');
    let negative = s.len() > 0 && s[0] == '-';
    let start: usize = if signed { 1 } else { 0 };
    assert(signed_digits(s@) =~= s@.skip(start as int));
    if start == s.len() {
        return None;
    }
    match read_digits(s, start, 0x8000_0000) {
        Some(v) => {
            if negative {
                Some((0 - (v as i64)) as i32)
            } else if v <= 0x7fff_ffff {
                Some(v as i32)
            } else {
                None
            }
        },
        None => None,
    }
}

/// The ASCII digit for `d` (below ten).
pub open spec fn digit_char(d: nat) -> char {
    if d == 0 {
        '0'
    } else if d == 1 {
        '1'
    } else if d == 2 {
        '2'
    } else if d == 3 {
        '3'
    } else if d == 4 {
        '4'
    } else if d == 5 {
        '5'
    } else if d == 6 {
        '6'
    } else if d == 7 {
        '7'
    } else if d == 8 {
        '8'
    } else {
        '9'
    }
}

/// The decimal rendering of `n`, without leading zeros.
pub open spec fn decimal(n: nat) -> Seq<char>
    decreases n,
{
    if n < 10 {
        seq![digit_char(n)]
    } else {
        decimal(n / 10).push(digit_char(n % 10))
    }
}

/// The decimal rendering of `n`, with a `-` in front when it is negative.
pub open spec fn signed_decimal(n: int) -> Seq<char> {
    if n < 0 {
        seq!['-'] + decimal((-n) as nat)
    } else {
        decimal(n as nat)
    }
}

proof fn lemma_digit_char(d: nat)
    requires
        d < 10,
    ensures
        is_digit(digit_char(d)),
        digit_val(digit_char(d)) == d,
{
    assert('0' as u32 == 0x30);
    assert('9' as u32 == 0x39);
}

/// The decimal representation of `n` is a non-empty string of digits that
/// denotes `n`.
pub proof fn lemma_decimal(n: nat)
    ensures
        decimal(n).len() > 0,
        all_digits(decimal(n)),
        digits_value(decimal(n)) == n,
    decreases n,
{
    lemma_digit_char(n % 10);
    assert(n == (n / 10) * 10 + n % 10);
    if n < 10 {
        assert(decimal(n).drop_last() =~= Seq::<char>::empty());
        assert(digits_value(Seq::<char>::empty()) == 0);
        assert(decimal(n).last() == digit_char(n));
    } else {
        lemma_decimal(n / 10);
        let d = decimal(n);
        assert(d.drop_last() =~= decimal(n / 10));
        assert(d.last() == digit_char(n % 10));
        assert forall|i: int| 0 <= i < d.len() implies is_digit(#[trigger] d[i]) by {
            if i < d.len() - 1 {
                assert(d[i] == decimal(n / 10)[i]);
            }
        }
    }
}

/// A signed decimal literal reads as a `usize` exactly when its number fits.
pub proof fn lemma_parse_decimal_usize(n: int)
    ensures
        parse_usize_spec(signed_decimal(n)) == if 0 <= n <= usize::MAX {
            Some(n as usize)
        } else {
            None::<usize>
        },
{
    let s = signed_decimal(n);
    if n < 0 {
        lemma_decimal((-n) as nat);
        assert(s[0] == '-');
        assert(unsigned_digits(s) == s);
        assert(!is_digit(s[0]));
    } else {
        lemma_decimal(n as nat);
        assert(is_digit(decimal(n as nat)[0]));
        assert(unsigned_digits(decimal(n as nat)) == decimal(n as nat));
    }
}

/// A signed decimal literal reads as an `i32` exactly when its number fits.
pub proof fn lemma_parse_decimal_i32(n: int)
    ensures
        parse_i32_spec(signed_decimal(n)) == if i32::MIN <= n <= i32::MAX {
            Some(n as i32)
        } else {
            None::<i32>
        },
{
    let s = signed_decimal(n);
    if n < 0 {
        lemma_decimal((-n) as nat);
        assert(s.drop_first() =~= decimal((-n) as nat));
        assert(signed_digits(s) == decimal((-n) as nat));
    } else {
        lemma_decimal(n as nat);
        assert(is_digit(s[0]));
        assert(signed_digits(s) == s);
    }
}

/// Whether two strings hold the same characters.
pub fn str_eq(a: &str, b: &str) -> (r: bool)
    ensures
        r == (a@ == b@),
{
    let x = chars_of(a);
    let y = chars_of(b);
    if x.len() != y.len() {
        return false;
    }
    let mut i: usize = 0;
    while i < x.len()
        invariant
            x@ == a@,
            y@ == b@,
            x@.len() == y@.len(),
            i <= x@.len(),
            forall|j: int| 0 <= j < i ==> x@[j] == y@[j],
        decreases x@.len() - i,
    {
        if x[i] != y[i] {
            return false;
        }
        i += 1;
    }
    assert(x@ =~= y@);
    true
}

/// The code of `c` with ASCII upper-case letters mapped to lower case.
pub open spec fn ascii_lower(c: char) -> int {
    if 0x41 <= (c as u32) <= 0x5a {
        (c as u32) + 0x20
    } else {
        (c as u32) as int
    }
}

/// Whether `a` and `b` are equal when ASCII letters are compared without regard
/// to case, as `str::eq_ignore_ascii_case` compares them.
pub open spec fn eq_ignore_ascii_case_spec(a: Seq<char>, b: Seq<char>) -> bool {
    a.len() == b.len() && forall|i: int| 0 <= i < a.len() ==> ascii_lower(#[trigger] a[i]) == ascii_lower(
        b[i],
    )
}

fn to_ascii_lower(c: char) -> (r: u32)
    ensures
        r == ascii_lower(c),
{
    let u = c as u32;
    if 0x41 <= u && u <= 0x5a {
        u + 0x20
    } else {
        u
    }
}

/// Whether `a` and `b` are equal ignoring the case of ASCII letters.
pub fn eq_ignore_ascii_case(a: &str, b: &str) -> (r: bool)
    ensures
        r == eq_ignore_ascii_case_spec(a@, b@),
{
    let x = chars_of(a);
    let y = chars_of(b);
    if x.len() != y.len() {
        return false;
    }
    let mut i: usize = 0;
    while i < x.len()
        invariant
            x@ == a@,
            y@ == b@,
            x@.len() == y@.len(),
            i <= x@.len(),
            forall|j: int| 0 <= j < i ==> ascii_lower(#[trigger] x@[j]) == ascii_lower(y@[j]),
        decreases x@.len() - i,
    {
        if to_ascii_lower(x[i]) != to_ascii_lower(y[i]) {
            return false;
        }
        i += 1;
    }
    true
}

/// `a`, followed by a space, followed by `b`, splits into `a` and then the
/// tokens of `b`, when `a` is one non-empty run of non-whitespace.
proof fn lemma_tokens_cons(a: Seq<char>, b: Seq<char>)
    requires
        a.len() > 0,
        forall|i: int| 0 <= i < a.len() ==> !is_ws(#[trigger] a[i]),
    ensures
        tokens(a + seq![' '] + b) == seq![a] + tokens(b),
{
    let s = a + seq![' '] + b;
    assert forall|m: int| 0 <= m < a.len() implies !is_ws(#[trigger] s[m]) by {
        assert(s[m] == a[m]);
    }
    assert(s[a.len() as int] == ' ');
    lemma_run_len_exact(s, a.len() as int);
    assert(s.take(a.len() as int) =~= a);
    let rest = s.skip(a.len() as int);
    assert(rest =~= seq![' '] + b);
    assert(rest.drop_first() =~= b);
    assert(' ' as u32 == 0x20);
    assert(is_ws(rest[0]));
    assert(tokens(rest) == tokens(b));
    assert(!is_ws(s[0]));
    assert(tokens(s) == seq![s.take(run_len(s) as int)] + tokens(s.skip(run_len(s) as int)));
}

/// A single non-empty run of non-whitespace is one token.
pub proof fn lemma_tokens_single(a: Seq<char>)
    requires
        a.len() > 0,
        forall|i: int| 0 <= i < a.len() ==> !is_ws(#[trigger] a[i]),
    ensures
        tokens(a) == seq![a],
{
    lemma_run_len_exact(a, a.len() as int);
    assert(a.take(a.len() as int) =~= a);
    assert(a.skip(a.len() as int) =~= Seq::<char>::empty());
    assert(seq![a] + tokens(Seq::<char>::empty()) =~= seq![a]);
}

/// The decimal renderings of `xs`, separated by single spaces.
pub open spec fn join_decimals(xs: Seq<usize>) -> Seq<char>
    decreases xs.len(),
{
    if xs.len() == 0 {
        seq![]
    } else if xs.len() == 1 {
        decimal(xs[0] as nat)
    } else {
        decimal(xs[0] as nat) + seq![' '] + join_decimals(xs.drop_first())
    }
}

/// The decimal rendering of a number is a non-empty run of non-whitespace.
pub proof fn lemma_decimal_no_ws(n: nat)
    ensures
        decimal(n).len() > 0,
        forall|i: int| 0 <= i < decimal(n).len() ==> !is_ws(#[trigger] decimal(n)[i]),
{
    lemma_decimal(n);
    assert forall|i: int| 0 <= i < decimal(n).len() implies !is_ws(#[trigger] decimal(n)[i]) by {
        assert(is_digit(decimal(n)[i]));
    }
}

/// The tokens of a space-separated list of numbers are the numbers' renderings.
pub proof fn lemma_tokens_join_decimals(xs: Seq<usize>)
    ensures
        tokens(join_decimals(xs)) == xs.map_values(|x: usize| decimal(x as nat)),
    decreases xs.len(),
{
    if xs.len() == 0 {
        assert(tokens(join_decimals(xs)) =~= xs.map_values(|x: usize| decimal(x as nat)));
    } else if xs.len() == 1 {
        lemma_decimal_no_ws(xs[0] as nat);
        lemma_tokens_single(decimal(xs[0] as nat));
        assert(seq![decimal(xs[0] as nat)] =~= xs.map_values(|x: usize| decimal(x as nat)));
    } else {
        lemma_decimal_no_ws(xs[0] as nat);
        lemma_tokens_cons(decimal(xs[0] as nat), join_decimals(xs.drop_first()));
        lemma_tokens_join_decimals(xs.drop_first());
        assert(seq![decimal(xs[0] as nat)] + xs.drop_first().map_values(|x: usize| decimal(x as nat))
            =~= xs.map_values(|x: usize| decimal(x as nat)));
    }
}

} // verus!
