use vstd::prelude::*;
use vstd::string::{StrSliceExecFns, StringExecFns};
use vstd::utf8::{decode_utf8, valid_utf8};

verus! {

/// `char::is_whitespace`: the characters with Unicode's White_Space property.
pub open spec fn is_space(c: char) -> bool {
    ||| '\u{9}' <= c <= '\u{d}'
    ||| c == ' '
    ||| c == '\u{85}'
    ||| c == '\u{a0}'
    ||| c == '\u{1680}'
    ||| '\u{2000}' <= c <= '\u{200a}'
    ||| c == '\u{2028}'
    ||| c == '\u{2029}'
    ||| c == '\u{202f}'
    ||| c == '\u{205f}'
    ||| c == '\u{3000}'
}

/// The number of whitespace characters at the start of `s`.
pub open spec fn leading_space(s: Seq<char>) -> nat
    decreases s.len(),
{
    if s.len() > 0 && is_space(s[0]) {
        1 + leading_space(s.drop_first())
    } else {
        0
    }
}

/// The number of whitespace characters at the end of `s`.
pub open spec fn trailing_space(s: Seq<char>) -> nat
    decreases s.len(),
{
    if s.len() > 0 && is_space(s.last()) {
        1 + trailing_space(s.drop_last())
    } else {
        0
    }
}

/// `str::trim`: `s` without its leading and trailing whitespace.
pub open spec fn trim(s: Seq<char>) -> Seq<char> {
    let rest = s.skip(leading_space(s) as int);
    rest.take(rest.len() - trailing_space(rest))
}

/// Whether every character of `s` is whitespace (`s.trim().is_empty()`).
pub open spec fn is_blank(s: Seq<char>) -> bool {
    forall|i: int| 0 <= i < s.len() ==> is_space(#[trigger] s[i])
}

/// The code of `c.to_ascii_lowercase()`.
pub open spec fn ascii_lower(c: char) -> int {
    if 'A' <= c <= 'Z' {
        (c as u32) + 32
    } else {
        c as u32 as int
    }
}

/// `str::eq_ignore_ascii_case`, character by character.
pub open spec fn eq_ignore_ascii_case(a: Seq<char>, b: Seq<char>) -> bool {
    &&& a.len() == b.len()
    &&& forall|i: int| 0 <= i < a.len() ==> ascii_lower(#[trigger] a[i]) == ascii_lower(b[i])
}

/// Why `usize::from_str` refused a text.
#[derive(Debug)]
pub enum IntError {
    Empty,
    InvalidDigit,
    PosOverflow,
}

/// The digits from position `i` on, appended to `acc`, as `usize::from_str`
/// reads them from left to right.
pub open spec fn parse_digits(s: Seq<char>, i: int, acc: nat) -> Result<nat, IntError>
    decreases s.len() - i,
{
    if i >= s.len() {
        Ok(acc)
    } else if !('0' <= s[i] <= '9') {
        Err(IntError::InvalidDigit)
    } else {
        let next = acc * 10 + (s[i] as u32 - '0' as u32);
        if next > usize::MAX {
            Err(IntError::PosOverflow)
        } else {
            parse_digits(s, i + 1, next as nat)
        }
    }
}

/// `usize::from_str`: an optional `+`, then decimal digits, within `usize`.
pub open spec fn parse_usize(s: Seq<char>) -> Result<nat, IntError> {
    if s.len() == 0 {
        Err(IntError::Empty)
    } else if s.len() == 1 && (s[0] == '+' || s[0] == '-') {
        Err(IntError::InvalidDigit)
    } else if s[0] == '+' {
        parse_digits(s, 1, 0)
    } else {
        parse_digits(s, 0, 0)
    }
}

/// What `ParseIntError` displays for each kind.
pub open spec fn int_error_text(e: IntError) -> Seq<char> {
    match e {
        IntError::Empty => "cannot parse integer from empty string"@,
        IntError::InvalidDigit => "invalid digit found in string"@,
        IntError::PosOverflow => "number too large to fit in target type"@,
    }
}

pub fn is_space_char(c: char) -> (r: bool)
    ensures
        r == is_space(c),
{
    ('\u{9}' <= c && c <= '\u{d}') || c == ' ' || c == '\u{85}' || c == '\u{a0}' || c
        == '\u{1680}' || ('\u{2000}' <= c && c <= '\u{200a}') || c == '\u{2028}' || c
        == '\u{2029}' || c == '\u{202f}' || c == '\u{205f}' || c == '\u{3000}'
}

/// The characters of `s`, in order.
pub fn chars_of(s: &str) -> (r: Vec<char>)
    ensures
        r@ == s@,
{
    let n = s.unicode_len();
    let mut out: Vec<char> = Vec::new();
    let mut i: usize = 0;
    while i < n
        invariant
            n == s@.len(),
            0 <= i <= n,
            out@ == s@.take(i as int),
        decreases n - i,
    {
        let c = s.get_char(i);
        out.push(c);
        i = i + 1;
        assert(out@ =~= s@.take(i as int));
    }
    assert(s@.take(n as int) =~= s@);
    out
}

pub proof fn lemma_leading_space_bound(s: Seq<char>)
    ensures
        leading_space(s) <= s.len(),
        forall|i: int| 0 <= i < leading_space(s) ==> is_space(#[trigger] s[i]),
        leading_space(s) < s.len() ==> !is_space(s[leading_space(s) as int]),
    decreases s.len(),
{
    if s.len() > 0 && is_space(s[0]) {
        lemma_leading_space_bound(s.drop_first());
        assert forall|i: int| 0 <= i < leading_space(s) implies is_space(#[trigger] s[i]) by {
            if i > 0 {
                assert(s[i] == s.drop_first()[i - 1]);
            }
        }
    }
}

pub proof fn lemma_leading_space_step(s: Seq<char>, k: int)
    requires
        0 <= k <= s.len(),
        forall|i: int| 0 <= i < k ==> is_space(#[trigger] s[i]),
        k == s.len() || !is_space(s[k]),
    ensures
        leading_space(s) == k,
    decreases s.len(),
{
    if k > 0 {
        assert forall|i: int| 0 <= i < k - 1 implies is_space(#[trigger] s.drop_first()[i]) by {
            assert(s.drop_first()[i] == s[i + 1]);
        }
        if k - 1 < s.drop_first().len() {
            assert(s.drop_first()[k - 1] == s[k]);
        }
        lemma_leading_space_step(s.drop_first(), k - 1);
    }
}

proof fn lemma_trailing_space_step(s: Seq<char>, k: int)
    requires
        0 <= k <= s.len(),
        forall|i: int| s.len() - k <= i < s.len() ==> is_space(#[trigger] s[i]),
        k == s.len() || !is_space(s[s.len() - k - 1]),
    ensures
        trailing_space(s) == k,
    decreases s.len(),
{
    if k > 0 {
        let t = s.drop_last();
        assert forall|i: int| t.len() - (k - 1) <= i < t.len() implies is_space(#[trigger] t[i]) by {
            assert(t[i] == s[i]);
        }
        if k - 1 < t.len() {
            assert(t[t.len() - (k - 1) - 1] == s[s.len() - k - 1]);
        }
        lemma_trailing_space_step(t, k - 1);
    }
}

/// `str::trim`
pub fn trim_text(s: &str) -> (r: String)
    ensures
        r@ == trim(s@),
{
    let chars = chars_of(s);
    let n = chars.len();
    let mut a: usize = 0;
    while a < n && is_space_char(chars[a])
        invariant
            chars@ == s@,
            n == chars@.len(),
            0 <= a <= n,
            forall|i: int| 0 <= i < a ==> is_space(#[trigger] chars@[i]),
        decreases n - a,
    {
        a = a + 1;
    }
    proof {
        lemma_leading_space_step(s@, a as int);
    }
    let ghost rest = s@.skip(a as int);
    let mut b: usize = n;
    while b > a && is_space_char(chars[b - 1])
        invariant
            chars@ == s@,
            n == chars@.len(),
            0 <= a <= b <= n,
            rest == s@.skip(a as int),
            forall|i: int| b <= i < n ==> is_space(#[trigger] chars@[i]),
        decreases b,
    {
        b = b - 1;
    }
    proof {
        let k = (n - b) as int;
        assert forall|i: int| rest.len() - k <= i < rest.len() implies is_space(#[trigger] rest[i]) by {
            assert(rest[i] == s@[i + a]);
        }
        if k < rest.len() {
            assert(rest[rest.len() - k - 1] == s@[b - 1]);
        }
        lemma_trailing_space_step(rest, k);
        assert(s@.subrange(a as int, b as int) =~= rest.take(rest.len() - k));
    }
    s.substring_char(a, b).to_owned()
}

/// `s.trim().is_empty()`
pub fn blank_text(s: &str) -> (r: bool)
    ensures
        r == is_blank(s@),
{
    let chars = chars_of(s);
    let mut i: usize = 0;
    while i < chars.len()
        invariant
            chars@ == s@,
            0 <= i <= chars.len(),
            forall|j: int| 0 <= j < i ==> is_space(#[trigger] chars@[j]),
        decreases chars.len() - i,
    {
        if !is_space_char(chars[i]) {
            return false;
        }
        i = i + 1;
    }
    true
}

/// `a.eq_ignore_ascii_case(&b)` for single characters.
pub fn same_char_ignoring_case(a: char, b: char) -> (r: bool)
    ensures
        r == (ascii_lower(a) == ascii_lower(b)),
{
    let x: u32 = if 'A' <= a && a <= 'Z' {
        (a as u32) + 32
    } else {
        a as u32
    };
    let y: u32 = if 'A' <= b && b <= 'Z' {
        (b as u32) + 32
    } else {
        b as u32
    };
    x == y
}

/// `str::eq_ignore_ascii_case`
pub fn same_text_ignoring_case(a: &str, b: &str) -> (r: bool)
    ensures
        r == eq_ignore_ascii_case(a@, b@),
{
    let x = chars_of(a);
    let y = chars_of(b);
    if x.len() != y.len() {
        return false;
    }
    let mut i: usize = 0;
    while i < x.len()
        invariant
            x@ == a@,
            y@ == b@,
            x@.len() == y@.len(),
            0 <= i <= x.len(),
            forall|j: int| 0 <= j < i ==> ascii_lower(#[trigger] x@[j]) == ascii_lower(y@[j]),
        decreases x.len() - i,
    {
        if !same_char_ignoring_case(x[i], y[i]) {
            return false;
        }
        i = i + 1;
    }
    true
}

/// `usize::from_str`
pub fn parse_usize_text(s: &str) -> (r: Result<usize, IntError>)
    ensures
        match r {
            Ok(n) => parse_usize(s@) == Ok::<nat, IntError>(n as nat),
            Err(e) => parse_usize(s@) == Err::<nat, IntError>(e),
        },
{
    let c = chars_of(s);
    let n = c.len();
    if n == 0 {
        return Err(IntError::Empty);
    }
    if n == 1 && (c[0] == '+' || c[0] == '-') {
        return Err(IntError::InvalidDigit);
    }
    let mut i: usize = if c[0] == '+' {
        1
    } else {
        0
    };
    let mut acc: usize = 0;
    while i < n
        invariant
            c@ == s@,
            n == c@.len(),
            0 <= i <= n,
            parse_usize(s@) == parse_digits(s@, i as int, acc as nat),
        decreases n - i,
    {
        let ch = c[i];
        if !('0' <= ch && ch <= '9') {
            return Err(IntError::InvalidDigit);
        }
        let d: usize = ((ch as u32) - ('0' as u32)) as usize;
        assert(d <= 9);
        if acc > (usize::MAX - d) / 10 {
            assert(acc * 10 + d > usize::MAX) by (nonlinear_arith)
                requires
                    acc > (usize::MAX - d) / 10,
                    d <= 9,
            ;
            return Err(IntError::PosOverflow);
        }
        assert(acc * 10 + d <= usize::MAX) by (nonlinear_arith)
            requires
                acc <= (usize::MAX - d) / 10,
                d <= 9,
        ;
        acc = acc * 10 + d;
        i = i + 1;
    }
    Ok(acc)
}

/// The text that `ParseIntError` displays.
pub fn int_error_message(e: &IntError) -> (r: String)
    ensures
        r@ == int_error_text(*e),
{
    match e {
        IntError::Empty => "cannot parse integer from empty string".to_owned(),
        IntError::InvalidDigit => "invalid digit found in string".to_owned(),
        IntError::PosOverflow => "number too large to fit in target type".to_owned(),
    }
}

/// `std::str::from_utf8`, owned: the text that `bytes` encode, or nothing
/// where they are not valid UTF-8.
#[verifier::external_body]
pub fn utf8_text(bytes: &[u8]) -> (r: Option<String>)
    ensures
        match r {
            Some(s) => valid_utf8(bytes@) && s@ == decode_utf8(bytes@),
            None => !valid_utf8(bytes@),
        },
{
    match std::str::from_utf8(bytes) {
        Ok(s) => Some(s.to_owned()),
        Err(_) => None,
    }
}

/// The decimal digit for `d` (below ten).
pub open spec fn digit_char(d: nat) -> char {
    if d == 0 {
        '0'
    } else if d == 1 {
        '1'
    } else if d == 2 {
        '2'
    } else if d == 3 {
        '3'
    } else if d == 4 {
        '4'
    } else if d == 5 {
        '5'
    } else if d == 6 {
        '6'
    } else if d == 7 {
        '7'
    } else if d == 8 {
        '8'
    } else {
        '9'
    }
}

/// The decimal form of `n`, without leading zeros.
pub open spec fn decimal(n: nat) -> Seq<char>
    decreases n,
{
    if n < 10 {
        seq![digit_char(n)]
    } else {
        decimal(n / 10).push(digit_char(n % 10))
    }
}

/// The decimal form of an integer, with `-` before a negative one.
pub open spec fn int_text(n: int) -> Seq<char> {
    if n < 0 {
        seq!['-'] + decimal((-n) as nat)
    } else {
        decimal(n as nat)
    }
}

fn digit_text(d: u64) -> (r: &'static str)
    requires
        d < 10,
    ensures
        r@ == seq![digit_char(d as nat)],
{
    proof {
        reveal_strlit("0");
        reveal_strlit("1");
        reveal_strlit("2");
        reveal_strlit("3");
        reveal_strlit("4");
        reveal_strlit("5");
        reveal_strlit("6");
        reveal_strlit("7");
        reveal_strlit("8");
        reveal_strlit("9");
    }
    let r = if d == 0 {
        "0"
    } else if d == 1 {
        "1"
    } else if d == 2 {
        "2"
    } else if d == 3 {
        "3"
    } else if d == 4 {
        "4"
    } else if d == 5 {
        "5"
    } else if d == 6 {
        "6"
    } else if d == 7 {
        "7"
    } else if d == 8 {
        "8"
    } else {
        "9"
    };
    assert(r@ =~= seq![digit_char(d as nat)]);
    r
}

/// The decimal form of `n`.
pub fn u64_text(n: u64) -> (r: String)
    ensures
        r@ == decimal(n as nat),
    decreases n,
{
    if n < 10 {
        digit_text(n).to_owned()
    } else {
        let mut s = u64_text(n / 10);
        s.append(digit_text(n % 10));
        s
    }
}

/// `i64::to_string`
pub fn i64_text(n: i64) -> (r: String)
    ensures
        r@ == int_text(n as int),
{
    if n < 0 {
        let m: u64 = if n == i64::MIN {
            9223372036854775808u64
        } else {
            (-n) as u64
        };
        let mut s = "-".to_owned();
        proof {
            reveal_strlit("-");
        }
        s.append(u64_text(m).as_str());
        assert(s@ =~= seq!['-'] + decimal((-n) as nat));
        s
    } else {
        u64_text(n as u64)
    }
}

/// The number of non-whitespace characters at the start of `s`.
pub open spec fn word_len(s: Seq<char>) -> nat
    decreases s.len(),
{
    if s.len() > 0 && !is_space(s[0]) {
        1 + word_len(s.drop_first())
    } else {
        0
    }
}

pub proof fn lemma_word_len_bound(s: Seq<char>)
    ensures
        word_len(s) <= s.len(),
        s.len() > 0 && !is_space(s[0]) ==> word_len(s) >= 1,
    decreases s.len(),
{
    if s.len() > 0 && !is_space(s[0]) {
        lemma_word_len_bound(s.drop_first());
    }
}

pub proof fn lemma_word_len_step(s: Seq<char>, k: int)
    requires
        0 <= k <= s.len(),
        forall|i: int| 0 <= i < k ==> !is_space(#[trigger] s[i]),
        k == s.len() || is_space(s[k]),
    ensures
        word_len(s) == k,
    decreases s.len(),
{
    if k > 0 {
        assert forall|i: int| 0 <= i < k - 1 implies !is_space(#[trigger] s.drop_first()[i]) by {
            assert(s.drop_first()[i] == s[i + 1]);
        }
        if k - 1 < s.drop_first().len() {
            assert(s.drop_first()[k - 1] == s[k]);
        }
        lemma_word_len_step(s.drop_first(), k - 1);
    }
}

/// `str::split_whitespace`: the maximal runs of non-whitespace characters,
/// in order.
pub open spec fn words(s: Seq<char>) -> Seq<Seq<char>>
    decreases s.len(),
{
    let t = s.skip(leading_space(s) as int);
    proof {
        lemma_leading_space_bound(s);
    }
    if t.len() == 0 {
        Seq::empty()
    } else {
        proof {
            lemma_word_len_bound(t);
        }
        seq![t.take(word_len(t) as int)] + words(t.skip(word_len(t) as int))
    }
}

/// `s.split_whitespace()`, collected.
pub fn split_words(s: &str) -> (r: Vec<String>)
    ensures
        Seq::new(r@.len(), |i: int| r@[i]@) == words(s@),
{
    let c = chars_of(s);
    let n = c.len();
    let mut out: Vec<String> = Vec::new();
    let mut i: usize = 0;
    assert(s@.skip(0) =~= s@);
    while i < n
        invariant
            c@ == s@,
            n == c@.len(),
            0 <= i <= n,
            words(s@) == Seq::new(out@.len(), |k: int| out@[k]@) + words(s@.skip(i as int)),
        decreases n - i,
    {
        let ghost rest = s@.skip(i as int);
        let mut a = i;
        while a < n && is_space_char(c[a])
            invariant
                c@ == s@,
                n == c@.len(),
                i <= a <= n,
                forall|k: int| i <= k < a ==> is_space(#[trigger] c@[k]),
            decreases n - a,
        {
            a = a + 1;
        }
        proof {
            assert forall|k: int| 0 <= k < a - i implies is_space(#[trigger] rest[k]) by {
                assert(rest[k] == c@[k + i]);
            }
            if a < n {
                assert(rest[a - i] == c@[a as int]);
            }
            lemma_leading_space_step(rest, a - i);
            assert(rest.skip(a - i) =~= s@.skip(a as int));
        }
        if a == n {
            assert(words(rest) =~= Seq::empty());
            i = n;
            assert(Seq::new(out@.len(), |k: int| out@[k]@) + Seq::<Seq<char>>::empty()
                =~= Seq::new(out@.len(), |k: int| out@[k]@));
            assert(s@.skip(n as int) =~= Seq::<char>::empty());
            assert(words(s@.skip(n as int)) =~= Seq::empty()) by {
                assert(s@.skip(n as int).skip(0) =~= Seq::<char>::empty());
            }
        } else {
            let mut b = a;
            while b < n && !is_space_char(c[b])
                invariant
                    c@ == s@,
                    n == c@.len(),
                    a <= b <= n,
                    forall|k: int| a <= k < b ==> !is_space(#[trigger] c@[k]),
                decreases n - b,
            {
                b = b + 1;
            }
            let ghost t = s@.skip(a as int);
            proof {
                assert forall|k: int| 0 <= k < b - a implies !is_space(#[trigger] t[k]) by {
                    assert(t[k] == c@[k + a]);
                }
                if b < n {
                    assert(t[b - a] == c@[b as int]);
                }
                lemma_word_len_step(t, b - a);
                assert(t.take(b - a) =~= s@.subrange(a as int, b as int));
                assert(t.skip(b - a) =~= s@.skip(b as int));
            }
            let ghost before = Seq::new(out@.len(), |k: int| out@[k]@);
            out.push(s.substring_char(a, b).to_owned());
            assert(Seq::new(out@.len(), |k: int| out@[k]@) =~= before.push(s@.subrange(a as int, b as int)));
            i = b;
        }
    }
    assert(s@.skip(n as int) =~= Seq::<char>::empty());
    assert(words(s@.skip(n as int)) =~= Seq::empty()) by {
        assert(s@.skip(n as int).skip(0) =~= Seq::<char>::empty());
    }
    assert(words(s@) =~= Seq::new(out@.len(), |k: int| out@[k]@));
    out
}

pub proof fn lemma_digit_char(d: nat)
    requires
        d < 10,
    ensures
        '0' <= digit_char(d) <= '9',
        digit_char(d) as u32 - '0' as u32 == d,
        !is_space(digit_char(d)),
        digit_char(d) != '+' && digit_char(d) != '-' && digit_char(d) != ':',
        digit_char(d) != '\r' && digit_char(d) != '\n',
{
}

/// Reading one more character after `s`.
proof fn lemma_parse_digits_push(s: Seq<char>, c: char, i: int, acc: nat)
    requires
        0 <= i <= s.len(),
    ensures
        parse_digits(s.push(c), i, acc) == match parse_digits(s, i, acc) {
            Ok(v) => parse_digits(seq![c], 0, v),
            Err(e) => Err(e),
        },
    decreases s.len() - i,
{
    let t = s.push(c);
    if i == s.len() {
        assert(t[i] == c);
        assert(seq![c][0] == c);
        if '0' <= c <= '9' {
            let next = acc * 10 + (c as u32 - '0' as u32);
            if next <= usize::MAX {
                assert(parse_digits(t, i + 1, next as nat) == Ok::<nat, IntError>(next as nat));
                assert(parse_digits(seq![c], 1, next as nat) == Ok::<nat, IntError>(next as nat));
            }
        }
    } else {
        assert(t[i] == s[i]);
        if '0' <= s[i] <= '9' {
            let next = acc * 10 + (s[i] as u32 - '0' as u32);
            if next <= usize::MAX {
                lemma_parse_digits_push(s, c, i + 1, next as nat);
            }
        }
    }
}

pub proof fn lemma_decimal_shape(n: nat)
    ensures
        decimal(n).len() >= 1,
        forall|i: int| 0 <= i < decimal(n).len() ==> '0' <= #[trigger] decimal(n)[i] <= '9',
        forall|i: int|
            0 <= i < decimal(n).len() ==> !is_space(#[trigger] decimal(n)[i]) && decimal(n)[i]
                != ':' && decimal(n)[i] != '\r' && decimal(n)[i] != '\n' && decimal(n)[i] != '+'
                && decimal(n)[i] != '-',
    decreases n,
{
    if n < 10 {
        lemma_digit_char(n);
    } else {
        lemma_decimal_shape(n / 10);
        lemma_digit_char(n % 10);
        let d = decimal(n / 10);
        assert forall|i: int| 0 <= i < decimal(n).len() implies '0' <= #[trigger] decimal(n)[i] <= '9' by {
            if i < d.len() {
                assert(decimal(n)[i] == d[i]);
            }
        }
        assert forall|i: int| 0 <= i < decimal(n).len() implies !is_space(#[trigger] decimal(n)[i])
            && decimal(n)[i] != ':' && decimal(n)[i] != '\r' && decimal(n)[i] != '\n'
            && decimal(n)[i] != '+' && decimal(n)[i] != '-' by {
            if i < d.len() {
                assert(decimal(n)[i] == d[i]);
            }
        }
    }
}

/// Reading back a number written in decimal gives the number.
pub proof fn lemma_parse_decimal(n: nat)
    requires
        n <= usize::MAX,
    ensures
        parse_usize(decimal(n)) == Ok::<nat, IntError>(n),
        parse_digits(decimal(n), 0, 0) == Ok::<nat, IntError>(n),
    decreases n,
{
    lemma_decimal_shape(n);
    if n < 10 {
        lemma_digit_char(n);
        let c = digit_char(n);
        assert(decimal(n) == seq![c]);
        assert(parse_digits(seq![c], 1, n) == Ok::<nat, IntError>(n));
    } else {
        lemma_parse_decimal(n / 10);
        let c = digit_char(n % 10);
        lemma_digit_char(n % 10);
        lemma_parse_digits_push(decimal(n / 10), c, 0, 0);
        assert(seq![c][0] == c);
        assert((n / 10) * 10 + n % 10 == n);
        assert(parse_digits(seq![c], 1, n) == Ok::<nat, IntError>(n));
    }
    assert(decimal(n)[0] != '+');
}

proof fn lemma_trailing_space_bound(s: Seq<char>)
    ensures
        trailing_space(s) <= s.len(),
        trailing_space(s) == s.len() ==> forall|i: int| 0 <= i < s.len() ==> is_space(#[trigger] s[i]),
    decreases s.len(),
{
    if s.len() > 0 && is_space(s.last()) {
        lemma_trailing_space_bound(s.drop_last());
        if trailing_space(s) == s.len() {
            assert forall|i: int| 0 <= i < s.len() implies is_space(#[trigger] s[i]) by {
                if i < s.len() - 1 {
                    assert(s.drop_last()[i] == s[i]);
                }
            }
        }
    }
}

/// A text is blank exactly when trimming leaves nothing of it.
pub proof fn lemma_blank_iff_trim_empty(s: Seq<char>)
    ensures
        is_blank(s) <==> trim(s).len() == 0,
{
    lemma_leading_space_bound(s);
    let rest = s.skip(leading_space(s) as int);
    lemma_trailing_space_bound(rest);
    if is_blank(s) {
        lemma_leading_space_step(s, s.len() as int);
    }
    if trim(s).len() == 0 && rest.len() > 0 {
        assert(rest[0] == s[leading_space(s) as int]);
        assert(trailing_space(rest) == rest.len());
        assert(is_space(rest[0]));
    }
}

} // verus!
