//! Text handling for requests: trimming, integer parsing and rendering.
use vstd::prelude::*;

verus! {

/// Whether a character has Unicode's `White_Space` property.
pub open spec fn white_space(c: char) -> bool {
    let u = c as u32;
    ||| 0x09 <= u <= 0x0d
    ||| u == 0x20
    ||| u == 0x85
    ||| u == 0xa0
    ||| u == 0x1680
    ||| 0x2000 <= u <= 0x200a
    ||| u == 0x2028
    ||| u == 0x2029
    ||| u == 0x202f
    ||| u == 0x205f
    ||| u == 0x3000
}

/// Relies on `char::is_whitespace`: true exactly for characters with the
/// `White_Space` property of Unicode's PropList.txt, the set listed above.
#[verifier::external_body]
fn is_white_space(c: char) -> (r: bool)
    ensures
        r == white_space(c),
{
    c.is_whitespace()
}

/// `s` without its leading white space.
pub open spec fn trim_start(s: Seq<char>) -> Seq<char>
    decreases s.len(),
{
    if s.len() > 0 && white_space(s[0]) {
        trim_start(s.drop_first())
    } else {
        s
    }
}

/// `s` without its trailing white space.
pub open spec fn trim_end(s: Seq<char>) -> Seq<char>
    decreases s.len(),
{
    if s.len() > 0 && white_space(s.last()) {
        trim_end(s.drop_last())
    } else {
        s
    }
}

/// `s` without white space at either end.
pub open spec fn trimmed(s: Seq<char>) -> Seq<char> {
    trim_end(trim_start(s))
}

/// A text made of white space alone trims to nothing, and only such a text does.
pub proof fn lemma_trimmed_empty_iff_blank(s: Seq<char>)
    ensures
        trimmed(s).len() == 0 <==> (forall|i: int| 0 <= i < s.len() ==> white_space(#[trigger] s[i])),
    decreases s.len(),
{
    lemma_trim_start_blank(s);
    let t = trim_start(s);
    if t.len() > 0 {
        assert(!white_space(t[0]));
        lemma_trim_end_keeps_non_blank(t);
    }
}

proof fn lemma_trim_start_blank(s: Seq<char>)
    ensures
        trim_start(s).len() == 0 <==> (forall|i: int| 0 <= i < s.len() ==> white_space(#[trigger] s[i])),
        trim_start(s).len() > 0 ==> !white_space(trim_start(s)[0]),
    decreases s.len(),
{
    if s.len() > 0 && white_space(s[0]) {
        lemma_trim_start_blank(s.drop_first());
        if trim_start(s).len() == 0 {
            assert forall|i: int| 0 <= i < s.len() implies white_space(#[trigger] s[i]) by {
                if i > 0 {
                    assert(s[i] == s.drop_first()[i - 1]);
                }
            }
        } else {
            let i = choose|i: int| 0 <= i < s.drop_first().len() && !white_space(s.drop_first()[i]);
            assert(s[i + 1] == s.drop_first()[i]);
        }
    }
}

proof fn lemma_trim_end_keeps_non_blank(t: Seq<char>)
    requires
        t.len() > 0,
        !white_space(t[0]),
    ensures
        trim_end(t).len() > 0,
    decreases t.len(),
{
    if white_space(t.last()) {
        assert(t.len() > 1);
        assert(t.drop_last()[0] == t[0]);
        lemma_trim_end_keeps_non_blank(t.drop_last());
    }
}

/// Returns `s` with the white space at both ends taken off.
pub fn trim_text(s: &str) -> (r: String)
    ensures
        r@ == trimmed(s@),
{
    let n = s.unicode_len();
    let mut a: usize = 0;
    assert(s@.subrange(0, n as int) =~= s@);
    while a < n && is_white_space(s.get_char(a))
        invariant
            n == s@.len(),
            a <= n,
            trim_start(s@) == trim_start(s@.subrange(a as int, n as int)),
        decreases n - a,
    {
        assert(s@.subrange(a as int, n as int).drop_first() =~= s@.subrange(a + 1, n as int));
        a = a + 1;
    }
    assert(trim_start(s@) == s@.subrange(a as int, n as int)) by {
        if a == n {
            assert(s@.subrange(a as int, n as int).len() == 0);
        } else {
            assert(s@.subrange(a as int, n as int)[0] == s@[a as int]);
        }
    }
    let mut b: usize = n;
    while b > a && is_white_space(s.get_char(b - 1))
        invariant
            n == s@.len(),
            a <= b <= n,
            trim_end(s@.subrange(a as int, n as int)) == trim_end(s@.subrange(a as int, b as int)),
        decreases b - a,
    {
        assert(s@.subrange(a as int, b as int).drop_last() =~= s@.subrange(a as int, b - 1));
        b = b - 1;
    }
    assert(trim_end(s@.subrange(a as int, b as int)) == s@.subrange(a as int, b as int)) by {
        if b > a {
            assert(s@.subrange(a as int, b as int).last() == s@[b - 1]);
        }
    }
    s.substring_char(a, b).to_owned()
}

/// Whether `c` is an ASCII decimal digit.
pub open spec fn is_digit(c: char) -> bool {
    '0' <= c && c <= '9'
}

/// The value of the decimal digit `c`.
pub open spec fn digit_value(c: char) -> int {
    (c as u32) as int - ('0' as u32) as int
}

/// Whether `s` is one or more decimal digits.
pub open spec fn all_digits(s: Seq<char>) -> bool {
    s.len() > 0 && forall|i: int| 0 <= i < s.len() ==> is_digit(#[trigger] s[i])
}

/// The number that the decimal digits `s` spell.
pub open spec fn digits_value(s: Seq<char>) -> int
    decreases s.len(),
{
    if s.len() == 0 {
        0
    } else {
        10 * digits_value(s.drop_last()) + digit_value(s.last())
    }
}

/// The integer that `s` spells: digits, led by at most one sign.
pub open spec fn integer_value(s: Seq<char>) -> Option<int> {
    if s.len() > 0 && (s[0] == '-' || s[0] == '+') {
        if !all_digits(s.drop_first()) {
            None
        } else if s[0] == '-' {
            Some(-digits_value(s.drop_first()))
        } else {
            Some(digits_value(s.drop_first()))
        }
    } else if all_digits(s) {
        Some(digits_value(s))
    } else {
        None
    }
}

/// The `i32` that `s` spells, if it spells one in range.
pub open spec fn parsed_i32(s: Seq<char>) -> Option<int> {
    match integer_value(s) {
        Some(v) => if i32::MIN <= v <= i32::MAX {
            Some(v)
        } else {
            None
        },
        None => None,
    }
}

/// A bound above every `i32` magnitude, at which digit accumulation stops growing.
const DIGITS_CAP: u64 = 0x1_0000_0000;

spec fn capped(v: int) -> int {
    if v >= DIGITS_CAP {
        DIGITS_CAP as int
    } else {
        v
    }
}

proof fn lemma_digits_step(prev: Seq<char>, c: char)
    requires
        is_digit(c),
        digits_value(prev) >= 0,
    ensures
        digits_value(prev.push(c)) == 10 * digits_value(prev) + digit_value(c),
        0 <= digit_value(c) <= 9,
        digit_value(c) == (c as u32 - '0' as u32),
{
    assert(prev.push(c).drop_last() =~= prev);
}

/// Reads `s` as an `i32` written in decimal with an optional sign.
pub fn parse_i32(s: &str) -> (r: Option<i32>)
    ensures
        match r {
            Some(v) => parsed_i32(s@) == Some(v as int),
            None => parsed_i32(s@) is None,
        },
{
    let n = s.unicode_len();
    if n == 0 {
        return None;
    }
    let first = s.get_char(0);
    let signed = first == '-' || first == '+';
    let start: usize = if signed { 1 } else { 0 };
    let ghost body = s@.subrange(start as int, n as int);
    assert(signed ==> body =~= s@.drop_first());
    assert(!signed ==> body =~= s@);
    if start == n {
        return None;
    }
    let mut v: u64 = 0;
    let mut i: usize = start;
    assert(s@.subrange(start as int, start as int) =~= Seq::<char>::empty());
    while i < n
        invariant
            n == s@.len(),
            start < n,
            start <= i <= n,
            body == s@.subrange(start as int, n as int),
            first == s@[0],
            signed == (first == '-' || first == '+'),
            signed ==> body == s@.drop_first(),
            !signed ==> body == s@,
            forall|k: int| start <= k < i ==> is_digit(#[trigger] s@[k]),
            digits_value(s@.subrange(start as int, i as int)) >= 0,
            v as int == capped(digits_value(s@.subrange(start as int, i as int))),
        decreases n - i,
    {
        let c = s.get_char(i);
        if !('0' <= c && c <= '9') {
            assert(body[i - start] == c);
            assert(!is_digit(body[i - start]));
            assert(!all_digits(body));
            assert(first == s@[0]);
            if signed {
                assert(integer_value(s@) is None);
            } else {
                assert(!all_digits(s@));
            }
            return None;
        }
        let d = (c as u32 - '0' as u32) as u64;
        let ghost prev = s@.subrange(start as int, i as int);
        let ghost next = s@.subrange(start as int, i + 1);
        proof {
            assert(next =~= prev.push(c));
            lemma_digits_step(prev, c);
        }
        if v < DIGITS_CAP {
            v = v * 10 + d;
            if v > DIGITS_CAP {
                v = DIGITS_CAP;
            }
        }
        i = i + 1;
    }
    assert(s@.subrange(start as int, n as int) == body);
    assert(all_digits(body));
    if first == '-' {
        if v <= 0x8000_0000 {
            Some((0 - (v as i64)) as i32)
        } else {
            None
        }
    } else {
        if v <= 0x7fff_ffff {
            Some(v as i32)
        } else {
            None
        }
    }
}

/// The character of the decimal digit `d`.
pub open spec fn digit_char(d: nat) -> char {
    if d == 0 {
        '0'
    } else if d == 1 {
        '1'
    } else if d == 2 {
        '2'
    } else if d == 3 {
        '3'
    } else if d == 4 {
        '4'
    } else if d == 5 {
        '5'
    } else if d == 6 {
        '6'
    } else if d == 7 {
        '7'
    } else if d == 8 {
        '8'
    } else {
        '9'
    }
}

/// The decimal digits of `n`, with no leading zero.
pub open spec fn nat_text(n: nat) -> Seq<char>
    decreases n,
{
    if n < 10 {
        seq![digit_char(n)]
    } else {
        nat_text(n / 10).push(digit_char(n % 10))
    }
}

/// The decimal text of `n`: its digits, led by `-` when it is negative.
pub open spec fn int_text(n: int) -> Seq<char> {
    if n < 0 {
        seq!['-'] + nat_text((-n) as nat)
    } else {
        nat_text(n as nat)
    }
}

/// Relies on the `Display` of `i32` (through `to_string`): decimal digits, `-` first when negative.
#[verifier::external_body]
pub(crate) fn decimal_text(n: i32) -> (r: String)
    ensures
        r@ == int_text(n as int),
{
    n.to_string()
}

} // verus!
