//! Characters, words and decimal numbers.
use vstd::prelude::*;
use vstd::slice::slice_subrange;

verus! {

/// Returns the characters of `s`.
pub fn chars_of(s: &str) -> (chars: Vec<char>)
    ensures
        chars@ == s@,
{
    let mut chars: Vec<char> = Vec::new();
    for c in iter: s.chars()
        invariant
            iter.seq() == s@,
            chars@ == s@.take(iter.index()),
    {
        chars.push(c);
    }
    chars
}

/// Tells whether `a` and `b` hold the same text.
pub fn text_eq(a: &str, b: &str) -> (same: bool)
    ensures
        same == (a@ == b@),
{
    let x = chars_of(a);
    let y = chars_of(b);
    if x.len() != y.len() {
        return false;
    }
    for i in 0..x.len()
        invariant
            x.len() == y.len(),
            x@ == a@,
            y@ == b@,
            forall|j: int| 0 <= j < i ==> x@[j] == y@[j],
    {
        if x[i] != y[i] {
            return false;
        }
    }
    assert(a@ =~= b@);
    true
}

/// The ASCII lower-case form of `c`; any other character is its own.
pub open spec fn lower(c: char) -> char {
    if 'A' <= c && c <= 'Z' {
        (c as u8 + 32) as char
    } else {
        c
    }
}

/// `s` with each character in ASCII lower-case.
pub open spec fn lower_all(s: Seq<char>) -> Seq<char> {
    s.map_values(|c: char| lower(c))
}

/// Returns the ASCII lower-case form of `c`.
pub fn to_lower(c: char) -> (l: char)
    ensures
        l == lower(c),
{
    if 'A' <= c && c <= 'Z' {
        (c as u8 + 32) as char
    } else {
        c
    }
}

/// `c` is one of the ten decimal digits.
pub open spec fn is_digit(c: char) -> bool {
    '0' <= c && c <= '9'
}

/// What the digit `c` counts for; a character that is no digit counts for nothing.
pub open spec fn digit_value(c: char) -> nat {
    if is_digit(c) {
        (c as int - '0' as int) as nat
    } else {
        0
    }
}

/// `s` is one or more decimal digits.
pub open spec fn is_number(s: Seq<char>) -> bool {
    &&& s.len() > 0
    &&& forall|i: int| 0 <= i < s.len() ==> is_digit(#[trigger] s[i])
}

/// The number that the digits `s` write in base ten.
pub open spec fn digits_value(s: Seq<char>) -> nat
    decreases s.len(),
{
    if s.len() == 0 {
        0
    } else {
        digits_value(s.drop_last()) * 10 + digit_value(s.last())
    }
}

/// The number, of at most `max`, that `s` writes with digits alone.
pub open spec fn bounded_value(s: Seq<char>, max: nat) -> Option<nat> {
    if is_number(s) && digits_value(s) <= max {
        Some(digits_value(s))
    } else {
        None
    }
}

/// The number, of at most `max`, that `s` writes with digits after an optional `+`.
pub open spec fn unsigned_value(s: Seq<char>, max: nat) -> Option<nat> {
    if s.len() > 0 && s[0] == '+' {
        bounded_value(s.skip(1), max)
    } else {
        bounded_value(s, max)
    }
}

/// The number in the range of an `i64` that `s` writes with digits after an optional
/// `+` or `-`.
pub open spec fn signed_value(s: Seq<char>) -> Option<int> {
    if s.len() > 0 && s[0] == '-' {
        match bounded_value(s.skip(1), 0x8000_0000_0000_0000) {
            Some(n) => Some(-n),
            None => None,
        }
    } else {
        match unsigned_value(s, i64::MAX as nat) {
            Some(n) => Some(n as int),
            None => None,
        }
    }
}

proof fn lemma_prefix_value(s: Seq<char>, i: int)
    requires
        0 <= i <= s.len(),
    ensures
        digits_value(s.take(i)) <= digits_value(s),
    decreases s.len() - i,
{
    if i == s.len() {
        assert(s.take(i) =~= s);
    } else {
        assert(s.take(i + 1).drop_last() =~= s.take(i));
        lemma_prefix_value(s, i + 1);
    }
}

/// Reads `s` as digits that write a number of at most `max`.
fn parse_bounded(s: &[char], max: u64) -> (r: Option<u64>)
    ensures
        r matches Some(v) ==> bounded_value(s@, max as nat) == Some(v as nat),
        r is None ==> bounded_value(s@, max as nat) is None,
{
    if s.len() == 0 {
        return None;
    }
    let mut value: u64 = 0;
    for i in 0..s.len()
        invariant
            value == digits_value(s@.take(i as int)),
            value <= max,
            forall|j: int| 0 <= j < i ==> is_digit(#[trigger] s@[j]),
    {
        let c = s[i];
        if !('0' <= c && c <= '9') {
            return None;
        }
        proof {
            assert(s@.take(i + 1).drop_last() =~= s@.take(i as int));
            lemma_prefix_value(s@, i + 1);
        }
        let next: u128 = value as u128 * 10 + (c as u8 - 48) as u128;
        if next > max as u128 {
            return None;
        }
        value = next as u64;
    }
    assert(s@.take(s@.len() as int) =~= s@);
    Some(value)
}

/// Reads `s` as digits after an optional `+`, of at most `max`.
fn parse_unsigned(s: &[char], max: u64) -> (r: Option<u64>)
    ensures
        r matches Some(v) ==> unsigned_value(s@, max as nat) == Some(v as nat),
        r is None ==> unsigned_value(s@, max as nat) is None,
{
    if s.len() > 0 && s[0] == '+' {
        let digits = slice_subrange(s, 1, s.len());
        assert(digits@ =~= s@.skip(1));
        parse_bounded(digits, max)
    } else {
        parse_bounded(s, max)
    }
}

/// Reads `s` as a `u64`: decimal digits after an optional `+`.
pub fn parse_u64(s: &str) -> (r: Option<u64>)
    ensures
        r matches Some(v) ==> unsigned_value(s@, u64::MAX as nat) == Some(v as nat),
        r is None ==> unsigned_value(s@, u64::MAX as nat) is None,
{
    let chars = chars_of(s);
    parse_unsigned(chars.as_slice(), u64::MAX)
}

/// Reads `s` as a `usize`: decimal digits after an optional `+`.
pub fn parse_usize(s: &str) -> (r: Option<usize>)
    ensures
        r matches Some(v) ==> unsigned_value(s@, usize::MAX as nat) == Some(v as nat),
        r is None ==> unsigned_value(s@, usize::MAX as nat) is None,
{
    let chars = chars_of(s);
    match parse_unsigned(chars.as_slice(), usize::MAX as u64) {
        Some(v) => Some(v as usize),
        None => None,
    }
}

/// Reads `s` as an `i64`: decimal digits after an optional `+` or `-`.
pub fn parse_i64(s: &str) -> (r: Option<i64>)
    ensures
        r matches Some(v) ==> signed_value(s@) == Some(v as int),
        r is None ==> signed_value(s@) is None,
{
    let chars = chars_of(s);
    let all = chars.as_slice();
    if all.len() > 0 && all[0] == '-' {
        let digits = slice_subrange(all, 1, all.len());
        assert(digits@ =~= s@.skip(1));
        match parse_bounded(digits, 0x8000_0000_0000_0000) {
            Some(v) => if v == 0x8000_0000_0000_0000 {
                Some(i64::MIN)
            } else {
                Some(-(v as i64))
            },
            None => None,
        }
    } else {
        match parse_unsigned(all, i64::MAX as u64) {
            Some(v) => Some(v as i64),
            None => None,
        }
    }
}

/// Two characters have the same lower case where they are the same, or are the two cases of one ASCII
/// letter; and a lower case is of no upper case, and its own lower case.
pub proof fn lower_case_joins_the_cases(c: char, d: char)
    ensures
        lower(c) == lower(d) <==> {
            ||| c == d
            ||| 65 <= c as u32 <= 90 && d as u32 == c as u32 + 32
            ||| 65 <= d as u32 <= 90 && c as u32 == d as u32 + 32
        },
        !(65 <= lower(c) as u32 <= 90),
        lower(lower(c)) == lower(c),
{
}

/// Lower-casing a text lowers each of its characters where it stands.
pub proof fn lower_case_is_per_character(s: Seq<char>)
    ensures
        lower_all(s).len() == s.len(),
        forall|i: int| 0 <= i < s.len() ==> #[trigger] lower_all(s)[i] == lower(s[i]),
{
}

/// A number is one or more of the characters from `0` to `9`.
pub proof fn numbers_are_digits(s: Seq<char>)
    ensures
        is_number(s) <==> s.len() > 0 && forall|i: int|
            0 <= i < s.len() ==> '0' <= (#[trigger] s[i]) <= '9',
{
    if s.len() > 0 && forall|i: int| 0 <= i < s.len() ==> '0' <= (#[trigger] s[i]) <= '9' {
        assert forall|i: int| 0 <= i < s.len() implies is_digit(#[trigger] s[i]) by {
            assert('0' <= s[i] <= '9');
        }
    }
    if is_number(s) {
        assert forall|i: int| 0 <= i < s.len() implies '0' <= (#[trigger] s[i]) <= '9' by {
            assert(is_digit(s[i]));
        }
    }
}

/// A further digit makes a number ten times as large, and adds what the digit counts.
pub proof fn a_digit_shifts_the_number(s: Seq<char>, d: char)
    requires
        '0' <= d <= '9',
    ensures
        digits_value(Seq::<char>::empty()) == 0,
        digits_value(s.push(d)) == 10 * digits_value(s) + (d as u32 - 48),
{
    assert(s.push(d).drop_last() =~= s);
}

/// Digits are read as the number that they write, up to and including the largest admitted; a `+`
/// before them changes nothing.
pub proof fn unsigned_numbers_are_read(d: Seq<char>, max: nat)
    requires
        d.len() > 0,
        forall|i: int| 0 <= i < d.len() ==> '0' <= (#[trigger] d[i]) <= '9',
    ensures
        digits_value(d) <= max ==> unsigned_value(d, max) == Some(digits_value(d)),
        digits_value(d) > max ==> unsigned_value(d, max) is None,
        unsigned_value(seq!['+'] + d, max) == unsigned_value(d, max),
{
    numbers_are_digits(d);
    assert('0' <= d[0] <= '9');
    assert((seq!['+'] + d).skip(1) =~= d);
}

/// Nothing but digits after an optional `+` is read as an unsigned number, and nothing but digits
/// after an optional sign as a signed one.
pub proof fn nothing_else_is_a_number(s: Seq<char>, max: nat, i: int)
    requires
        0 <= i < s.len() ==> !('0' <= s[i] <= '9'),
        0 <= i < s.len() || s.len() == 0,
        i == 0 && s.len() > 1 ==> s[0] != '+',
    ensures
        unsigned_value(s, max) is None,
        !(i == 0 && s.len() > 1 && s[0] == '-') ==> signed_value(s) is None,
{
    if s.len() > 0 {
        if is_number(s) {
            assert(is_digit(s[i]));
        }
        if s[0] == '+' || s[0] == '-' {
            let rest = s.skip(1);
            if i > 0 && is_number(rest) {
                assert(is_digit(rest[i - 1]));
            }
        }
    }
}

/// Digits with or without a `+` are read as a number of no sign, and digits with a `-` as its negative,
/// over the whole range of an `i64` and no further.
pub proof fn signed_numbers_are_read(d: Seq<char>)
    requires
        d.len() > 0,
        forall|i: int| 0 <= i < d.len() ==> '0' <= (#[trigger] d[i]) <= '9',
    ensures
        digits_value(d) <= 9223372036854775807 ==> signed_value(d) == Some(digits_value(d) as int),
        digits_value(d) > 9223372036854775807 ==> signed_value(d) is None,
        signed_value(seq!['+'] + d) == signed_value(d),
        digits_value(d) <= 9223372036854775808 ==> signed_value(seq!['-'] + d) == Some(
            -digits_value(d),
        ),
        digits_value(d) > 9223372036854775808 ==> signed_value(seq!['-'] + d) is None,
{
    numbers_are_digits(d);
    unsigned_numbers_are_read(d, i64::MAX as nat);
    assert('0' <= d[0] <= '9');
    assert((seq!['-'] + d).skip(1) =~= d);
}

} // verus!
