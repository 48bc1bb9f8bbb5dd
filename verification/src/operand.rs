//! The operands of `-size`, `-mtime`, `-maxdepth`, `-mindepth` and `-type`.
use crate::error::{Failure, ParseError};
use crate::pred::{Cmp, FileType};
use crate::text::{
    digits_value, is_digit, is_number, nothing_else_is_a_number, parse_i64, parse_u64, parse_usize,
    signed_numbers_are_read, signed_value, text_eq, unsigned_numbers_are_read, unsigned_value,
};
use vstd::prelude::*;

verus! {

/// The qualifier that starts `s`, and what follows it.
pub open spec fn qualified(s: Seq<char>) -> (Cmp, Seq<char>) {
    if s.len() > 0 && s[0] == '+' {
        (Cmp::Gt, s.skip(1))
    } else if s.len() > 0 && s[0] == '-' {
        (Cmp::Lt, s.skip(1))
    } else {
        (Cmp::Eq, s)
    }
}

/// `s` without its first character.
fn tail(s: &str) -> (t: &str)
    requires
        s@.len() > 0,
    ensures
        t@ == s@.skip(1),
{
    let len = s.unicode_len();
    let t = s.substring_char(1, len);
    assert(t@ =~= s@.skip(1));
    t
}

/// Splits a `+` (more) or `-` (less) off the front of `s`.
pub fn parse_cmp_prefix(s: &str) -> (r: (Cmp, &str))
    ensures
        (r.0, r.1@) == qualified(s@),
{
    if s.unicode_len() == 0 {
        return (Cmp::Eq, s);
    }
    let first = s.get_char(0);
    if first == '+' {
        (Cmp::Gt, tail(s))
    } else if first == '-' {
        (Cmp::Lt, tail(s))
    } else {
        (Cmp::Eq, s)
    }
}

/// `c` is the letter of a unit.
pub open spec fn is_unit(c: char) -> bool {
    c == 'c' || c == 'k' || c == 'M' || c == 'G'
}

/// The bytes in `n` of a unit, or, where none is named, in `n` blocks of 512 bytes.
pub open spec fn in_bytes(n: nat, unit: Option<char>) -> nat {
    match unit {
        Some('c') => n,
        Some('k') => n * 1024,
        Some('M') => n * 1048576,
        Some('G') => n * 1073741824,
        _ => n * 512,
    }
}

/// The text before the unit that ends `s`, and the unit.
pub open spec fn split_unit(s: Seq<char>) -> (Seq<char>, Option<char>) {
    if s.len() > 0 && is_unit(s.last()) {
        (s.drop_last(), Some(s.last()))
    } else {
        (s, None)
    }
}

/// The bytes that `s`, a number and an optional unit, counts.
pub open spec fn counted_bytes(s: Seq<char>) -> Option<nat> {
    let (digits, unit) = split_unit(s);
    match unsigned_value(digits, u64::MAX as nat) {
        Some(n) => Some(in_bytes(n, unit)),
        None => None,
    }
}

/// `n` as 64 bits hold it.
pub open spec fn fit_u64(n: nat) -> Option<u64> {
    if n <= u64::MAX {
        Some(n as u64)
    } else {
        None
    }
}

/// The comparison that `arg`, the operand of `-size`, asks for.
pub open spec fn size_value(arg: Seq<char>) -> Result<(Cmp, u64), Failure> {
    let (qualifier, rest) = qualified(arg);
    match counted_bytes(rest) {
        Some(n) => match fit_u64(n) {
            Some(bytes) => Ok((qualifier, bytes)),
            None => Err(Failure::SizeOverflow(arg)),
        },
        None => Err(Failure::InvalidSize(arg)),
    }
}

/// Splits `s` into a number's text and its unit.
fn parse_unit(s: &str) -> (r: (&str, Option<char>))
    ensures
        (r.0@, r.1) == split_unit(s@),
{
    let len = s.unicode_len();
    if len == 0 {
        return (s, None);
    }
    let last = s.get_char(len - 1);
    if last == 'c' || last == 'k' || last == 'M' || last == 'G' {
        let digits = s.substring_char(0, len - 1);
        assert(digits@ =~= s@.drop_last());
        (digits, Some(last))
    } else {
        (s, None)
    }
}

/// The bytes in `n` of `unit`, where 64 bits can count them.
fn scale(n: u64, unit: Option<char>) -> (r: Option<u64>)
    ensures
        r == fit_u64(in_bytes(n as nat, unit)),
{
    match unit {
        Some('c') => Some(n),
        Some('k') => n.checked_mul(1024),
        Some('M') => n.checked_mul(1048576),
        Some('G') => n.checked_mul(1073741824),
        _ => n.checked_mul(512),
    }
}

/// Parses the operand of `-size`: `[+-]n[ckMG]`.
pub fn parse_size(arg: &str) -> (r: Result<(Cmp, u64), ParseError>)
    ensures
        match r {
            Ok(size) => size_value(arg@) == Ok::<(Cmp, u64), Failure>(size),
            Err(e) => size_value(arg@) == Err::<(Cmp, u64), Failure>(e@),
        },
{
    let (qualifier, rest) = parse_cmp_prefix(arg);
    let (digits, unit) = parse_unit(rest);
    match parse_u64(digits) {
        None => Err(ParseError::InvalidSize(arg.to_owned())),
        Some(n) => match scale(n, unit) {
            Some(bytes) => Ok((qualifier, bytes)),
            None => Err(ParseError::SizeOverflow(arg.to_owned())),
        },
    }
}

/// A number with a unit counts as many of the unit as the number counts bytes with `c`.
pub proof fn units_scale(digits: Seq<char>, unit: char)
    requires
        is_unit(unit),
    ensures
        counted_bytes(digits.push(unit)) == (match counted_bytes(digits.push('c')) {
            Some(n) => Some(in_bytes(n, Some(unit))),
            None => None,
        }),
{
    assert(digits.push(unit).drop_last() =~= digits);
    assert(digits.push('c').drop_last() =~= digits);
}

/// A number without a unit counts blocks of 512 bytes.
pub proof fn blocks_without_unit(digits: Seq<char>)
    requires
        is_number(digits),
        digits_value(digits) <= u64::MAX,
    ensures
        counted_bytes(digits) == Some(digits_value(digits) * 512),
{
    assert(is_digit(digits[0]) && is_digit(digits[digits.len() - 1]));
}

/// `n` as an `i64` holds it.
pub open spec fn fit_i64(n: int) -> i64 {
    n as i64
}

/// The comparison that `arg`, the operand of `-mtime`, asks for.
pub open spec fn mtime_value(arg: Seq<char>) -> Result<(Cmp, i64), Failure> {
    let (qualifier, rest) = qualified(arg);
    match signed_value(rest) {
        Some(days) => Ok((qualifier, fit_i64(days))),
        None => Err(Failure::InvalidMtime(arg)),
    }
}

/// Parses the operand of `-mtime`: `[+-]n`.
pub fn parse_mtime(arg: &str) -> (r: Result<(Cmp, i64), ParseError>)
    ensures
        match r {
            Ok(age) => mtime_value(arg@) == Ok::<(Cmp, i64), Failure>(age),
            Err(e) => mtime_value(arg@) == Err::<(Cmp, i64), Failure>(e@),
        },
{
    let (qualifier, rest) = parse_cmp_prefix(arg);
    match parse_i64(rest) {
        Some(days) => Ok((qualifier, days)),
        None => Err(ParseError::InvalidMtime(arg.to_owned())),
    }
}

/// The depth that `arg`, the operand of the option `opt`, gives.
pub open spec fn depth_value(opt: Seq<char>, arg: Seq<char>) -> Result<usize, Failure> {
    match unsigned_value(arg, usize::MAX as nat) {
        Some(n) => Ok(n as usize),
        None => Err(Failure::InvalidDepth(opt)),
    }
}

/// Parses the operand of the depth option `opt`.
pub fn parse_depth(opt: &'static str, arg: &str) -> (r: Result<usize, ParseError>)
    ensures
        match r {
            Ok(n) => depth_value(opt@, arg@) == Ok::<usize, Failure>(n),
            Err(e) => depth_value(opt@, arg@) == Err::<usize, Failure>(e@),
        },
{
    match parse_usize(arg) {
        Some(n) => Ok(n),
        None => Err(ParseError::InvalidDepth(opt)),
    }
}

/// The letter by which `-type` names a type.
pub open spec fn type_letter(t: FileType) -> Seq<char> {
    match t {
        FileType::File => "f"@,
        FileType::Dir => "d"@,
        FileType::Symlink => "l"@,
        FileType::BlockDevice => "b"@,
        FileType::CharDevice => "c"@,
        FileType::Pipe => "p"@,
        FileType::Socket => "s"@,
    }
}

/// The type that `arg`, the operand of `-type`, names.
pub open spec fn type_value(arg: Seq<char>) -> Result<FileType, Failure> {
    if exists|t: FileType| arg == #[trigger] type_letter(t) {
        Ok(choose|t: FileType| arg == #[trigger] type_letter(t))
    } else {
        Err(Failure::UnknownType(arg))
    }
}

/// No letter names two types.
pub proof fn type_letters_differ(t: FileType, u: FileType)
    requires
        type_letter(t) == type_letter(u),
    ensures
        t == u,
{
    reveal_strlit("f");
    reveal_strlit("d");
    reveal_strlit("l");
    reveal_strlit("b");
    reveal_strlit("c");
    reveal_strlit("p");
    reveal_strlit("s");
    assert("f"@[0] == 'f' && "d"@[0] == 'd' && "l"@[0] == 'l' && "b"@[0] == 'b' && "c"@[0] == 'c'
        && "p"@[0] == 'p' && "s"@[0] == 's');
}

/// The letter of a type names that type.
pub proof fn type_letter_names_type(t: FileType)
    ensures
        type_value(type_letter(t)) == Ok::<FileType, Failure>(t),
{
    let u = choose|u: FileType| type_letter(t) == #[trigger] type_letter(u);
    type_letters_differ(t, u);
}

/// The type that `arg` names, or none.
fn find_type(arg: &str) -> (r: Option<FileType>)
    ensures
        match r {
            Some(t) => arg@ == type_letter(t),
            None => forall|t: FileType| arg@ != #[trigger] type_letter(t),
        },
{
    if text_eq(arg, "f") {
        Some(FileType::File)
    } else if text_eq(arg, "d") {
        Some(FileType::Dir)
    } else if text_eq(arg, "l") {
        Some(FileType::Symlink)
    } else if text_eq(arg, "b") {
        Some(FileType::BlockDevice)
    } else if text_eq(arg, "c") {
        Some(FileType::CharDevice)
    } else if text_eq(arg, "p") {
        Some(FileType::Pipe)
    } else if text_eq(arg, "s") {
        Some(FileType::Socket)
    } else {
        None
    }
}

/// Parses the operand of `-type`: the letter of a type.
pub fn parse_type(arg: &str) -> (r: Result<FileType, ParseError>)
    ensures
        match r {
            Ok(t) => type_value(arg@) == Ok::<FileType, Failure>(t),
            Err(e) => type_value(arg@) == Err::<FileType, Failure>(e@),
        },
{
    match find_type(arg) {
        Some(t) => {
            proof {
                type_letter_names_type(t);
            }
            Ok(t)
        },
        None => Err(ParseError::UnknownType(arg.to_owned())),
    }
}

/// A size is a number of bytes with the unit `c`, of 1024 bytes with `k`, of 1024 times as many with `M`
/// and again as many with `G`, and of 512 bytes without a unit. A `+` before it asks for more than so
/// many, a `-` for fewer, and nothing for as many. Too large a number is no size, and too many bytes
/// are an overflow.
pub proof fn sizes_count_their_unit(sign: Seq<char>, qualifier: Cmp, d: Seq<char>)
    requires
        d.len() > 0,
        forall|i: int| 0 <= i < d.len() ==> '0' <= (#[trigger] d[i]) <= '9',
        sign == seq!['+'] && qualifier is Gt || sign == seq!['-'] && qualifier is Lt || sign
            == Seq::<char>::empty() && qualifier is Eq,
    ensures
        ({
            let n = digits_value(d);
            &&& n <= 18446744073709551615 ==> size_value(sign + d.push('c')) == Ok::<(Cmp, u64), Failure>(
                (qualifier, (n) as u64),
            )
            &&& n > 18446744073709551615 ==> size_value(sign + d.push('c')) == Err::<(Cmp, u64), Failure>(
                Failure::InvalidSize(sign + d.push('c')),
            )
            &&& n * 1024 <= 18446744073709551615 ==> size_value(sign + d.push('k')) == Ok::<(Cmp, u64), Failure>(
                (qualifier, (n * 1024) as u64),
            )
            &&& n <= 18446744073709551615 && n * 1024 > 18446744073709551615 ==> size_value(sign + d.push('k'))
                == Err::<(Cmp, u64), Failure>(Failure::SizeOverflow(sign + d.push('k')))
            &&& n > 18446744073709551615 ==> size_value(sign + d.push('k')) == Err::<(Cmp, u64), Failure>(
                Failure::InvalidSize(sign + d.push('k')),
            )
            &&& n * 1048576 <= 18446744073709551615 ==> size_value(sign + d.push('M')) == Ok::<(Cmp, u64), Failure>(
                (qualifier, (n * 1048576) as u64),
            )
            &&& n <= 18446744073709551615 && n * 1048576 > 18446744073709551615 ==> size_value(sign + d.push('M'))
                == Err::<(Cmp, u64), Failure>(Failure::SizeOverflow(sign + d.push('M')))
            &&& n > 18446744073709551615 ==> size_value(sign + d.push('M')) == Err::<(Cmp, u64), Failure>(
                Failure::InvalidSize(sign + d.push('M')),
            )
            &&& n * 1073741824 <= 18446744073709551615 ==> size_value(sign + d.push('G')) == Ok::<(Cmp, u64), Failure>(
                (qualifier, (n * 1073741824) as u64),
            )
            &&& n <= 18446744073709551615 && n * 1073741824 > 18446744073709551615 ==> size_value(sign + d.push('G'))
                == Err::<(Cmp, u64), Failure>(Failure::SizeOverflow(sign + d.push('G')))
            &&& n > 18446744073709551615 ==> size_value(sign + d.push('G')) == Err::<(Cmp, u64), Failure>(
                Failure::InvalidSize(sign + d.push('G')),
            )
            &&& n * 512 <= 18446744073709551615 ==> size_value(sign + d) == Ok::<(Cmp, u64), Failure>(
                (qualifier, (n * 512) as u64),
            )
            &&& n <= 18446744073709551615 && n * 512 > 18446744073709551615 ==> size_value(sign + d)
                == Err::<(Cmp, u64), Failure>(Failure::SizeOverflow(sign + d))
            &&& n > 18446744073709551615 ==> size_value(sign + d) == Err::<(Cmp, u64), Failure>(
                Failure::InvalidSize(sign + d),
            )
        }),
{
    unsigned_numbers_are_read(d, u64::MAX as nat);
    lemma_qualified(sign, qualifier, d);
    assert(!is_unit(d.last()));
    lemma_with_unit(sign, qualifier, d, 'c');
    lemma_with_unit(sign, qualifier, d, 'k');
    lemma_with_unit(sign, qualifier, d, 'M');
    lemma_with_unit(sign, qualifier, d, 'G');
}

proof fn lemma_with_unit(sign: Seq<char>, qualifier: Cmp, d: Seq<char>, unit: char)
    requires
        d.len() > 0,
        '0' <= d[0] <= '9',
        is_unit(unit),
        sign == seq!['+'] && qualifier is Gt || sign == seq!['-'] && qualifier is Lt || sign
            == Seq::<char>::empty() && qualifier is Eq,
    ensures
        qualified(sign + d.push(unit)) == (qualifier, d.push(unit)),
        split_unit(d.push(unit)) == (d, Some(unit)),
{
    lemma_qualified(sign, qualifier, d.push(unit));
    assert(d.push(unit).drop_last() =~= d);
}

/// A sign before a text that starts with a digit, or the lack of one, is the qualifier.
proof fn lemma_qualified(sign: Seq<char>, qualifier: Cmp, rest: Seq<char>)
    requires
        rest.len() > 0,
        '0' <= rest[0] <= '9' || sign.len() > 0,
        sign == seq!['+'] && qualifier is Gt || sign == seq!['-'] && qualifier is Lt || sign
            == Seq::<char>::empty() && qualifier is Eq,
    ensures
        qualified(sign + rest) == (qualifier, rest),
{
    if sign.len() == 0 {
        assert(sign + rest =~= rest);
    } else {
        assert((sign + rest).skip(1) =~= rest);
    }
}

/// A text is split into its qualifier and the rest by its first character alone.
pub proof fn a_sign_is_a_qualifier(rest: Seq<char>)
    ensures
        qualified(seq!['+'] + rest) == (Cmp::Gt, rest),
        qualified(seq!['-'] + rest) == (Cmp::Lt, rest),
        rest.len() == 0 || rest[0] != '+' && rest[0] != '-' ==> qualified(rest) == (Cmp::Eq, rest),
{
    assert((seq!['+'] + rest).skip(1) =~= rest);
    assert((seq!['-'] + rest).skip(1) =~= rest);
}

/// What is not refused as a size is an optional qualifier, an optional `+`, digits and an optional unit,
/// and nothing else: the digits stand from `span.0` up to `span.1`.
pub proof fn sizes_are_numbers(arg: Seq<char>) -> (span: (int, int))
    requires
        size_value(arg) != Err::<(Cmp, u64), Failure>(Failure::InvalidSize(arg)),
    ensures
        0 <= span.0 < span.1 <= arg.len(),
        forall|i: int| span.0 <= i < span.1 ==> '0' <= (#[trigger] arg[i]) <= '9',
        span.0 <= 2,
        span.0 == 1 ==> arg[0] == '+' || arg[0] == '-',
        span.0 == 2 ==> (arg[0] == '+' || arg[0] == '-') && arg[1] == '+',
        span.1 >= arg.len() - 1,
        span.1 < arg.len() ==> arg.last() == 'c' || arg.last() == 'k' || arg.last() == 'M'
            || arg.last() == 'G',
        size_value(arg) is Err ==> size_value(arg) == Err::<(Cmp, u64), Failure>(
            Failure::SizeOverflow(arg),
        ),
{
    let rest = qualified(arg).1;
    let text = split_unit(rest).0;
    let skipped = arg.len() - rest.len();
    let plus: int = if text.len() > 0 && text[0] == '+' {
        1
    } else {
        0
    };
    let from = skipped + plus;
    let to = skipped + text.len();
    assert forall|i: int| from <= i < to implies '0' <= (#[trigger] arg[i]) <= '9' by {
        let digits = if plus == 1 {
            text.skip(1)
        } else {
            text
        };
        assert(is_number(digits));
        assert(digits[i - from] == arg[i]);
    }
    assert(text.len() > plus);
    assert(text[0] == arg[skipped]);
    (from, to)
}

/// A number of days is read as it is, with a `+` before it for more, a `-` for fewer and nothing for as
/// many; behind a qualifier it may have a sign of its own.
pub proof fn days_are_read(sign: Seq<char>, qualifier: Cmp, d: Seq<char>)
    requires
        d.len() > 0,
        forall|i: int| 0 <= i < d.len() ==> '0' <= (#[trigger] d[i]) <= '9',
        sign == seq!['+'] && qualifier is Gt || sign == seq!['-'] && qualifier is Lt || sign
            == Seq::<char>::empty() && qualifier is Eq,
    ensures
        ({
            let n = digits_value(d);
            &&& n <= 9223372036854775807 ==> mtime_value(sign + d) == Ok::<(Cmp, i64), Failure>(
                (qualifier, n as i64),
            )
            &&& n > 9223372036854775807 ==> mtime_value(sign + d) == Err::<(Cmp, i64), Failure>(
                Failure::InvalidMtime(sign + d),
            )
            &&& sign.len() > 0 && n <= 9223372036854775807 ==> mtime_value(sign + (seq!['+'] + d))
                == Ok::<(Cmp, i64), Failure>((qualifier, n as i64))
            &&& sign.len() > 0 && n <= 9223372036854775808 ==> mtime_value(sign + (seq!['-'] + d))
                == Ok::<(Cmp, i64), Failure>((qualifier, (-n) as i64))
            &&& sign.len() > 0 && n > 9223372036854775808 ==> mtime_value(sign + (seq!['-'] + d))
                == Err::<(Cmp, i64), Failure>(Failure::InvalidMtime(sign + (seq!['-'] + d)))
        }),
{
    signed_numbers_are_read(d);
    lemma_qualified(sign, qualifier, d);
    if sign.len() > 0 {
        lemma_qualified(sign, qualifier, seq!['+'] + d);
        lemma_qualified(sign, qualifier, seq!['-'] + d);
    }
}

/// What is not refused as a number of days is an optional qualifier, an optional sign behind it, and
/// digits, from `start` to the end, and nothing else.
pub proof fn days_are_numbers(arg: Seq<char>) -> (start: int)
    requires
        mtime_value(arg) != Err::<(Cmp, i64), Failure>(Failure::InvalidMtime(arg)),
    ensures
        mtime_value(arg) is Ok,
        0 <= start < arg.len(),
        forall|i: int| start <= i < arg.len() ==> '0' <= (#[trigger] arg[i]) <= '9',
        start <= 2,
        start >= 1 ==> arg[0] == '+' || arg[0] == '-',
        start == 2 ==> arg[1] == '+' || arg[1] == '-',
{
    let rest = qualified(arg).1;
    let skipped = arg.len() - rest.len();
    let own: int = if rest.len() > 0 && (rest[0] == '+' || rest[0] == '-') {
        1
    } else {
        0
    };
    let start = skipped + own;
    assert forall|i: int| start <= i < arg.len() implies '0' <= (#[trigger] arg[i]) <= '9' by {
        let digits = if own == 1 {
            rest.skip(1)
        } else {
            rest
        };
        assert(is_number(digits));
        assert(digits[i - start] == arg[i]);
    }
    assert(rest.len() > own);
    assert(rest[0] == arg[skipped]);
    start
}

/// A depth is a number, with a `+` before it or without, as far as a `usize` goes; anything else is
/// refused in the name of the option.
pub proof fn depths_are_read(opt: Seq<char>, d: Seq<char>)
    requires
        d.len() > 0,
        forall|i: int| 0 <= i < d.len() ==> '0' <= (#[trigger] d[i]) <= '9',
    ensures
        digits_value(d) <= usize::MAX ==> depth_value(opt, d) == Ok::<usize, Failure>(
            digits_value(d) as usize,
        ),
        digits_value(d) > usize::MAX ==> depth_value(opt, d) == Err::<usize, Failure>(
            Failure::InvalidDepth(opt),
        ),
        depth_value(opt, seq!['+'] + d) == depth_value(opt, d),
{
    unsigned_numbers_are_read(d, usize::MAX as nat);
}

/// A text that is no number is refused as a depth: one of nothing, one with another character than a
/// digit behind its first, and one whose first is another than a digit or a `+` with digits behind it.
pub proof fn depths_are_numbers(opt: Seq<char>, arg: Seq<char>, i: int)
    requires
        arg.len() == 0 || 0 <= i < arg.len() && !('0' <= arg[i] <= '9'),
        i == 0 && arg.len() > 1 ==> arg[0] != '+',
    ensures
        depth_value(opt, arg) == Err::<usize, Failure>(Failure::InvalidDepth(opt)),
{
    nothing_else_is_a_number(arg, usize::MAX as nat, i);
}

/// The seven letters name the seven types, and no other text names one.
pub proof fn letters_name_types(arg: Seq<char>)
    ensures
        type_value("f"@) == Ok::<FileType, Failure>(FileType::File),
        type_value("d"@) == Ok::<FileType, Failure>(FileType::Dir),
        type_value("l"@) == Ok::<FileType, Failure>(FileType::Symlink),
        type_value("b"@) == Ok::<FileType, Failure>(FileType::BlockDevice),
        type_value("c"@) == Ok::<FileType, Failure>(FileType::CharDevice),
        type_value("p"@) == Ok::<FileType, Failure>(FileType::Pipe),
        type_value("s"@) == Ok::<FileType, Failure>(FileType::Socket),
        arg != "f"@ && arg != "d"@ && arg != "l"@ && arg != "b"@ && arg != "c"@ && arg != "p"@ && arg
            != "s"@ ==> type_value(arg) == Err::<FileType, Failure>(Failure::UnknownType(arg)),
{
    type_letter_names_type(FileType::File);
    type_letter_names_type(FileType::Dir);
    type_letter_names_type(FileType::Symlink);
    type_letter_names_type(FileType::BlockDevice);
    type_letter_names_type(FileType::CharDevice);
    type_letter_names_type(FileType::Pipe);
    type_letter_names_type(FileType::Socket);
}

/// Behind a qualifier, a `+` before the digits of a size changes nothing.
pub proof fn a_plus_before_digits_changes_nothing(sign: char, text: Seq<char>)
    requires
        sign == '+' || sign == '-',
        text.len() > 0,
        '0' <= text[0] <= '9',
    ensures
        size_value(seq![sign] + (seq!['+'] + text)) is Ok <==> size_value(seq![sign] + text) is Ok,
        size_value(seq![sign] + text) is Ok ==> size_value(seq![sign] + (seq!['+'] + text))
            == size_value(seq![sign] + text),
{
    a_sign_is_a_qualifier(text);
    a_sign_is_a_qualifier(seq!['+'] + text);
    let long = seq!['+'] + text;
    assert(long.last() == text.last());
    assert(long.skip(1) =~= text);
    assert(text.len() > 1 ==> long.drop_last() =~= seq!['+'] + text.drop_last());
    assert(text.len() > 1 ==> long.drop_last().skip(1) =~= text.drop_last());
    assert(text.len() > 1 ==> text.drop_last()[0] == text[0]);
}

} // verus!
