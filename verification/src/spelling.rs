//! How an expression is written, and that it is read back as it was meant.
use crate::error::Failure;
use crate::operand::{
    counted_bytes, depth_value, mtime_value, qualified, size_value, type_letter,
    type_letter_names_type, type_value,
};
use crate::parse::{
    and_of, expr_of, expressions_end_before_close, not_of, parsing_consumes, primary_of, word, Input,
    Parsed, Word,
};
use crate::pred::{Cmp, Expr};
use crate::text::{digits_value, is_digit, is_number, signed_value};
use crate::time::Timestamp;
use vstd::prelude::*;

verus! {

/// Every word of the grammar has its own meaning.
pub proof fn words_have_their_meaning()
    ensures
        word("("@) == Word::Open,
        word(")"@) == Word::Close,
        word("-o"@) == Word::Or,
        word("-or"@) == Word::Or,
        word("-a"@) == Word::And,
        word("-and"@) == Word::And,
        word("!"@) == Word::Not,
        word("-not"@) == Word::Not,
        word("-name"@) == Word::Name,
        word("-iname"@) == Word::IName,
        word("-path"@) == Word::Path,
        word("-wholename"@) == Word::Path,
        word("-ipath"@) == Word::IPath,
        word("-iwholename"@) == Word::IPath,
        word("-type"@) == Word::Type,
        word("-empty"@) == Word::Empty,
        word("-maxdepth"@) == Word::MaxDepth,
        word("-mindepth"@) == Word::MinDepth,
        word("-size"@) == Word::Size,
        word("-mtime"@) == Word::Mtime,
        word("-newer"@) == Word::Newer,
        word("-print"@) == Word::Print,
        word("-print0"@) == Word::Print0,
        word("-delete"@) == Word::Delete,
        word("-prune"@) == Word::Prune,
        word("-true"@) == Word::True,
        word("-false"@) == Word::False,
{
    reveal_strlit("(");
    reveal_strlit(")");
    reveal_strlit("-o");
    reveal_strlit("-or");
    reveal_strlit("-a");
    reveal_strlit("-and");
    reveal_strlit("!");
    reveal_strlit("-not");
    reveal_strlit("-name");
    reveal_strlit("-iname");
    reveal_strlit("-path");
    reveal_strlit("-wholename");
    reveal_strlit("-ipath");
    reveal_strlit("-iwholename");
    reveal_strlit("-type");
    reveal_strlit("-empty");
    reveal_strlit("-maxdepth");
    reveal_strlit("-mindepth");
    reveal_strlit("-size");
    reveal_strlit("-mtime");
    reveal_strlit("-newer");
    reveal_strlit("-print");
    reveal_strlit("-print0");
    reveal_strlit("-delete");
    reveal_strlit("-prune");
    reveal_strlit("-true");
    reveal_strlit("-false");
    assert("("@.len() == 1 && "("@[0] == '(');
    assert(")"@.len() == 1 && ")"@[0] == ')');
    assert("-o"@.len() == 2 && "-o"@[0] == '-' && "-o"@[1] == 'o');
    assert("-or"@.len() == 3 && "-or"@[0] == '-' && "-or"@[1] == 'o' && "-or"@[2] == 'r');
    assert("-a"@.len() == 2 && "-a"@[0] == '-' && "-a"@[1] == 'a');
    assert("-and"@.len() == 4 && "-and"@[0] == '-' && "-and"@[1] == 'a' && "-and"@[2] == 'n' && "-and"@[3] == 'd');
    assert("!"@.len() == 1 && "!"@[0] == '!');
    assert("-not"@.len() == 4 && "-not"@[0] == '-' && "-not"@[1] == 'n' && "-not"@[2] == 'o' && "-not"@[3] == 't');
    assert("-name"@.len() == 5 && "-name"@[0] == '-' && "-name"@[1] == 'n' && "-name"@[2] == 'a' && "-name"@[3] == 'm');
    assert("-iname"@.len() == 6 && "-iname"@[0] == '-' && "-iname"@[1] == 'i' && "-iname"@[2] == 'n' && "-iname"@[3] == 'a');
    assert("-path"@.len() == 5 && "-path"@[0] == '-' && "-path"@[1] == 'p' && "-path"@[2] == 'a' && "-path"@[3] == 't');
    assert("-wholename"@.len() == 10 && "-wholename"@[0] == '-' && "-wholename"@[1] == 'w' && "-wholename"@[2] == 'h' && "-wholename"@[3] == 'o');
    assert("-ipath"@.len() == 6 && "-ipath"@[0] == '-' && "-ipath"@[1] == 'i' && "-ipath"@[2] == 'p' && "-ipath"@[3] == 'a');
    assert("-iwholename"@.len() == 11 && "-iwholename"@[0] == '-' && "-iwholename"@[1] == 'i' && "-iwholename"@[2] == 'w' && "-iwholename"@[3] == 'h');
    assert("-type"@.len() == 5 && "-type"@[0] == '-' && "-type"@[1] == 't' && "-type"@[2] == 'y' && "-type"@[3] == 'p');
    assert("-empty"@.len() == 6 && "-empty"@[0] == '-' && "-empty"@[1] == 'e' && "-empty"@[2] == 'm' && "-empty"@[3] == 'p');
    assert("-maxdepth"@.len() == 9 && "-maxdepth"@[0] == '-' && "-maxdepth"@[1] == 'm' && "-maxdepth"@[2] == 'a' && "-maxdepth"@[3] == 'x');
    assert("-mindepth"@.len() == 9 && "-mindepth"@[0] == '-' && "-mindepth"@[1] == 'm' && "-mindepth"@[2] == 'i' && "-mindepth"@[3] == 'n');
    assert("-size"@.len() == 5 && "-size"@[0] == '-' && "-size"@[1] == 's' && "-size"@[2] == 'i' && "-size"@[3] == 'z');
    assert("-mtime"@.len() == 6 && "-mtime"@[0] == '-' && "-mtime"@[1] == 'm' && "-mtime"@[2] == 't' && "-mtime"@[3] == 'i');
    assert("-newer"@.len() == 6 && "-newer"@[0] == '-' && "-newer"@[1] == 'n' && "-newer"@[2] == 'e' && "-newer"@[3] == 'w');
    assert("-print"@.len() == 6 && "-print"@[0] == '-' && "-print"@[1] == 'p' && "-print"@[2] == 'r' && "-print"@[3] == 'i');
    assert("-print0"@.len() == 7 && "-print0"@[0] == '-' && "-print0"@[1] == 'p' && "-print0"@[2] == 'r' && "-print0"@[3] == 'i');
    assert("-delete"@.len() == 7 && "-delete"@[0] == '-' && "-delete"@[1] == 'd' && "-delete"@[2] == 'e' && "-delete"@[3] == 'l');
    assert("-prune"@.len() == 6 && "-prune"@[0] == '-' && "-prune"@[1] == 'p' && "-prune"@[2] == 'r' && "-prune"@[3] == 'u');
    assert("-true"@.len() == 5 && "-true"@[0] == '-' && "-true"@[1] == 't' && "-true"@[2] == 'r' && "-true"@[3] == 'u');
    assert("-false"@.len() == 6 && "-false"@[0] == '-' && "-false"@[1] == 'f' && "-false"@[2] == 'a' && "-false"@[3] == 'l');
}


/// The digit that writes `d`.
pub open spec fn digit(d: nat) -> char
    recommends
        d < 10,
{
    ('0' as int + d) as char
}

/// `n` in base ten.
pub open spec fn decimal(n: nat) -> Seq<char>
    decreases n,
{
    if n < 10 {
        seq![digit(n)]
    } else {
        decimal(n / 10).push(digit(n % 10))
    }
}

/// Reading a number back gives the number that was written.
pub proof fn decimal_reads_back(n: nat)
    ensures
        is_number(decimal(n)),
        digits_value(decimal(n)) == n,
    decreases n,
{
    reveal_with_fuel(digits_value, 2);
    if n < 10 {
        assert(decimal(n).drop_last() =~= Seq::<char>::empty());
    } else {
        decimal_reads_back(n / 10);
        let front = decimal(n / 10);
        assert(decimal(n).drop_last() =~= front);
        assert forall|i: int| 0 <= i < decimal(n).len() implies is_digit(
            #[trigger] decimal(n)[i],
        ) by {
            if i < front.len() {
                assert(decimal(n)[i] == front[i]);
            }
        }
    }
}

/// The sign that writes a qualifier.
pub open spec fn sign(qualifier: Cmp) -> Seq<char> {
    match qualifier {
        Cmp::Eq => Seq::empty(),
        Cmp::Lt => seq!['-'],
        Cmp::Gt => seq!['+'],
    }
}

/// The operand of `-size` that asks for the given comparison.
pub open spec fn size_text(qualifier: Cmp, bytes: u64) -> Seq<char> {
    sign(qualifier) + decimal(bytes as nat).push('c')
}

/// `n` in base ten, with a `-` where it is negative.
pub open spec fn signed_decimal(n: int) -> Seq<char> {
    if n < 0 {
        seq!['-'] + decimal((-n) as nat)
    } else {
        decimal(n as nat)
    }
}

/// The operand of `-mtime` that asks for the given comparison.
pub open spec fn mtime_text(qualifier: Cmp, days: i64) -> Seq<char> {
    sign(qualifier) + signed_decimal(days as int)
}

/// The sign of a qualifier before a text that has none is read back.
proof fn lemma_sign_reads_back(qualifier: Cmp, rest: Seq<char>)
    requires
        qualifier is Eq ==> rest.len() > 0 && rest[0] != '+' && rest[0] != '-',
    ensures
        qualified(sign(qualifier) + rest) == (qualifier, rest),
{
    let all = sign(qualifier) + rest;
    match qualifier {
        Cmp::Eq => {
            assert(all =~= rest);
        },
        _ => {
            assert(all.skip(1) =~= rest);
        },
    }
}

/// A size reads back as it was written.
pub proof fn size_reads_back(qualifier: Cmp, bytes: u64)
    ensures
        size_value(size_text(qualifier, bytes)) == Ok::<(Cmp, u64), Failure>((qualifier, bytes)),
{
    let digits = decimal(bytes as nat);
    let rest = digits.push('c');
    decimal_reads_back(bytes as nat);
    assert(is_digit(digits[0]));
    assert(rest[0] == digits[0]);
    lemma_sign_reads_back(qualifier, rest);
    assert(rest.drop_last() =~= digits);
    assert(counted_bytes(rest) == Some(bytes as nat));
}

/// A number of days reads back as it was written. A negative number needs a qualifier, since its
/// `-` is taken for one.
pub proof fn mtime_reads_back(qualifier: Cmp, days: i64)
    requires
        qualifier is Eq ==> days >= 0,
    ensures
        mtime_value(mtime_text(qualifier, days)) == Ok::<(Cmp, i64), Failure>((qualifier, days)),
{
    let rest = signed_decimal(days as int);
    if days < 0 {
        let digits = decimal((-days) as nat);
        decimal_reads_back((-days) as nat);
        assert(rest.skip(1) =~= digits);
    } else {
        decimal_reads_back(days as nat);
        assert(is_digit(rest[0]));
    }
    assert(signed_value(rest) == Some(days as int));
    lemma_sign_reads_back(qualifier, rest);
}

/// A depth reads back as it was written.
pub proof fn depth_reads_back(opt: Seq<char>, n: usize)
    ensures
        depth_value(opt, decimal(n as nat)) == Ok::<usize, Failure>(n),
{
    decimal_reads_back(n as nat);
    assert(is_digit(decimal(n as nat)[0]));
}

/// A choice among the words that mean the same.
pub struct Style {
    /// The word between the operands of a disjunction.
    pub or: Seq<char>,
    /// The word, if any, between the operands of a conjunction.
    pub and: Option<Seq<char>>,
    /// The word before a negated operand.
    pub not: Seq<char>,
    /// The operand of every `-newer`.
    pub file: Seq<char>,
}

impl Style {
    /// The words mean what they are chosen for.
    pub open spec fn valid(self) -> bool {
        &&& self.or == "-o"@ || self.or == "-or"@
        &&& self.and matches Some(w) ==> w == "-a"@ || w == "-and"@
        &&& self.not == "!"@ || self.not == "-not"@
    }

    /// What stands between the operands of a conjunction.
    pub open spec fn between(self) -> Seq<Seq<char>> {
        match self.and {
            Some(w) => seq![w],
            None => Seq::empty(),
        }
    }
}

/// `e` can be written: it asks for no exact number of days below zero.
pub open spec fn spellable(e: Expr) -> bool
    decreases e,
{
    match e {
        Expr::Mtime { cmp, days } => cmp is Eq ==> days >= 0,
        Expr::And(l, r) => spellable(*l) && spellable(*r),
        Expr::Or(l, r) => spellable(*l) && spellable(*r),
        Expr::Not(inner) => spellable(*inner),
        _ => true,
    }
}

/// How loosely the operator of `e` binds.
pub open spec fn looseness(e: Expr) -> nat {
    match e {
        Expr::Or(_, _) => 3,
        Expr::And(_, _) => 2,
        Expr::Not(_) => 1,
        _ => 0,
    }
}

/// The number `n` as words write it.
pub open spec fn depth_text(n: usize) -> Seq<char> {
    decimal(n as nat)
}

/// The words that write `e`, as an operand that may bind as loosely as `level`: in parentheses
/// where it binds more loosely.
pub open spec fn spelled(e: Expr, level: nat, style: Style) -> Seq<Seq<char>>
    decreases e, 1nat,
{
    if looseness(e) > level {
        seq!["("@] + spelled_bare(e, style) + seq![")"@]
    } else {
        spelled_bare(e, style)
    }
}

/// The words that write `e`, without parentheses round it.
pub open spec fn spelled_bare(e: Expr, style: Style) -> Seq<Seq<char>>
    decreases e, 0nat,
{
    match e {
        Expr::Name { pattern, ignore_case } => if ignore_case {
            seq!["-iname"@, pattern]
        } else {
            seq!["-name"@, pattern]
        },
        Expr::Path { pattern, ignore_case } => if ignore_case {
            seq!["-ipath"@, pattern]
        } else {
            seq!["-path"@, pattern]
        },
        Expr::Type(t) => seq!["-type"@, type_letter(t)],
        Expr::Empty => seq!["-empty"@],
        Expr::MaxDepth(n) => seq!["-maxdepth"@, depth_text(n)],
        Expr::MinDepth(n) => seq!["-mindepth"@, depth_text(n)],
        Expr::Size { cmp, bytes } => seq!["-size"@, size_text(cmp, bytes)],
        Expr::Mtime { cmp, days } => seq!["-mtime"@, mtime_text(cmp, days)],
        Expr::Newer(_) => seq!["-newer"@, style.file],
        Expr::Print { null } => if null {
            seq!["-print0"@]
        } else {
            seq!["-print"@]
        },
        Expr::Delete => seq!["-delete"@],
        Expr::Prune => seq!["-prune"@],
        Expr::True => seq!["-true"@],
        Expr::And(l, r) => spelled(*l, 1, style) + style.between() + spelled(*r, 2, style),
        Expr::Or(l, r) => spelled(*l, 2, style) + seq![style.or] + spelled(*r, 3, style),
        Expr::Not(inner) => seq![style.not] + spelled(*inner, 1, style),
    }
}

/// The times in `e` that `-newer` compares with, from left to right.
pub open spec fn times(e: Expr) -> Seq<Timestamp>
    decreases e,
{
    match e {
        Expr::Newer(t) => seq![t],
        Expr::And(l, r) => times(*l) + times(*r),
        Expr::Or(l, r) => times(*l) + times(*r),
        Expr::Not(inner) => times(*inner),
        _ => Seq::empty(),
    }
}

/// Parses an operand that may bind as loosely as `level`.
pub open spec fn parsed_at(level: nat, inp: Input) -> Parsed {
    if level == 0 {
        primary_of(inp)
    } else if level == 1 {
        not_of(inp)
    } else if level == 2 {
        and_of(inp)
    } else {
        expr_of(inp)
    }
}

/// An operand that may bind as loosely as `level` ends before `rest`.
pub open spec fn ends_before(level: nat, rest: Seq<Seq<char>>) -> bool {
    if level <= 1 {
        true
    } else if level == 2 {
        rest.len() == 0 || word(rest[0]) == Word::Or || word(rest[0]) == Word::Close
    } else {
        rest.len() == 0 || word(rest[0]) == Word::Close
    }
}

/// What an operand starts with is no word that ends or joins operands.
proof fn lemma_first_word(e: Expr, level: nat, style: Style)
    requires
        style.valid(),
    ensures
        spelled(e, level, style).len() > 0,
        ({
            let w = word(spelled(e, level, style)[0]);
            &&& w != Word::Close && w != Word::Or && w != Word::And
            &&& level == 0 ==> w != Word::Not
        }),
    decreases e,
{
    words_have_their_meaning();
    if looseness(e) <= level {
        match e {
            Expr::And(l, _) => {
                lemma_first_word(*l, 1, style);
                assert(spelled(e, level, style)[0] == spelled(*l, 1, style)[0]);
            },
            Expr::Or(l, _) => {
                lemma_first_word(*l, 2, style);
                assert(spelled(e, level, style)[0] == spelled(*l, 2, style)[0]);
            },
            _ => {},
        }
    }
}

/// What is parsed as a tight operand is parsed alike where a looser one may stand, if it ends there.
proof fn lemma_loosen(tight: nat, level: nat, inp: Input, e: Expr, out: Input)
    requires
        tight <= level <= 3,
        parsed_at(tight, inp) == (Ok::<Expr, Failure>(e), out),
        tight == 0 ==> !inp.starts(Word::Not),
        ends_before(level, out.words),
    ensures
        parsed_at(level, inp) == (Ok::<Expr, Failure>(e), out),
    decreases level - tight,
{
    words_have_their_meaning();
    if tight < level {
        assert(parsed_at(tight + 1, inp) == (Ok::<Expr, Failure>(e), out));
        lemma_loosen(tight + 1, level, inp, e, out);
    }
}

/// The predicates are read back.
proof fn lemma_leaf_reads_back(e: Expr, style: Style, rest: Seq<Seq<char>>, mtimes: Seq<Timestamp>)
    requires
        looseness(e) == 0,
        spellable(e),
        style.valid(),
    ensures
        primary_of(Input { words: spelled_bare(e, style) + rest, mtimes: times(e) + mtimes }) == (
            Ok::<Expr, Failure>(e),
            Input { words: rest, mtimes },
        ),
{
    words_have_their_meaning();
    let inp = Input { words: spelled_bare(e, style) + rest, mtimes: times(e) + mtimes };
    assert(inp.words[0] == spelled_bare(e, style)[0]);
    if spelled_bare(e, style).len() == 1 {
        assert(inp.words.skip(1) =~= rest);
    } else {
        assert(inp.words.skip(1)[0] == spelled_bare(e, style)[1]);
        assert(inp.words.skip(1).skip(1) =~= rest);
    }
    match e {
        Expr::Newer(t) => {
            assert(inp.mtimes.skip(1) =~= mtimes);
        },
        _ => {
            assert(inp.mtimes =~= mtimes);
            match e {
                Expr::Type(t) => type_letter_names_type(t),
                Expr::MaxDepth(n) => depth_reads_back("-maxdepth"@, n),
                Expr::MinDepth(n) => depth_reads_back("-mindepth"@, n),
                Expr::Size { cmp, bytes } => size_reads_back(cmp, bytes),
                Expr::Mtime { cmp, days } => mtime_reads_back(cmp, days),
                _ => {},
            }
        },
    }
}

/// What is written without parentheses is read back where it may bind so loosely.
proof fn lemma_bare_reads_back(
    e: Expr,
    level: nat,
    style: Style,
    rest: Seq<Seq<char>>,
    mtimes: Seq<Timestamp>,
)
    requires
        looseness(e) <= level <= 3,
        spellable(e),
        style.valid(),
        ends_before(level, rest),
    ensures
        parsed_at(
            level,
            Input { words: spelled_bare(e, style) + rest, mtimes: times(e) + mtimes },
        ) == (Ok::<Expr, Failure>(e), Input { words: rest, mtimes }),
    decreases e, 0nat,
{
    words_have_their_meaning();
    let inp = Input { words: spelled_bare(e, style) + rest, mtimes: times(e) + mtimes };
    let out = Input { words: rest, mtimes };
    match e {
        Expr::Not(inner) => {
            let tail = Input {
                words: spelled(*inner, 1, style) + rest,
                mtimes: times(*inner) + mtimes,
            };
            lemma_reads_back(*inner, 1, style, rest, mtimes);
            assert(inp.words[0] == style.not);
            assert(inp.words.skip(1) =~= tail.words);
            assert(inp.advance() == tail);
            assert(not_of(inp) == (Ok::<Expr, Failure>(e), out));
            lemma_loosen(1, level, inp, e, out);
        },
        Expr::And(l, r) => {
            let after = Input {
                words: style.between() + spelled(*r, 2, style) + rest,
                mtimes: times(*r) + mtimes,
            };
            let tail = Input { words: spelled(*r, 2, style) + rest, mtimes: times(*r) + mtimes };
            lemma_reads_back(*l, 1, style, after.words, after.mtimes);
            lemma_reads_back(*r, 2, style, rest, mtimes);
            lemma_first_word(*r, 2, style);
            assert(inp.words =~= spelled(*l, 1, style) + after.words);
            assert(inp.mtimes =~= times(*l) + after.mtimes);
            assert(not_of(inp) == (Ok::<Expr, Failure>(*l), after));
            parsing_consumes(inp);
            match style.and {
                Some(w) => {
                    assert(after.words[0] == w);
                    assert(after.words.skip(1) =~= tail.words);
                    assert(after.advance() == tail);
                },
                None => {
                    assert(after.words =~= tail.words);
                    assert(after.words[0] == spelled(*r, 2, style)[0]);
                },
            }
            assert(and_of(inp) == (Ok::<Expr, Failure>(e), out));
            lemma_loosen(2, level, inp, e, out);
        },
        Expr::Or(l, r) => {
            let after = Input {
                words: seq![style.or] + spelled(*r, 3, style) + rest,
                mtimes: times(*r) + mtimes,
            };
            let tail = Input { words: spelled(*r, 3, style) + rest, mtimes: times(*r) + mtimes };
            assert(after.words[0] == style.or);
            lemma_reads_back(*l, 2, style, after.words, after.mtimes);
            lemma_reads_back(*r, 3, style, rest, mtimes);
            assert(inp.words =~= spelled(*l, 2, style) + after.words);
            assert(inp.mtimes =~= times(*l) + after.mtimes);
            assert(after.words.skip(1) =~= tail.words);
            assert(after.advance() == tail);
            parsing_consumes(inp);
            assert(expr_of(inp) == (Ok::<Expr, Failure>(e), out));
        },
        _ => {
            lemma_leaf_reads_back(e, style, rest, mtimes);
            lemma_first_word(e, 0, style);
            assert(inp.words[0] == spelled(e, 0, style)[0]);
            lemma_loosen(0, level, inp, e, out);
        },
    }
}

/// What is written is read back, wherever it may stand.
proof fn lemma_reads_back(
    e: Expr,
    level: nat,
    style: Style,
    rest: Seq<Seq<char>>,
    mtimes: Seq<Timestamp>,
)
    requires
        level <= 3,
        spellable(e),
        style.valid(),
        ends_before(level, rest),
    ensures
        parsed_at(
            level,
            Input { words: spelled(e, level, style) + rest, mtimes: times(e) + mtimes },
        ) == (Ok::<Expr, Failure>(e), Input { words: rest, mtimes }),
    decreases e, 1nat,
{
    if looseness(e) <= level {
        lemma_bare_reads_back(e, level, style, rest, mtimes);
    } else {
        words_have_their_meaning();
        let inp = Input { words: spelled(e, level, style) + rest, mtimes: times(e) + mtimes };
        let out = Input { words: rest, mtimes };
        let close = seq![")"@] + rest;
        let body = Input { words: spelled_bare(e, style) + close, mtimes: times(e) + mtimes };
        assert(close[0] == ")"@);
        lemma_bare_reads_back(e, 3, style, close, mtimes);
        assert(inp.words[0] == "("@);
        assert(inp.words.skip(1) =~= body.words);
        assert(inp.advance() == body);
        assert(close.skip(1) =~= rest);
        assert(primary_of(inp) == (Ok::<Expr, Failure>(e), out));
        lemma_loosen(0, level, inp, e, out);
    }
}

/// Every expression that can be written is read back as it was meant: negation binds tightest, then
/// conjunction, which needs no word, then disjunction, and parentheses override that.
pub proof fn expressions_read_back(e: Expr, style: Style)
    requires
        spellable(e),
        style.valid(),
    ensures
        expr_of(Input { words: spelled(e, 3, style), mtimes: times(e) }) == (
            Ok::<Expr, Failure>(e),
            Input { words: Seq::empty(), mtimes: Seq::empty() },
        ),
{
    lemma_reads_back(e, 3, style, Seq::empty(), Seq::empty());
    assert(spelled(e, 3, style) + Seq::<Seq<char>>::empty() =~= spelled(e, 3, style));
    assert(times(e) + Seq::<Timestamp>::empty() =~= times(e));
}

/// The words that mean the same are interchangeable: `-a`, `-and` and nothing, `-o` and `-or`, `!`
/// and `-not`.
pub proof fn synonyms_are_interchangeable(e: Expr, style: Style, other: Style)
    requires
        spellable(e),
        style.valid(),
        other.valid(),
    ensures
        expr_of(Input { words: spelled(e, 3, style), mtimes: times(e) }) == expr_of(
            Input { words: spelled(e, 3, other), mtimes: times(e) },
        ),
{
    expressions_read_back(e, style);
    expressions_read_back(e, other);
}

proof fn lemma_exact_days_not_negative(arg: Seq<char>)
    ensures
        mtime_value(arg) matches Ok((qualifier, days)) ==> (qualifier is Eq ==> days >= 0),
{
}

/// Whatever is parsed can be written, and so is read back from what is written for it.
pub proof fn parsed_trees_are_spellable(inp: Input)
    ensures
        expr_of(inp).0 matches Ok(e) ==> spellable(e),
        and_of(inp).0 matches Ok(e) ==> spellable(e),
        not_of(inp).0 matches Ok(e) ==> spellable(e),
        primary_of(inp).0 matches Ok(e) ==> spellable(e),
    decreases inp.words.len(),
{
    parsing_consumes(inp);
    if inp.words.len() > 0 {
        parsed_trees_are_spellable(inp.advance());
        if inp.words.len() > 1 {
            lemma_exact_days_not_negative(inp.advance().words[0]);
        }
    }
    let (n, after_not) = not_of(inp);
    assert(primary_of(inp).0 matches Ok(e) ==> spellable(e)) by {
        reveal_with_fuel(spellable, 2);
    }
    if n is Ok {
        parsed_trees_are_spellable(after_not);
        if after_not.words.len() > 0 {
            parsed_trees_are_spellable(after_not.advance());
        }
    }
    let (a, after_and) = and_of(inp);
    assert(n matches Ok(e) ==> spellable(e));
    assert(a matches Ok(e) ==> spellable(e));
    if a is Ok && after_and.words.len() > 0 {
        parsed_trees_are_spellable(after_and.advance());
    }
}

/// A word has the meaning of the grammar's word that it is, and no word that is not of the grammar has
/// any.
pub proof fn no_other_word_has_a_meaning(s: Seq<char>)
    ensures
        word(s) == Word::Open <==> s == "("@,
        word(s) == Word::Close <==> s == ")"@,
        word(s) == Word::Or <==> s == "-o"@ || s == "-or"@,
        word(s) == Word::And <==> s == "-a"@ || s == "-and"@,
        word(s) == Word::Not <==> s == "!"@ || s == "-not"@,
        word(s) == Word::Name <==> s == "-name"@,
        word(s) == Word::IName <==> s == "-iname"@,
        word(s) == Word::Path <==> s == "-path"@ || s == "-wholename"@,
        word(s) == Word::IPath <==> s == "-ipath"@ || s == "-iwholename"@,
        word(s) == Word::Type <==> s == "-type"@,
        word(s) == Word::Empty <==> s == "-empty"@,
        word(s) == Word::MaxDepth <==> s == "-maxdepth"@,
        word(s) == Word::MinDepth <==> s == "-mindepth"@,
        word(s) == Word::Size <==> s == "-size"@,
        word(s) == Word::Mtime <==> s == "-mtime"@,
        word(s) == Word::Newer <==> s == "-newer"@,
        word(s) == Word::Print <==> s == "-print"@,
        word(s) == Word::Print0 <==> s == "-print0"@,
        word(s) == Word::Delete <==> s == "-delete"@,
        word(s) == Word::Prune <==> s == "-prune"@,
        word(s) == Word::True <==> s == "-true"@,
        word(s) == Word::False <==> s == "-false"@,
{
    words_have_their_meaning();
}

proof fn lemma_two_words(w: Seq<char>, arg: Seq<char>, rest: Seq<Seq<char>>, mtimes: Seq<Timestamp>)
    ensures
        ({
            let inp = Input { words: seq![w, arg] + rest, mtimes };
            &&& inp.words.len() > 1
            &&& inp.words[0] == w
            &&& inp.advance().words[0] == arg
            &&& inp.advance().mtimes == mtimes
            &&& inp.advance().advance() == (Input { words: rest, mtimes })
        }),
{
    let words = seq![w, arg] + rest;
    assert(words.skip(1) =~= seq![arg] + rest);
    assert(words.skip(1).skip(1) =~= rest);
}

proof fn lemma_one_word(w: Seq<char>, rest: Seq<Seq<char>>, mtimes: Seq<Timestamp>)
    ensures
        ({
            let inp = Input { words: seq![w] + rest, mtimes };
            &&& inp.words.len() > 0
            &&& inp.words[0] == w
            &&& inp.advance() == (Input { words: rest, mtimes })
        }),
{
    let words = seq![w] + rest;
    assert(words.skip(1) =~= rest);
}

/// A predicate that takes a pattern takes the next word as it is, whatever it is.
pub proof fn patterns_are_taken_as_they_are(
    arg: Seq<char>,
    rest: Seq<Seq<char>>,
    mtimes: Seq<Timestamp>,
)
    ensures
        primary_of(Input { words: seq!["-name"@, arg] + rest, mtimes }) == (
            Ok::<Expr, Failure>(Expr::Name { pattern: arg, ignore_case: false }),
            Input { words: rest, mtimes },
        ),
        primary_of(Input { words: seq!["-iname"@, arg] + rest, mtimes }) == (
            Ok::<Expr, Failure>(Expr::Name { pattern: arg, ignore_case: true }),
            Input { words: rest, mtimes },
        ),
        primary_of(Input { words: seq!["-path"@, arg] + rest, mtimes }) == (
            Ok::<Expr, Failure>(Expr::Path { pattern: arg, ignore_case: false }),
            Input { words: rest, mtimes },
        ),
        primary_of(Input { words: seq!["-wholename"@, arg] + rest, mtimes }) == (
            Ok::<Expr, Failure>(Expr::Path { pattern: arg, ignore_case: false }),
            Input { words: rest, mtimes },
        ),
        primary_of(Input { words: seq!["-ipath"@, arg] + rest, mtimes }) == (
            Ok::<Expr, Failure>(Expr::Path { pattern: arg, ignore_case: true }),
            Input { words: rest, mtimes },
        ),
        primary_of(Input { words: seq!["-iwholename"@, arg] + rest, mtimes }) == (
            Ok::<Expr, Failure>(Expr::Path { pattern: arg, ignore_case: true }),
            Input { words: rest, mtimes },
        ),
{
    words_have_their_meaning();
    lemma_two_words("-name"@, arg, rest, mtimes);
    lemma_two_words("-iname"@, arg, rest, mtimes);
    lemma_two_words("-path"@, arg, rest, mtimes);
    lemma_two_words("-wholename"@, arg, rest, mtimes);
    lemma_two_words("-ipath"@, arg, rest, mtimes);
    lemma_two_words("-iwholename"@, arg, rest, mtimes);
}

/// A predicate that takes a number or a type takes what the next word gives, and reports what is wrong
/// with it.
pub proof fn operands_are_taken_for_their_value(
    arg: Seq<char>,
    rest: Seq<Seq<char>>,
    mtimes: Seq<Timestamp>,
)
    ensures
        primary_of(Input { words: seq!["-type"@, arg] + rest, mtimes }) == (
            match type_value(arg) {
                Ok(t) => Ok::<Expr, Failure>(Expr::Type(t)),
                Err(e) => Err::<Expr, Failure>(e),
            },
            Input { words: rest, mtimes },
        ),
        primary_of(Input { words: seq!["-maxdepth"@, arg] + rest, mtimes }) == (
            match depth_value("-maxdepth"@, arg) {
                Ok(n) => Ok::<Expr, Failure>(Expr::MaxDepth(n)),
                Err(e) => Err::<Expr, Failure>(e),
            },
            Input { words: rest, mtimes },
        ),
        primary_of(Input { words: seq!["-mindepth"@, arg] + rest, mtimes }) == (
            match depth_value("-mindepth"@, arg) {
                Ok(n) => Ok::<Expr, Failure>(Expr::MinDepth(n)),
                Err(e) => Err::<Expr, Failure>(e),
            },
            Input { words: rest, mtimes },
        ),
        primary_of(Input { words: seq!["-size"@, arg] + rest, mtimes }) == (
            match size_value(arg) {
                Ok((cmp, bytes)) => Ok::<Expr, Failure>(Expr::Size { cmp, bytes }),
                Err(e) => Err::<Expr, Failure>(e),
            },
            Input { words: rest, mtimes },
        ),
        primary_of(Input { words: seq!["-mtime"@, arg] + rest, mtimes }) == (
            match mtime_value(arg) {
                Ok((cmp, days)) => Ok::<Expr, Failure>(Expr::Mtime { cmp, days }),
                Err(e) => Err::<Expr, Failure>(e),
            },
            Input { words: rest, mtimes },
        ),
{
    words_have_their_meaning();
    lemma_two_words("-type"@, arg, rest, mtimes);
    lemma_two_words("-maxdepth"@, arg, rest, mtimes);
    lemma_two_words("-mindepth"@, arg, rest, mtimes);
    lemma_two_words("-size"@, arg, rest, mtimes);
    lemma_two_words("-mtime"@, arg, rest, mtimes);
}

/// `-newer` takes the next word for a file, and the next modification time for the file's; where none has
/// been supplied, it asks for the one of that file.
pub proof fn newer_takes_a_time(arg: Seq<char>, rest: Seq<Seq<char>>, mtimes: Seq<Timestamp>)
    ensures
        mtimes.len() == 0 ==> primary_of(Input { words: seq!["-newer"@, arg] + rest, mtimes }).0
            == Err::<Expr, Failure>(Failure::NeedMtime(arg)),
        mtimes.len() > 0 ==> primary_of(Input { words: seq!["-newer"@, arg] + rest, mtimes }) == (
            Ok::<Expr, Failure>(Expr::Newer(mtimes[0])),
            Input { words: rest, mtimes: mtimes.skip(1) },
        ),
{
    words_have_their_meaning();
    lemma_two_words("-newer"@, arg, rest, mtimes);
}

/// A predicate without an operand stands for itself, and `-false` for the negation of `-true`.
pub proof fn predicates_stand_alone(rest: Seq<Seq<char>>, mtimes: Seq<Timestamp>)
    ensures
        primary_of(Input { words: seq!["-empty"@] + rest, mtimes }) == (
            Ok::<Expr, Failure>(Expr::Empty),
            Input { words: rest, mtimes },
        ),
        primary_of(Input { words: seq!["-print"@] + rest, mtimes }) == (
            Ok::<Expr, Failure>(Expr::Print { null: false }),
            Input { words: rest, mtimes },
        ),
        primary_of(Input { words: seq!["-print0"@] + rest, mtimes }) == (
            Ok::<Expr, Failure>(Expr::Print { null: true }),
            Input { words: rest, mtimes },
        ),
        primary_of(Input { words: seq!["-delete"@] + rest, mtimes }) == (
            Ok::<Expr, Failure>(Expr::Delete),
            Input { words: rest, mtimes },
        ),
        primary_of(Input { words: seq!["-prune"@] + rest, mtimes }) == (
            Ok::<Expr, Failure>(Expr::Prune),
            Input { words: rest, mtimes },
        ),
        primary_of(Input { words: seq!["-true"@] + rest, mtimes }) == (
            Ok::<Expr, Failure>(Expr::True),
            Input { words: rest, mtimes },
        ),
        primary_of(Input { words: seq!["-false"@] + rest, mtimes }) == (
            Ok::<Expr, Failure>(Expr::Not(Box::new(Expr::True))),
            Input { words: rest, mtimes },
        ),
{
    words_have_their_meaning();
    lemma_one_word("-empty"@, rest, mtimes);
    lemma_one_word("-print"@, rest, mtimes);
    lemma_one_word("-print0"@, rest, mtimes);
    lemma_one_word("-delete"@, rest, mtimes);
    lemma_one_word("-prune"@, rest, mtimes);
    lemma_one_word("-true"@, rest, mtimes);
    lemma_one_word("-false"@, rest, mtimes);
}

/// A predicate that lacks its operand is reported by the name of its option.
pub proof fn missing_operands_are_reported(mtimes: Seq<Timestamp>)
    ensures
        primary_of(Input { words: seq!["-name"@], mtimes }).0 == Err::<Expr, Failure>(
            Failure::MissingArgument("-name"@),
        ),
        primary_of(Input { words: seq!["-iname"@], mtimes }).0 == Err::<Expr, Failure>(
            Failure::MissingArgument("-iname"@),
        ),
        primary_of(Input { words: seq!["-path"@], mtimes }).0 == Err::<Expr, Failure>(
            Failure::MissingArgument("-path"@),
        ),
        primary_of(Input { words: seq!["-wholename"@], mtimes }).0 == Err::<Expr, Failure>(
            Failure::MissingArgument("-path"@),
        ),
        primary_of(Input { words: seq!["-ipath"@], mtimes }).0 == Err::<Expr, Failure>(
            Failure::MissingArgument("-ipath"@),
        ),
        primary_of(Input { words: seq!["-iwholename"@], mtimes }).0 == Err::<Expr, Failure>(
            Failure::MissingArgument("-ipath"@),
        ),
        primary_of(Input { words: seq!["-type"@], mtimes }).0 == Err::<Expr, Failure>(
            Failure::MissingArgument("-type"@),
        ),
        primary_of(Input { words: seq!["-maxdepth"@], mtimes }).0 == Err::<Expr, Failure>(
            Failure::MissingArgument("-maxdepth"@),
        ),
        primary_of(Input { words: seq!["-mindepth"@], mtimes }).0 == Err::<Expr, Failure>(
            Failure::MissingArgument("-mindepth"@),
        ),
        primary_of(Input { words: seq!["-size"@], mtimes }).0 == Err::<Expr, Failure>(
            Failure::MissingArgument("-size"@),
        ),
        primary_of(Input { words: seq!["-mtime"@], mtimes }).0 == Err::<Expr, Failure>(
            Failure::MissingArgument("-mtime"@),
        ),
        primary_of(Input { words: seq!["-newer"@], mtimes }).0 == Err::<Expr, Failure>(
            Failure::MissingArgument("-newer"@),
        ),
{
    words_have_their_meaning();
    lemma_one_word("-name"@, Seq::empty(), mtimes);
    assert(seq!["-name"@] + Seq::<Seq<char>>::empty() =~= seq!["-name"@]);
    lemma_one_word("-iname"@, Seq::empty(), mtimes);
    assert(seq!["-iname"@] + Seq::<Seq<char>>::empty() =~= seq!["-iname"@]);
    lemma_one_word("-path"@, Seq::empty(), mtimes);
    assert(seq!["-path"@] + Seq::<Seq<char>>::empty() =~= seq!["-path"@]);
    lemma_one_word("-wholename"@, Seq::empty(), mtimes);
    assert(seq!["-wholename"@] + Seq::<Seq<char>>::empty() =~= seq!["-wholename"@]);
    lemma_one_word("-ipath"@, Seq::empty(), mtimes);
    assert(seq!["-ipath"@] + Seq::<Seq<char>>::empty() =~= seq!["-ipath"@]);
    lemma_one_word("-iwholename"@, Seq::empty(), mtimes);
    assert(seq!["-iwholename"@] + Seq::<Seq<char>>::empty() =~= seq!["-iwholename"@]);
    lemma_one_word("-type"@, Seq::empty(), mtimes);
    assert(seq!["-type"@] + Seq::<Seq<char>>::empty() =~= seq!["-type"@]);
    lemma_one_word("-maxdepth"@, Seq::empty(), mtimes);
    assert(seq!["-maxdepth"@] + Seq::<Seq<char>>::empty() =~= seq!["-maxdepth"@]);
    lemma_one_word("-mindepth"@, Seq::empty(), mtimes);
    assert(seq!["-mindepth"@] + Seq::<Seq<char>>::empty() =~= seq!["-mindepth"@]);
    lemma_one_word("-size"@, Seq::empty(), mtimes);
    assert(seq!["-size"@] + Seq::<Seq<char>>::empty() =~= seq!["-size"@]);
    lemma_one_word("-mtime"@, Seq::empty(), mtimes);
    assert(seq!["-mtime"@] + Seq::<Seq<char>>::empty() =~= seq!["-mtime"@]);
    lemma_one_word("-newer"@, Seq::empty(), mtimes);
    assert(seq!["-newer"@] + Seq::<Seq<char>>::empty() =~= seq!["-newer"@]);
}

/// Where an operand is called for, a word that starts none is reported, and the lack of a word too.
pub proof fn other_words_are_reported(
    tok: Seq<char>,
    rest: Seq<Seq<char>>,
    mtimes: Seq<Timestamp>,
)
    requires
        tok != "("@ && tok != "-name"@ && tok != "-iname"@ && tok != "-path"@
            && tok != "-wholename"@ && tok != "-ipath"@ && tok != "-iwholename"@
            && tok != "-type"@ && tok != "-empty"@ && tok != "-maxdepth"@ && tok != "-mindepth"@
            && tok != "-size"@ && tok != "-mtime"@ && tok != "-newer"@ && tok != "-print"@
            && tok != "-print0"@ && tok != "-delete"@ && tok != "-prune"@ && tok != "-true"@
            && tok != "-false"@,
    ensures
        primary_of(Input { words: seq![tok] + rest, mtimes }).0 == Err::<Expr, Failure>(
            Failure::UnknownPredicate(tok),
        ),
        primary_of(Input { words: Seq::empty(), mtimes }).0 == Err::<Expr, Failure>(
            Failure::MissingExpression,
        ),
{
    no_other_word_has_a_meaning(tok);
    lemma_one_word(tok, rest, mtimes);
}

/// An expression in parentheses is what it is without them, and is behind them when it ends. One that
/// has no `)` is in error, and so is one in which something is.
pub proof fn parentheses_enclose(inner: Input)
    ensures
        ({
            let whole = primary_of(
                Input { words: seq!["("@] + inner.words, mtimes: inner.mtimes },
            );
            let (value, after) = expr_of(inner);
            match value {
                Ok(e) => {
                    &&& after.words.len() == 0 ==> whole.0 == Err::<Expr, Failure>(
                        Failure::MissingClosingParen,
                    )
                    &&& after.words.len() > 0 ==> after.words[0] == ")"@ && whole == (
                        Ok::<Expr, Failure>(e),
                        Input { words: after.words.skip(1), mtimes: after.mtimes },
                    )
                },
                Err(f) => whole.0 == Err::<Expr, Failure>(f),
            }
        }),
{
    words_have_their_meaning();
    lemma_one_word("("@, inner.words, inner.mtimes);
    expressions_end_before_close(inner);
    if expr_of(inner).1.words.len() > 0 {
        no_other_word_has_a_meaning(expr_of(inner).1.words[0]);
    }
}

/// `!` and `-not` negate the operand that follows, which may be negated itself; what is not negated is a
/// primary.
pub proof fn negations_nest(inp: Input)
    ensures
        ({
            let bang = not_of(Input { words: seq!["!"@] + inp.words, mtimes: inp.mtimes });
            let spelled_out = not_of(
                Input { words: seq!["-not"@] + inp.words, mtimes: inp.mtimes },
            );
            let (value, after) = not_of(inp);
            &&& bang == spelled_out
            &&& match value {
                Ok(e) => bang == (Ok::<Expr, Failure>(Expr::Not(Box::new(e))), after),
                Err(f) => bang.0 == Err::<Expr, Failure>(f),
            }
        }),
        inp.words.len() == 0 || inp.words[0] != "!"@ && inp.words[0] != "-not"@ ==> not_of(inp)
            == primary_of(inp),
{
    words_have_their_meaning();
    lemma_one_word("!"@, inp.words, inp.mtimes);
    lemma_one_word("-not"@, inp.words, inp.mtimes);
    if inp.words.len() > 0 {
        no_other_word_has_a_meaning(inp.words[0]);
    }
}

/// Operands in a row, with `-a` or `-and` between them or with nothing, are a conjunction. It ends with
/// the words, before `-o` or `-or`, or before `)`. What is wrong with the first operand that has something
/// wrong is wrong with the whole.
pub proof fn conjunctions_join(inp: Input)
    ensures
        ({
            let whole = and_of(inp);
            let (value, after) = not_of(inp);
            match value {
                Err(f) => whole.0 == Err::<Expr, Failure>(f),
                Ok(l) => if after.words.len() == 0 || after.words[0] == "-o"@ || after.words[0]
                    == "-or"@ || after.words[0] == ")"@ {
                    whole == (value, after)
                } else {
                    let tail = and_of(
                        if after.words[0] == "-a"@ || after.words[0] == "-and"@ {
                            Input { words: after.words.skip(1), mtimes: after.mtimes }
                        } else {
                            after
                        },
                    );
                    match tail.0 {
                        Ok(r) => whole == (
                            Ok::<Expr, Failure>(Expr::And(Box::new(l), Box::new(r))),
                            tail.1,
                        ),
                        Err(f) => whole.0 == Err::<Expr, Failure>(f),
                    }
                },
            }
        }),
{
    parsing_consumes(inp);
    let after = not_of(inp).1;
    if after.words.len() > 0 {
        no_other_word_has_a_meaning(after.words[0]);
    }
}

/// Conjunctions with `-o` or `-or` between them are a disjunction, which ends where none of the two
/// follows.
pub proof fn disjunctions_join(inp: Input)
    ensures
        ({
            let whole = expr_of(inp);
            let (value, after) = and_of(inp);
            match value {
                Err(f) => whole.0 == Err::<Expr, Failure>(f),
                Ok(l) => if after.words.len() > 0 && (after.words[0] == "-o"@ || after.words[0]
                    == "-or"@) {
                    let tail = expr_of(Input { words: after.words.skip(1), mtimes: after.mtimes });
                    match tail.0 {
                        Ok(r) => whole == (
                            Ok::<Expr, Failure>(Expr::Or(Box::new(l), Box::new(r))),
                            tail.1,
                        ),
                        Err(f) => whole.0 == Err::<Expr, Failure>(f),
                    }
                } else {
                    whole == (value, after)
                },
            }
        }),
{
    parsing_consumes(inp);
    let after = and_of(inp).1;
    if after.words.len() > 0 {
        no_other_word_has_a_meaning(after.words[0]);
    }
}

} // verus!
