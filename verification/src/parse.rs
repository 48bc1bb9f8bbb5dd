//! The expression grammar.
//!
//! ```text
//! expr    = and [ ("-o" | "-or") expr ]
//! and     = not [ ["-a" | "-and"] and ]
//! not     = ( "!" | "-not" ) not | primary
//! primary = "(" expr ")" | predicate
//! ```
use crate::error::{Failure, ParseError};
use crate::operand::{
    depth_value, mtime_value, parse_depth, parse_mtime, parse_size, parse_type, size_value,
    type_value,
};
use crate::pred::{Expr, Pred};
use crate::text::text_eq;
use crate::time::Timestamp;
use vstd::prelude::*;

verus! {

/// What a word of the command line means to the grammar.
#[derive(Debug, Clone, Copy, PartialEq, Eq, Structural)]
pub enum Word {
    Open,
    Close,
    Or,
    And,
    Not,
    Name,
    IName,
    Path,
    IPath,
    Type,
    Empty,
    MaxDepth,
    MinDepth,
    Size,
    Mtime,
    Newer,
    Print,
    Print0,
    Delete,
    Prune,
    True,
    False,
    Other,
}

/// The meaning of the word `s`.
pub open spec fn word(s: Seq<char>) -> Word {
    if s == "("@ {
        Word::Open
    } else if s == ")"@ {
        Word::Close
    } else if s == "-o"@ || s == "-or"@ {
        Word::Or
    } else if s == "-a"@ || s == "-and"@ {
        Word::And
    } else if s == "!"@ || s == "-not"@ {
        Word::Not
    } else if s == "-name"@ {
        Word::Name
    } else if s == "-iname"@ {
        Word::IName
    } else if s == "-path"@ || s == "-wholename"@ {
        Word::Path
    } else if s == "-ipath"@ || s == "-iwholename"@ {
        Word::IPath
    } else if s == "-type"@ {
        Word::Type
    } else if s == "-empty"@ {
        Word::Empty
    } else if s == "-maxdepth"@ {
        Word::MaxDepth
    } else if s == "-mindepth"@ {
        Word::MinDepth
    } else if s == "-size"@ {
        Word::Size
    } else if s == "-mtime"@ {
        Word::Mtime
    } else if s == "-newer"@ {
        Word::Newer
    } else if s == "-print"@ {
        Word::Print
    } else if s == "-print0"@ {
        Word::Print0
    } else if s == "-delete"@ {
        Word::Delete
    } else if s == "-prune"@ {
        Word::Prune
    } else if s == "-true"@ {
        Word::True
    } else if s == "-false"@ {
        Word::False
    } else {
        Word::Other
    }
}

/// Returns the meaning of the word `s`.
pub fn classify(s: &str) -> (w: Word)
    ensures
        w == word(s@),
{
    if text_eq(s, "(") {
        Word::Open
    } else if text_eq(s, ")") {
        Word::Close
    } else if text_eq(s, "-o") || text_eq(s, "-or") {
        Word::Or
    } else if text_eq(s, "-a") || text_eq(s, "-and") {
        Word::And
    } else if text_eq(s, "!") || text_eq(s, "-not") {
        Word::Not
    } else if text_eq(s, "-name") {
        Word::Name
    } else if text_eq(s, "-iname") {
        Word::IName
    } else if text_eq(s, "-path") || text_eq(s, "-wholename") {
        Word::Path
    } else if text_eq(s, "-ipath") || text_eq(s, "-iwholename") {
        Word::IPath
    } else if text_eq(s, "-type") {
        Word::Type
    } else if text_eq(s, "-empty") {
        Word::Empty
    } else if text_eq(s, "-maxdepth") {
        Word::MaxDepth
    } else if text_eq(s, "-mindepth") {
        Word::MinDepth
    } else if text_eq(s, "-size") {
        Word::Size
    } else if text_eq(s, "-mtime") {
        Word::Mtime
    } else if text_eq(s, "-newer") {
        Word::Newer
    } else if text_eq(s, "-print") {
        Word::Print
    } else if text_eq(s, "-print0") {
        Word::Print0
    } else if text_eq(s, "-delete") {
        Word::Delete
    } else if text_eq(s, "-prune") {
        Word::Prune
    } else if text_eq(s, "-true") {
        Word::True
    } else if text_eq(s, "-false") {
        Word::False
    } else {
        Word::Other
    }
}

/// What is left to parse: the words, and the modification times that have been supplied for
/// the operands of `-newer` to come.
#[verifier::ext_equal]
pub struct Input {
    pub words: Seq<Seq<char>>,
    pub mtimes: Seq<Timestamp>,
}

impl Input {
    /// The input behind its first word.
    pub open spec fn advance(self) -> Input {
        Input { words: self.words.skip(1), mtimes: self.mtimes }
    }

    /// The input with more modification times behind its own.
    pub open spec fn with_more(self, more: Seq<Timestamp>) -> Input {
        Input { words: self.words, mtimes: self.mtimes + more }
    }

    /// The input starts with a word of meaning `w`.
    pub open spec fn starts(self, w: Word) -> bool {
        self.words.len() > 0 && word(self.words[0]) == w
    }
}

/// What a parse comes to, and the input that it leaves.
pub type Parsed = (Result<Expr, Failure>, Input);

/// The tree that a predicate stands for whose operand, `arg`, says all about it. No other word stands
/// for a tree in this way.
pub open spec fn operand_tree(w: Word, arg: Seq<char>) -> Result<Expr, Failure> {
    match w {
        Word::Name => Ok(Expr::Name { pattern: arg, ignore_case: false }),
        Word::IName => Ok(Expr::Name { pattern: arg, ignore_case: true }),
        Word::Path => Ok(Expr::Path { pattern: arg, ignore_case: false }),
        Word::IPath => Ok(Expr::Path { pattern: arg, ignore_case: true }),
        Word::Type => match type_value(arg) {
            Ok(t) => Ok(Expr::Type(t)),
            Err(e) => Err(e),
        },
        Word::MaxDepth => match depth_value("-maxdepth"@, arg) {
            Ok(n) => Ok(Expr::MaxDepth(n)),
            Err(e) => Err(e),
        },
        Word::MinDepth => match depth_value("-mindepth"@, arg) {
            Ok(n) => Ok(Expr::MinDepth(n)),
            Err(e) => Err(e),
        },
        Word::Size => match size_value(arg) {
            Ok((cmp, bytes)) => Ok(Expr::Size { cmp, bytes }),
            Err(e) => Err(e),
        },
        Word::Mtime => match mtime_value(arg) {
            Ok((cmp, days)) => Ok(Expr::Mtime { cmp, days }),
            Err(e) => Err(e),
        },
        _ => Err(Failure::MissingExpression),
    }
}

/// The option by which the lack of an operand of `w` is reported.
pub open spec fn option_name(w: Word) -> Seq<char> {
    match w {
        Word::Name => "-name"@,
        Word::IName => "-iname"@,
        Word::Path => "-path"@,
        Word::IPath => "-ipath"@,
        Word::Type => "-type"@,
        Word::MaxDepth => "-maxdepth"@,
        Word::MinDepth => "-mindepth"@,
        Word::Size => "-size"@,
        Word::Mtime => "-mtime"@,
        Word::Newer => "-newer"@,
        _ => Seq::empty(),
    }
}

/// The tree of a predicate that stands alone.
pub open spec fn bare_tree(w: Word) -> Option<Expr> {
    match w {
        Word::Empty => Some(Expr::Empty),
        Word::Print => Some(Expr::Print { null: false }),
        Word::Print0 => Some(Expr::Print { null: true }),
        Word::Delete => Some(Expr::Delete),
        Word::Prune => Some(Expr::Prune),
        Word::True => Some(Expr::True),
        Word::False => Some(Expr::Not(Box::new(Expr::True))),
        _ => None,
    }
}

/// Parses a disjunction: operands that `-o` joins, to the right. (That `rest` is no longer than
/// `inp`, here and below, goes without saying, see [`parsing_consumes`]; it shows that the grammar is
/// well-founded.)
pub open spec fn expr_of(inp: Input) -> Parsed
    decreases inp.words.len(), 3int,
{
    match and_of(inp) {
        (Ok(lhs), rest) => if rest.starts(Word::Or) && rest.words.len() <= inp.words.len() {
            match expr_of(rest.advance()) {
                (Ok(rhs), after) => (Ok(Expr::Or(Box::new(lhs), Box::new(rhs))), after),
                (Err(e), after) => (Err(e), after),
            }
        } else {
            (Ok(lhs), rest)
        },
        (Err(e), rest) => (Err(e), rest),
    }
}

/// Parses a conjunction: operands that stand next to each other or that `-a` joins, to the
/// right.
pub open spec fn and_of(inp: Input) -> Parsed
    decreases inp.words.len(), 2int,
{
    match not_of(inp) {
        (Ok(lhs), rest) => if rest.words.len() == 0 || rest.starts(Word::Or) || rest.starts(
            Word::Close,
        ) || rest.words.len() >= inp.words.len() {
            (Ok(lhs), rest)
        } else {
            match and_of(
                if rest.starts(Word::And) {
                    rest.advance()
                } else {
                    rest
                },
            ) {
                (Ok(rhs), after) => (Ok(Expr::And(Box::new(lhs), Box::new(rhs))), after),
                (Err(e), after) => (Err(e), after),
            }
        },
        (Err(e), rest) => (Err(e), rest),
    }
}

/// Parses a primary, which `!` may negate, once or more than once.
pub open spec fn not_of(inp: Input) -> Parsed
    decreases inp.words.len(), 1int,
{
    if inp.starts(Word::Not) {
        match not_of(inp.advance()) {
            (Ok(operand), rest) => (Ok(Expr::Not(Box::new(operand))), rest),
            (Err(e), rest) => (Err(e), rest),
        }
    } else {
        primary_of(inp)
    }
}

/// Parses a primary: a predicate, or an expression in parentheses.
pub open spec fn primary_of(inp: Input) -> Parsed
    decreases inp.words.len(), 0int,
{
    if inp.words.len() == 0 {
        (Err(Failure::MissingExpression), inp)
    } else {
        let tok = inp.words[0];
        let w = word(tok);
        let rest = inp.advance();
        match w {
            Word::Open => match expr_of(rest) {
                (Ok(inner), after) => if after.words.len() == 0 {
                    (Err(Failure::MissingClosingParen), after)
                } else if after.starts(Word::Close) {
                    (Ok(inner), after.advance())
                } else {
                    (Err(Failure::MissingClosingParen), after.advance())
                },
                (Err(e), after) => (Err(e), after),
            },
            Word::Name | Word::IName | Word::Path | Word::IPath | Word::Type | Word::MaxDepth
            | Word::MinDepth | Word::Size | Word::Mtime => if rest.words.len() == 0 {
                (Err(Failure::MissingArgument(option_name(w))), rest)
            } else {
                (operand_tree(w, rest.words[0]), rest.advance())
            },
            Word::Newer => if rest.words.len() == 0 {
                (Err(Failure::MissingArgument(option_name(w))), rest)
            } else if rest.mtimes.len() == 0 {
                (Err(Failure::NeedMtime(rest.words[0])), rest.advance())
            } else {
                (
                    Ok(Expr::Newer(rest.mtimes[0])),
                    Input { words: rest.words.skip(1), mtimes: rest.mtimes.skip(1) },
                )
            },
            _ => match bare_tree(w) {
                Some(e) => (Ok(e), rest),
                None => (Err(Failure::UnknownPredicate(tok)), rest),
            },
        }
    }
}

/// A parse leaves no more than it was given, and less where it succeeds.
pub proof fn parsing_consumes(inp: Input)
    ensures
        expr_of(inp).1.words.len() <= inp.words.len(),
        and_of(inp).1.words.len() <= inp.words.len(),
        not_of(inp).1.words.len() <= inp.words.len(),
        primary_of(inp).1.words.len() <= inp.words.len(),
        expr_of(inp).0 is Ok ==> expr_of(inp).1.words.len() < inp.words.len(),
        and_of(inp).0 is Ok ==> and_of(inp).1.words.len() < inp.words.len(),
        not_of(inp).0 is Ok ==> not_of(inp).1.words.len() < inp.words.len(),
        primary_of(inp).0 is Ok ==> primary_of(inp).1.words.len() < inp.words.len(),
    decreases inp.words.len(),
{
    if inp.words.len() > 0 {
        parsing_consumes(inp.advance());
    }
    let (n, after_not) = not_of(inp);
    if n is Ok && after_not.words.len() < inp.words.len() {
        parsing_consumes(after_not);
        if after_not.words.len() > 0 {
            parsing_consumes(after_not.advance());
        }
    }
    let (a, after_and) = and_of(inp);
    if a is Ok && after_and.words.len() < inp.words.len() && after_and.words.len() > 0 {
        parsing_consumes(after_and.advance());
    }
}

/// A whole expression ends with the input, or before a `)`.
pub proof fn expressions_end_before_close(inp: Input)
    ensures
        expr_of(inp).0 is Ok && expr_of(inp).1.words.len() > 0 ==> expr_of(inp).1.starts(
            Word::Close,
        ),
        and_of(inp).0 is Ok && and_of(inp).1.words.len() > 0 ==> and_of(inp).1.starts(Word::Close)
            || and_of(inp).1.starts(Word::Or),
    decreases inp.words.len(),
{
    parsing_consumes(inp);
    let (n, after_not) = not_of(inp);
    if n is Ok && after_not.words.len() > 0 {
        expressions_end_before_close(after_not);
        expressions_end_before_close(after_not.advance());
    }
    let (a, after_and) = and_of(inp);
    if a is Ok && after_and.words.len() > 0 {
        expressions_end_before_close(after_and.advance());
    }
}

/// The parse waits for a modification time.
pub open spec fn waits(parsed: Parsed) -> bool {
    parsed.0 matches Err(e) && e is NeedMtime
}

/// `parsed`, with more modification times left over.
pub open spec fn leaving(parsed: Parsed, more: Seq<Timestamp>) -> Parsed {
    (parsed.0, parsed.1.with_more(more))
}

/// A parse that does not wait for a modification time is not changed by more of them: they are left
/// over.
pub proof fn a_parse_stands(inp: Input, more: Seq<Timestamp>)
    ensures
        !waits(expr_of(inp)) ==> expr_of(inp.with_more(more)) == leaving(expr_of(inp), more),
        !waits(and_of(inp)) ==> and_of(inp.with_more(more)) == leaving(and_of(inp), more),
        !waits(not_of(inp)) ==> not_of(inp.with_more(more)) == leaving(not_of(inp), more),
        !waits(primary_of(inp)) ==> primary_of(inp.with_more(more)) == leaving(
            primary_of(inp),
            more,
        ),
    decreases inp.words.len(),
{
    parsing_consumes(inp);
    let long = inp.with_more(more);
    if inp.words.len() > 0 {
        a_parse_stands(inp.advance(), more);
        assert(long.advance() == inp.advance().with_more(more));
        if inp.mtimes.len() > 0 {
            assert(long.mtimes.skip(1) =~= inp.mtimes.skip(1) + more);
        }
    }
    assert(!waits(primary_of(inp)) ==> primary_of(long) == leaving(primary_of(inp), more));
    assert(!waits(not_of(inp)) ==> not_of(long) == leaving(not_of(inp), more));
    let (n, after_not) = not_of(inp);
    if n is Ok {
        a_parse_stands(after_not, more);
        if after_not.words.len() > 0 {
            a_parse_stands(after_not.advance(), more);
            assert(after_not.with_more(more).advance() == after_not.advance().with_more(more));
        }
    }
    assert(!waits(and_of(inp)) ==> and_of(long) == leaving(and_of(inp), more));
    let (a, after_and) = and_of(inp);
    if a is Ok && after_and.words.len() > 0 {
        a_parse_stands(after_and.advance(), more);
        assert(after_and.with_more(more).advance() == after_and.advance().with_more(more));
    }
}

/// A parse uses modification times from the front, and no more of them than it takes words. So
/// a parse that waits goes on to its end after so many of them at the latest.
pub proof fn mtimes_are_bounded(inp: Input)
    ensures
        expr_of(inp).1.mtimes.len() <= inp.mtimes.len(),
        and_of(inp).1.mtimes.len() <= inp.mtimes.len(),
        not_of(inp).1.mtimes.len() <= inp.mtimes.len(),
        primary_of(inp).1.mtimes.len() <= inp.mtimes.len(),
        within_words(inp, expr_of(inp)),
        within_words(inp, and_of(inp)),
        within_words(inp, not_of(inp)),
        within_words(inp, primary_of(inp)),
    decreases inp.words.len(),
{
    parsing_consumes(inp);
    if inp.words.len() > 0 {
        mtimes_are_bounded(inp.advance());
    }
    let (n, after_not) = not_of(inp);
    if n is Ok {
        mtimes_are_bounded(after_not);
        if after_not.words.len() > 0 {
            mtimes_are_bounded(after_not.advance());
        }
    }
    let (a, after_and) = and_of(inp);
    if a is Ok && after_and.words.len() > 0 {
        mtimes_are_bounded(after_and.advance());
    }
}

/// The modification times that the parse of `inp` used, and the one that it waits for, are no more
/// than the words that it took.
pub open spec fn within_words(inp: Input, parsed: Parsed) -> bool {
    inp.mtimes.len() - parsed.1.mtimes.len() + (if waits(parsed) {
        1int
    } else {
        0int
    }) <= inp.words.len() - parsed.1.words.len()
}

/// A parse that waits for a modification time has used all that there are, and is carried on by one
/// more, which it uses.
pub proof fn an_mtime_carries_on(inp: Input, mtime: Timestamp)
    ensures
        waits(expr_of(inp)) ==> carried_on(expr_of(inp), expr_of(inp.with_more(seq![mtime]))),
        waits(and_of(inp)) ==> carried_on(and_of(inp), and_of(inp.with_more(seq![mtime]))),
        waits(not_of(inp)) ==> carried_on(not_of(inp), not_of(inp.with_more(seq![mtime]))),
        waits(primary_of(inp)) ==> carried_on(
            primary_of(inp),
            primary_of(inp.with_more(seq![mtime])),
        ),
    decreases inp.words.len(),
{
    let more = seq![mtime];
    let long = inp.with_more(more);
    parsing_consumes(inp);
    a_parse_stands(inp, more);
    if inp.words.len() > 0 {
        an_mtime_carries_on(inp.advance(), mtime);
        assert(long.advance() == inp.advance().with_more(more));
    }
    parsing_consumes(long);
    mtimes_are_bounded(long);
    assert(waits(primary_of(inp)) ==> carried_on(primary_of(inp), primary_of(long)));
    assert(waits(not_of(inp)) ==> carried_on(not_of(inp), not_of(long)));
    let (n, after_not) = not_of(inp);
    if n is Ok {
        an_mtime_carries_on(after_not, mtime);
        if after_not.words.len() > 0 {
            an_mtime_carries_on(after_not.advance(), mtime);
            assert(after_not.with_more(more).advance() == after_not.advance().with_more(more));
        }
    } else if waits(not_of(inp)) {
        let after = not_of(long).1;
        mtimes_are_bounded(after);
        if after.words.len() > 0 {
            mtimes_are_bounded(after.advance());
        }
    }
    assert(waits(and_of(inp)) ==> carried_on(and_of(inp), and_of(long)));
    let (a, after_and) = and_of(inp);
    if a is Ok {
        if after_and.words.len() > 0 {
            an_mtime_carries_on(after_and.advance(), mtime);
            assert(after_and.with_more(more).advance() == after_and.advance().with_more(more));
        }
    } else if waits(and_of(inp)) {
        let after = and_of(long).1;
        if after.words.len() > 0 {
            mtimes_are_bounded(after.advance());
        }
    }
}

/// A parse that waited without a modification time left has used one more.
pub open spec fn carried_on(waiting: Parsed, next: Parsed) -> bool {
    waiting.1.mtimes.len() == 0 && next.1.mtimes.len() == 0
}

/// The parse of `words` with the modification times `mtimes`, taken up again with one that `lookup`
/// gives whenever it waits for one, `turns` times at most. `lookup` goes by the file, and by the
/// times that it has given before.
pub open spec fn supplied(
    words: Seq<Seq<char>>,
    lookup: spec_fn(Seq<Timestamp>, Seq<char>) -> Timestamp,
    mtimes: Seq<Timestamp>,
    turns: nat,
) -> Parsed
    decreases turns,
{
    let parsed = expr_of(Input { words, mtimes });
    match parsed.0 {
        Err(Failure::NeedMtime(file)) => if turns == 0 {
            parsed
        } else {
            supplied(words, lookup, mtimes.push(lookup(mtimes, file)), (turns - 1) as nat)
        },
        _ => parsed,
    }
}

/// Supplying what is waited for brings every parse to its end, in a turn at most for each word, and
/// each modification time that is supplied is used.
pub proof fn supplying_ends(
    words: Seq<Seq<char>>,
    lookup: spec_fn(Seq<Timestamp>, Seq<char>) -> Timestamp,
)
    ensures
        !waits(supplied(words, lookup, Seq::empty(), words.len())),
        supplied(words, lookup, Seq::empty(), words.len()).1.mtimes.len() == 0,
{
    mtimes_are_bounded(Input { words, mtimes: Seq::empty() });
    lemma_supplying_ends(words, lookup, Seq::empty(), words.len());
}

proof fn lemma_supplying_ends(
    words: Seq<Seq<char>>,
    lookup: spec_fn(Seq<Timestamp>, Seq<char>) -> Timestamp,
    mtimes: Seq<Timestamp>,
    turns: nat,
)
    requires
        mtimes.len() + turns == words.len(),
        expr_of(Input { words, mtimes }).1.mtimes.len() == 0,
    ensures
        !waits(supplied(words, lookup, mtimes, turns)),
        supplied(words, lookup, mtimes, turns).1.mtimes.len() == 0,
    decreases turns,
{
    let inp = Input { words, mtimes };
    mtimes_are_bounded(inp);
    if let Err(Failure::NeedMtime(file)) = expr_of(inp).0 {
        let mtime = lookup(mtimes, file);
        assert(mtimes + seq![mtime] =~= mtimes.push(mtime));
        an_mtime_carries_on(inp, mtime);
        lemma_supplying_ends(words, lookup, mtimes.push(mtime), (turns - 1) as nat);
    }
}

/// The texts of `args`.
pub open spec fn texts(args: Seq<String>) -> Seq<Seq<char>> {
    args.map_values(|s: String| s@)
}

/// A position in the words of an expression, and in the modification times that have been
/// supplied for the operands of its `-newer` predicates, in the order in which these come.
/// Its view is the input from there on.
pub struct ParseState<'a> {
    args: &'a [String],
    pos: usize,
    mtimes: &'a [Timestamp],
    used: usize,
}

impl<'a> View for ParseState<'a> {
    type V = Input;

    closed spec fn view(&self) -> Input {
        Input {
            words: texts(self.args@).skip(self.pos as int),
            mtimes: self.mtimes@.skip(self.used as int),
        }
    }
}

impl<'a> ParseState<'a> {
    #[verifier::type_invariant]
    spec fn inv(self) -> bool {
        &&& self.pos <= self.args@.len()
        &&& self.used <= self.mtimes@.len()
    }

    /// The start of `args`.
    pub fn new(args: &'a [String], mtimes: &'a [Timestamp]) -> (ps: Self)
        ensures
            ps@ == (Input { words: texts(args@), mtimes: mtimes@ }),
    {
        let ps = ParseState { args, pos: 0, mtimes, used: 0 };
        assert(ps@.words =~= texts(args@));
        assert(ps@.mtimes =~= mtimes@);
        ps
    }

    /// The next word, if there is one.
    pub fn peek(&self) -> (r: Option<&str>)
        ensures
            r is Some <==> self@.words.len() > 0,
            r matches Some(w) ==> w@ == self@.words[0],
    {
        proof {
            use_type_invariant(self);
        }
        if self.pos < self.args.len() {
            Some(self.args[self.pos].as_str())
        } else {
            None
        }
    }

    /// Takes the next word, if there is one.
    pub fn next(&mut self) -> (r: Option<&str>)
        ensures
            r is Some <==> old(self)@.words.len() > 0,
            r matches Some(w) ==> w@ == old(self)@.words[0] && final(self)@ == old(self)@.advance(),
            r is None ==> final(self)@ == old(self)@,
    {
        proof {
            use_type_invariant(&*self);
        }
        if self.pos < self.args.len() {
            let at = self.pos;
            self.pos = at + 1;
            assert(self@.words =~= old(self)@.words.skip(1));
            Some(self.args[at].as_str())
        } else {
            None
        }
    }

    /// Takes the next word, the operand of the option `opt`.
    pub fn require(&mut self, opt: &'static str) -> (r: Result<&str, ParseError>)
        ensures
            match r {
                Ok(w) => {
                    &&& old(self)@.words.len() > 0
                    &&& w@ == old(self)@.words[0]
                    &&& final(self)@ == old(self)@.advance()
                },
                Err(e) => {
                    &&& old(self)@.words.len() == 0
                    &&& e@ == Failure::MissingArgument(opt@)
                    &&& final(self)@ == old(self)@
                },
            },
    {
        match self.next() {
            Some(w) => Ok(w),
            None => Err(ParseError::MissingArgument(opt)),
        }
    }

    /// Takes the next of the modification times, if there is one.
    fn next_mtime(&mut self) -> (r: Option<Timestamp>)
        ensures
            final(self)@.words == old(self)@.words,
            match r {
                Some(t) => {
                    &&& old(self)@.mtimes.len() > 0
                    &&& t == old(self)@.mtimes[0]
                    &&& final(self)@.mtimes == old(self)@.mtimes.skip(1)
                },
                None => old(self)@.mtimes.len() == 0 && final(self)@.mtimes == old(self)@.mtimes,
            },
    {
        proof {
            use_type_invariant(&*self);
        }
        if self.used < self.mtimes.len() {
            let at = self.used;
            self.used = at + 1;
            assert(self@.mtimes =~= old(self)@.mtimes.skip(1));
            Some(self.mtimes[at])
        } else {
            None
        }
    }

    /// The meaning of the next word, if there is one.
    fn peek_word(&self) -> (r: Option<Word>)
        ensures
            r is Some <==> self@.words.len() > 0,
            r matches Some(w) ==> w == word(self@.words[0]),
    {
        match self.peek() {
            Some(w) => Some(classify(w)),
            None => None,
        }
    }
}

/// `r`, with the state that is left, is what `parsed` says.
pub open spec fn agrees(r: Result<Pred, ParseError>, left: Input, parsed: Parsed) -> bool {
    &&& left == parsed.1
    &&& match r {
        Ok(p) => parsed.0 == Ok::<Expr, Failure>(p@),
        Err(e) => parsed.0 == Err::<Expr, Failure>(e@),
    }
}

/// Parses the full expression (handles -o / OR at the top level).
pub fn parse_expr(ps: &mut ParseState, now: Timestamp) -> (r: Result<Pred, ParseError>)
    ensures
        agrees(r, final(ps)@, expr_of(old(ps)@)),
    decreases old(ps)@.words.len(), 3int,
{
    proof {
        parsing_consumes(ps@);
    }
    let lhs = parse_and(ps, now)?;
    match ps.peek_word() {
        Some(Word::Or) => {
            ps.next();
            let rhs = parse_expr(ps, now)?;
            Ok(Pred::Or(Box::new(lhs), Box::new(rhs)))
        },
        _ => Ok(lhs),
    }
}

/// Parses an AND chain (implicit AND between adjacent predicates).
pub fn parse_and(ps: &mut ParseState, now: Timestamp) -> (r: Result<Pred, ParseError>)
    ensures
        agrees(r, final(ps)@, and_of(old(ps)@)),
    decreases old(ps)@.words.len(), 2int,
{
    proof {
        parsing_consumes(ps@);
    }
    let lhs = parse_not(ps, now)?;
    match ps.peek_word() {
        None | Some(Word::Or) | Some(Word::Close) => Ok(lhs),
        Some(Word::And) => {
            ps.next();
            let rhs = parse_and(ps, now)?;
            Ok(Pred::And(Box::new(lhs), Box::new(rhs)))
        },
        Some(_) => {
            let rhs = parse_and(ps, now)?;
            Ok(Pred::And(Box::new(lhs), Box::new(rhs)))
        },
    }
}

/// Parses a NOT or a primary.
pub fn parse_not(ps: &mut ParseState, now: Timestamp) -> (r: Result<Pred, ParseError>)
    ensures
        agrees(r, final(ps)@, not_of(old(ps)@)),
    decreases old(ps)@.words.len(), 1int,
{
    match ps.peek_word() {
        Some(Word::Not) => {
            ps.next();
            let operand = parse_not(ps, now)?;
            Ok(Pred::Not(Box::new(operand)))
        },
        _ => parse_primary(ps, now),
    }
}

/// Parses a predicate with its operand, or an expression in parentheses.
pub fn parse_primary(ps: &mut ParseState, now: Timestamp) -> (r: Result<Pred, ParseError>)
    ensures
        agrees(r, final(ps)@, primary_of(old(ps)@)),
    decreases old(ps)@.words.len(), 0int,
{
    let tok = match ps.next() {
        Some(t) => t.to_owned(),
        None => return Err(ParseError::MissingExpression),
    };
    match classify(tok.as_str()) {
        Word::Open => {
            let inner = parse_expr(ps, now)?;
            match ps.next() {
                Some(w) => match classify(w) {
                    Word::Close => Ok(inner),
                    _ => Err(ParseError::MissingClosingParen),
                },
                None => Err(ParseError::MissingClosingParen),
            }
        },
        Word::Name => {
            let pattern = ps.require("-name")?.to_owned();
            Ok(Pred::Name { pattern, ignore_case: false })
        },
        Word::IName => {
            let pattern = ps.require("-iname")?.to_owned();
            Ok(Pred::Name { pattern, ignore_case: true })
        },
        Word::Path => {
            let pattern = ps.require("-path")?.to_owned();
            Ok(Pred::Path { pattern, ignore_case: false })
        },
        Word::IPath => {
            let pattern = ps.require("-ipath")?.to_owned();
            Ok(Pred::Path { pattern, ignore_case: true })
        },
        Word::Type => {
            let arg = ps.require("-type")?;
            Ok(Pred::Type(parse_type(arg)?))
        },
        Word::Empty => Ok(Pred::Empty),
        Word::MaxDepth => {
            let arg = ps.require("-maxdepth")?;
            Ok(Pred::MaxDepth(parse_depth("-maxdepth", arg)?))
        },
        Word::MinDepth => {
            let arg = ps.require("-mindepth")?;
            Ok(Pred::MinDepth(parse_depth("-mindepth", arg)?))
        },
        Word::Size => {
            let arg = ps.require("-size")?;
            let (cmp, bytes) = parse_size(arg)?;
            Ok(Pred::Size { cmp, bytes })
        },
        Word::Mtime => {
            let arg = ps.require("-mtime")?;
            let (cmp, days) = parse_mtime(arg)?;
            Ok(Pred::Mtime { cmp, days })
        },
        Word::Newer => {
            let file = ps.require("-newer")?.to_owned();
            match ps.next_mtime() {
                Some(mtime) => Ok(Pred::Newer(mtime)),
                None => Err(ParseError::NeedMtime(file)),
            }
        },
        Word::Print => Ok(Pred::Print { null: false }),
        Word::Print0 => Ok(Pred::Print { null: true }),
        Word::Delete => Ok(Pred::Delete),
        Word::Prune => Ok(Pred::Prune),
        Word::True => Ok(Pred::True),
        Word::False => {
            proof {
                reveal_with_fuel(Pred::expr, 2);
            }
            Ok(Pred::Not(Box::new(Pred::True)))
        },
        Word::Close | Word::Or | Word::And | Word::Not | Word::Other => Err(
            ParseError::UnknownPredicate(tok),
        ),
    }
}

/// A parse returns the tree, or what is wrong, that the grammar gives, and leaves what the grammar leaves.
pub proof fn agreement_is_equality(r: Result<Pred, ParseError>, left: Input, parsed: Parsed)
    ensures
        agrees(r, left, parsed) <==> {
            &&& left.words == parsed.1.words
            &&& left.mtimes == parsed.1.mtimes
            &&& r is Ok <==> parsed.0 is Ok
            &&& r matches Ok(p) ==> parsed.0->Ok_0 == p@
            &&& r matches Err(e) ==> parsed.0->Err_0 == e@
        },
{
}

/// The texts of words are the text of each, in their order; and the input behind a word is the other
/// words, with the same modification times.
pub proof fn inputs_are_words_in_order(args: Seq<String>, inp: Input)
    ensures
        texts(args).len() == args.len(),
        forall|i: int| 0 <= i < args.len() ==> #[trigger] texts(args)[i] == args[i]@,
        inp.advance() == (Input { words: inp.words.skip(1), mtimes: inp.mtimes }),
{
}

} // verus!
