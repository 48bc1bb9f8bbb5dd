//! The command line: flags, start paths and expression, in this order.
use crate::error::{Failure, ParseError};
use crate::options::{
    any_output, inspect, inspected, is_output, leaves, no_opts, GlobalOpts,
};
use crate::parse::{
    expr_of, expressions_end_before_close, parse_expr, parsing_consumes, texts, Input, ParseState,
};
use crate::pred::{Expr, Pred};
use crate::semantics::printing;
use crate::spelling::{
    expressions_read_back, no_other_word_has_a_meaning, spellable, spelled, times, Style,
};
use crate::text::text_eq;
use crate::time::Timestamp;
use vstd::prelude::*;

verus! {

/// `s` is a flag that may stand before the start paths.
pub open spec fn is_flag(s: Seq<char>) -> bool {
    s == "-H"@ || s == "-L"@ || s == "-P"@ || s == "-d"@ || s == "-x"@
}

/// `s` starts an expression: it begins with `-`, or is `!` or `(`.
pub open spec fn starts_expression(s: Seq<char>) -> bool {
    (s.len() > 0 && s[0] == '-') || s == "!"@ || s == "("@
}

/// Where the flags from `from` on end.
pub open spec fn flags_end(args: Seq<Seq<char>>, from: int) -> int
    decreases args.len() - from,
{
    if from < args.len() && is_flag(args[from]) {
        flags_end(args, from + 1)
    } else {
        from
    }
}

/// Where the start paths from `from` on end.
pub open spec fn paths_end(args: Seq<Seq<char>>, from: int) -> int
    decreases args.len() - from,
{
    if from < args.len() && !starts_expression(args[from]) {
        paths_end(args, from + 1)
    } else {
        from
    }
}

/// Links are followed: the last of the flags `-L` and `-P` is `-L`.
pub open spec fn follows_links(flags: Seq<Seq<char>>) -> bool
    decreases flags.len(),
{
    if flags.len() == 0 {
        false
    } else if flags.last() == "-L"@ {
        true
    } else if flags.last() == "-P"@ {
        false
    } else {
        follows_links(flags.drop_last())
    }
}

/// The options that the flags set.
pub open spec fn flag_opts(flags: Seq<Seq<char>>) -> GlobalOpts {
    GlobalOpts {
        follow_links: follows_links(flags),
        follow_cmd_links: flags.contains("-H"@),
        depth_first: flags.contains("-d"@),
        xdev: flags.contains("-x"@),
        ..no_opts()
    }
}

proof fn lemma_flag_names_differ()
    ensures
        "-H"@ != "-L"@,
        "-H"@ != "-P"@,
        "-H"@ != "-d"@,
        "-H"@ != "-x"@,
        "-L"@ != "-P"@,
        "-L"@ != "-d"@,
        "-L"@ != "-x"@,
        "-P"@ != "-d"@,
        "-P"@ != "-x"@,
        "-d"@ != "-x"@,
{
    reveal_strlit("-H");
    reveal_strlit("-L");
    reveal_strlit("-P");
    reveal_strlit("-d");
    reveal_strlit("-x");
    assert("-H"@[1] == 'H' && "-L"@[1] == 'L' && "-P"@[1] == 'P' && "-d"@[1] == 'd' && "-x"@[1]
        == 'x');
}

proof fn lemma_contains_push(flags: Seq<Seq<char>>, flag: Seq<char>, other: Seq<char>)
    ensures
        flags.push(flag).contains(other) == (flags.contains(other) || flag == other),
{
    let all = flags.push(flag);
    if flags.contains(other) {
        let i = choose|i: int| 0 <= i < flags.len() && flags[i] == other;
        assert(all[i] == other);
    }
    if flag == other {
        assert(all[flags.len() as int] == other);
    }
    if all.contains(other) {
        let i = choose|i: int| 0 <= i < all.len() && all[i] == other;
        if i < flags.len() {
            assert(flags[i] == other);
        }
    }
}

/// Reads the flags that `args`, from its second word on, starts with. Returns the options that
/// they set, and the position behind them.
fn parse_flags(args: &[String]) -> (r: (GlobalOpts, usize))
    requires
        args.len() > 0,
    ensures
        r.1 == flags_end(texts(args@), 1),
        1 <= r.1 <= args.len(),
        r.0 == flag_opts(texts(args@).subrange(1, r.1 as int)),
{
    let mut opts = GlobalOpts::default();
    let mut pos: usize = 1;
    let ghost words = texts(args@);
    proof {
        lemma_flag_names_differ();
        assert(words.subrange(1, 1) =~= Seq::<Seq<char>>::empty());
    }
    while pos < args.len()
        invariant
            1 <= pos <= args.len(),
            words == texts(args@),
            flags_end(words, 1) == flags_end(words, pos as int),
            opts == flag_opts(words.subrange(1, pos as int)),
        ensures
            flags_end(words, pos as int) == pos,
        decreases args.len() - pos,
    {
        let ghost before = words.subrange(1, pos as int);
        let ghost flag = words[pos as int];
        proof {
            lemma_flag_names_differ();
            assert(words.subrange(1, pos + 1) =~= before.push(flag));
            assert(before.push(flag).drop_last() =~= before);
            lemma_contains_push(before, flag, "-H"@);
            lemma_contains_push(before, flag, "-d"@);
            lemma_contains_push(before, flag, "-x"@);
        }
        let arg = args[pos].as_str();
        if text_eq(arg, "-H") {
            opts.follow_cmd_links = true;
        } else if text_eq(arg, "-L") {
            opts.follow_links = true;
        } else if text_eq(arg, "-P") {
            opts.follow_links = false;
        } else if text_eq(arg, "-d") {
            opts.depth_first = true;
        } else if text_eq(arg, "-x") {
            opts.xdev = true;
        } else {
            break;
        }
        pos += 1;
    }
    (opts, pos)
}

/// Tells whether `s` starts an expression.
fn is_expression_start(s: &str) -> (r: bool)
    ensures
        r == starts_expression(s@),
{
    (s.unicode_len() > 0 && s.get_char(0) == '-') || text_eq(s, "!") || text_eq(s, "(")
}

/// The words of `args` from `from` up to `to`.
fn copy_args(args: &[String], from: usize, to: usize) -> (copy: Vec<String>)
    requires
        from <= to <= args.len(),
    ensures
        texts(copy@) == texts(args@).subrange(from as int, to as int),
{
    let mut copy: Vec<String> = Vec::new();
    for i in from..to
        invariant
            from <= to <= args.len(),
            texts(copy@) == texts(args@).subrange(from as int, i as int),
    {
        let ghost before = copy@;
        copy.push(args[i].clone());
        assert(texts(copy@) =~= texts(before).push(args@[i as int]@));
        assert(texts(args@).subrange(from as int, i + 1) =~= texts(args@).subrange(
            from as int,
            i as int,
        ).push(args@[i as int]@));
    }
    copy
}

/// Returns the position behind the start paths that `args` holds from `from` on.
fn find_paths_end(args: &[String], from: usize) -> (end: usize)
    requires
        from <= args.len(),
    ensures
        end == paths_end(texts(args@), from as int),
        from <= end <= args.len(),
{
    let mut pos: usize = from;
    while pos < args.len()
        invariant
            from <= pos <= args.len(),
            paths_end(texts(args@), from as int) == paths_end(texts(args@), pos as int),
        ensures
            paths_end(texts(args@), pos as int) == pos,
        decreases args.len() - pos,
    {
        assert(texts(args@)[pos as int] == args@[pos as int]@);
        if is_expression_start(args[pos].as_str()) {
            break;
        }
        pos += 1;
    }
    pos
}

/// A command line, taken apart.
#[derive(Debug)]
pub struct Invocation {
    pub opts: GlobalOpts,
    pub paths: Vec<String>,
    pub expr: Vec<String>,
}

/// The flags on a command line; its first word names the program.
pub open spec fn flags_of(args: Seq<Seq<char>>) -> Seq<Seq<char>> {
    args.subrange(1, flags_end(args, 1))
}

/// The start paths on a command line.
pub open spec fn paths_of(args: Seq<Seq<char>>) -> Seq<Seq<char>> {
    args.subrange(flags_end(args, 1), paths_end(args, flags_end(args, 1)))
}

/// The expression on a command line.
pub open spec fn expression_of(args: Seq<Seq<char>>) -> Seq<Seq<char>> {
    args.skip(paths_end(args, flags_end(args, 1)))
}

/// A command line, taken apart into the options that its flags set, its start paths and its expression;
/// nothing where there is no start path.
pub open spec fn parts_of(args: Seq<Seq<char>>) -> Option<
    (GlobalOpts, Seq<Seq<char>>, Seq<Seq<char>>),
> {
    if args.len() > 0 && paths_of(args).len() > 0 {
        Some((flag_opts(flags_of(args)), paths_of(args), expression_of(args)))
    } else {
        None
    }
}

/// Takes a command line apart. There has to be at least one start path.
pub fn split_args(args: &[String]) -> (r: Option<Invocation>)
    ensures
        r is Some <==> args.len() > 0 && paths_of(texts(args@)).len() > 0,
        r matches Some(inv) ==> {
            &&& inv.opts == flag_opts(flags_of(texts(args@)))
            &&& texts(inv.paths@) == paths_of(texts(args@))
            &&& texts(inv.expr@) == expression_of(texts(args@))
        },
        parts_of(texts(args@)) == (match r {
            Some(inv) => Some((inv.opts, texts(inv.paths@), texts(inv.expr@))),
            None => None,
        }),
{
    if args.len() == 0 {
        return None;
    }
    let (opts, start) = parse_flags(args);
    let end = find_paths_end(args, start);
    if start == end {
        return None;
    }
    let paths = copy_args(args, start, end);
    let expr = copy_args(args, end, args.len());
    assert(texts(expr@) =~= expression_of(texts(args@)));
    Some(Invocation { opts, paths, expr })
}

/// The expression to evaluate, where the one on the command line parses to `tree`: that, with a
/// `-print` added where nothing in it prints or deletes.
pub open spec fn completed(tree: Expr, opts: GlobalOpts) -> Expr {
    if inspected(tree, opts).has_output {
        tree
    } else {
        printing(tree)
    }
}

/// What the expression `words` comes to, and the options that are set when it has been parsed.
pub open spec fn built(
    words: Seq<Seq<char>>,
    mtimes: Seq<Timestamp>,
    opts: GlobalOpts,
) -> (Result<Expr, Failure>, GlobalOpts) {
    if words.len() == 0 {
        (Ok(Expr::Print { null: false }), opts)
    } else {
        match expr_of(Input { words, mtimes }) {
            (Ok(tree), rest) => if rest.words.len() > 0 {
                (Err(Failure::UnknownPredicate(rest.words[0])), opts)
            } else {
                (Ok(completed(tree, opts)), inspected(tree, opts))
            },
            (Err(e), _) => (Err(e), opts),
        }
    }
}

/// Parses the expression `args`, and notes in `opts` what it sets for the whole traversal. An empty
/// expression prints, and an expression that neither prints nor deletes prints in the end. The
/// expression has to take all the words: one that is left over is in error.
pub fn build_expr(
    args: &[String],
    mtimes: &[Timestamp],
    now: Timestamp,
    opts: &mut GlobalOpts,
) -> (r: Result<Pred, ParseError>)
    ensures
        args.len() == 0 ==> *final(opts) == *old(opts) && (r matches Ok(p) && p@ == (Expr::Print {
            null: false,
        })),
        args.len() > 0 ==> match expr_of(Input { words: texts(args@), mtimes: mtimes@ }) {
            (Ok(tree), rest) => if rest.words.len() > 0 {
                &&& *final(opts) == *old(opts)
                &&& r matches Err(f) && f@ == Failure::UnknownPredicate(rest.words[0])
            } else {
                &&& *final(opts) == inspected(tree, *old(opts))
                &&& r matches Ok(p) && p@ == completed(tree, *old(opts))
            },
            (Err(e), _) => {
                &&& *final(opts) == *old(opts)
                &&& r matches Err(f) && f@ == e
            },
        },
        ({
            let (value, set) = built(texts(args@), mtimes@, *old(opts));
            &&& *final(opts) == set
            &&& match r {
                Ok(p) => value == Ok::<Expr, Failure>(p@),
                Err(f) => value == Err::<Expr, Failure>(f@),
            }
        }),
{
    if args.len() == 0 {
        return Ok(Pred::Print { null: false });
    }
    let mut ps = ParseState::new(args, mtimes);
    let e = parse_expr(&mut ps, now)?;
    if let Some(stray) = ps.peek() {
        return Err(ParseError::UnknownPredicate(stray.to_owned()));
    }
    inspect(&e, opts);
    if !opts.has_output {
        proof {
            reveal_with_fuel(Pred::expr, 2);
        }
        Ok(Pred::And(Box::new(e), Box::new(Pred::Print { null: false })))
    } else {
        Ok(e)
    }
}

/// How the file hierarchy under a start path is walked.
#[derive(Debug, Clone, Copy)]
pub struct WalkPlan {
    pub follow_links: bool,
    /// Entries deeper than this are not visited.
    pub max_depth: usize,
    /// Entries less deep than this are passed over.
    pub min_depth: usize,
    /// A directory comes after what is in it.
    pub contents_first: bool,
}

/// How `opts` asks for the hierarchy to be walked.
pub open spec fn plan_of(opts: GlobalOpts) -> WalkPlan {
    WalkPlan {
        follow_links: opts.follow_links,
        max_depth: match opts.max_depth {
            Some(n) => n,
            None => usize::MAX,
        },
        min_depth: match opts.min_depth {
            Some(n) => n,
            None => 0,
        },
        contents_first: opts.depth_first,
    }
}

/// Returns how `opts` asks for the hierarchy to be walked.
pub fn walk_plan(opts: &GlobalOpts) -> (plan: WalkPlan)
    ensures
        plan == plan_of(*opts),
        plan.follow_links == opts.follow_links,
        plan.contents_first == opts.depth_first,
        plan.max_depth == (match opts.max_depth {
            Some(n) => n,
            None => usize::MAX,
        }),
        plan.min_depth == (match opts.min_depth {
            Some(n) => n,
            None => 0,
        }),
{
    WalkPlan {
        follow_links: opts.follow_links,
        max_depth: opts.max_depth.unwrap_or(usize::MAX),
        min_depth: opts.min_depth.unwrap_or(0),
        contents_first: opts.depth_first,
    }
}

/// What the traversal comes to next.
#[derive(Debug, Clone, Copy, PartialEq, Eq, Structural)]
pub enum Found {
    /// An entry of the given depth.
    Entry(usize),
    /// Something that could not be read.
    Unreadable,
}

/// What to do with it.
#[derive(Debug, Clone, Copy, PartialEq, Eq, Structural)]
pub enum Visit {
    /// Evaluate the expression on the entry.
    Evaluate,
    /// Pass it over.
    Skip,
    /// Report the failure.
    Report,
}

/// The exit code that `code` becomes when the traversal comes to `found`.
pub open spec fn exit_code_with(code: i32, found: Found) -> i32 {
    if found is Unreadable {
        1
    } else {
        code
    }
}

/// What to do with what the traversal found.
pub open spec fn visit_of(plan: WalkPlan, found: Found) -> Visit {
    match found {
        Found::Entry(depth) => if depth < plan.min_depth {
            Visit::Skip
        } else {
            Visit::Evaluate
        },
        Found::Unreadable => Visit::Report,
    }
}

/// Decides what to do with what the traversal found, and marks a failure in `exit_code`.
pub fn visit(plan: &WalkPlan, found: Found, exit_code: &mut i32) -> (v: Visit)
    ensures
        v == visit_of(*plan, found),
        v == (match found {
            Found::Entry(depth) => if depth < plan.min_depth {
                Visit::Skip
            } else {
                Visit::Evaluate
            },
            Found::Unreadable => Visit::Report,
        }),
        *final(exit_code) == exit_code_with(*old(exit_code), found),
{
    match found {
        Found::Entry(depth) => if depth < plan.min_depth {
            Visit::Skip
        } else {
            Visit::Evaluate
        },
        Found::Unreadable => {
            *exit_code = 1;
            Visit::Report
        },
    }
}

proof fn lemma_flags_run(args: Seq<Seq<char>>, from: int)
    requires
        0 <= from <= args.len(),
    ensures
        from <= flags_end(args, from) <= args.len(),
        forall|i: int| from <= i < flags_end(args, from) ==> is_flag(#[trigger] args[i]),
        flags_end(args, from) < args.len() ==> !is_flag(args[flags_end(args, from)]),
    decreases args.len() - from,
{
    if from < args.len() && is_flag(args[from]) {
        lemma_flags_run(args, from + 1);
    }
}

proof fn lemma_paths_run(args: Seq<Seq<char>>, from: int)
    requires
        0 <= from <= args.len(),
    ensures
        from <= paths_end(args, from) <= args.len(),
        forall|i: int|
            from <= i < paths_end(args, from) ==> !starts_expression(#[trigger] args[i]),
        paths_end(args, from) < args.len() ==> starts_expression(args[paths_end(args, from)]),
    decreases args.len() - from,
{
    if from < args.len() && !starts_expression(args[from]) {
        lemma_paths_run(args, from + 1);
    }
}

/// A command line is its program's name, flags, start paths and an expression, one after the other
/// and nothing else. No flag follows the flags, and an expression starts with `-`, `!` or `(`, as no
/// start path does.
pub proof fn command_line_falls_into_parts(args: Seq<Seq<char>>)
    requires
        args.len() > 0,
    ensures
        args == seq![args[0]] + flags_of(args) + paths_of(args) + expression_of(args),
        forall|i: int| 0 <= i < flags_of(args).len() ==> is_flag(#[trigger] flags_of(args)[i]),
        forall|i: int|
            0 <= i < paths_of(args).len() ==> !starts_expression(#[trigger] paths_of(args)[i]),
        expression_of(args).len() > 0 ==> starts_expression(expression_of(args)[0]),
        paths_of(args).len() == 0 && expression_of(args).len() > 0 ==> !is_flag(
            expression_of(args)[0],
        ),
{
    lemma_flags_run(args, 1);
    lemma_paths_run(args, flags_end(args, 1));
    assert(args =~= seq![args[0]] + flags_of(args) + paths_of(args) + expression_of(args));
}

/// Of `-L` and `-P`, the last one on the command line counts.
pub proof fn last_link_flag_counts(flags: Seq<Seq<char>>, rest: Seq<Seq<char>>)
    requires
        forall|i: int|
            0 <= i < rest.len() ==> #[trigger] rest[i] != "-L"@ && rest[i] != "-P"@,
    ensures
        flag_opts(flags + seq!["-L"@] + rest).follow_links,
        !flag_opts(flags + seq!["-P"@] + rest).follow_links,
    decreases rest.len(),
{
    lemma_flag_names_differ();
    let links = flags + seq!["-L"@] + rest;
    let no_links = flags + seq!["-P"@] + rest;
    if rest.len() > 0 {
        last_link_flag_counts(flags, rest.drop_last());
        assert(links.drop_last() =~= flags + seq!["-L"@] + rest.drop_last());
        assert(no_links.drop_last() =~= flags + seq!["-P"@] + rest.drop_last());
        assert(links.last() == rest[rest.len() - 1]);
        assert(no_links.last() == rest[rest.len() - 1]);
    } else {
        assert(links.last() == "-L"@);
        assert(no_links.last() == "-P"@);
    }
}

/// The expression to evaluate prints or deletes: the one on the command line, or the `-print` added
/// to it.
pub proof fn evaluation_has_output(tree: Expr, opts: GlobalOpts)
    requires
        !opts.has_output,
    ensures
        any_output(leaves(completed(tree, opts))),
        any_output(leaves(tree)) ==> completed(tree, opts) == tree,
        !any_output(leaves(tree)) ==> completed(tree, opts) == printing(tree),
{
    if !any_output(leaves(tree)) {
        reveal_with_fuel(leaves, 2);
        let all = leaves(printing(tree));
        assert(all =~= leaves(tree) + seq![Expr::Print { null: false }]);
        assert(is_output(all[leaves(tree).len() as int]));
    }
}

/// The exit code after the traversal has come to `found`, one after the other.
pub open spec fn exit_code_after(found: Seq<Found>) -> i32
    decreases found.len(),
{
    if found.len() == 0 {
        0
    } else {
        exit_code_with(exit_code_after(found.drop_last()), found.last())
    }
}

/// The exit code tells whether anything could not be read.
pub proof fn exit_code_tells_failure(found: Seq<Found>)
    ensures
        exit_code_after(found) == (if found.contains(Found::Unreadable) {
            1i32
        } else {
            0i32
        }),
    decreases found.len(),
{
    if found.len() > 0 {
        let init = found.drop_last();
        exit_code_tells_failure(init);
        assert(found.last() is Unreadable ==> found.contains(found.last()));
        if init.contains(Found::Unreadable) {
            let i = choose|i: int| 0 <= i < init.len() && init[i] == Found::Unreadable;
            assert(found[i] == Found::Unreadable);
        }
        if found.contains(Found::Unreadable) && !(found.last() is Unreadable) {
            let i = choose|i: int| 0 <= i < found.len() && found[i] == Found::Unreadable;
            assert(init[i] == Found::Unreadable);
        }
    }
}

/// A flag is a `-` and one of the letters `H`, `L`, `P`, `d` and `x`. An expression starts with a word
/// that starts with `-`, or with `!` or `(` alone.
pub proof fn flags_are_letters(s: Seq<char>)
    ensures
        is_flag(s) <==> s.len() == 2 && s[0] == '-' && (s[1] == 'H' || s[1] == 'L' || s[1] == 'P'
            || s[1] == 'd' || s[1] == 'x'),
        starts_expression(s) <==> s.len() > 0 && (s[0] == '-' || s.len() == 1 && (s[0] == '!' || s[0]
            == '(')),
{
    reveal_strlit("-H");
    reveal_strlit("-L");
    reveal_strlit("-P");
    reveal_strlit("-d");
    reveal_strlit("-x");
    reveal_strlit("!");
    reveal_strlit("(");
    assert("-H"@ =~= seq!['-', 'H']);
    assert("-L"@ =~= seq!['-', 'L']);
    assert("-P"@ =~= seq!['-', 'P']);
    assert("-d"@ =~= seq!['-', 'd']);
    assert("-x"@ =~= seq!['-', 'x']);
    assert("!"@ =~= seq!['!']);
    assert("("@ =~= seq!['(']);
    if s.len() == 2 {
        assert(s =~= seq![s[0], s[1]]);
    }
    if s.len() == 1 {
        assert(s =~= seq![s[0]]);
    }
}

/// Without flags nothing is set. Each flag more sets its own option and leaves the others: `-H` that links
/// on the command line are followed, `-L` that all are and `-P` that not all are, `-d` that a directory
/// comes last, `-x` that no other device is entered.
pub proof fn each_flag_sets_its_option(flags: Seq<Seq<char>>)
    ensures
        flag_opts(Seq::empty()) == (GlobalOpts {
            follow_links: false,
            follow_cmd_links: false,
            depth_first: false,
            xdev: false,
            max_depth: None,
            min_depth: None,
            has_output: false,
        }),
        flag_opts(flags.push("-H"@)) == (GlobalOpts { follow_cmd_links: true, ..flag_opts(flags) }),
        flag_opts(flags.push("-L"@)) == (GlobalOpts { follow_links: true, ..flag_opts(flags) }),
        flag_opts(flags.push("-P"@)) == (GlobalOpts { follow_links: false, ..flag_opts(flags) }),
        flag_opts(flags.push("-d"@)) == (GlobalOpts { depth_first: true, ..flag_opts(flags) }),
        flag_opts(flags.push("-x"@)) == (GlobalOpts { xdev: true, ..flag_opts(flags) }),
{
    lemma_flag_names_differ();
    lemma_one_more_flag(flags, "-H"@);
    lemma_one_more_flag(flags, "-L"@);
    lemma_one_more_flag(flags, "-P"@);
    lemma_one_more_flag(flags, "-d"@);
    lemma_one_more_flag(flags, "-x"@);
}

proof fn lemma_one_more_flag(flags: Seq<Seq<char>>, flag: Seq<char>)
    ensures
        flags.push(flag).drop_last() == flags,
        flags.push(flag).contains("-H"@) == (flags.contains("-H"@) || flag == "-H"@),
        flags.push(flag).contains("-d"@) == (flags.contains("-d"@) || flag == "-d"@),
        flags.push(flag).contains("-x"@) == (flags.contains("-x"@) || flag == "-x"@),
{
    assert(flags.push(flag).drop_last() =~= flags);
    lemma_contains_push(flags, flag, "-H"@);
    lemma_contains_push(flags, flag, "-d"@);
    lemma_contains_push(flags, flag, "-x"@);
}

/// An expression that is written out is built as it was meant, with a `-print` behind it where neither it
/// nor the options say that there is output, and sets what it sets for the whole traversal. No words
/// are a `-print`, which sets nothing.
pub proof fn expressions_are_built(e: Expr, style: Style, mtimes: Seq<Timestamp>, opts: GlobalOpts)
    requires
        spellable(e),
        style.valid(),
    ensures
        built(Seq::empty(), mtimes, opts) == (
            Ok::<Expr, Failure>(Expr::Print { null: false }),
            opts,
        ),
        inspected(e, opts).has_output ==> built(spelled(e, 3, style), times(e), opts) == (
            Ok::<Expr, Failure>(e),
            inspected(e, opts),
        ),
        !inspected(e, opts).has_output ==> built(spelled(e, 3, style), times(e), opts) == (
            Ok::<Expr, Failure>(
                Expr::And(Box::new(e), Box::new(Expr::Print { null: false })),
            ),
            inspected(e, opts),
        ),
{
    expressions_read_back(e, style);
    parsing_consumes(Input { words: spelled(e, 3, style), mtimes: times(e) });
}

/// What is wrong with an expression is reported, and nothing is set; a `)` that closes nothing is wrong,
/// too, and is the only word that can be left over.
pub proof fn what_is_wrong_is_reported(
    words: Seq<Seq<char>>,
    mtimes: Seq<Timestamp>,
    opts: GlobalOpts,
)
    requires
        words.len() > 0,
    ensures
        ({
            let (value, rest) = expr_of(Input { words, mtimes });
            match value {
                Err(f) => built(words, mtimes, opts) == (Err::<Expr, Failure>(f), opts),
                Ok(tree) => {
                    &&& rest.words.len() > 0 ==> built(words, mtimes, opts) == (
                        Err::<Expr, Failure>(Failure::UnknownPredicate(")"@)),
                        opts,
                    )
                    &&& rest.words.len() == 0 ==> built(words, mtimes, opts).0 is Ok && built(
                        words,
                        mtimes,
                        opts,
                    ).1 == inspected(tree, opts)
                },
            }
        }),
{
    let inp = Input { words, mtimes };
    expressions_end_before_close(inp);
    if expr_of(inp).1.words.len() > 0 {
        no_other_word_has_a_meaning(expr_of(inp).1.words[0]);
    }
}

/// The hierarchy is walked as far as the last `-maxdepth` says, or to any depth, and from where the last
/// `-mindepth` says, or from the start path on; with links followed, and a directory after what is in
/// it, where the flags say so.
pub proof fn plans_follow_the_options(opts: GlobalOpts, depth: usize)
    ensures
        depth <= plan_of(opts).max_depth <==> (opts.max_depth matches Some(n) ==> depth <= n),
        depth >= plan_of(opts).min_depth <==> (opts.min_depth matches Some(n) ==> depth >= n),
        plan_of(opts).follow_links <==> opts.follow_links,
        plan_of(opts).contents_first <==> opts.depth_first,
{
}

/// Of what can be read, the entries at the least depth and deeper are evaluated and the others are
/// passed over; what cannot be read is reported, and the exit code is then 1 for good.
pub proof fn every_entry_deep_enough_is_evaluated(plan: WalkPlan, depth: usize, code: i32)
    ensures
        visit_of(plan, Found::Entry(depth)) == Visit::Evaluate <==> plan.min_depth <= depth,
        visit_of(plan, Found::Entry(depth)) == Visit::Skip <==> plan.min_depth > depth,
        visit_of(plan, Found::Unreadable) == Visit::Report,
        exit_code_with(code, Found::Entry(depth)) == code,
        exit_code_with(code, Found::Unreadable) == 1,
{
}

/// A command line that is put together of a program's name, flags, start paths and an expression is
/// taken apart into them. Without a start path it is refused.
pub proof fn parts_are_told_apart(
    program: Seq<char>,
    flags: Seq<Seq<char>>,
    paths: Seq<Seq<char>>,
    expr: Seq<Seq<char>>,
)
    requires
        forall|i: int|
            0 <= i < flags.len() ==> (#[trigger] flags[i]).len() == 2 && flags[i][0] == '-' && (
            flags[i][1] == 'H' || flags[i][1] == 'L' || flags[i][1] == 'P' || flags[i][1] == 'd'
                || flags[i][1] == 'x'),
        forall|i: int|
            0 <= i < paths.len() ==> (#[trigger] paths[i]).len() == 0 || paths[i][0] != '-' && paths[i]
                != "!"@ && paths[i] != "("@,
        expr.len() > 0 ==> expr[0] == "!"@ || expr[0] == "("@ || expr[0].len() > 0 && expr[0][0]
            == '-',
    ensures
        paths.len() > 0 ==> parts_of(seq![program] + flags + paths + expr) == Some(
            (flag_opts(flags), paths, expr),
        ),
        paths.len() == 0 && (expr.len() > 0 ==> !is_flag(expr[0])) ==> parts_of(
            seq![program] + flags + paths + expr,
        ) is None,
        parts_of(Seq::empty()) is None,
{
    let args = seq![program] + flags + paths + expr;
    let first: int = 1 + flags.len() as int;
    let last: int = first + paths.len();
    assert forall|i: int| 1 <= i < first implies is_flag(#[trigger] args[i]) by {
        assert(args[i] == flags[i - 1]);
        flags_are_letters(flags[i - 1]);
    }
    assert forall|i: int| first <= i < last implies !starts_expression(#[trigger] args[i])
        && !is_flag(args[i]) by {
        assert(args[i] == paths[i - first]);
        flags_are_letters(paths[i - first]);
    }
    if expr.len() > 0 {
        assert(args[last] == expr[0]);
    }
    if paths.len() > 0 || (expr.len() > 0 ==> !is_flag(expr[0])) {
        lemma_flags_run(args, 1);
        let end = flags_end(args, 1);
        if end < first {
            assert(is_flag(args[end]));
        }
        if end > first {
            assert(is_flag(args[first]));
        }
        assert(end == first);
        lemma_paths_run(args, first);
        let stop = paths_end(args, first);
        if stop < last {
            assert(starts_expression(args[stop]));
        }
        if stop > last {
            assert(!starts_expression(args[last]));
        }
        assert(stop == last);
        assert(flags_of(args) =~= flags);
        assert(paths_of(args) =~= paths);
        assert(expression_of(args) =~= expr);
    }
}

} // verus!
