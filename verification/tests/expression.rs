use rust_find::error::ParseError;
use rust_find::parse::{
    classify, parse_and, parse_expr, parse_not, parse_primary, ParseState, Word,
};
use rust_find::pred::Pred;
use rust_find::time::Timestamp;

fn words(line: &str) -> Vec<String> {
    line.split_whitespace().map(|w| w.to_string()).collect()
}

fn at(secs: u64) -> Timestamp {
    Timestamp::after_epoch(secs, 0).unwrap()
}

/// The tree that `line` parses to, in short, and the words that are left.
fn parsed_with(line: &str, mtimes: &[Timestamp]) -> Result<(String, usize), ParseError> {
    let args = words(line);
    let mut ps = ParseState::new(&args, mtimes);
    let pred = parse_expr(&mut ps, at(0))?;
    let mut left = 0;
    while ps.next().is_some() {
        left += 1;
    }
    Ok((short(&pred), left))
}

fn parsed(line: &str) -> Result<(String, usize), ParseError> {
    parsed_with(line, &[])
}

fn tree(line: &str) -> String {
    let (t, left) = parsed(line).unwrap();
    assert_eq!(left, 0);
    t
}

fn short(pred: &Pred) -> String {
    match pred {
        Pred::Name { pattern, ignore_case: false } => pattern.clone(),
        Pred::And(l, r) => format!("({} & {})", short(l), short(r)),
        Pred::Or(l, r) => format!("({} | {})", short(l), short(r)),
        Pred::Not(inner) => format!("!{}", short(inner)),
        other => format!("{:?}", other),
    }
}

#[test]
fn adjacent_predicates_are_a_conjunction() {
    assert_eq!(tree("-name a"), "a");
    assert_eq!(tree("-name a -name b"), "(a & b)");
    assert_eq!(tree("-name a -a -name b"), "(a & b)");
    assert_eq!(tree("-name a -and -name b -name c"), "(a & (b & c))");
}

#[test]
fn conjunction_binds_tighter_than_disjunction() {
    assert_eq!(tree("-name a -o -name b"), "(a | b)");
    assert_eq!(tree("-name a -or -name b -o -name c"), "(a | (b | c))");
    assert_eq!(tree("-name a -name b -o -name c -name d"), "((a & b) | (c & d))");
    assert_eq!(tree("-name a -o -name b -name c"), "(a | (b & c))");
}

#[test]
fn negation_binds_tightest() {
    assert_eq!(tree("! -name a -name b"), "(!a & b)");
    assert_eq!(tree("-not -name a -o -name b"), "(!a | b)");
    assert_eq!(tree("! ( -name a -o -name b )"), "!(a | b)");
    assert_eq!(tree("! ( ! -name a )"), "!!a");
    assert_eq!(tree("! ! -name a"), "!!a");
    assert_eq!(tree("! -not ! -name a -name b"), "(!!!a & b)");
    assert_eq!(parsed("! !"), Err(ParseError::MissingExpression));
}

#[test]
fn parentheses_group() {
    assert_eq!(tree("( -name *.rs -o -name *.toml )"), "(*.rs | *.toml)");
    assert_eq!(tree("( -name a -o -name b ) -name c"), "((a | b) & c)");
    assert_eq!(tree("-name a ( -name b ( -name c ) )"), "(a & (b & c))");
    assert_eq!(tree("( -name a -name b ) -name c"), "((a & b) & c)");
}

#[test]
fn words_behind_a_stray_parenthesis_are_left() {
    assert_eq!(parsed("-name a ) -name b"), Ok(("a".to_string(), 3)));
}

#[test]
fn predicates() {
    assert_eq!(tree("-iname A"), "Name { pattern: \"A\", ignore_case: true }");
    assert_eq!(tree("-path p"), "Path { pattern: \"p\", ignore_case: false }");
    assert_eq!(tree("-wholename p"), "Path { pattern: \"p\", ignore_case: false }");
    assert_eq!(tree("-ipath p"), "Path { pattern: \"p\", ignore_case: true }");
    assert_eq!(tree("-iwholename p"), "Path { pattern: \"p\", ignore_case: true }");
    assert_eq!(tree("-type l"), "Type(Symlink)");
    assert_eq!(tree("-empty"), "Empty");
    assert_eq!(tree("-maxdepth 2"), "MaxDepth(2)");
    assert_eq!(tree("-mindepth 3"), "MinDepth(3)");
    assert_eq!(tree("-size +2k"), "Size { cmp: Gt, bytes: 2048 }");
    assert_eq!(tree("-mtime -7"), "Mtime { cmp: Lt, days: 7 }");
    assert_eq!(tree("-print"), "Print { null: false }");
    assert_eq!(tree("-print0"), "Print { null: true }");
    assert_eq!(tree("-delete"), "Delete");
    assert_eq!(tree("-prune"), "Prune");
    assert_eq!(tree("-true"), "True");
    assert_eq!(tree("-false"), "!True");
    // An operand is taken as it is, whatever it looks like.
    assert_eq!(tree("-name -o"), "-o");
    assert_eq!(tree("-name ) -name ("), "() & ()");
}

#[test]
fn errors() {
    for (line, opt) in [
        ("-name", "-name"),
        ("-iname", "-iname"),
        ("-wholename", "-path"),
        ("-path", "-path"),
        ("-iwholename", "-ipath"),
        ("-type", "-type"),
        ("-maxdepth", "-maxdepth"),
        ("-mindepth", "-mindepth"),
        ("-size", "-size"),
        ("-mtime", "-mtime"),
        ("-newer", "-newer"),
    ] {
        assert_eq!(parsed(line), Err(ParseError::MissingArgument(opt)));
    }
    assert_eq!(parsed(""), Err(ParseError::MissingExpression));
    assert_eq!(parsed("-true -o"), Err(ParseError::MissingExpression));
    assert_eq!(parsed("-true -a"), Err(ParseError::MissingExpression));
    assert_eq!(parsed("!"), Err(ParseError::MissingExpression));
    assert_eq!(parsed("( -true"), Err(ParseError::MissingClosingParen));
    assert_eq!(parsed("( )"), Err(ParseError::UnknownPredicate(")".to_string())));
    assert_eq!(parsed("-o -true"), Err(ParseError::UnknownPredicate("-o".to_string())));
    assert_eq!(parsed("-true -a -o"), Err(ParseError::UnknownPredicate("-o".to_string())));
    assert_eq!(parsed("-true stray"), Err(ParseError::UnknownPredicate("stray".to_string())));
    assert_eq!(parsed("-type x"), Err(ParseError::UnknownType("x".to_string())));
    assert_eq!(parsed("-maxdepth x"), Err(ParseError::InvalidDepth("-maxdepth")));
    assert_eq!(parsed("-mindepth -1"), Err(ParseError::InvalidDepth("-mindepth")));
    assert_eq!(parsed("-size x"), Err(ParseError::InvalidSize("x".to_string())));
    assert_eq!(parsed("-mtime x"), Err(ParseError::InvalidMtime("x".to_string())));
    assert_eq!(
        parsed("-size 99999999999999999"),
        Err(ParseError::SizeOverflow("99999999999999999".to_string()))
    );
}

#[test]
fn first_error_counts() {
    assert_eq!(parsed("-newer f -bad"), Err(ParseError::NeedMtime("f".to_string())));
    assert_eq!(parsed("-bad -newer f"), Err(ParseError::UnknownPredicate("-bad".to_string())));
}

#[test]
fn modification_times_are_supplied_in_order() {
    let line = "-newer f -o ! -newer g";
    assert_eq!(parsed_with(line, &[]), Err(ParseError::NeedMtime("f".to_string())));
    assert_eq!(parsed_with(line, &[at(1)]), Err(ParseError::NeedMtime("g".to_string())));
    let (both, left) = parsed_with(line, &[at(1), at(2)]).unwrap();
    assert_eq!(left, 0);
    assert_eq!(both, format!("({:?} | !{:?})", Pred::Newer(at(1)), Pred::Newer(at(2))));
    // What is supplied beyond that changes nothing.
    assert_eq!(parsed_with(line, &[at(1), at(2), at(3)]).unwrap().0, both);
}

#[test]
fn messages() {
    let text = |line: &str| parsed(line).unwrap_err().message();
    let says = |s: &str| Some(s.to_string());
    assert_eq!(text("-wholename"), says("find: -path requires an argument"));
    assert_eq!(text(""), says("find: missing expression"));
    assert_eq!(text("( -true"), says("find: missing closing ')'"));
    assert_eq!(text("-type x"), says("find: unknown type 'x'"));
    assert_eq!(text("-maxdepth x"), says("find: -maxdepth requires a non-negative integer"));
    assert_eq!(text("-mindepth x"), says("find: -mindepth requires a non-negative integer"));
    assert_eq!(text("-size +x"), says("find: invalid size '+x'"));
    assert_eq!(text("-mtime +x"), says("find: invalid -mtime value '+x'"));
    assert_eq!(text("-frob"), says("find: unknown predicate '-frob'"));
    assert_eq!(text("-newer f"), None);
    assert_eq!(text("-size 99999999999999999"), None);
}

#[test]
fn state_moves_word_by_word() {
    let args = words("a b");
    let mut ps = ParseState::new(&args, &[]);
    assert_eq!(ps.peek(), Some("a"));
    assert_eq!(ps.peek(), Some("a"));
    assert_eq!(ps.next(), Some("a"));
    assert_eq!(ps.require("-name"), Ok("b"));
    assert_eq!(ps.peek(), None);
    assert_eq!(ps.next(), None);
    assert_eq!(ps.require("-name"), Err(ParseError::MissingArgument("-name")));
}

#[test]
fn each_level_takes_its_part() {
    let args = words("! -name a -name b -o -name c");
    let mut ps = ParseState::new(&args, &[]);
    assert_eq!(short(&parse_not(&mut ps, at(0)).unwrap()), "!a");
    assert_eq!(short(&parse_and(&mut ps, at(0)).unwrap()), "b");
    assert_eq!(ps.next(), Some("-o"));
    assert_eq!(short(&parse_primary(&mut ps, at(0)).unwrap()), "c");
    assert_eq!(ps.peek(), None);
}

#[test]
fn meanings_of_words() {
    assert_eq!(classify("-o"), Word::Or);
    assert_eq!(classify("-and"), Word::And);
    assert_eq!(classify("-print0"), Word::Print0);
    assert_eq!(classify("-Name"), Word::Other);
    assert_eq!(classify(""), Word::Other);
}

#[test]
fn a_copy_is_the_same_tree() {
    let args = words("! ( -name a -o -path b ) -size +1k -mtime 2 -newer f -type d");
    let mtimes = [at(5)];
    let pred = parse_expr(&mut ParseState::new(&args, &mtimes), at(0)).unwrap();
    assert_eq!(format!("{:?}", pred.clone()), format!("{:?}", pred));
}

#[test]
fn synonyms_are_interchangeable() {
    let expected = "(!(a & b) | (c & d))";
    for or in ["-o", "-or"] {
        for and in ["", "-a", "-and"] {
            for not in ["!", "-not"] {
                let line = format!(
                    "{} ( -name a {} -name b ) {} -name c {} -name d",
                    not, and, or, and
                );
                assert_eq!(tree(&line), expected);
            }
        }
    }
}
