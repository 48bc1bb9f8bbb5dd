use rust_find::command::{
    build_expr, split_args, visit, walk_plan, Found, Invocation, Visit, WalkPlan,
};
use rust_find::error::ParseError;
use rust_find::options::{inspect, GlobalOpts};
use rust_find::parse::{parse_expr, ParseState};
use rust_find::pred::Pred;
use rust_find::time::Timestamp;

fn words(line: &str) -> Vec<String> {
    line.split_whitespace().map(|w| w.to_string()).collect()
}

fn split(line: &str) -> Option<Invocation> {
    split_args(&words(line))
}

fn now() -> Timestamp {
    Timestamp::after_epoch(0, 0).unwrap()
}

fn built(line: &str) -> (Result<Pred, ParseError>, GlobalOpts) {
    let mut opts = GlobalOpts::default();
    let pred = build_expr(&words(line), &[], now(), &mut opts);
    (pred, opts)
}

fn shown(line: &str) -> String {
    format!("{:?}", built(line).0.unwrap())
}

#[test]
fn a_start_path_is_required() {
    assert!(split("find").is_none());
    assert!(split("").is_none());
    assert!(split("find -iname main.rs").is_none());
    assert!(split("find -L -d").is_none());
    assert!(split("find ( -true )").is_none());
    assert!(split("find ! -true").is_none());
    assert!(split("find main.rs").is_some());
}

#[test]
fn flags_paths_and_expression() {
    let inv = split("find -L -x . src -maxdepth 2 -mtime -7").unwrap();
    assert!(inv.opts.follow_links && inv.opts.xdev);
    assert!(!inv.opts.depth_first && !inv.opts.follow_cmd_links);
    assert_eq!(inv.paths, words(". src"));
    assert_eq!(inv.expr, words("-maxdepth 2 -mtime -7"));
    let inv = split("find . ( -name *.rs -o -name *.toml )").unwrap();
    assert_eq!(inv.paths, words("."));
    assert_eq!(inv.expr, words("( -name *.rs -o -name *.toml )"));
    let inv = split("find . !").unwrap();
    assert_eq!(inv.expr, words("!"));
    let inv = split("find a ) b").unwrap();
    assert_eq!(inv.paths, words("a ) b"));
    assert!(inv.expr.is_empty());
    // A flag behind a start path belongs to the expression.
    let inv = split("find . -L").unwrap();
    assert!(!inv.opts.follow_links);
    assert_eq!(inv.expr, words("-L"));
}

#[test]
fn last_link_flag_counts() {
    assert!(split("find -P -L .").unwrap().opts.follow_links);
    assert!(!split("find -L -P .").unwrap().opts.follow_links);
    assert!(split("find -L -P -L -d .").unwrap().opts.follow_links);
    let opts = split("find -H .").unwrap().opts;
    assert!(opts.follow_cmd_links && !opts.follow_links);
    let opts = split("find -d -H -d x").unwrap().opts;
    assert!(opts.depth_first && opts.follow_cmd_links);
    assert!(opts.max_depth.is_none() && opts.min_depth.is_none() && !opts.has_output);
}

#[test]
fn default_print() {
    let print = "Print { null: false }";
    assert_eq!(shown(""), print);
    assert_eq!(shown("-empty"), format!("And(Empty, {})", print));
    assert_eq!(shown("-empty -print"), format!("And(Empty, {})", print));
    assert_eq!(shown("-true -o -print0"), "Or(True, Print { null: true })");
    assert_eq!(shown("! -delete"), "Not(Delete)");
    assert_eq!(shown("-prune -o -empty"), format!("And(Or(Prune, Empty), {})", print));
}

#[test]
fn expression_sets_options() {
    let (_, opts) = built("-maxdepth 2 -mindepth 1 -o ( ! -maxdepth 5 )");
    assert_eq!((opts.max_depth, opts.min_depth, opts.has_output), (Some(5), Some(1), false));
    let (_, opts) = built("-true -o -delete");
    assert_eq!((opts.max_depth, opts.min_depth, opts.has_output), (None, None, true));
    let (_, opts) = built("");
    assert!(!opts.has_output);
}

#[test]
fn inspecting_keeps_what_it_does_not_find() {
    let args = words("-maxdepth 3");
    let pred = parse_expr(&mut ParseState::new(&args, &[]), now()).unwrap();
    let mut opts = GlobalOpts {
        min_depth: Some(7),
        max_depth: Some(1),
        has_output: true,
        xdev: true,
        ..GlobalOpts::default()
    };
    inspect(&pred, &mut opts);
    assert_eq!((opts.max_depth, opts.min_depth), (Some(3), Some(7)));
    assert!(opts.has_output && opts.xdev && !opts.follow_links);
    inspect(&pred, &mut opts);
    assert_eq!((opts.max_depth, opts.min_depth), (Some(3), Some(7)));
}

#[test]
fn a_failed_parse_sets_nothing() {
    let (r, opts) = built("-maxdepth 2 -delete -frob");
    assert!(matches!(r, Err(ParseError::UnknownPredicate(w)) if w == "-frob"));
    assert!(opts.max_depth.is_none() && !opts.has_output);
}

#[test]
fn a_stray_parenthesis_is_refused() {
    for line in ["-delete ) -nonsense", "-true )", "( -true ) )", "-maxdepth 1 -o -print ) ("] {
        let (r, opts) = built(line);
        assert!(matches!(r, Err(ParseError::UnknownPredicate(w)) if w == ")"));
        assert!(opts.max_depth.is_none() && !opts.has_output);
    }
    assert!(built("( -true )").0.is_ok());
}

#[test]
fn plans() {
    let plan = walk_plan(&GlobalOpts::default());
    assert_eq!((plan.max_depth, plan.min_depth), (usize::MAX, 0));
    assert!(!plan.follow_links && !plan.contents_first);
    let (_, mut opts) = built("-maxdepth 4 -mindepth 2");
    opts.follow_links = true;
    opts.depth_first = true;
    let plan = walk_plan(&opts);
    assert_eq!((plan.max_depth, plan.min_depth), (4, 2));
    assert!(plan.follow_links && plan.contents_first);
}

#[test]
fn visits_and_exit_code() {
    let plan = WalkPlan { follow_links: false, max_depth: 9, min_depth: 2, contents_first: false };
    let mut code = 0;
    assert_eq!(visit(&plan, Found::Entry(1), &mut code), Visit::Skip);
    assert_eq!(visit(&plan, Found::Entry(2), &mut code), Visit::Evaluate);
    assert_eq!(code, 0);
    assert_eq!(visit(&plan, Found::Unreadable, &mut code), Visit::Report);
    assert_eq!(code, 1);
    assert_eq!(visit(&plan, Found::Entry(3), &mut code), Visit::Evaluate);
    assert_eq!(code, 1);
}
