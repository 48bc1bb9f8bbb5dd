use rust_find::eval::{
    eval, matches_file_type, matches_unix_special_file_type, print_record, Entry, EvalCtx,
    FileKind, Metadata, Reply, Request,
};
use rust_find::parse::{parse_expr, ParseState};
use rust_find::pred::{FileType, Pred};
use rust_find::time::Timestamp;

const DAY: u64 = 86400;
const NOW: u64 = 1000 * DAY;

fn at(secs: u64) -> Timestamp {
    Timestamp::after_epoch(secs, 0).unwrap()
}

fn no_kind() -> FileKind {
    FileKind {
        is_file: false,
        is_dir: false,
        is_symlink: false,
        is_block_device: false,
        is_char_device: false,
        is_fifo: false,
        is_socket: false,
    }
}

fn file_kind() -> FileKind {
    FileKind { is_file: true, ..no_kind() }
}

fn dir_kind() -> FileKind {
    FileKind { is_dir: true, ..no_kind() }
}

fn meta(kind: FileKind, len: u64, modified: u64) -> Metadata {
    Metadata { kind, len, modified: Some(at(modified)) }
}

fn entry(is_dir: bool) -> Entry {
    Entry {
        name: "main.rs".to_string(),
        path: "./src/main.rs".to_string(),
        raw_path: b"./src/main.rs".to_vec(),
        depth: 2,
        is_dir,
    }
}

fn pred(line: &str, mtimes: &[Timestamp]) -> Pred {
    let args: Vec<String> = line.split_whitespace().map(|w| w.to_string()).collect();
    parse_expr(&mut ParseState::new(&args, mtimes), at(NOW)).unwrap()
}

/// What a system is like that answers the requests.
struct System {
    meta: Option<Metadata>,
    child: Option<bool>,
    removes: bool,
}

fn plain_file() -> System {
    System { meta: Some(meta(file_kind(), 1024, NOW - 3 * DAY)), child: None, removes: true }
}

/// Evaluates `pred`, answering as `system` does. Returns the value, the requests that were made,
/// and the two marks.
fn run(pred: &Pred, entry: &Entry, system: &System) -> (bool, Vec<Request>, bool, bool) {
    let mut replies: Vec<Reply> = Vec::new();
    let mut asked: Vec<Request> = Vec::new();
    loop {
        let mut ctx = EvalCtx::new(at(NOW), &replies);
        match eval(pred, entry, &mut ctx) {
            Ok(value) => return (value, asked, ctx.pruned(), ctx.printed()),
            Err(request) => {
                asked.push(request);
                replies.push(match request {
                    Request::Metadata => Reply::Metadata(system.meta),
                    Request::FirstChild => Reply::FirstChild(system.child),
                    Request::Print { .. } => Reply::Printed,
                    Request::RemoveDir | Request::RemoveFile => Reply::Removed(system.removes),
                });
            }
        }
    }
}

fn value(line: &str, system: &System) -> bool {
    run(&pred(line, &[]), &entry(false), system).0
}

#[test]
fn regular_files_do_not_match_special_types() {
    let ftype = file_kind();

    assert!(matches_file_type(&ftype, &FileType::File));
    assert!(!matches_file_type(&ftype, &FileType::Dir));
    assert!(!matches_file_type(&ftype, &FileType::BlockDevice));
    assert!(!matches_file_type(&ftype, &FileType::CharDevice));
    assert!(!matches_file_type(&ftype, &FileType::Pipe));
    assert!(!matches_file_type(&ftype, &FileType::Socket));
}

#[test]
fn special_types() {
    let kinds = [
        (FileKind { is_block_device: true, ..no_kind() }, FileType::BlockDevice),
        (FileKind { is_char_device: true, ..no_kind() }, FileType::CharDevice),
        (FileKind { is_fifo: true, ..no_kind() }, FileType::Pipe),
        (FileKind { is_socket: true, ..no_kind() }, FileType::Socket),
    ];
    for (kind, expected) in kinds {
        for (_, asked) in kinds {
            assert_eq!(matches_file_type(&kind, &asked), asked == expected);
            assert_eq!(matches_unix_special_file_type(&kind, &asked), asked == expected);
        }
        assert!(!matches_file_type(&kind, &FileType::File));
    }
    assert!(matches_file_type(&FileKind { is_symlink: true, ..no_kind() }, &FileType::Symlink));
    assert!(matches_file_type(&dir_kind(), &FileType::Dir));
    assert!(!matches_unix_special_file_type(&file_kind(), &FileType::File));
    assert!(!matches_unix_special_file_type(&dir_kind(), &FileType::Dir));
}

#[test]
fn names_paths_and_depths_ask_nothing() {
    for (line, expected) in [
        ("-name *.rs", true),
        ("-name *.RS", false),
        ("-iname *.RS", true),
        ("-name src", false),
        ("-path ./src/*", true),
        ("-path main.rs", false),
        ("-ipath ./SRC/*", true),
        ("-maxdepth 2", true),
        ("-maxdepth 1", false),
        ("-mindepth 2", true),
        ("-mindepth 3", false),
        ("-true", true),
        ("-false", false),
    ] {
        let (v, asked, pruned, printed) = run(&pred(line, &[]), &entry(false), &plain_file());
        assert_eq!(v, expected);
        assert!(asked.is_empty() && !pruned && !printed);
    }
}

#[test]
fn types_and_sizes() {
    assert!(value("-type f", &plain_file()));
    assert!(!value("-type d", &plain_file()));
    assert!(value("-size 2", &plain_file()));
    assert!(value("-size 1k", &plain_file()));
    assert!(value("-size +1023c", &plain_file()));
    assert!(!value("-size +1024c", &plain_file()));
    assert!(value("-size -1025c", &plain_file()));
    assert!(!value("-size -1024c", &plain_file()));
    // Sizes are compared as the numbers they are, however large.
    assert!(value("-size -9223372036854775808c", &plain_file()));
    assert!(!value("-size +9223372036854775808c", &plain_file()));
    assert!(value("-size -8589934592G", &plain_file()));
    let huge = System {
        meta: Some(meta(file_kind(), u64::MAX, NOW)),
        child: None,
        removes: true,
    };
    assert!(value("-size 18446744073709551615c", &huge));
    assert!(value("-size +9223372036854775808c", &huge));
    assert!(!value("-size -1c", &huge));
}

#[test]
fn ages() {
    let aged = |secs: u64| System {
        meta: Some(meta(file_kind(), 0, NOW - secs)),
        child: None,
        removes: true,
    };
    assert!(value("-mtime 3", &aged(3 * DAY)));
    assert!(value("-mtime 3", &aged(4 * DAY - 1)));
    assert!(!value("-mtime 3", &aged(4 * DAY)));
    assert!(value("-mtime -7", &aged(7 * DAY - 1)));
    assert!(!value("-mtime -7", &aged(7 * DAY)));
    assert!(value("-mtime +6", &aged(7 * DAY)));
    assert!(!value("-mtime +6", &aged(7 * DAY - 1)));
    // However old a file is, its age counts.
    let oldest = System {
        meta: Some(Metadata {
            kind: file_kind(),
            len: 0,
            modified: Timestamp::before_epoch(1 << 63, 0),
        }),
        child: None,
        removes: true,
    };
    assert!(value("-mtime +0", &oldest));
    assert!(value("-mtime 106751991168300", &oldest));
    assert!(!value("-mtime -1", &oldest));
    // What was modified in the future is of no age.
    let future = System {
        meta: Some(meta(file_kind(), 0, NOW + 5 * DAY)),
        child: None,
        removes: true,
    };
    assert!(value("-mtime 0", &future));
    assert!(!value("-mtime --1", &future));
}

#[test]
fn newer_is_strict() {
    for (reference, expected) in [(NOW - 3 * DAY, false), (NOW - 3 * DAY - 1, true), (NOW, false)] {
        let p = pred("-newer f", &[at(reference)]);
        assert_eq!(run(&p, &entry(false), &plain_file()).0, expected);
    }
    let nanos = Timestamp::after_epoch(NOW - 3 * DAY - 1, 999_999_999).unwrap();
    assert!(run(&pred("-newer f", &[nanos]), &entry(false), &plain_file()).0);
}

#[test]
fn emptiness() {
    let system = |kind: FileKind, len: u64, child: Option<bool>| System {
        meta: Some(meta(kind, len, NOW)),
        child,
        removes: true,
    };
    assert!(value("-empty", &system(file_kind(), 0, None)));
    assert!(!value("-empty", &system(file_kind(), 1, None)));
    assert!(value("-empty", &system(dir_kind(), 4096, Some(false))));
    assert!(!value("-empty", &system(dir_kind(), 0, Some(true))));
    assert!(!value("-empty", &system(dir_kind(), 0, None)));
    assert!(!value("-empty", &system(no_kind(), 0, Some(false))));
    let p = pred("-empty", &[]);
    let dir = system(dir_kind(), 0, Some(false));
    assert_eq!(
        run(&p, &entry(true), &dir).1,
        vec![Request::Metadata, Request::FirstChild]
    );
}

#[test]
fn without_metadata_the_tests_are_false() {
    let gone = System { meta: None, child: None, removes: true };
    for line in ["-type f", "-empty", "-size 0", "-size -9", "-mtime 0", "-mtime +0"] {
        assert!(!value(line, &gone));
    }
    assert!(!run(&pred("-newer f", &[at(0)]), &entry(false), &gone).0);
    let timeless = System {
        meta: Some(Metadata { kind: file_kind(), len: 0, modified: None }),
        child: None,
        removes: true,
    };
    assert!(!value("-mtime 0", &timeless));
    assert!(!run(&pred("-newer f", &[at(0)]), &entry(false), &timeless).0);
    assert!(value("-size 0", &timeless));
}

#[test]
fn printing_and_pruning_mark() {
    let (v, asked, pruned, printed) = run(&pred("-print", &[]), &entry(false), &plain_file());
    assert_eq!((v, pruned, printed), (true, false, true));
    assert_eq!(asked, vec![Request::Print { null: false }]);
    let (v, asked, pruned, printed) = run(&pred("-print0 -prune", &[]), &entry(false), &plain_file());
    assert_eq!((v, pruned, printed), (true, true, true));
    assert_eq!(asked, vec![Request::Print { null: true }]);
    let (v, asked, pruned, printed) = run(&pred("-prune", &[]), &entry(false), &plain_file());
    assert_eq!((v, pruned, printed), (true, true, false));
    assert!(asked.is_empty());
}

#[test]
fn deletion() {
    let stuck = System { removes: false, ..plain_file() };
    for (is_dir, request) in [(true, Request::RemoveDir), (false, Request::RemoveFile)] {
        let p = pred("-delete", &[]);
        assert_eq!(run(&p, &entry(is_dir), &plain_file()), (true, vec![request], false, true));
        assert_eq!(run(&p, &entry(is_dir), &stuck), (false, vec![request], false, false));
    }
    // A failed deletion is false, so that what follows it is not done.
    let (v, asked, _, printed) = run(&pred("-delete -print", &[]), &entry(false), &stuck);
    assert_eq!((v, printed), (false, false));
    assert_eq!(asked, vec![Request::RemoveFile]);
}

#[test]
fn operators_stop_early() {
    let print = vec![Request::Print { null: false }];
    for (line, v, asked) in [
        ("-false -print", false, vec![]),
        ("-true -print", true, print.clone()),
        ("-true -o -print", true, vec![]),
        ("-false -o -print", true, print.clone()),
        ("! -print", false, print.clone()),
        ("! ( -true -print ) -o -print0", true, vec![print[0], Request::Print { null: true }]),
    ] {
        let got = run(&pred(line, &[]), &entry(false), &plain_file());
        assert_eq!((got.0, got.1), (v, asked));
    }
}

#[test]
fn grouping_and_negation_leave_the_effects() {
    let same = [
        ("( -type f -print ) -print0", "-type f ( -print -print0 )"),
        ("( -type d -o -print ) -o -print0", "-type d -o ( -print -o -print0 )"),
        ("! ( -type f -print )", "( ! -type f ) -o ( ! -print )"),
        ("! ( -type d -o -print )", "( ! -type d ) ( ! -print )"),
        ("! ( ! -print )", "-print"),
    ];
    for (one, other) in same {
        assert_eq!(
            run(&pred(one, &[]), &entry(false), &plain_file()),
            run(&pred(other, &[]), &entry(false), &plain_file())
        );
    }
}

#[test]
fn replies_are_used_in_order() {
    let p = pred("-type f -print -size 1k", &[]);
    let told = Reply::Metadata(plain_file().meta);
    let step = |replies: &[Reply]| {
        let mut ctx = EvalCtx::new(at(NOW), replies);
        eval(&p, &entry(false), &mut ctx)
    };
    assert_eq!(step(&[]), Err(Request::Metadata));
    assert_eq!(step(&[told]), Err(Request::Print { null: false }));
    assert_eq!(step(&[told, Reply::Printed]), Err(Request::Metadata));
    assert_eq!(step(&[told, Reply::Printed, told]), Ok(true));
    assert_eq!(step(&[told, Reply::Printed, Reply::Metadata(None)]), Ok(false));
    // More than is needed is not used, and what does not answer is not taken.
    assert_eq!(step(&[told, Reply::Printed, told, told]), Ok(true));
    assert_eq!(step(&[Reply::Printed]), Err(Request::Metadata));
}

#[test]
fn records() {
    let mut e = entry(false);
    assert_eq!(print_record(&e, false), b"./src/main.rs\n".to_vec());
    assert_eq!(print_record(&e, true), b"./src/main.rs\0".to_vec());
    e.raw_path = vec![b'.', b'/', 0xff];
    e.path = "./\u{fffd}".to_string();
    assert_eq!(print_record(&e, false), "./\u{fffd}\n".as_bytes().to_vec());
    assert_eq!(print_record(&e, true), vec![b'.', b'/', 0xff, 0]);
}
