//! What each predicate says of an entry.
use crate::eval::{eval_of, is_special, is_type, record, Entry, FileKind, Metadata, Reply, Request, Run};
use crate::glob::{glob_matches, plain_goes_by_letters};
use crate::pred::{Cmp, Expr, FileType};
use crate::text::lower_all;
use crate::time::{whole_seconds_fit, Timestamp};
use vstd::prelude::*;
use vstd::utf8::encode_utf8;

verus! {

/// `-maxdepth n` holds of the entries of depth 0 up to and including `n`, and of none beyond;
/// `-mindepth n` of those of depth `n` and beyond, and of none before. A larger bound loses nothing
/// of what `-maxdepth` holds of, and gains nothing for `-mindepth`.
pub proof fn depths_are_bounded(n: usize, m: usize, entry: Entry, now: Timestamp, run: Run)
    requires
        n <= m,
    ensures
        entry.depth <= n ==> eval_of(Expr::MaxDepth(n), entry, now, run) == (
            Ok::<bool, Request>(true),
            run,
        ),
        entry.depth > n ==> eval_of(Expr::MaxDepth(n), entry, now, run) == (
            Ok::<bool, Request>(false),
            run,
        ),
        entry.depth >= n ==> eval_of(Expr::MinDepth(n), entry, now, run) == (
            Ok::<bool, Request>(true),
            run,
        ),
        entry.depth < n ==> eval_of(Expr::MinDepth(n), entry, now, run) == (
            Ok::<bool, Request>(false),
            run,
        ),
        eval_of(Expr::MaxDepth(n), entry, now, run).0 == Ok::<bool, Request>(true) ==> eval_of(
            Expr::MaxDepth(m),
            entry,
            now,
            run,
        ).0 == Ok::<bool, Request>(true),
        eval_of(Expr::MinDepth(m), entry, now, run).0 == Ok::<bool, Request>(true) ==> eval_of(
            Expr::MinDepth(n),
            entry,
            now,
            run,
        ).0 == Ok::<bool, Request>(true),
{
}

/// A bound on the depth from below excludes what the next smaller bound from above admits, and
/// admits the rest.
pub proof fn depth_bounds_are_complements(n: usize, entry: Entry, now: Timestamp, run: Run)
    requires
        n < usize::MAX,
    ensures
        (eval_of(Expr::MinDepth((n + 1) as usize), entry, now, run).0 == Ok::<bool, Request>(true))
            <==> (eval_of(Expr::MaxDepth(n), entry, now, run).0 == Ok::<bool, Request>(false)),
{
}

/// A predicate that goes by the metadata asks for them, and for nothing else; it is false of an entry
/// whose metadata cannot be had, and leaves both marks as they are.
pub proof fn metadata_are_asked_for(e: Expr, entry: Entry, now: Timestamp, run: Run)
    requires
        e is Type || e is Size || e is Mtime || e is Newer,
    ensures
        run.replies.len() == 0 || !(run.replies[0] is Metadata) ==> eval_of(e, entry, now, run) == (
            Err::<bool, Request>(Request::Metadata),
            run,
        ),
        run.replies.len() > 0 && run.replies[0] == Reply::Metadata(None) ==> eval_of(
            e,
            entry,
            now,
            run,
        ).0 == Ok::<bool, Request>(false),
        run.replies.len() > 0 && run.replies[0] is Metadata ==> {
            let after = eval_of(e, entry, now, run);
            &&& after.0 is Ok
            &&& after.1.prune == run.prune
            &&& after.1.did_print == run.did_print
            &&& after.1.replies == run.replies.skip(1)
        },
{
}

/// Of the three questions about a size, `-size -n`, `-size n` and `-size +n`, the first has a yes for
/// the files of fewer bytes, the second for those of as many, the third for those of more: exactly one
/// of them for each file.
pub proof fn sizes_are_told_apart(
    bytes: u64,
    meta: Metadata,
    entry: Entry,
    now: Timestamp,
    run: Run,
)
    requires
        run.replies.len() > 0,
        run.replies[0] == Reply::Metadata(Some(meta)),
    ensures
        (eval_of(Expr::Size { cmp: Cmp::Lt, bytes }, entry, now, run).0 == Ok::<bool, Request>(true))
            <==> meta.len < bytes,
        (eval_of(Expr::Size { cmp: Cmp::Eq, bytes }, entry, now, run).0 == Ok::<bool, Request>(true))
            <==> meta.len == bytes,
        (eval_of(Expr::Size { cmp: Cmp::Gt, bytes }, entry, now, run).0 == Ok::<bool, Request>(true))
            <==> meta.len > bytes,
{
}

/// What `-size +n` holds of, it holds of when it has grown, and when `n` is smaller; what `-size -n`
/// holds of, it holds of when it has shrunk, and when `n` is larger.
pub proof fn sizes_are_monotone(
    bytes: u64,
    less: u64,
    small: Metadata,
    large: Metadata,
    entry: Entry,
    now: Timestamp,
    before: Run,
    after: Run,
)
    requires
        less <= bytes,
        small.len <= large.len,
        before.replies.len() > 0,
        before.replies[0] == Reply::Metadata(Some(small)),
        after.replies.len() > 0,
        after.replies[0] == Reply::Metadata(Some(large)),
    ensures
        eval_of(Expr::Size { cmp: Cmp::Gt, bytes }, entry, now, before).0 == Ok::<bool, Request>(true)
            ==> eval_of(Expr::Size { cmp: Cmp::Gt, bytes: less }, entry, now, after).0 == Ok::<
            bool,
            Request,
        >(true),
        eval_of(Expr::Size { cmp: Cmp::Lt, bytes: less }, entry, now, after).0 == Ok::<
            bool,
            Request,
        >(true) ==> eval_of(Expr::Size { cmp: Cmp::Lt, bytes }, entry, now, before).0 == Ok::<
            bool,
            Request,
        >(true),
{
}

/// Of the three questions about an age, `-mtime -n`, `-mtime n` and `-mtime +n`, the first has a yes
/// where fewer than `n` whole days have passed since the modification, the second where `n` have, the
/// third where more have: exactly one of them. What was modified after `now` is of no age.
pub proof fn ages_are_told_apart(
    days: i64,
    mtime: Timestamp,
    meta: Metadata,
    entry: Entry,
    now: Timestamp,
    run: Run,
)
    requires
        run.replies.len() > 0,
        run.replies[0] == Reply::Metadata(Some(meta)),
        meta.modified == Some(mtime),
    ensures
        ({
            let age = if mtime@ <= now@ {
                (now@ - mtime@) / 86_400_000_000_000
            } else {
                0
            };
            &&& (eval_of(Expr::Mtime { cmp: Cmp::Lt, days }, entry, now, run).0 == Ok::<
                bool,
                Request,
            >(true)) <==> age < days
            &&& (eval_of(Expr::Mtime { cmp: Cmp::Eq, days }, entry, now, run).0 == Ok::<
                bool,
                Request,
            >(true)) <==> age == days
            &&& (eval_of(Expr::Mtime { cmp: Cmp::Gt, days }, entry, now, run).0 == Ok::<
                bool,
                Request,
            >(true)) <==> age > days
        }),
{
    whole_seconds_fit(mtime@, now@);
}

/// For a number of days above zero, `-mtime -n` holds of everything modified less than `n` times
/// 86400 seconds before `now`, or after it, and of nothing else; and for a number that is not
/// negative, `-mtime +n` holds of everything modified at least `n + 1` times 86400 seconds before
/// `now`, and of nothing else.
pub proof fn ages_are_counted_in_days(
    days: i64,
    mtime: Timestamp,
    meta: Metadata,
    entry: Entry,
    now: Timestamp,
    run: Run,
)
    requires
        run.replies.len() > 0,
        run.replies[0] == Reply::Metadata(Some(meta)),
        meta.modified == Some(mtime),
    ensures
        days > 0 ==> ((eval_of(Expr::Mtime { cmp: Cmp::Lt, days }, entry, now, run).0 == Ok::<
            bool,
            Request,
        >(true)) <==> now@ - mtime@ < days * 86_400_000_000_000),
        days >= 0 ==> ((eval_of(Expr::Mtime { cmp: Cmp::Gt, days }, entry, now, run).0 == Ok::<
            bool,
            Request,
        >(true)) <==> now@ - mtime@ >= (days + 1) * 86_400_000_000_000),
        days > 0 ==> ((eval_of(Expr::Mtime { cmp: Cmp::Eq, days }, entry, now, run).0 == Ok::<
            bool,
            Request,
        >(true)) <==> days * 86_400_000_000_000 <= now@ - mtime@ < (days + 1) * 86_400_000_000_000),
{
    whole_seconds_fit(mtime@, now@);
    ages_are_told_apart(days, mtime, meta, entry, now, run);
}

/// An age without a modification time is false whatever is asked of it, and so is a comparison with
/// one.
pub proof fn no_time_has_no_age(e: Expr, meta: Metadata, entry: Entry, now: Timestamp, run: Run)
    requires
        e is Mtime || e is Newer,
        run.replies.len() > 0,
        run.replies[0] == Reply::Metadata(Some(meta)),
        meta.modified is None,
    ensures
        eval_of(e, entry, now, run).0 == Ok::<bool, Request>(false),
{
}

/// `-newer` holds of what was modified later than the time it is given, be it by a nanosecond, and of
/// nothing modified then or before; whatever the time of the evaluation is.
pub proof fn newer_is_strictly_later(
    t: Timestamp,
    mtime: Timestamp,
    meta: Metadata,
    entry: Entry,
    now: Timestamp,
    run: Run,
)
    requires
        run.replies.len() > 0,
        run.replies[0] == Reply::Metadata(Some(meta)),
        meta.modified == Some(mtime),
    ensures
        (eval_of(Expr::Newer(t), entry, now, run).0 == Ok::<bool, Request>(true)) <==> t@ + 1
            <= mtime@,
{
}

/// Each type goes by its own question, and a special type by none of the first three.
pub proof fn types_go_by_their_question(kind: FileKind)
    ensures
        is_type(kind, FileType::File) <==> kind.is_file,
        is_type(kind, FileType::Dir) <==> kind.is_dir,
        is_type(kind, FileType::Symlink) <==> kind.is_symlink,
        is_type(kind, FileType::BlockDevice) <==> kind.is_block_device,
        is_type(kind, FileType::CharDevice) <==> kind.is_char_device,
        is_type(kind, FileType::Pipe) <==> kind.is_fifo,
        is_type(kind, FileType::Socket) <==> kind.is_socket,
        !is_special(kind, FileType::File),
        !is_special(kind, FileType::Dir),
        !is_special(kind, FileType::Symlink),
        forall|t: FileType|
            t != FileType::File && t != FileType::Dir && t != FileType::Symlink ==> #[trigger] is_special(
                kind,
                t,
            ) == is_type(kind, t),
{
}

/// How many of the seven questions about a file have a yes.
pub open spec fn yes_count(kind: FileKind) -> int {
    (if kind.is_file { 1int } else { 0 }) + (if kind.is_dir { 1int } else { 0 }) + (
    if kind.is_symlink { 1int } else { 0 }) + (if kind.is_block_device { 1int } else { 0 }) + (
    if kind.is_char_device { 1int } else { 0 }) + (if kind.is_fifo { 1int } else { 0 }) + (
    if kind.is_socket { 1int } else { 0 })
}

/// Where exactly one question about a file has a yes, the file is of exactly one type.
pub proof fn a_file_is_of_one_type(kind: FileKind) -> (t: FileType)
    requires
        yes_count(kind) == 1,
    ensures
        is_type(kind, t),
        forall|u: FileType| #[trigger] is_type(kind, u) ==> u == t,
{
    if kind.is_file {
        FileType::File
    } else if kind.is_dir {
        FileType::Dir
    } else if kind.is_symlink {
        FileType::Symlink
    } else if kind.is_block_device {
        FileType::BlockDevice
    } else if kind.is_char_device {
        FileType::CharDevice
    } else if kind.is_fifo {
        FileType::Pipe
    } else {
        FileType::Socket
    }
}

/// `-type` holds of an entry where the question that belongs to the type has a yes.
pub proof fn type_goes_by_its_question(
    meta: Metadata,
    entry: Entry,
    now: Timestamp,
    run: Run,
)
    requires
        run.replies.len() > 0,
        run.replies[0] == Reply::Metadata(Some(meta)),
    ensures
        eval_of(Expr::Type(FileType::File), entry, now, run).0 == Ok::<bool, Request>(
            meta.kind.is_file,
        ),
        eval_of(Expr::Type(FileType::Dir), entry, now, run).0 == Ok::<bool, Request>(
            meta.kind.is_dir,
        ),
        eval_of(Expr::Type(FileType::Symlink), entry, now, run).0 == Ok::<bool, Request>(
            meta.kind.is_symlink,
        ),
        eval_of(Expr::Type(FileType::BlockDevice), entry, now, run).0 == Ok::<bool, Request>(
            meta.kind.is_block_device,
        ),
        eval_of(Expr::Type(FileType::CharDevice), entry, now, run).0 == Ok::<bool, Request>(
            meta.kind.is_char_device,
        ),
        eval_of(Expr::Type(FileType::Pipe), entry, now, run).0 == Ok::<bool, Request>(
            meta.kind.is_fifo,
        ),
        eval_of(Expr::Type(FileType::Socket), entry, now, run).0 == Ok::<bool, Request>(
            meta.kind.is_socket,
        ),
{
}

/// `-name` goes by the last component of the path alone, and `-path` by the whole path alone: by the
/// glob as it is written, or by both sides in lower case. Neither asks for anything.
pub proof fn names_go_by_the_glob(pattern: Seq<char>, entry: Entry, now: Timestamp, run: Run)
    ensures
        eval_of(Expr::Name { pattern, ignore_case: false }, entry, now, run) == (
            Ok::<bool, Request>(glob_matches(pattern, entry.name@)),
            run,
        ),
        eval_of(Expr::Name { pattern, ignore_case: true }, entry, now, run) == (
            Ok::<bool, Request>(glob_matches(lower_all(pattern), lower_all(entry.name@))),
            run,
        ),
        eval_of(Expr::Path { pattern, ignore_case: false }, entry, now, run) == (
            Ok::<bool, Request>(glob_matches(pattern, entry.path@)),
            run,
        ),
        eval_of(Expr::Path { pattern, ignore_case: true }, entry, now, run) == (
            Ok::<bool, Request>(glob_matches(lower_all(pattern), lower_all(entry.path@))),
            run,
        ),
{
}

/// With a pattern that holds no special character, `-name` holds of the entries of that name, and
/// `-path` of the one of that path.
pub proof fn plain_names_are_equal(pattern: Seq<char>, entry: Entry, now: Timestamp, run: Run)
    requires
        forall|i: int|
            0 <= i < pattern.len() ==> #[trigger] pattern[i] != '*' && pattern[i] != '?'
                && pattern[i] != '[',
    ensures
        (eval_of(Expr::Name { pattern, ignore_case: false }, entry, now, run).0 == Ok::<
            bool,
            Request,
        >(true)) <==> entry.name@ == pattern,
        (eval_of(Expr::Path { pattern, ignore_case: false }, entry, now, run).0 == Ok::<
            bool,
            Request,
        >(true)) <==> entry.path@ == pattern,
{
    plain_goes_by_letters(pattern, entry.name@);
    plain_goes_by_letters(pattern, entry.path@);
}

/// `-empty` holds of the files without a byte, and of the directories in which there is nothing. It is
/// false of what is neither, and where the metadata or the directory cannot be read. It asks for the
/// metadata, and then, of a directory alone, for what is in it.
pub proof fn empty_has_nothing_in_it(
    meta: Option<Metadata>,
    entry: Entry,
    now: Timestamp,
    run: Run,
)
    requires
        run.replies.len() > 0,
        run.replies[0] == Reply::Metadata(meta),
    ensures
        ({
            let (value, after) = eval_of(Expr::Empty, entry, now, run);
            let told = Run {
                prune: run.prune,
                did_print: run.did_print,
                replies: run.replies.skip(1),
            };
            match meta {
                None => value == Ok::<bool, Request>(false) && after == told,
                Some(m) => {
                    &&& m.kind.is_file ==> value == Ok::<bool, Request>(m.len == 0) && after == told
                    &&& !m.kind.is_file && !m.kind.is_dir ==> value == Ok::<bool, Request>(false)
                        && after == told
                    &&& !m.kind.is_file && m.kind.is_dir ==> {
                        &&& run.replies.len() == 1 || !(run.replies[1] is FirstChild) ==> value
                            == Err::<bool, Request>(Request::FirstChild) && after == told
                        &&& run.replies.len() > 1 && run.replies[1] is FirstChild ==> {
                            &&& value == Ok::<bool, Request>(
                                run.replies[1] == Reply::FirstChild(Some(false)),
                            )
                            &&& after == (Run {
                                prune: run.prune,
                                did_print: run.did_print,
                                replies: run.replies.skip(2),
                            })
                        }
                    }
                },
            }
        }),
{
    let told = run.replies.skip(1);
    assert(run.replies.len() > 1 ==> told[0] == run.replies[1]);
    assert(run.replies.len() > 1 ==> told.skip(1) =~= run.replies.skip(2));
}

/// `-empty` asks for the metadata first.
pub proof fn empty_asks_for_metadata(entry: Entry, now: Timestamp, run: Run)
    requires
        run.replies.len() == 0 || !(run.replies[0] is Metadata),
    ensures
        eval_of(Expr::Empty, entry, now, run) == (Err::<bool, Request>(Request::Metadata), run),
{
}

/// `-print` and `-print0` ask for the path to be printed, each in its own way, and once it has been
/// they are true and leave the mark of output.
pub proof fn printing_is_true_and_marked(null: bool, entry: Entry, now: Timestamp, run: Run)
    ensures
        run.replies.len() == 0 || run.replies[0] != Reply::Printed ==> eval_of(
            Expr::Print { null },
            entry,
            now,
            run,
        ) == (Err::<bool, Request>(Request::Print { null }), run),
        run.replies.len() > 0 && run.replies[0] == Reply::Printed ==> eval_of(
            Expr::Print { null },
            entry,
            now,
            run,
        ) == (
            Ok::<bool, Request>(true),
            Run { prune: run.prune, did_print: true, replies: run.replies.skip(1) },
        ),
{
}

/// `-delete` asks for a directory to be removed as a directory and for anything else as a file. It is
/// true, and leaves the mark of output, where that could be done, and is false where it could not.
pub proof fn deleting_tells_success(entry: Entry, now: Timestamp, run: Run)
    ensures
        run.replies.len() == 0 || !(run.replies[0] is Removed) ==> {
            &&& entry.is_dir ==> eval_of(Expr::Delete, entry, now, run) == (
                Err::<bool, Request>(Request::RemoveDir),
                run,
            )
            &&& !entry.is_dir ==> eval_of(Expr::Delete, entry, now, run) == (
                Err::<bool, Request>(Request::RemoveFile),
                run,
            )
        },
        run.replies.len() > 0 && run.replies[0] == Reply::Removed(true) ==> eval_of(
            Expr::Delete,
            entry,
            now,
            run,
        ) == (
            Ok::<bool, Request>(true),
            Run { prune: run.prune, did_print: true, replies: run.replies.skip(1) },
        ),
        run.replies.len() > 0 && run.replies[0] == Reply::Removed(false) ==> eval_of(
            Expr::Delete,
            entry,
            now,
            run,
        ) == (
            Ok::<bool, Request>(false),
            Run { prune: run.prune, did_print: run.did_print, replies: run.replies.skip(1) },
        ),
{
}

/// `-prune` is true and leaves its mark and nothing else; `-true` is true and leaves nothing.
pub proof fn pruning_is_true_and_marked(entry: Entry, now: Timestamp, run: Run)
    ensures
        eval_of(Expr::Prune, entry, now, run) == (
            Ok::<bool, Request>(true),
            Run { prune: true, did_print: run.did_print, replies: run.replies },
        ),
        eval_of(Expr::True, entry, now, run) == (Ok::<bool, Request>(true), run),
{
}

/// A conjunction whose first operand is true, and a disjunction whose first operand is false, come to
/// what the second comes to from there on. A negation comes to the other value. What one operand asks
/// for and has no reply to, the whole asks for.
pub proof fn operators_go_by_their_operands(
    l: Expr,
    r: Expr,
    entry: Entry,
    now: Timestamp,
    run: Run,
)
    ensures
        ({
            let (value, after) = eval_of(l, entry, now, run);
            let conjunction = eval_of(Expr::And(Box::new(l), Box::new(r)), entry, now, run);
            let disjunction = eval_of(Expr::Or(Box::new(l), Box::new(r)), entry, now, run);
            let negated = eval_of(Expr::Not(Box::new(l)), entry, now, run);
            &&& value == Ok::<bool, Request>(true) ==> conjunction == eval_of(r, entry, now, after)
                && disjunction == (value, after) && negated == (Ok::<bool, Request>(false), after)
            &&& value == Ok::<bool, Request>(false) ==> conjunction == (value, after) && disjunction
                == eval_of(r, entry, now, after) && negated == (Ok::<bool, Request>(true), after)
            &&& value is Err ==> conjunction == (value, after) && disjunction == (value, after)
                && negated == (value, after)
        }),
{
    reveal_with_fuel(eval_of, 2);
}

/// What `-print` puts out is the text of the path and one newline more; what `-print0` puts out is the
/// bytes of the path and one null byte more.
pub proof fn records_are_paths_with_an_end(entry: Entry)
    ensures
        record(entry, false) == encode_utf8(entry.path@) + seq![10u8],
        record(entry, true) == entry.raw_path@ + seq![0u8],
{
    assert(record(entry, false) =~= encode_utf8(entry.path@) + seq![10u8]);
    assert(record(entry, true) =~= entry.raw_path@ + seq![0u8]);
}

} // verus!
