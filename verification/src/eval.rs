//! Evaluation of an expression on one directory entry.
//!
//! What only the file system can tell, and what has to be done to it or printed, is asked for
//! by a [`Request`] and answered by a [`Reply`]. [`eval`] takes the replies that have come so
//! far, uses them in their order, and returns the next request where they do not suffice.
use crate::glob::{folded, glob_match, glob_matches};
use crate::pred::{Cmp, Expr, FileType, Pred};
use crate::time::{whole_secs, Timestamp};
use vstd::prelude::*;
use vstd::utf8::encode_utf8;

verus! {

/// The type of a file, as the questions that the system answers about it.
#[derive(Debug, Clone, Copy)]
pub struct FileKind {
    pub is_file: bool,
    pub is_dir: bool,
    pub is_symlink: bool,
    pub is_block_device: bool,
    pub is_char_device: bool,
    pub is_fifo: bool,
    pub is_socket: bool,
}

/// What the system tells of a file.
#[derive(Debug, Clone, Copy)]
pub struct Metadata {
    pub kind: FileKind,
    /// The size in bytes.
    pub len: u64,
    /// The modification time, where the system has it.
    pub modified: Option<Timestamp>,
}

/// A directory entry, as the traversal finds it.
#[derive(Debug)]
pub struct Entry {
    /// The last component of the path.
    pub name: String,
    /// The path, in a form that can be shown.
    pub path: String,
    /// The path, byte by byte.
    pub raw_path: Vec<u8>,
    /// How many levels below the start path the entry is.
    pub depth: usize,
    /// The traversal found a directory.
    pub is_dir: bool,
}

/// What an evaluation asks for.
#[derive(Debug, Clone, Copy, PartialEq, Eq, Structural)]
pub enum Request {
    /// The metadata of the entry.
    Metadata,
    /// Whether the entry, a directory, has anything in it.
    FirstChild,
    /// To print the path of the entry.
    Print { null: bool },
    /// To remove the entry, a directory.
    RemoveDir,
    /// To remove the entry, no directory.
    RemoveFile,
}

/// The answer to a [`Request`].
#[derive(Debug, Clone, Copy)]
pub enum Reply {
    /// The metadata, where it could be had.
    Metadata(Option<Metadata>),
    /// Whether the directory has anything in it, where it could be read.
    FirstChild(Option<bool>),
    /// The path has been printed.
    Printed,
    /// Whether the entry could be removed.
    Removed(bool),
}

/// `kind` is one of the special types of file that `expected` asks for.
pub open spec fn is_special(kind: FileKind, expected: FileType) -> bool {
    match expected {
        FileType::BlockDevice => kind.is_block_device,
        FileType::CharDevice => kind.is_char_device,
        FileType::Pipe => kind.is_fifo,
        FileType::Socket => kind.is_socket,
        FileType::File | FileType::Dir | FileType::Symlink => false,
    }
}

/// `kind` is the type of file that `expected` asks for.
pub open spec fn is_type(kind: FileKind, expected: FileType) -> bool {
    match expected {
        FileType::File => kind.is_file,
        FileType::Dir => kind.is_dir,
        FileType::Symlink => kind.is_symlink,
        _ => is_special(kind, expected),
    }
}

/// Tells whether a file is of the type that `-type` asks for.
pub fn matches_file_type(ftype: &FileKind, expected: &FileType) -> (r: bool)
    ensures
        r == is_type(*ftype, *expected),
{
    match expected {
        FileType::File => ftype.is_file,
        FileType::Dir => ftype.is_dir,
        FileType::Symlink => ftype.is_symlink,
        FileType::BlockDevice | FileType::CharDevice | FileType::Pipe | FileType::Socket => {
            matches_unix_special_file_type(ftype, expected)
        },
    }
}

/// Tells whether a file is a device, a pipe or a socket, as `-type` asks.
pub fn matches_unix_special_file_type(ftype: &FileKind, expected: &FileType) -> (r: bool)
    ensures
        r == is_special(*ftype, *expected),
{
    match expected {
        FileType::BlockDevice => ftype.is_block_device,
        FileType::CharDevice => ftype.is_char_device,
        FileType::Pipe => ftype.is_fifo,
        FileType::Socket => ftype.is_socket,
        FileType::File | FileType::Dir | FileType::Symlink => false,
    }
}

/// A file of `len` bytes is to `bytes` bytes as `qualifier` asks.
pub open spec fn size_test(qualifier: Cmp, len: u64, bytes: u64) -> bool {
    qualifier.holds(len as int, bytes as int)
}

/// Tells whether a file of `len` bytes is to `bytes` bytes as `qualifier` asks.
fn size_matches(qualifier: &Cmp, len: u64, bytes: u64) -> (r: bool)
    ensures
        r == size_test(*qualifier, len, bytes),
{
    match qualifier {
        Cmp::Eq => len == bytes,
        Cmp::Lt => len < bytes,
        Cmp::Gt => len > bytes,
    }
}

pub const SECS_PER_DAY: u64 = 86400;

/// The age in whole days, at `now`, of what was modified at `mtime`; both in nanoseconds.
/// What was modified later is of no age.
pub open spec fn age_days(mtime: int, now: int) -> int {
    whole_secs(mtime, now) / SECS_PER_DAY as int
}

/// Returns the age in whole days, at `now`, of what was modified at `mtime`.
fn days_since(mtime: &Timestamp, now: &Timestamp) -> (days: i64)
    ensures
        days == age_days(mtime@, now@),
{
    (now.secs_since(mtime) / SECS_PER_DAY) as i64
}

/// How far an evaluation has come: its two marks, and the replies that it has not used.
#[verifier::ext_equal]
pub struct Run {
    pub prune: bool,
    pub did_print: bool,
    pub replies: Seq<Reply>,
}

/// What an evaluation comes to, a value or a request that has no reply, and how far it came.
pub type Evaluated = (Result<bool, Request>, Run);

/// `reply` answers `request`.
pub open spec fn answers(reply: Reply, request: Request) -> bool {
    match request {
        Request::Metadata => reply is Metadata,
        Request::FirstChild => reply is FirstChild,
        Request::Print { .. } => reply is Printed,
        Request::RemoveDir | Request::RemoveFile => reply is Removed,
    }
}

impl Run {
    /// The next reply answers `request`.
    pub open spec fn has(self, request: Request) -> bool {
        self.replies.len() > 0 && answers(self.replies[0], request)
    }

    /// The run with its next reply used.
    pub open spec fn advance(self) -> Run {
        Run { replies: self.replies.skip(1), ..self }
    }

    /// The run with a path printed or an entry removed.
    pub open spec fn output(self) -> Run {
        Run { did_print: true, ..self }
    }

    /// The run with more replies behind its own.
    pub open spec fn with_more(self, more: Seq<Reply>) -> Run {
        Run { replies: self.replies + more, ..self }
    }
}

/// What a predicate that goes by the metadata alone says. `-empty` is not among them.
pub open spec fn metadata_test(e: Expr, meta: Metadata, now: Timestamp) -> bool {
    match e {
        Expr::Type(t) => is_type(meta.kind, t),
        Expr::Size { cmp, bytes } => size_test(cmp, meta.len, bytes),
        Expr::Mtime { cmp, days } => match meta.modified {
            Some(mtime) => age_test(cmp, days, mtime, now),
            None => false,
        },
        Expr::Newer(t) => match meta.modified {
            Some(mtime) => mtime@ > t@,
            None => false,
        },
        _ => false,
    }
}

/// The age in days of what was modified at `mtime` is to `days` as `qualifier` asks.
pub open spec fn age_test(qualifier: Cmp, days: i64, mtime: Timestamp, now: Timestamp) -> bool {
    qualifier.holds(age_days(mtime@, now@), days as int)
}

/// What the evaluation of `e` on `entry` comes to from `run` on.
pub open spec fn eval_of(e: Expr, entry: Entry, now: Timestamp, run: Run) -> Evaluated
    decreases e,
{
    match e {
        Expr::True => (Ok(true), run),
        Expr::Name { pattern, ignore_case } => (
            Ok(glob_matches(folded(pattern, ignore_case), folded(entry.name@, ignore_case))),
            run,
        ),
        Expr::Path { pattern, ignore_case } => (
            Ok(glob_matches(folded(pattern, ignore_case), folded(entry.path@, ignore_case))),
            run,
        ),
        Expr::MaxDepth(n) => (Ok(entry.depth <= n), run),
        Expr::MinDepth(n) => (Ok(entry.depth >= n), run),
        Expr::Type(_) | Expr::Size { .. } | Expr::Mtime { .. } | Expr::Newer(_) => if run.has(
            Request::Metadata,
        ) {
            match run.replies[0]->Metadata_0 {
                Some(meta) => (Ok(metadata_test(e, meta, now)), run.advance()),
                None => (Ok(false), run.advance()),
            }
        } else {
            (Err(Request::Metadata), run)
        },
        Expr::Empty => if run.has(Request::Metadata) {
            let told = run.advance();
            match run.replies[0]->Metadata_0 {
                Some(meta) => if meta.kind.is_file {
                    (Ok(meta.len == 0), told)
                } else if meta.kind.is_dir {
                    if told.has(Request::FirstChild) {
                        (Ok(told.replies[0]->FirstChild_0 == Some(false)), told.advance())
                    } else {
                        (Err(Request::FirstChild), told)
                    }
                } else {
                    (Ok(false), told)
                },
                None => (Ok(false), told),
            }
        } else {
            (Err(Request::Metadata), run)
        },
        Expr::Print { null } => if run.has(Request::Print { null }) {
            (Ok(true), run.advance().output())
        } else {
            (Err(Request::Print { null }), run)
        },
        Expr::Delete => {
            let request = removal(entry);
            if run.has(request) {
                if run.replies[0]->Removed_0 {
                    (Ok(true), run.advance().output())
                } else {
                    (Ok(false), run.advance())
                }
            } else {
                (Err(request), run)
            }
        },
        Expr::Prune => (Ok(true), Run { prune: true, ..run }),
        Expr::And(l, r) => match eval_of(*l, entry, now, run) {
            (Ok(true), after) => eval_of(*r, entry, now, after),
            other => other,
        },
        Expr::Or(l, r) => match eval_of(*l, entry, now, run) {
            (Ok(false), after) => eval_of(*r, entry, now, after),
            other => other,
        },
        Expr::Not(inner) => match eval_of(*inner, entry, now, run) {
            (Ok(b), after) => (Ok(!b), after),
            other => other,
        },
    }
}

/// The request that removes `entry`.
pub open spec fn removal(entry: Entry) -> Request {
    if entry.is_dir {
        Request::RemoveDir
    } else {
        Request::RemoveFile
    }
}

/// The evaluation of an expression on one entry, under way.
pub struct EvalCtx<'a> {
    now: Timestamp,
    /// Set when `-prune` fires.
    prune: bool,
    /// Set when a path has been printed or an entry removed.
    did_print: bool,
    replies: &'a [Reply],
    used: usize,
}

impl<'a> View for EvalCtx<'a> {
    type V = Run;

    closed spec fn view(&self) -> Run {
        Run {
            prune: self.prune,
            did_print: self.did_print,
            replies: self.replies@.skip(self.used as int),
        }
    }
}

impl<'a> EvalCtx<'a> {
    #[verifier::type_invariant]
    spec fn inv(self) -> bool {
        self.used <= self.replies@.len()
    }

    /// The time from which ages are counted.
    pub closed spec fn time(self) -> Timestamp {
        self.now
    }

    /// An evaluation at `now` that has `replies` to use.
    pub fn new(now: Timestamp, replies: &'a [Reply]) -> (ctx: Self)
        ensures
            ctx.time() == now,
            ctx@ == (Run { prune: false, did_print: false, replies: replies@ }),
    {
        let ctx = EvalCtx { now, prune: false, did_print: false, replies, used: 0 };
        assert(ctx@.replies =~= replies@);
        ctx
    }

    /// Whether `-prune` has fired.
    pub fn pruned(&self) -> (r: bool)
        ensures
            r == self@.prune,
    {
        self.prune
    }

    /// Whether a path has been printed or an entry removed.
    pub fn printed(&self) -> (r: bool)
        ensures
            r == self@.did_print,
    {
        self.did_print
    }

    /// Uses the next reply, if it answers `request`.
    fn ask(&mut self, request: Request) -> (r: Result<Reply, Request>)
        ensures
            final(self).time() == old(self).time(),
            match r {
                Ok(reply) => {
                    &&& old(self)@.has(request)
                    &&& reply == old(self)@.replies[0]
                    &&& final(self)@ == old(self)@.advance()
                },
                Err(q) => {
                    &&& !old(self)@.has(request)
                    &&& q == request
                    &&& final(self)@ == old(self)@
                },
            },
    {
        proof {
            use_type_invariant(&*self);
        }
        if self.used >= self.replies.len() {
            return Err(request);
        }
        let reply = self.replies[self.used];
        let fits = match (request, reply) {
            (Request::Metadata, Reply::Metadata(_)) => true,
            (Request::FirstChild, Reply::FirstChild(_)) => true,
            (Request::Print { .. }, Reply::Printed) => true,
            (Request::RemoveDir, Reply::Removed(_)) => true,
            (Request::RemoveFile, Reply::Removed(_)) => true,
            _ => false,
        };
        if !fits {
            return Err(request);
        }
        self.used = self.used + 1;
        assert(self@.replies =~= old(self)@.replies.skip(1));
        Ok(reply)
    }

    /// The metadata of the entry, where it can be had.
    fn metadata(&mut self) -> (r: Result<Option<Metadata>, Request>)
        ensures
            final(self).time() == old(self).time(),
            match r {
                Ok(meta) => {
                    &&& old(self)@.has(Request::Metadata)
                    &&& meta == old(self)@.replies[0]->Metadata_0
                    &&& final(self)@ == old(self)@.advance()
                },
                Err(q) => {
                    &&& !old(self)@.has(Request::Metadata)
                    &&& q == Request::Metadata
                    &&& final(self)@ == old(self)@
                },
            },
    {
        match self.ask(Request::Metadata)? {
            Reply::Metadata(meta) => Ok(meta),
            _ => Err(Request::Metadata),
        }
    }
}

/// Evaluates `pred` against `entry`. Returns the boolean result, or the request that has to be
/// answered first.
pub fn eval(pred: &Pred, entry: &Entry, ctx: &mut EvalCtx) -> (r: Result<bool, Request>)
    ensures
        final(ctx).time() == old(ctx).time(),
        (r, final(ctx)@) == eval_of(pred@, *entry, old(ctx).time(), old(ctx)@),
    decreases pred,
{
    match pred {
        Pred::True => Ok(true),
        Pred::Name { pattern, ignore_case } => Ok(
            glob_match(pattern.as_str(), entry.name.as_str(), *ignore_case),
        ),
        Pred::Path { pattern, ignore_case } => Ok(
            glob_match(pattern.as_str(), entry.path.as_str(), *ignore_case),
        ),
        Pred::Type(ft) => match ctx.metadata()? {
            Some(meta) => Ok(matches_file_type(&meta.kind, ft)),
            None => Ok(false),
        },
        Pred::Empty => match ctx.metadata()? {
            Some(meta) => if meta.kind.is_file {
                Ok(meta.len == 0)
            } else if meta.kind.is_dir {
                match ctx.ask(Request::FirstChild)? {
                    Reply::FirstChild(Some(any)) => Ok(!any),
                    _ => Ok(false),
                }
            } else {
                Ok(false)
            },
            None => Ok(false),
        },
        Pred::MaxDepth(n) => Ok(entry.depth <= *n),
        Pred::MinDepth(n) => Ok(entry.depth >= *n),
        Pred::Size { cmp, bytes } => match ctx.metadata()? {
            Some(meta) => Ok(size_matches(cmp, meta.len, *bytes)),
            None => Ok(false),
        },
        Pred::Mtime { cmp, days } => match ctx.metadata()? {
            Some(meta) => match meta.modified {
                Some(mtime) => Ok(cmp.test(days_since(&mtime, &ctx.now), *days)),
                None => Ok(false),
            },
            None => Ok(false),
        },
        Pred::Newer(ref_time) => match ctx.metadata()? {
            Some(meta) => match meta.modified {
                Some(mtime) => Ok(mtime.is_after(ref_time)),
                None => Ok(false),
            },
            None => Ok(false),
        },
        Pred::Print { null } => {
            ctx.ask(Request::Print { null: *null })?;
            proof {
                use_type_invariant(&*ctx);
            }
            ctx.did_print = true;
            Ok(true)
        },
        Pred::Delete => {
            let request = if entry.is_dir {
                Request::RemoveDir
            } else {
                Request::RemoveFile
            };
            match ctx.ask(request)? {
                Reply::Removed(true) => {
                    proof {
                        use_type_invariant(&*ctx);
                    }
                    ctx.did_print = true;
                    Ok(true)
                },
                _ => Ok(false),
            }
        },
        Pred::Prune => {
            proof {
                use_type_invariant(&*ctx);
            }
            ctx.prune = true;
            Ok(true)
        },
        Pred::And(l, r) => if eval(l, entry, ctx)? {
            eval(r, entry, ctx)
        } else {
            Ok(false)
        },
        Pred::Or(l, r) => if eval(l, entry, ctx)? {
            Ok(true)
        } else {
            eval(r, entry, ctx)
        },
        Pred::Not(inner) => {
            let b = eval(inner, entry, ctx)?;
            Ok(!b)
        },
    }
}

/// What `-print` or `-print0` puts out for `entry`.
pub open spec fn record(entry: Entry, null: bool) -> Seq<u8> {
    if null {
        entry.raw_path@.push(0)
    } else {
        encode_utf8(entry.path@).push(10)
    }
}

/// Returns what `-print` or `-print0` puts out for `entry`: its path and a newline, or the bytes
/// of its path and a null byte.
pub fn print_record(entry: &Entry, null: bool) -> (out: Vec<u8>)
    ensures
        out@ == record(*entry, null),
{
    let mut out: Vec<u8> = Vec::new();
    if null {
        out.extend_from_slice(entry.raw_path.as_slice());
        out.push(0);
    } else {
        out.extend_from_slice(entry.path.as_str().as_bytes());
        out.push(10);
    }
    out
}

} // verus!
