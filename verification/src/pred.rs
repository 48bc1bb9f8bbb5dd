//! The predicate expression tree.
use crate::time::Timestamp;
use vstd::prelude::*;
use vstd::std_specs::cmp::{PartialEqSpec, PartialEqSpecImpl};

verus! {

/// What `-type` asks for.
#[derive(Debug, Clone, Copy, PartialEq, Eq, Structural)]
pub enum FileType {
    File,
    Dir,
    Symlink,
    BlockDevice,
    CharDevice,
    Pipe,
    Socket,
}

/// Size/time comparison qualifier: exact, less-than, greater-than.
#[derive(Debug, Clone, Copy)]
pub enum Cmp {
    Eq,
    Lt,
    Gt,
}

impl Cmp {
    /// `a` is to `b` as the qualifier asks.
    pub open spec fn holds(self, a: int, b: int) -> bool {
        match self {
            Cmp::Eq => a == b,
            Cmp::Lt => a < b,
            Cmp::Gt => a > b,
        }
    }

    /// Tells whether `a` is to `b` as the qualifier asks.
    pub fn test(&self, a: i64, b: i64) -> (r: bool)
        ensures
            r == self.holds(a as int, b as int),
    {
        match self {
            Cmp::Eq => a == b,
            Cmp::Lt => a < b,
            Cmp::Gt => a > b,
        }
    }
}

impl PartialEq for Cmp {
    fn eq(&self, other: &Self) -> (r: bool) {
        match (self, other) {
            (Cmp::Eq, Cmp::Eq) | (Cmp::Lt, Cmp::Lt) | (Cmp::Gt, Cmp::Gt) => true,
            _ => false,
        }
    }
}

impl PartialEqSpecImpl for Cmp {
    open spec fn obeys_eq_spec() -> bool {
        true
    }

    open spec fn eq_spec(&self, other: &Self) -> bool {
        *self == *other
    }
}

/// A node of the expression tree: a primary or a logical operator.
#[derive(Debug)]
pub enum Pred {
    /// -name / -iname
    Name { pattern: String, ignore_case: bool },
    /// -path / -ipath
    Path { pattern: String, ignore_case: bool },
    /// -type
    Type(FileType),
    /// -empty
    Empty,
    /// -maxdepth
    MaxDepth(usize),
    /// -mindepth
    MinDepth(usize),
    /// -size [+-]n[ckMG]  (unit: 'c'=bytes, 'k'=KiB, 'M'=MiB, 'G'=GiB; default=512-byte blocks)
    Size { cmp: Cmp, bytes: u64 },
    /// -mtime [+-]n  (days)
    Mtime { cmp: Cmp, days: i64 },
    /// -newer file
    Newer(Timestamp),
    /// -print / -print0
    Print { null: bool },
    /// -delete
    Delete,
    /// -prune  (don't descend into directory)
    Prune,
    And(Box<Pred>, Box<Pred>),
    Or(Box<Pred>, Box<Pred>),
    Not(Box<Pred>),
    /// -true
    True,
}

/// The tree that a [`Pred`] stands for: the same nodes over mathematical text.
pub enum Expr {
    Name { pattern: Seq<char>, ignore_case: bool },
    Path { pattern: Seq<char>, ignore_case: bool },
    Type(FileType),
    Empty,
    MaxDepth(usize),
    MinDepth(usize),
    Size { cmp: Cmp, bytes: u64 },
    Mtime { cmp: Cmp, days: i64 },
    Newer(Timestamp),
    Print { null: bool },
    Delete,
    Prune,
    And(Box<Expr>, Box<Expr>),
    Or(Box<Expr>, Box<Expr>),
    Not(Box<Expr>),
    True,
}

impl Pred {
    /// The tree that this predicate stands for.
    pub open spec fn expr(self) -> Expr
        decreases self,
    {
        match self {
            Pred::Name { pattern, ignore_case } => Expr::Name { pattern: pattern@, ignore_case },
            Pred::Path { pattern, ignore_case } => Expr::Path { pattern: pattern@, ignore_case },
            Pred::Type(t) => Expr::Type(t),
            Pred::Empty => Expr::Empty,
            Pred::MaxDepth(n) => Expr::MaxDepth(n),
            Pred::MinDepth(n) => Expr::MinDepth(n),
            Pred::Size { cmp, bytes } => Expr::Size { cmp, bytes },
            Pred::Mtime { cmp, days } => Expr::Mtime { cmp, days },
            Pred::Newer(t) => Expr::Newer(t),
            Pred::Print { null } => Expr::Print { null },
            Pred::Delete => Expr::Delete,
            Pred::Prune => Expr::Prune,
            Pred::And(l, r) => Expr::And(Box::new(l.expr()), Box::new(r.expr())),
            Pred::Or(l, r) => Expr::Or(Box::new(l.expr()), Box::new(r.expr())),
            Pred::Not(inner) => Expr::Not(Box::new(inner.expr())),
            Pred::True => Expr::True,
        }
    }
}

impl Clone for Pred {
    fn clone(&self) -> (copy: Self)
        ensures
            copy.expr() == self.expr(),
        decreases self,
    {
        match self {
            Pred::Name { pattern, ignore_case } => Pred::Name {
                pattern: pattern.clone(),
                ignore_case: *ignore_case,
            },
            Pred::Path { pattern, ignore_case } => Pred::Path {
                pattern: pattern.clone(),
                ignore_case: *ignore_case,
            },
            Pred::Type(t) => Pred::Type(*t),
            Pred::Empty => Pred::Empty,
            Pred::MaxDepth(n) => Pred::MaxDepth(*n),
            Pred::MinDepth(n) => Pred::MinDepth(*n),
            Pred::Size { cmp, bytes } => Pred::Size { cmp: *cmp, bytes: *bytes },
            Pred::Mtime { cmp, days } => Pred::Mtime { cmp: *cmp, days: *days },
            Pred::Newer(t) => Pred::Newer(*t),
            Pred::Print { null } => Pred::Print { null: *null },
            Pred::Delete => Pred::Delete,
            Pred::Prune => Pred::Prune,
            Pred::And(l, r) => Pred::And(Box::new((&**l).clone()), Box::new((&**r).clone())),
            Pred::Or(l, r) => Pred::Or(Box::new((&**l).clone()), Box::new((&**r).clone())),
            Pred::Not(inner) => Pred::Not(Box::new((&**inner).clone())),
            Pred::True => Pred::True,
        }
    }
}

impl View for Pred {
    type V = Expr;

    open spec fn view(&self) -> Expr {
        self.expr()
    }
}

/// Of two numbers, exactly one of the three qualifiers holds: the one that says how they compare.
pub proof fn qualifiers_tell_apart(a: int, b: int)
    ensures
        Cmp::Lt.holds(a, b) <==> a < b,
        Cmp::Gt.holds(a, b) <==> a > b,
        Cmp::Eq.holds(a, b) <==> a == b,
{
}

/// The tree that a predicate stands for has the same nodes, with the same data.
pub proof fn trees_are_seen_as_they_are(p: Pred)
    ensures
        match p {
            Pred::Name { pattern, ignore_case } => p@ == (Expr::Name {
                pattern: pattern@,
                ignore_case,
            }),
            Pred::Path { pattern, ignore_case } => p@ == (Expr::Path {
                pattern: pattern@,
                ignore_case,
            }),
            Pred::Type(t) => p@ == Expr::Type(t),
            Pred::Empty => p@ == Expr::Empty,
            Pred::MaxDepth(n) => p@ == Expr::MaxDepth(n),
            Pred::MinDepth(n) => p@ == Expr::MinDepth(n),
            Pred::Size { cmp, bytes } => p@ == (Expr::Size { cmp, bytes }),
            Pred::Mtime { cmp, days } => p@ == (Expr::Mtime { cmp, days }),
            Pred::Newer(t) => p@ == Expr::Newer(t),
            Pred::Print { null } => p@ == (Expr::Print { null }),
            Pred::Delete => p@ == Expr::Delete,
            Pred::Prune => p@ == Expr::Prune,
            Pred::And(l, r) => p@ == Expr::And(Box::new(l@), Box::new(r@)),
            Pred::Or(l, r) => p@ == Expr::Or(Box::new(l@), Box::new(r@)),
            Pred::Not(inner) => p@ == Expr::Not(Box::new(inner@)),
            Pred::True => p@ == Expr::True,
        },
{
}

/// Qualifiers are equal where they are the same.
pub proof fn equal_qualifiers_are_the_same(a: Cmp, b: Cmp)
    ensures
        PartialEqSpec::eq_spec(&a, &b) <==> (a is Eq && b is Eq || a is Lt && b is Lt || a is Gt && b
            is Gt),
{
}

} // verus!
