//! Options that govern the whole traversal.
use crate::pred::{Expr, Pred};
use vstd::prelude::*;

verus! {

/// What the flags before the start paths, and some predicates, set for the whole traversal.
#[derive(Debug, Clone, Copy)]
pub struct GlobalOpts {
    /// -L
    pub follow_links: bool,
    /// -H (follow links only on command line)
    pub follow_cmd_links: bool,
    /// -d
    pub depth_first: bool,
    /// -x (don't cross device boundaries)
    pub xdev: bool,
    /// The depth of the expression's last `-maxdepth`.
    pub max_depth: Option<usize>,
    /// The depth of the expression's last `-mindepth`.
    pub min_depth: Option<usize>,
    /// The expression prints or deletes, so that nothing is printed by default.
    pub has_output: bool,
}

/// The options when nothing has been set.
pub open spec fn no_opts() -> GlobalOpts {
    GlobalOpts {
        follow_links: false,
        follow_cmd_links: false,
        depth_first: false,
        xdev: false,
        max_depth: None,
        min_depth: None,
        has_output: false,
    }
}

impl Default for GlobalOpts {
    fn default() -> (opts: Self)
        ensures
            opts == no_opts(),
    {
        GlobalOpts {
            follow_links: false,
            follow_cmd_links: false,
            depth_first: false,
            xdev: false,
            max_depth: None,
            min_depth: None,
            has_output: false,
        }
    }
}

/// The primaries of `e`, from left to right.
pub open spec fn leaves(e: Expr) -> Seq<Expr>
    decreases e,
{
    match e {
        Expr::And(l, r) => leaves(*l) + leaves(*r),
        Expr::Or(l, r) => leaves(*l) + leaves(*r),
        Expr::Not(inner) => leaves(*inner),
        _ => seq![e],
    }
}

/// The depth of the last `-maxdepth` among `ps`, or else `before`.
pub open spec fn last_max_depth(ps: Seq<Expr>, before: Option<usize>) -> Option<usize>
    decreases ps.len(),
{
    if ps.len() == 0 {
        before
    } else {
        match ps.last() {
            Expr::MaxDepth(n) => Some(n),
            _ => last_max_depth(ps.drop_last(), before),
        }
    }
}

/// The depth of the last `-mindepth` among `ps`, or else `before`.
pub open spec fn last_min_depth(ps: Seq<Expr>, before: Option<usize>) -> Option<usize>
    decreases ps.len(),
{
    if ps.len() == 0 {
        before
    } else {
        match ps.last() {
            Expr::MinDepth(n) => Some(n),
            _ => last_min_depth(ps.drop_last(), before),
        }
    }
}

/// `e` prints or deletes.
pub open spec fn is_output(e: Expr) -> bool {
    e is Print || e is Delete
}

/// One of `ps` prints or deletes.
pub open spec fn any_output(ps: Seq<Expr>) -> bool {
    exists|i: int| 0 <= i < ps.len() && is_output(#[trigger] ps[i])
}

/// `opts` with what `e` sets for the whole traversal.
pub open spec fn inspected(e: Expr, opts: GlobalOpts) -> GlobalOpts {
    GlobalOpts {
        max_depth: last_max_depth(leaves(e), opts.max_depth),
        min_depth: last_min_depth(leaves(e), opts.min_depth),
        has_output: opts.has_output || any_output(leaves(e)),
        ..opts
    }
}

proof fn lemma_last_depths_of_concat(ps: Seq<Expr>, qs: Seq<Expr>, before: Option<usize>)
    ensures
        last_max_depth(ps + qs, before) == last_max_depth(qs, last_max_depth(ps, before)),
        last_min_depth(ps + qs, before) == last_min_depth(qs, last_min_depth(ps, before)),
    decreases qs.len(),
{
    if qs.len() == 0 {
        assert(ps + qs =~= ps);
    } else {
        assert((ps + qs).drop_last() =~= ps + qs.drop_last());
        lemma_last_depths_of_concat(ps, qs.drop_last(), before);
    }
}

proof fn lemma_any_output_of_concat(ps: Seq<Expr>, qs: Seq<Expr>)
    ensures
        any_output(ps + qs) == (any_output(ps) || any_output(qs)),
{
    let all = ps + qs;
    if any_output(ps) {
        let i = choose|i: int| 0 <= i < ps.len() && is_output(#[trigger] ps[i]);
        assert(all[i] == ps[i]);
    }
    if any_output(qs) {
        let i = choose|i: int| 0 <= i < qs.len() && is_output(#[trigger] qs[i]);
        assert(all[ps.len() + i] == qs[i]);
    }
    if any_output(all) {
        let i = choose|i: int| 0 <= i < all.len() && is_output(#[trigger] all[i]);
        if i < ps.len() {
            assert(all[i] == ps[i]);
        } else {
            assert(all[i] == qs[i - ps.len()]);
        }
    }
}

/// Notes in `opts` what `pred` sets for the whole traversal.
pub fn inspect(pred: &Pred, opts: &mut GlobalOpts)
    ensures
        *final(opts) == inspected(pred@, *old(opts)),
    decreases pred,
{
    proof {
        reveal_with_fuel(last_max_depth, 2);
        reveal_with_fuel(last_min_depth, 2);
        if leaves(pred@) == seq![pred@] {
            assert(leaves(pred@)[0] == pred@);
        }
    }
    match pred {
        Pred::MaxDepth(n) => {
            opts.max_depth = Some(*n);
        },
        Pred::MinDepth(n) => {
            opts.min_depth = Some(*n);
        },
        Pred::Print { .. } | Pred::Delete => {
            opts.has_output = true;
        },
        Pred::And(l, r) | Pred::Or(l, r) => {
            proof {
                lemma_last_depths_of_concat(leaves(l@), leaves(r@), opts.max_depth);
                lemma_last_depths_of_concat(leaves(l@), leaves(r@), opts.min_depth);
                lemma_any_output_of_concat(leaves(l@), leaves(r@));
            }
            inspect(l, opts);
            inspect(r, opts);
        },
        Pred::Not(inner) => {
            inspect(inner, opts);
        },
        _ => {},
    }
}

/// Inspecting an expression again changes nothing.
pub proof fn inspecting_is_idempotent(e: Expr, opts: GlobalOpts)
    ensures
        inspected(e, inspected(e, opts)) == inspected(e, opts),
{
    lemma_last_depth_kept(leaves(e), opts.max_depth);
    lemma_last_depth_kept(leaves(e), opts.min_depth);
}

proof fn lemma_last_depth_kept(ps: Seq<Expr>, before: Option<usize>)
    ensures
        last_max_depth(ps, last_max_depth(ps, before)) == last_max_depth(ps, before),
        last_min_depth(ps, last_min_depth(ps, before)) == last_min_depth(ps, before),
    decreases ps.len(),
{
    if ps.len() > 0 {
        lemma_last_depth_kept(ps.drop_last(), before);
    }
}

/// What a primary sets for the whole traversal: `-maxdepth` and `-mindepth` their depth, a predicate that
/// prints or deletes that there is output, and any other nothing.
pub proof fn primaries_set_options(e: Expr, opts: GlobalOpts)
    requires
        !(e is And) && !(e is Or) && !(e is Not),
    ensures
        inspected(e, opts) == (GlobalOpts {
            max_depth: match e {
                Expr::MaxDepth(n) => Some(n),
                _ => opts.max_depth,
            },
            min_depth: match e {
                Expr::MinDepth(n) => Some(n),
                _ => opts.min_depth,
            },
            has_output: match e {
                Expr::Print { .. } | Expr::Delete => true,
                _ => opts.has_output,
            },
            follow_links: opts.follow_links,
            follow_cmd_links: opts.follow_cmd_links,
            depth_first: opts.depth_first,
            xdev: opts.xdev,
        }),
{
    reveal_with_fuel(last_max_depth, 2);
    reveal_with_fuel(last_min_depth, 2);
    assert(leaves(e)[0] == e);
    assert(leaves(e).len() == 1);
}

/// An operator sets what its operands set, from left to right: what comes later overrides.
pub proof fn operands_set_options_in_order(l: Expr, r: Expr, opts: GlobalOpts)
    ensures
        inspected(Expr::And(Box::new(l), Box::new(r)), opts) == inspected(r, inspected(l, opts)),
        inspected(Expr::Or(Box::new(l), Box::new(r)), opts) == inspected(r, inspected(l, opts)),
        inspected(Expr::Not(Box::new(l)), opts) == inspected(l, opts),
{
    lemma_last_depths_of_concat(leaves(l), leaves(r), opts.max_depth);
    lemma_last_depths_of_concat(leaves(l), leaves(r), opts.min_depth);
    lemma_any_output_of_concat(leaves(l), leaves(r));
}

/// At the outset nothing is set.
pub proof fn nothing_is_set_at_first()
    ensures
        !no_opts().follow_links && !no_opts().follow_cmd_links && !no_opts().depth_first
            && !no_opts().xdev && !no_opts().has_output,
        no_opts().max_depth is None && no_opts().min_depth is None,
{
}

} // verus!
