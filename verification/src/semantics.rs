//! What holds of the evaluation of every expression.
use crate::eval::{answers, eval_of, Entry, Reply, Request, Run};
use crate::options::{any_output, is_output, leaves};
use crate::pred::Expr;
use crate::time::Timestamp;
use vstd::prelude::*;

verus! {

/// An evaluation uses replies from the front, one for each request, and passes over none; and it
/// takes back no mark.
pub proof fn replies_are_used_in_order(e: Expr, entry: Entry, now: Timestamp, run: Run)
    ensures
        ({
            let after = eval_of(e, entry, now, run).1;
            &&& after.replies.len() <= run.replies.len()
            &&& after.replies == run.replies.skip(run.replies.len() - after.replies.len())
            &&& run.prune ==> after.prune
            &&& run.did_print ==> after.did_print
        }),
    decreases e,
{
    assert(run.replies.skip(0) =~= run.replies);
    match e {
        Expr::And(l, r) | Expr::Or(l, r) => {
            replies_are_used_in_order(*l, entry, now, run);
            let mid = eval_of(*l, entry, now, run).1;
            replies_are_used_in_order(*r, entry, now, mid);
            let after = eval_of(*r, entry, now, mid).1;
            assert(after.replies =~= run.replies.skip(run.replies.len() - after.replies.len()));
        },
        Expr::Not(inner) => {
            replies_are_used_in_order(*inner, entry, now, run);
        },
        Expr::Empty => {
            if run.replies.len() >= 2 {
                assert(run.advance().advance().replies =~= run.replies.skip(2));
            }
        },
        _ => {},
    }
}

/// Once an evaluation has its value, more replies leave it as it is: they are not used.
pub proof fn a_value_stands(e: Expr, entry: Entry, now: Timestamp, run: Run, more: Seq<Reply>)
    requires
        eval_of(e, entry, now, run).0 is Ok,
    ensures
        eval_of(e, entry, now, run.with_more(more)).0 == eval_of(e, entry, now, run).0,
        eval_of(e, entry, now, run.with_more(more)).1 == eval_of(e, entry, now, run).1.with_more(
            more,
        ),
    decreases e,
{
    let long = run.with_more(more);
    if run.replies.len() > 0 {
        assert(long.replies[0] == run.replies[0]);
        assert(long.replies.skip(1) =~= run.replies.skip(1) + more);
    }
    match e {
        Expr::And(l, r) | Expr::Or(l, r) => {
            a_value_stands(*l, entry, now, run, more);
            let (v, mid) = eval_of(*l, entry, now, run);
            if v == Ok::<bool, Request>(e is And) {
                a_value_stands(*r, entry, now, mid, more);
            }
        },
        Expr::Not(inner) => {
            a_value_stands(*inner, entry, now, run, more);
        },
        Expr::Empty => {
            let told = run.advance();
            if told.replies.len() > 0 {
                assert(long.advance().replies[0] == told.replies[0]);
                assert(long.advance().replies.skip(1) =~= told.replies.skip(1) + more);
            }
        },
        _ => {},
    }
}

/// An evaluation that has run out of replies is carried past its request by a reply to it: the
/// reply is used, and with it all replies are.
pub proof fn a_reply_carries_on(
    e: Expr,
    entry: Entry,
    now: Timestamp,
    run: Run,
    request: Request,
    reply: Reply,
)
    requires
        eval_of(e, entry, now, run).0 == Err::<bool, Request>(request),
        eval_of(e, entry, now, run).1.replies.len() == 0,
        answers(reply, request),
    ensures
        eval_of(e, entry, now, run.with_more(seq![reply])).1.replies.len() == 0,
    decreases e,
{
    let more = seq![reply];
    let long = run.with_more(more);
    if run.replies.len() > 0 {
        assert(long.replies[0] == run.replies[0]);
        assert(long.replies.skip(1) =~= run.replies.skip(1) + more);
    }
    match e {
        Expr::And(l, r) | Expr::Or(l, r) => {
            let (v, mid) = eval_of(*l, entry, now, run);
            if v is Ok {
                a_value_stands(*l, entry, now, run, more);
                a_reply_carries_on(*r, entry, now, mid, request, reply);
            } else {
                a_reply_carries_on(*l, entry, now, run, request, reply);
                let after = eval_of(*l, entry, now, long).1;
                replies_are_used_in_order(*r, entry, now, after);
            }
        },
        Expr::Not(inner) => {
            a_reply_carries_on(*inner, entry, now, run, request, reply);
        },
        Expr::Empty => {
            let told = run.advance();
            if run.replies.len() > 0 {
                assert(long.advance().replies =~= told.replies + more);
            } else {
                assert(long.replies =~= more);
            }
        },
        _ => {
            assert(run.replies.len() == 0 ==> long.replies =~= more);
        },
    }
}

/// An evaluation makes no more than two requests for each primary: it comes to a value after so
/// many replies at the latest.
pub proof fn requests_are_bounded(e: Expr, entry: Entry, now: Timestamp, run: Run)
    ensures
        ({
            let (r, after) = eval_of(e, entry, now, run);
            let used = run.replies.len() - after.replies.len();
            used + (if r is Err {
                1int
            } else {
                0int
            }) <= 2 * leaves(e).len()
        }),
    decreases e,
{
    match e {
        Expr::And(l, r) | Expr::Or(l, r) => {
            requests_are_bounded(*l, entry, now, run);
            requests_are_bounded(*r, entry, now, eval_of(*l, entry, now, run).1);
        },
        Expr::Not(inner) => {
            requests_are_bounded(*inner, entry, now, run);
        },
        _ => {},
    }
}

/// An evaluation that has used no reply and set no mark.
pub open spec fn fresh(replies: Seq<Reply>) -> Run {
    Run { prune: false, did_print: false, replies }
}

/// The evaluation of `e` with the replies `replies`, taken up again with a reply of `system` whenever
/// it asks for one, `turns` times at most. `system` may answer as it likes, by what it has been asked
/// before. Gives the value, where one is reached, and the replies that led to it.
pub open spec fn driven(
    e: Expr,
    entry: Entry,
    now: Timestamp,
    system: spec_fn(Seq<Reply>, Request) -> Reply,
    replies: Seq<Reply>,
    turns: nat,
) -> Option<(bool, Seq<Reply>)>
    decreases turns,
{
    match eval_of(e, entry, now, fresh(replies)).0 {
        Ok(value) => Some((value, replies)),
        Err(request) => if turns == 0 {
            None
        } else {
            driven(
                e,
                entry,
                now,
                system,
                replies.push(system(replies, request)),
                (turns - 1) as nat,
            )
        },
    }
}

/// A system that answers what it is asked brings every evaluation to a value, in two turns at most for
/// each primary, and each of its replies is used.
pub proof fn driving_ends(
    e: Expr,
    entry: Entry,
    now: Timestamp,
    system: spec_fn(Seq<Reply>, Request) -> Reply,
)
    requires
        forall|replies: Seq<Reply>, request: Request|
            answers(#[trigger] system(replies, request), request),
    ensures
        driven(e, entry, now, system, Seq::empty(), 2 * leaves(e).len()) matches Some(
            (value, replies),
        ) && {
            let (r, after) = eval_of(e, entry, now, fresh(replies));
            r == Ok::<bool, Request>(value) && after.replies.len() == 0
        },
{
    replies_are_used_in_order(e, entry, now, fresh(Seq::empty()));
    lemma_driving_ends(e, entry, now, system, Seq::empty(), 2 * leaves(e).len());
}

proof fn lemma_driving_ends(
    e: Expr,
    entry: Entry,
    now: Timestamp,
    system: spec_fn(Seq<Reply>, Request) -> Reply,
    replies: Seq<Reply>,
    turns: nat,
)
    requires
        forall|replies: Seq<Reply>, request: Request|
            answers(#[trigger] system(replies, request), request),
        eval_of(e, entry, now, fresh(replies)).1.replies.len() == 0,
        replies.len() + turns == 2 * leaves(e).len(),
    ensures
        driven(e, entry, now, system, replies, turns) matches Some((value, all)) && {
            let (r, after) = eval_of(e, entry, now, fresh(all));
            r == Ok::<bool, Request>(value) && after.replies.len() == 0
        },
    decreases turns,
{
    requests_are_bounded(e, entry, now, fresh(replies));
    if let Err(request) = eval_of(e, entry, now, fresh(replies)).0 {
        let reply = system(replies, request);
        assert(fresh(replies).with_more(seq![reply]) == fresh(replies.push(reply))) by {
            assert(replies + seq![reply] =~= replies.push(reply));
        }
        a_reply_carries_on(e, entry, now, fresh(replies), request, reply);
        lemma_driving_ends(
            e,
            entry,
            now,
            system,
            replies.push(reply),
            (turns - 1) as nat,
        );
    }
}

/// An expression without a predicate that prints or deletes asks for neither, and marks no output.
pub proof fn quiet_without_output(e: Expr, entry: Entry, now: Timestamp, run: Run)
    requires
        !any_output(leaves(e)),
    ensures
        ({
            let (r, after) = eval_of(e, entry, now, run);
            &&& after.did_print == run.did_print
            &&& r matches Err(q) ==> q == Request::Metadata || q == Request::FirstChild
        }),
    decreases e,
{
    match e {
        Expr::And(l, r) | Expr::Or(l, r) => {
            let all = leaves(*l) + leaves(*r);
            assert forall|i: int| 0 <= i < leaves(*l).len() implies !is_output(
                #[trigger] leaves(*l)[i],
            ) by {
                assert(all[i] == leaves(*l)[i]);
            }
            assert forall|i: int| 0 <= i < leaves(*r).len() implies !is_output(
                #[trigger] leaves(*r)[i],
            ) by {
                assert(all[leaves(*l).len() + i] == leaves(*r)[i]);
            }
            quiet_without_output(*l, entry, now, run);
            quiet_without_output(*r, entry, now, eval_of(*l, entry, now, run).1);
        },
        Expr::Not(inner) => {
            quiet_without_output(*inner, entry, now, run);
        },
        _ => {
            assert(leaves(e)[0] == e);
        },
    }
}

/// `e` with the `-print` that is added to an expression without output.
pub open spec fn printing(e: Expr) -> Expr {
    Expr::And(Box::new(e), Box::new(Expr::Print { null: false }))
}

/// With the added `-print`, an entry is printed where the expression holds of it, and not where it
/// does not.
pub proof fn default_print_follows_value(e: Expr, entry: Entry, now: Timestamp, run: Run)
    ensures
        ({
            let (r, after) = eval_of(e, entry, now, run);
            &&& r == Ok::<bool, Request>(true) && !after.has(Request::Print { null: false })
                ==> eval_of(printing(e), entry, now, run) == (
                Err::<bool, Request>(Request::Print { null: false }),
                after,
            )
            &&& r == Ok::<bool, Request>(true) && after.has(Request::Print { null: false })
                ==> eval_of(printing(e), entry, now, run) == (
                Ok::<bool, Request>(true),
                after.advance().output(),
            )
            &&& r != Ok::<bool, Request>(true) ==> eval_of(printing(e), entry, now, run) == (
                r,
                after,
            )
        }),
{
    reveal_with_fuel(eval_of, 3);
}

/// The conjunction of `l` and `r`.
pub open spec fn both(l: Expr, r: Expr) -> Expr {
    Expr::And(Box::new(l), Box::new(r))
}

/// The disjunction of `l` and `r`.
pub open spec fn either(l: Expr, r: Expr) -> Expr {
    Expr::Or(Box::new(l), Box::new(r))
}

/// The negation of `e`.
pub open spec fn negation(e: Expr) -> Expr {
    Expr::Not(Box::new(e))
}

/// A conjunction whose first operand is false, and a disjunction whose first operand is true, have
/// their value from it: the second operand asks for nothing and does nothing.
pub proof fn operators_short_circuit(l: Expr, r: Expr, entry: Entry, now: Timestamp, run: Run)
    ensures
        eval_of(l, entry, now, run).0 == Ok::<bool, Request>(false) ==> eval_of(
            both(l, r),
            entry,
            now,
            run,
        ) == eval_of(l, entry, now, run),
        eval_of(l, entry, now, run).0 == Ok::<bool, Request>(true) ==> eval_of(
            either(l, r),
            entry,
            now,
            run,
        ) == eval_of(l, entry, now, run),
{
    reveal_with_fuel(eval_of, 2);
}

/// How operands in a row are grouped makes no difference, to the value or to what is done.
pub proof fn operators_associate(
    a: Expr,
    b: Expr,
    c: Expr,
    entry: Entry,
    now: Timestamp,
    run: Run,
)
    ensures
        eval_of(both(both(a, b), c), entry, now, run) == eval_of(
            both(a, both(b, c)),
            entry,
            now,
            run,
        ),
        eval_of(either(either(a, b), c), entry, now, run) == eval_of(
            either(a, either(b, c)),
            entry,
            now,
            run,
        ),
{
    reveal_with_fuel(eval_of, 3);
}

/// Negation turns a conjunction into the disjunction of the negations, and the other way round, and
/// undoes itself; in value and in what is done.
pub proof fn negation_dualizes(a: Expr, b: Expr, entry: Entry, now: Timestamp, run: Run)
    ensures
        eval_of(negation(both(a, b)), entry, now, run) == eval_of(
            either(negation(a), negation(b)),
            entry,
            now,
            run,
        ),
        eval_of(negation(either(a, b)), entry, now, run) == eval_of(
            both(negation(a), negation(b)),
            entry,
            now,
            run,
        ),
        eval_of(negation(negation(a)), entry, now, run) == eval_of(a, entry, now, run),
{
    reveal_with_fuel(eval_of, 3);
}

} // verus!
