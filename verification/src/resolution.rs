//! Resolution of pending requests over whole runs of the delivery path.
//!
//! A run is a sequence of dispatcher steps: deliveries of classified
//! messages and cancellations. The laws here say that a pending request is
//! completed at most once over any run, and exactly once over a run in
//! which the worker's termination is delivered.
use vstd::prelude::*;

use crate::classify::ClassifiedView;
use crate::dispatch::DeliveryView;
use crate::dispatch::DispatchView;
use crate::dispatch::spec_cancel;
use crate::dispatch::spec_event_deliveries;
use crate::dispatch::spec_publish;
use crate::dispatch::spec_terminated_notifies;
use crate::dispatch::spec_termination_completions;
use crate::dispatch::lemma_remove_id_contains;
use crate::dispatch::lemma_remove_id_distinct;

verus! {

/// One step of the delivery path: a classified message is published, or a
/// pending request is cancelled by timeout or by its caller.
pub ghost enum ActionView {
    Deliver { m: ClassifiedView },
    Cancel { id: u64 },
}

/// What one step does to the dispatcher, and the deliveries it emits.
pub open spec fn spec_step(d: DispatchView, a: ActionView) -> (DispatchView, Seq<DeliveryView>) {
    match a {
        ActionView::Deliver { m } => spec_publish(d, m),
        ActionView::Cancel { id } => {
            let (d2, out) = spec_cancel(d, id);
            match out {
                Some(c) => (d2, seq![c]),
                None => (d2, Seq::empty()),
            }
        },
    }
}

/// A whole run: the steps applied in order, their deliveries concatenated.
pub open spec fn spec_run(d: DispatchView, acts: Seq<ActionView>) -> (
    DispatchView,
    Seq<DeliveryView>,
)
    decreases acts.len(),
{
    if acts.len() == 0 {
        (d, Seq::empty())
    } else {
        let (d1, out1) = spec_run(d, acts.drop_last());
        let (d2, out2) = spec_step(d1, acts.last());
        (d2, out1 + out2)
    }
}

/// How many deliveries complete the request `id`.
pub open spec fn completions_for(out: Seq<DeliveryView>, id: u64) -> nat
    decreases out.len(),
{
    if out.len() == 0 {
        0
    } else {
        completions_for(out.drop_last(), id) + (if out.last() matches DeliveryView::Complete {
            id: i,
            ..
        } && i == id {
            1nat
        } else {
            0nat
        })
    }
}

/// One as a count of a pending request's presence.
pub open spec fn count_pending(d: DispatchView, id: u64) -> nat {
    if d.pending.contains(id) {
        1nat
    } else {
        0nat
    }
}

/// What a single delivery counts for.
proof fn lemma_completions_single(c: DeliveryView, id: u64)
    ensures
        completions_for(seq![c], id) == (if c matches DeliveryView::Complete { id: i, .. } && i
            == id {
            1nat
        } else {
            0nat
        }),
{
    assert(seq![c].drop_last() =~= Seq::<DeliveryView>::empty());
    assert(seq![c].last() == c);
    assert(completions_for(Seq::<DeliveryView>::empty(), id) == 0);
}

/// Counting completions distributes over concatenation.
pub proof fn lemma_completions_concat(a: Seq<DeliveryView>, b: Seq<DeliveryView>, id: u64)
    ensures
        completions_for(a + b, id) == completions_for(a, id) + completions_for(b, id),
    decreases b.len(),
{
    if b.len() == 0 {
        assert(a + b =~= a);
    } else {
        lemma_completions_concat(a, b.drop_last(), id);
        assert((a + b).drop_last() =~= a + b.drop_last());
        assert((a + b).last() == b.last());
    }
}

/// Event notifications complete no request.
pub proof fn lemma_event_deliveries_complete_nothing(
    subs: Seq<crate::dispatch::SubView>,
    name: Seq<char>,
    data: Option<Seq<char>>,
    id: u64,
)
    ensures
        completions_for(spec_event_deliveries(subs, name, data), id) == 0,
    decreases subs.len(),
{
    if subs.len() > 0 {
        lemma_event_deliveries_complete_nothing(subs.drop_last(), name, data, id);
        if subs.last().name == name {
            let rec = spec_event_deliveries(subs.drop_last(), name, data);
            let whole = rec.push(DeliveryView::Notify { token: subs.last().token, name, data });
            assert(whole.drop_last() =~= rec);
        }
    }
}

/// Terminated-channel notifications complete no request.
pub proof fn lemma_terminated_notifies_complete_nothing(
    subs: Seq<crate::dispatch::SubView>,
    exit_code: Option<i32>,
    id: u64,
)
    ensures
        completions_for(spec_terminated_notifies(subs, exit_code), id) == 0,
    decreases subs.len(),
{
    if subs.len() > 0 {
        lemma_terminated_notifies_complete_nothing(subs.drop_last(), exit_code, id);
        if subs.last().name == "terminated"@ {
            let rec = spec_terminated_notifies(subs.drop_last(), exit_code);
            let whole = rec.push(
                DeliveryView::NotifyTerminated { token: subs.last().token, exit_code },
            );
            assert(whole.drop_last() =~= rec);
        }
    }
}

/// Termination completes a pending request exactly once, and no other.
pub proof fn lemma_termination_completions_count(
    pending: Seq<u64>,
    exit_code: Option<i32>,
    id: u64,
)
    requires
        crate::dispatch::distinct_ids(pending),
    ensures
        completions_for(spec_termination_completions(pending, exit_code), id) == (
        if pending.contains(id) {
            1nat
        } else {
            0nat
        }),
    decreases pending.len(),
{
    broadcast use vstd::seq_lib::lemma_seq_contains_after_push;

    if pending.len() > 0 {
        assert(crate::dispatch::distinct_ids(pending.drop_last()));
        lemma_termination_completions_count(pending.drop_last(), exit_code, id);
        let rec = spec_termination_completions(pending.drop_last(), exit_code);
        let whole = rec.push(
            DeliveryView::Complete {
                id: pending.last(),
                outcome: crate::dispatch::OutcomeView::WorkerTerminated { exit_code },
            },
        );
        assert(whole.drop_last() =~= rec);
        assert(pending.drop_last().push(pending.last()) =~= pending);
        if pending.last() == id {
            assert(!pending.drop_last().contains(id)) by {
                if pending.drop_last().contains(id) {
                    let k = choose|k: int|
                        0 <= k < pending.drop_last().len() && pending.drop_last()[k] == id;
                    assert(pending[k] == pending[pending.len() - 1]);
                }
            }
        }
    } else {
        assert(!pending.contains(id));
    }
}

/// Over one step, a request's completions plus its remaining presence
/// account exactly for its presence before; the tables stay well-formed
/// and only the pending table changes.
pub proof fn lemma_step_resolution(d: DispatchView, a: ActionView, id: u64)
    requires
        d.wf(),
    ensures
        spec_step(d, a).0.wf(),
        spec_step(d, a).0.subs == d.subs,
        spec_step(d, a).0.next_token == d.next_token,
        completions_for(spec_step(d, a).1, id) + count_pending(spec_step(d, a).0, id)
            == count_pending(d, id),
{
    match a {
        ActionView::Deliver { m } => match m {
            ClassifiedView::Event { name, data } => {
                lemma_event_deliveries_complete_nothing(d.subs, name, data, id);
            },
            ClassifiedView::Reply { id: rid, value } => {
                lemma_complete_resolution(
                    d,
                    rid,
                    crate::dispatch::OutcomeView::Fulfilled { value },
                    id,
                );
            },
            ClassifiedView::Failure { id: rid, message } => {
                lemma_complete_resolution(
                    d,
                    rid,
                    crate::dispatch::OutcomeView::Rejected { message },
                    id,
                );
            },
            ClassifiedView::Terminated { exit_code } => {
                lemma_termination_completions_count(d.pending, exit_code, id);
                lemma_terminated_notifies_complete_nothing(d.subs, exit_code, id);
                lemma_completions_concat(
                    spec_termination_completions(d.pending, exit_code),
                    spec_terminated_notifies(d.subs, exit_code),
                    id,
                );
                assert(!spec_step(d, a).0.pending.contains(id));
            },
        },
        ActionView::Cancel { id: cid } => {
            if d.pending.contains(cid) {
                lemma_remove_id_distinct(d.pending, cid);
                lemma_remove_id_contains(d.pending, cid, id);
                let c = DeliveryView::Complete {
                    id: cid,
                    outcome: crate::dispatch::OutcomeView::TimedOut,
                };
                lemma_completions_single(c, id);
            }
        },
    }
}

/// The single-step accounting for a correlated reply or error.
proof fn lemma_complete_resolution(
    d: DispatchView,
    rid: Option<u64>,
    oc: crate::dispatch::OutcomeView,
    id: u64,
)
    requires
        d.wf(),
    ensures
        crate::dispatch::spec_complete(d, rid, oc).0.wf(),
        crate::dispatch::spec_complete(d, rid, oc).0.subs == d.subs,
        crate::dispatch::spec_complete(d, rid, oc).0.next_token == d.next_token,
        completions_for(crate::dispatch::spec_complete(d, rid, oc).1, id) + count_pending(
            crate::dispatch::spec_complete(d, rid, oc).0,
            id,
        ) == count_pending(d, id),
{
    match rid {
        Some(i) => {
            if d.pending.contains(i) {
                lemma_remove_id_distinct(d.pending, i);
                lemma_remove_id_contains(d.pending, i, id);
                let c = DeliveryView::Complete { id: i, outcome: oc };
                lemma_completions_single(c, id);
            } else {
                let c = DeliveryView::Dropped { correlation: Some(i) };
                lemma_completions_single(c, id);
            }
        },
        None => {
            let none_id: Option<u64> = None;
            let c = DeliveryView::Dropped { correlation: none_id };
            lemma_completions_single(c, id);
        },
    }
}

/// Over a whole run, a request's completions plus its remaining presence
/// account exactly for its presence before the run. In particular a
/// request is never completed twice.
pub proof fn lemma_run_resolution(d: DispatchView, acts: Seq<ActionView>, id: u64)
    requires
        d.wf(),
    ensures
        spec_run(d, acts).0.wf(),
        spec_run(d, acts).0.subs == d.subs,
        spec_run(d, acts).0.next_token == d.next_token,
        completions_for(spec_run(d, acts).1, id) + count_pending(spec_run(d, acts).0, id)
            == count_pending(d, id),
    decreases acts.len(),
{
    if acts.len() > 0 {
        lemma_run_resolution(d, acts.drop_last(), id);
        let (d1, out1) = spec_run(d, acts.drop_last());
        lemma_step_resolution(d1, acts.last(), id);
        let (d2, out2) = spec_step(d1, acts.last());
        lemma_completions_concat(out1, out2, id);
    }
}

/// A pending request is completed at most once over any run of the
/// delivery path — never a second fulfilment, error, timeout or
/// termination failure for the same identifier.
pub proof fn lemma_at_most_one_completion(d: DispatchView, acts: Seq<ActionView>, id: u64)
    requires
        d.wf(),
    ensures
        completions_for(spec_run(d, acts).1, id) <= 1,
{
    lemma_run_resolution(d, acts, id);
}

/// A run splits: running the concatenation of two action sequences is
/// running them one after the other.
pub proof fn lemma_run_append(d: DispatchView, a: Seq<ActionView>, b: Seq<ActionView>)
    ensures
        spec_run(d, a + b).0 == spec_run(spec_run(d, a).0, b).0,
        spec_run(d, a + b).1 == spec_run(d, a).1 + spec_run(spec_run(d, a).0, b).1,
    decreases b.len(),
{
    if b.len() == 0 {
        assert(a + b =~= a);
        assert(spec_run(d, a).1 + Seq::<DeliveryView>::empty() =~= spec_run(d, a).1);
    } else {
        lemma_run_append(d, a, b.drop_last());
        assert((a + b).drop_last() =~= a + b.drop_last());
        assert((a + b).last() == b.last());
        assert((a + b).len() > 0);
        let mid = spec_run(d, a).0;
        let out_a = spec_run(d, a).1;
        let out_mid = spec_run(mid, b.drop_last()).1;
        let last_out = spec_step(spec_run(mid, b.drop_last()).0, b.last()).1;
        assert(out_a + out_mid + last_out =~= out_a + (out_mid + last_out));
    }
}

/// Whether one step delivers the worker's termination notice.
pub open spec fn is_termination_step(a: ActionView) -> bool {
    a matches ActionView::Deliver { m } && m is Terminated
}

/// Whether some step of a run delivers the worker's termination notice.
pub open spec fn has_termination(acts: Seq<ActionView>) -> bool {
    exists|k: int| 0 <= k < acts.len() && is_termination_step(#[trigger] acts[k])
}

/// If a run delivers the worker's termination, a request pending at its
/// start is completed exactly once: by its reply, its error, a timeout or
/// the termination failure — never zero times, never more than once.
pub proof fn lemma_termination_resolves_exactly_once(
    d: DispatchView,
    acts: Seq<ActionView>,
    id: u64,
)
    requires
        d.wf(),
        d.pending.contains(id),
        has_termination(acts),
    ensures
        completions_for(spec_run(d, acts).1, id) == 1,
{
    lemma_run_resolution(d, acts, id);
    let k = choose|k: int| 0 <= k < acts.len() && is_termination_step(#[trigger] acts[k]);
    let front = acts.take(k + 1);
    let back = acts.skip(k + 1);
    assert(front + back =~= acts);
    lemma_run_append(d, front, back);
    lemma_run_resolution(d, front.drop_last(), id);
    assert(front.last() == acts[k]);
    let d1 = spec_run(d, front.drop_last()).0;
    let m = acts[k]->m;
    assert(spec_step(d1, acts[k]) == spec_publish(d1, m));
    assert(spec_publish(d1, m).0.pending =~= Seq::<u64>::empty());
    let d2 = spec_step(d1, acts[k]).0;
    assert(!d2.pending.contains(id));
    lemma_step_resolution(d1, acts[k], id);
    assert(spec_run(d, front).0 == d2);
    lemma_run_resolution(d2, back, id);
    assert(spec_run(d, acts).0 == spec_run(d2, back).0);
    assert(count_pending(spec_run(d, acts).0, id) == 0);
}

/// Replies correlate by identifier alone: with two distinct requests
/// pending, delivering their replies in either order completes each with
/// its own payload, whichever arrives first.
pub proof fn lemma_correlation_order_independent(
    d: DispatchView,
    a: u64,
    b: u64,
    va: Seq<char>,
    vb: Seq<char>,
)
    requires
        d.wf(),
        d.pending.contains(a),
        d.pending.contains(b),
        a != b,
    ensures
        ({
            let (d1, out1) = spec_publish(d, ClassifiedView::Reply { id: Some(b), value: vb });
            let (d2, out2) = spec_publish(d1, ClassifiedView::Reply { id: Some(a), value: va });
            &&& out1 == seq![
                DeliveryView::Complete {
                    id: b,
                    outcome: crate::dispatch::OutcomeView::Fulfilled { value: vb },
                },
            ]
            &&& out2 == seq![
                DeliveryView::Complete {
                    id: a,
                    outcome: crate::dispatch::OutcomeView::Fulfilled { value: va },
                },
            ]
        }),
{
    lemma_remove_id_contains(d.pending, b, a);
}

/// How many deliveries notify the terminated channel's subscriber `token`.
pub open spec fn terminated_notifies_for(out: Seq<DeliveryView>, token: u64) -> nat
    decreases out.len(),
{
    if out.len() == 0 {
        0
    } else {
        terminated_notifies_for(out.drop_last(), token) + (
        if out.last() matches DeliveryView::NotifyTerminated { token: t, .. } && t == token {
            1nat
        } else {
            0nat
        })
    }
}

/// Whether a subscriber holding `token` watches the terminated channel.
pub open spec fn watches_terminated(subs: Seq<crate::dispatch::SubView>, token: u64) -> bool {
    exists|k: int|
        0 <= k < subs.len() && (#[trigger] subs[k]).token == token && subs[k].name
            == "terminated"@
}

/// Counting terminated-channel notifications distributes over
/// concatenation.
proof fn lemma_terminated_notifies_for_concat(
    a: Seq<DeliveryView>,
    b: Seq<DeliveryView>,
    token: u64,
)
    ensures
        terminated_notifies_for(a + b, token) == terminated_notifies_for(a, token)
            + terminated_notifies_for(b, token),
    decreases b.len(),
{
    if b.len() == 0 {
        assert(a + b =~= a);
    } else {
        lemma_terminated_notifies_for_concat(a, b.drop_last(), token);
        assert((a + b).drop_last() =~= a + b.drop_last());
        assert((a + b).last() == b.last());
    }
}

/// Termination completions notify no subscriber.
proof fn lemma_termination_completions_notify_nothing(
    pending: Seq<u64>,
    exit_code: Option<i32>,
    token: u64,
)
    ensures
        terminated_notifies_for(spec_termination_completions(pending, exit_code), token) == 0,
    decreases pending.len(),
{
    if pending.len() > 0 {
        lemma_termination_completions_notify_nothing(pending.drop_last(), exit_code, token);
        let rec = spec_termination_completions(pending.drop_last(), exit_code);
        let whole = rec.push(
            DeliveryView::Complete {
                id: pending.last(),
                outcome: crate::dispatch::OutcomeView::WorkerTerminated { exit_code },
            },
        );
        assert(whole.drop_last() =~= rec);
    }
}

/// With distinct tokens, the terminated channel's notifications name each
/// watching subscriber exactly once.
proof fn lemma_terminated_notifies_count(
    subs: Seq<crate::dispatch::SubView>,
    exit_code: Option<i32>,
    token: u64,
)
    requires
        forall|i: int, j: int| 0 <= i < j < subs.len() ==> subs[i].token != subs[j].token,
    ensures
        terminated_notifies_for(spec_terminated_notifies(subs, exit_code), token) == (
        if watches_terminated(subs, token) {
            1nat
        } else {
            0nat
        }),
    decreases subs.len(),
{
    if subs.len() > 0 {
        lemma_terminated_notifies_count(subs.drop_last(), exit_code, token);
        let rec = spec_terminated_notifies(subs.drop_last(), exit_code);
        if subs.last().name == "terminated"@ {
            let whole = rec.push(
                DeliveryView::NotifyTerminated { token: subs.last().token, exit_code },
            );
            assert(whole.drop_last() =~= rec);
        }
        assert(watches_terminated(subs, token) <==> (watches_terminated(subs.drop_last(), token)
            || (subs.last().token == token && subs.last().name == "terminated"@))) by {
            if watches_terminated(subs, token) {
                let k = choose|k: int|
                    0 <= k < subs.len() && (#[trigger] subs[k]).token == token && subs[k].name
                        == "terminated"@;
                if k < subs.len() - 1 {
                    assert(subs.drop_last()[k] == subs[k]);
                } else {
                    assert(subs[k] == subs.last());
                }
            }
            if watches_terminated(subs.drop_last(), token) {
                let k = choose|k: int|
                    0 <= k < subs.drop_last().len() && (#[trigger] subs.drop_last()[k]).token
                        == token && subs.drop_last()[k].name == "terminated"@;
                assert(subs[k] == subs.drop_last()[k]);
            }
            if subs.last().token == token && subs.last().name == "terminated"@ {
                assert(subs[subs.len() - 1] == subs.last());
            }
        }
        if subs.last().token == token && watches_terminated(subs.drop_last(), token) {
            let k = choose|k: int|
                0 <= k < subs.drop_last().len() && (#[trigger] subs.drop_last()[k]).token == token
                    && subs.drop_last()[k].name == "terminated"@;
            assert(subs[k].token == subs[subs.len() - 1].token);
        }
    }
}

/// Worker termination notifies every subscriber of the reserved terminated
/// channel exactly once, and nobody else.
pub proof fn lemma_termination_notifies_once(d: DispatchView, exit_code: Option<i32>, token: u64)
    requires
        d.wf(),
    ensures
        terminated_notifies_for(
            spec_publish(d, ClassifiedView::Terminated { exit_code }).1,
            token,
        ) == (if watches_terminated(d.subs, token) {
            1nat
        } else {
            0nat
        }),
{
    lemma_termination_completions_notify_nothing(d.pending, exit_code, token);
    lemma_terminated_notifies_count(d.subs, exit_code, token);
    lemma_terminated_notifies_for_concat(
        spec_termination_completions(d.pending, exit_code),
        spec_terminated_notifies(d.subs, exit_code),
        token,
    );
}

} // verus!
