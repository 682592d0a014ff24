//! Fan-out dispatch: routing classified messages to event subscribers and
//! pending requests, exactly once per message, in registration order.
use vstd::prelude::*;

use crate::classify::ClassifiedMessage;
use crate::classify::ClassifiedView;

verus! {

/// A consumer's registration for a named event. The dispatcher invokes the
/// holder of `token` for each matching event, in registration order.
#[derive(Debug, Clone, PartialEq, Eq)]
pub struct Subscription {
    pub token: u64,
    pub name: String,
}

/// Mathematical model of a `Subscription`.
pub ghost struct SubView {
    pub token: u64,
    pub name: Seq<char>,
}

impl View for Subscription {
    type V = SubView;

    open spec fn view(&self) -> SubView {
        SubView { token: self.token, name: self.name@ }
    }
}

/// How a pending request ends: with the worker's result, with the worker's
/// error, by timeout or cancellation, or because the worker terminated.
#[derive(Debug, Clone, PartialEq, Eq)]
pub enum Outcome {
    Fulfilled { value: String },
    Rejected { message: String },
    WorkerTerminated { exit_code: Option<i32> },
    TimedOut,
}

/// Mathematical model of an `Outcome`.
pub ghost enum OutcomeView {
    Fulfilled { value: Seq<char> },
    Rejected { message: Seq<char> },
    WorkerTerminated { exit_code: Option<i32> },
    TimedOut,
}

impl View for Outcome {
    type V = OutcomeView;

    open spec fn view(&self) -> OutcomeView {
        match self {
            Outcome::Fulfilled { value } => OutcomeView::Fulfilled { value: value@ },
            Outcome::Rejected { message } => OutcomeView::Rejected { message: message@ },
            Outcome::WorkerTerminated { exit_code } => OutcomeView::WorkerTerminated {
                exit_code: *exit_code,
            },
            Outcome::TimedOut => OutcomeView::TimedOut,
        }
    }
}

/// One delivery obligation that a publish step leaves to the caller: invoke
/// a subscriber, complete a pending request, or log a dropped message.
#[derive(Debug, Clone, PartialEq, Eq)]
pub enum Delivery {
    /// Invoke the subscriber holding `token` with an event's payload.
    Notify { token: u64, name: String, data: Option<String> },
    /// Tell a subscriber of the reserved terminated channel that the worker
    /// exited.
    NotifyTerminated { token: u64, exit_code: Option<i32> },
    /// Complete the pending request `id` with its one outcome.
    Complete { id: u64, outcome: Outcome },
    /// A result or error arrived for an unknown or absent correlation
    /// identifier; the message is dropped with a diagnostic.
    Dropped { correlation: Option<u64> },
}

/// Mathematical model of a `Delivery`.
pub ghost enum DeliveryView {
    Notify { token: u64, name: Seq<char>, data: Option<Seq<char>> },
    NotifyTerminated { token: u64, exit_code: Option<i32> },
    Complete { id: u64, outcome: OutcomeView },
    Dropped { correlation: Option<u64> },
}

impl View for Delivery {
    type V = DeliveryView;

    open spec fn view(&self) -> DeliveryView {
        match self {
            Delivery::Notify { token, name, data } => DeliveryView::Notify {
                token: *token,
                name: name@,
                data: crate::wire::view_opt_str(*data),
            },
            Delivery::NotifyTerminated { token, exit_code } => DeliveryView::NotifyTerminated {
                token: *token,
                exit_code: *exit_code,
            },
            Delivery::Complete { id, outcome } => DeliveryView::Complete {
                id: *id,
                outcome: outcome@,
            },
            Delivery::Dropped { correlation } => DeliveryView::Dropped { correlation: *correlation },
        }
    }
}

/// Model of a batch of subscriptions.
pub open spec fn views_of_subs(s: Seq<Subscription>) -> Seq<SubView> {
    s.map_values(|x: Subscription| x@)
}

/// Model of a batch of deliveries.
pub open spec fn views_of_deliveries(s: Seq<Delivery>) -> Seq<DeliveryView> {
    s.map_values(|x: Delivery| x@)
}

/// Mathematical model of a `Dispatcher`.
pub ghost struct DispatchView {
    pub pending: Seq<u64>,
    pub subs: Seq<SubView>,
    pub next_token: u64,
}

impl DispatchView {
    /// Well-formedness: pending identifiers are distinct, and subscription
    /// tokens are distinct and below the next token to be handed out.
    pub open spec fn wf(self) -> bool {
        &&& distinct_ids(self.pending)
        &&& (forall|i: int| 0 <= i < self.subs.len() ==> #[trigger] self.subs[i].token
            < self.next_token)
        &&& (forall|i: int, j: int|
            0 <= i < j < self.subs.len() ==> self.subs[i].token != self.subs[j].token)
    }
}

/// No identifier occurs twice.
pub open spec fn distinct_ids(p: Seq<u64>) -> bool {
    forall|i: int, j: int| 0 <= i < j < p.len() ==> p[i] != p[j]
}

/// The pending set with every occurrence of `id` removed, order kept.
pub open spec fn spec_remove_id(p: Seq<u64>, id: u64) -> Seq<u64>
    decreases p.len(),
{
    if p.len() == 0 {
        Seq::empty()
    } else if p.last() == id {
        spec_remove_id(p.drop_last(), id)
    } else {
        spec_remove_id(p.drop_last(), id).push(p.last())
    }
}

/// The notifications an event produces: one per subscriber of its name, in
/// registration order.
pub open spec fn spec_event_deliveries(
    subs: Seq<SubView>,
    name: Seq<char>,
    data: Option<Seq<char>>,
) -> Seq<DeliveryView>
    decreases subs.len(),
{
    if subs.len() == 0 {
        Seq::empty()
    } else if subs.last().name == name {
        spec_event_deliveries(subs.drop_last(), name, data).push(
            DeliveryView::Notify { token: subs.last().token, name, data },
        )
    } else {
        spec_event_deliveries(subs.drop_last(), name, data)
    }
}

/// The completions worker termination produces: one per outstanding
/// request, in registration order.
pub open spec fn spec_termination_completions(
    pending: Seq<u64>,
    exit_code: Option<i32>,
) -> Seq<DeliveryView>
    decreases pending.len(),
{
    if pending.len() == 0 {
        Seq::empty()
    } else {
        spec_termination_completions(pending.drop_last(), exit_code).push(
            DeliveryView::Complete {
                id: pending.last(),
                outcome: OutcomeView::WorkerTerminated { exit_code },
            },
        )
    }
}

/// The notifications worker termination produces for subscribers of the
/// reserved terminated channel, in registration order.
pub open spec fn spec_terminated_notifies(
    subs: Seq<SubView>,
    exit_code: Option<i32>,
) -> Seq<DeliveryView>
    decreases subs.len(),
{
    if subs.len() == 0 {
        Seq::empty()
    } else if subs.last().name == "terminated"@ {
        spec_terminated_notifies(subs.drop_last(), exit_code).push(
            DeliveryView::NotifyTerminated { token: subs.last().token, exit_code },
        )
    } else {
        spec_terminated_notifies(subs.drop_last(), exit_code)
    }
}

/// Completing a correlated reply or error: fulfil and remove the matching
/// pending request, or drop the message when the identifier is unknown.
pub open spec fn spec_complete(d: DispatchView, id: Option<u64>, oc: OutcomeView) -> (
    DispatchView,
    Seq<DeliveryView>,
) {
    match id {
        Some(i) => if d.pending.contains(i) {
            (
                DispatchView {
                    pending: spec_remove_id(d.pending, i),
                    subs: d.subs,
                    next_token: d.next_token,
                },
                seq![DeliveryView::Complete { id: i, outcome: oc }],
            )
        } else {
            (d, seq![DeliveryView::Dropped { correlation: Some(i) }])
        },
        None => (d, seq![DeliveryView::Dropped { correlation: None }]),
    }
}

/// What publishing one classified message does to the dispatcher, and the
/// deliveries it obliges, in order.
pub open spec fn spec_publish(d: DispatchView, m: ClassifiedView) -> (
    DispatchView,
    Seq<DeliveryView>,
) {
    match m {
        ClassifiedView::Event { name, data } => (d, spec_event_deliveries(d.subs, name, data)),
        ClassifiedView::Reply { id, value } => spec_complete(
            d,
            id,
            OutcomeView::Fulfilled { value },
        ),
        ClassifiedView::Failure { id, message } => spec_complete(
            d,
            id,
            OutcomeView::Rejected { message },
        ),
        ClassifiedView::Terminated { exit_code } => (
            DispatchView { pending: Seq::empty(), subs: d.subs, next_token: d.next_token },
            spec_termination_completions(d.pending, exit_code) + spec_terminated_notifies(
                d.subs,
                exit_code,
            ),
        ),
    }
}

/// Cancelling a pending request, by timeout or by its caller: the request
/// is completed as timed out; cancelling an unknown identifier does
/// nothing.
pub open spec fn spec_cancel(d: DispatchView, id: u64) -> (DispatchView, Option<DeliveryView>) {
    if d.pending.contains(id) {
        (
            DispatchView {
                pending: spec_remove_id(d.pending, id),
                subs: d.subs,
                next_token: d.next_token,
            },
            Some(DeliveryView::Complete { id, outcome: OutcomeView::TimedOut }),
        )
    } else {
        (d, None)
    }
}

/// Registering a subscription: appended, so that delivery order follows
/// registration order.
pub open spec fn spec_subscribe(d: DispatchView, name: Seq<char>) -> (DispatchView, u64) {
    (
        DispatchView {
            pending: d.pending,
            subs: d.subs.push(SubView { token: d.next_token, name }),
            next_token: (d.next_token + 1) as u64,
        },
        d.next_token,
    )
}

/// The subscriptions left after a token is cancelled, order kept.
pub open spec fn spec_without_token(subs: Seq<SubView>, token: u64) -> Seq<SubView>
    decreases subs.len(),
{
    if subs.len() == 0 {
        Seq::empty()
    } else if subs.last().token == token {
        spec_without_token(subs.drop_last(), token)
    } else {
        spec_without_token(subs.drop_last(), token).push(subs.last())
    }
}

/// Routes classified messages to pending requests and event subscribers.
/// Holds the pending-request and subscription tables; every publish returns
/// the exact delivery obligations it created, for the caller to perform.
pub struct Dispatcher {
    pending: Vec<u64>,
    subs: Vec<Subscription>,
    next_token: u64,
}

impl View for Dispatcher {
    type V = DispatchView;

    closed spec fn view(&self) -> DispatchView {
        DispatchView {
            pending: self.pending@,
            subs: views_of_subs(self.subs@),
            next_token: self.next_token,
        }
    }
}

/// Clones an optional payload string.
fn clone_opt_string(o: &Option<String>) -> (r: Option<String>)
    ensures
        crate::wire::view_opt_str(r) == crate::wire::view_opt_str(*o),
{
    match o {
        Some(s) => Some(s.clone()),
        None => None,
    }
}

impl Dispatcher {
    /// A dispatcher with no pending requests and no subscriptions.
    pub fn new() -> (d: Dispatcher)
        ensures
            d@ == (DispatchView { pending: Seq::empty(), subs: Seq::empty(), next_token: 0 }),
            d@.wf(),
    {
        let d = Dispatcher { pending: Vec::new(), subs: Vec::new(), next_token: 0 };
        proof {
            assert(views_of_subs(d.subs@) =~= Seq::<SubView>::empty());
        }
        d
    }

    /// Registers a subscription for a named event and hands back its
    /// token. The name "terminated" is the reserved channel notified when
    /// the worker exits.
    pub fn subscribe(&mut self, name: String) -> (token: u64)
        requires
            old(self)@.wf(),
            old(self)@.next_token < u64::MAX,
        ensures
            final(self)@.wf(),
            (final(self)@, token) == spec_subscribe(old(self)@, name@),
    {
        let token = self.next_token;
        self.subs.push(Subscription { token, name });
        self.next_token = self.next_token + 1;
        proof {
            assert(views_of_subs(self.subs@) =~= views_of_subs(old(self).subs@).push(
                SubView { token, name: name@ },
            ));
            let subs2 = self@.subs;
            assert forall|i: int| 0 <= i < subs2.len() implies #[trigger] subs2[i].token
                < self.next_token by {
                if i < subs2.len() - 1 {
                    assert(subs2[i] == old(self)@.subs[i]);
                }
            }
            assert forall|i: int, j: int|
                0 <= i < j < subs2.len() implies subs2[i].token != subs2[j].token by {
                assert(subs2[i] == old(self)@.subs[i]);
                if j < subs2.len() - 1 {
                    assert(subs2[j] == old(self)@.subs[j]);
                }
            }
        }
        token
    }

    /// Cancels the subscription holding a token; unknown tokens are ignored.
    pub fn unsubscribe(&mut self, token: u64)
        requires
            old(self)@.wf(),
        ensures
            final(self)@.wf(),
            final(self)@.subs == spec_without_token(old(self)@.subs, token),
            final(self)@.pending == old(self)@.pending,
            final(self)@.next_token == old(self)@.next_token,
    {
        let n = self.subs.len();
        let mut kept: Vec<Subscription> = Vec::new();
        proof {
            assert(views_of_subs(kept@) =~= spec_without_token(
                views_of_subs(self.subs@).take(0),
                token,
            ));
        }
        for j in 0..n
            invariant
                n == self.subs@.len(),
                views_of_subs(kept@) == spec_without_token(
                    views_of_subs(self.subs@).take(j as int),
                    token,
                ),
                views_of_subs(self.subs@) == old(self)@.subs,
                self.pending@ == old(self)@.pending,
                self.next_token == old(self)@.next_token,
        {
            proof {
                assert(views_of_subs(self.subs@).take(j + 1).drop_last() =~= views_of_subs(
                    self.subs@,
                ).take(j as int));
                assert(views_of_subs(self.subs@).take(j + 1).last() == self.subs@[j as int]@);
            }
            if self.subs[j].token != token {
                let ghost prev = views_of_subs(kept@);
                let s = &self.subs[j];
                kept.push(Subscription { token: s.token, name: s.name.clone() });
                proof {
                    assert(views_of_subs(kept@) =~= prev.push(self.subs@[j as int]@));
                }
            }
        }
        proof {
            assert(views_of_subs(self.subs@).take(n as int) =~= views_of_subs(self.subs@));
        }
        self.subs = kept;
        proof {
            lemma_without_token_wf(old(self)@.subs, token, old(self)@.next_token);
        }
    }

    /// Adds a pending request under a fresh identifier.
    pub fn register_pending(&mut self, id: u64)
        requires
            old(self)@.wf(),
            !old(self)@.pending.contains(id),
        ensures
            final(self)@.wf(),
            final(self)@.pending == old(self)@.pending.push(id),
            final(self)@.subs == old(self)@.subs,
            final(self)@.next_token == old(self)@.next_token,
    {
        self.pending.push(id);
        proof {
            assert forall|i: int, j: int|
                0 <= i < j < self.pending@.len() implies self.pending@[i] != self.pending@[j] by {
                assert(self.pending@[i] == old(self)@.pending[i]);
                if j == self.pending@.len() - 1 {
                    assert(old(self)@.pending.contains(old(self)@.pending[i]));
                } else {
                    assert(self.pending@[j] == old(self)@.pending[j]);
                }
            }
            assert(distinct_ids(self.pending@));
            assert(self@.pending =~= old(self)@.pending.push(id));
            assert(self@.subs == old(self)@.subs);
            assert(self@.wf());
        }
    }

    /// Whether a request identifier is outstanding.
    pub fn is_pending(&self, id: u64) -> (r: bool)
        ensures
            r == self@.pending.contains(id),
    {
        let n = self.pending.len();
        for j in 0..n
            invariant
                n == self.pending@.len(),
                forall|k: int| 0 <= k < j ==> self.pending@[k] != id,
        {
            if self.pending[j] == id {
                return true;
            }
        }
        false
    }

    /// Removes every occurrence of an identifier from the pending table,
    /// reporting whether it was there.
    fn remove_pending(&mut self, id: u64) -> (found: bool)
        ensures
            found == old(self)@.pending.contains(id),
            final(self)@.pending == spec_remove_id(old(self)@.pending, id),
            final(self)@.subs == old(self)@.subs,
            final(self)@.next_token == old(self)@.next_token,
    {
        let n = self.pending.len();
        let mut kept: Vec<u64> = Vec::new();
        let mut found = false;
        proof {
            assert(kept@ =~= spec_remove_id(self.pending@.take(0), id));
            assert(!self.pending@.take(0).contains(id));
        }
        for j in 0..n
            invariant
                n == self.pending@.len(),
                kept@ == spec_remove_id(self.pending@.take(j as int), id),
                found == self.pending@.take(j as int).contains(id),
                self.pending@ == old(self)@.pending,
                self@.subs == old(self)@.subs,
                self.next_token == old(self)@.next_token,
        {
            proof {
                assert(self.pending@.take(j + 1).drop_last() =~= self.pending@.take(j as int));
                assert(self.pending@.take(j + 1).last() == self.pending@[j as int]);
                vstd::seq_lib::lemma_seq_contains_after_push(
                    self.pending@.take(j as int),
                    self.pending@[j as int],
                    id,
                );
                assert(self.pending@.take(j as int).push(self.pending@[j as int])
                    =~= self.pending@.take(j + 1));
            }
            if self.pending[j] == id {
                found = true;
            } else {
                kept.push(self.pending[j]);
            }
        }
        proof {
            assert(self.pending@.take(n as int) =~= self.pending@);
        }
        self.pending = kept;
        found
    }

    /// Delivers one classified message: fulfils the matching pending
    /// request, or notifies every subscriber of the event's name in
    /// registration order, or — on worker termination — fails every
    /// outstanding request and notifies the reserved terminated channel.
    /// Returns exactly the delivery obligations created, in order.
    pub fn publish(&mut self, m: ClassifiedMessage) -> (out: Vec<Delivery>)
        requires
            old(self)@.wf(),
        ensures
            final(self)@.wf(),
            final(self)@ == spec_publish(old(self)@, m@).0,
            views_of_deliveries(out@) == spec_publish(old(self)@, m@).1,
    {
        match m {
            ClassifiedMessage::Event { name, data } => {
                let mut out: Vec<Delivery> = Vec::new();
                let n = self.subs.len();
                proof {
                    assert(views_of_deliveries(out@) =~= spec_event_deliveries(
                        self@.subs.take(0),
                        name@,
                        crate::wire::view_opt_str(data),
                    ));
                }
                for j in 0..n
                    invariant
                        n == self.subs@.len(),
                        views_of_deliveries(out@) == spec_event_deliveries(
                            self@.subs.take(j as int),
                            name@,
                            crate::wire::view_opt_str(data),
                        ),
                        self@ == old(self)@,
                {
                    proof {
                        assert(self@.subs.take(j + 1).drop_last() =~= self@.subs.take(j as int));
                        assert(self@.subs.take(j + 1).last() == self.subs@[j as int]@);
                    }
                    if self.subs[j].name == name {
                        let ghost prev = views_of_deliveries(out@);
                        out.push(
                            Delivery::Notify {
                                token: self.subs[j].token,
                                name: name.clone(),
                                data: clone_opt_string(&data),
                            },
                        );
                        proof {
                            assert(views_of_deliveries(out@) =~= prev.push(
                                DeliveryView::Notify {
                                    token: self.subs@[j as int]@.token,
                                    name: name@,
                                    data: crate::wire::view_opt_str(data),
                                },
                            ));
                        }
                    }
                }
                proof {
                    assert(self@.subs.take(n as int) =~= self@.subs);
                }
                out
            },
            ClassifiedMessage::Reply { id, value } => self.complete(
                id,
                Outcome::Fulfilled { value },
            ),
            ClassifiedMessage::Failure { id, message } => self.complete(
                id,
                Outcome::Rejected { message },
            ),
            ClassifiedMessage::Terminated { exit_code } => {
                let mut out: Vec<Delivery> = Vec::new();
                let n = self.pending.len();
                proof {
                    assert(views_of_deliveries(out@) =~= spec_termination_completions(
                        self@.pending.take(0),
                        exit_code,
                    ));
                }
                for j in 0..n
                    invariant
                        n == self.pending@.len(),
                        views_of_deliveries(out@) == spec_termination_completions(
                            self@.pending.take(j as int),
                            exit_code,
                        ),
                        self@ == old(self)@,
                {
                    proof {
                        assert(self@.pending.take(j + 1).drop_last() =~= self@.pending.take(
                            j as int,
                        ));
                        assert(self@.pending.take(j + 1).last() == self.pending@[j as int]);
                    }
                    let ghost prev = views_of_deliveries(out@);
                    out.push(
                        Delivery::Complete {
                            id: self.pending[j],
                            outcome: Outcome::WorkerTerminated { exit_code },
                        },
                    );
                    proof {
                        assert(views_of_deliveries(out@) =~= prev.push(
                            DeliveryView::Complete {
                                id: self.pending@[j as int],
                                outcome: OutcomeView::WorkerTerminated { exit_code },
                            },
                        ));
                    }
                }
                proof {
                    assert(self@.pending.take(n as int) =~= self@.pending);
                }
                let term = "terminated".to_owned();
                let ghost before_notifies = views_of_deliveries(out@);
                let ns = self.subs.len();
                for j in 0..ns
                    invariant
                        ns == self.subs@.len(),
                        term@ == "terminated"@,
                        views_of_deliveries(out@) == before_notifies + spec_terminated_notifies(
                            self@.subs.take(j as int),
                            exit_code,
                        ),
                        self@ == old(self)@,
                {
                    proof {
                        assert(self@.subs.take(j + 1).drop_last() =~= self@.subs.take(j as int));
                        assert(self@.subs.take(j + 1).last() == self.subs@[j as int]@);
                    }
                    if self.subs[j].name == term {
                        let ghost prev = views_of_deliveries(out@);
                        out.push(
                            Delivery::NotifyTerminated { token: self.subs[j].token, exit_code },
                        );
                        proof {
                            assert(views_of_deliveries(out@) =~= prev.push(
                                DeliveryView::NotifyTerminated {
                                    token: self.subs@[j as int]@.token,
                                    exit_code,
                                },
                            ));
                        }
                    }
                }
                proof {
                    assert(self@.subs.take(ns as int) =~= self@.subs);
                }
                self.pending = Vec::new();
                out
            },
        }
    }

    /// Fulfils or rejects the pending request a reply correlates to, or
    /// drops the reply when the identifier is unknown or absent.
    fn complete(&mut self, id: Option<u64>, oc: Outcome) -> (out: Vec<Delivery>)
        requires
            old(self)@.wf(),
        ensures
            final(self)@.wf(),
            final(self)@ == spec_complete(old(self)@, id, oc@).0,
            views_of_deliveries(out@) == spec_complete(old(self)@, id, oc@).1,
    {
        match id {
            Some(i) => {
                let found = self.remove_pending(i);
                proof {
                    lemma_remove_id_distinct(old(self)@.pending, i);
                }
                let mut out: Vec<Delivery> = Vec::new();
                if found {
                    out.push(Delivery::Complete { id: i, outcome: oc });
                    proof {
                        assert(views_of_deliveries(out@) =~= seq![
                            DeliveryView::Complete { id: i, outcome: oc@ },
                        ]);
                    }
                } else {
                    out.push(Delivery::Dropped { correlation: Some(i) });
                    proof {
                        lemma_remove_id_unchanged(old(self)@.pending, i);
                        assert(self@ == old(self)@);
                        assert(views_of_deliveries(out@) =~= seq![
                            DeliveryView::Dropped { correlation: Some(i) },
                        ]);
                    }
                }
                out
            },
            None => {
                let mut out: Vec<Delivery> = Vec::new();
                out.push(Delivery::Dropped { correlation: None });
                proof {
                    let ghost none_id: Option<u64> = None;
                    assert(views_of_deliveries(out@) =~= seq![
                        DeliveryView::Dropped { correlation: none_id },
                    ]);
                }
                out
            },
        }
    }

    /// Cancels a pending request, by timeout or caller cancellation; the
    /// returned completion, if any, is the request's one outcome.
    pub fn cancel(&mut self, id: u64) -> (out: Option<Delivery>)
        requires
            old(self)@.wf(),
        ensures
            final(self)@.wf(),
            final(self)@ == spec_cancel(old(self)@, id).0,
            (match out {
                Some(d) => Some(d@),
                None => None,
            }) == spec_cancel(old(self)@, id).1,
    {
        let found = self.remove_pending(id);
        proof {
            lemma_remove_id_distinct(old(self)@.pending, id);
            if !found {
                assert(spec_remove_id(old(self)@.pending, id) =~= old(self)@.pending) by {
                    lemma_remove_id_unchanged(old(self)@.pending, id);
                }
            }
        }
        if found {
            Some(Delivery::Complete { id, outcome: Outcome::TimedOut })
        } else {
            None
        }
    }
}

/// Removing an absent identifier leaves the pending set as it was.
pub proof fn lemma_remove_id_unchanged(p: Seq<u64>, id: u64)
    requires
        !p.contains(id),
    ensures
        spec_remove_id(p, id) == p,
    decreases p.len(),
{
    if p.len() > 0 {
        assert(p.contains(p.last())) by {
            assert(p[p.len() - 1] == p.last());
        }
        assert(!p.drop_last().contains(id)) by {
            if p.drop_last().contains(id) {
                let k = choose|k: int| 0 <= k < p.drop_last().len() && p.drop_last()[k] == id;
                assert(p[k] == id);
            }
        }
        lemma_remove_id_unchanged(p.drop_last(), id);
        assert(spec_remove_id(p, id) =~= p.drop_last().push(p.last()));
        assert(p.drop_last().push(p.last()) =~= p);
    } else {
        assert(spec_remove_id(p, id) =~= p);
    }
}

/// What removal keeps: exactly the other identifiers.
pub proof fn lemma_remove_id_contains(p: Seq<u64>, id: u64, x: u64)
    ensures
        spec_remove_id(p, id).contains(x) <==> (p.contains(x) && x != id),
    decreases p.len(),
{
    broadcast use vstd::seq_lib::lemma_seq_contains_after_push;

    if p.len() == 0 {
        assert(!p.contains(x));
        assert(!spec_remove_id(p, id).contains(x));
    } else {
        lemma_remove_id_contains(p.drop_last(), id, x);
        assert(p.drop_last().push(p.last()) =~= p);
        assert(p.contains(x) <==> (p.drop_last().contains(x) || p.last() == x));
    }
}

/// Removal keeps the pending identifiers distinct.
pub proof fn lemma_remove_id_distinct(p: Seq<u64>, id: u64)
    requires
        distinct_ids(p),
    ensures
        distinct_ids(spec_remove_id(p, id)),
        !spec_remove_id(p, id).contains(id),
    decreases p.len(),
{
    lemma_remove_id_contains(p, id, id);
    if p.len() > 0 {
        assert(distinct_ids(p.drop_last()));
        lemma_remove_id_distinct(p.drop_last(), id);
        if p.last() != id {
            let rec = spec_remove_id(p.drop_last(), id);
            assert(!rec.contains(p.last())) by {
                if rec.contains(p.last()) {
                    lemma_remove_id_contains(p.drop_last(), id, p.last());
                    let k = choose|k: int|
                        0 <= k < p.drop_last().len() && p.drop_last()[k] == p.last();
                    assert(p[k] == p[p.len() - 1]);
                }
            }
            assert forall|i: int, j: int|
                0 <= i < j < rec.push(p.last()).len() implies rec.push(p.last())[i] != rec.push(
                p.last(),
            )[j] by {
                if j == rec.len() {
                    assert(rec.contains(rec[i])) by {
                        assert(rec[i] == rec[i]);
                    }
                }
            }
        }
    }
}

/// Cancelling a token keeps the remaining subscriptions well-formed.
pub proof fn lemma_without_token_wf(subs: Seq<SubView>, token: u64, next: u64)
    requires
        forall|i: int| 0 <= i < subs.len() ==> #[trigger] subs[i].token < next,
        forall|i: int, j: int| 0 <= i < j < subs.len() ==> subs[i].token != subs[j].token,
    ensures
        forall|i: int|
            0 <= i < spec_without_token(subs, token).len() ==> #[trigger] spec_without_token(
                subs,
                token,
            )[i].token < next,
        forall|i: int, j: int|
            0 <= i < j < spec_without_token(subs, token).len() ==> spec_without_token(
                subs,
                token,
            )[i].token != spec_without_token(subs, token)[j].token,
        forall|i: int|
            0 <= i < spec_without_token(subs, token).len() ==> subs.contains(
                #[trigger] spec_without_token(subs, token)[i],
            ),
    decreases subs.len(),
{
    broadcast use vstd::seq_lib::lemma_seq_contains_after_push;

    if subs.len() > 0 {
        lemma_without_token_wf(subs.drop_last(), token, next);
        assert(subs.drop_last().push(subs.last()) =~= subs);
        let rec = spec_without_token(subs.drop_last(), token);
        assert forall|i: int| 0 <= i < rec.len() implies subs.contains(#[trigger] rec[i]) by {
            assert(subs.drop_last().contains(rec[i]));
        }
        if subs.last().token != token {
            let whole = rec.push(subs.last());
            assert forall|i: int, j: int|
                0 <= i < j < whole.len() implies whole[i].token != whole[j].token by {
                if j == rec.len() {
                    assert(subs.drop_last().contains(rec[i]));
                    let k = choose|k: int|
                        0 <= k < subs.drop_last().len() && subs.drop_last()[k] == rec[i];
                    assert(subs[k] == rec[i]);
                    assert(subs[subs.len() - 1] == subs.last());
                }
            }
            assert forall|i: int| 0 <= i < whole.len() implies #[trigger] whole[i].token
                < next by {
                if i < rec.len() {
                    assert(subs.drop_last().contains(rec[i]));
                    let k = choose|k: int|
                        0 <= k < subs.drop_last().len() && subs.drop_last()[k] == rec[i];
                    assert(subs[k] == rec[i]);
                }
            }
        }
    }
}

} // verus!
