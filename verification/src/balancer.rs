//! Which worker gets a connection, and whether it is taken on.
use crate::config::Config;
use vstd::prelude::*;

verus! {

/// The sending end of a channel of the `flume` crate.
#[verifier::external_type_specification]
#[verifier::external_body]
#[verifier::reject_recursive_types(T)]
pub struct ExSender<T>(flume::Sender<T>);

/// The receiving end of such a channel.
#[verifier::external_type_specification]
#[verifier::external_body]
#[verifier::reject_recursive_types(T)]
pub struct ExReceiver<T>(flume::Receiver<T>);

/// The refusal of a send, which gives the item back.
#[verifier::external_type_specification]
#[verifier::external_body]
#[verifier::reject_recursive_types(T)]
pub struct ExSendError<T>(flume::SendError<T>);

/// `flume::unbounded`: a new channel. Its two ends are connected; what goes through it is
/// for the calls on them to say.
pub assume_specification<T>[ flume::unbounded::<T> ]() -> (r: (
    flume::Sender<T>,
    flume::Receiver<T>,
));

/// `flume::Sender::send`: the item goes to the receiver, or, where that is gone, comes
/// back. Which of the two depends on the other thread, and nothing is claimed.
pub assume_specification<T>[ flume::Sender::<T>::send ](
    sender: &flume::Sender<T>,
    msg: T,
) -> (r: Result<(), flume::SendError<T>>);

/// The worker that the dispatch with this number goes to.
pub open spec fn worker_for(counter: usize, workers: nat) -> usize {
    (counter as nat % workers) as usize
}

/// The number of the next dispatch; behind the largest number they start over.
pub open spec fn next_count(counter: usize) -> usize {
    if counter == usize::MAX {
        0
    } else {
        (counter + 1) as usize
    }
}

/// Balances accepted connections across worker loops using round-robin.
#[verifier::reject_recursive_types(T)]
pub struct ConnectionBalancer<T> {
    workers: Vec<flume::Sender<T>>,
    counter: usize,
}

impl<T> ConnectionBalancer<T> {
    /// The workers, in the order in which they registered.
    pub closed spec fn workers(&self) -> Seq<flume::Sender<T>> {
        self.workers@
    }

    /// How many dispatches there were.
    pub closed spec fn counter(&self) -> usize {
        self.counter
    }

    pub fn new() -> (r: Self)
        ensures
            r.workers() == Seq::<flume::Sender<T>>::empty(),
            r.counter() == 0,
    {
        Self { workers: Vec::new(), counter: 0 }
    }

    /// Register a new worker and return its async receiver channel: the other end of the
    /// channel that the worker gets its connections by.
    pub fn register(&mut self) -> (r: flume::Receiver<T>)
        ensures
            final(self).workers().len() == old(self).workers().len() + 1,
            final(self).workers().drop_last() == old(self).workers(),
            final(self).counter() == old(self).counter(),
            call_ensures(flume::unbounded::<T>, (), (final(self).workers().last(), r)),
    {
        let (tx, rx) = flume::unbounded();
        self.workers.push(tx);
        assert(self.workers@.drop_last() =~= old(self).workers@);
        rx
    }

    /// How many workers there are.
    pub fn worker_count(&self) -> (r: usize)
        ensures
            r == self.workers().len(),
    {
        self.workers.len()
    }

    /// The worker whose turn it is (round-robin).
    pub fn next_worker(&mut self) -> (r: usize)
        requires
            old(self).workers().len() > 0,
        ensures
            r == worker_for(old(self).counter(), old(self).workers().len()),
            r < old(self).workers().len(),
            final(self).workers() == old(self).workers(),
            final(self).counter() == next_count(old(self).counter()),
    {
        let idx: usize = self.counter % self.workers.len();
        self.counter = self.counter.wrapping_add(1);
        idx
    }

    /// Dispatch a connection to the next worker (round-robin). Where that worker is gone
    /// the connection is dropped, and its turn is over all the same.
    pub fn dispatch(&mut self, stream: T)
        requires
            old(self).workers().len() > 0,
        ensures
            final(self).workers() == old(self).workers(),
            final(self).counter() == next_count(old(self).counter()),
            sent_to(
                old(self).workers()[worker_for(
                    old(self).counter(),
                    old(self).workers().len(),
                ) as int],
                stream,
            ),
    {
        let idx = self.next_worker();
        let ghost given = stream;
        let sent = self.workers[idx].send(stream);
        assert(call_ensures(flume::Sender::<T>::send, (&self.workers@[idx as int], given), sent));
    }
}

/// Whether `item` was handed to `Sender::send` on this sender.
pub open spec fn sent_to<T>(worker: flume::Sender<T>, item: T) -> bool {
    exists|sent: Result<(), flume::SendError<T>>| #[trigger]
        call_ensures(flume::Sender::<T>::send, (&worker, item), sent)
}

/// Any worker's turn comes exactly once in as many dispatches as there are workers,
/// as long as the numbers do not start over in between.
pub proof fn law_round_robin(counter: usize, workers: nat, worker: usize)
    requires
        0 < workers,
        worker < workers,
        counter + workers <= usize::MAX,
    ensures
        exists|k: nat|
            k < workers && #[trigger] worker_for((counter + k) as usize, workers) == worker,
        forall|j: nat, k: nat|
            j < workers && k < workers && #[trigger] worker_for((counter + j) as usize, workers)
                == worker && #[trigger] worker_for((counter + k) as usize, workers) == worker ==> j
                == k,
{
    let n = workers as int;
    let c = counter as int;
    let base = c % n;
    let q = c / n;
    vstd::arithmetic::div_mod::lemma_fundamental_div_mod(c, n);
    let k: int = if worker >= base {
        worker - base
    } else {
        worker - base + n
    };
    if worker >= base {
        vstd::arithmetic::div_mod::lemma_fundamental_div_mod_converse_mod(
            c + k,
            n,
            q,
            worker as int,
        );
    } else {
        assert((q + 1) * n == q * n + n) by (nonlinear_arith);
        assert(n * q == q * n) by (nonlinear_arith);
        vstd::arithmetic::div_mod::lemma_fundamental_div_mod_converse_mod(
            c + k,
            n,
            q + 1,
            worker as int,
        );
    }
    assert(worker_for((counter + k as nat) as usize, workers) == worker);
    assert forall|i: nat, j: nat|
        i < workers && j < workers && #[trigger] worker_for((counter + i) as usize, workers)
            == worker && #[trigger] worker_for(
            (counter + j) as usize,
            workers,
        ) == worker implies i == j by {
        let a = c + i;
        let b = c + j;
        vstd::arithmetic::div_mod::lemma_fundamental_div_mod(a, n);
        vstd::arithmetic::div_mod::lemma_fundamental_div_mod(b, n);
        let d = a / n - b / n;
        assert(n * (a / n) - n * (b / n) == n * d) by (nonlinear_arith)
            requires
                d == a / n - b / n,
        ;
        assert(-n < n * d < n);
        assert(d == 0) by (nonlinear_arith)
            requires
                -n < n * d < n,
                n > 0,
        ;
    }
}

/// The number of the dispatch behind `k` others on a new balancer.
pub open spec fn count_after(k: nat) -> usize
    decreases k,
{
    if k == 0 {
        0
    } else {
        next_count(count_after((k - 1) as nat))
    }
}

/// The first connection goes to the worker that registered first, the next one to the
/// next worker, and so on round: the connection behind `k` others goes to worker `k` mod
/// the number of workers.
pub proof fn law_turns_in_order(k: nat, workers: nat)
    requires
        0 < workers,
        k <= usize::MAX,
    ensures
        count_after(k) == k,
        worker_for(count_after(k), workers) == k % workers,
    decreases k,
{
    if k > 0 {
        law_turns_in_order((k - 1) as nat, workers);
    }
    vstd::arithmetic::div_mod::lemma_mod_decreases(k, workers);
}

/// Behind the largest number the turns start over with the first worker.
pub proof fn law_turns_start_over(workers: nat)
    requires
        0 < workers,
    ensures
        worker_for(count_after((usize::MAX + 1) as nat), workers) == 0,
{
    law_turns_in_order(usize::MAX as nat, workers);
    vstd::arithmetic::div_mod::lemma_small_mod(0, workers);
}

/// How many of the first `m` connections go to this worker.
pub open spec fn share(m: nat, workers: nat, worker: usize) -> nat
    decreases m,
{
    if m == 0 {
        0
    } else {
        share((m - 1) as nat, workers, worker) + if worker_for(
            count_after((m - 1) as nat),
            workers,
        ) == worker {
            1nat
        } else {
            0
        }
    }
}

proof fn lemma_share(m: nat, workers: nat, worker: usize)
    requires
        worker < workers,
        m <= usize::MAX,
    ensures
        share(m, workers, worker) == m / workers + if worker < m % workers {
            1nat
        } else {
            0
        },
    decreases m,
{
    let n = workers as int;
    if m == 0 {
        vstd::arithmetic::div_mod::lemma_fundamental_div_mod_converse(0, n, 0, 0);
    } else {
        let k = m - 1;
        lemma_share(k as nat, workers, worker);
        law_turns_in_order(k as nat, workers);
        vstd::arithmetic::div_mod::lemma_fundamental_div_mod(k, n);
        let q = k / n;
        let r = k % n;
        if r + 1 < n {
            vstd::arithmetic::div_mod::lemma_fundamental_div_mod_converse(m as int, n, q, r + 1);
        } else {
            assert((q + 1) * n == n * q + n) by (nonlinear_arith);
            assert(r < n) by {
                vstd::arithmetic::div_mod::lemma_mod_bound(k, n);
            }
            vstd::arithmetic::div_mod::lemma_fundamental_div_mod_converse(m as int, n, q + 1, 0);
        }
    }
}

/// The shares of any two workers differ by at most one connection.
pub proof fn law_fair_shares(m: nat, workers: nat, a: usize, b: usize)
    requires
        a < workers,
        b < workers,
        m <= usize::MAX,
    ensures
        -1 <= share(m, workers, a) - share(m, workers, b) <= 1,
{
    lemma_share(m, workers, a);
    lemma_share(m, workers, b);
}

/// What happens to the connections of a worker.
pub enum LimitEvent {
    Arrives,
    Ends,
}

/// How many connections are being handled behind an event: one that arrives is handled
/// unless the limit is reached.
pub open spec fn running_after(running: nat, max: usize, event: LimitEvent) -> nat {
    match event {
        LimitEvent::Arrives => if running < max {
            running + 1
        } else {
            running
        },
        LimitEvent::Ends => (running - 1) as nat,
    }
}

/// How many connections are being handled behind all the events.
pub open spec fn running(max: usize, events: Seq<LimitEvent>) -> nat
    decreases events.len(),
{
    if events.len() == 0 {
        0
    } else {
        running_after(running(max, events.drop_last()), max, events.last())
    }
}

/// Whether no connection ends that is not being handled.
pub open spec fn ends_what_runs(max: usize, events: Seq<LimitEvent>) -> bool {
    forall|i: int|
        0 <= i < events.len() && #[trigger] events[i] is Ends ==> running(max, events.take(i)) > 0
}

/// At no time are more connections handled than the limit allows. One that arrives is
/// dropped exactly where that many are being handled; one that ends makes room.
pub proof fn law_connection_limit(max: usize, events: Seq<LimitEvent>, i: int)
    requires
        ends_what_runs(max, events),
        0 <= i <= events.len(),
    ensures
        running(max, events.take(i)) <= max,
        i < events.len() && events[i] is Arrives ==> running(max, events.take(i + 1)) == running(
            max,
            events.take(i),
        ) + if running(max, events.take(i)) == max {
            0int
        } else {
            1
        },
        i < events.len() && events[i] is Ends ==> running(max, events.take(i + 1)) == running(
            max,
            events.take(i),
        ) - 1,
    decreases i,
{
    if i > 0 {
        law_connection_limit(max, events, i - 1);
    } else {
        assert(events.take(0) =~= Seq::empty());
    }
    if i < events.len() {
        assert(events.take(i + 1).drop_last() =~= events.take(i));
        assert(events.take(i + 1).last() == events[i]);
    }
}

/// How many connections a worker handles at a time.
pub struct ConnectionLimit {
    concurrent: usize,
}

impl ConnectionLimit {
    /// The connections that are being handled.
    pub closed spec fn concurrent(&self) -> usize {
        self.concurrent
    }

    pub fn new() -> (r: Self)
        ensures
            r.concurrent() == 0,
    {
        Self { concurrent: 0 }
    }

    /// Whether a new connection is taken on: not where the limit is reached.
    pub fn take_on(&mut self, config: &Config) -> (r: bool)
        ensures
            r == (old(self).concurrent() < config.max_concurrent_connections),
            final(self).concurrent() == running_after(
                old(self).concurrent() as nat,
                config.max_concurrent_connections,
                LimitEvent::Arrives,
            ),
            old(self).concurrent() <= config.max_concurrent_connections
                ==> final(self).concurrent() <= config.max_concurrent_connections,
    {
        if self.concurrent >= config.max_concurrent_connections {
            return false;
        }
        self.concurrent += 1;
        true
    }

    /// A connection is over.
    pub fn release(&mut self)
        requires
            old(self).concurrent() > 0,
        ensures
            final(self).concurrent() == old(self).concurrent() - 1,
    {
        self.concurrent -= 1;
    }
}

} // verus!
