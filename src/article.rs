use std::collections::VecDeque;
use vstd::prelude::*;

verus! {

/// What one poll of an [`ArticleBuffer`] observes.
#[derive(Debug)]
pub enum ArticleResult {
    /// The body of the next fetched article.
    Text(String),
    /// The article with this identifier could not be fetched, for this reason.
    Failed(i32, String),
    /// Nothing is ready yet, but the worker still has identifiers to fetch.
    Waiting,
}

/// The abstract state of a buffer: the identifiers it was made with, how many
/// of them the worker has handled, the results not yet handed to the consumer
/// (oldest first), and whether the work was cancelled.
pub struct BufferState {
    pub ids: Seq<i32>,
    pub done: nat,
    pub queue: Seq<ArticleResult>,
    pub cancelled: bool,
}

impl BufferState {
    /// The worker still has identifiers to fetch.
    pub open spec fn running(self) -> bool {
        !self.cancelled && self.done < self.ids.len()
    }

    pub open spec fn wf(self) -> bool {
        &&& self.done <= self.ids.len()
        &&& forall|i: int| 0 <= i < self.queue.len() ==> !(#[trigger] self.queue[i] is Waiting)
    }
}

/// The state of a buffer just made from `ids`.
pub open spec fn initial(ids: Seq<i32>) -> BufferState {
    BufferState { ids, done: 0, queue: Seq::empty(), cancelled: false }
}

/// The result that the consumer sees for identifier `id` whose fetch gave `fetched`.
pub open spec fn result_of(id: i32, fetched: Result<String, String>) -> ArticleResult {
    match fetched {
        Ok(body) => ArticleResult::Text(body),
        Err(reason) => ArticleResult::Failed(id, reason),
    }
}

/// The state after the worker hands in the outcome of its current fetch.
pub open spec fn after_complete(s: BufferState, fetched: Result<String, String>) -> BufferState {
    if s.running() {
        BufferState {
            done: s.done + 1,
            queue: s.queue.push(result_of(s.ids[s.done as int], fetched)),
            ..s
        }
    } else {
        s
    }
}

/// One poll: the state after it and what it observes (`None` once exhausted).
pub open spec fn poll(s: BufferState) -> (BufferState, Option<ArticleResult>) {
    if s.queue.len() > 0 {
        (BufferState { queue: s.queue.drop_first(), ..s }, Some(s.queue[0]))
    } else if s.running() {
        (s, Some(ArticleResult::Waiting))
    } else {
        (s, None)
    }
}

/// Holds the identifiers still to fetch and the results that the consumer has
/// not yet taken. The worker asks for the next identifier with `next_request`
/// and hands in what the fetch gave with `complete`; the consumer calls `next`.
/// Both sides go through the one value, so "no result left" and "worker done"
/// are always observed together.
#[derive(Debug)]
pub struct ArticleBuffer {
    ids: Vec<i32>,
    done: usize,
    queue: VecDeque<ArticleResult>,
    cancelled: bool,
}

impl View for ArticleBuffer {
    type V = BufferState;

    closed spec fn view(&self) -> BufferState {
        BufferState {
            ids: self.ids@,
            done: self.done as nat,
            queue: self.queue@,
            cancelled: self.cancelled,
        }
    }
}

impl ArticleBuffer {
    pub open spec fn wf(&self) -> bool {
        self@.wf()
    }

    /// A buffer that will fetch `ids` in order; nothing is fetched yet.
    pub fn new(ids: Vec<i32>) -> (r: ArticleBuffer)
        ensures
            r.wf(),
            r@ == initial(ids@),
    {
        let r = ArticleBuffer { ids, done: 0, queue: VecDeque::new(), cancelled: false };
        assert(r@.queue =~= Seq::<ArticleResult>::empty());
        r
    }

    /// Whether the worker still has identifiers to fetch.
    pub fn is_running(&self) -> (r: bool)
        requires
            self.wf(),
        ensures
            r == self@.running(),
    {
        !self.cancelled && self.done < self.ids.len()
    }

    /// The identifier that the worker is to fetch next, or `None` when it is done.
    pub fn next_request(&self) -> (r: Option<i32>)
        requires
            self.wf(),
        ensures
            self@.running() ==> r == Some(self@.ids[self@.done as int]),
            !self@.running() ==> r is None,
    {
        if self.is_running() {
            Some(self.ids[self.done])
        } else {
            None
        }
    }

    /// The worker hands in the outcome of fetching the identifier that
    /// `next_request` gave. After a cancellation the outcome is dropped.
    pub fn complete(&mut self, fetched: Result<String, String>)
        requires
            old(self).wf(),
        ensures
            final(self).wf(),
            final(self)@ == after_complete(old(self)@, fetched),
    {
        if self.is_running() {
            assert(self.done < self.ids.len());
            let id = self.ids[self.done];
            let res = match fetched {
                Ok(body) => ArticleResult::Text(body),
                Err(reason) => ArticleResult::Failed(id, reason),
            };
            self.queue.push_back(res);
            self.done = self.done + 1;
        }
    }

    /// Stops the worker before its next fetch. Results already in the buffer
    /// can still be taken.
    pub fn cancel(&mut self)
        requires
            old(self).wf(),
        ensures
            final(self).wf(),
            final(self)@ == (BufferState { cancelled: true, ..old(self)@ }),
    {
        self.cancelled = true;
    }

    /// Polls without blocking: the oldest result if there is one, else
    /// `Waiting` while the worker runs, else `None` for good.
    pub fn next(&mut self) -> (r: Option<ArticleResult>)
        requires
            old(self).wf(),
        ensures
            final(self).wf(),
            (final(self)@, r) == poll(old(self)@),
    {
        match self.queue.pop_front() {
            Some(a) => Some(a),
            None => {
                if self.is_running() {
                    Some(ArticleResult::Waiting)
                } else {
                    None
                }
            },
        }
    }
}

/// Runs a schedule of events from `s`: `true` is a poll by the consumer, `false`
/// is a fetch completed by the worker, whose outcome for the `k`-th identifier is
/// `fetched[k]`. Gives the final state and what each poll observed, in order.
pub open spec fn run(
    s: BufferState,
    fetched: Seq<Result<String, String>>,
    sched: Seq<bool>,
) -> (BufferState, Seq<Option<ArticleResult>>)
    decreases sched.len(),
{
    if sched.len() == 0 {
        (s, Seq::empty())
    } else {
        let (s1, log1) = run(s, fetched, sched.drop_last());
        if sched.last() {
            (poll(s1).0, log1.push(poll(s1).1))
        } else {
            (after_complete(s1, fetched[s1.done as int]), log1)
        }
    }
}

/// The results (bodies and failures) among what a sequence of polls observed.
pub open spec fn delivered(log: Seq<Option<ArticleResult>>) -> Seq<ArticleResult>
    decreases log.len(),
{
    if log.len() == 0 {
        Seq::empty()
    } else {
        let rest = delivered(log.drop_last());
        match log.last() {
            Some(ArticleResult::Waiting) => rest,
            Some(a) => rest.push(a),
            None => rest,
        }
    }
}

/// What a consumer should see for `ids` whose fetches gave `fetched`, in order.
pub open spec fn expected(ids: Seq<i32>, fetched: Seq<Result<String, String>>) -> Seq<ArticleResult> {
    Seq::new(ids.len(), |i: int| result_of(ids[i], fetched[i]))
}

/// A schedule of `n` worker steps.
pub open spec fn worker_steps(n: nat) -> Seq<bool> {
    Seq::new(n, |i: int| false)
}

/// A schedule of `n` polls.
pub open spec fn polls(n: nat) -> Seq<bool> {
    Seq::new(n, |i: int| true)
}

/// Whatever the interleaving of polls and fetches, the results handed out so
/// far followed by those still buffered are exactly the results of the fetches
/// done so far, in the order of the identifiers: nothing is lost, reordered or
/// repeated, and a failed fetch takes its own place without stopping the rest.
pub proof fn lemma_results_in_order(
    ids: Seq<i32>,
    fetched: Seq<Result<String, String>>,
    sched: Seq<bool>,
)
    requires
        fetched.len() == ids.len(),
    ensures
        run(initial(ids), fetched, sched).0.wf(),
        run(initial(ids), fetched, sched).0.ids == ids,
        !run(initial(ids), fetched, sched).0.cancelled,
        delivered(run(initial(ids), fetched, sched).1) + run(initial(ids), fetched, sched).0.queue
            == expected(ids, fetched).take(run(initial(ids), fetched, sched).0.done as int),
    decreases sched.len(),
{
    let ex = expected(ids, fetched);
    if sched.len() == 0 {
        assert(ex.take(0) =~= Seq::<ArticleResult>::empty());
        assert(Seq::<ArticleResult>::empty() + Seq::<ArticleResult>::empty() =~= Seq::<ArticleResult>::empty());
    } else {
        lemma_results_in_order(ids, fetched, sched.drop_last());
        let (s1, log1) = run(initial(ids), fetched, sched.drop_last());
        let (s2, log2) = run(initial(ids), fetched, sched);
        let d1 = delivered(log1);
        assert(d1 + s1.queue == ex.take(s1.done as int));
        if sched.last() {
            assert(log2.drop_last() =~= log1);
            if s1.queue.len() > 0 {
                assert(delivered(log2) == d1.push(s1.queue[0]));
                assert(delivered(log2) + s2.queue =~= d1 + s1.queue);
            } else {
                assert(delivered(log2) == d1);
            }
        } else if s1.running() {
            let r = result_of(ids[s1.done as int], fetched[s1.done as int]);
            assert(ex.take(s2.done as int) =~= ex.take(s1.done as int).push(r));
            assert(d1 + s2.queue =~= (d1 + s1.queue).push(r));
        }
    }
}

/// Once a poll has observed exhaustion, every later poll observes it too,
/// whatever the worker does in between.
pub proof fn lemma_exhaustion_is_final(
    s: BufferState,
    fetched: Seq<Result<String, String>>,
    sched: Seq<bool>,
    i: int,
    j: int,
)
    requires
        0 <= i < j < run(s, fetched, sched).1.len(),
        run(s, fetched, sched).1[i] is None,
    ensures
        run(s, fetched, sched).1[j] is None,
    decreases sched.len(),
{
    lemma_run_log_len(s, fetched, sched);
    let (s1, log1) = run(s, fetched, sched.drop_last());
    lemma_run_log_len(s, fetched, sched.drop_last());
    if j < log1.len() {
        lemma_exhaustion_is_final(s, fetched, sched.drop_last(), i, j);
    } else {
        lemma_stays_exhausted(s, fetched, sched.drop_last(), i);
    }
}

proof fn lemma_run_log_len(s: BufferState, fetched: Seq<Result<String, String>>, sched: Seq<bool>)
    ensures
        run(s, fetched, sched).1.len() <= sched.len(),
        sched.len() > 0 && !sched.last() ==> run(s, fetched, sched).1 == run(
            s,
            fetched,
            sched.drop_last(),
        ).1,
        sched.len() > 0 && sched.last() ==> run(s, fetched, sched).1 == run(
            s,
            fetched,
            sched.drop_last(),
        ).1.push(poll(run(s, fetched, sched.drop_last()).0).1),
    decreases sched.len(),
{
    if sched.len() > 0 {
        lemma_run_log_len(s, fetched, sched.drop_last());
    }
}

/// After a poll observed exhaustion the state no longer changes.
proof fn lemma_stays_exhausted(
    s: BufferState,
    fetched: Seq<Result<String, String>>,
    sched: Seq<bool>,
    i: int,
)
    requires
        0 <= i < run(s, fetched, sched).1.len(),
        run(s, fetched, sched).1[i] is None,
    ensures
        run(s, fetched, sched).0.queue.len() == 0,
        !run(s, fetched, sched).0.running(),
    decreases sched.len(),
{
    lemma_run_log_len(s, fetched, sched);
    let (s1, log1) = run(s, fetched, sched.drop_last());
    if i < log1.len() {
        lemma_stays_exhausted(s, fetched, sched.drop_last(), i);
    }
}

/// Once a poll observes exhaustion, the polls so far have handed out the result
/// of every identifier, each once, in the order of the identifiers.
pub proof fn lemma_nothing_lost(
    ids: Seq<i32>,
    fetched: Seq<Result<String, String>>,
    sched: Seq<bool>,
    i: int,
)
    requires
        fetched.len() == ids.len(),
        0 <= i < run(initial(ids), fetched, sched).1.len(),
        run(initial(ids), fetched, sched).1[i] is None,
    ensures
        delivered(run(initial(ids), fetched, sched).1) == expected(ids, fetched),
{
    lemma_results_in_order(ids, fetched, sched);
    lemma_stays_exhausted(initial(ids), fetched, sched, i);
    let (s, log) = run(initial(ids), fetched, sched);
    assert(expected(ids, fetched).take(ids.len() as int) =~= expected(ids, fetched));
    assert(delivered(log) + s.queue =~= delivered(log));
}

/// From any point of any interleaving, once the worker has fetched the rest of
/// the identifiers, at most one poll per identifier, and one more, reach
/// exhaustion.
pub proof fn lemma_exhaustion_reached(
    ids: Seq<i32>,
    fetched: Seq<Result<String, String>>,
    sched: Seq<bool>,
)
    requires
        fetched.len() == ids.len(),
    ensures
        ({
            let s = run(initial(ids), fetched, sched).0;
            let t = run(s, fetched, worker_steps(ids.len())).0;
            let log = run(t, fetched, polls(ids.len() + 1)).1;
            log.len() == ids.len() + 1 && log.last() is None
        }),
{
    lemma_results_in_order(ids, fetched, sched);
    let s = run(initial(ids), fetched, sched).0;
    let ex = expected(ids, fetched);
    assert((delivered(run(initial(ids), fetched, sched).1) + s.queue).len() == ex.take(
        s.done as int,
    ).len());
    lemma_worker_finishes(s, fetched, ids.len());
    let t = run(s, fetched, worker_steps(ids.len())).0;
    lemma_polls_drain(t, fetched, ids.len() + 1);
}

proof fn lemma_worker_finishes(s: BufferState, fetched: Seq<Result<String, String>>, n: nat)
    requires
        s.done <= s.ids.len(),
    ensures
        ({
            let t = run(s, fetched, worker_steps(n)).0;
            let d = if s.cancelled || s.done + n >= s.ids.len() {
                if s.cancelled { s.done } else { s.ids.len() }
            } else {
                s.done + n
            };
            &&& t.ids == s.ids
            &&& t.cancelled == s.cancelled
            &&& t.done == d
            &&& t.queue.len() == s.queue.len() + t.done - s.done
        }),
    decreases n,
{
    if n > 0 {
        assert(worker_steps(n).drop_last() =~= worker_steps((n - 1) as nat));
        lemma_worker_finishes(s, fetched, (n - 1) as nat);
    } else {
        assert(worker_steps(n) =~= Seq::<bool>::empty());
    }
}

proof fn lemma_polls_drain(t: BufferState, fetched: Seq<Result<String, String>>, m: nat)
    requires
        !t.running(),
    ensures
        ({
            let (u, log) = run(t, fetched, polls(m));
            &&& log.len() == m
            &&& !u.running()
            &&& m <= t.queue.len() ==> u.queue == t.queue.skip(m as int)
            &&& m > t.queue.len() ==> u.queue.len() == 0 && log[m - 1] is None
        }),
    decreases m,
{
    if m > 0 {
        assert(polls(m).drop_last() =~= polls((m - 1) as nat));
        lemma_polls_drain(t, fetched, (m - 1) as nat);
        if m <= t.queue.len() {
            let u1 = run(t, fetched, polls((m - 1) as nat)).0;
            assert(u1.queue.drop_first() =~= t.queue.skip(m as int));
        }
    } else {
        assert(polls(m) =~= Seq::<bool>::empty());
        assert(t.queue.skip(0) =~= t.queue);
    }
}

/// A poll right after construction, before any fetch is done, is `Waiting`
/// when there is something to fetch, and exhaustion when there is not.
pub proof fn lemma_first_poll(ids: Seq<i32>)
    ensures
        ids.len() > 0 ==> poll(initial(ids)).1 == Some(ArticleResult::Waiting),
        ids.len() == 0 ==> poll(initial(ids)).1 is None,
        poll(initial(ids)).0 == initial(ids),
{
}

} // verus!
