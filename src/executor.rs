//! The cooperative executor: one queue of ready continuations, polled in
//! turn until it drains.
use std::collections::VecDeque;
use vstd::prelude::*;

verus! {

/// The queue of ready continuations.
pub struct TaskQueue<R> {
    queue: VecDeque<R>,
}

impl<R> TaskQueue<R> {
    pub closed spec fn view(&self) -> Seq<R> {
        self.queue@
    }

    /// An empty queue.
    pub fn new() -> (r: Self)
        ensures
            r.view() == Seq::<R>::empty(),
    {
        TaskQueue { queue: VecDeque::new() }
    }

    /// Number of ready continuations.
    pub fn len(&self) -> (r: usize)
        ensures
            r == self.view().len(),
    {
        self.queue.len()
    }

    /// Queues `runnable` at the tail: it yielded while running.
    pub fn push(&mut self, runnable: R)
        ensures
            final(self).view() == old(self).view().push(runnable),
    {
        self.queue.push_back(runnable);
    }

    /// Queues `runnable` at the head: an event woke it, and wake-ups go
    /// before voluntary yielders.
    pub fn push_preempt(&mut self, runnable: R)
        ensures
            final(self).view() == seq![runnable] + old(self).view(),
    {
        self.queue.push_front(runnable);
    }

    /// Takes the continuation at the head.
    pub fn fetch(&mut self) -> (r: Option<R>)
        ensures
            old(self).view().len() == 0 ==> r is None && final(self).view() == old(self).view(),
            old(self).view().len() > 0 ==> r == Some(old(self).view()[0]) && final(self).view()
                == old(self).view().drop_first(),
    {
        self.queue.pop_front()
    }

    /// Re-arms a continuation: at the tail when it was woken while it was
    /// running (it yielded), at the head when an event woke it.
    pub fn schedule(&mut self, runnable: R, woken_while_running: bool)
        ensures
            woken_while_running ==> final(self).view() == old(self).view().push(runnable),
            !woken_while_running ==> final(self).view() == seq![runnable] + old(self).view(),
    {
        if woken_while_running {
            self.push(runnable);
        } else {
            self.push_preempt(runnable);
        }
    }
}

/// What one poll of a continuation ends with.
pub enum Step<R> {
    /// It completed.
    Done,
    /// It suspended and was re-armed; `woken_while_running` tells a yield
    /// from a wake-up by an event.
    Rearmed { task: R, woken_while_running: bool },
}

/// A continuation that completes after a bounded number of polls.
pub trait Continuation: Sized {
    /// The number of polls after this one that the continuation needs
    /// before it completes; an implementation that re-arms itself overrides
    /// it.
    open spec fn polls_left(&self) -> nat {
        0
    }

    /// Polls the continuation once, to its completion or to its next
    /// suspension; a re-armed continuation needs one poll less.
    fn run(self) -> (r: Step<Self>)
        ensures
            r is Done ==> self.polls_left() == 0,
            r matches Step::Rearmed { task, .. } ==> self.polls_left() > 0 && task.polls_left()
                == self.polls_left() - 1,
    ;
}

/// The polls that the continuations of `s` need, one at least each.
pub open spec fn total_polls<R: Continuation>(s: Seq<R>) -> nat
    decreases s.len(),
{
    if s.len() == 0 {
        0
    } else {
        total_polls(s.drop_last()) + s.last().polls_left() + 1
    }
}

proof fn lemma_total_polls_front<R: Continuation>(x: R, s: Seq<R>)
    ensures
        total_polls(seq![x] + s) == x.polls_left() + 1 + total_polls(s),
    decreases s.len(),
{
    if s.len() > 0 {
        lemma_total_polls_front(x, s.drop_last());
        assert((seq![x] + s).drop_last() =~= seq![x] + s.drop_last());
        assert((seq![x] + s).last() == s.last());
    } else {
        assert((seq![x] + s).drop_last() =~= Seq::<R>::empty());
        assert((seq![x] + s).last() == x);
        assert(total_polls(Seq::<R>::empty()) == 0);
    }
}

/// The queue drains: each poll lowers the polls that the queue still needs
/// by exactly one, whether the continuation at the head completes or is
/// re-armed at either end, so polling until the queue is empty terminates.
pub proof fn lemma_run_terminates<R: Continuation>(s: Seq<R>, x: R)
    requires
        s.len() > 0,
    ensures
        s[0].polls_left() == 0 ==> total_polls(s.drop_first()) + 1 == total_polls(s),
        s[0].polls_left() > 0 && x.polls_left() == s[0].polls_left() - 1 ==> {
            &&& total_polls(s.drop_first().push(x)) + 1 == total_polls(s)
            &&& total_polls(seq![x] + s.drop_first()) + 1 == total_polls(s)
        },
{
    lemma_total_polls_front(s[0], s.drop_first());
    assert(seq![s[0]] + s.drop_first() =~= s);
    lemma_total_polls_front(x, s.drop_first());
    assert(s.drop_first().push(x).drop_last() =~= s.drop_first());
}

/// Polls the continuations of `queue` one at a time until the queue is
/// empty, re-arming each one that suspends as `TaskQueue::schedule` does.
/// Every continuation is polled until it completes, so the number of polls
/// returned is `total_polls` of the queue at the start.
pub fn run_until_idle<R: Continuation>(queue: &mut TaskQueue<R>) -> (n: usize)
    requires
        total_polls(old(queue).view()) <= usize::MAX,
    ensures
        final(queue).view().len() == 0,
        n == total_polls(old(queue).view()),
{
    let mut n: usize = 0;
    loop
        invariant
            n + total_polls(queue.view()) == total_polls(old(queue).view()),
            total_polls(old(queue).view()) <= usize::MAX,
        ensures
            queue.view().len() == 0,
            n == total_polls(old(queue).view()),
        decreases total_polls(queue.view()),
    {
        let ghost before = queue.view();
        match queue.fetch() {
            None => {
                return n;
            },
            Some(task) => {
                proof {
                    lemma_total_polls_front(before[0], before.drop_first());
                    assert(seq![before[0]] + before.drop_first() =~= before);
                }
                let ghost rest = queue.view();
                match task.run() {
                    Step::Done => {},
                    Step::Rearmed { task, woken_while_running } => {
                        proof {
                            lemma_total_polls_front(task, rest);
                            assert(rest.push(task).drop_last() =~= rest);
                        }
                        queue.schedule(task, woken_while_running);
                    },
                }
                n = n + 1;
            },
        }
    }
}

} // verus!
