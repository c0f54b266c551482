use crate::text::str_eq;
use crate::weburl::{Action, UrlItem};
use vstd::prelude::*;

verus! {

/// The limits that end a run; times in milliseconds.
#[derive(Copy, Clone, Debug)]
pub struct RunLimits {
    pub requests: Option<u64>,
    pub duration: Option<u64>,
    pub timeout: u64,
    pub concurrent: u16,
    pub prevent_duplicate_requests: bool,
}

/// What the dispatch loop does next.
#[derive(Copy, Clone, Debug, PartialEq, Eq, Structural)]
pub enum LoopStep {
    /// Leave the loop: the run is over.
    Exit,
    /// Dispatch nothing and check again.
    Spin,
    /// Take a permit and receive the next message.
    Proceed,
}

/// The dispatcher's state: how much was dispatched, whether new work is still
/// taken, when a stop was asked for, and the URLs already dispatched.
pub struct Dispatcher {
    pub limits: RunLimits,
    pub total_processed: u64,
    pub should_process_work: bool,
    pub requested_stop_at: Option<u64>,
    pub processed: Vec<String>,
    /// The URL of every item dispatched so far, in order.
    pub dispatched: Ghost<Seq<Seq<char>>>,
}

/// The position in a URL list of `len` entries that the file-mode feeder
/// sends after position `i`: the next one, wrapping round to the first.
pub fn next_feed_index(i: usize, len: usize) -> (r: usize)
    requires
        i < len,
    ensures
        r == (if i + 1 == len {
            0
        } else {
            i + 1
        }),
{
    if i + 1 == len {
        0
    } else {
        i + 1
    }
}

/// Whether the dispatcher takes new work: it has not stopped and the cap, if
/// any, is not reached.
pub open spec fn taking_work(d: Dispatcher) -> bool {
    d.should_process_work && !(d.limits.requests matches Some(c) && c <= d.total_processed)
}

/// The loop's next step at time `now` with `permits` free places: while work
/// is taken, go on; after that, end once something was dispatched and nothing
/// is in flight, or once more than a request timeout has passed since a stop
/// was asked for; otherwise wait.
pub open spec fn loop_step(d: Dispatcher, now: u64, permits: usize) -> LoopStep {
    if taking_work(d) {
        LoopStep::Proceed
    } else if (d.total_processed != 0 && permits == d.limits.concurrent) || (
    d.requested_stop_at matches Some(t) && now > t && now - t > d.limits.timeout) {
        LoopStep::Exit
    } else {
        LoopStep::Spin
    }
}

impl Dispatcher {
    /// The state's invariant: the count matches what was dispatched, never
    /// exceeds the cap, a stop request ends the taking of work, and with
    /// duplicate prevention on no URL was dispatched twice.
    pub open spec fn wf(&self) -> bool {
        &&& self.dispatched@.len() == self.total_processed
        &&& (self.limits.requests matches Some(c) ==> self.total_processed <= c)
        &&& (self.requested_stop_at is Some ==> !self.should_process_work)
        &&& (self.limits.prevent_duplicate_requests ==> self.dispatched@.no_duplicates()
            && self.seen() == self.dispatched@)
    }

    /// The URLs remembered for duplicate prevention.
    pub open spec fn seen(&self) -> Seq<Seq<char>> {
        self.processed@.map_values(|s: String| s@)
    }

    /// A dispatcher that has dispatched nothing yet.
    pub fn new(limits: RunLimits) -> (r: Dispatcher)
        ensures
            r.wf(),
            r.limits == limits,
            r.total_processed == 0,
            r.should_process_work,
            r.requested_stop_at is None,
            r.dispatched@.len() == 0,
    {
        let r = Dispatcher {
            limits,
            total_processed: 0,
            should_process_work: true,
            requested_stop_at: None,
            processed: Vec::new(),
            dispatched: Ghost(Seq::empty()),
        };
        assert(r.seen() =~= Seq::<Seq<char>>::empty());
        r
    }

    /// Checks the end conditions before a message is taken. `now` is the time
    /// since the run started, `stop_requested` the interrupt flag, and
    /// `available_permits` the free places for requests.
    pub fn before_receive(&mut self, now: u64, stop_requested: bool, available_permits: usize) -> (r:
        LoopStep)
        requires
            old(self).wf(),
        ensures
            final(self).wf(),
            final(self).limits == old(self).limits,
            final(self).total_processed == old(self).total_processed,
            final(self).dispatched == old(self).dispatched,
            r == loop_step(*old(self), now, available_permits),
            ({
                if !taking_work(*old(self)) {
                    &&& !final(self).should_process_work
                    &&& final(self).requested_stop_at == old(self).requested_stop_at
                } else if stop_requested {
                    &&& !final(self).should_process_work
                    &&& final(self).requested_stop_at == Some(now)
                } else {
                    &&& final(self).requested_stop_at == old(self).requested_stop_at
                    &&& final(self).should_process_work == !(old(self).limits.duration matches Some(
                        d,
                    ) && now >= d)
                }
            }),
    {
        if let Some(c) = self.limits.requests {
            if c <= self.total_processed {
                self.should_process_work = false;
            }
        }
        if !self.should_process_work {
            let drained = self.total_processed != 0 && available_permits
                == self.limits.concurrent as usize;
            let timed_out = match self.requested_stop_at {
                Some(t) => now > t && now - t > self.limits.timeout,
                None => false,
            };
            if drained || timed_out {
                LoopStep::Exit
            } else {
                LoopStep::Spin
            }
        } else {
            if stop_requested {
                self.should_process_work = false;
                self.requested_stop_at = Some(now);
            } else if let Some(d) = self.limits.duration {
                if now >= d {
                    self.should_process_work = false;
                }
            }
            LoopStep::Proceed
        }
    }

    fn was_dispatched(&self, url: &str) -> (r: bool)
        requires
            self.wf(),
            self.limits.prevent_duplicate_requests,
        ensures
            r == self.dispatched@.contains(url@),
    {
        let mut i: usize = 0;
        while i < self.processed.len()
            invariant
                i <= self.processed@.len(),
                self.seen() == self.dispatched@,
                forall|j: int| 0 <= j < i ==> self.dispatched@[j] != url@,
            decreases self.processed@.len() - i,
        {
            assert(self.processed@[i as int]@ == self.seen()[i as int]);
            if str_eq(self.processed[i].as_str(), url) {
                assert(self.dispatched@[i as int] == url@);
                return true;
            }
            i += 1;
        }
        false
    }

    /// Handles one message: a work item is dispatched, and returned, only
    /// while work is taken and, with duplicate prevention on, only if its URL
    /// was not dispatched before. A tick dispatches nothing.
    pub fn on_action(&mut self, action: Action) -> (r: Option<UrlItem>)
        requires
            old(self).wf(),
        ensures
            final(self).wf(),
            final(self).limits == old(self).limits,
            final(self).should_process_work == old(self).should_process_work,
            final(self).requested_stop_at == old(self).requested_stop_at,
            match action {
                Action::Ping => r is None,
                Action::ProcessURL(item) => {
                    let fresh = !(old(self).limits.prevent_duplicate_requests && old(
                        self,
                    ).dispatched@.contains(item.url.href@));
                    let room = old(self).limits.requests matches Some(c) ==> old(
                        self,
                    ).total_processed < c;
                    if old(self).should_process_work && fresh && room && old(self).total_processed
                        < u64::MAX {
                        r matches Some(i) && i@ == item@
                    } else {
                        r is None
                    }
                },
            },
            r matches Some(i) ==> final(self).total_processed == old(self).total_processed + 1
                && final(self).dispatched@ == old(self).dispatched@.push(i.url.href@),
            r is None ==> final(self).total_processed == old(self).total_processed
                && final(self).dispatched == old(self).dispatched,
    {
        match action {
            Action::Ping => None,
            Action::ProcessURL(item) => {
                if !self.should_process_work {
                    return None;
                }
                if self.limits.prevent_duplicate_requests && self.was_dispatched(
                    item.url.href.as_str(),
                ) {
                    return None;
                }
                if let Some(c) = self.limits.requests {
                    if self.total_processed >= c {
                        return None;
                    }
                }
                if self.total_processed == u64::MAX {
                    return None;
                }
                self.total_processed = self.total_processed + 1;
                let ghost url = item.url.href@;
                self.dispatched = Ghost(self.dispatched@.push(url));
                if self.limits.prevent_duplicate_requests {
                    let ghost before = self.processed@;
                    self.processed.push(item.url.href.clone());
                    assert(self.processed@ == before.push(self.processed@.last()));
                    assert(self.seen() =~= self.dispatched@);
                }
                Some(item)
            },
        }
    }
}

/// The number of items dispatched never exceeds the request cap, so neither
/// does the number of results, one per dispatched item.
pub proof fn lemma_dispatched_within_cap(d: Dispatcher)
    requires
        d.wf(),
    ensures
        d.limits.requests matches Some(c) ==> d.dispatched@.len() <= c,
{
}

/// With duplicate prevention on, the URLs of the dispatched items are distinct.
pub proof fn lemma_dispatched_distinct(d: Dispatcher)
    requires
        d.wf(),
        d.limits.prevent_duplicate_requests,
    ensures
        forall|i: int, j: int|
            0 <= i < j < d.dispatched@.len() ==> d.dispatched@[i] != d.dispatched@[j],
{
}

/// Once a stop was asked for at `t`, the first check made more than one
/// request timeout after `t` ends the loop, whatever is still in flight.
pub proof fn lemma_stop_bounded(d: Dispatcher, now: u64, permits: usize)
    requires
        d.wf(),
        d.requested_stop_at matches Some(t) && now > t && now - t > d.limits.timeout,
    ensures
        loop_step(d, now, permits) == LoopStep::Exit,
{
}

} // verus!
