//! Reliable broadcast: one user message is sent to the group with an
//! id, and resent until the matching acknowledgement arrives or
//! `MAX_RETRY` attempts are exhausted. Each attempt sends once and then
//! waits one window for at most one acknowledgement notification; a
//! notification with the wrong id ends the window without a match.

use vstd::prelude::*;

use crate::constants::MAX_RETRY;

verus! {

/// The process-wide message id source: ids start at 1, grow
/// monotonically, and are never reused or recycled.
pub struct MessageIdCounter {
    next: u64,
}

impl MessageIdCounter {
    /// The id the next allocation will hand out.
    pub closed spec fn spec_next(self) -> u64 {
        self.next
    }

    /// A fresh counter whose first id is 1.
    pub fn new() -> (r: MessageIdCounter)
        ensures
            r.spec_next() == 1,
    {
        MessageIdCounter { next: 1 }
    }

    /// The id the next allocation will hand out, without advancing.
    pub fn peek(&self) -> (r: u64)
        ensures
            r == self.spec_next(),
    {
        self.next
    }

    /// Hands out the next id and advances the counter: ids are strictly
    /// increasing, so no two allocations return the same id.
    pub fn allocate(&mut self) -> (id: u64)
        requires
            old(self).spec_next() < u64::MAX,
        ensures
            id == old(self).spec_next(),
            final(self).spec_next() == old(self).spec_next() + 1,
    {
        let id = self.next;
        self.next = self.next + 1;
        id
    }
}

/// One in-flight reliable broadcast, owned by the call performing it.
pub struct PendingSend {
    pub id: u64,
    pub payload: Vec<u8>,
    pub attempts_used: u64,
}

/// What recording one attempt's window yields.
pub enum AttemptOutcome {
    /// The matching acknowledgement arrived: delivery succeeded.
    Delivered,
    /// No match and attempts remain: send again.
    RetryNeeded,
    /// No match and the last attempt is spent: report failure.
    Exhausted,
}

impl PendingSend {
    /// A new pending send with no attempts used yet.
    pub fn new(id: u64, payload: Vec<u8>) -> (r: PendingSend)
        ensures
            r.id == id,
            r.payload == payload,
            r.attempts_used == 0,
    {
        PendingSend { id, payload, attempts_used: 0 }
    }

    /// Records one attempt: the message was sent once and its window
    /// ended with `event` — the id of an acknowledgement notification,
    /// or nothing on timeout. Only the exact id counts as a match.
    pub fn record_attempt(&mut self, event: Option<u64>) -> (r: AttemptOutcome)
        requires
            old(self).attempts_used < MAX_RETRY,
        ensures
            final(self).id == old(self).id,
            final(self).payload == old(self).payload,
            final(self).attempts_used == old(self).attempts_used + 1,
            r is Delivered <==> event == Some(old(self).id),
            r is Exhausted <==> (event != Some(old(self).id) && final(self).attempts_used
                == MAX_RETRY),
            r is RetryNeeded <==> (event != Some(old(self).id) && final(self).attempts_used
                < MAX_RETRY),
    {
        self.attempts_used = self.attempts_used + 1;
        let matched = match event {
            Some(got) => got == self.id,
            None => false,
        };
        if matched {
            AttemptOutcome::Delivered
        } else if self.attempts_used == MAX_RETRY {
            AttemptOutcome::Exhausted
        } else {
            AttemptOutcome::RetryNeeded
        }
    }
}

/// Whether a run over window outcomes `events` with `budget` attempts
/// left reaches the matching acknowledgement.
pub open spec fn spec_delivered(id: u64, events: Seq<Option<u64>>, budget: nat) -> bool
    decreases budget,
{
    budget > 0 && events.len() > 0 && (events[0] == Some(id) || spec_delivered(
        id,
        events.skip(1),
        (budget - 1) as nat,
    ))
}

/// How many sends a run over window outcomes `events` with `budget`
/// attempts left makes: one per attempt, stopping at the first match.
pub open spec fn spec_sends(id: u64, events: Seq<Option<u64>>, budget: nat) -> nat
    decreases budget,
{
    if budget == 0 || events.len() == 0 {
        0
    } else if events[0] == Some(id) {
        1
    } else {
        1 + spec_sends(id, events.skip(1), (budget - 1) as nat)
    }
}

/// The outcome of a full reliable-broadcast run.
pub struct DeliveryReport {
    pub attempts: u64,
    pub delivered: bool,
}

/// Runs the whole retry protocol against the given window outcomes,
/// one per attempt: the I/O shell drives [`PendingSend`] exactly like
/// this, performing one send before each recorded window.
pub fn run_delivery(id: u64, payload: Vec<u8>, events: &Vec<Option<u64>>) -> (r: DeliveryReport)
    requires
        events@.len() >= MAX_RETRY,
    ensures
        r.attempts as nat == spec_sends(id, events@, MAX_RETRY as nat),
        r.delivered == spec_delivered(id, events@, MAX_RETRY as nat),
        1 <= r.attempts <= MAX_RETRY,
{
    let mut pending = PendingSend::new(id, payload);
    let mut k: usize = 0;
    proof {
        assert(events@.skip(0) =~= events@);
    }
    while (k as u64) < MAX_RETRY
        invariant
            pending.id == id,
            pending.attempts_used == k as u64,
            k as u64 <= MAX_RETRY,
            events@.len() >= MAX_RETRY,
            spec_sends(id, events@, MAX_RETRY as nat) == k + spec_sends(
                id,
                events@.skip(k as int),
                (MAX_RETRY - k) as nat,
            ),
            spec_delivered(id, events@, MAX_RETRY as nat) == spec_delivered(
                id,
                events@.skip(k as int),
                (MAX_RETRY - k) as nat,
            ),
        decreases MAX_RETRY - k,
    {
        let ev = events[k];
        let outcome = pending.record_attempt(ev);
        proof {
            assert(events@.skip(k as int)[0] == events@[k as int]);
        }
        match outcome {
            AttemptOutcome::Delivered => {
                return DeliveryReport { attempts: (k + 1) as u64, delivered: true };
            },
            _ => {},
        }
        proof {
            assert(events@.skip(k as int).skip(1) =~= events@.skip(k as int + 1));
        }
        k = k + 1;
    }
    DeliveryReport { attempts: MAX_RETRY, delivered: false }
}

proof fn lemma_run_no_match(id: u64, events: Seq<Option<u64>>, budget: nat)
    requires
        budget <= events.len(),
        forall|i: int| 0 <= i < events.len() ==> events[i] != Some(id),
    ensures
        spec_sends(id, events, budget) == budget,
        !spec_delivered(id, events, budget),
    decreases budget,
{
    if budget > 0 {
        assert(events[0] != Some(id));
        assert(forall|i: int| 0 <= i < events.skip(1).len() ==> events.skip(1)[i] == events[i + 1]);
        lemma_run_no_match(id, events.skip(1), (budget - 1) as nat);
    }
}

proof fn lemma_run_first_match(id: u64, events: Seq<Option<u64>>, budget: nat, k: int)
    requires
        0 <= k < budget,
        k < events.len(),
        events[k] == Some(id),
        forall|i: int| 0 <= i < k ==> events[i] != Some(id),
    ensures
        spec_sends(id, events, budget) == k + 1,
        spec_delivered(id, events, budget),
    decreases budget,
{
    if k > 0 {
        assert(events[0] != Some(id));
        assert(forall|i: int| 0 <= i < events.skip(1).len() ==> events.skip(1)[i] == events[i + 1]);
        lemma_run_first_match(id, events.skip(1), (budget - 1) as nat, k - 1);
    }
}

/// If no matching acknowledgement ever arrives, a reliable broadcast
/// makes exactly `MAX_RETRY` sends and reports failure.
pub proof fn lemma_no_ack_exhausts_retries(id: u64, events: Seq<Option<u64>>)
    requires
        events.len() >= MAX_RETRY,
        forall|i: int| 0 <= i < events.len() ==> events[i] != Some(id),
    ensures
        spec_sends(id, events, MAX_RETRY as nat) == MAX_RETRY,
        !spec_delivered(id, events, MAX_RETRY as nat),
{
    lemma_run_no_match(id, events, MAX_RETRY as nat);
}

/// If the matching acknowledgement first arrives in the window of
/// attempt `k + 1 <= MAX_RETRY`, sending stops after that attempt and
/// the run reports success.
pub proof fn lemma_ack_stops_retries(id: u64, events: Seq<Option<u64>>, k: int)
    requires
        events.len() >= MAX_RETRY,
        0 <= k < MAX_RETRY,
        events[k] == Some(id),
        forall|i: int| 0 <= i < k ==> events[i] != Some(id),
    ensures
        spec_sends(id, events, MAX_RETRY as nat) == k + 1,
        spec_delivered(id, events, MAX_RETRY as nat),
{
    lemma_run_first_match(id, events, MAX_RETRY as nat, k);
}

} // verus!
