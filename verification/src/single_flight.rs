//! Single-flight query execution.
//!
//! Of concurrent callers with the same key the first (the leader) executes the query,
//! while the others (followers) await the leader's shared result. An entry stands for
//! each execution in flight and is removed when its leader finishes, however it
//! finishes, so that a later call executes again instead of waiting forever.
use crate::telemetry::{cache_request, emitted, record_coalesced, Emission};
use crate::text::owned;
use crate::textmap::TextMap;
use vstd::prelude::*;

verus! {

/// The executions in flight: of each key, how many followers await its leader.
pub type Flights = Map<Seq<char>, u64>;

/// Request coalescing by key: sits in front of the cache-backed execution.
#[derive(Debug)]
pub struct SingleFlight {
    flights: TextMap<u64>,
}

impl View for SingleFlight {
    type V = Flights;

    closed spec fn view(&self) -> Flights {
        self.flights@
    }
}

/// What a caller has to do.
#[derive(Debug, Clone, Copy, PartialEq, Eq, Structural)]
pub enum Role {
    /// Execute the query, publish the outcome, then finish the flight.
    Leader,
    /// Await what the leader publishes.
    Follower,
}

/// One more follower.
pub open spec fn one_more(followers: u64) -> u64 {
    if followers == u64::MAX {
        0
    } else {
        (followers + 1) as u64
    }
}

/// The role of a caller: it leads where no execution of its key is in flight.
pub open spec fn role(flights: Flights, key: Seq<char>) -> Role {
    if flights.dom().contains(key) {
        Role::Follower
    } else {
        Role::Leader
    }
}

/// The executions in flight after a call.
pub open spec fn called(flights: Flights, key: Seq<char>) -> Flights {
    if flights.dom().contains(key) {
        flights.insert(key, one_more(flights[key]))
    } else {
        flights.insert(key, 0)
    }
}

/// What a caller does next with what it received of its leader.
#[derive(Debug)]
pub enum Next<T> {
    /// Answer with the shared outcome.
    Answer(Result<T, String>),
    /// Execute the query itself.
    Execute,
}

impl SingleFlight {
    /// An empty single-flight table.
    pub fn new() -> (r: SingleFlight)
        ensures
            r@ == Map::<Seq<char>, u64>::empty(),
    {
        SingleFlight { flights: TextMap::new() }
    }

    /// Claim leadership of a key or subscribe to its leader: if no identical query is in
    /// flight, the caller leads; otherwise it follows, which is recorded as a coalesced
    /// hit.
    pub fn run(&mut self, key: &str, log: &mut Vec<Emission>) -> (r: Role)
        ensures
            r == role(old(self)@, key@),
            final(self)@ == called(old(self)@, key@),
            emitted(final(log)@) == if r is Follower {
                emitted(old(log)@).push(cache_request("coalesced"@))
            } else {
                emitted(old(log)@)
            },
    {
        let found = match self.flights.get(key) {
            Some(n) => Some(*n),
            None => None,
        };
        let mut flights = TextMap::new();
        std::mem::swap(&mut flights, &mut self.flights);
        match found {
            Some(n) => {
                let next: u64 = if n == u64::MAX {
                    0
                } else {
                    n + 1
                };
                self.flights = flights.with(owned(key), next);
                record_coalesced(log);
                Role::Follower
            },
            None => {
                self.flights = flights.with(owned(key), 0);
                Role::Leader
            },
        }
    }

    /// The leader of a key is done, whether it returned, failed, panicked or was
    /// cancelled.
    pub fn finish(&mut self, key: &str)
        ensures
            final(self)@ == old(self)@.remove(key@),
    {
        let mut flights = TextMap::new();
        std::mem::swap(&mut flights, &mut self.flights);
        self.flights = flights.take(key).0;
    }

    /// Followers currently coalesced onto the key's execution (0 when none).
    pub fn waiters(&self, key: &str) -> (r: u64)
        ensures
            r == if self@.dom().contains(key@) {
                self@[key@]
            } else {
                0
            },
    {
        match self.flights.get(key) {
            Some(n) => *n,
            None => 0,
        }
    }
}

/// What a follower does with what it received: it shares the leader's outcome, success
/// or failure; where the leader vanished without publishing, it executes the query
/// itself.
pub fn receive<T>(received: Option<Result<T, String>>) -> (r: Next<T>)
    ensures
        received matches Some(outcome) ==> r == Next::Answer(outcome),
        received is None ==> r is Execute,
{
    match received {
        Some(outcome) => Next::Answer(outcome),
        None => Next::Execute,
    }
}

/// What happens to the table.
pub enum Event {
    /// A call with a key.
    Call(Seq<char>),
    /// The leader of a key finishes.
    Finish(Seq<char>),
}

/// The executions in flight after some events.
pub open spec fn after(events: Seq<Event>) -> Flights
    decreases events.len(),
{
    if events.len() == 0 {
        Map::empty()
    } else {
        let before = after(events.drop_last());
        match events.last() {
            Event::Call(key) => called(before, key),
            Event::Finish(key) => before.remove(key),
        }
    }
}

/// Whether only keys in flight are finished: each leader finishes once.
pub open spec fn orderly(events: Seq<Event>) -> bool
    decreases events.len(),
{
    events.len() > 0 ==> orderly(events.drop_last()) && match events.last() {
        Event::Call(_) => true,
        Event::Finish(key) => after(events.drop_last()).dom().contains(key),
    }
}

/// How many calls with a key were told to lead.
pub open spec fn leaders(events: Seq<Event>, key: Seq<char>) -> nat
    decreases events.len(),
{
    if events.len() == 0 {
        0
    } else {
        let before = leaders(events.drop_last(), key);
        match events.last() {
            Event::Call(k) => if k == key && role(after(events.drop_last()), key) is Leader {
                before + 1
            } else {
                before
            },
            Event::Finish(_) => before,
        }
    }
}

/// How many leaders of a key finished.
pub open spec fn finished(events: Seq<Event>, key: Seq<char>) -> nat
    decreases events.len(),
{
    if events.len() == 0 {
        0
    } else {
        let before = finished(events.drop_last(), key);
        match events.last() {
            Event::Call(_) => before,
            Event::Finish(k) => if k == key {
                before + 1
            } else {
                before
            },
        }
    }
}

/// Of each key at most one execution is in flight at a time: one where it has an entry,
/// and none where it has not.
pub proof fn one_leader_at_a_time(events: Seq<Event>, key: Seq<char>)
    requires
        orderly(events),
    ensures
        leaders(events, key) == finished(events, key) + if after(events).dom().contains(key) {
            1nat
        } else {
            0nat
        },
    decreases events.len(),
{
    if events.len() > 0 {
        one_leader_at_a_time(events.drop_last(), key);
    }
}

/// After the leader of a key finished, the next call with that key leads: nothing is
/// kept of the outcome.
pub proof fn finished_keys_execute_again(flights: Flights, key: Seq<char>)
    ensures
        role(flights.remove(key), key) is Leader,
{
}

/// Distinct keys do not wait for each other: neither a call nor a finish changes the
/// role or the followers of another key.
pub proof fn distinct_keys_are_independent(flights: Flights, key: Seq<char>, other: Seq<char>)
    requires
        key != other,
    ensures
        role(called(flights, key), other) == role(flights, other),
        role(flights.remove(key), other) == role(flights, other),
        flights.dom().contains(other) ==> called(flights, key)[other] == flights[other]
            && flights.remove(key)[other] == flights[other],
{
}

} // verus!
