//! Decisions of the envelope buffer service: which partition an envelope goes to, when an
//! envelope has expired, what to do with the envelope at the head of the buffer, and how long the
//! service waits before it looks again.

use fnv::FnvHasher;
use std::hash::Hasher;
use std::sync::atomic::{AtomicBool, Ordering};
use std::sync::Arc;
use vstd::prelude::*;

use crate::project::ProjectKey;
use crate::time::{
    clamp, read_system_clock, reading_offset, total_nanos, ClockReading, Duration, Instant,
    MAX_DURATION_NANOS, NANOS_PER_SEC,
};

verus! {

/// Message interface of the envelope buffer service, over the envelope type `E`.
#[derive(Debug)]
pub enum EnvelopeBuffer<E> {
    /// A fresh envelope that gets pushed into the buffer by the request handler.
    Push(E),
    /// Informs the service that a project has no valid project state and must be marked as not
    /// ready. The envelope is pushed back into the envelope buffer.
    NotReady(ProjectKey, E),
}

impl<E> EnvelopeBuffer<E> {
    /// Returns the name of this message.
    pub fn name(&self) -> (r: &'static str)
        ensures
            self is Push ==> r@ == "push"@,
            self is NotReady ==> r@ == "project_not_ready"@,
    {
        match self {
            EnvelopeBuffer::Push(_) => "push",
            EnvelopeBuffer::NotReady(..) => "project_not_ready",
        }
    }
}

/// The pair of project keys that an envelope is routed by: its own and its sampling project's.
#[derive(Clone, Copy, Debug, PartialEq, Eq, Hash, Structural)]
pub struct ProjectKeyPair {
    /// The key of the envelope's own project.
    pub own_key: ProjectKey,
    /// The key of the project that makes the sampling decision.
    pub sampling_key: ProjectKey,
}

impl ProjectKeyPair {
    /// Creates a pair of project keys.
    pub fn new(own_key: ProjectKey, sampling_key: ProjectKey) -> (r: Self)
        ensures
            r.own_key == own_key,
            r.sampling_key == sampling_key,
    {
        ProjectKeyPair { own_key, sampling_key }
    }
}

/// The 64-bit FNV-1a hash of `bytes`: starting from the offset basis, each byte is xored in and
/// the state multiplied by the FNV prime, wrapping at 64 bits.
pub open spec fn spec_fnv1a(bytes: Seq<u8>) -> u64
    decreases bytes.len(),
{
    if bytes.len() == 0 {
        0xcbf29ce484222325
    } else {
        ((spec_fnv1a(bytes.drop_last()) ^ (bytes.last() as u64)) as int * 0x100000001b3int) as u64
    }
}

/// Hashes `bytes` with `fnv::FnvHasher` (`default`, `write`, `finish`): its source computes 64-bit
/// FNV-1a, which is what the contract states.
#[verifier::external_body]
fn fnv1a_64(bytes: &[u8]) -> (h: u64)
    ensures
        h == spec_fnv1a(bytes@),
{
    let mut hasher = FnvHasher::default();
    hasher.write(bytes);
    hasher.finish()
}

/// The `n` lowest bytes of `x`, least significant first.
pub open spec fn le_bytes(x: nat, n: nat) -> Seq<u8>
    decreases n,
{
    if n == 0 {
        Seq::empty()
    } else {
        seq![(x % 256) as u8] + le_bytes(x / 256, (n - 1) as nat)
    }
}

/// The bytes that stand for a pair of project keys: both halves of the own key, then both halves
/// of the sampling key, each as 16 bytes, least significant first.
pub open spec fn key_pair_bytes(pair: ProjectKeyPair) -> Seq<u8> {
    le_bytes(pair.own_key.high as nat, 16) + le_bytes(pair.own_key.low as nat, 16) + le_bytes(
        pair.sampling_key.high as nat,
        16,
    ) + le_bytes(pair.sampling_key.low as nat, 16)
}

/// The partition, among `partitions`, that envelopes of `pair` go to.
pub open spec fn spec_partition(pair: ProjectKeyPair, partitions: nat) -> nat {
    (spec_fnv1a(key_pair_bytes(pair)) as nat) % partitions
}

/// Appends the 16 bytes of `x`, least significant first.
fn push_le_bytes(out: &mut Vec<u8>, x: u128)
    ensures
        final(out)@ == old(out)@ + le_bytes(x as nat, 16),
{
    let mut v = x;
    let mut i: usize = 0;
    while i < 16
        invariant
            i <= 16,
            out@ + le_bytes(v as nat, (16 - i) as nat) == old(out)@ + le_bytes(x as nat, 16),
        decreases 16 - i,
    {
        let ghost before = out@;
        let ghost rest = (16 - i) as nat;
        out.push((v % 256) as u8);
        proof {
            assert(le_bytes(v as nat, rest) == seq![((v as nat) % 256) as u8] + le_bytes(
                (v as nat) / 256,
                (rest - 1) as nat,
            ));
            assert(out@ + le_bytes((v / 256) as nat, (rest - 1) as nat) =~= before + le_bytes(
                v as nat,
                rest,
            ));
        }
        v = v / 256;
        i = i + 1;
    }
    proof {
        assert(out@ + le_bytes(v as nat, 0) =~= out@);
    }
}

/// Returns the partition, among `partitions`, that envelopes with the given keys go to.
pub fn partition_of(pair: &ProjectKeyPair, partitions: usize) -> (r: usize)
    requires
        partitions > 0,
    ensures
        r == spec_partition(*pair, partitions as nat),
        r < partitions,
{
    let mut bytes: Vec<u8> = Vec::new();
    push_le_bytes(&mut bytes, pair.own_key.high);
    push_le_bytes(&mut bytes, pair.own_key.low);
    push_le_bytes(&mut bytes, pair.sampling_key.high);
    push_le_bytes(&mut bytes, pair.sampling_key.low);
    proof {
        assert(bytes@ =~= key_pair_bytes(*pair));
    }
    let hash = fnv1a_64(bytes.as_slice());
    (hash % (partitions as u64)) as usize
}

/// The address of one envelope buffer service, of type `A`, together with the capacity flag that
/// the service publishes, so that observers can check its capacity without sending a message.
#[derive(Debug, Clone)]
pub struct ObservableEnvelopeBuffer<A> {
    addr: A,
    has_capacity: Arc<AtomicBool>,
}

impl<A> ObservableEnvelopeBuffer<A> {
    /// Pairs a service's address with the capacity flag that it publishes.
    pub fn new(addr: A, has_capacity: Arc<AtomicBool>) -> (r: Self)
        ensures
            r.spec_addr() == addr,
            r.spec_flag() == has_capacity,
    {
        ObservableEnvelopeBuffer { addr, has_capacity }
    }

    /// The address of the buffer service.
    pub closed spec fn spec_addr(&self) -> A {
        self.addr
    }

    /// The capacity flag that the service publishes.
    pub closed spec fn spec_flag(&self) -> Arc<AtomicBool> {
        self.has_capacity
    }

    /// Returns the address of the buffer service.
    pub fn addr(&self) -> (r: &A)
        ensures
            *r == self.spec_addr(),
    {
        &self.addr
    }

    /// Returns `true` if the buffer has published that it can accept more elements. The flag is
    /// shared with the service, which may change it at any time.
    pub fn has_capacity(&self) -> bool {
        self.has_capacity.load(Ordering::Relaxed)
    }
}

/// A list of envelope buffers, to which envelopes are routed by their project key pair.
#[derive(Debug, Clone)]
pub struct PartitionedEnvelopeBuffer<A> {
    buffers: Arc<Vec<ObservableEnvelopeBuffer<A>>>,
}

impl<A> PartitionedEnvelopeBuffer<A> {
    /// The partitions, in order.
    pub closed spec fn partitions(&self) -> Seq<ObservableEnvelopeBuffer<A>> {
        (*self.buffers)@
    }

    /// Creates a partitioned buffer with no partitions.
    pub fn empty() -> (r: Self)
        ensures
            r.partitions().len() == 0,
    {
        PartitionedEnvelopeBuffer { buffers: Arc::new(Vec::new()) }
    }

    /// Creates a partitioned buffer over the given partitions, in order.
    pub fn from_buffers(buffers: Vec<ObservableEnvelopeBuffer<A>>) -> (r: Self)
        ensures
            r.partitions() == buffers@,
    {
        PartitionedEnvelopeBuffer { buffers: Arc::new(buffers) }
    }

    /// Returns the number of partitions.
    pub fn len(&self) -> (r: usize)
        ensures
            r == self.partitions().len(),
    {
        self.buffers.len()
    }

    /// Returns the buffer to which envelopes with the given project key pair are sent. Spreading
    /// projects over buffers keeps each buffer's memory small.
    pub fn buffer(&self, project_key_pair: ProjectKeyPair) -> (r: Option<&ObservableEnvelopeBuffer<A>>)
        requires
            self.partitions().len() > 0,
        ensures
            r == Some(&self.partitions()[spec_partition(project_key_pair, self.partitions().len()) as int]),
    {
        let buffers: &Vec<ObservableEnvelopeBuffer<A>> = &*self.buffers;
        let index = partition_of(&project_key_pair, buffers.len());
        Some(&buffers[index])
    }

    /// Returns `true` if all buffers have published that they can accept envelopes; `true` if
    /// there are no buffers, as then buffering is not set up.
    ///
    /// Each buffer's flag is read once, in order; the flags are shared with the services, so
    /// which values are read is not known here.
    pub fn has_capacity(&self) -> (r: bool)
        ensures
            exists|flags: Seq<bool>|
                #![trigger flags.len()]
                flags.len() == self.partitions().len() && r == all_set(flags),
    {
        let buffers: &Vec<ObservableEnvelopeBuffer<A>> = &*self.buffers;
        let mut flags: Vec<bool> = Vec::new();
        let mut i: usize = 0;
        while i < buffers.len()
            invariant
                i <= buffers@.len(),
                flags@.len() == i,
            decreases buffers@.len() - i,
        {
            flags.push(buffers[i].has_capacity());
            i = i + 1;
        }
        all_have_capacity(flags.as_slice())
    }
}

/// Whether every flag in `flags` is set.
pub open spec fn all_set(flags: Seq<bool>) -> bool {
    forall|i: int| 0 <= i < flags.len() ==> #[trigger] flags[i]
}

/// Returns `true` if every flag in `flags` is set, and so `true` for no flags.
pub fn all_have_capacity(flags: &[bool]) -> (r: bool)
    ensures
        r == all_set(flags@),
{
    let mut i: usize = 0;
    while i < flags.len()
        invariant
            i <= flags@.len(),
            forall|j: int| 0 <= j < i ==> #[trigger] flags@[j],
        decreases flags@.len() - i,
    {
        if !flags[i] {
            return false;
        }
        i = i + 1;
    }
    true
}

/// A wall-clock time, in nanoseconds since the Unix epoch (negative before it).
#[derive(Clone, Copy, Debug, PartialEq, Eq, Hash, Structural)]
pub struct UtcTime {
    pub nanos: i64,
}

impl UtcTime {
    /// The wall-clock time that a reading of the system clock stands for: its offset from the
    /// epoch in nanoseconds, held to the range of `i64`.
    pub fn from_reading(reading: ClockReading) -> (r: UtcTime)
        ensures
            r.nanos == clamp(reading_offset(reading), i64::MIN as int, i64::MAX as int),
    {
        let n = total_nanos(reading.secs, reading.subsec_nanos);
        if reading.before_epoch {
            if n > 0x8000_0000_0000_0000u128 {
                UtcTime { nanos: i64::MIN }
            } else {
                UtcTime { nanos: (0i128 - n as i128) as i64 }
            }
        } else if n > i64::MAX as u128 {
            UtcTime { nanos: i64::MAX }
        } else {
            UtcTime { nanos: n as i64 }
        }
    }

    /// The current wall-clock time, read from the system clock.
    ///
    /// Two calls may give any two values: nothing is promised of the result.
    pub fn now() -> (r: UtcTime) {
        UtcTime::from_reading(read_system_clock())
    }
}

/// Whether an envelope received at `received_at` is older than `max_age` at `now`: its age must be
/// non-negative and exceed `max_age`.
pub open spec fn spec_is_expired(received_at: UtcTime, now: UtcTime, max_age: Duration) -> bool {
    let age = now.nanos - received_at.nanos;
    age >= 0 && age > max_age.nanos
}

/// Returns whether an envelope received at `received_at` is older than `max_age` at `now`.
pub fn is_expired_at(received_at: UtcTime, now: UtcTime, max_age: Duration) -> (r: bool)
    ensures
        r == spec_is_expired(received_at, now, max_age),
{
    let age: i128 = now.nanos as i128 - received_at.nanos as i128;
    if age < 0 {
        return false;
    }
    age as u128 > max_age.nanos
}

/// Returns whether an envelope received at `received_at` is older than `max_age` now.
pub fn is_expired(received_at: UtcTime, max_age: Duration) -> (r: bool)
    ensures
        exists|now: UtcTime| r == #[trigger] spec_is_expired(received_at, now, max_age),
{
    is_expired_at(received_at, UtcTime::now(), max_age)
}

/// The maximum time between evaluations of the dequeue conditions: one second.
pub open spec fn default_sleep() -> Duration {
    Duration { nanos: NANOS_PER_SEC }
}

/// A wait that lasts until something else wakes the service.
pub open spec fn forever() -> Duration {
    Duration { nanos: MAX_DURATION_NANOS }
}

/// What the head of the buffer holds.
#[derive(Clone, Copy, Debug, PartialEq, Eq)]
pub enum Peek {
    /// The buffer is empty.
    Empty,
    /// The head envelope's projects are ready.
    Ready {
        /// When the head envelope was received.
        last_received_at: UtcTime,
    },
    /// The head envelope's projects are not ready.
    NotReady {
        /// The projects of the head envelope.
        project_key_pair: ProjectKeyPair,
        /// The earliest time at which their states are fetched again.
        next_project_fetch: Instant,
        /// When the head envelope was received.
        last_received_at: UtcTime,
    },
}

/// What the service does with the head of the buffer.
#[derive(Clone, Copy, Debug, PartialEq, Eq)]
pub enum PopAction {
    /// Nothing: the buffer is empty.
    Wait,
    /// Pop the head envelope and reject it as expired.
    DropExpired,
    /// Pop the head envelope and hand it on to the project cache.
    Dequeue,
    /// Fetch the states of the projects again (`fetch_own`, and `fetch_sampling` where the
    /// sampling project differs), then mark `project_key_pair` as seen, which deprioritizes its
    /// envelopes and sets its next fetch.
    Refetch {
        /// The envelope's own project, whose state is fetched.
        fetch_own: ProjectKey,
        /// The sampling project, whose state is fetched too where it is another project.
        fetch_sampling: Option<ProjectKey>,
        /// The pair that is marked as seen.
        project_key_pair: ProjectKeyPair,
    },
    /// Leave the head envelope in place.
    Hold,
}

/// Fetching the states of a pair's projects again, each project once, and marking the pair as
/// seen.
pub open spec fn spec_refetch(pair: ProjectKeyPair) -> PopAction {
    PopAction::Refetch {
        fetch_own: pair.own_key,
        fetch_sampling: if pair.sampling_key != pair.own_key {
            Some(pair.sampling_key)
        } else {
            None
        },
        project_key_pair: pair,
    }
}

/// What the service does with the head of the buffer and how long it then sleeps.
pub open spec fn spec_decide_pop(peek: Peek, utc_now: UtcTime, max_age: Duration, now: Instant) -> (PopAction, Duration) {
    match peek {
        Peek::Empty => (PopAction::Wait, forever()),
        Peek::Ready { last_received_at } => if spec_is_expired(last_received_at, utc_now, max_age) {
            (PopAction::DropExpired, Duration { nanos: 0 })
        } else {
            (PopAction::Dequeue, Duration { nanos: 0 })
        },
        Peek::NotReady { project_key_pair, next_project_fetch, last_received_at } => if spec_is_expired(
            last_received_at,
            utc_now,
            max_age,
        ) {
            (PopAction::DropExpired, Duration { nanos: 0 })
        } else if now.nanos >= next_project_fetch.nanos {
            (spec_refetch(project_key_pair), default_sleep())
        } else {
            (PopAction::Hold, default_sleep())
        },
    }
}

/// Decides what to do with the head of the buffer, given the wall-clock time `utc_now`, the
/// maximum envelope age and the library clock's time `now`: expired envelopes are dropped, ready
/// ones are dequeued, and not ready projects are fetched again and marked as seen once their next
/// fetch is due. Returns the action and how long to sleep afterwards: not at all after a pop,
/// until woken for an empty buffer, and the default sleep for a project that is not ready.
pub fn decide_pop(peek: &Peek, utc_now: UtcTime, max_age: Duration, now: Instant) -> (r: (PopAction, Duration))
    ensures
        r == spec_decide_pop(*peek, utc_now, max_age, now),
{
    let default_sleep = Duration::from_nanos(NANOS_PER_SEC);
    match *peek {
        Peek::Empty => (PopAction::Wait, Duration::longest()),
        Peek::Ready { last_received_at } => {
            if is_expired_at(last_received_at, utc_now, max_age) {
                (PopAction::DropExpired, Duration::zero())
            } else {
                (PopAction::Dequeue, Duration::zero())
            }
        },
        Peek::NotReady { project_key_pair, next_project_fetch, last_received_at } => {
            if is_expired_at(last_received_at, utc_now, max_age) {
                (PopAction::DropExpired, Duration::zero())
            } else if now.nanos >= next_project_fetch.nanos {
                let own = project_key_pair.own_key;
                let sampling = project_key_pair.sampling_key;
                let fetch_sampling = if sampling.high != own.high || sampling.low != own.low {
                    Some(sampling)
                } else {
                    None
                };
                (PopAction::Refetch { fetch_own: own, fetch_sampling, project_key_pair }, default_sleep)
            } else {
                (PopAction::Hold, default_sleep)
            }
        },
    }
}

/// Whether the service may take envelopes out of the buffer: memory must allow it (always for an
/// in-memory buffer, which shrinks when popped), the global config must be ready, and dequeuing
/// must be switched on.
pub fn dequeue_ready(is_memory: bool, memory_ready: bool, global_config_ready: bool, dequeue: bool) -> (r: bool)
    ensures
        r == ((is_memory || memory_ready) && global_config_ready && dequeue),
{
    (is_memory || memory_ready) && global_config_ready && dequeue
}

/// Whether a shutdown with the given grace period ends the service: only a graceful shutdown,
/// one with a timeout, does, and only if the buffer finished shutting down (`Some(true)`) within
/// it.
pub fn shutdown_completed(timeout: Option<Duration>, finished: Option<bool>) -> (r: bool)
    ensures
        r == (timeout is Some && finished == Some(true)),
{
    match timeout {
        Some(_) => match finished {
            Some(done) => done,
            None => false,
        },
        None => false,
    }
}

/// What woke the service's loop.
#[derive(Clone, Copy, Debug, PartialEq, Eq)]
pub enum LoopEvent {
    /// An attempt to pop finished, with the sleep that it asked for, or `None` if it failed.
    Popped(Option<Duration>),
    /// A project changed; it carries the key of a project that became ready.
    ProjectChanged(Option<ProjectKey>),
    /// A message was handled.
    Message,
    /// A shutdown was handled; it carries whether the service is done.
    Shutdown(bool),
    /// The global config changed.
    GlobalConfigChanged,
    /// All sources of events are closed.
    Closed,
}

/// What the service's loop does after an event.
#[derive(Clone, Copy, Debug, PartialEq, Eq)]
pub enum LoopStep {
    /// Keep running: mark the project as ready, if there is one, and sleep for `sleep` before
    /// trying to pop again.
    Continue { sleep: Duration, mark_ready: Option<ProjectKey> },
    /// Stop the service.
    Stop,
}

/// The loop's step after an event: a pop sets the sleep it asked for (a failed pop waits until
/// woken); project changes, messages and config changes make the next pop immediate; a finished
/// shutdown or closed sources stop the service.
pub open spec fn spec_next_step(event: LoopEvent) -> LoopStep {
    match event {
        LoopEvent::Popped(Some(sleep)) => LoopStep::Continue { sleep, mark_ready: None },
        LoopEvent::Popped(None) => LoopStep::Continue { sleep: forever(), mark_ready: None },
        LoopEvent::ProjectChanged(key) => LoopStep::Continue { sleep: Duration { nanos: 0 }, mark_ready: key },
        LoopEvent::Message => LoopStep::Continue { sleep: Duration { nanos: 0 }, mark_ready: None },
        LoopEvent::Shutdown(true) => LoopStep::Stop,
        LoopEvent::Shutdown(false) => LoopStep::Continue { sleep: forever(), mark_ready: None },
        LoopEvent::GlobalConfigChanged => LoopStep::Continue { sleep: Duration { nanos: 0 }, mark_ready: None },
        LoopEvent::Closed => LoopStep::Stop,
    }
}

/// Decides the service loop's next step after an event.
pub fn next_step(event: LoopEvent) -> (r: LoopStep)
    ensures
        r == spec_next_step(event),
{
    match event {
        LoopEvent::Popped(Some(sleep)) => LoopStep::Continue { sleep, mark_ready: None },
        LoopEvent::Popped(None) => LoopStep::Continue { sleep: Duration::longest(), mark_ready: None },
        LoopEvent::ProjectChanged(key) => LoopStep::Continue { sleep: Duration::zero(), mark_ready: key },
        LoopEvent::Message => LoopStep::Continue { sleep: Duration::zero(), mark_ready: None },
        LoopEvent::Shutdown(done) => if done {
            LoopStep::Stop
        } else {
            LoopStep::Continue { sleep: Duration::longest(), mark_ready: None }
        },
        LoopEvent::GlobalConfigChanged => LoopStep::Continue { sleep: Duration::zero(), mark_ready: None },
        LoopEvent::Closed => LoopStep::Stop,
    }
}

} // verus!
