//! Signals: tokens that travel along pipes, are routed at junctions, and fan
//! out where a junction branches.
//!
//! A position along a pipe is a fixed-point fraction: `POSITION_SCALE` is the
//! whole pipe, so a position in `[0, POSITION_SCALE)` lies on it. A speed is in
//! position units per second, and a time step in microseconds.

use vstd::prelude::*;

use crate::network::{Junction, Pipe, PipeNetwork};

verus! {

/// One whole pipe, in position units.
pub const POSITION_SCALE: u64 = 1_000_000;

/// Microseconds in a second.
pub const MICROS_PER_SECOND: u64 = 1_000_000;

/// The speed given to a signal when it leaves a junction: eight pipes a second.
pub const SIGNAL_SPEED: u64 = 8 * POSITION_SCALE;

/// Whose side a projectile, and a signal made from one, is on.
#[derive(Clone, Copy, Debug, PartialEq, Eq, Structural, Hash)]
pub enum Hostility {
    Friendly,
    Hostile,
}

/// What happens to a projectile when it touches something.
#[derive(Clone, Copy, Debug, PartialEq, Eq, Structural, Hash)]
pub enum ContactBehavior {
    /// Bounces off.
    Bounce,
    /// Is absorbed, that is despawned.
    Absorb,
}

impl ContactBehavior {
    /// Merges the behaviours of the two sides of a contact: the projectile
    /// bounces only when both sides bounce.
    pub fn and(self, other: ContactBehavior) -> (r: ContactBehavior)
        ensures
            r == (if self == ContactBehavior::Bounce && other == ContactBehavior::Bounce {
                ContactBehavior::Bounce
            } else {
                ContactBehavior::Absorb
            }),
    {
        match (self, other) {
            (ContactBehavior::Bounce, ContactBehavior::Bounce) => ContactBehavior::Bounce,
            _ => ContactBehavior::Absorb,
        }
    }
}

/// The payload of a signal.
#[derive(Clone, Copy, Debug, PartialEq, Eq, Structural, Hash)]
pub struct SignalData {
    /// Decides how projectiles at the other end are produced.
    pub hostility: Hostility,
}

/// A signal on its way from `source` to `destination`.
#[derive(Clone, Copy, Debug, PartialEq, Eq, Structural, Hash)]
pub struct Signal {
    pub data: SignalData,
    /// The junction it is travelling from.
    pub source: usize,
    /// The junction it is travelling to; `None` while it rests at `source`.
    pub destination: Option<usize>,
    /// How far along the pipe it is, in position units.
    pub position: u64,
    /// How far it goes in a second, in position units.
    pub speed: u64,
}

impl Signal {
    /// A signal resting at `source`, not yet sent anywhere.
    pub fn at(data: SignalData, source: usize) -> (r: Signal)
        ensures
            r == (Signal { data, source, destination: None, position: 0, speed: 0 }),
    {
        Signal { data, source, destination: None, position: 0, speed: 0 }
    }
}

/// Raised when a signal reaches the end of its pipe.
#[derive(Clone, Copy, Debug, PartialEq, Eq, Structural, Hash)]
pub struct SignalEvent {
    /// The junction the signal came from.
    pub sender: usize,
    /// The junction it reached.
    pub receiver: usize,
    /// The signal.
    pub signal: usize,
    /// How far past the end of the pipe it went, in position units.
    pub overfill: u64,
}

/// The junctions that a signal arriving from `sender` is sent on to: the
/// receivers of `pipes`, in order, leaving out those that lead back to
/// `sender`.
pub open spec fn outputs(pipes: Seq<Pipe>, sender: usize) -> Seq<usize>
    decreases pipes.len(),
{
    if pipes.len() == 0 {
        Seq::empty()
    } else {
        let before = outputs(pipes.drop_last(), sender);
        if pipes.last().receiver != sender {
            before.push(pipes.last().receiver)
        } else {
            before
        }
    }
}

/// The signal that leaves `ev.receiver` towards `destination` with `data`,
/// starting where the arriving one overshot.
pub open spec fn sent(data: SignalData, ev: SignalEvent, destination: usize) -> Signal {
    Signal {
        data,
        source: ev.receiver,
        destination: Some(destination),
        position: ev.overfill,
        speed: SIGNAL_SPEED,
    }
}

/// The junctions that a signal arriving at `junction` from `sender` is sent
/// on to, in the order of the junction's pipes.
pub fn junction_outputs(junction: &Junction, sender: usize) -> (r: Vec<usize>)
    ensures
        r@ == outputs(junction.pipes@, sender),
{
    let mut r: Vec<usize> = Vec::new();
    let mut i: usize = 0;
    while i < junction.pipes.len()
        invariant
            i <= junction.pipes@.len(),
            r@ == outputs(junction.pipes@.take(i as int), sender),
        decreases junction.pipes@.len() - i,
    {
        let receiver = junction.pipes[i].receiver;
        if receiver != sender {
            r.push(receiver);
        }
        assert(junction.pipes@.take(i + 1).drop_last() =~= junction.pipes@.take(i as int));
        i = i + 1;
    }
    assert(junction.pipes@.take(i as int) =~= junction.pipes@);
    r
}

/// How many of the slots hold a signal.
pub open spec fn live_count(slots: Seq<Option<Signal>>) -> nat
    decreases slots.len(),
{
    if slots.len() == 0 {
        0
    } else {
        live_count(slots.drop_last()) + if slots.last() is Some {
            1nat
        } else {
            0nat
        }
    }
}

/// What handling `ev` does to the slots of the signals. Nothing, when the
/// signal or the receiving junction does not exist, or when the new signals
/// would not fit in the slots. Else the signal is despawned where the
/// junction has no pipe but those back to the sender; otherwise it is sent
/// along the first remaining pipe, and a copy of it, at the same starting
/// position, is spawned along each other remaining pipe, in order.
pub open spec fn spec_handle(
    slots: Seq<Option<Signal>>,
    network: PipeNetwork,
    ev: SignalEvent,
) -> Seq<Option<Signal>> {
    let outs = outputs(network.junction_pipes(ev.receiver as int), ev.sender);
    if !(ev.signal < slots.len() && slots[ev.signal as int] is Some && network.has_junction(
        ev.receiver as int,
    )) {
        slots
    } else if outs.len() == 0 {
        slots.update(ev.signal as int, None)
    } else if slots.len() + outs.len() - 1 > usize::MAX {
        slots
    } else {
        let data = slots[ev.signal as int]->Some_0.data;
        slots.update(ev.signal as int, Some(sent(data, ev, outs[0]))) + outs.skip(1).map_values(
            |o: usize| Some(sent(data, ev, o)),
        )
    }
}

/// The signals in flight, each in a slot of its own; the index of the slot is
/// the identity of the signal. A despawned signal leaves its slot empty.
pub struct Signals {
    slots: Vec<Option<Signal>>,
}

impl Signals {
    pub closed spec fn slots(self) -> Seq<Option<Signal>> {
        self.slots@
    }

    /// No signals.
    pub fn new() -> (r: Signals)
        ensures
            r.slots() == Seq::<Option<Signal>>::empty(),
    {
        Signals { slots: Vec::new() }
    }

    /// The number of slots, live or not.
    pub fn len(&self) -> (r: usize)
        ensures
            r == self.slots().len(),
    {
        self.slots.len()
    }

    /// The signal whose identity is `id`, if it is live.
    pub fn get(&self, id: usize) -> (r: Option<Signal>)
        ensures
            r == (if id < self.slots().len() {
                self.slots()[id as int]
            } else {
                None
            }),
    {
        if id < self.slots.len() {
            self.slots[id]
        } else {
            None
        }
    }

    /// Adds `signal` in a new slot and returns its identity.
    pub fn spawn(&mut self, signal: Signal) -> (id: usize)
        requires
            old(self).slots().len() < usize::MAX,
        ensures
            id == old(self).slots().len(),
            final(self).slots() == old(self).slots().push(Some(signal)),
    {
        let id = self.slots.len();
        self.slots.push(Some(signal));
        id
    }

    /// Removes the signal `id`, if there is such a slot.
    pub fn despawn(&mut self, id: usize)
        ensures
            final(self).slots() == (if id < old(self).slots().len() {
                old(self).slots().update(id as int, None)
            } else {
                old(self).slots()
            }),
    {
        if id < self.slots.len() {
            self.slots[id] = None;
        }
    }

    /// Turns a projectile caught by the acceptor at junction `acceptor` into a
    /// signal resting there, with the projectile's hostility as payload, and
    /// returns the event by which the signal arrives at the acceptor from
    /// itself, which starts its routing from there.
    pub fn accept_projectile(&mut self, acceptor: usize, hostility: Hostility) -> (ev: SignalEvent)
        requires
            old(self).slots().len() < usize::MAX,
        ensures
            final(self).slots() == old(self).slots().push(
                Some(
                    Signal {
                        data: SignalData { hostility },
                        source: acceptor,
                        destination: None,
                        position: 0,
                        speed: 0,
                    },
                ),
            ),
            ev == (SignalEvent {
                sender: acceptor,
                receiver: acceptor,
                signal: old(self).slots().len() as usize,
                overfill: 0,
            }),
    {
        let signal = self.spawn(Signal::at(SignalData { hostility }, acceptor));
        SignalEvent { sender: acceptor, receiver: acceptor, signal, overfill: 0 }
    }

    /// The hostility of the projectile that a generator fires for `ev`: it
    /// fires only when one stands at the receiving junction
    /// (`has_generator`), the event is not an arrival of a signal at its own
    /// acceptor (sender and receiver differ), and the signal is live; the
    /// projectile then takes the hostility of the signal.
    pub fn generate_projectile(&self, ev: &SignalEvent, has_generator: bool) -> (r: Option<
        Hostility,
    >)
        ensures
            r == (if ev.sender != ev.receiver && has_generator && ev.signal < self.slots().len()
                && self.slots()[ev.signal as int] is Some {
                Some(self.slots()[ev.signal as int]->Some_0.data.hostility)
            } else {
                None
            }),
    {
        if ev.sender == ev.receiver || !has_generator {
            return None;
        }
        match self.get(ev.signal) {
            Some(s) => Some(s.data.hostility),
            None => None,
        }
    }

    /// Routes the signal of `ev` at the junction it reached, as
    /// `spec_handle` describes.
    pub fn handle_signal_event(&mut self, network: &PipeNetwork, ev: &SignalEvent)
        requires
            network.wf(),
        ensures
            final(self).slots() == spec_handle(old(self).slots(), *network, *ev),
    {
        if ev.signal >= self.slots.len() {
            return ;
        }
        let data = match self.slots[ev.signal] {
            Some(s) => s.data,
            None => {
                return ;
            },
        };
        let junction = match network.junction(ev.receiver) {
            Some(j) => j,
            None => {
                return ;
            },
        };
        let outs = junction_outputs(junction, ev.sender);
        if outs.len() == 0 {
            self.slots[ev.signal] = None;
            return ;
        }
        if outs.len() - 1 > usize::MAX - self.slots.len() {
            return ;
        }
        let ghost base = self.slots@.update(ev.signal as int, Some(sent(data, *ev, outs@[0])));
        self.slots[ev.signal] = Some(
            Signal {
                data,
                source: ev.receiver,
                destination: Some(outs[0]),
                position: ev.overfill,
                speed: SIGNAL_SPEED,
            },
        );
        let mut k: usize = 1;
        while k < outs.len()
            invariant
                1 <= k <= outs@.len(),
                base.len() + outs@.len() - 1 <= usize::MAX,
                self.slots@ == base + outs@.subrange(1, k as int).map_values(
                    |o: usize| Some(sent(data, *ev, o)),
                ),
            decreases outs@.len() - k,
        {
            self.slots.push(
                Some(
                    Signal {
                        data,
                        source: ev.receiver,
                        destination: Some(outs[k]),
                        position: ev.overfill,
                        speed: SIGNAL_SPEED,
                    },
                ),
            );
            assert(outs@.subrange(1, k + 1).map_values(|o: usize| Some(sent(data, *ev, o)))
                =~= outs@.subrange(1, k as int).map_values(|o: usize| Some(sent(data, *ev, o))).push(
                Some(sent(data, *ev, outs@[k as int])),
            ));
            k = k + 1;
        }
        assert(outs@.subrange(1, k as int) =~= outs@.skip(1));
    }

    /// Routes each of `events` in turn, as `handle_signal_event` does.
    pub fn handle_signal_events(&mut self, network: &PipeNetwork, events: &Vec<SignalEvent>)
        requires
            network.wf(),
        ensures
            final(self).slots() == spec_handle_all(old(self).slots(), *network, events@),
    {
        let mut i: usize = 0;
        while i < events.len()
            invariant
                network.wf(),
                i <= events@.len(),
                self.slots() == spec_handle_all(
                    old(self).slots(),
                    *network,
                    events@.take(i as int),
                ),
            decreases events@.len() - i,
        {
            self.handle_signal_event(network, &events[i]);
            assert(events@.take(i + 1).drop_last() =~= events@.take(i as int));
            i = i + 1;
        }
        assert(events@.take(i as int) =~= events@);
    }
}

/// What handling each of `events` in turn does to the slots.
pub open spec fn spec_handle_all(
    slots: Seq<Option<Signal>>,
    network: PipeNetwork,
    events: Seq<SignalEvent>,
) -> Seq<Option<Signal>>
    decreases events.len(),
{
    if events.len() == 0 {
        slots
    } else {
        spec_handle(spec_handle_all(slots, network, events.drop_last()), network, events.last())
    }
}

/// 1 for a live slot, 0 for an empty one.
pub open spec fn live(o: Option<Signal>) -> nat {
    if o is Some {
        1
    } else {
        0
    }
}

proof fn lemma_live_count_update(slots: Seq<Option<Signal>>, i: int, v: Option<Signal>)
    requires
        0 <= i < slots.len(),
    ensures
        live_count(slots.update(i, v)) + live(slots[i]) == live_count(slots) + live(v),
    decreases slots.len(),
{
    let u = slots.update(i, v);
    if i == slots.len() - 1 {
        assert(u.drop_last() =~= slots.drop_last());
    } else {
        assert(u.drop_last() =~= slots.drop_last().update(i, v));
        lemma_live_count_update(slots.drop_last(), i, v);
    }
}

proof fn lemma_live_count_append(a: Seq<Option<Signal>>, b: Seq<Option<Signal>>)
    ensures
        live_count(a + b) == live_count(a) + live_count(b),
    decreases b.len(),
{
    if b.len() == 0 {
        assert(a + b =~= a);
    } else {
        assert((a + b).drop_last() =~= a + b.drop_last());
        lemma_live_count_append(a, b.drop_last());
    }
}

proof fn lemma_live_count_all(b: Seq<Option<Signal>>)
    requires
        forall|k: int| 0 <= k < b.len() ==> b[k] is Some,
    ensures
        live_count(b) == b.len(),
    decreases b.len(),
{
    if b.len() > 0 {
        lemma_live_count_all(b.drop_last());
    }
}

/// Fan-out: a live signal that reaches a junction with `n >= 1` pipes other
/// than those back to its sender ends up as exactly `n` live signals: the
/// signal itself, sent along the first pipe, and `n - 1` new ones appended
/// after the existing slots, one along each other pipe, in order. All carry
/// the same payload and start at the overfill of the event; nothing else
/// changes.
pub proof fn lemma_fan_out(slots: Seq<Option<Signal>>, network: PipeNetwork, ev: SignalEvent)
    requires
        ev.signal < slots.len(),
        slots[ev.signal as int] is Some,
        network.has_junction(ev.receiver as int),
        outputs(network.junction_pipes(ev.receiver as int), ev.sender).len() >= 1,
        slots.len() + outputs(network.junction_pipes(ev.receiver as int), ev.sender).len() - 1
            <= usize::MAX,
    ensures
        ({
            let outs = outputs(network.junction_pipes(ev.receiver as int), ev.sender);
            let after = spec_handle(slots, network, ev);
            let data = slots[ev.signal as int]->Some_0.data;
            &&& after.len() == slots.len() + outs.len() - 1
            &&& live_count(after) == live_count(slots) + outs.len() - 1
            &&& after[ev.signal as int] == Some(sent(data, ev, outs[0]))
            &&& forall|k: int|
                1 <= k < outs.len() ==> after[slots.len() + k - 1] == Some(sent(data, ev, outs[k]))
            &&& forall|i: int| 0 <= i < slots.len() && i != ev.signal ==> after[i] == slots[i]
        }),
{
    let outs = outputs(network.junction_pipes(ev.receiver as int), ev.sender);
    let data = slots[ev.signal as int]->Some_0.data;
    let head = slots.update(ev.signal as int, Some(sent(data, ev, outs[0])));
    let tail = outs.skip(1).map_values(|o: usize| Some(sent(data, ev, o)));
    lemma_live_count_update(slots, ev.signal as int, Some(sent(data, ev, outs[0])));
    lemma_live_count_append(head, tail);
    lemma_live_count_all(tail);
    let after = spec_handle(slots, network, ev);
    assert(after == head + tail);
    assert forall|k: int| 1 <= k < outs.len() implies after[slots.len() + k - 1] == Some(
        sent(data, ev, outs[k]),
    ) by {
        assert(tail[k - 1] == Some(sent(data, ev, outs[k])));
    }
}

/// Dead end: a live signal that reaches a junction with no pipe but those
/// back to its sender is despawned, and no signal is created.
pub proof fn lemma_dead_end(slots: Seq<Option<Signal>>, network: PipeNetwork, ev: SignalEvent)
    requires
        ev.signal < slots.len(),
        slots[ev.signal as int] is Some,
        network.has_junction(ev.receiver as int),
        outputs(network.junction_pipes(ev.receiver as int), ev.sender).len() == 0,
    ensures
        ({
            let after = spec_handle(slots, network, ev);
            &&& after == slots.update(ev.signal as int, None)
            &&& after.len() == slots.len()
            &&& live_count(after) + 1 == live_count(slots)
        }),
{
    lemma_live_count_update(slots, ev.signal as int, None);
}

/// How far a signal of `speed` goes in `dt` microseconds, rounded down.
pub open spec fn travel_step(speed: u64, dt: u64) -> int {
    (speed * dt) / (MICROS_PER_SECOND as int)
}

/// A signal after one step of `dt` microseconds: one with a destination moves
/// forward by its step; one without stays where it is.
pub open spec fn travelled(s: Signal, dt: u64) -> Signal {
    if s.destination is Some {
        Signal { position: (s.position + travel_step(s.speed, dt)) as u64, ..s }
    } else {
        s
    }
}

/// The step of `dt` microseconds keeps the position of `s` within `u64`.
pub open spec fn can_travel(s: Signal, dt: u64) -> bool {
    s.destination is Some ==> s.position + travel_step(s.speed, dt) <= u64::MAX
}

/// The event that signal `id`, in the state `s`, raises: one when it has a
/// destination and has reached the end of its pipe, with what lies beyond
/// the end as overfill; none otherwise.
pub open spec fn arrival(s: Signal, id: usize) -> Option<SignalEvent> {
    match s.destination {
        Some(d) => if s.position >= POSITION_SCALE {
            Some(
                SignalEvent {
                    sender: s.source,
                    receiver: d,
                    signal: id,
                    overfill: (s.position - POSITION_SCALE) as u64,
                },
            )
        } else {
            None
        },
        None => None,
    }
}

/// The event raised by the slot `id`, if it holds a signal that raises one.
pub open spec fn slot_arrival(o: Option<Signal>, id: int) -> Seq<SignalEvent> {
    match o {
        Some(s) => match arrival(s, id as usize) {
            Some(e) => seq![e],
            None => Seq::empty(),
        },
        None => Seq::empty(),
    }
}

/// The events raised by the first `n` slots, in slot order.
pub open spec fn arrivals(slots: Seq<Option<Signal>>, n: nat) -> Seq<SignalEvent>
    decreases n,
{
    if n == 0 {
        Seq::empty()
    } else {
        arrivals(slots, (n - 1) as nat) + slot_arrival(slots[n - 1], n - 1)
    }
}

/// A slot after one step of `dt` microseconds.
pub open spec fn travelled_slot(o: Option<Signal>, dt: u64) -> Option<Signal> {
    match o {
        Some(s) => Some(travelled(s, dt)),
        None => None,
    }
}

/// A signal after `n` steps of `dt` microseconds, with no routing between.
pub open spec fn ticks(s: Signal, dt: u64, n: nat) -> Signal
    decreases n,
{
    if n == 0 {
        s
    } else {
        travelled(ticks(s, dt, (n - 1) as nat), dt)
    }
}

impl Signal {
    /// Moves the signal forward by one step of `dt` microseconds, if it has a
    /// destination, and returns the arrival event that it then raises, if
    /// any, naming it `id`.
    pub fn travel(&mut self, id: usize, dt: u64) -> (r: Option<SignalEvent>)
        requires
            can_travel(*old(self), dt),
        ensures
            *final(self) == travelled(*old(self), dt),
            r == arrival(*final(self), id),
    {
        if let Some(dest) = self.destination {
            let (speed, time) = (self.speed as u128, dt as u128);
            assert(speed * time <= u64::MAX * u64::MAX) by (nonlinear_arith)
                requires
                    speed <= u64::MAX,
                    time <= u64::MAX,
            ;
            let step = (speed * time) / (MICROS_PER_SECOND as u128);
            self.position = self.position + step as u64;
            if self.position >= POSITION_SCALE {
                Some(
                    SignalEvent {
                        sender: self.source,
                        receiver: dest,
                        signal: id,
                        overfill: self.position - POSITION_SCALE,
                    },
                )
            } else {
                None
            }
        } else {
            None
        }
    }
}

proof fn lemma_arrivals_frame(a: Seq<Option<Signal>>, b: Seq<Option<Signal>>, n: nat)
    requires
        n <= a.len(),
        n <= b.len(),
        forall|j: int| 0 <= j < n ==> a[j] == b[j],
    ensures
        arrivals(a, n) == arrivals(b, n),
    decreases n,
{
    if n > 0 {
        lemma_arrivals_frame(a, b, (n - 1) as nat);
    }
}

impl Signals {
    /// Every signal can take a step of `dt` microseconds.
    pub open spec fn can_travel_all(self, dt: u64) -> bool {
        forall|i: int|
            0 <= i < self.slots().len() && #[trigger] self.slots()[i] is Some ==> can_travel(
                self.slots()[i]->Some_0,
                dt,
            )
    }

    /// Moves every signal with a destination forward by one step of `dt`
    /// microseconds, and returns, in slot order, the arrival events of those
    /// that reached the end of their pipe.
    pub fn signal_travel(&mut self, dt: u64) -> (r: Vec<SignalEvent>)
        requires
            old(self).can_travel_all(dt),
        ensures
            final(self).slots() == old(self).slots().map_values(
                |o: Option<Signal>| travelled_slot(o, dt),
            ),
            r@ == arrivals(final(self).slots(), final(self).slots().len()),
    {
        let mut events: Vec<SignalEvent> = Vec::new();
        let mut i: usize = 0;
        while i < self.slots.len()
            invariant
                old(self).can_travel_all(dt),
                i <= self.slots@.len(),
                self.slots@.len() == old(self).slots().len(),
                forall|j: int|
                    0 <= j < i ==> self.slots@[j] == travelled_slot(old(self).slots()[j], dt),
                forall|j: int| i <= j < self.slots@.len() ==> self.slots@[j] == old(self).slots()[j],
                events@ == arrivals(self.slots@, i as nat),
            decreases self.slots@.len() - i,
        {
            let ghost before = self.slots@;
            if let Some(mut s) = self.slots[i] {
                assert(old(self).slots()[i as int] is Some);
                let ev = s.travel(i, dt);
                self.slots[i] = Some(s);
                if let Some(e) = ev {
                    events.push(e);
                }
            }
            proof {
                lemma_arrivals_frame(before, self.slots@, i as nat);
            }
            i = i + 1;
        }
        assert(self.slots@ =~= old(self).slots().map_values(
            |o: Option<Signal>| travelled_slot(o, dt),
        ));
        events
    }
}

/// With no routing between them, `n` steps move a signal with a
/// destination forward by `n` steps and change nothing else.
proof fn lemma_ticks_position(s: Signal, dt: u64, n: nat)
    requires
        s.destination is Some,
        s.position + n * travel_step(s.speed, dt) <= u64::MAX,
    ensures
        travel_step(s.speed, dt) >= 0,
        ticks(s, dt, n) == (Signal {
            position: (s.position + n * travel_step(s.speed, dt)) as u64,
            ..s
        }),
    decreases n,
{
    let step = travel_step(s.speed, dt);
    assert(step >= 0) by (nonlinear_arith)
        requires
            step == (s.speed * dt) / (MICROS_PER_SECOND as int),
            s.speed >= 0,
            dt >= 0,
    ;
    if n == 0 {
        assert(n * step == 0);
    } else {
        assert(n * step == (n - 1) * step + step) by (nonlinear_arith);
        assert((n - 1) * step >= 0) by (nonlinear_arith)
            requires
                step >= 0,
                n >= 1,
        ;
        lemma_ticks_position(s, dt, (n - 1) as nat);
        let prev = ticks(s, dt, (n - 1) as nat);
        assert(prev.destination is Some);
        assert(prev.position == s.position + (n - 1) * step);
    }
}

/// Travel: with no routing between them, `n` steps of `dt` microseconds move
/// a signal with a destination forward by `n` steps, changing nothing else,
/// so its position never decreases; and after them it raises exactly one
/// arrival event when its position has reached the end of the pipe, with
/// what lies beyond the end as overfill, and none before.
pub proof fn lemma_ticks(s: Signal, dt: u64, n: nat, id: usize)
    requires
        s.destination is Some,
        s.position + n * travel_step(s.speed, dt) <= u64::MAX,
    ensures
        ticks(s, dt, n) == (Signal {
            position: (s.position + n * travel_step(s.speed, dt)) as u64,
            ..s
        }),
        forall|m: nat| m <= n ==> #[trigger] ticks(s, dt, m).position <= ticks(s, dt, n).position,
        arrival(ticks(s, dt, n), id) == (if s.position + n * travel_step(s.speed, dt)
            >= POSITION_SCALE {
            Some(
                SignalEvent {
                    sender: s.source,
                    receiver: s.destination->Some_0,
                    signal: id,
                    overfill: (s.position + n * travel_step(s.speed, dt) - POSITION_SCALE) as u64,
                },
            )
        } else {
            None
        }),
{
    let step = travel_step(s.speed, dt);
    lemma_ticks_position(s, dt, n);
    assert forall|m: nat| m <= n implies #[trigger] ticks(s, dt, m).position <= ticks(
        s,
        dt,
        n,
    ).position by {
        assert(m * step <= n * step) by (nonlinear_arith)
            requires
                step >= 0,
                m <= n,
        ;
        lemma_ticks_position(s, dt, m);
    }
}

} // verus!
