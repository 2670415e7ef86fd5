use tothe::kind::PipeSegment;
use tothe::network::{Junction, PipeNetwork, Tile};
use tothe::signal::{
    junction_outputs, ContactBehavior, Hostility, Signal, SignalData, SignalEvent, Signals,
    POSITION_SCALE, SIGNAL_SPEED,
};
use tothe::tilemap::{TilePos, TilemapSize};

fn junction_tile(segment: Option<PipeSegment>) -> Tile {
    Tile { segment, junction: Some(Junction::new()) }
}

fn friendly() -> SignalData {
    SignalData { hostility: Hostility::Friendly }
}

/// A, B, C in a row: junctions 0, 1, 2.
fn chain() -> PipeNetwork {
    let mut net = PipeNetwork::new(TilemapSize { x: 3, y: 1 });
    for x in 0..3 {
        net.set_tile(TilePos::new(x, 0), junction_tile(None));
    }
    net.build_pipe_network();
    net
}

/// A at (1, 1) with B to its right, C above and D to its left; cell index is
/// y * 3 + x, so A is 4, B is 5, C is 7 and D is 3.
fn y_junction() -> PipeNetwork {
    let mut net = PipeNetwork::new(TilemapSize { x: 3, y: 3 });
    for (x, y) in [(1, 1), (2, 1), (1, 2), (0, 1)] {
        net.set_tile(TilePos::new(x, y), junction_tile(None));
    }
    net.build_pipe_network();
    net
}

fn live(signals: &Signals) -> usize {
    (0..signals.len()).filter(|&i| signals.get(i).is_some()).count()
}

#[test]
fn contact_behaviour_merge() {
    let (bounce, absorb) = (ContactBehavior::Bounce, ContactBehavior::Absorb);
    assert_eq!(bounce.and(bounce), bounce);
    assert_eq!(bounce.and(absorb), absorb);
    assert_eq!(absorb.and(bounce), absorb);
    assert_eq!(absorb.and(absorb), absorb);
}

#[test]
fn fresh_signal_rests_at_source() {
    let s = Signal::at(friendly(), 3);
    assert_eq!(s.source, 3);
    assert_eq!(s.destination, None);
    assert_eq!(s.position, 0);
    assert_eq!(s.speed, 0);
}

#[test]
fn outputs_leave_out_the_sender() {
    let mut j = Junction::new();
    j.push_pipe(5);
    j.push_pipe(7);
    j.push_pipe(3);
    assert_eq!(junction_outputs(&j, 3), vec![5, 7]);
    assert_eq!(junction_outputs(&j, 7), vec![5, 3]);
    assert_eq!(junction_outputs(&j, 9), vec![5, 7, 3]);
}

#[test]
fn chain_scenario_ten_ticks_then_on_to_c() {
    let net = chain();
    let mut signals = Signals::new();
    let id = signals.spawn(Signal {
        data: friendly(),
        source: 0,
        destination: Some(1),
        position: 0,
        speed: POSITION_SCALE,
    });
    let dt = 100_000;
    for tick in 1..10u64 {
        let events = signals.signal_travel(dt);
        assert!(events.is_empty());
        assert_eq!(signals.get(id).unwrap().position, tick * POSITION_SCALE / 10);
    }
    let events = signals.signal_travel(dt);
    assert_eq!(
        events,
        vec![SignalEvent { sender: 0, receiver: 1, signal: id, overfill: 0 }]
    );
    signals.handle_signal_events(&net, &events);
    assert_eq!(signals.len(), 1);
    assert_eq!(
        signals.get(id),
        Some(Signal {
            data: friendly(),
            source: 1,
            destination: Some(2),
            position: 0,
            speed: SIGNAL_SPEED,
        })
    );
}

#[test]
fn y_junction_scenario_two_signals() {
    let net = y_junction();
    let mut signals = Signals::new();
    let id = signals.spawn(Signal {
        data: SignalData { hostility: Hostility::Hostile },
        source: 3,
        destination: Some(4),
        position: POSITION_SCALE + 250,
        speed: SIGNAL_SPEED,
    });
    let ev = SignalEvent { sender: 3, receiver: 4, signal: id, overfill: 250 };
    signals.handle_signal_event(&net, &ev);
    assert_eq!(signals.len(), 2);
    let first = signals.get(id).unwrap();
    let second = signals.get(1).unwrap();
    assert_eq!(first.destination, Some(5));
    assert_eq!(second.destination, Some(7));
    for s in [first, second] {
        assert_eq!(s.source, 4);
        assert_eq!(s.position, 250);
        assert_eq!(s.speed, SIGNAL_SPEED);
        assert_eq!(s.data.hostility, Hostility::Hostile);
    }
}

#[test]
fn fan_out_makes_one_signal_per_output() {
    let net = y_junction();
    let mut signals = Signals::new();
    let id = signals.spawn(Signal::at(friendly(), 0));
    // from a sender that is no neighbour, all three pipes are outputs
    let ev = SignalEvent { sender: 0, receiver: 4, signal: id, overfill: 10 };
    let before = live(&signals);
    signals.handle_signal_event(&net, &ev);
    assert_eq!(live(&signals), before + 2);
    let dests: Vec<Option<usize>> =
        (0..signals.len()).map(|i| signals.get(i).unwrap().destination).collect();
    assert_eq!(dests, vec![Some(5), Some(7), Some(3)]);
}

#[test]
fn dead_end_despawns_signal() {
    let net = chain();
    let mut signals = Signals::new();
    let other = signals.spawn(Signal::at(friendly(), 2));
    let id = signals.spawn(Signal {
        data: friendly(),
        source: 1,
        destination: Some(0),
        position: POSITION_SCALE,
        speed: SIGNAL_SPEED,
    });
    // junction 0 only leads back to 1
    signals.handle_signal_event(&net, &SignalEvent { sender: 1, receiver: 0, signal: id, overfill: 0 });
    assert_eq!(signals.len(), 2);
    assert_eq!(signals.get(id), None);
    assert_eq!(signals.get(other), Some(Signal::at(friendly(), 2)));
}

#[test]
fn event_for_missing_signal_or_junction_is_dropped() {
    let net = chain();
    let mut signals = Signals::new();
    let id = signals.spawn(Signal::at(friendly(), 0));
    signals.handle_signal_event(&net, &SignalEvent { sender: 0, receiver: 1, signal: 9, overfill: 0 });
    assert_eq!(signals.get(id), Some(Signal::at(friendly(), 0)));
    signals.handle_signal_event(&net, &SignalEvent { sender: 0, receiver: 77, signal: id, overfill: 0 });
    assert_eq!(signals.get(id), Some(Signal::at(friendly(), 0)));
    signals.despawn(id);
    signals.handle_signal_event(&net, &SignalEvent { sender: 0, receiver: 1, signal: id, overfill: 0 });
    assert_eq!(signals.len(), 1);
    assert_eq!(signals.get(id), None);
}

#[test]
fn travel_rolls_over_without_clamping() {
    let mut s = Signal {
        data: friendly(),
        source: 0,
        destination: Some(1),
        position: 900_000,
        speed: SIGNAL_SPEED,
    };
    // 8 pipes a second for 50 ms is 0.4 pipe
    let ev = s.travel(6, 50_000);
    assert_eq!(s.position, 1_300_000);
    assert_eq!(ev, Some(SignalEvent { sender: 0, receiver: 1, signal: 6, overfill: 300_000 }));
    // far too fast for one tick: overfill is itself past the end
    let ev = s.travel(6, 1_000_000);
    assert_eq!(s.position, 9_300_000);
    assert_eq!(ev.unwrap().overfill, 8_300_000);
}

#[test]
fn travel_step_rounds_down() {
    let mut s = Signal { data: friendly(), source: 0, destination: Some(1), position: 0, speed: 3 };
    assert_eq!(s.travel(0, 500_000), None);
    assert_eq!(s.position, 1);
}

#[test]
fn resting_signal_does_not_travel() {
    let mut signals = Signals::new();
    let id = signals.spawn(Signal::at(friendly(), 0));
    let events = signals.signal_travel(1_000_000);
    assert!(events.is_empty());
    assert_eq!(signals.get(id), Some(Signal::at(friendly(), 0)));
}

#[test]
fn travel_events_come_in_slot_order() {
    let mut signals = Signals::new();
    let moving = |source, dest, position| Signal {
        data: friendly(),
        source,
        destination: Some(dest),
        position,
        speed: POSITION_SCALE,
    };
    signals.spawn(moving(0, 1, 950_000));
    signals.spawn(moving(1, 2, 0));
    signals.spawn(moving(2, 1, 999_999));
    let events = signals.signal_travel(100_000);
    assert_eq!(
        events,
        vec![
            SignalEvent { sender: 0, receiver: 1, signal: 0, overfill: 50_000 },
            SignalEvent { sender: 2, receiver: 1, signal: 2, overfill: 99_999 },
        ]
    );
    assert_eq!(signals.get(1).unwrap().position, 100_000);
}

#[test]
fn accepted_projectile_is_routed_from_acceptor() {
    let net = chain();
    let mut signals = Signals::new();
    let ev = signals.accept_projectile(0, Hostility::Hostile);
    assert_eq!(ev, SignalEvent { sender: 0, receiver: 0, signal: 0, overfill: 0 });
    assert_eq!(
        signals.get(0),
        Some(Signal::at(SignalData { hostility: Hostility::Hostile }, 0))
    );
    signals.handle_signal_event(&net, &ev);
    let s = signals.get(0).unwrap();
    assert_eq!(s.source, 0);
    assert_eq!(s.destination, Some(1));
    assert_eq!(s.position, 0);
    assert_eq!(s.speed, SIGNAL_SPEED);
    // a self-arrival fires no generator
    assert_eq!(signals.generate_projectile(&ev, true), None);
}

#[test]
fn generator_fires_with_signal_hostility() {
    let mut signals = Signals::new();
    let id = signals.spawn(Signal::at(SignalData { hostility: Hostility::Hostile }, 1));
    let ev = SignalEvent { sender: 1, receiver: 2, signal: id, overfill: 0 };
    assert_eq!(signals.generate_projectile(&ev, true), Some(Hostility::Hostile));
    assert_eq!(signals.generate_projectile(&ev, false), None);
    signals.despawn(id);
    assert_eq!(signals.generate_projectile(&ev, true), None);
}
