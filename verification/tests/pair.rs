use tcp_forward::pair::{Direction, Half, PairAction, PairEvent, PairState};

fn every_event() -> Vec<PairEvent<String>> {
    vec![
        PairEvent::Dialed(Ok(())),
        PairEvent::Dialed(Err("refused".to_string())),
        PairEvent::Finished(Direction::Forward, Ok(())),
        PairEvent::Finished(Direction::Forward, Err("reset".to_string())),
        PairEvent::Finished(Direction::Backward, Ok(())),
        PairEvent::Finished(Direction::Backward, Err("reset".to_string())),
    ]
}

#[test]
fn forward_reads_the_client_and_writes_the_remote() {
    assert_eq!(Direction::Forward.source(), Half::InboundRead);
    assert_eq!(Direction::Forward.sink(), Half::OutboundWrite);
}

#[test]
fn backward_reads_the_remote_and_writes_the_client() {
    assert_eq!(Direction::Backward.source(), Half::OutboundRead);
    assert_eq!(Direction::Backward.sink(), Half::InboundWrite);
}

#[test]
fn each_direction_is_the_opposite_of_the_other() {
    assert_eq!(Direction::Forward.opposite(), Direction::Backward);
    assert_eq!(Direction::Backward.opposite(), Direction::Forward);
}

#[test]
fn no_half_is_shared_between_the_two_loops() {
    let halves = [
        Direction::Forward.source(),
        Direction::Forward.sink(),
        Direction::Backward.source(),
        Direction::Backward.sink(),
    ];
    for i in 0..halves.len() {
        for j in 0..halves.len() {
            assert_eq!(halves[i] == halves[j], i == j);
        }
    }
}

#[test]
fn an_accepted_pair_is_connecting() {
    assert_eq!(PairState::accepted(), PairState::Connecting);
}

#[test]
fn only_a_closed_pair_is_closed() {
    assert!(PairState::Closed.is_closed());
    assert!(!PairState::Connecting.is_closed());
    assert!(!PairState::Relaying.is_closed());
}

#[test]
fn a_pair_that_reached_the_remote_relays() {
    let next = PairState::Connecting.step::<String>(PairEvent::Dialed(Ok(())));
    assert_eq!(next, (PairState::Relaying, PairAction::Relay));
}

#[test]
fn a_pair_that_could_not_reach_the_remote_closes_with_the_failure() {
    let next = PairState::Connecting.step(PairEvent::Dialed(Err("refused".to_string())));
    assert_eq!(next, (PairState::Closed, PairAction::Reject("refused".to_string())));
}

#[test]
fn a_clean_end_of_the_forward_loop_closes_the_pair_without_a_warning() {
    let next = PairState::Relaying.step::<String>(PairEvent::Finished(Direction::Forward, Ok(())));
    assert_eq!(
        next,
        (PairState::Closed, PairAction::Teardown { abandon: Direction::Backward, warning: None })
    );
}

#[test]
fn a_failure_of_the_backward_loop_closes_the_pair_with_a_warning() {
    let next = PairState::Relaying
        .step(PairEvent::Finished(Direction::Backward, Err("reset".to_string())));
    assert_eq!(
        next,
        (
            PairState::Closed,
            PairAction::Teardown {
                abandon: Direction::Forward,
                warning: Some("reset".to_string())
            }
        )
    );
}

#[test]
fn either_direction_ending_either_way_closes_a_relaying_pair() {
    for direction in [Direction::Forward, Direction::Backward] {
        for outcome in [Ok(()), Err("reset".to_string())] {
            let (state, action) =
                PairState::Relaying.step(PairEvent::Finished(direction, outcome.clone()));
            assert_eq!(state, PairState::Closed);
            assert_eq!(
                action,
                PairAction::Teardown { abandon: direction.opposite(), warning: outcome.err() }
            );
        }
    }
}

#[test]
fn a_closed_pair_discards_every_event() {
    for event in every_event() {
        assert_eq!(PairState::Closed.step(event), (PairState::Closed, PairAction::Nothing));
    }
}

#[test]
fn the_loop_that_ends_second_moves_nothing() {
    let (state, first) =
        PairState::Relaying.step::<String>(PairEvent::Finished(Direction::Forward, Ok(())));
    assert!(matches!(first, PairAction::Teardown { .. }));
    let (state, second) =
        state.step(PairEvent::Finished(Direction::Backward, Err("aborted".to_string())));
    assert_eq!(state, PairState::Closed);
    assert_eq!(second, PairAction::Nothing);
}

#[test]
fn a_connecting_pair_discards_the_end_of_a_loop() {
    let next = PairState::Connecting.step::<String>(PairEvent::Finished(Direction::Forward, Ok(())));
    assert_eq!(next, (PairState::Connecting, PairAction::Nothing));
}

#[test]
fn a_relaying_pair_discards_a_second_dial() {
    let next = PairState::Relaying.step(PairEvent::Dialed(Err("refused".to_string())));
    assert_eq!(next, (PairState::Relaying, PairAction::Nothing));
    let again = PairState::Relaying.step::<String>(PairEvent::Dialed(Ok(())));
    assert_eq!(again, (PairState::Relaying, PairAction::Nothing));
}

#[test]
fn no_event_takes_a_pair_back() {
    let rank = |state: PairState| match state {
        PairState::Connecting => 0,
        PairState::Relaying => 1,
        PairState::Closed => 2,
    };
    for state in [PairState::Connecting, PairState::Relaying, PairState::Closed] {
        for event in every_event() {
            let (next, _) = state.step(event);
            assert!(rank(state) <= rank(next));
        }
    }
}

#[test]
fn a_failure_in_one_pair_leaves_another_as_it_was() {
    let mut first = PairState::Relaying;
    let second = PairState::Relaying;
    let (next, action) = first.step(PairEvent::Finished(Direction::Forward, Err("cut".to_string())));
    first = next;
    assert!(first.is_closed());
    assert!(matches!(action, PairAction::Teardown { warning: Some(_), .. }));
    assert_eq!(second, PairState::Relaying);
    let (still, later) =
        second.step::<String>(PairEvent::Finished(Direction::Backward, Ok(())));
    assert_eq!(still, PairState::Closed);
    assert_eq!(later, PairAction::Teardown { abandon: Direction::Forward, warning: None });
}
