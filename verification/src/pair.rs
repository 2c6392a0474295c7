use vstd::prelude::*;

verus! {

/// The two ways bytes cross a connection pair, one copy loop each.
#[derive(Clone, Copy, Debug, PartialEq, Eq, Structural)]
pub enum Direction {
    /// From the client that connected in, to the remote.
    Forward,
    /// From the remote, back to the client.
    Backward,
}

/// The four halves a connection pair is split into: each socket's read
/// side and write side, owned apart.
#[derive(Clone, Copy, Debug, PartialEq, Eq, Structural)]
pub enum Half {
    InboundRead,
    InboundWrite,
    OutboundRead,
    OutboundWrite,
}

impl Direction {
    pub open spec fn spec_source(self) -> Half {
        match self {
            Direction::Forward => Half::InboundRead,
            Direction::Backward => Half::OutboundRead,
        }
    }

    pub open spec fn spec_sink(self) -> Half {
        match self {
            Direction::Forward => Half::OutboundWrite,
            Direction::Backward => Half::InboundWrite,
        }
    }

    pub open spec fn spec_opposite(self) -> Direction {
        match self {
            Direction::Forward => Direction::Backward,
            Direction::Backward => Direction::Forward,
        }
    }

    /// The half this direction's copy loop reads from.
    #[verifier::when_used_as_spec(spec_source)]
    pub fn source(self) -> (half: Half)
        ensures
            half == self.spec_source(),
    {
        match self {
            Direction::Forward => Half::InboundRead,
            Direction::Backward => Half::OutboundRead,
        }
    }

    /// The half this direction's copy loop writes to.
    #[verifier::when_used_as_spec(spec_sink)]
    pub fn sink(self) -> (half: Half)
        ensures
            half == self.spec_sink(),
    {
        match self {
            Direction::Forward => Half::OutboundWrite,
            Direction::Backward => Half::InboundWrite,
        }
    }

    /// The other direction of the same pair.
    #[verifier::when_used_as_spec(spec_opposite)]
    pub fn opposite(self) -> (other: Direction)
        ensures
            other == self.spec_opposite(),
    {
        match self {
            Direction::Forward => Direction::Backward,
            Direction::Backward => Direction::Forward,
        }
    }
}

/// The halves of a pair are disjoint: a copy loop reads one half and
/// writes another, and shares neither with the loop of the other
/// direction. Between them the two loops own all four.
pub proof fn lemma_halves_disjoint(a: Direction, b: Direction, half: Half)
    requires
        a != b,
    ensures
        a.source() != a.sink(),
        a.source() != b.source(),
        a.source() != b.sink(),
        a.sink() != b.source(),
        a.sink() != b.sink(),
        half == a.source() || half == a.sink() || half == b.source() || half == b.sink(),
{
}

/// The life of a connection pair. It only moves forward: from
/// `Connecting` to `Relaying` or `Closed`, from `Relaying` to `Closed`.
#[derive(Clone, Copy, Debug, PartialEq, Eq, Structural)]
pub enum PairState {
    /// The inbound connection is accepted; the outbound one is being
    /// opened.
    Connecting,
    /// Both connections are up and both copy loops run.
    Relaying,
    /// Over, for good.
    Closed,
}

/// What happens to a connection pair.
#[derive(Debug, PartialEq, Eq)]
pub enum PairEvent<E> {
    /// The attempt to reach the remote ended.
    Dialed(Result<(), E>),
    /// The copy loop of one direction ended: cleanly, or with a failure.
    Finished(Direction, Result<(), E>),
}

/// What is to be done for a connection pair after an event.
#[derive(Debug, PartialEq, Eq)]
pub enum PairAction<E> {
    /// Split both connections and start the two copy loops.
    Relay,
    /// The remote could not be reached: close the inbound connection and
    /// report the failure as a warning.
    Reject(E),
    /// One copy loop has ended: abandon the loop of the direction named,
    /// close all four halves, and where the loop that ended had failed,
    /// report that failure as a warning.
    Teardown { abandon: Direction, warning: Option<E> },
    /// Nothing: the event is discarded.
    Nothing,
}

/// The failure in an outcome, if there is one.
pub open spec fn failure<E>(outcome: Result<(), E>) -> Option<E> {
    match outcome {
        Ok(_) => None,
        Err(e) => Some(e),
    }
}

/// The transition of a connection pair. An event that the state does not
/// await changes nothing and asks for nothing; in `Closed` that is every
/// event.
pub open spec fn pair_step<E>(state: PairState, event: PairEvent<E>) -> (PairState, PairAction<E>) {
    match (state, event) {
        (PairState::Connecting, PairEvent::Dialed(Ok(_))) => (PairState::Relaying, PairAction::Relay),
        (PairState::Connecting, PairEvent::Dialed(Err(e))) => (
            PairState::Closed,
            PairAction::Reject(e),
        ),
        (PairState::Relaying, PairEvent::Finished(direction, outcome)) => (
            PairState::Closed,
            PairAction::Teardown { abandon: direction.opposite(), warning: failure(outcome) },
        ),
        _ => (state, PairAction::Nothing),
    }
}

impl PairState {
    /// The state of a pair whose inbound connection was just accepted.
    pub fn accepted() -> (state: PairState)
        ensures
            state == PairState::Connecting,
    {
        PairState::Connecting
    }

    /// Whether the pair is over.
    pub fn is_closed(self) -> (closed: bool)
        ensures
            closed == (self == PairState::Closed),
    {
        match self {
            PairState::Closed => true,
            _ => false,
        }
    }

    /// Takes one event: the state that follows, and what is to be done.
    pub fn step<E>(self, event: PairEvent<E>) -> (next: (PairState, PairAction<E>))
        ensures
            next == pair_step(self, event),
    {
        match self {
            PairState::Connecting => match event {
                PairEvent::Dialed(Ok(_)) => (PairState::Relaying, PairAction::Relay),
                PairEvent::Dialed(Err(e)) => (PairState::Closed, PairAction::Reject(e)),
                PairEvent::Finished(_, _) => (PairState::Connecting, PairAction::Nothing),
            },
            PairState::Relaying => match event {
                PairEvent::Finished(direction, outcome) => {
                    let warning: Option<E> = match outcome {
                        Ok(_) => None,
                        Err(e) => Some(e),
                    };
                    (
                        PairState::Closed,
                        PairAction::Teardown { abandon: direction.opposite(), warning },
                    )
                },
                PairEvent::Dialed(_) => (PairState::Relaying, PairAction::Nothing),
            },
            PairState::Closed => (PairState::Closed, PairAction::Nothing),
        }
    }
}

/// A pair taken through `events` in order: the state it ends in, and what
/// was to be done after each event.
pub open spec fn pair_run<E>(state: PairState, events: Seq<PairEvent<E>>) -> (
    PairState,
    Seq<PairAction<E>>,
)
    decreases events.len(),
{
    if events.len() == 0 {
        (state, Seq::empty())
    } else {
        let (before, actions) = pair_run(state, events.drop_last());
        let (next, action) = pair_step(before, events.last());
        (next, actions.push(action))
    }
}

/// `count` events answered with nothing to do.
pub open spec fn discarded<E>(count: nat) -> Seq<PairAction<E>> {
    Seq::new(count, |i: int| PairAction::Nothing)
}

/// How far along its life a pair is.
pub open spec fn progress(state: PairState) -> nat {
    match state {
        PairState::Connecting => 0,
        PairState::Relaying => 1,
        PairState::Closed => 2,
    }
}

/// A pair never goes back: no event reopens a closed pair, or returns a
/// relaying one to connecting. It starts its copy loops only on leaving
/// `Connecting`, so at most once.
pub proof fn lemma_pair_only_advances<E>(state: PairState, event: PairEvent<E>)
    ensures
        progress(state) <= progress(pair_step(state, event).0),
        pair_step(state, event).1 is Relay ==> state == PairState::Connecting && pair_step(
            state,
            event,
        ).0 == PairState::Relaying,
{
}

/// `Closed` is final: whatever reaches a closed pair, and however much of
/// it, the pair stays closed and nothing is done for it.
pub proof fn lemma_closed_is_final<E>(events: Seq<PairEvent<E>>)
    ensures
        pair_run(PairState::Closed, events) == (PairState::Closed, discarded::<E>(events.len())),
    decreases events.len(),
{
    if events.len() == 0 {
        assert(discarded::<E>(0) =~= Seq::<PairAction<E>>::empty());
    } else {
        let before = events.drop_last();
        lemma_closed_is_final(before);
        assert(discarded::<E>(before.len()).push(PairAction::Nothing) =~= discarded::<E>(
            events.len(),
        ));
    }
}

/// Teardown: when the copy loop of either direction ends, however it ends,
/// a relaying pair closes at once, the loop of the other direction is
/// abandoned, and whatever comes later, from either loop, moves nothing.
pub proof fn lemma_first_finish_closes<E>(
    direction: Direction,
    outcome: Result<(), E>,
    later: Seq<PairEvent<E>>,
)
    ensures
        pair_run(PairState::Relaying, seq![PairEvent::Finished(direction, outcome)] + later) == (
            PairState::Closed,
            seq![
                PairAction::Teardown { abandon: direction.opposite(), warning: failure(outcome) },
            ] + discarded::<E>(later.len()),
        ),
    decreases later.len(),
{
    let finished = seq![PairEvent::Finished(direction, outcome)];
    let teardown = seq![
        PairAction::Teardown { abandon: direction.opposite(), warning: failure(outcome) },
    ];
    let events = finished + later;
    if later.len() == 0 {
        assert(events.drop_last() =~= Seq::<PairEvent<E>>::empty());
        assert(pair_run(PairState::Relaying, events.drop_last()) == (
            PairState::Relaying,
            Seq::<PairAction<E>>::empty(),
        ));
        assert(Seq::<PairAction<E>>::empty().push(teardown[0]) =~= teardown + discarded::<E>(0));
    } else {
        let before = later.drop_last();
        lemma_first_finish_closes(direction, outcome, before);
        assert(events.drop_last() =~= finished + before);
        assert((teardown + discarded::<E>(before.len())).push(PairAction::Nothing) =~= teardown
            + discarded::<E>(later.len()));
    }
}

} // verus!
