use crate::buffer::CHUNK_SIZE;
use crate::copy_loop::{
    advance, delivers, fresh, lemma_delivery, lemma_stop, stops, verdict, CopyStep, Exchange,
    Progress,
};
use crate::dispatcher::admission;
use crate::pair::{pair_step, Direction, PairEvent, PairState};
use vstd::prelude::*;

verus! {

/// A connection pair together with its two copy loops: the pair's state,
/// and where the loop of each direction stands.
pub struct Session<E> {
    pub state: PairState,
    pub forward: Progress<E>,
    pub backward: Progress<E>,
}

impl<E> Session<E> {
    /// The loop of one direction.
    pub open spec fn lane(self, direction: Direction) -> Progress<E> {
        match direction {
            Direction::Forward => self.forward,
            Direction::Backward => self.backward,
        }
    }

    /// The session with the loop of one direction replaced.
    pub open spec fn with_lane(self, direction: Direction, lane: Progress<E>) -> Session<E> {
        match direction {
            Direction::Forward => Session { forward: lane, ..self },
            Direction::Backward => Session { backward: lane, ..self },
        }
    }

    /// The pair is relaying, and both its loops are at a read.
    pub open spec fn running(self) -> bool {
        self.state == PairState::Relaying && self.forward.reading() && self.backward.reading()
    }
}

/// The session of a pair as the dispatcher hands it over after a dial that
/// succeeded: each loop about to make its first read, over a buffer of
/// its own.
pub open spec fn handed_over<E>(forward_buffer: Seq<u8>, backward_buffer: Seq<u8>) -> Session<E> {
    Session {
        state: admission::<E>(Ok(())).pair,
        forward: fresh(forward_buffer),
        backward: fresh(backward_buffer),
    }
}

/// A pair that the dispatcher hands over is running, and has forwarded
/// nothing yet.
pub proof fn lemma_handed_over_pair_runs<E>(forward_buffer: Seq<u8>, backward_buffer: Seq<u8>)
    requires
        forward_buffer.len() == CHUNK_SIZE,
        backward_buffer.len() == CHUNK_SIZE,
    ensures
        handed_over::<E>(forward_buffer, backward_buffer).running(),
        handed_over::<E>(forward_buffer, backward_buffer).forward.forwarded == Seq::<u8>::empty(),
        handed_over::<E>(forward_buffer, backward_buffer).backward.forwarded == Seq::<u8>::empty(),
{
}

/// One turn of one loop of a session. While the pair relays, the loop of
/// `direction` advances, and if that ends the loop, the pair takes the end
/// as its event. A pair that does not relay has no running loop: nothing
/// moves.
pub open spec fn session_turn<E>(
    session: Session<E>,
    direction: Direction,
    exchange: Exchange<E>,
) -> Session<E> {
    if session.state == PairState::Relaying {
        let lane = advance(session.lane(direction), exchange);
        let state = match lane.step {
            CopyStep::Done(outcome) => pair_step(
                session.state,
                PairEvent::Finished(direction, outcome),
            ).0,
            _ => session.state,
        };
        Session { state, ..session.with_lane(direction, lane) }
    } else {
        session
    }
}

/// One turn somewhere among many sessions: which pair, which of its two
/// loops, and what that loop's read and write came to.
pub struct Turn<E> {
    pub pair: int,
    pub direction: Direction,
    pub exchange: Exchange<E>,
}

/// Many sessions side by side, after one turn. A turn for a pair that is
/// not there moves nothing.
pub open spec fn fleet_turn<E>(fleet: Seq<Session<E>>, turn: Turn<E>) -> Seq<Session<E>> {
    if 0 <= turn.pair < fleet.len() {
        fleet.update(turn.pair, session_turn(fleet[turn.pair], turn.direction, turn.exchange))
    } else {
        fleet
    }
}

/// Many sessions side by side, taken through `turns` in the order in which
/// they happened, whichever pairs and directions they fall to.
pub open spec fn fleet_run<E>(fleet: Seq<Session<E>>, turns: Seq<Turn<E>>) -> Seq<Session<E>>
    decreases turns.len(),
{
    if turns.len() == 0 {
        fleet
    } else {
        fleet_turn(fleet_run(fleet, turns.drop_last()), turns.last())
    }
}

/// The chunks that `turns` hand to the loop of one direction of one pair,
/// in order.
pub open spec fn lane_chunks<E>(turns: Seq<Turn<E>>, pair: int, direction: Direction) -> Seq<
    Seq<u8>,
>
    decreases turns.len(),
{
    if turns.len() == 0 {
        Seq::empty()
    } else {
        let before = lane_chunks(turns.drop_last(), pair, direction);
        let turn = turns.last();
        match turn.exchange.read {
            Ok(chunk) => if turn.pair == pair && turn.direction == direction {
                before.push(chunk)
            } else {
                before
            },
            Err(_) => before,
        }
    }
}

/// Every turn that falls to `pair` is a delivery without fault.
pub open spec fn spared<E>(turns: Seq<Turn<E>>, pair: int) -> bool {
    forall|i: int|
        0 <= i < turns.len() && (#[trigger] turns[i]).pair == pair ==> delivers(turns[i].exchange)
}

/// A turn of one pair leaves every other pair as it was: its state, its
/// loops, and every byte it has forwarded.
pub proof fn lemma_turn_stays_in_its_pair<E>(fleet: Seq<Session<E>>, turn: Turn<E>, other: int)
    requires
        0 <= other < fleet.len(),
        other != turn.pair,
    ensures
        fleet_turn(fleet, turn).len() == fleet.len(),
        fleet_turn(fleet, turn)[other] == fleet[other],
{
}

/// Turns of different pairs can happen in either order: the sessions end
/// up the same.
pub proof fn lemma_turns_of_different_pairs_commute<E>(
    fleet: Seq<Session<E>>,
    one: Turn<E>,
    two: Turn<E>,
)
    requires
        one.pair != two.pair,
    ensures
        fleet_turn(fleet_turn(fleet, one), two) == fleet_turn(fleet_turn(fleet, two), one),
{
    assert(fleet_turn(fleet_turn(fleet, one), two) =~= fleet_turn(fleet_turn(fleet, two), one));
}

/// Duplex forwarding, pair by pair. Among any number of pairs, with their
/// turns interleaved in any order, a pair whose own transport is without
/// fault forwards in each direction exactly the stream that direction was
/// handed, in order, nothing lost, nothing twice and nothing from
/// elsewhere, and goes on relaying. This holds whatever happens to the
/// other pairs meanwhile, faults and closing included.
pub proof fn lemma_each_pair_forwards_its_own_streams<E>(
    fleet: Seq<Session<E>>,
    turns: Seq<Turn<E>>,
    pair: int,
    direction: Direction,
)
    requires
        0 <= pair < fleet.len(),
        fleet[pair].running(),
        spared(turns, pair),
    ensures
        fleet_run(fleet, turns).len() == fleet.len(),
        fleet_run(fleet, turns)[pair].running(),
        fleet_run(fleet, turns)[pair].lane(direction).forwarded == fleet[pair].lane(
            direction,
        ).forwarded + lane_chunks(turns, pair, direction).flatten(),
    decreases turns.len(),
{
    let sent = fleet[pair].lane(direction).forwarded;
    if turns.len() == 0 {
        assert(sent + lane_chunks(turns, pair, direction).flatten() =~= sent);
    } else {
        let before = turns.drop_last();
        let turn = turns.last();
        assert forall|i: int| 0 <= i < before.len() && (#[trigger] before[i]).pair
            == pair implies delivers(before[i].exchange) by {
            assert(before[i] == turns[i]);
        }
        lemma_each_pair_forwards_its_own_streams(fleet, before, pair, direction);
        let session = fleet_run(fleet, before)[pair];
        let handed = lane_chunks(before, pair, direction);
        if turn.pair == pair {
            assert(turn == turns[turns.len() - 1]);
            lemma_delivery(session.lane(turn.direction), turn.exchange);
            if turn.direction == direction {
                let chunk = turn.exchange.read->Ok_0;
                handed.lemma_flatten_push(chunk);
                assert(sent + handed.flatten() + chunk =~= sent + (handed.flatten() + chunk));
            }
        }
    }
}

/// Teardown. The turn that ends either loop of a running session, cleanly
/// or not, closes the pair there and then; the loop ends with the verdict
/// of that turn and forwards nothing more.
pub proof fn lemma_first_end_closes_the_pair<E>(
    session: Session<E>,
    direction: Direction,
    exchange: Exchange<E>,
)
    requires
        session.running(),
        stops(exchange),
    ensures
        session_turn(session, direction, exchange).state == PairState::Closed,
        session_turn(session, direction, exchange).lane(direction).step == CopyStep::Done(
            verdict(exchange),
        ),
        session_turn(session, direction, exchange).forward.forwarded == session.forward.forwarded,
        session_turn(session, direction, exchange).backward.forwarded
            == session.backward.forwarded,
{
    lemma_stop(session.lane(direction), exchange);
}

/// A closed pair forwards nothing, in either direction, ever again:
/// whatever turns follow, for it or for others, it stays exactly as it
/// was when it closed.
pub proof fn lemma_closed_pair_forwards_nothing<E>(
    fleet: Seq<Session<E>>,
    turns: Seq<Turn<E>>,
    pair: int,
)
    requires
        0 <= pair < fleet.len(),
        fleet[pair].state == PairState::Closed,
    ensures
        fleet_run(fleet, turns).len() == fleet.len(),
        fleet_run(fleet, turns)[pair] == fleet[pair],
    decreases turns.len(),
{
    if turns.len() > 0 {
        lemma_closed_pair_forwards_nothing(fleet, turns.drop_last(), pair);
    }
}

/// Running over two stretches of turns is running over the first and
/// going on from there over the second.
pub proof fn lemma_fleet_run_in_stretches<E>(
    fleet: Seq<Session<E>>,
    early: Seq<Turn<E>>,
    late: Seq<Turn<E>>,
)
    ensures
        fleet_run(fleet, early + late) == fleet_run(fleet_run(fleet, early), late),
    decreases late.len(),
{
    if late.len() == 0 {
        assert(early + late =~= early);
    } else {
        lemma_fleet_run_in_stretches(fleet, early, late.drop_last());
        assert((early + late).drop_last() =~= early + late.drop_last());
    }
}

/// The whole life of a relaying pair, among any others. Up to the first
/// turn that ends one of its loops it forwards, in each direction, exactly
/// what that direction was handed; with that turn it closes; and of all
/// that follows it forwards nothing.
pub proof fn lemma_pair_forwards_until_its_first_end<E>(
    fleet: Seq<Session<E>>,
    early: Seq<Turn<E>>,
    end: Turn<E>,
    later: Seq<Turn<E>>,
    direction: Direction,
)
    requires
        0 <= end.pair < fleet.len(),
        fleet[end.pair].running(),
        spared(early, end.pair),
        stops(end.exchange),
    ensures
        fleet_run(fleet, early.push(end) + later).len() == fleet.len(),
        fleet_run(fleet, early.push(end) + later)[end.pair].state == PairState::Closed,
        fleet_run(fleet, early.push(end) + later)[end.pair].lane(end.direction).step
            == CopyStep::Done(verdict(end.exchange)),
        fleet_run(fleet, early.push(end) + later)[end.pair].lane(direction).forwarded
            == fleet[end.pair].lane(direction).forwarded + lane_chunks(
            early,
            end.pair,
            direction,
        ).flatten(),
{
    let until = early.push(end);
    lemma_each_pair_forwards_its_own_streams(fleet, early, end.pair, direction);
    assert(until.drop_last() =~= early);
    lemma_first_end_closes_the_pair(fleet_run(fleet, early)[end.pair], end.direction, end.exchange);
    lemma_fleet_run_in_stretches(fleet, until, later);
    lemma_closed_pair_forwards_nothing(fleet_run(fleet, until), later, end.pair);
}

} // verus!
