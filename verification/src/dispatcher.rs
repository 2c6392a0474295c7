use crate::endpoint::{Config, Endpoint};
use crate::pair::{pair_step, PairAction, PairEvent, PairState};
use vstd::prelude::*;

verus! {

/// What the dispatcher does next.
#[derive(Debug, PartialEq, Eq)]
pub enum Directive<E> {
    /// Bind the listening socket to this address.
    Bind(Endpoint),
    /// Wait for the next inbound connection.
    Accept,
    /// Open an outbound connection to this address for the inbound
    /// connection just accepted.
    Connect(Endpoint),
    /// Give up: the listener itself failed, and with it the process.
    Abort(E),
}

/// The fate of one accepted connection once the attempt to reach the
/// remote has ended, and how the dispatcher goes on.
#[derive(Debug, PartialEq, Eq)]
pub struct Admission<E> {
    /// The state of the connection pair.
    pub pair: PairState,
    /// What is to be done for the pair.
    pub action: PairAction<E>,
    /// What the dispatcher does next.
    pub next: Directive<E>,
}

/// After the bind: accept, or abort on a failure.
pub open spec fn directive_after_bind<E>(outcome: Result<(), E>) -> Directive<E> {
    match outcome {
        Ok(_) => Directive::Accept,
        Err(e) => Directive::Abort(e),
    }
}

/// After an accept: dial the configured remote, or abort on a failure.
pub open spec fn directive_after_accept<E>(config: Config, outcome: Result<(), E>) -> Directive<
    E,
> {
    match outcome {
        Ok(_) => Directive::Connect(config.remote),
        Err(e) => Directive::Abort(e),
    }
}

/// After the dial: the new pair takes the outcome, and the dispatcher goes
/// back to accepting whichever way it went.
pub open spec fn admission<E>(outcome: Result<(), E>) -> Admission<E> {
    let (pair, action) = pair_step(PairState::Connecting, PairEvent::Dialed(outcome));
    Admission { pair, action, next: Directive::Accept }
}

/// The accept loop of a forwarder: it binds once, then accepts inbound
/// connections for ever, dials the one remote for each, and hands over
/// every pair that came up without waiting for it.
pub struct Dispatcher {
    config: Config,
}

impl View for Dispatcher {
    type V = Config;

    /// The configuration the dispatcher was made with. No step changes it.
    closed spec fn view(&self) -> Config {
        self.config
    }
}

impl Dispatcher {
    /// A dispatcher for one listen address and one remote.
    pub fn new(config: Config) -> (dispatcher: Self)
        ensures
            dispatcher@ == config,
    {
        Dispatcher { config }
    }

    /// The configuration the dispatcher was made with.
    pub fn config(&self) -> (config: Config)
        ensures
            config == self@,
    {
        self.config
    }

    /// The first thing to do: bind the listen address.
    pub fn start<E>(&self) -> (directive: Directive<E>)
        ensures
            directive == Directive::<E>::Bind(self@.listen),
    {
        Directive::Bind(self.config.listen)
    }

    /// Decides what follows the bind. A failure to bind is fatal.
    pub fn after_bind<E>(&self, outcome: Result<(), E>) -> (directive: Directive<E>)
        ensures
            directive == directive_after_bind(outcome),
    {
        match outcome {
            Ok(_) => Directive::Accept,
            Err(e) => Directive::Abort(e),
        }
    }

    /// Decides what follows an accept. A failure of the listener is fatal;
    /// an accepted connection is matched with one to the remote.
    pub fn after_accept<E>(&self, outcome: Result<(), E>) -> (directive: Directive<E>)
        ensures
            directive == directive_after_accept(self@, outcome),
    {
        match outcome {
            Ok(_) => Directive::Connect(self.config.remote),
            Err(e) => Directive::Abort(e),
        }
    }

    /// Decides what follows the attempt to reach the remote. A failure
    /// costs only the connection it was made for.
    pub fn after_connect<E>(&self, outcome: Result<(), E>) -> (admission: Admission<E>)
        ensures
            admission == self::admission(outcome),
    {
        let (pair, action) = PairState::accepted().step(PairEvent::Dialed(outcome));
        Admission { pair, action, next: Directive::Accept }
    }
}

/// One inbound connection as the dispatcher met it: how the accept ended
/// and how the dial for it ended. The dial counts only where the accept
/// succeeded.
pub struct Arrival<E> {
    pub accept: Result<(), E>,
    pub connect: Result<(), E>,
}

/// What a dispatcher has done so far: the address dialed and what was to
/// be done for each connection it accepted, in order, and what it does
/// next.
pub struct Service<E> {
    pub dialed: Seq<Endpoint>,
    pub actions: Seq<PairAction<E>>,
    pub next: Directive<E>,
}

/// A dispatcher whose bind has ended with `bind`, before any arrival.
pub open spec fn launched<E>(bind: Result<(), E>) -> Service<E> {
    Service { dialed: Seq::empty(), actions: Seq::empty(), next: directive_after_bind(bind) }
}

/// One arrival at a dispatcher that is accepting: the accept, then the
/// dial if there is one to make. A dispatcher that has aborted receives
/// nothing.
pub open spec fn receive<E>(config: Config, service: Service<E>, arrival: Arrival<E>) -> Service<
    E,
> {
    if service.next is Accept {
        match directive_after_accept(config, arrival.accept) {
            Directive::Connect(remote) => {
                let admitted = admission(arrival.connect);
                Service {
                    dialed: service.dialed.push(remote),
                    actions: service.actions.push(admitted.action),
                    next: admitted.next,
                }
            },
            next => Service { dialed: service.dialed, actions: service.actions, next },
        }
    } else {
        service
    }
}

/// A dispatcher taken from `start` through `arrivals`, in order.
pub open spec fn serve<E>(config: Config, start: Service<E>, arrivals: Seq<Arrival<E>>) -> Service<
    E,
>
    decreases arrivals.len(),
{
    if arrivals.len() == 0 {
        start
    } else {
        receive(config, serve(config, start, arrivals.drop_last()), arrivals.last())
    }
}

/// Arrivals that the listener accepted without fault, with the outcome of
/// the dial for each.
pub open spec fn accepted<E>(connects: Seq<Result<(), E>>) -> Seq<Arrival<E>> {
    Seq::new(connects.len(), |i: int| Arrival { accept: Ok(()), connect: connects[i] })
}

/// What is to be done for an accepted connection, by the outcome of its
/// dial alone: relay it, or reject it with the failure.
pub open spec fn fate<E>(connect: Result<(), E>) -> PairAction<E> {
    match connect {
        Ok(_) => PairAction::Relay,
        Err(e) => PairAction::Reject(e),
    }
}

/// The same address, once per connection.
pub open spec fn each_to(remote: Endpoint, count: nat) -> Seq<Endpoint> {
    Seq::new(count, |i: int| remote)
}

/// The fate of each connection, in order.
pub open spec fn fates<E>(connects: Seq<Result<(), E>>) -> Seq<PairAction<E>> {
    Seq::new(connects.len(), |i: int| fate(connects[i]))
}

/// No connection is turned away and none is waited for. However many
/// connections arrive, and whether or not the remote can be reached, the
/// dispatcher dials the configured remote for every one of them, decides
/// the fate of each by its own dial alone, and is accepting again at the
/// end. A remote that refuses costs the connections it refused and
/// nothing else.
pub proof fn lemma_every_connection_served<E>(config: Config, connects: Seq<Result<(), E>>)
    ensures
        serve(config, launched(Ok(())), accepted(connects)) == (Service {
            dialed: each_to(config.remote, connects.len()),
            actions: fates(connects),
            next: Directive::Accept,
        }),
    decreases connects.len(),
{
    let served = serve(config, launched(Ok(())), accepted(connects));
    if connects.len() == 0 {
        assert(served.dialed =~= each_to(config.remote, 0));
        assert(served.actions =~= fates(connects));
    } else {
        let before = connects.drop_last();
        lemma_every_connection_served(config, before);
        assert(accepted(connects).drop_last() =~= accepted(before));
        assert(each_to(config.remote, before.len()).push(config.remote) =~= each_to(
            config.remote,
            connects.len(),
        ));
        assert(fates(before).push(fate(connects.last())) =~= fates(connects));
    }
}

/// A dispatcher that has aborted stays as it is, whatever would arrive.
pub proof fn lemma_aborted_dispatcher_stays<E>(
    config: Config,
    service: Service<E>,
    arrivals: Seq<Arrival<E>>,
)
    requires
        service.next is Abort,
    ensures
        serve(config, service, arrivals) == service,
    decreases arrivals.len(),
{
    if arrivals.len() > 0 {
        lemma_aborted_dispatcher_stays(config, service, arrivals.drop_last());
    }
}

/// A listener that cannot be bound serves nobody: the dispatcher aborts
/// with the failure of the bind, and no connection is ever accepted.
pub proof fn lemma_bind_failure_is_fatal<E>(config: Config, failure: E, arrivals: Seq<Arrival<E>>)
    ensures
        serve(config, launched(Err(failure)), arrivals) == (Service {
            dialed: Seq::empty(),
            actions: Seq::empty(),
            next: Directive::Abort(failure),
        }),
{
    lemma_aborted_dispatcher_stays(config, launched(Err(failure)), arrivals);
}

/// Serving two stretches of arrivals is serving the first and going on
/// from there with the second.
pub proof fn lemma_serve_in_stretches<E>(
    config: Config,
    start: Service<E>,
    early: Seq<Arrival<E>>,
    late: Seq<Arrival<E>>,
)
    ensures
        serve(config, start, early + late) == serve(config, serve(config, start, early), late),
    decreases late.len(),
{
    if late.len() == 0 {
        assert(early + late =~= early);
    } else {
        lemma_serve_in_stretches(config, start, early, late.drop_last());
        assert((early + late).drop_last() =~= early + late.drop_last());
    }
}

/// Only the listener can stop a dispatcher. After any connections served,
/// the first accept that fails aborts with that failure: no dial is made
/// for it, and nothing that would arrive later is looked at.
pub proof fn lemma_listener_failure_is_fatal<E>(
    config: Config,
    connects: Seq<Result<(), E>>,
    failed: Arrival<E>,
    later: Seq<Arrival<E>>,
)
    requires
        failed.accept is Err,
    ensures
        serve(config, launched(Ok(())), accepted(connects).push(failed) + later) == (Service {
            dialed: each_to(config.remote, connects.len()),
            actions: fates(connects),
            next: Directive::Abort(failed.accept->Err_0),
        }),
{
    let until = accepted(connects).push(failed);
    lemma_every_connection_served(config, connects);
    assert(until.drop_last() =~= accepted(connects));
    lemma_serve_in_stretches(config, launched(Ok(())), until, later);
    lemma_aborted_dispatcher_stays(config, serve(config, launched(Ok(())), until), later);
}

} // verus!
