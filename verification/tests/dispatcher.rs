use tcp_forward::dispatcher::{Admission, Directive, Dispatcher};
use tcp_forward::endpoint::{Config, Endpoint};
use tcp_forward::pair::{PairAction, PairState};

fn listen() -> Endpoint {
    Endpoint::V4 { octets: [127, 0, 0, 1], port: 9000 }
}

fn remote() -> Endpoint {
    Endpoint::V4 { octets: [127, 0, 0, 1], port: 9001 }
}

fn dispatcher() -> Dispatcher {
    Dispatcher::new(Config { listen: listen(), remote: remote() })
}

#[test]
fn a_dispatcher_keeps_the_addresses_it_was_given() {
    let dispatcher = dispatcher();
    assert_eq!(dispatcher.config(), Config { listen: listen(), remote: remote() });
    assert_eq!(dispatcher.config().listen, listen());
    assert_eq!(dispatcher.config().remote, remote());
}

#[test]
fn a_dispatcher_starts_by_binding_its_listen_address() {
    assert_eq!(dispatcher().start::<String>(), Directive::Bind(listen()));
}

#[test]
fn a_bound_dispatcher_accepts() {
    assert_eq!(dispatcher().after_bind::<String>(Ok(())), Directive::Accept);
}

#[test]
fn a_failed_bind_aborts_with_the_failure() {
    assert_eq!(
        dispatcher().after_bind(Err("address in use".to_string())),
        Directive::Abort("address in use".to_string())
    );
}

#[test]
fn an_accepted_connection_is_matched_with_a_dial_to_the_remote() {
    assert_eq!(dispatcher().after_accept::<String>(Ok(())), Directive::Connect(remote()));
}

#[test]
fn the_dial_goes_to_the_remote_even_where_both_addresses_differ_in_family() {
    let far = Endpoint::V6 {
        segments: [0x2001, 0xdb8, 0, 0, 0, 0, 0, 1],
        port: 443,
        flowinfo: 0,
        scope_id: 0,
    };
    let dispatcher = Dispatcher::new(Config { listen: listen(), remote: far });
    assert_eq!(dispatcher.start::<String>(), Directive::Bind(listen()));
    assert_eq!(dispatcher.after_accept::<String>(Ok(())), Directive::Connect(far));
}

#[test]
fn a_failed_accept_aborts_with_the_failure() {
    assert_eq!(
        dispatcher().after_accept(Err("too many open files".to_string())),
        Directive::Abort("too many open files".to_string())
    );
}

#[test]
fn a_connection_that_reached_the_remote_is_relayed_and_the_dispatcher_accepts_again() {
    assert_eq!(
        dispatcher().after_connect::<String>(Ok(())),
        Admission { pair: PairState::Relaying, action: PairAction::Relay, next: Directive::Accept }
    );
}

#[test]
fn a_refused_dial_rejects_the_connection_and_the_dispatcher_accepts_again() {
    assert_eq!(
        dispatcher().after_connect(Err("connection refused".to_string())),
        Admission {
            pair: PairState::Closed,
            action: PairAction::Reject("connection refused".to_string()),
            next: Directive::Accept
        }
    );
}

#[test]
fn a_remote_that_keeps_refusing_never_stops_the_dispatcher() {
    let dispatcher = dispatcher();
    let mut directive: Directive<String> = dispatcher.after_bind(Ok(()));
    let mut rejected = 0;
    for attempt in 0..1000 {
        assert_eq!(directive, Directive::Accept);
        assert_eq!(dispatcher.after_accept::<String>(Ok(())), Directive::Connect(remote()));
        let admission = dispatcher.after_connect(Err(format!("refused {attempt}")));
        assert_eq!(admission.pair, PairState::Closed);
        assert_eq!(admission.action, PairAction::Reject(format!("refused {attempt}")));
        rejected += 1;
        directive = admission.next;
    }
    assert_eq!(directive, Directive::Accept);
    assert_eq!(rejected, 1000);
}

#[test]
fn fifty_connections_at_once_are_all_handed_over() {
    let dispatcher = dispatcher();
    let mut pairs: Vec<PairState> = Vec::new();
    for _ in 0..50 {
        assert_eq!(dispatcher.after_accept::<String>(Ok(())), Directive::Connect(remote()));
        let admission = dispatcher.after_connect::<String>(Ok(()));
        assert_eq!(admission.action, PairAction::Relay);
        assert_eq!(admission.next, Directive::Accept);
        pairs.push(admission.pair);
    }
    assert_eq!(pairs.len(), 50);
    assert!(pairs.iter().all(|pair| *pair == PairState::Relaying));
}

#[test]
fn the_fate_of_a_connection_is_its_own_dial_alone() {
    let dispatcher = dispatcher();
    let dials: Vec<Result<(), String>> =
        vec![Ok(()), Err("refused".to_string()), Ok(()), Ok(()), Err("timed out".to_string())];
    let mut actions: Vec<PairAction<String>> = Vec::new();
    for dial in dials {
        assert_eq!(dispatcher.after_accept::<String>(Ok(())), Directive::Connect(remote()));
        let admission = dispatcher.after_connect(dial);
        assert_eq!(admission.next, Directive::Accept);
        actions.push(admission.action);
    }
    assert_eq!(
        actions,
        vec![
            PairAction::Relay,
            PairAction::Reject("refused".to_string()),
            PairAction::Relay,
            PairAction::Relay,
            PairAction::Reject("timed out".to_string()),
        ]
    );
}
