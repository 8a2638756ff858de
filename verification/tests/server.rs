use rawhttp::server::{after_accept, Accepted, Action, Listener};

#[test]
fn accepted_socket_is_served_and_listening_goes_on() {
    let turn = after_accept(Accepted::Connection, false);
    assert_eq!(turn.action, Action::Serve);
    assert_eq!(turn.listener, Listener::Listening);
}

#[test]
fn failed_accept_is_reported_and_listening_goes_on() {
    let turn = after_accept(Accepted::Failure, false);
    assert_eq!(turn.action, Action::Report);
    assert_eq!(turn.listener, Listener::Listening);
}

#[test]
fn closing_takes_effect_after_the_iteration() {
    let turn = after_accept(Accepted::Connection, true);
    assert_eq!(turn.action, Action::Serve);
    assert_eq!(turn.listener, Listener::Closed);
    let turn = after_accept(Accepted::Failure, true);
    assert_eq!(turn.action, Action::Report);
    assert_eq!(turn.listener, Listener::Closed);
}
