use greeter::client::{Action, Client, Event};
use greeter::error::{Error, Stop};
use greeter::server::{AcceptNext, Greeter, Route};

const PREFACE: &[u8] = b"PRI * HTTP/2.0\r\n\r\nSM\r\n\r\n";

fn ready() -> Event {
    Event::Ready { readable: true, writable: true }
}

#[test]
fn an_unknown_token_is_ignored() {
    let mut greeter = Greeter::new(3);
    assert_eq!(greeter.route(3), Route::Accept);
    assert_eq!(greeter.route(4), Route::Ignore);
    assert!(greeter.serve(4, ready(), false).is_none());
}

#[test]
fn accepted_connections_are_served_each_for_itself() {
    let mut greeter = Greeter::new(3);
    assert_eq!(greeter.accept(Some((4, Client::new(0)))), AcceptNext::Again);
    assert_eq!(greeter.accept(Some((5, Client::new(0)))), AcceptNext::Again);
    assert_eq!(greeter.route(3), Route::Accept);
    assert_eq!(greeter.route(4), Route::Serve);
    assert!(matches!(greeter.serve(4, ready(), false), Some(Ok(Action::Read))));
    assert!(matches!(greeter.serve(4, Event::Received(PREFACE.to_vec()), false), Some(Ok(Action::Read))));
    assert!(matches!(greeter.serve(4, Event::WouldBlock, false), Some(Ok(Action::Write(_)))));
    assert!(matches!(greeter.serve(4, Event::Written, false), Some(Ok(Action::Done))));
    // The other one still waits for its preface.
    assert!(matches!(greeter.serve(5, Event::WouldBlock, false), Some(Ok(Action::Done))));
    assert_eq!(greeter.route(4), Route::Serve);
    assert_eq!(greeter.route(5), Route::Serve);
}

#[test]
fn a_stopped_connection_is_dropped() {
    let mut greeter = Greeter::new(3);
    assert_eq!(greeter.accept(Some((4, Client::new(0)))), AcceptNext::Again);
    assert_eq!(greeter.accept(Some((5, Client::new(0)))), AcceptNext::Again);
    match greeter.serve(4, Event::Received(vec![]), false) {
        Some(Err(Stop::Reject(Error::Disconnected(_)))) => {}
        _ => panic!("still there"),
    }
    assert_eq!(greeter.route(4), Route::Ignore);
    assert_eq!(greeter.route(5), Route::Serve);
    assert!(greeter.serve(4, ready(), false).is_none());
}

#[test]
fn a_closing_connection_is_dropped_once_it_is_settled() {
    let mut greeter = Greeter::new(3);
    assert_eq!(greeter.accept(Some((4, Client::new(0)))), AcceptNext::Again);
    assert!(matches!(greeter.serve(4, Event::Received(PREFACE.to_vec()), true), Some(Ok(Action::Read))));
    assert!(matches!(greeter.serve(4, Event::WouldBlock, true), Some(Ok(Action::Write(_)))));
    assert_eq!(greeter.route(4), Route::Serve);
    assert!(matches!(greeter.serve(4, Event::Written, true), Some(Ok(Action::Done))));
    assert_eq!(greeter.route(4), Route::Ignore);
}

#[test]
fn a_token_can_be_used_again() {
    let mut greeter = Greeter::new(3);
    assert_eq!(greeter.accept(Some((4, Client::new(0)))), AcceptNext::Again);
    assert!(matches!(greeter.serve(4, Event::Received(vec![b'x'; 24]), false), Some(Ok(Action::Read))));
    assert_eq!(greeter.accept(Some((4, Client::new(0)))), AcceptNext::Again);
    assert!(matches!(greeter.serve(4, Event::WouldBlock, false), Some(Ok(Action::Done))));
}

#[test]
fn accepting_goes_on_until_it_fails() {
    let mut greeter = Greeter::new(3);
    assert_eq!(greeter.accept(Some((4, Client::new(0)))), AcceptNext::Again);
    assert_eq!(greeter.accept(Some((5, Client::new(0)))), AcceptNext::Again);
    assert_eq!(greeter.accept(None), AcceptNext::Settled);
    assert_eq!((greeter.route(4), greeter.route(5), greeter.route(6)), (Route::Serve, Route::Serve, Route::Ignore));
}
