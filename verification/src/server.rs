//! The connections of one worker.

use crate::client::{on_event, Action, ActionView, Client, ClientView, Event};
use crate::error::Stop;
use crate::table::{contains, get_mut, insert, new_table, remove};
use rustc_hash::FxHashMap;
use vstd::prelude::*;

verus! {

/// Whom an event of the poll is for.
#[derive(PartialEq, Eq, Structural, Debug, Clone, Copy)]
pub enum Route {
    /// The listener: connections can be accepted.
    Accept,
    /// A connection.
    Serve,
    /// A connection that is gone.
    Ignore,
}

/// The connections of one worker, by the token of their socket.
pub struct Greeter {
    listen_token: u64,
    clients: FxHashMap<u64, Client>,
}

/// The mathematical value of a worker.
#[verifier::ext_equal]
pub struct GreeterView {
    pub listen_token: u64,
    pub clients: Map<u64, ClientView>,
}

impl View for Greeter {
    type V = GreeterView;

    closed spec fn view(&self) -> GreeterView {
        GreeterView {
            listen_token: self.listen_token,
            clients: self.clients@.map_values(|c: Client| c@),
        }
    }
}

/// Whether the socket has nothing more to do for the event at hand.
pub open spec fn settled(action: ActionView) -> bool {
    action is Done || action is WindowFull
}

/// What an event on the socket of a connection does. The connection is dropped once it is
/// stopped, and, if the poll has found its socket broken or closed, once it is settled.
pub open spec fn served(v: GreeterView, token: u64, event: Event, closing: bool) -> (
    GreeterView,
    Option<Result<ActionView, Stop>>,
) {
    if !v.clients.dom().contains(token) {
        (v, None)
    } else {
        let (client, next) = on_event(v.clients[token], event);
        let gone = match next {
            Err(_) => true,
            Ok(action) => closing && settled(action),
        };
        (
            GreeterView {
                clients: if gone {
                    v.clients.remove(token)
                } else {
                    v.clients.insert(token, client)
                },
                ..v
            },
            Some(next),
        )
    }
}

/// What to do with the listener next.
#[derive(PartialEq, Eq, Structural, Debug, Clone, Copy)]
pub enum AcceptNext {
    /// Accept another connection.
    Again,
    /// Nothing until it is ready again.
    Settled,
}

/// What an accept does. A connection is taken in, in place of one that still stands under the
/// same token, and there may be more of them. An accept that fails ends the event and changes
/// nothing.
pub open spec fn accepted(v: GreeterView, outcome: Option<(u64, ClientView)>) -> (
    GreeterView,
    AcceptNext,
) {
    match outcome {
        None => (v, AcceptNext::Settled),
        Some((token, client)) => (
            GreeterView { clients: v.clients.insert(token, client), ..v },
            AcceptNext::Again,
        ),
    }
}

impl Greeter {
    /// A worker without connections.
    pub fn new(listen_token: u64) -> (greeter: Greeter)
        ensures
            greeter@ == (GreeterView { listen_token, clients: Map::empty() }),
    {
        let greeter = Greeter { listen_token, clients: new_table() };
        assert(greeter@.clients =~= Map::empty());
        greeter
    }

    /// Whom an event with this token is for.
    pub fn route(&self, token: u64) -> (route: Route)
        ensures
            route == if token == self@.listen_token {
                Route::Accept
            } else if self@.clients.dom().contains(token) {
                Route::Serve
            } else {
                Route::Ignore
            },
    {
        if token == self.listen_token {
            Route::Accept
        } else if contains(&self.clients, token) {
            Route::Serve
        } else {
            Route::Ignore
        }
    }

    /// Takes in what an accept brought, a connection and the token of its socket, and says
    /// what to do with the listener next.
    pub fn accept(&mut self, outcome: Option<(u64, Client)>) -> (next: AcceptNext)
        ensures
            accepted(
                old(self)@,
                match outcome {
                    None => None,
                    Some((token, client)) => Some((token, client@)),
                },
            ) == (final(self)@, next),
    {
        match outcome {
            None => AcceptNext::Settled,
            Some((token, client)) => {
                insert(&mut self.clients, token, client);
                assert(self@.clients =~= old(self)@.clients.insert(token, client@));
                AcceptNext::Again
            },
        }
    }

    /// Tells the connection with this token what happened to its socket, and says what to do
    /// with it next. `closing` tells that the poll has found the socket broken or closed.
    pub fn serve(&mut self, token: u64, event: Event, closing: bool) -> (next: Option<
        Result<Action, Stop>,
    >)
        ensures
            served(old(self)@, token, event, closing) == (
                final(self)@,
                match next {
                    None => None,
                    Some(Ok(action)) => Some(Ok::<ActionView, Stop>(action@)),
                    Some(Err(stop)) => Some(Err::<ActionView, Stop>(stop)),
                },
            ),
    {
        let ghost before = self@.clients;
        let next = match get_mut(&mut self.clients, token) {
            None => {
                return None;
            },
            Some(client) => client.handle(event),
        };
        let gone: bool = match &next {
            Err(_) => true,
            Ok(action) => match action {
                Action::Done | Action::WindowFull => closing,
                _ => false,
            },
        };
        if gone {
            let _ = remove(&mut self.clients, token);
            assert(self@.clients =~= before.remove(token));
        } else {
            assert(self@.clients =~= before.insert(token, on_event(before[token], event).0));
        }
        Some(next)
    }
}

/// Connections are independent: an event on one socket leaves every other connection, and
/// the listener, as it was.
pub proof fn law_connections_are_independent(
    v: GreeterView,
    token: u64,
    event: Event,
    closing: bool,
    other: u64,
)
    requires
        other != token,
    ensures
        ({
            let after = served(v, token, event, closing).0;
            &&& after.listen_token == v.listen_token
            &&& after.clients.dom().contains(other) == v.clients.dom().contains(other)
            &&& v.clients.dom().contains(other) ==> after.clients[other] == v.clients[other]
        }),
{
}

/// A connection that is stopped is dropped, and later events on its socket are ignored.
pub proof fn law_stopped_is_dropped(
    v: GreeterView,
    token: u64,
    event: Event,
    closing: bool,
    later: Event,
)
    ensures
        ({
            let (after, next) = served(v, token, event, closing);
            next matches Some(Err(_)) ==> served(after, token, later, closing) == (
                after,
                None::<Result<ActionView, Stop>>,
            )
        }),
{
}

/// A connection does what its own rules say, and stands under its token until it is stopped,
/// or until it has nothing more to do with a socket that is broken or closed.
pub proof fn law_served_by_its_own_rules(v: GreeterView, token: u64, event: Event, closing: bool)
    requires
        v.clients.dom().contains(token),
    ensures
        ({
            let (after, next) = served(v, token, event, closing);
            let (client, own) = on_event(v.clients[token], event);
            &&& next == Some(own)
            &&& own is Err ==> !after.clients.dom().contains(token)
            &&& own matches Ok(action) ==> (after.clients.dom().contains(token) <==> !closing
                || action is Read || action is Write)
            &&& after.clients.dom().contains(token) ==> after.clients[token] == client
        }),
{
}

/// An event for a token that is not known changes nothing.
pub proof fn law_unknown_tokens_are_ignored(v: GreeterView, token: u64, event: Event, closing: bool)
    requires
        !v.clients.dom().contains(token),
    ensures
        served(v, token, event, closing) == (v, None::<Result<ActionView, Stop>>),
{
}

/// Accepting goes on as long as connections come. Each stands under its token, and all others
/// stay as they are.
pub proof fn law_accepts_until_failure(v: GreeterView, token: u64, client: ClientView, other: u64)
    ensures
        accepted(v, None) == (v, AcceptNext::Settled),
        ({
            let (after, next) = accepted(v, Some((token, client)));
            &&& next == AcceptNext::Again
            &&& after.listen_token == v.listen_token
            &&& after.clients.dom().contains(token)
            &&& after.clients[token] == client
            &&& other != token ==> after.clients.dom().contains(other) == v.clients.dom().contains(
                other,
            )
            &&& other != token && v.clients.dom().contains(other) ==> after.clients[other]
                == v.clients[other]
        }),
{
}

} // verus!
