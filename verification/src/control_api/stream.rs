//! Streaming events to a view: which events it gets, and when the stream ends.
use vstd::prelude::*;
use crate::auth::{SessionRecord, UserRecord};
use crate::control_api::session;
use crate::events_hub::Event;
use crate::text;

verus! {

/// How often the session behind a stream is looked at, in milliseconds.
pub const SESSION_CHECK_INTERVAL: u64 = 30000;

/// Whether an event of the initial state is for a view: the overview gets all,
/// a listener's view those with its key.
pub open spec fn initial_is_for(e: Event, listener: Option<Seq<char>>) -> bool {
    match listener {
        Some(l) => e.key_text() == l,
        None => true,
    }
}

/// Whether an event is for a view: a listener's view gets those with its key
/// or its name, the overview all but the bytes of single connections.
pub open spec fn event_is_for(e: Event, listener: Option<Seq<char>>) -> bool {
    match listener {
        Some(l) => e.key_text() == l || e.listener_text() == Some(l),
        None => !(e is ConnectionBytes),
    }
}

/// Whether an event of the initial state is sent to a view.
pub fn accepts_initial(e: &Event, listener: &Option<String>) -> (r: bool)
    ensures
        r == initial_is_for(*e, match listener { Some(l) => Some(l@), None => None }),
{
    match listener {
        Some(l) => text::str_eq(e.key(), l.as_str()),
        None => true,
    }
}

/// Whether an event is sent to a view.
pub fn accepts_event(e: &Event, listener: &Option<String>) -> (r: bool)
    ensures
        r == event_is_for(*e, match listener { Some(l) => Some(l@), None => None }),
{
    match listener {
        Some(l) => text::str_eq(e.key(), l.as_str()) || match e.listener_name() {
            Some(n) => text::str_eq(n, l.as_str()),
            None => false,
        },
        None => match e {
            Event::ConnectionBytes { .. } => false,
            _ => true,
        },
    }
}

/// What a stream hears of.
pub enum StreamInput {
    /// It is time to look at the session: what is stored of it and its user.
    SessionCheck { session: Option<SessionRecord>, user: Option<UserRecord> },
    /// The client sent a ping with this payload.
    Ping(Vec<u8>),
    /// The client sent anything else that needs no answer.
    Other,
    /// The client closed, failed or is gone.
    ClientEnded,
    /// An event was published.
    Published(Event),
    /// No more events will be published.
    HubClosed,
    /// What was sent did not get through.
    SendFailed,
}

/// What a stream does.
pub enum StreamAction {
    /// Nothing.
    Wait,
    /// Answer a ping.
    Pong(Vec<u8>),
    /// Send an event.
    Send(Event),
    /// Say that the stream ends, and end it.
    Close,
    /// End the stream.
    End,
}

/// What a stream does on an input. A stream ends as soon as its session no
/// longer lasts or its user no longer administers.
pub fn stream_events(input: StreamInput, listener: &Option<String>, now: i64) -> (r: StreamAction)
    ensures
        match input {
            StreamInput::SessionCheck { session: s, user } => if session::lasts(s, now) && session::administers(user) {
                r is Wait
            } else {
                r is Close
            },
            StreamInput::Ping(payload) => r == StreamAction::Pong(payload),
            StreamInput::Other => r is Wait,
            StreamInput::ClientEnded => r is End,
            StreamInput::Published(e) => if event_is_for(e, match listener { Some(l) => Some(l@), None => None }) {
                r == StreamAction::Send(e)
            } else {
                r is Wait
            },
            StreamInput::HubClosed => r is End,
            StreamInput::SendFailed => r is End,
        },
{
    match input {
        StreamInput::SessionCheck { session: s, user } => {
            if session::session_lasts(&s, now) && session::is_administrator(&user) {
                StreamAction::Wait
            } else {
                StreamAction::Close
            }
        },
        StreamInput::Ping(payload) => StreamAction::Pong(payload),
        StreamInput::Other => StreamAction::Wait,
        StreamInput::ClientEnded => StreamAction::End,
        StreamInput::Published(e) => {
            if accepts_event(&e, listener) {
                StreamAction::Send(e)
            } else {
                StreamAction::Wait
            }
        },
        StreamInput::HubClosed => StreamAction::End,
        StreamInput::SendFailed => StreamAction::End,
    }
}

/// The events of the initial state that are for a view, in order.
pub open spec fn initial_events(s: Seq<Event>, listener: Option<Seq<char>>) -> Seq<Event>
    decreases s.len(),
{
    if s.len() == 0 {
        seq![]
    } else if initial_is_for(s.last(), listener) {
        initial_events(s.drop_last(), listener).push(s.last())
    } else {
        initial_events(s.drop_last(), listener)
    }
}

/// Selects the events of the initial state that are for a view.
pub fn initial_state(snapshot: Vec<Event>, listener: &Option<String>) -> (r: Vec<Event>)
    ensures
        r@ == initial_events(snapshot@, match listener { Some(l) => Some(l@), None => None }),
{
    let ghost l = match listener { Some(l) => Some(l@), None => None };
    let mut out: Vec<Event> = Vec::new();
    for e in it: snapshot
        invariant
            it.seq() == snapshot@,
            l == (match listener { Some(l) => Some(l@), None => None }),
            out@ == initial_events(snapshot@.take(it.index()), l),
    {
        assert(snapshot@.take(it.index() + 1).drop_last() =~= snapshot@.take(it.index()));
        if accepts_initial(&e, listener) {
            out.push(e);
        }
    }
    assert(snapshot@.take(snapshot@.len() as int) =~= snapshot@);
    out
}

/// A view of the initial state holds every event that is for it, and no other:
/// the overview all of them, a listener's view those that carry its name as
/// their key.
pub proof fn a_view_begins_with_all_that_is_for_it(s: Seq<Event>, listener: Seq<char>, i: int)
    ensures
        initial_events(s, None) == s,
        0 <= i < s.len() && s[i].key_text() == listener ==> initial_events(s, Some(listener)).contains(s[i]),
        0 <= i < initial_events(s, Some(listener)).len() ==> initial_events(s, Some(listener))[i].key_text() == listener,
    decreases s.len(),
{
    if s.len() > 0 {
        let t = s.drop_last();
        a_view_begins_with_all_that_is_for_it(t, listener, i);
        assert(initial_events(s, None) =~= s);
        let a = initial_events(t, Some(listener));
        let b = initial_events(s, Some(listener));
        if 0 <= i < t.len() && s[i].key_text() == listener {
            assert(t[i] == s[i]);
            let k = choose|k: int| 0 <= k < a.len() && a[k] == s[i];
            assert(b[k] == s[i]);
        }
        if i == t.len() && s[i].key_text() == listener {
            assert(b[b.len() - 1] == s[i]);
        }
    } else {
        assert(initial_events(s, None) =~= s);
    }
}

/// A listener's view gets every event that names the listener, as its key or
/// otherwise; the overview gets all but the bytes of single connections.
pub proof fn a_view_gets_what_is_about_it(e: Event, listener: Seq<char>)
    ensures
        e.key_text() == listener ==> event_is_for(e, Some(listener)),
        e.listener_text() == Some(listener) ==> event_is_for(e, Some(listener)),
        e.key_text() != listener && e.listener_text() != Some(listener) ==> !event_is_for(e, Some(listener)),
        event_is_for(e, None) <==> !(e is ConnectionBytes),
{
}

/// A stream goes on as long as its session lasts and its user administers; it
/// answers a ping with its payload, and sends what is for it.
pub proof fn a_stream_goes_on_while_its_session_lasts(
    input: StreamInput,
    listener: Option<String>,
    now: i64,
    r: StreamAction,
)
    requires
        call_ensures(stream_events, (input, &listener, now), r),
    ensures
        input matches StreamInput::SessionCheck { session: s, user } ==> (r is Wait <==> s is Some && (s->0).expires_at is Some
            && (s->0).expires_at->0 > now && user is Some && (user->0).administrator && !(user->0).disabled) && (r is Wait || r is Close),
        input matches StreamInput::Ping(payload) ==> r == StreamAction::Pong(payload),
        input is ClientEnded || input is HubClosed || input is SendFailed <==> r is End,
        input matches StreamInput::Published(e) ==> (listener is None && !(e is ConnectionBytes) ==> r
            == StreamAction::Send(e)),
        input matches StreamInput::Published(e) ==> (listener is Some && e.key_text() == (listener->0)@ ==> r
            == StreamAction::Send(e)),
        input is Other ==> r is Wait,
{
}

} // verus!
