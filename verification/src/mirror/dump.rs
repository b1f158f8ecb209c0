//! Listening to tables of a mirror for some time, and asking it one question.

use vstd::prelude::*;

use crate::text::{chars_of, push_chars, same_text, text_of, trim_end_of, trimmed_end_of};
use crate::url_text::{
    has_room, parse_url, path_of, scheme_of, url_fits, url_path, url_scheme, url_text, url_with_pair, url_with_path,
    url_with_scheme, with_pair, with_path, with_scheme,
};

verus! {

/// The question for all rows of a table.
pub fn query_all(table: &str) -> (r: String)
    ensures
        r@ == "SELECT * FROM "@ + table@,
{
    let mut out = text_of(chars_of("SELECT * FROM ").as_slice());
    push_chars(&mut out, chars_of(table).as_slice());
    out
}

/// Why there is no address to subscribe at.
#[derive(Debug)]
pub enum AddressError {
    NotAUrl,
    UnsupportedScheme(String),
    /// The address may be longer than a URL can be.
    TooLong,
}

/// The scheme of subscriptions for a scheme: web sockets, with encryption or
/// without.
pub open spec fn socket_scheme(scheme: Seq<char>) -> Option<Seq<char>> {
    if scheme == "ws"@ || scheme == "http"@ {
        Some("ws"@)
    } else if scheme == "wss"@ || scheme == "https"@ {
        Some("wss"@)
    } else {
        None
    }
}

/// Whether a scheme stands for web sockets already.
pub open spec fn is_socket(scheme: Seq<char>) -> bool {
    scheme == "ws"@ || scheme == "wss"@
}

/// The path of the subscription to a database behind a path.
pub open spec fn subscribe_path(path: Seq<char>, database: Seq<char>) -> Seq<char> {
    trim_end_of(path, '/') + "/v1/database/"@ + database + "/subscribe"@
}

/// A URL with the scheme of subscriptions.
pub open spec fn as_socket(url: Seq<char>, scheme: Seq<char>) -> Option<Seq<char>> {
    if is_socket(scheme) {
        Some(url)
    } else {
        url_with_scheme(url, socket_scheme(scheme)->Some_0)
    }
}

/// What an address comes to.
#[verifier::ext_equal]
pub enum AddressModel {
    Address(Seq<char>),
    NotAUrl,
    UnsupportedScheme(Seq<char>),
    TooLong,
}

/// The address of the subscription to a database at a URL that is in its
/// normal form and has a scheme of web sockets: the path is that of the
/// database, and nothing is compressed.
pub open spec fn placed_address(socket: Seq<char>, database: Seq<char>) -> AddressModel {
    match url_path(socket) {
        None => AddressModel::NotAUrl,
        Some(path) => {
            let full = subscribe_path(path, database);
            if !has_room(socket, full.len()) {
                AddressModel::TooLong
            } else {
                match url_with_path(socket, full) {
                    None => AddressModel::NotAUrl,
                    Some(p) => if !has_room(p, 15) {
                        AddressModel::TooLong
                    } else {
                        match url_with_pair(p, "compression"@, "None"@) {
                            Some(a) => AddressModel::Address(a),
                            None => AddressModel::NotAUrl,
                        }
                    },
                }
            }
        },
    }
}

/// The address of the subscription to a database at a URL.
pub open spec fn address(url: Seq<char>, database: Seq<char>) -> AddressModel {
    match url_text(url) {
        None => AddressModel::NotAUrl,
        Some(t) => match url_scheme(t) {
            None => AddressModel::NotAUrl,
            Some(scheme) => if socket_scheme(scheme) is None {
                AddressModel::UnsupportedScheme(scheme)
            } else if !is_socket(scheme) && !has_room(t, socket_scheme(scheme)->Some_0.len()) {
                AddressModel::TooLong
            } else {
                match as_socket(t, scheme) {
                    None => AddressModel::NotAUrl,
                    Some(socket) => placed_address(socket, database),
                }
            },
        },
    }
}

/// What the result of a search for an address says.
pub open spec fn address_model(r: Result<String, AddressError>) -> AddressModel {
    match r {
        Ok(a) => AddressModel::Address(a@),
        Err(AddressError::NotAUrl) => AddressModel::NotAUrl,
        Err(AddressError::UnsupportedScheme(s)) => AddressModel::UnsupportedScheme(s@),
        Err(AddressError::TooLong) => AddressModel::TooLong,
    }
}

/// Tests whether a text is no URL or one that can take more characters.
fn takes_more(s: &str, more: usize) -> (r: bool)
    ensures
        r == has_room(s@, more as nat),
{
    match parse_url(s) {
        Some(t) => url_fits(chars_of(t.as_str()).len(), more),
        None => true,
    }
}

/// The scheme of subscriptions for a scheme.
pub fn scheme_to_subscribe(scheme: &str) -> (r: Option<&'static str>)
    ensures
        match r {
            Some(s) => socket_scheme(scheme@) == Some(s@),
            None => socket_scheme(scheme@) is None,
        },
        r matches Some(s) ==> s@.len() <= 3,
{
    proof {
        reveal_strlit("ws");
        reveal_strlit("wss");
    }
    if same_text(scheme, "ws") || same_text(scheme, "http") {
        Some("ws")
    } else if same_text(scheme, "wss") || same_text(scheme, "https") {
        Some("wss")
    } else {
        None
    }
}

/// The path of the subscription to a database behind a path.
pub fn path_to_subscribe(path: &str, database: &str) -> (r: String)
    ensures
        r@ == subscribe_path(path@, database@),
{
    let behind = chars_of(path);
    let mut full = text_of(trimmed_end_of(behind.as_slice(), '/'));
    push_chars(&mut full, chars_of("/v1/database/").as_slice());
    push_chars(&mut full, chars_of(database).as_slice());
    push_chars(&mut full, chars_of("/subscribe").as_slice());
    full
}

/// The address of the subscription to a database at a mirror.
pub fn subscribe_address(url: &str, database: &str) -> (r: Result<String, AddressError>)
    ensures
        address_model(r) == address(url@, database@),
{
    let start: String = match parse_url(url) {
        Some(t) => t,
        None => {
            return Err(AddressError::NotAUrl);
        },
    };
    let scheme: String = match scheme_of(start.as_str()) {
        Some(s) => s,
        None => {
            return Err(AddressError::NotAUrl);
        },
    };
    let wanted: &str = match scheme_to_subscribe(scheme.as_str()) {
        Some(w) => w,
        None => {
            return Err(AddressError::UnsupportedScheme(scheme));
        },
    };
    let socket: Option<String> = if same_text(scheme.as_str(), "ws") || same_text(scheme.as_str(), "wss") {
        Some(start)
    } else if !takes_more(start.as_str(), chars_of(wanted).len()) {
        return Err(AddressError::TooLong);
    } else {
        with_scheme(start.as_str(), wanted)
    };
    let socket: String = match socket {
        Some(s) => s,
        None => {
            return Err(AddressError::NotAUrl);
        },
    };
    let path: String = match path_of(socket.as_str()) {
        Some(p) => p,
        None => {
            return Err(AddressError::NotAUrl);
        },
    };
    let full = path_to_subscribe(path.as_str(), database);
    if !takes_more(socket.as_str(), chars_of(full.as_str()).len()) {
        return Err(AddressError::TooLong);
    }
    let placed: String = match with_path(socket.as_str(), full.as_str()) {
        Some(p) => p,
        None => {
            return Err(AddressError::NotAUrl);
        },
    };
    if !takes_more(placed.as_str(), 15) {
        return Err(AddressError::TooLong);
    }
    proof {
        reveal_strlit("compression");
        reveal_strlit("None");
    }
    match with_pair(placed.as_str(), "compression", "None") {
        Some(a) => Ok(a),
        None => Err(AddressError::NotAUrl),
    }
}

/// How far a subscription to tables has come.
#[derive(Debug, Clone, Copy, PartialEq, Eq, Structural)]
pub enum ListenPhase {
    /// The mirror has not greeted.
    Greeting,
    /// The table at this position was asked for.
    Asking(usize),
    Listening,
    Over,
}

/// A subscription to tables, one after the other, and then some time of
/// listening.
#[derive(Debug, Clone, Copy, PartialEq, Eq, Structural)]
pub struct Listen {
    pub phase: ListenPhase,
    pub tables: usize,
    /// Rows that came as rows of tables.
    pub persistent: u64,
    /// Rows that came as events.
    pub event: u64,
}

/// What comes from a mirror.
#[derive(Debug, Clone, Copy, PartialEq, Eq, Structural)]
pub enum ListenEvent {
    Greeted,
    /// The subscription with this number is in place, with so many rows.
    Applied { id: u32, rows: u64 },
    Refused,
    /// Rows changed.
    Changed { persistent: u64, event: u64 },
    /// Something that says nothing here.
    Other,
    /// The time to listen is over.
    TimeUp,
    Closed,
}

/// What to do.
#[derive(Debug, Clone, Copy, PartialEq, Eq, Structural)]
pub enum ListenAction {
    Wait,
    /// Ask for the table at this position, under this number.
    Ask { table: usize, id: u32 },
    /// Tell that a table was subscribed to, then ask for the next, if any.
    Subscribed { table: usize, rows: u64, next: Option<usize> },
    /// Show the rows that changed.
    Show,
    /// Tell what came in all.
    Summary { persistent: u64, event: u64 },
    Fail,
}

/// The number of the subscription to a table.
pub open spec fn subscription_id(table: int) -> int {
    table + 1
}

/// What an event does to a subscription, and what to do.
pub open spec fn heard(l: Listen, e: ListenEvent) -> (Listen, ListenAction) {
    match (l.phase, e) {
        (ListenPhase::Over, _) => (l, ListenAction::Wait),
        (_, ListenEvent::Closed) => (Listen { phase: ListenPhase::Over, ..l }, ListenAction::Fail),
        (ListenPhase::Greeting, ListenEvent::Greeted) => if l.tables == 0 {
            (Listen { phase: ListenPhase::Listening, ..l }, ListenAction::Wait)
        } else {
            (Listen { phase: ListenPhase::Asking(0), ..l }, ListenAction::Ask { table: 0, id: 1 })
        },
        (ListenPhase::Greeting, _) => (l, ListenAction::Wait),
        (ListenPhase::Asking(t), ListenEvent::Applied { id, rows }) => if id != subscription_id(t as int) {
            (l, ListenAction::Wait)
        } else if t + 1 < l.tables {
            (
                Listen { phase: ListenPhase::Asking((t + 1) as usize), ..l },
                ListenAction::Subscribed { table: t, rows, next: Some((t + 1) as usize) },
            )
        } else {
            (
                Listen { phase: ListenPhase::Listening, ..l },
                ListenAction::Subscribed { table: t, rows, next: None },
            )
        },
        (ListenPhase::Asking(_), ListenEvent::Refused) => (Listen { phase: ListenPhase::Over, ..l }, ListenAction::Fail),
        (ListenPhase::Listening, ListenEvent::TimeUp) => (
            Listen { phase: ListenPhase::Over, ..l },
            ListenAction::Summary { persistent: l.persistent, event: l.event },
        ),
        (_, ListenEvent::Changed { persistent, event }) => (
            Listen { persistent: (l.persistent + persistent) as u64, event: (l.event + event) as u64, ..l },
            ListenAction::Show,
        ),
        _ => (l, ListenAction::Wait),
    }
}

impl Listen {
    /// The table that was asked for is one of the tables.
    pub open spec fn wf(&self) -> bool {
        &&& self.tables < u32::MAX
        &&& self.phase matches ListenPhase::Asking(t) ==> t < self.tables
    }

    /// Before the mirror greets.
    pub fn new(tables: usize) -> (r: Self)
        requires
            tables < u32::MAX,
        ensures
            r.wf(),
            r == (Listen { phase: ListenPhase::Greeting, tables, persistent: 0, event: 0 }),
    {
        Listen { phase: ListenPhase::Greeting, tables, persistent: 0, event: 0 }
    }

    /// Takes what came and tells what to do.
    pub fn step(&mut self, event: ListenEvent) -> (r: ListenAction)
        requires
            old(self).wf(),
            event matches ListenEvent::Changed { persistent, event } ==> old(self).persistent + persistent <= u64::MAX
                && old(self).event + event <= u64::MAX,
        ensures
            final(self).wf(),
            (*final(self), r) == heard(*old(self), event),
    {
        match self.phase {
            ListenPhase::Over => ListenAction::Wait,
            ListenPhase::Greeting => match event {
                ListenEvent::Closed => {
                    self.phase = ListenPhase::Over;
                    ListenAction::Fail
                },
                ListenEvent::Greeted => if self.tables == 0 {
                    self.phase = ListenPhase::Listening;
                    ListenAction::Wait
                } else {
                    self.phase = ListenPhase::Asking(0);
                    ListenAction::Ask { table: 0, id: 1 }
                },
                _ => ListenAction::Wait,
            },
            ListenPhase::Asking(t) => match event {
                ListenEvent::Closed => {
                    self.phase = ListenPhase::Over;
                    ListenAction::Fail
                },
                ListenEvent::Applied { id, rows } => if id as u64 != t as u64 + 1 {
                    ListenAction::Wait
                } else if t + 1 < self.tables {
                    self.phase = ListenPhase::Asking(t + 1);
                    ListenAction::Subscribed { table: t, rows, next: Some(t + 1) }
                } else {
                    self.phase = ListenPhase::Listening;
                    ListenAction::Subscribed { table: t, rows, next: None }
                },
                ListenEvent::Refused => {
                    self.phase = ListenPhase::Over;
                    ListenAction::Fail
                },
                ListenEvent::Changed { persistent, event } => {
                    self.persistent = self.persistent + persistent;
                    self.event = self.event + event;
                    ListenAction::Show
                },
                _ => ListenAction::Wait,
            },
            ListenPhase::Listening => match event {
                ListenEvent::Closed => {
                    self.phase = ListenPhase::Over;
                    ListenAction::Fail
                },
                ListenEvent::TimeUp => {
                    self.phase = ListenPhase::Over;
                    ListenAction::Summary { persistent: self.persistent, event: self.event }
                },
                ListenEvent::Changed { persistent, event } => {
                    self.persistent = self.persistent + persistent;
                    self.event = self.event + event;
                    ListenAction::Show
                },
                _ => ListenAction::Wait,
            },
        }
    }
}

/// A mirror that greets and answers every question in turn is listened to once
/// all tables were asked for, each once and in order.
pub proof fn law_tables_are_asked_in_turn(l: Listen, t: usize, rows: u64)
    requires
        l.wf(),
        l.phase == ListenPhase::Asking(t),
    ensures
        ({
            let (after, action) = heard(l, ListenEvent::Applied { id: (t + 1) as u32, rows });
            &&& t + 1 < l.tables ==> after.phase == ListenPhase::Asking((t + 1) as usize)
            &&& t + 1 == l.tables ==> after.phase is Listening
            &&& action == (ListenAction::Subscribed {
                table: t,
                rows,
                next: if t + 1 < l.tables {
                    Some((t + 1) as usize)
                } else {
                    None
                },
            })
        }),
{
}

/// How far one question has come.
#[derive(Debug, Clone, Copy, PartialEq, Eq, Structural)]
pub enum OneOff {
    /// The mirror has not greeted.
    Greeting,
    /// The question was asked.
    Asked,
    Over,
}

/// What comes from a mirror that is asked one question.
#[derive(Debug, Clone, Copy, PartialEq, Eq, Structural)]
pub enum OneOffEvent {
    Greeted,
    Rows,
    Refused,
    Other,
    Closed,
}

/// What to do about one question.
#[derive(Debug, Clone, Copy, PartialEq, Eq, Structural)]
pub enum OneOffAction {
    Wait,
    Ask,
    Show,
    Fail,
}

/// What an event does to one question, and what to do.
pub open spec fn answered(q: OneOff, e: OneOffEvent) -> (OneOff, OneOffAction) {
    match (q, e) {
        (OneOff::Over, _) => (q, OneOffAction::Wait),
        (_, OneOffEvent::Closed) => (OneOff::Over, OneOffAction::Fail),
        (OneOff::Greeting, OneOffEvent::Greeted) => (OneOff::Asked, OneOffAction::Ask),
        (OneOff::Asked, OneOffEvent::Rows) => (OneOff::Over, OneOffAction::Show),
        (OneOff::Asked, OneOffEvent::Refused) => (OneOff::Over, OneOffAction::Fail),
        _ => (q, OneOffAction::Wait),
    }
}

impl OneOff {
    /// Takes what came and tells what to do.
    pub fn step(&mut self, event: OneOffEvent) -> (r: OneOffAction)
        ensures
            (*final(self), r) == answered(*old(self), event),
    {
        match (*self, event) {
            (OneOff::Over, _) => OneOffAction::Wait,
            (_, OneOffEvent::Closed) => {
                *self = OneOff::Over;
                OneOffAction::Fail
            },
            (OneOff::Greeting, OneOffEvent::Greeted) => {
                *self = OneOff::Asked;
                OneOffAction::Ask
            },
            (OneOff::Asked, OneOffEvent::Rows) => {
                *self = OneOff::Over;
                OneOffAction::Show
            },
            (OneOff::Asked, OneOffEvent::Refused) => {
                *self = OneOff::Over;
                OneOffAction::Fail
            },
            _ => OneOffAction::Wait,
        }
    }
}

/// Rows that change are counted until the time is over, and then told, each kind
/// by itself.
pub proof fn law_what_came_is_told_in_the_end(l: Listen, persistent: u64, event: u64)
    requires
        l.phase is Listening,
        l.persistent + persistent <= u64::MAX,
        l.event + event <= u64::MAX,
    ensures
        ({
            let (more, shown) = heard(l, ListenEvent::Changed { persistent, event });
            let (over, told) = heard(more, ListenEvent::TimeUp);
            &&& shown is Show
            &&& more.phase is Listening
            &&& told == (ListenAction::Summary {
                persistent: (l.persistent + persistent) as u64,
                event: (l.event + event) as u64,
            })
            &&& over.phase is Over
        }),
{
}

/// A subscription that was closed or refused has failed, and nothing is asked or
/// told of it any more.
pub proof fn law_a_subscription_that_is_over_stays_over(l: Listen, e: ListenEvent)
    ensures
        l.phase is Over ==> heard(l, e) == (l, ListenAction::Wait),
        !(l.phase is Over) ==> heard(l, ListenEvent::Closed).0.phase is Over && heard(l, ListenEvent::Closed).1 is Fail,
        l.phase is Asking ==> heard(l, ListenEvent::Refused).0.phase is Over && heard(l, ListenEvent::Refused).1
            is Fail,
        heard(l, e).1 is Fail ==> heard(l, e).0.phase is Over,
{
}

/// No table is asked for before the mirror greets, and the first is once it does.
pub proof fn law_nothing_is_asked_before_the_greeting(l: Listen, e: ListenEvent)
    requires
        l.phase is Greeting,
    ensures
        heard(l, e).1 is Ask <==> e is Greeted && l.tables > 0,
        e is Greeted && l.tables > 0 ==> heard(l, e).1 == (ListenAction::Ask { table: 0, id: 1 }) && heard(l, e).0.phase
            == ListenPhase::Asking(0),
        !(e is Greeted) && !(e is Closed) ==> heard(l, e).0 == l,
{
}

/// One question is asked once, when the mirror greets; its rows are shown only
/// after it was asked, and it is over then.
pub proof fn law_one_question_is_asked_once(q: OneOff, e: OneOffEvent)
    ensures
        answered(q, e).1 is Ask <==> q is Greeting && e is Greeted,
        answered(q, e).1 is Show <==> q is Asked && e is Rows,
        answered(q, e).1 is Fail <==> !(q is Over) && e is Closed || q is Asked && e is Refused,
        answered(q, e).1 is Ask ==> answered(q, e).0 is Asked,
        answered(q, e).1 is Show || answered(q, e).1 is Fail ==> answered(q, e).0 is Over,
        answered(q, e).1 is Wait ==> answered(q, e).0 == q,
{
}

/// A mirror is subscribed to over web sockets, with encryption just where its URL
/// has it, and over nothing else.
pub proof fn law_encryption_is_kept(scheme: Seq<char>)
    ensures
        socket_scheme("http"@) == Some("ws"@),
        socket_scheme("ws"@) == Some("ws"@),
        socket_scheme("https"@) == Some("wss"@),
        socket_scheme("wss"@) == Some("wss"@),
        socket_scheme(scheme) is Some <==> scheme == "http"@ || scheme == "ws"@ || scheme == "https"@ || scheme
            == "wss"@,
{
    reveal_strlit("http");
    reveal_strlit("https");
    reveal_strlit("ws");
    reveal_strlit("wss");
    assert("http"@.len() == 4 && "https"@.len() == 5 && "ws"@.len() == 2 && "wss"@.len() == 3);
}

/// The subscription to a database is behind the path of its mirror, whether or
/// not a slash ends that path.
pub proof fn law_a_last_slash_does_not_count(path: Seq<char>, database: Seq<char>)
    ensures
        subscribe_path(path.push('/'), database) == subscribe_path(path, database),
        path.len() > 0 && path.last() != '/' ==> subscribe_path(path, database) == path + "/v1/database/"@ + database
            + "/subscribe"@,
{
    assert(path.push('/').drop_last() =~= path);
}

} // verus!
