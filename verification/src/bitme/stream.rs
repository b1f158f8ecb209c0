//! The stream of resource changes around a player, as decisions: what happened
//! leads to what to do.

use vstd::prelude::*;

use crate::bitme::window::RESOURCE_WINDOW_WIDTH;
use crate::roads::store::RoadsRegionGrid;
use crate::text::{chars_of, decimal, push_chars, push_decimal};

verus! {

/// Seconds between signs of life.
pub const RESOURCE_WS_HEARTBEAT_SECS: u64 = 5;

/// Seconds between looks at where the player stands.
pub const RESOURCE_WS_ANCHOR_TICK_SECS: u64 = 1;

/// Looks in a row that may miss the player before the stream ends.
pub const RESOURCE_WS_GONE_AFTER: u32 = 60;

/// A stream between two events.
#[derive(Debug, Clone, Copy, PartialEq, Eq, Structural)]
pub struct ResourceStream {
    /// The region that is listened to.
    pub region: u32,
    /// Looks in a row that missed the player.
    pub gone_streak: u32,
    pub over: bool,
}

/// What happens to a stream.
#[derive(Debug, Clone, Copy, PartialEq, Eq, Structural)]
pub enum StreamEvent {
    /// The hub has something to send.
    Frame,
    /// The hub sends nothing any more, or dropped the listener.
    Dropped,
    /// A look found the player; `has_maps` tells whether maps of the region
    /// are kept.
    Seen { region: u32, x: i32, z: i32, has_maps: bool },
    /// A look missed the player.
    Missed,
    /// Time for a sign of life.
    Heartbeat,
    /// The other side left, or something could not be sent.
    Left,
    Ping,
    /// Something else came, which is ignored.
    Other,
}

/// What to do.
#[derive(Debug, Clone, Copy, PartialEq, Eq, Structural)]
pub enum StreamAction {
    Nothing,
    /// Send what the hub has.
    Forward,
    /// Move the window.
    Follow { x: i32, z: i32 },
    /// Tell of the new region and listen there.
    Move { region: u32, x: i32, z: i32 },
    /// Keep the session open and send the time.
    Beat,
    Pong,
    /// Tell that the player is gone, and close.
    Gone,
    Close,
}

/// What an event does to a stream, and what to do.
pub open spec fn next(s: ResourceStream, e: StreamEvent) -> (ResourceStream, StreamAction) {
    if s.over {
        (s, StreamAction::Close)
    } else {
        match e {
            StreamEvent::Frame => (s, StreamAction::Forward),
            StreamEvent::Dropped => (ResourceStream { over: true, ..s }, StreamAction::Close),
            StreamEvent::Seen { region, x, z, has_maps } => if region == s.region {
                (ResourceStream { gone_streak: 0, ..s }, StreamAction::Follow { x, z })
            } else if has_maps {
                (ResourceStream { gone_streak: 0, region, ..s }, StreamAction::Move { region, x, z })
            } else {
                (ResourceStream { gone_streak: 0, over: true, ..s }, StreamAction::Close)
            },
            StreamEvent::Missed => if s.gone_streak + 1 >= RESOURCE_WS_GONE_AFTER {
                (ResourceStream { over: true, gone_streak: RESOURCE_WS_GONE_AFTER, ..s }, StreamAction::Gone)
            } else {
                (ResourceStream { gone_streak: (s.gone_streak + 1) as u32, ..s }, StreamAction::Nothing)
            },
            StreamEvent::Heartbeat => (s, StreamAction::Beat),
            StreamEvent::Left => (ResourceStream { over: true, ..s }, StreamAction::Close),
            StreamEvent::Ping => (s, StreamAction::Pong),
            StreamEvent::Other => (s, StreamAction::Nothing),
        }
    }
}

impl ResourceStream {
    /// A stream that starts.
    pub fn new(region: u32) -> (r: Self)
        ensures
            r == (ResourceStream { region, gone_streak: 0, over: false }),
    {
        ResourceStream { region, gone_streak: 0, over: false }
    }

    /// Takes an event and tells what to do.
    pub fn step(&mut self, event: StreamEvent) -> (r: StreamAction)
        ensures
            (*final(self), r) == next(*old(self), event),
    {
        if self.over {
            return StreamAction::Close;
        }
        match event {
            StreamEvent::Frame => StreamAction::Forward,
            StreamEvent::Dropped => {
                self.over = true;
                StreamAction::Close
            },
            StreamEvent::Seen { region, x, z, has_maps } => {
                self.gone_streak = 0;
                if region == self.region {
                    StreamAction::Follow { x, z }
                } else if has_maps {
                    self.region = region;
                    StreamAction::Move { region, x, z }
                } else {
                    self.over = true;
                    StreamAction::Close
                }
            },
            StreamEvent::Missed => {
                if self.gone_streak >= RESOURCE_WS_GONE_AFTER - 1 {
                    self.gone_streak = RESOURCE_WS_GONE_AFTER;
                    self.over = true;
                    StreamAction::Gone
                } else {
                    self.gone_streak = self.gone_streak + 1;
                    StreamAction::Nothing
                }
            },
            StreamEvent::Heartbeat => StreamAction::Beat,
            StreamEvent::Left => {
                self.over = true;
                StreamAction::Close
            },
            StreamEvent::Ping => StreamAction::Pong,
            StreamEvent::Other => StreamAction::Nothing,
        }
    }
}

/// A stream after `n` looks in a row that missed the player.
pub open spec fn after_misses(s: ResourceStream, n: nat) -> ResourceStream
    decreases n,
{
    if n == 0 {
        s
    } else {
        next(after_misses(s, (n - 1) as nat), StreamEvent::Missed).0
    }
}

/// Looks that miss the player end a stream after a while, not before: from a
/// look that found them in the region, 59 in a row are nothing and the next
/// one is the end.
pub proof fn law_stream_outlives_short_gaps(s: ResourceStream, n: nat)
    requires
        !s.over,
        s.gone_streak == 0,
    ensures
        n < RESOURCE_WS_GONE_AFTER ==> !after_misses(s, n).over && after_misses(s, n).region == s.region,
        n + 1 < RESOURCE_WS_GONE_AFTER ==> next(after_misses(s, n), StreamEvent::Missed).1 is Nothing,
        n + 1 == RESOURCE_WS_GONE_AFTER ==> next(after_misses(s, n), StreamEvent::Missed).1 is Gone,
{
    lemma_misses_count(s, n);
}

proof fn lemma_misses_count(s: ResourceStream, n: nat)
    requires
        !s.over,
        s.gone_streak == 0,
    ensures
        n < RESOURCE_WS_GONE_AFTER ==> after_misses(s, n) == (ResourceStream { gone_streak: n as u32, ..s }),
    decreases n,
{
    if n > 0 {
        lemma_misses_count(s, (n - 1) as nat);
    }
}

/// A stream that is over stays so and does nothing more.
pub proof fn law_stream_end_is_final(s: ResourceStream, e: StreamEvent)
    requires
        s.over,
    ensures
        next(s, e) == (s, StreamAction::Close),
{
}

/// The first message of a stream.
#[derive(Debug, Clone, Copy, PartialEq, Eq)]
pub struct SubscribedAck {
    pub player_entity_id: u64,
    pub region: u32,
    pub anchor: (i32, i32),
    pub width: usize,
    pub dict_version: u32,
}

/// The first message of a stream. Maps that are still being filled have no
/// dictionary yet.
pub fn subscribed_ack(grid: &RoadsRegionGrid, player: u64, region: u32, anchor: (i32, i32)) -> (r: SubscribedAck)
    requires
        grid.wf(),
    ensures
        r == (SubscribedAck {
            player_entity_id: player,
            region,
            anchor,
            width: RESOURCE_WINDOW_WIDTH,
            dict_version: if grid@.ready {
                grid@.resources.version()
            } else {
                0
            },
        }),
{
    let dict_version: u32 = if grid.ready {
        grid.resource_map.dict_version()
    } else {
        0
    };
    SubscribedAck { player_entity_id: player, region, anchor, width: RESOURCE_WINDOW_WIDTH, dict_version }
}

/// The sign of life at a time in Unix milliseconds.
pub fn heartbeat_text(unix_ms: u64) -> (r: String)
    ensures
        r@ == "{\"ts\":"@ + decimal(unix_ms as nat) + "}"@,
{
    let mut text = String::new();
    push_chars(&mut text, chars_of("{\"ts\":").as_slice());
    push_decimal(&mut text, unix_ms);
    push_chars(&mut text, chars_of("}").as_slice());
    assert(text@ =~= "{\"ts\":"@ + decimal(unix_ms as nat) + "}"@);
    text
}

/// A look that finds the player in the region moves the window there; one that
/// finds them in another region moves the stream, or ends it where that region
/// has no maps. Either way the looks that missed are forgotten.
pub proof fn law_streams_follow_the_player(s: ResourceStream, region: u32, x: i32, z: i32, has_maps: bool)
    requires
        !s.over,
    ensures
        ({
            let (after, action) = next(s, StreamEvent::Seen { region, x, z, has_maps });
            &&& after.gone_streak == 0
            &&& region == s.region ==> action == (StreamAction::Follow { x, z }) && after.region == region && !after.over
            &&& region != s.region && has_maps ==> action == (StreamAction::Move { region, x, z }) && after.region
                == region && !after.over
            &&& region != s.region && !has_maps ==> action is Close && after.over
        }),
{
}

/// What the hub has is passed on, a sign of life is given when it is time, and a
/// ping is answered; none of them changes the stream.
pub proof fn law_streams_answer(s: ResourceStream)
    requires
        !s.over,
    ensures
        next(s, StreamEvent::Frame) == (s, StreamAction::Forward),
        next(s, StreamEvent::Heartbeat) == (s, StreamAction::Beat),
        next(s, StreamEvent::Ping) == (s, StreamAction::Pong),
        next(s, StreamEvent::Other) == (s, StreamAction::Nothing),
        next(s, StreamEvent::Left).0.over && next(s, StreamEvent::Left).1 is Close,
        next(s, StreamEvent::Dropped).0.over && next(s, StreamEvent::Dropped).1 is Close,
{
}

} // verus!
