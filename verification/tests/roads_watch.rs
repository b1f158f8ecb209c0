use std::collections::BTreeMap;
use std::sync::mpsc::{sync_channel, Receiver, SyncSender, TrySendError};

use bitcraft_mirror::roads::coords::REGION_SIDE;
use bitcraft_mirror::roads::resource_map::ResourceTileMap;
use bitcraft_mirror::roads::watch::{collapse, ResourceWatchHub, SendOutcome, WatchFrame, LISTENER_QUEUE};

fn idx(x: i32, z: i32) -> u32 {
    (z as u32) * (REGION_SIDE as u32) + x as u32
}

/// A hub with one bounded queue for each listener.
struct Board {
    hub: ResourceWatchHub,
    queues: BTreeMap<u64, SyncSender<WatchFrame>>,
    poisoned: Vec<u64>,
}

impl Board {
    fn new() -> Board {
        Board { hub: ResourceWatchHub::new(), queues: BTreeMap::new(), poisoned: Vec::new() }
    }

    fn register(&mut self, map: &mut ResourceTileMap, player: u64, anchor: (i32, i32)) -> (u64, Receiver<WatchFrame>) {
        let id = self.hub.register(map, 1, player, anchor);
        let (tx, rx) = sync_channel(LISTENER_QUEUE);
        self.queues.insert(id, tx);
        (id, rx)
    }

    fn deliver(&mut self, frames: Vec<(u64, WatchFrame)>) {
        for (id, frame) in frames {
            let outcome = match self.queues[&id].try_send(frame) {
                Ok(()) => SendOutcome::Sent,
                Err(TrySendError::Full(_)) => SendOutcome::Full,
                Err(TrySendError::Disconnected(_)) => SendOutcome::Closed,
            };
            if self.hub.settle(1, id, outcome) {
                self.poisoned.push(id);
            }
            if outcome != SendOutcome::Sent {
                self.queues.remove(&id);
            }
        }
    }

    fn fanout(&mut self, changes: &[(u32, u16)], dict_version: u32) {
        let frames = self.hub.fanout(1, changes, dict_version);
        self.deliver(frames);
    }
}

#[test]
fn fanout_filters_by_window_and_sets_flag() {
    let mut board = Board::new();
    let mut map = ResourceTileMap::new(1); // origin (0, 0): world == local
    assert!(!map.watch_enabled());
    let (l1, rx1) = board.register(&mut map, 42, (1000, 1000));
    let (l2, rx2) = board.register(&mut map, 43, (5000, 5000));
    assert!(map.watch_enabled());

    // Tile (900, 950) is within 200 of (1000, 1000) but far from
    // (5000, 5000); tile (4800, 5000) the reverse; (6000, 6000) in
    // neither.
    board.fanout(&[(idx(900, 950), 7), (idx(4800, 5000), 9), (idx(6000, 6000), 11)], 5);
    let WatchFrame::Delta { region, dict_version, tiles } = rx1.try_recv().unwrap() else {
        panic!("listener 1 must receive a delta");
    };
    assert_eq!((region, dict_version), (1, 5));
    assert_eq!(tiles, vec![(900, 950, 7)]);
    let WatchFrame::Delta { tiles, .. } = rx2.try_recv().unwrap() else {
        panic!("listener 2 must receive a delta");
    };
    assert_eq!(tiles, vec![(4800, 5000, 9)]);
    assert!(rx1.try_recv().is_err());
    assert!(rx2.try_recv().is_err());

    // Window edges: anchor +- 199 is the last in-window tile, anchor + 200
    // the first outside one.
    board.hub.update_anchor(1, l1, 1000, 1000);
    board.fanout(&[(idx(1200, 801), 1), (idx(1199, 801), 2), (idx(800, 1199), 3)], 5);
    let WatchFrame::Delta { tiles, .. } = rx1.try_recv().unwrap() else {
        panic!("edge delta expected");
    };
    assert_eq!(tiles, vec![(1199, 801, 2), (800, 1199, 3)]);

    // Dropping both leases clears the recording flag.
    board.hub.unregister(&mut map, 1, l1);
    assert!(board.hub.listener_count(1) == 1);
    board.hub.unregister(&mut map, 1, l2);
    assert_eq!(board.hub.listener_count(1), 0);
    assert!(!map.watch_enabled());
}

#[test]
fn fanout_dedups_to_last_write() {
    let mut board = Board::new();
    let mut map = ResourceTileMap::new(1);
    let (_l, rx) = board.register(&mut map, 42, (100, 100));
    board.fanout(&[(idx(50, 50), 1), (idx(50, 50), 2), (idx(60, 60), 3)], 0);
    let WatchFrame::Delta { tiles, .. } = rx.try_recv().unwrap() else {
        panic!("delta expected");
    };
    assert_eq!(tiles, vec![(50, 50, 2), (60, 60, 3)]);
}

#[test]
fn full_queue_poisons_and_drops_listener() {
    let mut board = Board::new();
    let mut map = ResourceTileMap::new(1);
    let (l, rx) = board.register(&mut map, 42, (100, 100));
    // Fill the queue without draining.
    for i in 0..LISTENER_QUEUE {
        board.fanout(&[(idx(100, 100), i as u16)], 0);
    }
    assert_eq!(board.hub.listener_count(1), 1);
    // The next fan-out overflows: listener is removed and poisoned.
    board.fanout(&[(idx(100, 100), 999)], 0);
    assert_eq!(board.hub.listener_count(1), 0);
    assert!(board.poisoned.contains(&l));
    // Queued frames remain readable (ordered), then the channel closes.
    for i in 0..LISTENER_QUEUE {
        let WatchFrame::Delta { tiles, .. } = rx.try_recv().unwrap() else {
            panic!("queued frame {i}");
        };
        assert_eq!(tiles, vec![(100, 100, i as u16)]);
    }
    assert!(rx.try_recv().is_err());
}

#[test]
fn closed_receiver_drops_listener_without_poison() {
    let mut board = Board::new();
    let mut map = ResourceTileMap::new(1);
    let (l, rx) = board.register(&mut map, 42, (100, 100));
    drop(rx);
    board.fanout(&[(idx(100, 100), 1)], 0);
    assert_eq!(board.hub.listener_count(1), 0);
    assert!(!board.poisoned.contains(&l));
}

#[test]
fn grid_replacement_resyncs_and_reapplies_flag() {
    let mut board = Board::new();
    let mut map = ResourceTileMap::new(1);
    let (_l, rx) = board.register(&mut map, 42, (100, 100));
    let frames = board.hub.on_grid_replaced(&mut map, 1, "reseed");
    board.deliver(frames);
    let WatchFrame::Resync { region, reason } = rx.try_recv().unwrap() else {
        panic!("resync expected");
    };
    assert_eq!((region, reason), (1, "reseed"));

    // A replaced grid object defaults to recording off; listeners
    // present -> on_grid_replaced re-enables it.
    let mut fresh = ResourceTileMap::new(1);
    assert!(!fresh.watch_enabled());
    let frames = board.hub.on_grid_replaced(&mut fresh, 1, "live");
    assert!(fresh.watch_enabled());
    board.deliver(frames);
    let WatchFrame::Resync { reason, .. } = rx.try_recv().unwrap() else {
        panic!("second resync expected");
    };
    assert_eq!(reason, "live");
}

#[test]
fn collapsing_keeps_one_write_for_each_tile() {
    assert_eq!(collapse(&[]), vec![]);
    let mut got = collapse(&[(7, 1), (3, 9), (7, 2), (7, 4)]);
    got.sort_unstable();
    assert_eq!(got, vec![(3, 9), (7, 4)]);
}

#[test]
fn a_listener_that_is_gone_hears_nothing() {
    let mut board = Board::new();
    let mut map = ResourceTileMap::new(1);
    let (l, _rx) = board.register(&mut map, 42, (100, 100));
    assert!(board.hub.has_listeners(1));
    assert!(!board.hub.has_listeners(2));
    board.hub.unregister(&mut map, 1, l);
    assert!(board.hub.fanout(1, &[(idx(100, 100), 1)], 0).is_empty());
}
