use bitcraft_mirror::interest::{dim_key, unpack_dim_key, InterestHub, Topic, TouchBatch};

#[test]
fn notify_wakes_subscriber() {
    let mut hub = InterestHub::new();
    hub.subscribe(Topic::PlayerInventory, 42);
    hub.add_receiver(Topic::PlayerInventory, 42);
    assert_eq!(hub.active_leases(), 1);
    assert!(hub.has_subscribers());
    assert!(hub.is_watched(Topic::PlayerInventory, 42));

    hub.notify(Topic::PlayerInventory, 42);
    assert_eq!(hub.generation(Topic::PlayerInventory, 42), Some(1));
    assert_eq!(hub.lifetime_notifies(), 1);

    // Drop both the lease and the cloned receiver so the key has zero
    // receivers and gets removed from the map; a stale notify must then
    // be a no-op (lifetime_notifies unchanged).
    hub.unsubscribe(Topic::PlayerInventory, 42);
    hub.drop_receiver(Topic::PlayerInventory, 42);
    assert_eq!(hub.active_leases(), 0);
    assert!(!hub.has_subscribers());
    hub.notify(Topic::PlayerInventory, 42);
    assert_eq!(hub.lifetime_notifies(), 1);
}

#[test]
fn dimension_buildings_touch_only_when_watched() {
    // The dim-buildings touch must short-circuit when nobody is subscribed
    // to that exact (region, dimension) pair, and fire a notify otherwise.
    let mut hub = InterestHub::new();
    let key = dim_key(14, 12345);
    hub.subscribe(Topic::DimensionBuildings, key);
    let mut batch = TouchBatch::new();
    batch.dimension_buildings(&hub, 14, 12345); // watched -> collected
    batch.dimension_buildings(&hub, 14, 99999); // not watched -> dropped
    batch.dimension_buildings(&hub, 14, 0); // dimension 0 -> invalid, dropped
    batch.flush(&mut hub);
    // One notify for the subscribed key only.
    assert_eq!(hub.lifetime_notifies(), 1);
}

#[test]
fn touch_batch_skips_unwatched_and_dedups() {
    let mut hub = InterestHub::new();
    hub.subscribe(Topic::ClaimInventory, 7);
    let mut batch = TouchBatch::new();
    batch.claim_inv(&hub, 7);
    batch.claim_inv(&hub, 7);
    batch.claim_inv(&hub, 9); // no subscriber -> not collected
    batch.flush(&mut hub);
    assert_eq!(hub.lifetime_notifies(), 1);
}

#[test]
fn member_roster_notify_via_index() {
    let mut hub = InterestHub::new();
    hub.note_member(10, 100);
    hub.note_member(10, 200);
    hub.subscribe(Topic::ClaimMembers, 100);
    hub.subscribe(Topic::ClaimMembers, 200);
    let mut batch = TouchBatch::new();
    batch.member_player(10);
    batch.flush(&mut hub);
    assert_eq!(hub.lifetime_notifies(), 2);
}

#[test]
fn connection_guard_respects_cap() {
    let mut hub = InterestHub::new();
    assert!(hub.try_acquire_connection(1));
    assert!(!hub.try_acquire_connection(1));
    assert_eq!(hub.active_connections(), 1);
    hub.release_connection();
    assert_eq!(hub.active_connections(), 0);
    assert!(hub.try_acquire_connection(1));
}

#[test]
fn dimension_keys_hold_region_and_dimension() {
    assert_eq!(dim_key(14, 12345), (14u64 << 32) | 12345);
    assert_eq!(unpack_dim_key(dim_key(14, 12345)), (14, 12345));
    assert_eq!(unpack_dim_key(dim_key(u32::MAX, u32::MAX)), (u32::MAX, u32::MAX));
}

#[test]
fn a_notification_reaches_its_topic_alone() {
    let mut hub = InterestHub::new();
    hub.subscribe(Topic::PlayerCrafts, 5);
    hub.subscribe(Topic::ClaimCrafts, 5);
    hub.notify(Topic::ClaimCrafts, 5);
    assert_eq!(hub.generation(Topic::PlayerCrafts, 5), Some(0));
    assert_eq!(hub.generation(Topic::ClaimCrafts, 5), Some(1));
    assert_eq!(hub.generation(Topic::ClaimCrafts, 6), None);
}

#[test]
fn members_that_left_are_not_notified() {
    let mut hub = InterestHub::new();
    hub.note_member(10, 100);
    hub.note_member(10, 200);
    hub.forget_member(10, 200);
    hub.subscribe(Topic::ClaimMembers, 100);
    hub.subscribe(Topic::ClaimMembers, 200);
    hub.notify_member_rosters(10);
    assert_eq!(hub.generation(Topic::ClaimMembers, 100), Some(1));
    assert_eq!(hub.generation(Topic::ClaimMembers, 200), Some(0));

    hub.replace_region_members(&[(10, 100)], &[(10, 200), (11, 100)]);
    hub.notify_member_rosters(10);
    assert_eq!(hub.generation(Topic::ClaimMembers, 100), Some(1));
    assert_eq!(hub.generation(Topic::ClaimMembers, 200), Some(1));
    hub.notify_member_rosters(11);
    assert_eq!(hub.generation(Topic::ClaimMembers, 100), Some(2));
}

#[test]
fn an_empty_batch_says_so() {
    let mut hub = InterestHub::new();
    hub.subscribe(Topic::PlayerHousing, 3);
    let mut batch = TouchBatch::new();
    batch.player_inv(&hub, 3);
    batch.player_housing(&hub, 0);
    batch.player_crafts(&hub, 3);
    batch.claim_crafts(&hub, 3);
    batch.claim_members(&hub, 3);
    assert!(batch.is_empty());
    batch.player_housing(&hub, 3);
    assert!(!batch.is_empty());
    batch.flush(&mut hub);
    assert_eq!(hub.generation(Topic::PlayerHousing, 3), Some(1));
    hub.record_push();
    assert_eq!(hub.lifetime_pushes(), 1);
}
