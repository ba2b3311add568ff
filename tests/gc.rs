use chrono::Utc;
use std::time::Duration;

use darwin_bridge::gc::{cleanup_old_trips, cleanup_old_trips_at};
use darwin_bridge::persistence::restore_state;
use darwin_bridge::state::{AppState, FeedEntity, StopTimeEvent, StopTimeUpdate, TripDescriptor, TripUpdate};

fn entity_with_departure(id: &str, time: i64) -> FeedEntity {
    FeedEntity {
        id: id.to_string(),
        trip_update: Some(TripUpdate {
            trip: TripDescriptor { trip_id: Some(id.to_string()), start_date: None },
            vehicle: None,
            stop_time_update: vec![StopTimeUpdate {
                stop_sequence: None,
                stop_id: None,
                arrival: None,
                departure: Some(StopTimeEvent { time: Some(time) }),
            }],
        }),
        vehicle: None,
    }
}

fn map_rid(state: &mut AppState, rid: &str, trip: &str) {
    state.rid_to_trip_id.insert(rid.to_string(), trip.to_string());
}

#[test]
fn test_cleanup_old_trips() {
    let mut state = AppState::new("http://localhost".to_string());
    let now = Utc::now().timestamp();
    restore_state(
        &mut state,
        vec![entity_with_departure("trip_active", now), entity_with_departure("trip_old", now - 7200)],
        vec![],
    );
    map_rid(&mut state, "rid_active", "trip_active");
    map_rid(&mut state, "rid_old", "trip_old");

    cleanup_old_trips(&mut state, Duration::from_secs(3600));

    assert!(state.trip_updates.contains_key("trip_active"), "Active trip should remain");
    assert!(!state.trip_updates.contains_key("trip_old"), "Old trip should be removed");
    assert!(state.rid_to_trip_id.contains_key("rid_active"), "Active RID should remain");
    assert!(!state.rid_to_trip_id.contains_key("rid_old"), "Old RID should be removed");
}

#[test]
fn gc_at_fixed_time_removes_only_stale() {
    let now: i64 = 1_716_111_000;
    let mut state = AppState::new("u".to_string());
    restore_state(
        &mut state,
        vec![entity_with_departure("fresh", now), entity_with_departure("stale", now - 7200)],
        vec![],
    );
    map_rid(&mut state, "r1", "stale");
    map_rid(&mut state, "r2", "stale");
    map_rid(&mut state, "r3", "fresh");
    cleanup_old_trips_at(&mut state, 3600, now);
    assert!(state.trip_entity("fresh").is_some());
    assert!(state.trip_entity("stale").is_none());
    assert!(state.trip_for_rid("r1").is_none());
    assert!(state.trip_for_rid("r2").is_none());
    assert_eq!(state.trip_for_rid("r3").as_deref(), Some("fresh"));
}

#[test]
fn gc_keeps_trip_exactly_at_threshold_and_without_times() {
    let now: i64 = 10_000;
    let mut state = AppState::new("u".to_string());
    let mut timeless = entity_with_departure("timeless", 0);
    timeless.trip_update.as_mut().unwrap().stop_time_update[0].departure = None;
    restore_state(&mut state, vec![entity_with_departure("edge", now - 3600), timeless], vec![]);
    cleanup_old_trips_at(&mut state, 3600, now);
    assert!(state.trip_entity("edge").is_some());
    assert!(state.trip_entity("timeless").is_some());
    cleanup_old_trips_at(&mut state, 3599, now);
    assert!(state.trip_entity("edge").is_none());
}
