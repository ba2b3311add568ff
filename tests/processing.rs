use chrono::{Datelike, NaiveDate};
use darwin_bridge::darwin_types::{
    Coach, Forecast, Formation, Location, Platform, Pport, StationMessage, TrainOrder, TrainOrderItem,
    TrainOrderRid, TrainOrderSet, TrainStatus, UpdateRecord,
};
use darwin_bridge::merge::sort_stop_times;
use darwin_bridge::persistence::{restore_state, snapshot_entities, snapshot_platforms};
use darwin_bridge::processor::{
    build_stop_time_update, formation_label, has_time_data, parse_time, process_formation,
    process_pmap, process_pmap_on, process_station_message, update_trip, update_trip_from_order,
    update_trip_on,
};
use darwin_bridge::state::{AppState, FeedEntity, StopTimeEvent, StopTimeUpdate, TripDescriptor, TripUpdate};
use darwin_bridge::static_data::{
    build_indices, CalendarDateRecord, CalendarRecord, Date, Exception, StopRecord, StopTimeRecord,
    TripRecord,
};

fn day(y: i32, m: u32, d: u32) -> Date {
    Date { day: NaiveDate::from_ymd_opt(y, m, d).unwrap().num_days_from_ce() }
}

fn utc(y: i32, m: u32, d: u32, h: u32, min: u32) -> i64 {
    NaiveDate::from_ymd_opt(y, m, d).unwrap().and_hms_opt(h, min, 0).unwrap().and_utc().timestamp()
}

fn stop(id: &str, code: &str) -> StopRecord {
    StopRecord { id: id.to_string(), code: Some(code.to_string()) }
}

fn stop_time(stop_id: &str, seq: u32, dep: Option<u32>) -> StopTimeRecord {
    StopTimeRecord { stop_id: stop_id.to_string(), stop_sequence: seq, departure_time: dep }
}

fn daily(start: Date, end: Date) -> CalendarRecord {
    CalendarRecord {
        monday: true,
        tuesday: true,
        wednesday: true,
        thursday: true,
        friday: true,
        saturday: true,
        sunday: true,
        start_date: start,
        end_date: end,
    }
}

fn forecast_et(t: &str) -> Option<Forecast> {
    Some(Forecast { et: Some(t.to_string()), at: None })
}

fn location(tpl: &str, plat: Option<(&str, bool)>, arr_et: Option<&str>) -> Location {
    Location {
        tiploc: Some(tpl.to_string()),
        wta: None,
        wtp: None,
        wtd: None,
        ptd: None,
        platform: plat.map(|(n, sup)| Platform {
            number: Some(n.to_string()),
            cis_suppressed: None,
            platsup: Some(sup),
            conf: None,
            platsrc: None,
            cis_platsup_elem: None,
        }),
        suppr: None,
        arr: arr_et.and_then(forecast_et),
        dep: None,
        pass: None,
        length: None,
    }
}

fn status(rid: &str, uid: &str, ssd: &str, locations: Vec<Location>) -> TrainStatus {
    TrainStatus {
        rid: rid.to_string(),
        uid: uid.to_string(),
        ssd: ssd.to_string(),
        is_active: None,
        late_reason: None,
        locations,
    }
}

/// One trip `L00001_1` calling at KNGX (sequence 10), running daily in 2024.
fn kings_cross_state() -> AppState {
    let mut state = AppState::new("http://localhost".to_string());
    let data = build_indices(
        vec![stop("KNGX_STOP", "KNGX"), stop("X_STOP", "X")],
        vec![TripRecord {
            id: "L00001_1".to_string(),
            service_id: "S1".to_string(),
            stop_times: vec![stop_time("KNGX_STOP", 10, Some(9 * 3600))],
        }],
        vec![("S1".to_string(), daily(day(2024, 1, 1), day(2024, 12, 31)))],
        vec![],
    );
    state.gtfs.replace_data(data);
    state
}

/// One trip `U1_1` visiting stop X twice, at sequences 3 and 7.
fn loop_state() -> AppState {
    let mut state = AppState::new("http://localhost".to_string());
    let data = build_indices(
        vec![stop("X_STOP", "X"), stop("Y_STOP", "Y")],
        vec![TripRecord {
            id: "U1_1".to_string(),
            service_id: "S1".to_string(),
            stop_times: vec![
                stop_time("X_STOP", 3, Some(36000)),
                stop_time("Y_STOP", 5, Some(37000)),
                stop_time("X_STOP", 7, Some(38000)),
            ],
        }],
        vec![("S1".to_string(), daily(day(2024, 1, 1), day(2024, 12, 31)))],
        vec![],
    );
    state.gtfs.replace_data(data);
    state
}

fn arrival_time(u: &StopTimeUpdate) -> Option<i64> {
    u.arrival.and_then(|e| e.time)
}

#[test]
fn basic_merge() {
    let mut state = kings_cross_state();
    let ts = status("R1", "L00001", "2024-05-19", vec![location("KNGX", Some(("2", false)), Some("09:30"))]);
    update_trip(&ts, &mut state);
    let e = state.trip_entity("L00001_1").expect("entity");
    assert_eq!(e.id, "L00001_1");
    let tu = e.trip_update.expect("trip update");
    assert_eq!(tu.trip.trip_id.as_deref(), Some("L00001_1"));
    assert_eq!(tu.trip.start_date.as_deref(), Some("20240519"));
    assert_eq!(tu.stop_time_update.len(), 1);
    let u = &tu.stop_time_update[0];
    assert_eq!(u.stop_id.as_deref(), Some("KNGX_STOP"));
    assert_eq!(u.stop_sequence, Some(10));
    assert_eq!(arrival_time(u), Some(utc(2024, 5, 19, 9, 30)));
    assert_eq!(arrival_time(u), Some(1716111000));
    let plats = state.platforms_for("L00001_1").expect("platforms");
    assert_eq!(plats.len(), 1);
    assert_eq!(plats[0].stop_id, "KNGX_STOP");
    assert_eq!(plats[0].sequence, 10);
    assert_eq!(plats[0].platform, "2");
    assert_eq!(state.trip_for_rid("R1").as_deref(), Some("L00001_1"));
}

#[test]
fn suppressed_platform_not_written() {
    let mut state = kings_cross_state();
    let ts = status("R1", "L00001", "2024-05-19", vec![location("KNGX", Some(("2", true)), Some("09:30"))]);
    update_trip(&ts, &mut state);
    let tu = state.trip_entity("L00001_1").unwrap().trip_update.unwrap();
    assert_eq!(tu.stop_time_update.len(), 1);
    assert!(state.platforms_for("L00001_1").is_none());
}

#[test]
fn location_suppr_flag_hides_platform() {
    let mut state = kings_cross_state();
    let mut loc = location("KNGX", Some(("2", false)), Some("09:30"));
    loc.suppr = Some(true);
    update_trip(&status("R1", "L00001", "2024-05-19", vec![loc]), &mut state);
    assert!(state.platforms_for("L00001_1").is_none());
}

#[test]
fn suppression_flip_keeps_published_platform() {
    let mut state = kings_cross_state();
    let first = status("R1", "L00001", "2024-05-19", vec![location("KNGX", Some(("2", false)), Some("09:30"))]);
    update_trip(&first, &mut state);
    let later = status("R1", "L00001", "2024-05-19", vec![location("KNGX", Some(("5", true)), Some("09:31"))]);
    update_trip(&later, &mut state);
    let plats = state.platforms_for("L00001_1").unwrap();
    assert_eq!(plats.len(), 1);
    assert_eq!(plats[0].platform, "2");
}

#[test]
fn later_platform_replaces_same_visit() {
    let mut state = kings_cross_state();
    update_trip(&status("R1", "L00001", "2024-05-19", vec![location("KNGX", Some(("2", false)), None)]), &mut state);
    update_trip(&status("R1", "L00001", "2024-05-19", vec![location("KNGX", Some(("7", false)), None)]), &mut state);
    let plats = state.platforms_for("L00001_1").unwrap();
    assert_eq!(plats.len(), 1);
    assert_eq!(plats[0].platform, "7");
    // a location without time data adds no stop-time update
    let tu = state.trip_entity("L00001_1").unwrap().trip_update.unwrap();
    assert!(tu.stop_time_update.is_empty());
}

#[test]
fn loop_route_visits() {
    let mut state = loop_state();
    let ts = status(
        "R9",
        "U1",
        "2024-05-19",
        vec![location("X", None, Some("10:00")), location("X", None, Some("10:40"))],
    );
    update_trip(&ts, &mut state);
    let tu = state.trip_entity("U1_1").unwrap().trip_update.unwrap();
    assert_eq!(tu.stop_time_update.len(), 2);
    assert_eq!(tu.stop_time_update[0].stop_sequence, Some(3));
    assert_eq!(arrival_time(&tu.stop_time_update[0]), Some(utc(2024, 5, 19, 10, 0)));
    assert_eq!(tu.stop_time_update[1].stop_sequence, Some(7));
    assert_eq!(arrival_time(&tu.stop_time_update[1]), Some(utc(2024, 5, 19, 10, 40)));
}

#[test]
fn unmatched_stop_falls_back_to_stop_id() {
    let mut state = loop_state();
    // Y is matched at sequence 5; a second Y has no later visit and merges by stop id
    let ts = status(
        "R9",
        "U1",
        "2024-05-19",
        vec![location("Y", None, Some("10:20")), location("Y", None, Some("10:25"))],
    );
    update_trip(&ts, &mut state);
    let tu = state.trip_entity("U1_1").unwrap().trip_update.unwrap();
    assert_eq!(tu.stop_time_update.len(), 1);
    assert_eq!(tu.stop_time_update[0].stop_sequence, None);
    assert_eq!(arrival_time(&tu.stop_time_update[0]), Some(utc(2024, 5, 19, 10, 25)));
}

#[test]
fn idempotent_train_status() {
    let mut once = loop_state();
    let ts = status(
        "R9",
        "U1",
        "2024-05-19",
        vec![location("X", Some(("1", false)), Some("10:00")), location("X", Some(("2", false)), Some("10:40"))],
    );
    update_trip(&ts, &mut once);
    let mut twice = loop_state();
    update_trip(&ts, &mut twice);
    update_trip(&ts, &mut twice);
    let a = once.trip_entity("U1_1").unwrap().trip_update.unwrap();
    let b = twice.trip_entity("U1_1").unwrap().trip_update.unwrap();
    assert_eq!(format!("{:?}", a), format!("{:?}", b));
    let pa = once.platforms_for("U1_1").unwrap();
    let pb = twice.platforms_for("U1_1").unwrap();
    assert_eq!(format!("{:?}", pa), format!("{:?}", pb));
    assert_eq!(pa.len(), 2);
    assert_eq!((pa[0].sequence, pa[0].platform.as_str()), (3, "1"));
    assert_eq!((pa[1].sequence, pa[1].platform.as_str()), (7, "2"));
}

#[test]
fn unknown_uid_records_nothing() {
    let mut state = kings_cross_state();
    update_trip(&status("R2", "NOPE", "2024-05-19", vec![location("KNGX", None, Some("09:30"))]), &mut state);
    assert!(state.trip_for_rid("R2").is_none());
    assert!(state.trip_entity("NOPE").is_none());
}

#[test]
fn service_outside_calendar_does_not_resolve() {
    let mut state = kings_cross_state();
    update_trip(&status("R1", "L00001", "2025-05-19", vec![location("KNGX", None, Some("09:30"))]), &mut state);
    assert!(state.trip_for_rid("R1").is_none());
}

fn order_item(rid: &str, train_id: Option<&str>) -> Option<TrainOrderItem> {
    Some(TrainOrderItem {
        rid: Some(TrainOrderRid { value: rid.to_string(), wta: None, wtd: None, pta: None, ptd: None }),
        train_id: train_id.map(|s| s.to_string()),
    })
}

fn order_state() -> AppState {
    let mut state = AppState::new("http://localhost".to_string());
    let data = build_indices(
        vec![stop("EUS_STOP", "EUS")],
        vec![
            TripRecord { id: "T1".to_string(), service_id: "S".to_string(), stop_times: vec![] },
            TripRecord { id: "T2".to_string(), service_id: "S".to_string(), stop_times: vec![] },
        ],
        vec![("S".to_string(), daily(day(2024, 1, 1), day(2024, 12, 31)))],
        vec![],
    );
    state.gtfs.replace_data(data);
    // map R1 -> T1 and R2 -> T2 through TrainStatus records
    update_trip(&status("R1", "T1", "2024-05-19", vec![]), &mut state);
    update_trip(&status("R2", "T2", "2024-05-19", vec![]), &mut state);
    state
}

#[test]
fn train_order_builds_consist() {
    let mut state = order_state();
    assert_eq!(state.trip_for_rid("R1").as_deref(), Some("T1"));
    assert_eq!(state.trip_for_rid("R2").as_deref(), Some("T2"));
    let to = TrainOrder {
        tiploc: "EUS".to_string(),
        crs: "EUS".to_string(),
        platform: Some("4".to_string()),
        set: Some(TrainOrderSet { first: order_item("R1", Some("1A01")), second: order_item("R2", None), third: None }),
        clear: None,
    };
    update_trip_from_order(&to, &mut state);
    let v1 = state.trip_entity("T1_VP").unwrap();
    assert!(v1.trip_update.is_none());
    let vp1 = v1.vehicle.unwrap();
    assert_eq!(vp1.stop_id.as_deref(), Some("EUS_STOP"));
    assert_eq!(vp1.trip.unwrap().trip_id.as_deref(), Some("T1"));
    assert_eq!(vp1.multi_carriage_details.len(), 1);
    assert_eq!(vp1.multi_carriage_details[0].carriage_sequence, Some(1));
    assert_eq!(vp1.multi_carriage_details[0].id.as_deref(), Some("R1"));
    assert_eq!(vp1.multi_carriage_details[0].label.as_deref(), Some("1A01"));
    let vp2 = state.trip_entity("T2_VP").unwrap().vehicle.unwrap();
    assert_eq!(vp2.multi_carriage_details.len(), 1);
    assert_eq!(vp2.multi_carriage_details[0].carriage_sequence, Some(2));
    assert!(state.platforms_for("T1").is_none());
    assert!(state.platforms_for("T2").is_none());
}

#[test]
fn train_order_unknown_rid_is_skipped() {
    let mut state = order_state();
    let to = TrainOrder {
        tiploc: "EUS".to_string(),
        crs: "EUS".to_string(),
        platform: None,
        set: Some(TrainOrderSet { first: order_item("ZZ", None), second: None, third: None }),
        clear: None,
    };
    update_trip_from_order(&to, &mut state);
    assert!(state.trip_entity("ZZ_VP").is_none());
}

#[test]
fn formation_labels_vehicle() {
    let mut state = order_state();
    let f = Formation {
        rid: "R1".to_string(),
        coaches: ["A", "B", "C"].iter().map(|n| Coach { number: n.to_string(), class: None }).collect(),
    };
    process_formation(&f, &mut state);
    let tu = state.trip_entity("T1").unwrap().trip_update.unwrap();
    assert_eq!(tu.vehicle.unwrap().label.as_deref(), Some("A-B-C"));
    let vp = state.trip_entity("T1_VP").unwrap().vehicle.unwrap();
    assert_eq!(vp.vehicle.unwrap().label.as_deref(), Some("A-B-C"));
}

#[test]
fn formation_label_joins_numbers() {
    let coaches: Vec<Coach> = ["1", "22"].iter().map(|n| Coach { number: n.to_string(), class: None }).collect();
    assert_eq!(formation_label(&coaches), "1-22");
    assert_eq!(formation_label(&vec![]), "");
}

#[test]
fn station_message_last_writer_wins() {
    let mut state = AppState::new("http://localhost".to_string());
    let mut msg = StationMessage { id: "7".to_string(), category: "Train".to_string(), message: "Delays".to_string(), stations: None };
    process_station_message(&msg, &mut state);
    assert_eq!(state.station_message("7").as_deref(), Some("Train: Delays"));
    msg.message = "Cleared".to_string();
    process_station_message(&msg, &mut state);
    assert_eq!(state.station_message("7").as_deref(), Some("Train: Cleared"));
}

#[test]
fn parse_time_prefers_actual() {
    let f = Forecast { et: Some("09:30".to_string()), at: Some("09:34".to_string()) };
    assert_eq!(parse_time(&f, "2024-05-19"), Some(StopTimeEvent { time: Some(utc(2024, 5, 19, 9, 34)) }));
}

#[test]
fn parse_time_rejects_bad_input() {
    let bad = |t: &str| Forecast { et: Some(t.to_string()), at: None };
    assert_eq!(parse_time(&bad("24:00"), "2024-05-19"), None);
    assert_eq!(parse_time(&bad("09:60"), "2024-05-19"), None);
    assert_eq!(parse_time(&bad("0930"), "2024-05-19"), None);
    assert_eq!(parse_time(&bad("09:30:00"), "2024-05-19"), None);
    assert_eq!(parse_time(&bad("x9:30"), "2024-05-19"), None);
    assert_eq!(parse_time(&bad("09:30"), "19/05/2024"), None);
    assert_eq!(parse_time(&Forecast { et: None, at: None }, "2024-05-19"), None);
    assert_eq!(parse_time(&bad("00:00"), "1970-01-01"), Some(StopTimeEvent { time: Some(0) }));
}

#[test]
fn stop_time_update_from_location() {
    let mut loc = location("KNGX", None, Some("09:30"));
    loc.dep = Some(Forecast { et: None, at: Some("09:32".to_string()) });
    assert!(has_time_data(&loc));
    let u = build_stop_time_update(&loc, "KNGX_STOP", "2024-05-19", Some(4));
    assert_eq!(u.stop_sequence, Some(4));
    assert_eq!(u.stop_id.as_deref(), Some("KNGX_STOP"));
    assert_eq!(u.arrival, Some(StopTimeEvent { time: Some(utc(2024, 5, 19, 9, 30)) }));
    assert_eq!(u.departure, Some(StopTimeEvent { time: Some(utc(2024, 5, 19, 9, 32)) }));
    let mut passing = location("KNGX", None, None);
    passing.pass = forecast_et("09:31");
    assert!(has_time_data(&passing));
    let p = build_stop_time_update(&passing, "KNGX_STOP", "2024-05-19", None);
    assert_eq!(p.arrival, None);
    assert_eq!(p.departure, None);
    assert!(!has_time_data(&location("KNGX", None, None)));
}

#[test]
fn sort_is_stable_by_sequence() {
    let mk = |seq: Option<u32>, id: &str| StopTimeUpdate { stop_sequence: seq, stop_id: Some(id.to_string()), arrival: None, departure: None };
    let sorted = sort_stop_times(vec![mk(Some(5), "a"), mk(None, "b"), mk(Some(2), "c"), mk(None, "d")]);
    let ids: Vec<&str> = sorted.iter().map(|u| u.stop_id.as_deref().unwrap()).collect();
    assert_eq!(ids, vec!["b", "d", "c", "a"]);
}

#[test]
fn process_pmap_applies_variants_in_order() {
    let mut state = order_state();
    let record = UpdateRecord {
        update_origin: None,
        train_status: vec![status("R3", "T1", "2024-05-19", vec![])],
        train_order: vec![],
        station_message: vec![StationMessage { id: "1".to_string(), category: "Misc".to_string(), message: "Hi".to_string(), stations: None }],
        loading: vec![],
        loading_alias: vec![],
        association: vec![],
        formation: vec![Formation { rid: "R3".to_string(), coaches: vec![Coach { number: "9".to_string(), class: None }] }],
        train_alert: vec![],
        tracking_id: vec![],
        rtti_alarm: vec![],
    };
    let pport = Pport { update_record: Some(record), schedule_record: None };
    process_pmap_on(&pport, day(2024, 5, 19), &mut state);
    assert_eq!(state.trip_for_rid("R3").as_deref(), Some("T1"));
    assert_eq!(state.station_message("1").as_deref(), Some("Misc: Hi"));
    let vp = state.trip_entity("T1_VP").unwrap().vehicle.unwrap();
    assert_eq!(vp.vehicle.unwrap().label.as_deref(), Some("9"));
    let empty = Pport { update_record: None, schedule_record: None };
    process_pmap(empty, &mut state);
    assert_eq!(state.station_message("1").as_deref(), Some("Misc: Hi"));
}

#[test]
fn update_trip_on_uses_given_day() {
    let mut state = kings_cross_state();
    update_trip_on(&status("R1", "L00001", "not a date", vec![location("KNGX", None, None)]), day(2024, 5, 19), &mut state);
    assert_eq!(state.trip_for_rid("R1").as_deref(), Some("L00001_1"));
}

#[test]
fn snapshot_round_trip() {
    let mut state = loop_state();
    let ts = status(
        "R9",
        "U1",
        "2024-05-19",
        vec![location("X", Some(("1", false)), Some("10:00")), location("X", Some(("2", false)), Some("10:40"))],
    );
    update_trip(&ts, &mut state);
    let entities = snapshot_entities(&state);
    let platforms = snapshot_platforms(&state);
    assert_eq!(entities.len(), 1);
    assert_eq!(platforms.len(), 1);
    let mut restored = AppState::new("http://localhost".to_string());
    restore_state(&mut restored, entities, platforms);
    assert_eq!(
        format!("{:?}", state.trip_entity("U1_1")),
        format!("{:?}", restored.trip_entity("U1_1"))
    );
    assert_eq!(
        format!("{:?}", state.platforms_for("U1_1")),
        format!("{:?}", restored.platforms_for("U1_1"))
    );
}

#[test]
fn restore_skips_malformed_entity() {
    let mk = |seq: u32| StopTimeUpdate { stop_sequence: Some(seq), stop_id: None, arrival: None, departure: None };
    let bad = FeedEntity {
        id: "B".to_string(),
        trip_update: Some(TripUpdate {
            trip: TripDescriptor { trip_id: None, start_date: None },
            vehicle: None,
            stop_time_update: vec![mk(5), mk(2)],
        }),
        vehicle: None,
    };
    let mut state = AppState::new("http://localhost".to_string());
    restore_state(&mut state, vec![bad], vec![]);
    assert!(state.trip_entity("B").is_none());
}

#[test]
fn calendar_exceptions_decide_first() {
    let trips = vec![
        TripRecord { id: "U_1".to_string(), service_id: "A".to_string(), stop_times: vec![] },
        TripRecord { id: "U_2".to_string(), service_id: "B".to_string(), stop_times: vec![] },
    ];
    let d = day(2024, 5, 19);
    let data = build_indices(
        vec![],
        trips,
        vec![("A".to_string(), daily(day(2024, 1, 1), day(2024, 12, 31)))],
        vec![
            ("A".to_string(), vec![CalendarDateRecord { date: d, exception_type: Exception::Deleted }]),
            ("B".to_string(), vec![CalendarDateRecord { date: d, exception_type: Exception::Added }]),
        ],
    );
    let mut state = AppState::new("u".to_string());
    state.gtfs.replace_data(data);
    assert_eq!(state.gtfs.find_trip_id("U", d).as_deref(), Some("U_2"));
    assert_eq!(state.gtfs.find_trip_id("U", day(2024, 5, 20)).as_deref(), Some("U_1"));
}

#[test]
fn weekday_mask_is_respected() {
    let mut weekdays_only = daily(day(2024, 1, 1), day(2024, 12, 31));
    weekdays_only.saturday = false;
    weekdays_only.sunday = false;
    let data = build_indices(
        vec![],
        vec![TripRecord { id: "W_1".to_string(), service_id: "W".to_string(), stop_times: vec![] }],
        vec![("W".to_string(), weekdays_only)],
        vec![],
    );
    let mut state = AppState::new("u".to_string());
    state.gtfs.replace_data(data);
    assert_eq!(state.gtfs.find_trip_id("W", day(2024, 5, 19)), None); // a Sunday
    assert_eq!(state.gtfs.find_trip_id("W", day(2024, 5, 20)).as_deref(), Some("W_1")); // a Monday
}

#[test]
fn index_lookups() {
    let data = build_indices(
        vec![stop("STOP_A", "AAA"), StopRecord { id: "STOP_B".to_string(), code: None }],
        vec![TripRecord {
            id: "UID9_x_y".to_string(),
            service_id: "S".to_string(),
            stop_times: vec![stop_time("STOP_A", 1, Some(500)), stop_time("STOP_B", 2, Some(300)), stop_time("STOP_A", 3, None)],
        }],
        vec![],
        vec![],
    );
    let mut state = AppState::new("u".to_string());
    assert!(!state.gtfs.has_data());
    state.gtfs.replace_data(data);
    assert!(state.gtfs.has_data());
    assert_eq!(state.gtfs.get_stop_id("AAA").as_deref(), Some("STOP_A"));
    assert_eq!(state.gtfs.get_stop_id("STOP_A").as_deref(), Some("STOP_A"));
    assert_eq!(state.gtfs.get_stop_id("ZZZ"), None);
    assert_eq!(state.gtfs.unwrap_stop_id("ZZZ"), "ZZZ");
    assert_eq!(state.gtfs.get_trip_start_time("UID9_x_y"), Some(300));
    assert_eq!(state.gtfs.get_trip_start_time("nope"), None);
    let stops = state.gtfs.get_trip_stops("UID9_x_y").unwrap();
    assert_eq!(stops, vec![("STOP_A".to_string(), 1), ("STOP_B".to_string(), 2), ("STOP_A".to_string(), 3)]);
    assert_eq!(state.gtfs.data.uid_index.len(), 1);
    assert_eq!(state.gtfs.data.uid_index[0].0, "UID9");
}

#[test]
fn start_date_follows_first_departure_past_midnight() {
    let mut state = AppState::new("u".to_string());
    let data = build_indices(
        vec![stop("A_STOP", "A")],
        vec![TripRecord {
            id: "N1_1".to_string(),
            service_id: "S".to_string(),
            stop_times: vec![stop_time("A_STOP", 1, Some(25 * 3600))],
        }],
        vec![("S".to_string(), daily(day(2024, 1, 1), day(2024, 12, 31)))],
        vec![],
    );
    state.gtfs.replace_data(data);
    update_trip(&status("R", "N1", "2024-05-19", vec![]), &mut state);
    let tu = state.trip_entity("N1_1").unwrap().trip_update.unwrap();
    assert_eq!(tu.trip.start_date.as_deref(), Some("20240520"));
}
