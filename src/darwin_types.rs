//! The Push Port document model: an envelope with an optional update record
//! and an optional (ignored) schedule record.

use vstd::prelude::*;

verus! {

#[derive(Clone, Debug)]
pub struct Pport {
    pub update_record: Option<UpdateRecord>,
    pub schedule_record: Option<ScheduleRecord>,
}

/// One update record; each variant is a list, processed in a fixed order.
#[derive(Clone, Debug)]
pub struct UpdateRecord {
    pub update_origin: Option<String>,
    pub train_status: Vec<TrainStatus>,
    pub train_order: Vec<TrainOrder>,
    pub station_message: Vec<StationMessage>,
    pub loading: Vec<Loading>,
    /// Loading records that arrived under the historical alias tag.
    pub loading_alias: Vec<Loading>,
    pub association: Vec<Association>,
    pub formation: Vec<Formation>,
    pub train_alert: Vec<TrainAlert>,
    pub tracking_id: Vec<TrackingId>,
    pub rtti_alarm: Vec<RTTIAlarm>,
}

#[derive(Clone, Debug)]
pub struct Formation {
    pub rid: String,
    pub coaches: Vec<Coach>,
}

#[derive(Clone, Debug)]
pub struct Coach {
    pub number: String,
    pub class: Option<String>,
}

#[derive(Clone, Debug)]
pub struct ScheduleRecord {
    pub schedule: Option<Vec<Schedule>>,
}

#[derive(Clone, Debug)]
pub struct Schedule {
    pub rid: String,
    pub uid: String,
    pub ssd: String,
}

#[derive(Clone, Debug)]
pub struct TrainStatus {
    pub rid: String,
    pub uid: String,
    /// Schedule start date, `YYYY-MM-DD`.
    pub ssd: String,
    pub is_active: Option<bool>,
    pub late_reason: Option<LateReason>,
    pub locations: Vec<Location>,
}

#[derive(Clone, Debug)]
pub struct LateReason {
    pub value: Option<String>,
}

#[derive(Clone, Debug)]
pub struct Location {
    pub tiploc: Option<String>,
    pub wta: Option<String>,
    pub wtp: Option<String>,
    pub wtd: Option<String>,
    pub ptd: Option<String>,
    pub platform: Option<Platform>,
    pub suppr: Option<bool>,
    pub arr: Option<Forecast>,
    pub dep: Option<Forecast>,
    pub pass: Option<Forecast>,
    pub length: Option<String>,
}

#[derive(Clone, Debug)]
pub struct Platform {
    pub number: Option<String>,
    pub cis_suppressed: Option<bool>,
    /// Suppressed from public view.
    pub platsup: Option<bool>,
    pub conf: Option<bool>,
    pub platsrc: Option<String>,
    pub cis_platsup_elem: Option<bool>,
}

/// An estimated (`et`) and an actual (`at`) time, each `HH:MM`.
#[derive(Clone, Debug)]
pub struct Forecast {
    pub et: Option<String>,
    pub at: Option<String>,
}

#[derive(Clone, Debug)]
pub struct TrainOrder {
    pub tiploc: String,
    pub crs: String,
    pub platform: Option<String>,
    pub set: Option<TrainOrderSet>,
    pub clear: Option<TrainOrderClear>,
}

#[derive(Clone, Debug)]
pub struct TrainOrderSet {
    pub first: Option<TrainOrderItem>,
    pub second: Option<TrainOrderItem>,
    pub third: Option<TrainOrderItem>,
}

#[derive(Clone, Debug)]
pub struct TrainOrderClear {}

#[derive(Clone, Debug)]
pub struct TrainOrderItem {
    pub rid: Option<TrainOrderRid>,
    pub train_id: Option<String>,
}

#[derive(Clone, Debug)]
pub struct TrainOrderRid {
    pub value: String,
    pub wta: Option<String>,
    pub wtd: Option<String>,
    pub pta: Option<String>,
    pub ptd: Option<String>,
}

#[derive(Clone, Debug)]
pub struct StationMessage {
    pub id: String,
    pub category: String,
    pub message: String,
    pub stations: Option<Vec<StationMessageStation>>,
}

#[derive(Clone, Debug)]
pub struct StationMessageStation {
    pub crs: String,
}

#[derive(Clone, Debug)]
pub struct Loading {
    pub rid: String,
}

#[derive(Clone, Debug)]
pub struct Association {
    pub tiploc: String,
    pub category: String,
    pub main: AssociationService,
    pub assoc: AssociationService,
}

#[derive(Clone, Debug)]
pub struct AssociationService {
    pub rid: String,
    pub pta: Option<String>,
    pub ptd: Option<String>,
    pub wta: Option<String>,
    pub wtd: Option<String>,
}

#[derive(Clone, Debug)]
pub struct TrainAlert {
    pub id: String,
    pub withdrawn: Option<String>,
    pub service: Option<Vec<AlertService>>,
}

#[derive(Clone, Debug)]
pub struct AlertService {
    pub rid: String,
    pub location: Option<Vec<String>>,
}

#[derive(Clone, Debug)]
pub struct TrackingId {
    pub id: String,
    pub correct: bool,
}

#[derive(Clone, Debug)]
pub struct RTTIAlarm {
    pub id: String,
    pub set: Option<RTTIAlarmSet>,
    pub clear: Option<String>,
}

#[derive(Clone, Debug)]
pub struct RTTIAlarmSet {
    pub td_area_fail: Option<bool>,
    pub tyrell: Option<bool>,
}

} // verus!
