use reservation::conflict::{
    KeyValues, ParsedInfo, ReservationConflict, ReservationConflictInfo, ResrvationWindow,
    format_conflict_detail,
};
use reservation::datetime::DateTimeUtc;

const ERR_MES: &str = "Key (resource_id, timespan)=(ocean-view-room-713, [\"2023-12-26 22:00:00+00\",\"2023-12-30 19:00:00+00\")) conflicts with existing key (resource_id, timespan)=(ocean-view-room-713, [\"2023-12-25 22:00:00+00\",\"2023-12-28 19:00:00+00\")).";

fn dt(year: u32, month: u32, day: u32, hour: u32, minute: u32, second: u32) -> DateTimeUtc {
    DateTimeUtc { year, month, day, hour, minute, second }
}

#[test]
fn parsed_info_should_work() {
    let info: ParsedInfo = ERR_MES.parse().unwrap();
    assert_eq!(info.new.get("resource_id").unwrap(), "ocean-view-room-713");
    assert_eq!(
        info.new.get("timespan").unwrap(),
        "\"2023-12-26 22:00:00+00\",\"2023-12-30 19:00:00+00\""
    );
    assert_eq!(info.old.get("resource_id").unwrap(), "ocean-view-room-713");
    assert_eq!(
        info.old.get("timespan").unwrap(),
        "\"2023-12-25 22:00:00+00\",\"2023-12-28 19:00:00+00\""
    );
}

#[test]
fn hash_map_to_reserve_window_should_work() {
    let mut map = KeyValues::new();
    map.insert("resource_id".to_string(), "ocean-view-room-713".to_string());
    map.insert(
        "timespan".to_string(),
        "\"2023-12-26 22:00:00+00\",\"2023-12-30 19:00:00+00\"".to_string(),
    );
    let window = ResrvationWindow::try_from_map(&map).unwrap();
    assert_eq!(window.rid, "ocean-view-room-713");
    assert_eq!(window.start.to_text(), "2023-12-26 22:00:00 UTC");
    assert_eq!(window.end.to_text(), "2023-12-30 19:00:00 UTC");
}

#[test]
fn conflict_error_message_should_parse() {
    let s = ERR_MES;
    let info: ReservationConflictInfo = s.parse().unwrap();
    match info {
        ReservationConflictInfo::Parsed(info) => {
            assert_eq!(info.new.rid, "ocean-view-room-713");
            assert_eq!(info.new.start.to_text(), "2023-12-26 22:00:00 UTC");
            assert_eq!(info.new.end.to_text(), "2023-12-30 19:00:00 UTC");
            assert_eq!(info.old.rid, "ocean-view-room-713");
            assert_eq!(info.old.start.to_text(), "2023-12-25 22:00:00 UTC");
            assert_eq!(info.old.end.to_text(), "2023-12-28 19:00:00 UTC");
        }
        ReservationConflictInfo::Unparsed(_) => {
            panic!("should be parsed");
        }
    }
}

#[test]
fn unparseable_message_should_degrade_to_unparsed() {
    let raw = "deadlock detected while updating reservations";
    let info = ReservationConflictInfo::from_message(raw);
    match info {
        ReservationConflictInfo::Parsed(_) => panic!("should stay unparsed"),
        ReservationConflictInfo::Unparsed(s) => assert_eq!(s, raw),
    }
}

#[test]
fn message_with_one_clause_should_stay_unparsed() {
    let raw = "Key (resource_id, timespan)=(room-1, [\"2023-12-26 22:00:00+00\",\"2023-12-30 19:00:00+00\")).";
    assert!(ReservationConflict::parse(raw).is_err());
}

#[test]
fn window_map_without_timespan_should_fail() {
    let mut map = KeyValues::new();
    map.insert("resource_id".to_string(), "room-1".to_string());
    assert!(ResrvationWindow::try_from_map(&map).is_err());
}

#[test]
fn window_map_with_bad_timestamp_should_fail() {
    let mut map = KeyValues::new();
    map.insert("resource_id".to_string(), "room-1".to_string());
    map.insert(
        "timespan".to_string(),
        "\"2023-13-26 22:00:00+00\",\"2023-12-30 19:00:00+00\"".to_string(),
    );
    assert!(ResrvationWindow::try_from_map(&map).is_err());
}

#[test]
fn key_values_lookup_should_prefer_last_insert() {
    let mut map = KeyValues::new();
    map.insert("k".to_string(), "first".to_string());
    map.insert("k".to_string(), "second".to_string());
    assert_eq!(map.get("k").unwrap(), "second");
    assert!(map.get("missing").is_none());
}

#[test]
fn formatted_conflict_detail_should_parse_back() {
    let neww = ResrvationWindow {
        rid: "ocean-view-room-713".to_string(),
        start: dt(2023, 12, 26, 22, 0, 0),
        end: dt(2023, 12, 30, 19, 0, 0),
    };
    let oldw = ResrvationWindow {
        rid: "ocean-view-room-713".to_string(),
        start: dt(2023, 12, 25, 22, 0, 0),
        end: dt(2023, 12, 28, 19, 0, 0),
    };
    let detail = format_conflict_detail(&neww, &oldw);
    assert_eq!(detail, ERR_MES);
    let parsed = ReservationConflict::parse(&detail).unwrap();
    assert_eq!(parsed.new, neww);
    assert_eq!(parsed.old, oldw);
}
