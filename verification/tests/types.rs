use reservation::datetime::{parse_datetime, DateTimeUtc};
use reservation::error::{Error, RpcStatus, StatusCategory};
use reservation::manager::ReservationManager;
use reservation::service::RsvpService;
use reservation::types::{Reservation, Validator};
use reservation::{str_to_option, RsvpStatus};

fn dt(year: u32, month: u32, day: u32, hour: u32, minute: u32, second: u32) -> DateTimeUtc {
    DateTimeUtc { year, month, day, hour, minute, second }
}

#[test]
fn validate_reservation_id_boundaries() {
    assert_eq!((0i64).validate().unwrap_err(), Error::InvalidReservationId(0));
    assert_eq!((-5i64).validate().unwrap_err(), Error::InvalidReservationId(-5));
    assert!((1i64).validate().is_ok());
}

#[test]
fn validate_reservation_should_check_ids_and_window() {
    let good = Reservation::new_pending(
        "u",
        "r",
        dt(2023, 12, 25, 22, 0, 0),
        dt(2023, 12, 28, 19, 0, 0),
        "",
    );
    assert!(good.validate().is_ok());
    let mut no_user = good.clone();
    no_user.user_id = String::new();
    assert_eq!(
        no_user.validate().unwrap_err(),
        Error::InvalidUserId(String::new())
    );
    let mut no_resource = good.clone();
    no_resource.resource_id = String::new();
    assert_eq!(
        no_resource.validate().unwrap_err(),
        Error::InvalidResourceId(String::new())
    );
    let mut empty_window = good.clone();
    empty_window.end = empty_window.start;
    assert_eq!(empty_window.validate().unwrap_err(), Error::InvalidTime);
}

#[test]
fn status_decoding_should_default_to_pending() {
    assert_eq!(RsvpStatus::from_tag(0), RsvpStatus::Pending);
    assert_eq!(RsvpStatus::from_tag(1), RsvpStatus::Pending);
    assert_eq!(RsvpStatus::from_tag(2), RsvpStatus::Confirmed);
    assert_eq!(RsvpStatus::from_tag(3), RsvpStatus::Blocked);
    assert_eq!(RsvpStatus::from_tag(4), RsvpStatus::Pending);
    assert_eq!(RsvpStatus::from_tag(-1), RsvpStatus::Pending);
}

#[test]
fn str_to_option_should_map_empty_to_none() {
    assert_eq!(str_to_option(""), None);
    assert_eq!(str_to_option("alice"), Some("alice"));
}

#[test]
fn datetime_parse_should_normalize_offsets_to_utc() {
    let d = parse_datetime("2023-12-26 15:00:00-07").unwrap();
    assert_eq!(d.to_text(), "2023-12-26 22:00:00 UTC");
    let d = parse_datetime("2023-12-26 22:30:00+23").unwrap();
    assert_eq!(d.to_text(), "2023-12-25 23:30:00 UTC");
    let d = parse_datetime("2024-02-28 23:00:00-02").unwrap();
    assert_eq!(d.to_text(), "2024-02-29 01:00:00 UTC");
}

#[test]
fn datetime_parse_should_reject_malformed_text() {
    assert!(parse_datetime("2023-12-26T22:00:00+00").is_none());
    assert!(parse_datetime("2023-12-26 22:00:00").is_none());
    assert!(parse_datetime("2023-13-26 22:00:00+00").is_none());
    assert!(parse_datetime("2023-02-30 22:00:00+00").is_none());
    assert!(parse_datetime("2023-12-26 24:00:00+00").is_none());
    assert!(parse_datetime("2023-12-26 22:00:00+24").is_none());
    assert!(parse_datetime("2023-12-26 22:00:00+0").is_none());
}

#[test]
fn datetime_format_should_round_trip() {
    let d = dt(2024, 2, 29, 23, 59, 59);
    let s = d.format();
    assert_eq!(s, "2024-02-29 23:59:59+00");
    assert_eq!(parse_datetime(&s).unwrap(), d);
}

#[test]
fn error_messages_should_render() {
    assert_eq!(
        Error::InvalidReservationId(-5).message(),
        "Invalid reservation id: -5"
    );
    assert_eq!(
        Error::InvalidReservationId(42).message(),
        "Invalid reservation id: 42"
    );
    assert_eq!(
        Error::DbError("connection reset".to_string()).message(),
        "Database error: connection reset"
    );
    assert_eq!(
        Error::NotFound.message(),
        "No reservation found by the given condition"
    );
}

#[test]
fn errors_should_map_to_one_status_category_each() {
    let cases = [
        (Error::DbError(String::new()), StatusCategory::Internal),
        (Error::InvalidTime, StatusCategory::InvalidArgument),
        (Error::NotFound, StatusCategory::NotFound),
        (Error::InvalidReservationId(0), StatusCategory::InvalidArgument),
        (Error::InvalidUserId(String::new()), StatusCategory::InvalidArgument),
        (Error::InvalidResourceId(String::new()), StatusCategory::InvalidArgument),
        (Error::Unknown, StatusCategory::Unknown),
    ];
    for (e, cat) in cases {
        assert_eq!(RpcStatus::from_error(&e).category, cat);
    }
}

#[test]
fn service_reserve_should_reject_missing_reservation() {
    let mut service = RsvpService::new(ReservationManager::new());
    let st = service.reserve(None).unwrap_err();
    assert_eq!(st.category, StatusCategory::InvalidArgument);
    assert_eq!(st.message, "missing reservation");
}

#[test]
fn rpc_reserve_should_work() {
    let mut service = RsvpService::new(ReservationManager::new());
    let reservation = Reservation::new_pending(
        "tyr",
        "ixia-3230",
        dt(2022, 12, 26, 22, 0, 0),
        dt(2022, 12, 30, 19, 0, 0),
        "test device reservation",
    );
    let reservation1 = service.reserve(Some(reservation.clone())).unwrap();
    assert_eq!(reservation1.user_id, reservation.user_id);
    assert_eq!(reservation1.resource_id, reservation.resource_id);
    assert_eq!(reservation1.start, reservation.start);
    assert_eq!(reservation1.end, reservation.end);
    assert_eq!(reservation1.note, reservation.note);
    assert_eq!(reservation1.status, reservation.status);
}
