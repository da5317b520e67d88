use reservation::datetime::DateTimeUtc;
use reservation::error::Error;
use reservation::manager::ReservationManager;
use reservation::types::{Reservation, ReservationFilter, ReservationQuery};

fn dt(year: u32, month: u32, day: u32, hour: u32, minute: u32, second: u32) -> DateTimeUtc {
    DateTimeUtc { year, month, day, hour, minute, second }
}

fn make_reservation(
    manager: &mut ReservationManager,
    uid: &str,
    rid: &str,
    start: DateTimeUtc,
    end: DateTimeUtc,
    note: &str,
) -> Reservation {
    let rsvp = Reservation::new_pending(uid, rid, start, end, note);
    manager.reserve(rsvp).unwrap()
}

fn make_tyr_reservation(manager: &mut ReservationManager) -> Reservation {
    make_reservation(
        manager,
        "tyrid",
        "ocean-view-room-713",
        dt(2023, 12, 25, 22, 0, 0),
        dt(2023, 12, 28, 19, 0, 0),
        "hello.",
    )
}

fn make_alice_reservation(manager: &mut ReservationManager) -> Reservation {
    make_reservation(
        manager,
        "aliceid",
        "ixia-test-1",
        dt(2024, 1, 25, 22, 0, 0),
        dt(2024, 2, 25, 19, 0, 0),
        "I need to book this for xyz project for a month.",
    )
}

#[test]
fn reserve_should_work_for_valid_window() {
    let mut manager = ReservationManager::new();
    let rsvp = make_tyr_reservation(&mut manager);
    assert!(rsvp.id != 0);
}

#[test]
fn reserve_confilct_reservation_should_reject() {
    let mut manager = ReservationManager::new();
    let _rsvp1 = make_tyr_reservation(&mut manager);
    let rsvp2 = Reservation::new_pending(
        "aliceid",
        "ocean-view-room-713",
        dt(2023, 12, 26, 22, 0, 0),
        dt(2023, 12, 30, 19, 0, 0),
        "hello.",
    );
    let err = manager.reserve(rsvp2).unwrap_err();

    let info = reservation::conflict::ReservationConflictInfo::Parsed(
        reservation::conflict::ReservationConflict {
            new: reservation::conflict::ResrvationWindow {
                rid: "ocean-view-room-713".to_string(),
                start: dt(2023, 12, 26, 22, 0, 0),
                end: dt(2023, 12, 30, 19, 0, 0),
            },
            old: reservation::conflict::ResrvationWindow {
                rid: "ocean-view-room-713".to_string(),
                start: dt(2023, 12, 25, 22, 0, 0),
                end: dt(2023, 12, 28, 19, 0, 0),
            },
        },
    );

    assert_eq!(err, Error::ConflictReservation(info));
}

#[test]
fn reserve_change_status_not_pending_should_do_nothing() {
    let mut manager = ReservationManager::new();
    let rsvp = make_alice_reservation(&mut manager);
    let rsvp = manager.change_status(rsvp.id).unwrap();
    // change status again should do nothing
    let ret = manager.change_status(rsvp.id).unwrap_err();
    assert_eq!(ret, Error::NotFound);
}

#[test]
fn update_note_should_work() {
    let mut manager = ReservationManager::new();
    let rsvp = make_alice_reservation(&mut manager);
    let rsvp = manager.update_note(rsvp.id, "Hello, World.".into()).unwrap();
    assert_eq!(rsvp.note, "Hello, World.");
}

#[test]
fn get_reservation_should_work() {
    let mut manager = ReservationManager::new();
    let rsvp = make_alice_reservation(&mut manager);
    let rsvp1 = manager.get(rsvp.id).unwrap();
    assert_eq!(rsvp, rsvp1);
}

#[test]
fn delete_reservation_should_work() {
    let mut manager = ReservationManager::new();
    let rsvp = make_alice_reservation(&mut manager);
    manager.delete(rsvp.id).unwrap();
    let ret = manager.get(rsvp.id).unwrap_err();
    assert_eq!(ret, Error::NotFound);
}

#[test]
fn delete_absent_reservation_should_not_error() {
    let mut manager = ReservationManager::new();
    assert!(manager.delete(42).is_ok());
    assert_eq!(manager.delete(0).unwrap_err(), Error::InvalidReservationId(0));
}

#[test]
fn filter_reservation_should_work() {
    let mut manager = ReservationManager::new();
    let rsvp = make_alice_reservation(&mut manager);
    let filter = ReservationFilter {
        user_id: "aliceid".to_string(),
        resource_id: String::new(),
        status: 1,
        cursor: 0,
        page_size: 10,
        desc: false,
    };
    let (pager, rsvps) = manager.filter(filter).unwrap();
    assert_eq!(pager.prev, -1);
    assert_eq!(pager.next, -1);
    assert_eq!(rsvps.len(), 1);
    assert_eq!(rsvps[0].id, rsvp.id);
    assert_eq!(rsvps[0].user_id, rsvp.user_id);
}

#[test]
fn query_reservations_should_work() {
    let mut manager = ReservationManager::new();
    let rsvp = make_alice_reservation(&mut manager);
    let query = ReservationQuery {
        user_id: "aliceid".to_string(),
        resource_id: String::new(),
        start: Some(dt(2022, 1, 25, 22, 0, 0)),
        end: Some(dt(2024, 2, 28, 19, 0, 0)),
        status: 1,
        page: 1,
        page_size: 10,
        desc: false,
    };
    let rsvps = manager.query(query.clone()).unwrap();
    assert_eq!(rsvps.len(), 1);
    assert_eq!(rsvps[0].id, rsvp.id);

    // if status is not correct, should return empty
    let query2 = ReservationQuery { status: 2, ..query.clone() };
    let rsvps = manager.query(query2.clone()).unwrap();
    assert_eq!(rsvps.len(), 0);

    // change state to confirmed, query should get result
    let rsvp = manager.change_status(rsvp.id).unwrap();
    let rsvps = manager.query(query2).unwrap();
    assert_eq!(rsvps.len(), 1);
    assert_eq!(rsvps[0].id, rsvp.id);
    assert_eq!(rsvps[0].status, 2);
}

#[test]
fn filter_pages_should_cover_all_rows_without_gaps() {
    let mut manager = ReservationManager::new();
    for i in 0..25u32 {
        let rid = format!("router-{}", i);
        make_reservation(
            &mut manager,
            "alice",
            &rid,
            dt(2023, 12, 25, 22, 0, 0),
            dt(2023, 12, 28, 19, 0, 0),
            "test",
        );
    }
    let mut filter = ReservationFilter {
        user_id: "alice".to_string(),
        resource_id: String::new(),
        status: 1,
        cursor: 0,
        page_size: 10,
        desc: false,
    };

    let (pager, rsvps) = manager.filter(filter.clone()).unwrap();
    assert_eq!(pager.prev, -1);
    assert_eq!(rsvps.len(), 10);
    let ids1: Vec<i64> = rsvps.iter().map(|r| r.id).collect();
    assert_eq!(ids1, (1..=10).collect::<Vec<i64>>());

    filter.cursor = pager.next;
    let (pager, rsvps) = manager.filter(filter.clone()).unwrap();
    assert_eq!(pager.prev, 10);
    assert_eq!(rsvps.len(), 10);
    let ids2: Vec<i64> = rsvps.iter().map(|r| r.id).collect();
    assert_eq!(ids2, (11..=20).collect::<Vec<i64>>());

    filter.cursor = pager.next;
    let (pager, rsvps) = manager.filter(filter).unwrap();
    assert_eq!(pager.prev, 20);
    assert_eq!(pager.next, -1);
    assert_eq!(rsvps.len(), 5);
    let ids3: Vec<i64> = rsvps.iter().map(|r| r.id).collect();
    assert_eq!(ids3, (21..=25).collect::<Vec<i64>>());
}

#[test]
fn filter_page_size_out_of_range_should_default_to_ten() {
    let mut manager = ReservationManager::new();
    for i in 0..12u32 {
        let rid = format!("device-{}", i);
        make_reservation(
            &mut manager,
            "bob",
            &rid,
            dt(2023, 12, 25, 22, 0, 0),
            dt(2023, 12, 28, 19, 0, 0),
            "",
        );
    }
    for bad in [0, 5, 9, 101, -3] {
        let filter = ReservationFilter {
            user_id: "bob".to_string(),
            resource_id: String::new(),
            status: 1,
            cursor: 0,
            page_size: bad,
            desc: false,
        };
        let (_, rsvps) = manager.filter(filter).unwrap();
        assert_eq!(rsvps.len(), 10);
    }
}

#[test]
fn filter_desc_should_walk_backwards() {
    let mut manager = ReservationManager::new();
    for i in 0..15u32 {
        let rid = format!("cam-{}", i);
        make_reservation(
            &mut manager,
            "carol",
            &rid,
            dt(2023, 12, 25, 22, 0, 0),
            dt(2023, 12, 28, 19, 0, 0),
            "",
        );
    }
    let filter = ReservationFilter {
        user_id: "carol".to_string(),
        resource_id: String::new(),
        status: 1,
        cursor: 0,
        page_size: 10,
        desc: true,
    };
    let (pager, rsvps) = manager.filter(filter).unwrap();
    assert_eq!(pager.prev, -1);
    let ids: Vec<i64> = rsvps.iter().map(|r| r.id).collect();
    assert_eq!(ids, (6..=15).rev().collect::<Vec<i64>>());
    assert_eq!(pager.next, 6);
}

#[test]
fn filter_page_size_at_upper_bound_should_be_kept() {
    let mut manager = ReservationManager::new();
    for i in 0..12u32 {
        let rid = format!("desk-{}", i);
        make_reservation(
            &mut manager,
            "peg",
            &rid,
            dt(2023, 12, 25, 22, 0, 0),
            dt(2023, 12, 28, 19, 0, 0),
            "",
        );
    }
    let filter = ReservationFilter {
        user_id: "peg".to_string(),
        resource_id: String::new(),
        status: 1,
        cursor: 0,
        page_size: 100,
        desc: false,
    };
    let (pager, rsvps) = manager.filter(filter).unwrap();
    assert_eq!(rsvps.len(), 12);
    assert_eq!(pager.next, -1);
}

#[test]
fn query_desc_should_reverse_id_order() {
    let mut manager = ReservationManager::new();
    for i in 0..3u32 {
        let rid = format!("lab-{}", i);
        make_reservation(
            &mut manager,
            "quinn",
            &rid,
            dt(2023, 12, 25, 22, 0, 0),
            dt(2023, 12, 28, 19, 0, 0),
            "",
        );
    }
    let query = ReservationQuery {
        user_id: "quinn".to_string(),
        resource_id: String::new(),
        start: None,
        end: None,
        status: 1,
        page: 1,
        page_size: 10,
        desc: true,
    };
    let rsvps = manager.query(query).unwrap();
    let ids: Vec<i64> = rsvps.iter().map(|r| r.id).collect();
    assert_eq!(ids, vec![3, 2, 1]);
}

#[test]
fn point_operations_should_validate_ids() {
    let mut manager = ReservationManager::new();
    assert_eq!(manager.get(0).unwrap_err(), Error::InvalidReservationId(0));
    assert_eq!(
        manager.change_status(-1).unwrap_err(),
        Error::InvalidReservationId(-1)
    );
    assert_eq!(
        manager.update_note(0, "x".into()).unwrap_err(),
        Error::InvalidReservationId(0)
    );
    assert_eq!(
        manager.update_note(7, "x".into()).unwrap_err(),
        Error::NotFound
    );
}

#[test]
fn reserve_should_default_unset_status_to_pending() {
    let mut manager = ReservationManager::new();
    let mut rsvp = Reservation::new_pending(
        "dave",
        "room-9",
        dt(2023, 12, 25, 22, 0, 0),
        dt(2023, 12, 28, 19, 0, 0),
        "",
    );
    rsvp.status = 0;
    let out = manager.reserve(rsvp).unwrap();
    let stored = manager.get(out.id).unwrap();
    assert_eq!(stored.status, 1);
}

#[test]
fn reserve_invalid_window_should_fail_with_invalid_time() {
    let mut manager = ReservationManager::new();
    let rsvp = Reservation::new_pending(
        "erin",
        "room-1",
        dt(2023, 12, 28, 19, 0, 0),
        dt(2023, 12, 25, 22, 0, 0),
        "",
    );
    assert_eq!(manager.reserve(rsvp).unwrap_err(), Error::InvalidTime);
    let mut rsvp = Reservation::new_pending(
        "erin",
        "room-1",
        dt(2023, 12, 25, 22, 0, 0),
        dt(2023, 12, 28, 19, 0, 0),
        "",
    );
    rsvp.start = None;
    assert_eq!(manager.reserve(rsvp).unwrap_err(), Error::InvalidTime);
}

#[test]
fn reserve_blocked_rows_do_not_conflict() {
    let mut manager = ReservationManager::new();
    let mut blocked = Reservation::new_pending(
        "ops",
        "room-2",
        dt(2023, 12, 25, 22, 0, 0),
        dt(2023, 12, 28, 19, 0, 0),
        "maintenance",
    );
    blocked.status = 3;
    manager.reserve(blocked).unwrap();
    let rsvp = Reservation::new_pending(
        "frank",
        "room-2",
        dt(2023, 12, 26, 22, 0, 0),
        dt(2023, 12, 27, 19, 0, 0),
        "",
    );
    assert!(manager.reserve(rsvp).is_ok());
}
