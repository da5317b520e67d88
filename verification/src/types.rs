//! The reservation entity, the read-path parameter types, and the
//! pre-write validation rules.
use vstd::prelude::*;

use crate::datetime::DateTimeUtc;
use crate::error::Error;

verus! {

/// A time-bounded reservation of one resource by one user.
///
/// `id` is store-assigned and `0` until the entity is persisted. The
/// half-open window `[start, end)` must be present and non-empty for the
/// entity to validate. `status` carries the wire tag decoded by
/// [`crate::RsvpStatus::from_tag`].
#[derive(Debug, Clone, PartialEq)]
pub struct Reservation {
    pub id: i64,
    pub user_id: String,
    pub resource_id: String,
    pub start: Option<DateTimeUtc>,
    pub end: Option<DateTimeUtc>,
    pub note: String,
    pub status: i32,
}

/// A half-open time range; a missing bound is unconstrained.
#[derive(Debug, Clone, Copy, PartialEq, Eq, Structural)]
pub struct TimeSpan {
    pub start: Option<DateTimeUtc>,
    pub end: Option<DateTimeUtc>,
}

/// Filter for the offset-style read path: empty string fields mean
/// "unconstrained", the window constrains the reservations returned, and
/// `page` / `page_size` / `desc` drive offset pagination over the id order.
#[derive(Debug, Clone)]
pub struct ReservationQuery {
    pub user_id: String,
    pub resource_id: String,
    pub start: Option<DateTimeUtc>,
    pub end: Option<DateTimeUtc>,
    pub status: i32,
    pub page: i32,
    pub page_size: i32,
    pub desc: bool,
}

/// Filter for the keyset-cursor read path: empty string fields mean
/// "unconstrained", `cursor` is the last-seen id (`0` for the start),
/// `page_size` is clamped to `[10, 100]`, and `desc` sets the direction.
#[derive(Debug, Clone)]
pub struct ReservationFilter {
    pub user_id: String,
    pub resource_id: String,
    pub status: i32,
    pub cursor: i64,
    pub page_size: i32,
    pub desc: bool,
}

/// The pager returned beside a filtered page: `prev` / `next` are the
/// cursors of the neighbouring pages, or the sentinel `-1` when there is no
/// such page. `total` is always reported unset (`0`): counting cheaply is a
/// known open problem, deliberately not solved here.
#[derive(Debug, Clone, Copy, PartialEq, Eq, Structural)]
pub struct FilterPager {
    pub prev: i64,
    pub next: i64,
    pub total: i64,
}

/// A well-formed half-open window: both bounds present, both real calendar
/// date-times, and start strictly before end.
pub open spec fn spec_range_ok(start: Option<DateTimeUtc>, end: Option<DateTimeUtc>) -> bool {
    match (start, end) {
        (Some(s), Some(e)) => s.is_valid() && e.is_valid() && s.key() < e.key(),
        _ => false,
    }
}

/// Checks a window, reporting `InvalidTime` for a missing bound, a
/// malformed date-time, or an empty or negative range.
pub fn validate_range(start: &Option<DateTimeUtc>, end: &Option<DateTimeUtc>) -> (r: Result<
    (),
    Error,
>)
    ensures
        (r matches Ok(v)) == spec_range_ok(*start, *end),
        r matches Err(e) ==> e == Error::InvalidTime,
{
    match (start, end) {
        (Some(s), Some(e)) => {
            if !s.valid() || !e.valid() {
                Err(Error::InvalidTime)
            } else if s.lt(e) {
                Ok(())
            } else {
                Err(Error::InvalidTime)
            }
        },
        _ => Err(Error::InvalidTime),
    }
}

/// Pre-write validation: every mutating manager call validates its input
/// locally, before any store round-trip.
pub trait Validator {
    /// Whether the value passes validation.
    spec fn spec_valid(&self) -> bool;

    /// The error reported when it does not.
    spec fn spec_error(&self) -> Error;

    /// Checks the value, succeeding exactly on valid values and reporting
    /// the value's own validation error otherwise.
    fn validate(&self) -> (r: Result<(), Error>)
        ensures
            (r matches Ok(v)) == self.spec_valid(),
            r matches Err(e) ==> e == self.spec_error(),
    ;
}

impl Validator for i64 {
    /// A reservation id is valid when positive.
    open spec fn spec_valid(&self) -> bool {
        *self > 0
    }

    open spec fn spec_error(&self) -> Error {
        Error::InvalidReservationId(*self)
    }

    fn validate(&self) -> (r: Result<(), Error>) {
        if *self <= 0 {
            Err(Error::InvalidReservationId(*self))
        } else {
            Ok(())
        }
    }
}

impl Validator for Reservation {
    /// A reservation is valid when its user and resource are named and its
    /// window is well-formed.
    open spec fn spec_valid(&self) -> bool {
        self.user_id@.len() > 0 && self.resource_id@.len() > 0 && spec_range_ok(
            self.start,
            self.end,
        )
    }

    open spec fn spec_error(&self) -> Error {
        if self.user_id@.len() == 0 {
            Error::InvalidUserId(self.user_id)
        } else if self.resource_id@.len() == 0 {
            Error::InvalidResourceId(self.resource_id)
        } else {
            Error::InvalidTime
        }
    }

    fn validate(&self) -> (r: Result<(), Error>) {
        if self.user_id.as_str().is_empty() {
            Err(Error::InvalidUserId(self.user_id.clone()))
        } else if self.resource_id.as_str().is_empty() {
            Err(Error::InvalidResourceId(self.resource_id.clone()))
        } else {
            validate_range(&self.start, &self.end)
        }
    }
}

impl Validator for ReservationQuery {
    /// A query is valid when its window is well-formed.
    open spec fn spec_valid(&self) -> bool {
        spec_range_ok(self.start, self.end)
    }

    open spec fn spec_error(&self) -> Error {
        Error::InvalidTime
    }

    fn validate(&self) -> (r: Result<(), Error>) {
        validate_range(&self.start, &self.end)
    }
}

impl Reservation {
    /// A fresh, unpersisted pending reservation.
    pub fn new_pending(
        uid: &str,
        rid: &str,
        start: DateTimeUtc,
        end: DateTimeUtc,
        note: &str,
    ) -> (r: Reservation)
        ensures
            r.id == 0,
            r.user_id@ == uid@,
            r.resource_id@ == rid@,
            r.start == Some(start),
            r.end == Some(end),
            r.note@ == note@,
            r.status == crate::RsvpStatus::Pending.spec_tag(),
    {
        Reservation {
            id: 0,
            user_id: String::from_str(uid),
            resource_id: String::from_str(rid),
            start: Some(start),
            end: Some(end),
            note: String::from_str(note),
            status: 1,
        }
    }

    /// The reservation's half-open window.
    pub fn get_timespan(&self) -> (r: TimeSpan)
        ensures
            r.start == self.start,
            r.end == self.end,
    {
        TimeSpan { start: self.start, end: self.end }
    }
}

impl ReservationQuery {
    /// The query's half-open window; a missing bound is unconstrained.
    pub fn get_timespan(&self) -> (r: TimeSpan)
        ensures
            r.start == self.start,
            r.end == self.end,
    {
        TimeSpan { start: self.start, end: self.end }
    }
}

} // verus!
