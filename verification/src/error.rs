//! The error taxonomy, the classification of store failures, and the
//! mapping of each error to its caller-facing status category.
use vstd::prelude::*;

use crate::conflict::{spec_conflict_info, ReservationConflictInfo};
use crate::datetime::{spec_i64_str, format_i64};

verus! {

/// Every failure a manager operation can report.
///
/// Validation errors (`InvalidTime`, `InvalidReservationId`,
/// `InvalidUserId`, `InvalidResourceId`) are raised locally before any
/// store round-trip. `ConflictReservation` carries the best-effort parse of
/// the store's overlap diagnostic. `DbError` holds the description of any
/// other store failure, and `Unknown` is the unclassified remainder.
#[derive(Debug, Clone)]
pub enum Error {
    DbError(String),
    NotFound,
    InvalidTime,
    ConflictReservation(ReservationConflictInfo),
    InvalidReservationId(i64),
    InvalidUserId(String),
    InvalidResourceId(String),
    Unknown,
}

impl PartialEq for Error {
    fn eq(&self, other: &Self) -> bool {
        match (self, other) {
            (Error::DbError(_), Error::DbError(_)) => true,
            (Error::NotFound, Error::NotFound) => true,
            (Error::InvalidTime, Error::InvalidTime) => true,
            (Error::ConflictReservation(a), Error::ConflictReservation(b)) => a == b,
            (Error::InvalidReservationId(a), Error::InvalidReservationId(b)) => a == b,
            (Error::InvalidUserId(a), Error::InvalidUserId(b)) => crate::str_eq(
                a.as_str(),
                b.as_str(),
            ),
            (Error::InvalidResourceId(a), Error::InvalidResourceId(b)) => crate::str_eq(
                a.as_str(),
                b.as_str(),
            ),
            (Error::Unknown, Error::Unknown) => true,
            _ => false,
        }
    }
}

impl vstd::std_specs::cmp::PartialEqSpecImpl for Error {
    open spec fn obeys_eq_spec() -> bool {
        true
    }

    /// Two store failures compare equal whatever their descriptions — the
    /// callers never distinguish them — while every other variant compares
    /// by content.
    open spec fn eq_spec(&self, other: &Self) -> bool {
        match (self, other) {
            (Error::DbError(_), Error::DbError(_)) => true,
            (Error::NotFound, Error::NotFound) => true,
            (Error::InvalidTime, Error::InvalidTime) => true,
            (Error::ConflictReservation(a), Error::ConflictReservation(b)) => a@ == b@,
            (Error::InvalidReservationId(a), Error::InvalidReservationId(b)) => a == b,
            (Error::InvalidUserId(a), Error::InvalidUserId(b)) => a@ == b@,
            (Error::InvalidResourceId(a), Error::InvalidResourceId(b)) => a@ == b@,
            (Error::Unknown, Error::Unknown) => true,
            _ => false,
        }
    }
}

/// The one-line description of each error.
pub open spec fn spec_error_message(e: Error) -> Seq<char> {
    match e {
        Error::DbError(s) => "Database error: "@ + s@,
        Error::NotFound => "No reservation found by the given condition"@,
        Error::InvalidTime => "Invalid start or end time for the reservation"@,
        Error::ConflictReservation(_) => "Conflict reservation"@,
        Error::InvalidReservationId(id) => "Invalid reservation id: "@ + spec_i64_str(id as int),
        Error::InvalidUserId(id) => "Invalid user id: "@ + id@,
        Error::InvalidResourceId(id) => "Invalid resource id: "@ + id@,
        Error::Unknown => "unknown data store error"@,
    }
}

impl Error {
    /// Renders the one-line description of this error.
    pub fn message(&self) -> (r: String)
        ensures
            r@ == spec_error_message(*self),
    {
        let mut out = String::new();
        match self {
            Error::DbError(s) => {
                out.append("Database error: ");
                out.append(s.as_str());
            },
            Error::NotFound => {
                out.append("No reservation found by the given condition");
            },
            Error::InvalidTime => {
                out.append("Invalid start or end time for the reservation");
            },
            Error::ConflictReservation(_) => {
                out.append("Conflict reservation");
            },
            Error::InvalidReservationId(id) => {
                out.append("Invalid reservation id: ");
                let d = format_i64(*id);
                out.append(d.as_str());
            },
            Error::InvalidUserId(id) => {
                out.append("Invalid user id: ");
                out.append(id.as_str());
            },
            Error::InvalidResourceId(id) => {
                out.append("Invalid resource id: ");
                out.append(id.as_str());
            },
            Error::Unknown => {
                out.append("unknown data store error");
            },
        }
        proof {
            assert(out@ =~= spec_error_message(*self));
        }
        out
    }
}

// ---------------------------------------------------------------------------
// Classifying store failures
// ---------------------------------------------------------------------------
/// What the store reports when an operation fails, reduced to plain values:
/// a database-side error with its structured fields, the absence of a
/// matching row, or anything else with its description.
pub enum DbFailure {
    Database {
        code: String,
        schema: Option<String>,
        table: Option<String>,
        detail: String,
        message: String,
    },
    RowNotFound,
    Other(String),
}

/// The structured fields that identify a violation of the reservations
/// table's overlap-exclusion constraint.
pub open spec fn spec_is_overlap_violation(
    code: Seq<char>,
    schema: Option<Seq<char>>,
    table: Option<Seq<char>>,
) -> bool {
    code == "23P01"@ && schema == Some("rsvp"@) && table == Some("reservations"@)
}

impl Error {
    /// Classifies a store failure once, at the manager boundary: an
    /// exclusion violation on the reservations table becomes
    /// `ConflictReservation` with the parsed detail, a missing row becomes
    /// `NotFound`, and everything else stays an opaque `DbError`.
    pub fn from_db_failure(e: DbFailure) -> (r: Error)
        ensures
            match e {
                DbFailure::Database { code, schema, table, detail, message } => {
                    if spec_is_overlap_violation(code@, schema.deep_view(), table.deep_view()) {
                        (r matches Error::ConflictReservation(info) && info@ == spec_conflict_info(
                            detail@,
                        ))
                    } else {
                        (r matches Error::DbError(m) && m@ == message@)
                    }
                },
                DbFailure::RowNotFound => r == Error::NotFound,
                DbFailure::Other(m) => (r matches Error::DbError(mm) && mm@ == m@),
            },
    {
        match e {
            DbFailure::Database { code, schema, table, detail, message } => {
                let schema_matches = match &schema {
                    Some(s) => crate::str_eq(s.as_str(), "rsvp"),
                    None => false,
                };
                let table_matches = match &table {
                    Some(t) => crate::str_eq(t.as_str(), "reservations"),
                    None => false,
                };
                if crate::str_eq(code.as_str(), "23P01") && schema_matches && table_matches {
                    Error::ConflictReservation(ReservationConflictInfo::from_message(
                        detail.as_str(),
                    ))
                } else {
                    Error::DbError(message)
                }
            },
            DbFailure::RowNotFound => Error::NotFound,
            DbFailure::Other(m) => Error::DbError(m),
        }
    }
}

// ---------------------------------------------------------------------------
// Caller-facing status
// ---------------------------------------------------------------------------
/// The externally observable category of a failure, as the transport
/// reports it.
#[derive(Clone, Copy, Debug, PartialEq, Eq, Structural)]
pub enum StatusCategory {
    Internal,
    InvalidArgument,
    FailedPrecondition,
    NotFound,
    Unknown,
}

/// The status category of each error: store failures are internal,
/// validation failures are invalid arguments, a reported conflict is a
/// failed precondition — even when its diagnostic stayed unparsed — and a
/// missing row is not-found.
pub open spec fn spec_status_category(e: Error) -> StatusCategory {
    match e {
        Error::DbError(_) => StatusCategory::Internal,
        Error::InvalidTime => StatusCategory::InvalidArgument,
        Error::ConflictReservation(_) => StatusCategory::FailedPrecondition,
        Error::NotFound => StatusCategory::NotFound,
        Error::InvalidReservationId(_) => StatusCategory::InvalidArgument,
        Error::InvalidUserId(_) => StatusCategory::InvalidArgument,
        Error::InvalidResourceId(_) => StatusCategory::InvalidArgument,
        Error::Unknown => StatusCategory::Unknown,
    }
}

/// A caller-facing status: the category and a one-line description, as the
/// transport layer sends them.
#[derive(Debug)]
pub struct RpcStatus {
    pub category: StatusCategory,
    pub message: String,
}

impl RpcStatus {
    /// Maps an error to its caller-facing status; each error maps to
    /// exactly one category.
    pub fn from_error(e: &Error) -> (r: RpcStatus)
        ensures
            r.category == spec_status_category(*e),
            r.message@ == spec_error_message(*e),
    {
        RpcStatus {
            category: match e {
                Error::DbError(_) => StatusCategory::Internal,
                Error::InvalidTime => StatusCategory::InvalidArgument,
                Error::ConflictReservation(_) => StatusCategory::FailedPrecondition,
                Error::NotFound => StatusCategory::NotFound,
                Error::InvalidReservationId(_) => StatusCategory::InvalidArgument,
                Error::InvalidUserId(_) => StatusCategory::InvalidArgument,
                Error::InvalidResourceId(_) => StatusCategory::InvalidArgument,
                Error::Unknown => StatusCategory::Unknown,
            },
            message: e.message(),
        }
    }
}

} // verus!
