//! A verified reservation manager: time-bounded reservations of a named
//! resource by a named user, with the guarantee that no two active
//! reservations for the same resource overlap in time.
//!
//! The crate covers the reservation entity and its validation rules, the
//! status state machine, the manager's create / confirm / update / delete /
//! get operations, two read paths (offset-style query and keyset-cursor
//! filter with lookahead pagination), and the parser that turns the store's
//! raw overlap-violation diagnostic into a structured conflict description.
use vstd::prelude::*;

pub mod conflict;
pub mod datetime;
pub mod error;
pub mod laws;
pub mod manager;
pub mod service;
pub mod types;

verus! {

/// Identifier of a persisted reservation; assigned by the store, positive
/// once assigned, `0` while the entity has not been persisted yet.
pub type ReservationId = i64;

/// Identifier of the reserving user.
pub type UserId = String;

/// Identifier of the reserved resource.
pub type ResourceId = String;

/// Status of a reservation, mirroring the store's `reservation_status`
/// enumeration.
#[derive(Clone, Copy, Debug, PartialEq, Eq, Structural)]
pub enum RsvpStatus {
    Unknown,
    Pending,
    Confirmed,
    Blocked,
}

impl RsvpStatus {
    /// The wire tag of this status (the value an inbound entity carries).
    pub open spec fn spec_tag(self) -> i32 {
        match self {
            RsvpStatus::Unknown => 0,
            RsvpStatus::Pending => 1,
            RsvpStatus::Confirmed => 2,
            RsvpStatus::Blocked => 3,
        }
    }

    /// Decode a wire tag. An unset (`0`) or unrecognized tag deliberately
    /// falls back to `Pending`: this default is part of the manager's
    /// contract, not an error.
    pub open spec fn spec_from_tag(tag: i32) -> RsvpStatus {
        if tag == 2 {
            RsvpStatus::Confirmed
        } else if tag == 3 {
            RsvpStatus::Blocked
        } else {
            RsvpStatus::Pending
        }
    }

    /// Executable decoding of a wire tag, with the documented `Pending`
    /// fallback for unset or unrecognized values.
    pub fn from_tag(tag: i32) -> (r: RsvpStatus)
        ensures
            r == RsvpStatus::spec_from_tag(tag),
    {
        if tag == 2 {
            RsvpStatus::Confirmed
        } else if tag == 3 {
            RsvpStatus::Blocked
        } else {
            RsvpStatus::Pending
        }
    }

    /// Executable encoding into the wire tag.
    pub fn tag(self) -> (r: i32)
        ensures
            r == self.spec_tag(),
    {
        match self {
            RsvpStatus::Unknown => 0,
            RsvpStatus::Pending => 1,
            RsvpStatus::Confirmed => 2,
            RsvpStatus::Blocked => 3,
        }
    }

    /// A reservation takes part in the overlap-exclusion invariant exactly
    /// while it is pending or confirmed.
    pub open spec fn spec_is_active(self) -> bool {
        self == RsvpStatus::Pending || self == RsvpStatus::Confirmed
    }

    /// Executable activity test.
    pub fn is_active(self) -> (r: bool)
        ensures
            r == self.spec_is_active(),
    {
        match self {
            RsvpStatus::Pending => true,
            RsvpStatus::Confirmed => true,
            _ => false,
        }
    }
}

/// Character-wise string comparison, so that equality of the character
/// views can be relied on in contracts.
pub fn str_eq(a: &str, b: &str) -> (r: bool)
    ensures
        r == (a@ == b@),
{
    let n = a.unicode_len();
    if n != b.unicode_len() {
        proof {
            assert(a@ != b@);
        }
        return false;
    }
    let mut i: usize = 0;
    while i < n
        invariant
            i <= n,
            n == a@.len(),
            n == b@.len(),
            forall|j: int| 0 <= j < i ==> a@[j] == b@[j],
        decreases n - i,
    {
        if a.get_char(i) != b.get_char(i) {
            return false;
        }
        i += 1;
    }
    proof {
        assert(a@ =~= b@);
    }
    true
}

/// Copies the characters of a string slice into a vector, for constant-time
/// indexed scanning.
pub fn str_chars(s: &str) -> (r: Vec<char>)
    ensures
        r@ == s@,
{
    let n = s.unicode_len();
    let mut v: Vec<char> = Vec::new();
    let mut i: usize = 0;
    while i < n
        invariant
            i <= n,
            n == s@.len(),
            v@ == s@.take(i as int),
        decreases n - i,
    {
        let c = s.get_char(i);
        v.push(c);
        proof {
            assert(s@.take(i + 1) =~= s@.take(i as int).push(s@[i as int]));
        }
        i += 1;
    }
    proof {
        assert(s@.take(n as int) =~= s@);
    }
    v
}

/// An empty string stands for "unconstrained" in query and filter fields;
/// this maps it to `None` for the store's predicate.
pub fn str_to_option(s: &str) -> (r: Option<&str>)
    ensures
        match r {
            None => s@.len() == 0,
            Some(t) => t@ == s@ && s@.len() > 0,
        },
{
    if s.is_empty() {
        None
    } else {
        Some(s)
    }
}

} // verus!
