//! The transport-facing service: a thin layer over the manager that
//! checks the request shape and maps each domain error to its
//! caller-facing status.
use vstd::prelude::*;

use crate::error::{spec_error_message, spec_status_category, Error, RpcStatus, StatusCategory};
use crate::manager::{spec_active_tag, spec_find_conflict, spec_stored_row, ReservationManager};
use crate::types::{Reservation, Validator};

verus! {

/// The reservation service exposed to the transport: it owns the manager
/// and forwards validated requests to it.
pub struct RsvpService {
    pub manager: ReservationManager,
}

impl RsvpService {
    /// A service over the given manager.
    pub fn new(manager: ReservationManager) -> (r: RsvpService)
        ensures
            r.manager == manager,
    {
        RsvpService { manager }
    }

    /// The reserve operation as the transport sees it: a request without a
    /// reservation is rejected as an invalid argument before the manager
    /// runs; otherwise the manager's outcome is returned, each error
    /// mapped to its status category and one-line description.
    pub fn reserve(&mut self, request: Option<Reservation>) -> (r: Result<Reservation, RpcStatus>)
        requires
            old(self).manager.inv(),
            old(self).manager.spec_next_id() < i64::MAX,
        ensures
            final(self).manager.inv(),
            ({
                match request {
                    None => final(self).manager == old(self).manager && (r matches Err(st)
                        && st.category == StatusCategory::InvalidArgument && st.message@
                        == "missing reservation"@),
                    Some(rsvp) => ({
                        let t = old(self).manager.table();
                        let stored = spec_stored_row(rsvp, old(self).manager.spec_next_id() as i64);
                        let k = spec_find_conflict(t, stored, 0);
                        if !rsvp.spec_valid() {
                            &&& final(self).manager.table() == t
                            &&& (r matches Err(st) && st.category == spec_status_category(
                                rsvp.spec_error(),
                            ) && st.message@ == spec_error_message(rsvp.spec_error()))
                        } else if spec_active_tag(stored.status) && k < t.len() {
                            &&& final(self).manager.table() == t
                            &&& (r matches Err(st) && st.category
                                == StatusCategory::FailedPrecondition && st.message@
                                == "Conflict reservation"@)
                        } else {
                            &&& final(self).manager.table() == t.push(stored)
                            &&& (r matches Ok(out) && out == Reservation { id: stored.id, ..rsvp })
                        }
                    }),
                }
            }),
    {
        let rsvp = match request {
            Some(rsvp) => rsvp,
            None => {
                proof {
                    reveal_strlit("missing reservation");
                }
                let mut msg = String::new();
                msg.append("missing reservation");
                return Err(RpcStatus { category: StatusCategory::InvalidArgument, message: msg });
            },
        };
        match self.manager.reserve(rsvp) {
            Ok(out) => Ok(out),
            Err(e) => Err(RpcStatus::from_error(&e)),
        }
    }
}

} // verus!
