//! The reservation manager over its transactional store.
//!
//! The store is modeled in-process: a table of rows in ascending id order,
//! with a monotonic id counter. The store's one non-local guarantee — the
//! atomic range-exclusion check that keeps active reservations of one
//! resource from overlapping — is enforced by the insert path here, and the
//! table invariant records it. On a violation the insert raises the same
//! diagnostic text the backing store would, and the manager routes it
//! through the conflict parser before surfacing a typed error.
use vstd::pervasive::VecAdditionalExecFns;
use vstd::prelude::*;

use crate::conflict::{
    spec_conflict_detail, spec_conflict_info, format_conflict_detail, ResrvationWindow, WindowView,
};
use crate::datetime::DateTimeUtc;
use crate::error::{DbFailure, Error};
use crate::types::{spec_range_ok, Reservation, ReservationFilter, ReservationQuery, FilterPager, Validator};
use crate::RsvpStatus;

verus! {

/// A stored row's status tag takes part in the overlap exclusion exactly
/// when it is pending or confirmed.
pub open spec fn spec_active_tag(status: i32) -> bool {
    status == 1 || status == 2
}

/// A row the store would hold: persisted positive id, named user and
/// resource, a well-formed window, and a decoded status tag.
pub open spec fn spec_row_wf(r: Reservation) -> bool {
    &&& r.id >= 1
    &&& r.user_id@.len() > 0
    &&& r.resource_id@.len() > 0
    &&& spec_range_ok(r.start, r.end)
    &&& (r.status == 1 || r.status == 2 || r.status == 3)
}

/// The half-open windows of two rows intersect. Meaningful only for rows
/// with well-formed windows.
pub open spec fn spec_overlap(a: Reservation, b: Reservation) -> bool {
    a.start->Some_0.key() < b.end->Some_0.key() && b.start->Some_0.key() < a.end->Some_0.key()
}

/// An existing row excludes the insert of `new`: it is active, on the same
/// resource, and its window intersects the new row's.
pub open spec fn spec_conflicts(row: Reservation, new: Reservation) -> bool {
    &&& spec_active_tag(row.status)
    &&& row.resource_id@ == new.resource_id@
    &&& spec_overlap(row, new)
}

/// First index at or after `i` whose row excludes `new`, or the length.
pub open spec fn spec_find_conflict(t: Seq<Reservation>, new: Reservation, i: int) -> int
    decreases t.len() - i
        when 0 <= i <= t.len()
{
    if i >= t.len() {
        i
    } else if spec_conflicts(t[i], new) {
        i
    } else {
        spec_find_conflict(t, new, i + 1)
    }
}

/// Bounds and meaning of `spec_find_conflict`.
pub proof fn lemma_find_conflict(t: Seq<Reservation>, new: Reservation, i: int)
    requires
        0 <= i <= t.len(),
    ensures
        i <= spec_find_conflict(t, new, i) <= t.len(),
        forall|j: int| i <= j < spec_find_conflict(t, new, i) ==> !spec_conflicts(
            #[trigger] t[j],
            new,
        ),
        spec_find_conflict(t, new, i) < t.len() ==> spec_conflicts(
            t[spec_find_conflict(t, new, i)],
            new,
        ),
    decreases t.len() - i,
{
    if i < t.len() && !spec_conflicts(t[i], new) {
        lemma_find_conflict(t, new, i + 1);
    }
}

/// First index at or after `i` whose row has id `id`, or the length.
pub open spec fn spec_find_id(t: Seq<Reservation>, id: i64, i: int) -> int
    decreases t.len() - i
        when 0 <= i <= t.len()
{
    if i >= t.len() {
        i
    } else if t[i].id == id {
        i
    } else {
        spec_find_id(t, id, i + 1)
    }
}

/// Bounds and meaning of `spec_find_id`.
pub proof fn lemma_find_id(t: Seq<Reservation>, id: i64, i: int)
    requires
        0 <= i <= t.len(),
    ensures
        i <= spec_find_id(t, id, i) <= t.len(),
        forall|j: int| i <= j < spec_find_id(t, id, i) ==> (#[trigger] t[j]).id != id,
        spec_find_id(t, id, i) < t.len() ==> t[spec_find_id(t, id, i)].id == id,
    decreases t.len() - i,
{
    if i < t.len() && t[i].id != id {
        lemma_find_id(t, id, i + 1);
    }
}

/// The store's invariant: well-formed rows in strictly ascending id order,
/// ids below the counter, and — the store's one global guarantee — no two
/// active rows of one resource with intersecting windows.
pub open spec fn spec_table_wf(t: Seq<Reservation>, next_id: int) -> bool {
    &&& 1 <= next_id <= i64::MAX
    &&& forall|i: int|
        0 <= i < t.len() ==> spec_row_wf(#[trigger] t[i]) && t[i].id < next_id
    &&& forall|i: int, j: int|
        0 <= i < j < t.len() ==> (#[trigger] t[i]).id < (#[trigger] t[j]).id
    &&& forall|i: int, j: int|
        0 <= i < j < t.len() && spec_active_tag((#[trigger] t[i]).status) && spec_active_tag(
            (#[trigger] t[j]).status,
        ) && t[i].resource_id@ == t[j].resource_id@ ==> !spec_overlap(t[i], t[j])
}

/// Determination of `spec_find_id`: a position whose row carries the id,
/// with no earlier occurrence, is the one found; if no row carries it, the
/// search runs to the length.
pub proof fn lemma_find_id_value(t: Seq<Reservation>, id: i64, i: int, e: int)
    requires
        0 <= i <= e <= t.len(),
        forall|j: int| i <= j < e ==> (#[trigger] t[j]).id != id,
        e < t.len() ==> t[e].id == id,
    ensures
        spec_find_id(t, id, i) == e,
    decreases e - i,
{
    if i < e {
        lemma_find_id_value(t, id, i + 1, e);
    }
}

/// The reservation manager: the store's table of rows in ascending id
/// order, and the next id the store will assign.
pub struct ReservationManager {
    rsvps: Vec<Reservation>,
    next_id: i64,
}

impl ReservationManager {
    /// The stored table, in ascending id order.
    pub closed spec fn table(&self) -> Seq<Reservation> {
        self.rsvps@
    }

    /// The id the store assigns to the next inserted row.
    pub closed spec fn spec_next_id(&self) -> int {
        self.next_id as int
    }

    /// The store's invariant over the manager's own state.
    pub open spec fn inv(&self) -> bool {
        spec_table_wf(self.table(), self.spec_next_id())
    }

    /// A fresh manager over an empty store.
    pub fn new() -> (r: ReservationManager)
        ensures
            r.inv(),
            r.table() == Seq::<Reservation>::empty(),
            r.spec_next_id() == 1,
    {
        let r = ReservationManager { rsvps: Vec::new(), next_id: 1 };
        proof {
            assert(r.table() =~= Seq::<Reservation>::empty());
        }
        r
    }

    /// Executable search for the row with a given id.
    fn find_index(&self, id: i64) -> (r: usize)
        ensures
            r == spec_find_id(self.table(), id, 0),
            r <= self.table().len(),
    {
        let n = self.rsvps.len();
        let mut j: usize = 0;
        while j < n && self.rsvps[j].id != id
            invariant
                j <= n,
                n == self.table().len(),
                spec_find_id(self.table(), id, 0) == spec_find_id(self.table(), id, j as int),
            decreases n - j,
        {
            j += 1;
        }
        proof {
            assert(spec_find_id(self.table(), id, j as int) == j);
        }
        j
    }

    /// Fetches the reservation with the given id. Fails with
    /// `InvalidReservationId` on a non-positive id — before any store
    /// access — and with `NotFound` when no row has that id.
    pub fn get(&self, id: i64) -> (r: Result<Reservation, Error>)
        requires
            self.inv(),
        ensures
            ({
                let t = self.table();
                let k = spec_find_id(t, id, 0);
                if id <= 0 {
                    (r matches Err(e) && e == Error::InvalidReservationId(id))
                } else if k < t.len() {
                    r == Ok::<Reservation, Error>(t[k])
                } else {
                    r == Err::<Reservation, Error>(Error::NotFound)
                }
            }),
    {
        if id <= 0 {
            return Err(Error::InvalidReservationId(id));
        }
        let k = self.find_index(id);
        if k < self.rsvps.len() {
            Ok(clone_rsvp(&self.rsvps[k]))
        } else {
            Err(Error::NotFound)
        }
    }

    /// Deletes the row with the given id. Idempotent from the caller's
    /// side: deleting an absent id succeeds, since "no longer present" is
    /// the operation's own success; only validation of a non-positive id
    /// is still reported.
    pub fn delete(&mut self, id: i64) -> (r: Result<(), Error>)
        requires
            old(self).inv(),
        ensures
            final(self).inv(),
            final(self).spec_next_id() == old(self).spec_next_id(),
            ({
                let t = old(self).table();
                let k = spec_find_id(t, id, 0);
                if id <= 0 {
                    final(self).table() == t && (r matches Err(e) && e
                        == Error::InvalidReservationId(id))
                } else if k < t.len() {
                    final(self).table() == t.remove(k) && r == Ok::<(), Error>(())
                } else {
                    final(self).table() == t && r == Ok::<(), Error>(())
                }
            }),
    {
        if id <= 0 {
            return Err(Error::InvalidReservationId(id));
        }
        let k = self.find_index(id);
        if k < self.rsvps.len() {
            self.rsvps.remove(k);
            proof {
                let t = old(self).table();
                assert forall|i: int, j: int| 0 <= i < j < self.table().len() implies (
                #[trigger] self.table()[i]).id < (#[trigger] self.table()[j]).id by {
                    assert(self.table()[i] == if i < k {
                        t[i]
                    } else {
                        t[i + 1]
                    });
                    assert(self.table()[j] == if j < k {
                        t[j]
                    } else {
                        t[j + 1]
                    });
                }
                assert forall|i: int|
                    0 <= i < self.table().len() implies spec_row_wf(#[trigger] self.table()[i])
                    && self.table()[i].id < self.spec_next_id() by {
                    assert(self.table()[i] == if i < k {
                        t[i]
                    } else {
                        t[i + 1]
                    });
                }
                assert forall|i: int, j: int|
                    0 <= i < j < self.table().len() && spec_active_tag(
                        (#[trigger] self.table()[i]).status,
                    ) && spec_active_tag((#[trigger] self.table()[j]).status) && self.table()[
                    i].resource_id@ == self.table()[j].resource_id@ implies !spec_overlap(
                    self.table()[i],
                    self.table()[j],
                ) by {
                    assert(self.table()[i] == if i < k {
                        t[i]
                    } else {
                        t[i + 1]
                    });
                    assert(self.table()[j] == if j < k {
                        t[j]
                    } else {
                        t[j + 1]
                    });
                }
            }
        }
        Ok(())
    }

    /// Confirms the reservation with the given id exactly when it is
    /// currently pending. Fails with `NotFound` when no row is both
    /// present and pending — deliberately indistinguishable from a missing
    /// id, so callers cannot probe existence through it.
    pub fn change_status(&mut self, id: i64) -> (r: Result<Reservation, Error>)
        requires
            old(self).inv(),
        ensures
            final(self).inv(),
            final(self).spec_next_id() == old(self).spec_next_id(),
            ({
                let t = old(self).table();
                let k = spec_find_id(t, id, 0);
                if id <= 0 {
                    final(self).table() == t && (r matches Err(e) && e
                        == Error::InvalidReservationId(id))
                } else if k < t.len() && t[k].status == 1 {
                    ({
                        let updated = Reservation { status: 2, ..t[k] };
                        final(self).table() == t.update(k, updated) && r == Ok::<
                            Reservation,
                            Error,
                        >(updated)
                    })
                } else {
                    final(self).table() == t && r == Err::<Reservation, Error>(Error::NotFound)
                }
            }),
    {
        if id <= 0 {
            return Err(Error::InvalidReservationId(id));
        }
        let k = self.find_index(id);
        if k < self.rsvps.len() && self.rsvps[k].status == 1 {
            let mut updated = clone_rsvp(&self.rsvps[k]);
            updated.status = 2;
            let out = clone_rsvp(&updated);
            self.rsvps.set(k, updated);
            proof {
                lemma_update_preserves_inv(old(self).table(), self.table(), k as int, *old(self), *self);
            }
            Ok(out)
        } else {
            Err(Error::NotFound)
        }
    }

    /// Replaces the note of the reservation with the given id and returns
    /// the updated row; the note is mutable at any status. Fails with
    /// `NotFound` when the id is absent.
    pub fn update_note(&mut self, id: i64, note: String) -> (r: Result<Reservation, Error>)
        requires
            old(self).inv(),
        ensures
            final(self).inv(),
            final(self).spec_next_id() == old(self).spec_next_id(),
            ({
                let t = old(self).table();
                let k = spec_find_id(t, id, 0);
                if id <= 0 {
                    final(self).table() == t && (r matches Err(e) && e
                        == Error::InvalidReservationId(id))
                } else if k < t.len() {
                    ({
                        let updated = Reservation { note: note, ..t[k] };
                        final(self).table() == t.update(k, updated) && r == Ok::<
                            Reservation,
                            Error,
                        >(updated)
                    })
                } else {
                    final(self).table() == t && r == Err::<Reservation, Error>(Error::NotFound)
                }
            }),
    {
        if id <= 0 {
            return Err(Error::InvalidReservationId(id));
        }
        let k = self.find_index(id);
        if k < self.rsvps.len() {
            let mut updated = clone_rsvp(&self.rsvps[k]);
            updated.note = note;
            let out = clone_rsvp(&updated);
            self.rsvps.set(k, updated);
            proof {
                lemma_update_preserves_inv(old(self).table(), self.table(), k as int, *old(self), *self);
            }
            Ok(out)
        } else {
            Err(Error::NotFound)
        }
    }
}

/// The row the store holds for an accepted insert: the assigned id and the
/// decoded status tag — an unset or unrecognized inbound tag is stored as
/// `Pending`, the documented default.
pub open spec fn spec_stored_row(rsvp: Reservation, id: i64) -> Reservation {
    Reservation { id: id, status: RsvpStatus::spec_from_tag(rsvp.status).spec_tag(), ..rsvp }
}

/// The `(resource, [start, end))` window of a row, as the diagnostic
/// reports it. Meaningful only for rows with a present window.
pub open spec fn spec_row_window(r: Reservation) -> WindowView {
    WindowView { rid: r.resource_id@, start: r.start->Some_0, end: r.end->Some_0 }
}

/// Executable test of `spec_conflicts`: whether an existing row excludes
/// the insert of `new`.
fn conflicts_with(row: &Reservation, new: &Reservation) -> (r: bool)
    requires
        spec_range_ok(row.start, row.end),
        spec_range_ok(new.start, new.end),
    ensures
        r == spec_conflicts(*row, *new),
{
    if !(row.status == 1 || row.status == 2) {
        return false;
    }
    if !crate::str_eq(row.resource_id.as_str(), new.resource_id.as_str()) {
        return false;
    }
    match (&row.start, &row.end, &new.start, &new.end) {
        (Some(rs), Some(re), Some(ns), Some(ne)) => rs.lt(ne) && ns.lt(re),
        _ => vstd::pervasive::unreached(),
    }
}

/// The present, valid bound of a well-formed window.
fn unwrap_dt(o: &Option<DateTimeUtc>) -> (d: DateTimeUtc)
    requires
        o is Some,
    ensures
        Some(d) == *o,
{
    match o {
        Some(d) => *d,
        None => vstd::pervasive::unreached(),
    }
}

impl ReservationManager {
    /// Inserts a new reservation: validates it locally, decodes its status
    /// with the `Pending` default, lets the store's atomic exclusion check
    /// run against the active rows of the same resource, and on acceptance
    /// returns the entity with its assigned id. On an overlap the store's
    /// diagnostic is routed through the conflict parser and surfaced as
    /// `ConflictReservation`; the first excluding row in table order is
    /// the one reported.
    pub fn reserve(&mut self, rsvp: Reservation) -> (r: Result<Reservation, Error>)
        requires
            old(self).inv(),
            old(self).spec_next_id() < i64::MAX,
        ensures
            final(self).inv(),
            ({
                let t = old(self).table();
                let stored = spec_stored_row(rsvp, old(self).spec_next_id() as i64);
                let k = spec_find_conflict(t, stored, 0);
                if !rsvp.spec_valid() {
                    &&& final(self).table() == t
                    &&& final(self).spec_next_id() == old(self).spec_next_id()
                    &&& (r matches Err(e) && e == rsvp.spec_error())
                } else if spec_active_tag(stored.status) && k < t.len() {
                    &&& final(self).table() == t
                    &&& final(self).spec_next_id() == old(self).spec_next_id()
                    &&& (r matches Err(e) && e matches Error::ConflictReservation(info) && info@
                        == spec_conflict_info(
                        spec_conflict_detail(spec_row_window(stored), spec_row_window(t[k])),
                    ))
                } else {
                    &&& final(self).table() == t.push(stored)
                    &&& final(self).spec_next_id() == old(self).spec_next_id() + 1
                    &&& (r matches Ok(out) && out == Reservation { id: stored.id, ..rsvp })
                }
            }),
    {
        if let Err(e) = rsvp.validate() {
            return Err(e);
        }
        let status = RsvpStatus::from_tag(rsvp.status);
        let norm = status.tag();
        let id = self.next_id;
        let stored = Reservation {
            id,
            user_id: rsvp.user_id.clone(),
            resource_id: rsvp.resource_id.clone(),
            start: rsvp.start,
            end: rsvp.end,
            note: rsvp.note.clone(),
            status: norm,
        };
        proof {
            assert(stored == spec_stored_row(rsvp, old(self).spec_next_id() as i64));
        }
        if status.is_active() {
            let n = self.rsvps.len();
            let mut j: usize = 0;
            while j < n && !conflicts_with(&self.rsvps[j], &stored)
                invariant
                    self == old(self),
                    self.inv(),
                    spec_range_ok(stored.start, stored.end),
                    j <= n,
                    n == self.table().len(),
                    spec_find_conflict(self.table(), stored, 0) == spec_find_conflict(
                        self.table(),
                        stored,
                        j as int,
                    ),
                decreases n - j,
            {
                j += 1;
            }
            proof {
                assert(spec_find_conflict(self.table(), stored, j as int) == j);
            }
            if j < n {
                let row = &self.rsvps[j];
                let neww = ResrvationWindow {
                    rid: rsvp.resource_id.clone(),
                    start: unwrap_dt(&rsvp.start),
                    end: unwrap_dt(&rsvp.end),
                };
                let oldw = ResrvationWindow {
                    rid: row.resource_id.clone(),
                    start: unwrap_dt(&row.start),
                    end: unwrap_dt(&row.end),
                };
                proof {
                    assert(neww@ == spec_row_window(stored));
                    assert(oldw@ == spec_row_window(old(self).table()[j as int]));
                }
                let detail = format_conflict_detail(&neww, &oldw);
                let err = Error::from_db_failure(
                    DbFailure::Database {
                        code: String::from_str("23P01"),
                        schema: Some(String::from_str("rsvp")),
                        table: Some(String::from_str("reservations")),
                        detail,
                        message: String::from_str(
                            "conflicting key value violates exclusion constraint",
                        ),
                    },
                );
                return Err(err);
            }
        }
        let ghost t = old(self).table();
        self.rsvps.push(stored);
        self.next_id = id + 1;
        proof {
            let t2 = self.table();
            assert forall|i: int, j: int| 0 <= i < j < t2.len() implies (#[trigger] t2[i]).id < (
            #[trigger] t2[j]).id by {
                assert(t2[i] == if i < t.len() {
                    t[i]
                } else {
                    spec_stored_row(rsvp, id)
                });
                assert(t2[j] == if j < t.len() {
                    t[j]
                } else {
                    spec_stored_row(rsvp, id)
                });
            }
            assert forall|i: int| 0 <= i < t2.len() implies spec_row_wf(#[trigger] t2[i]) && t2[
                i
            ].id < self.spec_next_id() by {
                assert(t2[i] == if i < t.len() {
                    t[i]
                } else {
                    spec_stored_row(rsvp, id)
                });
            }
            assert forall|i: int, j: int|
                0 <= i < j < t2.len() && spec_active_tag((#[trigger] t2[i]).status)
                    && spec_active_tag((#[trigger] t2[j]).status) && t2[i].resource_id@ == t2[
                j].resource_id@ implies !spec_overlap(t2[i], t2[j]) by {
                assert(t2[i] == if i < t.len() {
                    t[i]
                } else {
                    spec_stored_row(rsvp, id)
                });
                assert(t2[j] == if j < t.len() {
                    t[j]
                } else {
                    spec_stored_row(rsvp, id)
                });
                if j == t.len() && spec_active_tag(spec_stored_row(rsvp, id).status) {
                    lemma_find_conflict(t, spec_stored_row(rsvp, id), 0);
                }
            }
        }
        let mut out = rsvp;
        out.id = id;
        Ok(out)
    }
}

// ---------------------------------------------------------------------------
// Read paths
// ---------------------------------------------------------------------------
/// The store's page-size rule, shared by both read paths: a requested size
/// outside `[10, 100]` is reset to the default 10 — not clamped to the
/// nearest bound.
pub open spec fn spec_clamped_page_size(psz: i32) -> int {
    if 10 <= psz && psz <= 100 {
        psz as int
    } else {
        10
    }
}

/// A row matches a query when the named user and resource match (empty
/// meaning unconstrained), its decoded status equals the query's decoded
/// status — both sides falling back to `Pending` — and its window lies
/// inside the query's window (a missing bound is unconstrained).
pub open spec fn spec_query_pred(row: Reservation, q: ReservationQuery) -> bool {
    &&& (q.user_id@.len() == 0 || row.user_id@ == q.user_id@)
    &&& (q.resource_id@.len() == 0 || row.resource_id@ == q.resource_id@)
    &&& RsvpStatus::spec_from_tag(row.status) == RsvpStatus::spec_from_tag(q.status)
    &&& (q.start matches Some(s) ==> s.key() <= row.start->Some_0.key())
    &&& (q.end matches Some(e) ==> row.end->Some_0.key() <= e.key())
}

/// The rows matching a query, in ascending id order.
pub open spec fn spec_query_matching(t: Seq<Reservation>, q: ReservationQuery) -> Seq<
    Reservation,
> {
    t.filter(|row: Reservation| spec_query_pred(row, q))
}

/// One collection step of `spec_query_matching`.
proof fn lemma_query_matching_push(t: Seq<Reservation>, q: ReservationQuery, row: Reservation)
    ensures
        spec_query_matching(t.push(row), q) == if spec_query_pred(row, q) {
            spec_query_matching(t, q).push(row)
        } else {
            spec_query_matching(t, q)
        },
{
    reveal(Seq::filter);
    assert(t.push(row).drop_last() =~= t);
    assert(t.push(row).last() == row);
}

/// The offset-style query result: the matching rows ordered by id per
/// `desc`, then the page `page` of `page_size` rows (both store defaults
/// applied: a page below 1 reads as 1, a size outside `[10, 100]` as 10).
pub open spec fn spec_query(t: Seq<Reservation>, q: ReservationQuery) -> Seq<Reservation> {
    let m0 = spec_query_matching(t, q);
    let m = if q.desc {
        m0.reverse()
    } else {
        m0
    };
    let psz = spec_clamped_page_size(q.page_size);
    let page = if q.page < 1 {
        1int
    } else {
        q.page as int
    };
    let off = (page - 1) * psz;
    if off >= m.len() {
        Seq::empty()
    } else if off + psz >= m.len() {
        m.skip(off)
    } else {
        m.subrange(off, off + psz)
    }
}

/// Every matching row satisfies the query's predicate.
pub proof fn lemma_query_matching_pred(t: Seq<Reservation>, q: ReservationQuery, i: int)
    requires
        0 <= i < spec_query_matching(t, q).len(),
    ensures
        spec_query_pred(spec_query_matching(t, q)[i], q),
    decreases t.len(),
{
    reveal(Seq::filter);
    if t.len() > 0 {
        let md = spec_query_matching(t.drop_last(), q);
        assert(spec_query_matching(t, q) == if spec_query_pred(t.last(), q) {
            md.push(t.last())
        } else {
            md
        });
        if !(spec_query_pred(t.last(), q) && i == md.len()) {
            lemma_query_matching_pred(t.drop_last(), q, i);
        }
    }
}

/// Law: an offset-style query page holds only rows that match the query's
/// user, resource, status and window predicate.
pub proof fn lemma_query_page_matches(t: Seq<Reservation>, q: ReservationQuery)
    ensures
        forall|i: int|
            0 <= i < spec_query(t, q).len() ==> spec_query_pred(
                #[trigger] spec_query(t, q)[i],
                q,
            ),
{
    let m0 = spec_query_matching(t, q);
    let m = if q.desc {
        m0.reverse()
    } else {
        m0
    };
    let page = spec_query(t, q);
    assert forall|i: int| 0 <= i < m.len() implies spec_query_pred(#[trigger] m[i], q) by {
        let i0 = if q.desc {
            m0.len() - 1 - i
        } else {
            i
        };
        assert(m[i] == m0[i0]);
        lemma_query_matching_pred(t, q, i0);
    }
    let psz = spec_clamped_page_size(q.page_size);
    let pg = if q.page < 1 {
        1int
    } else {
        q.page as int
    };
    let off = (pg - 1) * psz;
    assert forall|i: int| 0 <= i < page.len() implies spec_query_pred(#[trigger] page[i], q) by {
        if off < m.len() {
            assert(page[i] == m[off + i]);
        }
    }
}

/// Law: an offset-style query page never exceeds the effective page size.
pub proof fn lemma_query_page_within_size(t: Seq<Reservation>, q: ReservationQuery)
    ensures
        spec_query(t, q).len() <= spec_clamped_page_size(q.page_size),
{
}

/// Executable test of `spec_query_pred`.
fn query_matches(row: &Reservation, q: &ReservationQuery) -> (r: bool)
    requires
        row.start is Some,
        row.end is Some,
    ensures
        r == spec_query_pred(*row, *q),
{
    if let Some(uid) = crate::str_to_option(q.user_id.as_str()) {
        if !crate::str_eq(row.user_id.as_str(), uid) {
            return false;
        }
    }
    if let Some(rid) = crate::str_to_option(q.resource_id.as_str()) {
        if !crate::str_eq(row.resource_id.as_str(), rid) {
            return false;
        }
    }
    let row_status = RsvpStatus::from_tag(row.status);
    let q_status = RsvpStatus::from_tag(q.status);
    if row_status != q_status {
        return false;
    }
    let rs = unwrap_dt(&row.start);
    let re = unwrap_dt(&row.end);
    if let Some(s) = &q.start {
        if rs.lt(s) {
            return false;
        }
    }
    if let Some(e) = &q.end {
        if e.lt(&re) {
            return false;
        }
    }
    true
}

/// A row matches a filter when the named user and resource match (empty
/// meaning unconstrained) and its decoded status equals the filter's
/// decoded status, both falling back to `Pending`.
pub open spec fn spec_filter_pred(row: Reservation, f: ReservationFilter) -> bool {
    &&& (f.user_id@.len() == 0 || row.user_id@ == f.user_id@)
    &&& (f.resource_id@.len() == 0 || row.resource_id@ == f.resource_id@)
    &&& RsvpStatus::spec_from_tag(row.status) == RsvpStatus::spec_from_tag(f.status)
}

/// The rows matching a filter, in ascending id order.
pub open spec fn spec_filter_matching(t: Seq<Reservation>, f: ReservationFilter) -> Seq<
    Reservation,
> {
    t.filter(|row: Reservation| spec_filter_pred(row, f))
}

/// One collection step of `spec_filter_matching`.
proof fn lemma_filter_matching_push(t: Seq<Reservation>, f: ReservationFilter, row: Reservation)
    ensures
        spec_filter_matching(t.push(row), f) == if spec_filter_pred(row, f) {
            spec_filter_matching(t, f).push(row)
        } else {
            spec_filter_matching(t, f)
        },
{
    reveal(Seq::filter);
    assert(t.push(row).drop_last() =~= t);
    assert(t.push(row).last() == row);
}

/// Executable test of `spec_filter_pred`.
fn filter_matches(row: &Reservation, f: &ReservationFilter) -> (r: bool)
    ensures
        r == spec_filter_pred(*row, *f),
{
    if let Some(uid) = crate::str_to_option(f.user_id.as_str()) {
        if !crate::str_eq(row.user_id.as_str(), uid) {
            return false;
        }
    }
    if let Some(rid) = crate::str_to_option(f.resource_id.as_str()) {
        if !crate::str_eq(row.resource_id.as_str(), rid) {
            return false;
        }
    }
    let row_status = RsvpStatus::from_tag(row.status);
    let f_status = RsvpStatus::from_tag(f.status);
    row_status == f_status
}

/// The cursor the ranged read actually starts from: an unset or negative
/// cursor reads from the low end ascending and from the high end
/// descending.
pub open spec fn spec_effective_cursor(f: ReservationFilter) -> int {
    if f.cursor <= 0 {
        if f.desc {
            i64::MAX as int
        } else {
            0
        }
    } else {
        f.cursor as int
    }
}

/// The echoed cursor row: the matching rows whose id equals the effective
/// cursor (at most one, since ids are unique).
pub open spec fn spec_echo(m: Seq<Reservation>, ec: int) -> Seq<Reservation> {
    m.filter(|r: Reservation| r.id == ec)
}

/// One step of `spec_echo`.
proof fn lemma_echo_push(m: Seq<Reservation>, ec: int, row: Reservation)
    ensures
        spec_echo(m.push(row), ec) == if row.id == ec {
            spec_echo(m, ec).push(row)
        } else {
            spec_echo(m, ec)
        },
{
    reveal(Seq::filter);
    assert(m.push(row).drop_last() =~= m);
    assert(m.push(row).last() == row);
}

/// The rows past the effective cursor in the requested direction.
pub open spec fn spec_after(m: Seq<Reservation>, ec: int, desc: bool) -> Seq<Reservation> {
    m.filter(
        |r: Reservation|
            if desc {
                r.id < ec
            } else {
                r.id > ec
            },
    )
}

/// One step of `spec_after`.
proof fn lemma_after_push(m: Seq<Reservation>, ec: int, desc: bool, row: Reservation)
    ensures
        spec_after(m.push(row), ec, desc) == if (if desc {
            row.id < ec
        } else {
            row.id > ec
        }) {
            spec_after(m, ec, desc).push(row)
        } else {
            spec_after(m, ec, desc)
        },
{
    reveal(Seq::filter);
    assert(m.push(row).drop_last() =~= m);
    assert(m.push(row).last() == row);
}

/// At most the first `k` elements.
pub open spec fn take_at_most(s: Seq<Reservation>, k: int) -> Seq<Reservation> {
    if s.len() <= k {
        s
    } else {
        s.take(k)
    }
}

/// What the store's lookahead-capable ranged read returns: the matching
/// rows ordered by id in the requested direction, starting at the
/// effective cursor inclusive — the cursor row itself when it matches,
/// plus up to `page_size + 1` rows past it.
pub open spec fn spec_fetch(t: Seq<Reservation>, f: ReservationFilter) -> Seq<Reservation> {
    let m0 = spec_filter_matching(t, f);
    let m = if f.desc {
        m0.reverse()
    } else {
        m0
    };
    let ec = spec_effective_cursor(f);
    spec_echo(m, ec) + take_at_most(
        spec_after(m, ec, f.desc),
        spec_clamped_page_size(f.page_size) + 1,
    )
}

/// The lookahead pagination step over the fetched rows: an echoed cursor
/// row signals a previous page and is dropped from the front; more than
/// `page_size` remaining rows signal a next page and the lookahead row is
/// dropped from the back. `prev` / `next` carry the cursors to use, `-1`
/// when absent; `total` is always unset.
pub open spec fn spec_filter_page(rows: Seq<Reservation>, f: ReservationFilter) -> (
    FilterPager,
    Seq<Reservation>,
) {
    let psz = spec_clamped_page_size(f.page_size);
    let has_prev = rows.len() > 0 && rows[0].id == f.cursor;
    let start = if has_prev {
        1int
    } else {
        0int
    };
    let has_next = rows.len() - start > psz;
    let end = if has_next {
        rows.len() - 1
    } else {
        rows.len() as int
    };
    (
        FilterPager {
            prev: if has_prev {
                rows[start - 1].id
            } else {
                -1i64
            },
            next: if has_next {
                rows[end - 1].id
            } else {
                -1i64
            },
            total: 0,
        },
        rows.subrange(start, end),
    )
}

/// The whole cursor-filter result.
pub open spec fn spec_filter_result(t: Seq<Reservation>, f: ReservationFilter) -> (
    FilterPager,
    Seq<Reservation>,
) {
    spec_filter_page(spec_fetch(t, f), f)
}

/// Every matching row is a row of the table.
pub proof fn lemma_filter_matching_elem(t: Seq<Reservation>, f: ReservationFilter, i: int)
    requires
        0 <= i < spec_filter_matching(t, f).len(),
    ensures
        exists|k: int| 0 <= k < t.len() && t[k] == spec_filter_matching(t, f)[i],
    decreases t.len(),
{
    reveal(Seq::filter);
    if t.len() > 0 {
        let md = spec_filter_matching(t.drop_last(), f);
        assert(spec_filter_matching(t, f) == if spec_filter_pred(t.last(), f) {
            md.push(t.last())
        } else {
            md
        });
        if spec_filter_pred(t.last(), f) && i == md.len() {
            assert(t[t.len() - 1] == spec_filter_matching(t, f)[i]);
        } else {
            lemma_filter_matching_elem(t.drop_last(), f, i);
            let k = choose|k: int| 0 <= k < t.drop_last().len() && t.drop_last()[k] == md[i];
            assert(t[k] == spec_filter_matching(t, f)[i]);
        }
    }
}

/// Matching keeps the table's strictly ascending id order.
pub proof fn lemma_filter_matching_sorted(t: Seq<Reservation>, f: ReservationFilter)
    requires
        forall|i: int, j: int| 0 <= i < j < t.len() ==> (#[trigger] t[i]).id < (#[trigger] t[j]).id,
    ensures
        forall|i: int, j: int|
            0 <= i < j < spec_filter_matching(t, f).len() ==> (#[trigger] spec_filter_matching(
                t,
                f,
            )[i]).id < (#[trigger] spec_filter_matching(t, f)[j]).id,
    decreases t.len(),
{
    reveal(Seq::filter);
    if t.len() > 0 {
        let m = spec_filter_matching(t, f);
        let md = spec_filter_matching(t.drop_last(), f);
        assert forall|i: int, j: int|
            0 <= i < j < t.drop_last().len() implies (#[trigger] t.drop_last()[i]).id < (
        #[trigger] t.drop_last()[j]).id by {
            assert(t.drop_last()[i] == t[i] && t.drop_last()[j] == t[j]);
        }
        lemma_filter_matching_sorted(t.drop_last(), f);
        assert(m == if spec_filter_pred(t.last(), f) {
            md.push(t.last())
        } else {
            md
        });
        assert forall|i: int| 0 <= i < md.len() implies (#[trigger] md[i]).id < t.last().id by {
            lemma_filter_matching_elem(t.drop_last(), f, i);
            let k = choose|k: int| 0 <= k < t.drop_last().len() && t.drop_last()[k] == md[i];
            assert(t[k].id < t[t.len() - 1].id);
        }
    }
}

/// Every echoed row is a fetched-from row whose id is the effective
/// cursor.
pub proof fn lemma_echo_elem(m: Seq<Reservation>, ec: int, i: int)
    requires
        0 <= i < spec_echo(m, ec).len(),
    ensures
        spec_echo(m, ec)[i].id == ec,
        exists|k: int| 0 <= k < m.len() && m[k] == spec_echo(m, ec)[i],
    decreases m.len(),
{
    reveal(Seq::filter);
    if m.len() > 0 {
        let ed = spec_echo(m.drop_last(), ec);
        assert(spec_echo(m, ec) == if m.last().id == ec {
            ed.push(m.last())
        } else {
            ed
        });
        if m.last().id == ec && i == ed.len() {
            assert(m[m.len() - 1] == spec_echo(m, ec)[i]);
        } else {
            lemma_echo_elem(m.drop_last(), ec, i);
            let k = choose|k: int| 0 <= k < m.drop_last().len() && m.drop_last()[k] == ed[i];
            assert(m[k] == spec_echo(m, ec)[i]);
        }
    }
}

/// Every matching row satisfies the filter's predicate.
pub proof fn lemma_filter_matching_pred(t: Seq<Reservation>, f: ReservationFilter, i: int)
    requires
        0 <= i < spec_filter_matching(t, f).len(),
    ensures
        spec_filter_pred(spec_filter_matching(t, f)[i], f),
    decreases t.len(),
{
    reveal(Seq::filter);
    if t.len() > 0 {
        let md = spec_filter_matching(t.drop_last(), f);
        assert(spec_filter_matching(t, f) == if spec_filter_pred(t.last(), f) {
            md.push(t.last())
        } else {
            md
        });
        if !(spec_filter_pred(t.last(), f) && i == md.len()) {
            lemma_filter_matching_pred(t.drop_last(), f, i);
        }
    }
}

/// Every row past the cursor is a fetched-from row on the requested side
/// of the effective cursor.
pub proof fn lemma_after_elem(m: Seq<Reservation>, ec: int, desc: bool, i: int)
    requires
        0 <= i < spec_after(m, ec, desc).len(),
    ensures
        if desc {
            spec_after(m, ec, desc)[i].id < ec
        } else {
            spec_after(m, ec, desc)[i].id > ec
        },
        exists|k: int| 0 <= k < m.len() && m[k] == spec_after(m, ec, desc)[i],
    decreases m.len(),
{
    reveal(Seq::filter);
    if m.len() > 0 {
        let ad = spec_after(m.drop_last(), ec, desc);
        let keep_last: bool = if desc {
            m.last().id < ec
        } else {
            m.last().id > ec
        };
        assert(spec_after(m, ec, desc) == if keep_last {
            ad.push(m.last())
        } else {
            ad
        });
        if keep_last && i == ad.len() {
            assert(m[m.len() - 1] == spec_after(m, ec, desc)[i]);
        } else {
            lemma_after_elem(m.drop_last(), ec, desc, i);
            let k = choose|k: int| 0 <= k < m.drop_last().len() && m.drop_last()[k] == ad[i];
            assert(m[k] == spec_after(m, ec, desc)[i]);
        }
    }
}

/// Law: a filtered page holds only rows that match the filter's
/// user, resource and status predicate.
pub proof fn lemma_filter_page_matches(t: Seq<Reservation>, f: ReservationFilter)
    ensures
        forall|i: int|
            0 <= i < spec_filter_result(t, f).1.len() ==> spec_filter_pred(
                #[trigger] spec_filter_result(t, f).1[i],
                f,
            ),
{
    let m0 = spec_filter_matching(t, f);
    let m = if f.desc {
        m0.reverse()
    } else {
        m0
    };
    let ec = spec_effective_cursor(f);
    let k = spec_clamped_page_size(f.page_size) + 1;
    let rows = spec_fetch(t, f);
    let page = spec_filter_result(t, f).1;
    assert forall|i: int| 0 <= i < m.len() implies spec_filter_pred(#[trigger] m[i], f) by {
        let i0 = if f.desc {
            m0.len() - 1 - i
        } else {
            i
        };
        assert(m[i] == m0[i0]);
        lemma_filter_matching_pred(t, f, i0);
    }
    assert forall|i: int| 0 <= i < rows.len() implies spec_filter_pred(#[trigger] rows[i], f) by {
        let echo = spec_echo(m, ec);
        let a = spec_after(m, ec, f.desc);
        if i < echo.len() {
            lemma_echo_elem(m, ec, i);
            let w = choose|w: int| 0 <= w < m.len() && m[w] == echo[i];
            assert(rows[i] == m[w]);
        } else {
            let j = i - echo.len();
            assert(rows[i] == take_at_most(a, k)[j]);
            assert(take_at_most(a, k)[j] == a[j]);
            lemma_after_elem(m, ec, f.desc, j);
            let w = choose|w: int| 0 <= w < m.len() && m[w] == a[j];
            assert(rows[i] == m[w]);
        }
    }
    assert forall|i: int| 0 <= i < page.len() implies spec_filter_pred(#[trigger] page[i], f) by {
        let psz = spec_clamped_page_size(f.page_size);
        let has_prev = rows.len() > 0 && rows[0].id == f.cursor;
        let start = if has_prev {
            1int
        } else {
            0int
        };
        assert(page[i] == rows[start + i]);
    }
}

/// With no row carrying the effective cursor id, nothing is echoed.
proof fn lemma_echo_empty(m: Seq<Reservation>, ec: int)
    requires
        forall|i: int| 0 <= i < m.len() ==> (#[trigger] m[i]).id != ec,
    ensures
        spec_echo(m, ec).len() == 0,
    decreases m.len(),
{
    reveal(Seq::filter);
    if m.len() > 0 {
        assert forall|i: int| 0 <= i < m.drop_last().len() implies (#[trigger] m.drop_last()[
        i]).id != ec by {
            assert(m.drop_last()[i] == m[i]);
        }
        lemma_echo_empty(m.drop_last(), ec);
    }
}

/// With pairwise distinct ids, at most one row is echoed.
proof fn lemma_echo_le_one(m: Seq<Reservation>, ec: int)
    requires
        forall|i: int, j: int|
            0 <= i < j < m.len() ==> (#[trigger] m[i]).id != (#[trigger] m[j]).id,
    ensures
        spec_echo(m, ec).len() <= 1,
    decreases m.len(),
{
    reveal(Seq::filter);
    if m.len() > 0 {
        let md = m.drop_last();
        assert forall|i: int, j: int| 0 <= i < j < md.len() implies (#[trigger] md[i]).id != (
        #[trigger] md[j]).id by {
            assert(md[i] == m[i] && md[j] == m[j]);
        }
        lemma_echo_le_one(md, ec);
        if m.last().id == ec {
            assert forall|i: int| 0 <= i < md.len() implies (#[trigger] md[i]).id != ec by {
                assert(md[i] == m[i] && m[i].id != m[m.len() - 1].id);
            }
            lemma_echo_empty(md, ec);
        }
    }
}

/// Law: a filtered page never exceeds the effective page size. The
/// lookahead and the echoed cursor row are both dropped before the page is
/// returned, so callers see at most `page_size` rows per call.
pub proof fn lemma_filter_page_within_size(t: Seq<Reservation>, next_id: int, f: ReservationFilter)
    requires
        spec_table_wf(t, next_id),
    ensures
        spec_filter_result(t, f).1.len() <= spec_clamped_page_size(f.page_size),
{
    let m0 = spec_filter_matching(t, f);
    let m = if f.desc {
        m0.reverse()
    } else {
        m0
    };
    let ec = spec_effective_cursor(f);
    let psz = spec_clamped_page_size(f.page_size);
    let rows = spec_fetch(t, f);
    lemma_filter_matching_sorted(t, f);
    assert forall|i: int| 0 <= i < m.len() implies 1 <= (#[trigger] m[i]).id < next_id by {
        let i0 = if f.desc {
            m0.len() - 1 - i
        } else {
            i
        };
        assert(m[i] == m0[i0]);
        lemma_filter_matching_elem(t, f, i0);
        let k = choose|k: int| 0 <= k < t.len() && t[k] == m0[i0];
        assert(spec_row_wf(t[k]) && t[k].id < next_id);
    }
    assert forall|i: int, j: int| 0 <= i < j < m.len() implies (#[trigger] m[i]).id != (
    #[trigger] m[j]).id by {
        if f.desc {
            assert(m[i] == m0[m0.len() - 1 - i] && m[j] == m0[m0.len() - 1 - j]);
        }
    }
    lemma_echo_le_one(m, ec);
    let echo = spec_echo(m, ec);
    let after = take_at_most(spec_after(m, ec, f.desc), psz + 1);
    assert(rows == echo + after);
    assert(rows.len() <= psz + 2);
    let has_prev = rows.len() > 0 && rows[0].id == f.cursor;
    if !has_prev && echo.len() > 0 {
        lemma_echo_elem(m, ec, 0);
        assert(rows[0] == echo[0]);
        assert(rows[0].id == ec);
        if f.cursor > 0 {
            assert(ec == f.cursor);
            assert(false);
        } else {
            let k = choose|k: int| 0 <= k < m.len() && m[k] == echo[0];
            assert(1 <= echo[0].id < next_id);
            assert(false);
        }
    }
}

/// Copies the rows of `[from, to)` into a fresh vector.
fn slice_rows(v: &Vec<Reservation>, from: usize, to: usize) -> (out: Vec<Reservation>)
    requires
        from <= to <= v@.len(),
    ensures
        out@ == v@.subrange(from as int, to as int),
{
    let mut out: Vec<Reservation> = Vec::new();
    let mut i = from;
    while i < to
        invariant
            from <= i <= to <= v@.len(),
            out@ == v@.subrange(from as int, i as int),
        decreases to - i,
    {
        out.push(clone_rsvp(&v[i]));
        proof {
            assert(v@.subrange(from as int, i + 1) =~= v@.subrange(from as int, i as int).push(
                v@[i as int],
            ));
        }
        i += 1;
    }
    out
}

/// Reverses the rows into a fresh vector.
fn reverse_rows(v: &Vec<Reservation>) -> (out: Vec<Reservation>)
    ensures
        out@ == v@.reverse(),
{
    let n = v.len();
    let mut out: Vec<Reservation> = Vec::new();
    let mut i = n;
    while i > 0
        invariant
            i <= n,
            n == v@.len(),
            out@.len() == n - i,
            forall|j: int| 0 <= j < out@.len() ==> out@[j] == v@[n - 1 - j],
        decreases i,
    {
        i -= 1;
        out.push(clone_rsvp(&v[i]));
    }
    proof {
        assert(out@ =~= v@.reverse());
    }
    out
}

impl ReservationManager {
    /// Collects the rows matching a query, in ascending id order.
    fn collect_query_matching(&self, q: &ReservationQuery) -> (out: Vec<Reservation>)
        requires
            self.inv(),
        ensures
            out@ == spec_query_matching(self.table(), *q),
    {
        let n = self.rsvps.len();
        let mut out: Vec<Reservation> = Vec::new();
        let mut i: usize = 0;
        while i < n
            invariant
                self.inv(),
                i <= n,
                n == self.table().len(),
                out@ == spec_query_matching(self.table().take(i as int), *q),
            decreases n - i,
        {
            proof {
                assert(self.table().take(i + 1) =~= self.table().take(i as int).push(
                    self.table()[i as int],
                ));
                lemma_query_matching_push(self.table().take(i as int), *q, self.table()[i as int]);
            }
            if query_matches(&self.rsvps[i], q) {
                out.push(clone_rsvp(&self.rsvps[i]));
            }
            i += 1;
        }
        proof {
            assert(self.table().take(n as int) =~= self.table());
        }
        out
    }

    /// The offset-style read path: translates the query into a
    /// user/resource/status/window predicate and returns the requested
    /// page of matching rows, ordered by id per `desc`. Suitable for small
    /// result sets; not stable under concurrent inserts.
    pub fn query(&self, query: ReservationQuery) -> (r: Result<Vec<Reservation>, Error>)
        requires
            self.inv(),
        ensures
            r matches Ok(rows) && rows@ == spec_query(self.table(), query),
    {
        let m0 = self.collect_query_matching(&query);
        let m = if query.desc {
            reverse_rows(&m0)
        } else {
            m0
        };
        let psz: u64 = if 10 <= query.page_size && query.page_size <= 100 {
            query.page_size as u64
        } else {
            10
        };
        let page: u64 = if query.page < 1 {
            1
        } else {
            query.page as u64
        };
        proof {
            assert((page - 1) * psz <= 0x7fff_ffff * 100) by (nonlinear_arith)
                requires
                    1 <= page <= 0x7fff_ffff,
                    psz <= 100,
            ;
        }
        let off: u64 = (page - 1) * psz;
        let len: u64 = m.len() as u64;
        if off >= len {
            proof {
                assert(m@.len() == len);
            }
            return Ok(Vec::new());
        }
        let end: u64 = if off + psz >= len {
            len
        } else {
            off + psz
        };
        let rows = slice_rows(&m, off as usize, end as usize);
        proof {
            if off + psz >= len {
                assert(m@.subrange(off as int, end as int) =~= m@.skip(off as int));
            }
        }
        Ok(rows)
    }

    /// Collects the rows matching a filter, in ascending id order.
    fn collect_filter_matching(&self, f: &ReservationFilter) -> (out: Vec<Reservation>)
        requires
            self.inv(),
        ensures
            out@ == spec_filter_matching(self.table(), *f),
    {
        let n = self.rsvps.len();
        let mut out: Vec<Reservation> = Vec::new();
        let mut i: usize = 0;
        while i < n
            invariant
                self.inv(),
                i <= n,
                n == self.table().len(),
                out@ == spec_filter_matching(self.table().take(i as int), *f),
            decreases n - i,
        {
            proof {
                assert(self.table().take(i + 1) =~= self.table().take(i as int).push(
                    self.table()[i as int],
                ));
                lemma_filter_matching_push(self.table().take(i as int), *f, self.table()[i as int]);
            }
            if filter_matches(&self.rsvps[i], f) {
                out.push(clone_rsvp(&self.rsvps[i]));
            }
            i += 1;
        }
        proof {
            assert(self.table().take(n as int) =~= self.table());
        }
        out
    }

    /// The keyset-cursor read path: fetches the cursor row plus up to
    /// `page_size + 1` matching rows past it in the requested direction,
    /// and converts the lookahead into the returned page and its pager —
    /// previous and next page detection with no second query and no count
    /// scan.
    pub fn filter(&self, filter: ReservationFilter) -> (r: Result<
        (FilterPager, Vec<Reservation>),
        Error,
    >)
        requires
            self.inv(),
        ensures
            r matches Ok(pr) && pr.0 == spec_filter_result(self.table(), filter).0 && pr.1@
                == spec_filter_result(self.table(), filter).1,
    {
        let m0 = self.collect_filter_matching(&filter);
        let m = if filter.desc {
            reverse_rows(&m0)
        } else {
            m0
        };
        let ec: i64 = if filter.cursor <= 0 {
            if filter.desc {
                i64::MAX
            } else {
                0
            }
        } else {
            filter.cursor
        };
        let psz: usize = if 10 <= filter.page_size && filter.page_size <= 100 {
            filter.page_size as usize
        } else {
            10
        };
        let k: usize = psz + 1;
        let n = m.len();
        let ghost mv = m@;
        // the ranged read: echoed cursor row first, then the limited run
        // past the cursor
        let mut fetched: Vec<Reservation> = Vec::new();
        let mut i: usize = 0;
        while i < n
            invariant
                i <= n,
                n == mv.len(),
                m@ == mv,
                fetched@ == spec_echo(mv.take(i as int), ec as int),
            decreases n - i,
        {
            proof {
                assert(mv.take(i + 1) =~= mv.take(i as int).push(mv[i as int]));
                lemma_echo_push(mv.take(i as int), ec as int, mv[i as int]);
            }
            if m[i].id == ec {
                fetched.push(clone_rsvp(&m[i]));
            }
            i += 1;
        }
        proof {
            assert(mv.take(n as int) =~= mv);
        }
        let mut taken: usize = 0;
        let mut i: usize = 0;
        while i < n
            invariant
                i <= n,
                n == mv.len(),
                m@ == mv,
                taken <= k,
                k == spec_clamped_page_size(filter.page_size) + 1,
                taken == if spec_after(mv.take(i as int), ec as int, filter.desc).len() <= k {
                    spec_after(mv.take(i as int), ec as int, filter.desc).len() as int
                } else {
                    k as int
                },
                fetched@ == spec_echo(mv, ec as int) + take_at_most(
                    spec_after(mv.take(i as int), ec as int, filter.desc),
                    k as int,
                ),
            decreases n - i,
        {
            proof {
                assert(mv.take(i + 1) =~= mv.take(i as int).push(mv[i as int]));
                lemma_after_push(mv.take(i as int), ec as int, filter.desc, mv[i as int]);
            }
            let dir_match = if filter.desc {
                m[i].id < ec
            } else {
                m[i].id > ec
            };
            if dir_match && taken < k {
                fetched.push(clone_rsvp(&m[i]));
                taken += 1;
            }
            proof {
                let a_old = spec_after(mv.take(i as int), ec as int, filter.desc);
                let a_new = spec_after(mv.take(i + 1), ec as int, filter.desc);
                if a_new.len() > k {
                    assert(a_new.take(k as int) =~= if a_old.len() >= k {
                        a_old.take(k as int)
                    } else {
                        a_old.push(mv[i as int]).take(k as int)
                    });
                }
            }
            i += 1;
        }
        proof {
            assert(mv.take(n as int) =~= mv);
            assert(fetched@ == spec_fetch(self.table(), filter));
        }
        // the lookahead pagination step
        let flen = fetched.len();
        let has_prev = flen > 0 && fetched[0].id == filter.cursor;
        let start: usize = if has_prev {
            1
        } else {
            0
        };
        let has_next = flen - start > psz;
        let end: usize = if has_next {
            flen - 1
        } else {
            flen
        };
        let page = slice_rows(&fetched, start, end);
        let prev: i64 = if has_prev {
            fetched[start - 1].id
        } else {
            -1
        };
        let next: i64 = if has_next {
            fetched[end - 1].id
        } else {
            -1
        };
        let pager = FilterPager { prev, next, total: 0 };
        Ok((pager, page))
    }
}

/// A field-for-field copy of a reservation, equal to the original.
fn clone_rsvp(r: &Reservation) -> (out: Reservation)
    ensures
        out == *r,
{
    Reservation {
        id: r.id,
        user_id: r.user_id.clone(),
        resource_id: r.resource_id.clone(),
        start: r.start,
        end: r.end,
        note: r.note.clone(),
        status: r.status,
    }
}

/// Updating one row in place — keeping its id, resource, window, and an
/// active-or-blocked status — preserves the table invariant.
proof fn lemma_update_preserves_inv(
    t: Seq<Reservation>,
    t2: Seq<Reservation>,
    k: int,
    before: ReservationManager,
    after: ReservationManager,
)
    requires
        before.inv(),
        t == before.table(),
        t2 == after.table(),
        after.spec_next_id() == before.spec_next_id(),
        0 <= k < t.len(),
        t2 == t.update(k, t2[k]),
        t2.len() == t.len(),
        t2[k].id == t[k].id,
        t2[k].resource_id@ == t[k].resource_id@,
        t2[k].start == t[k].start,
        t2[k].end == t[k].end,
        t2[k].user_id@ == t[k].user_id@,
        spec_row_wf(t2[k]),
        spec_active_tag(t2[k].status) ==> spec_active_tag(t[k].status),
    ensures
        after.inv(),
{
    assert forall|i: int, j: int| 0 <= i < j < t2.len() implies (#[trigger] t2[i]).id < (
    #[trigger] t2[j]).id by {
        assert(t[i].id < t[j].id);
    }
    assert forall|i: int| 0 <= i < t2.len() implies spec_row_wf(#[trigger] t2[i]) && t2[i].id
        < after.spec_next_id() by {
        assert(t2[i] == if i == k {
            t2[k]
        } else {
            t[i]
        });
    }
    assert forall|i: int, j: int|
        0 <= i < j < t2.len() && spec_active_tag((#[trigger] t2[i]).status) && spec_active_tag(
            (#[trigger] t2[j]).status,
        ) && t2[i].resource_id@ == t2[j].resource_id@ implies !spec_overlap(t2[i], t2[j]) by {
        assert(t2[i] == if i == k {
            t2[k]
        } else {
            t[i]
        });
        assert(t2[j] == if j == k {
            t2[k]
        } else {
            t[j]
        });
        assert(spec_active_tag(t[i].status) && spec_active_tag(t[j].status) && t[i].resource_id@
            == t[j].resource_id@ ==> !spec_overlap(t[i], t[j]));
        assert(spec_overlap(t2[i], t2[j]) == spec_overlap(t[i], t[j]));
    }
}

} // verus!
