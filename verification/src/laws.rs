//! The laws that hold across the manager's operations, stated over the
//! same spec functions the operations' contracts use and proved once for
//! all states and inputs.
use vstd::prelude::*;

use crate::conflict::{
    lemma_conflict_detail_round_trip, spec_conflict_detail, spec_conflict_info, spec_word_seq,
    ConflictInfoView, ConflictView,
};
use crate::manager::{
    lemma_find_conflict, lemma_find_id, lemma_find_id_value, spec_active_tag,
    spec_clamped_page_size, spec_filter_matching, spec_filter_pred, spec_filter_result,
    spec_find_conflict, spec_find_id, spec_row_window, spec_stored_row, spec_table_wf,
};
use crate::types::{Reservation, ReservationFilter, Validator};
use crate::RsvpStatus;

verus! {

/// Law: a valid reservation accepted by `reserve` is found by a following
/// `get` of its assigned id, and the row returned is the accepted entity
/// with its status decoded — so a reservation submitted as pending (or
/// with an unset or unrecognized status tag) comes back with status
/// `Pending`, all other fields unchanged.
pub proof fn law_reserve_then_get(t: Seq<Reservation>, next_id: i64, rsvp: Reservation)
    requires
        spec_table_wf(t, next_id as int),
        next_id < i64::MAX,
        rsvp.spec_valid(),
        !(spec_active_tag(spec_stored_row(rsvp, next_id).status) && spec_find_conflict(
            t,
            spec_stored_row(rsvp, next_id),
            0,
        ) < t.len()),
    ensures
        ({
            let stored = spec_stored_row(rsvp, next_id);
            let t2 = t.push(stored);
            let k = spec_find_id(t2, next_id, 0);
            &&& k < t2.len()
            &&& t2[k] == stored
            &&& rsvp.status == RsvpStatus::Pending.spec_tag() ==> stored == Reservation {
                id: next_id,
                ..rsvp
            }
            &&& !(rsvp.status == 2 || rsvp.status == 3) ==> stored.status
                == RsvpStatus::Pending.spec_tag()
        }),
{
    let stored = spec_stored_row(rsvp, next_id);
    let t2 = t.push(stored);
    assert forall|j: int| 0 <= j < t.len() implies (#[trigger] t2[j]).id != next_id by {
        assert(t2[j] == t[j]);
    }
    assert(t2[t.len() as int].id == next_id);
    lemma_find_id_value(t2, next_id, 0, t.len() as int);
}

/// Law: when `reserve` is rejected by the overlap exclusion, the error's
/// diagnostic parses back to `Parsed` with the two colliding windows —
/// `new` the rejected insert's resource and timestamps, `old` the existing
/// row's — whenever the resource id has the word shape the documented
/// grammar carries.
pub proof fn law_reserve_conflict_windows(t: Seq<Reservation>, next_id: i64, rsvp: Reservation)
    requires
        spec_table_wf(t, next_id as int),
        rsvp.spec_valid(),
        spec_word_seq(rsvp.resource_id@),
        spec_active_tag(spec_stored_row(rsvp, next_id).status),
        spec_find_conflict(t, spec_stored_row(rsvp, next_id), 0) < t.len(),
    ensures
        ({
            let stored = spec_stored_row(rsvp, next_id);
            let k = spec_find_conflict(t, stored, 0);
            spec_conflict_info(
                spec_conflict_detail(spec_row_window(stored), spec_row_window(t[k])),
            ) == ConflictInfoView::Parsed(
                ConflictView { new: spec_row_window(stored), old: spec_row_window(t[k]) },
            )
        }),
{
    let stored = spec_stored_row(rsvp, next_id);
    let k = spec_find_conflict(t, stored, 0);
    lemma_find_conflict(t, stored, 0);
    assert(t[k].resource_id@ == rsvp.resource_id@);
    lemma_conflict_detail_round_trip(spec_row_window(stored), spec_row_window(t[k]));
}

/// Law: confirming a pending reservation succeeds exactly once. After the
/// first `change_status` the row is `Confirmed`, and a second call on the
/// same id lands in the not-found case of the operation's contract.
pub proof fn law_change_status_once(t: Seq<Reservation>, next_id: int, id: i64)
    requires
        spec_table_wf(t, next_id),
        id > 0,
        ({
            let k = spec_find_id(t, id, 0);
            k < t.len() && t[k].status == 1
        }),
    ensures
        ({
            let k = spec_find_id(t, id, 0);
            let updated = Reservation { status: 2, ..t[k] };
            let t2 = t.update(k, updated);
            let k2 = spec_find_id(t2, id, 0);
            &&& k2 == k
            &&& t2[k2].status == 2
            &&& !(k2 < t2.len() && t2[k2].status == 1)
        }),
{
    let k = spec_find_id(t, id, 0);
    lemma_find_id(t, id, 0);
    let updated = Reservation { status: 2, ..t[k] };
    let t2 = t.update(k, updated);
    assert forall|j: int| 0 <= j < k implies (#[trigger] t2[j]).id != id by {
        assert(t2[j] == t[j]);
    }
    assert(t2[k].id == id);
    lemma_find_id_value(t2, id, 0, k);
}

/// Law: `delete` then `get` on the same id fails with `NotFound` — after
/// the delete no row carries the id, whether or not one did before. In
/// particular a second `delete` of the same id finds nothing to remove and
/// still succeeds: deletion is idempotent from the caller's side.
pub proof fn law_delete_then_get(t: Seq<Reservation>, next_id: int, id: i64)
    requires
        spec_table_wf(t, next_id),
        id > 0,
    ensures
        ({
            let k = spec_find_id(t, id, 0);
            let t2 = if k < t.len() {
                t.remove(k)
            } else {
                t
            };
            spec_find_id(t2, id, 0) == t2.len()
        }),
{
    let k = spec_find_id(t, id, 0);
    lemma_find_id(t, id, 0);
    if k < t.len() {
        let t2 = t.remove(k);
        assert forall|j: int| 0 <= j < t2.len() implies (#[trigger] t2[j]).id != id by {
            if j < k {
                assert(t2[j] == t[j]);
            } else {
                assert(t2[j] == t[j + 1]);
                assert(t[k].id < t[j + 1].id);
            }
        }
        lemma_find_id_value(t2, id, 0, t2.len() as int);
    } else {
        lemma_find_id_value(t, id, 0, t.len() as int);
    }
}

/// Law: `filter` with a page size outside `[10, 100]` behaves exactly as
/// with the default page size 10 — same page, same pager.
pub proof fn law_filter_page_size_default(t: Seq<Reservation>, f: ReservationFilter)
    requires
        f.page_size < 10 || f.page_size > 100,
    ensures
        spec_filter_result(t, f) == spec_filter_result(
            t,
            ReservationFilter { page_size: 10, ..f },
        ),
{
    let f2 = ReservationFilter { page_size: 10, ..f };
    assert(spec_clamped_page_size(f.page_size) == 10);
    assert(spec_clamped_page_size(f2.page_size) == 10);
    let p1 = |row: Reservation| spec_filter_pred(row, f);
    let p2 = |row: Reservation| spec_filter_pred(row, f2);
    assert forall|row: Reservation| #[trigger] p1(row) == p2(row) by {
        assert(spec_filter_pred(row, f) == spec_filter_pred(row, f2));
    }
    assert(p1 =~= p2);
    assert(spec_filter_matching(t, f) == spec_filter_matching(t, f2));
}

} // verus!
