//! The mathematical model shared by the three stores: a store is a sequence
//! of rows in insertion order, each row carrying the entity id, the owning
//! account, the two timestamps, and a store-specific payload. Every scoped
//! mutation matches a row on both the id and the account.

use vstd::prelude::*;

verus! {

/// One persisted row: the shared columns plus the store's payload.
pub struct Rec<F> {
    pub id: Seq<char>,
    pub account_id: Seq<char>,
    pub created_at: u64,
    pub updated_at: u64,
    pub fields: F,
}

/// No two rows share an id.
pub open spec fn ids_unique<F>(rows: Seq<Rec<F>>) -> bool {
    forall|i: int, j: int|
        0 <= i < rows.len() && 0 <= j < rows.len() && i != j ==> (#[trigger] rows[i]).id != (
        #[trigger] rows[j]).id
}

/// Some row carries this id.
pub open spec fn has_id<F>(rows: Seq<Rec<F>>, id: Seq<char>) -> bool {
    exists|i: int| 0 <= i < rows.len() && (#[trigger] rows[i]).id == id
}

/// Row `i` matches a scoped operation on `id` by `account_id`.
pub open spec fn is_match<F>(
    rows: Seq<Rec<F>>,
    i: int,
    id: Seq<char>,
    account_id: Seq<char>,
) -> bool {
    0 <= i < rows.len() && rows[i].id == id && rows[i].account_id == account_id
}

/// Some row matches a scoped operation on `id` by `account_id`.
pub open spec fn scoped_match<F>(rows: Seq<Rec<F>>, id: Seq<char>, account_id: Seq<char>) -> bool {
    exists|i: int| #[trigger] is_match(rows, i, id, account_id)
}

/// The rows owned by an account, in insertion order.
pub open spec fn rows_for_account<F>(rows: Seq<Rec<F>>, account_id: Seq<char>) -> Seq<Rec<F>> {
    rows.filter(|r: Rec<F>| r.account_id == account_id)
}

/// A store is well formed when ids are unique, every row's timestamps are
/// ordered and lie below the store clock, and creation times strictly
/// increase along the insertion order.
pub open spec fn wf_rows<F>(rows: Seq<Rec<F>>, clock: u64) -> bool {
    &&& ids_unique(rows)
    &&& forall|i: int|
        0 <= i < rows.len() ==> (#[trigger] rows[i]).created_at <= rows[i].updated_at
            < clock
    &&& forall|i: int, j: int|
        0 <= i < j < rows.len() ==> (#[trigger] rows[i]).created_at < (
        #[trigger] rows[j]).created_at
}

/// Ownership shields rows from other tenants: a row owned by one account
/// never matches a scoped mutation that supplies any other account, so such
/// an update or delete reports the entity as not found and changes nothing.
pub proof fn lemma_foreign_account_never_matches<F>(
    rows: Seq<Rec<F>>,
    i: int,
    other: Seq<char>,
)
    requires
        ids_unique(rows),
        0 <= i < rows.len(),
        rows[i].account_id != other,
    ensures
        !scoped_match(rows, rows[i].id, other),
{
    assert forall|j: int| !is_match(rows, j, rows[i].id, other) by {
        if 0 <= j < rows.len() && j != i {
            assert(rows[j].id != rows[i].id);
        }
    }
}

/// An id picks out one row: under unique ids, two rows carrying the same id
/// are the same row.
pub proof fn lemma_id_determines_row<F>(rows: Seq<Rec<F>>, i: int, j: int)
    requires
        ids_unique(rows),
        0 <= i < rows.len(),
        0 <= j < rows.len(),
        rows[i].id == rows[j].id,
    ensures
        i == j,
        rows[i] == rows[j],
{
}

/// A read right after a create sees what the create persisted: once the new
/// row is appended, any row carrying its id is that row itself, so a lookup
/// of the fresh id returns a record whose every field equals what was stored.
pub proof fn lemma_get_after_create<F>(rows: Seq<Rec<F>>, rec: Rec<F>)
    requires
        ids_unique(rows.push(rec)),
    ensures
        has_id(rows.push(rec), rec.id),
        forall|i: int|
            0 <= i < rows.push(rec).len() && (#[trigger] rows.push(rec)[i]).id == rec.id
                ==> rows.push(rec)[i] == rec,
{
    let all = rows.push(rec);
    assert(all[all.len() - 1].id == rec.id);
    assert forall|i: int|
        0 <= i < all.len() && (#[trigger] all[i]).id == rec.id implies all[i] == rec by {
        lemma_id_determines_row(all, i, all.len() - 1);
    }
}

/// A listing never leaks a foreign row: every row selected for an account is
/// owned by that account.
pub proof fn lemma_account_rows_are_scoped<F>(rows: Seq<Rec<F>>, account_id: Seq<char>)
    ensures
        forall|k: int|
            0 <= k < rows_for_account(rows, account_id).len() ==> (#[trigger] rows_for_account(
                rows,
                account_id,
            )[k]).account_id == account_id,
{
    assert forall|k: int|
        0 <= k < rows_for_account(rows, account_id).len() implies (#[trigger] rows_for_account(
        rows,
        account_id,
    )[k]).account_id == account_id by {
        rows.lemma_filter_pred(|r: Rec<F>| r.account_id == account_id, k);
    }
}

/// A bound on every row's creation time also bounds every selected row's.
proof fn lemma_account_rows_bounded<F>(rows: Seq<Rec<F>>, account_id: Seq<char>, bound: u64)
    requires
        forall|i: int| 0 <= i < rows.len() ==> (#[trigger] rows[i]).created_at < bound,
    ensures
        forall|i: int|
            0 <= i < rows_for_account(rows, account_id).len() ==> (#[trigger] rows_for_account(
                rows,
                account_id,
            )[i]).created_at < bound,
    decreases rows.len(),
{
    reveal(Seq::filter);
    let flt = rows_for_account(rows, account_id);
    if rows.len() == 0 {
        assert(flt.len() == 0);
    } else {
        let prefix = rows.drop_last();
        let last = rows[rows.len() - 1];
        assert forall|i: int| 0 <= i < prefix.len() implies (#[trigger] prefix[i]).created_at
            < bound by {
            assert(rows[i].created_at < bound);
        }
        lemma_account_rows_bounded(prefix, account_id, bound);
        let fltp = rows_for_account(prefix, account_id);
        assert(rows.last() == last);
        assert forall|i: int| 0 <= i < flt.len() implies (#[trigger] flt[i]).created_at
            < bound by {
            if i < fltp.len() {
                assert(fltp[i].created_at < bound);
            } else {
                assert(flt[i] == last);
                assert(rows[rows.len() - 1].created_at < bound);
            }
        }
    }
}

/// Selecting an account's rows keeps the insertion order: when creation
/// times strictly increase along the rows, they strictly increase along the
/// selection too, so a listing comes back newest first once reversed.
pub proof fn lemma_account_rows_keep_order<F>(rows: Seq<Rec<F>>, account_id: Seq<char>)
    requires
        forall|i: int, j: int|
            0 <= i < j < rows.len() ==> (#[trigger] rows[i]).created_at < (
            #[trigger] rows[j]).created_at,
    ensures
        forall|i: int, j: int|
            0 <= i < j < rows_for_account(rows, account_id).len() ==> (
            #[trigger] rows_for_account(rows, account_id)[i]).created_at < (
            #[trigger] rows_for_account(rows, account_id)[j]).created_at,
    decreases rows.len(),
{
    reveal(Seq::filter);
    let flt = rows_for_account(rows, account_id);
    if rows.len() > 0 {
        let prefix = rows.drop_last();
        let last = rows[rows.len() - 1];
        assert forall|i: int, j: int|
            0 <= i < j < prefix.len() implies (#[trigger] prefix[i]).created_at < (
        #[trigger] prefix[j]).created_at by {
            assert(rows[i].created_at < rows[j].created_at);
        }
        lemma_account_rows_keep_order(prefix, account_id);
        assert forall|i: int| 0 <= i < prefix.len() implies (
        #[trigger] prefix[i]).created_at < last.created_at by {
            assert(rows[i].created_at < rows[rows.len() - 1].created_at);
        }
        lemma_account_rows_bounded(prefix, account_id, last.created_at);
        let fltp = rows_for_account(prefix, account_id);
        assert(rows.last() == last);
        assert forall|i: int, j: int| 0 <= i < j < flt.len() implies (
        #[trigger] flt[i]).created_at < (#[trigger] flt[j]).created_at by {
            if j < fltp.len() {
                assert(fltp[i].created_at < fltp[j].created_at);
            } else {
                assert(flt[j] == last);
                assert(flt[i] == fltp[i]);
                assert(fltp[i].created_at < last.created_at);
            }
        }
    }
}

} // verus!
