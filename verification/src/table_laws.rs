//! What the operations on the tables do, told from the rows themselves.

use crate::binding_laws::{
    law_cleanup_keeps_backed_bindings_alone, law_list_is_read_where_every_row_is,
    law_listing_has_all_latest_first, lemma_listing_exists,
};
use crate::clock::{timestamp_of, unix_timestamp};
use crate::session_binding::{
    backed_rows, binding_views, comes_before, find, is_backed, is_listing, is_readable,
    law_listing_is_unique, lemma_find_absent, lemma_find_present, listing, provider_views,
    read_error, row_views, sessions_unique, upserted, without_app, without_session, AppError,
    BindingRow, BindingView, Database, ProviderRow, ProviderView, SessionBinding,
};
use vstd::prelude::*;

verus! {

/// A row and a binding say what their fields hold, and the rows of a table say it in order.
pub proof fn law_rows_say_what_they_store(
    row: BindingRow,
    binding: SessionBinding,
    provider: ProviderRow,
    rows: Seq<BindingRow>,
    bindings: Seq<SessionBinding>,
    providers: Seq<ProviderRow>,
)
    ensures
        row@.session_id == row.session_id@ && row@.app_type == row.app_type@ && row@.provider_id
            == row.provider_id@ && row@.bound_at == row.bound_at && row@.last_seen_at
            == row.last_seen_at && row@.request_count == row.request_count,
        binding@.session_id == binding.session_id@ && binding@.app_type == binding.app_type@
            && binding@.provider_id == binding.provider_id@ && binding@.bound_at == binding.bound_at
            && binding@.last_seen_at == binding.last_seen_at && binding@.request_count
            == binding.request_count,
        provider@.id == provider.id@ && provider@.app_type == provider.app_type@
            && provider@.in_failover_queue == provider.in_failover_queue,
        row_views(rows).len() == rows.len() && forall|i: int|
            0 <= i < rows.len() ==> #[trigger] row_views(rows)[i] == rows[i]@,
        binding_views(bindings).len() == bindings.len() && forall|i: int|
            0 <= i < bindings.len() ==> #[trigger] binding_views(bindings)[i] == bindings[i]@,
        provider_views(providers).len() == providers.len() && forall|i: int|
            0 <= i < providers.len() ==> #[trigger] provider_views(providers)[i] == providers[i]@,
{
}

/// Tables can be made of rows exactly where no two rows have the same session, and then hold
/// these rows.
pub proof fn law_tables_hold_the_rows_that_they_are_made_of(
    bindings: Vec<BindingRow>,
    providers: Vec<ProviderRow>,
    db: Option<Database>,
)
    requires
        call_ensures(Database::from_rows, (bindings, providers), db),
    ensures
        db is Some <==> bindings@.map_values(
            |row: BindingRow| row.session_id@,
        ).no_duplicates(),
        db matches Some(d) ==> {
            &&& d@.bindings == bindings@.map_values(|row: BindingRow| row@)
            &&& d@.providers == providers@.map_values(|row: ProviderRow| row@)
        },
{
    let ids = bindings@.map_values(|row: BindingRow| row.session_id@);
    let views = row_views(bindings@);
    if sessions_unique(views) {
        assert forall|i: int, j: int| 0 <= i < ids.len() && 0 <= j < ids.len() && i != j implies (
        #[trigger] ids[i]) != #[trigger] ids[j] by {
            if i < j {
                assert(views[i].session_id != views[j].session_id);
            } else {
                assert(views[j].session_id != views[i].session_id);
            }
        }
    }
    if ids.no_duplicates() {
        assert forall|i: int, j: int| 0 <= i < j < views.len() implies (
        #[trigger] views[i]).session_id != (#[trigger] views[j]).session_id by {
            assert(ids[i] != ids[j]);
        }
    }
    assert(views =~= bindings@.map_values(|row: BindingRow| row@));
    assert(provider_views(providers@) =~= providers@.map_values(|row: ProviderRow| row@));
}

/// No session has two rows exactly where the sessions of the rows are all different.
pub proof fn law_unique_sessions_are_different(rows: Seq<BindingView>)
    ensures
        sessions_unique(rows) <==> rows.map_values(
            |row: BindingView| row.session_id,
        ).no_duplicates(),
{
    let ids = rows.map_values(|row: BindingView| row.session_id);
    if sessions_unique(rows) {
        assert forall|i: int, j: int| 0 <= i < ids.len() && 0 <= j < ids.len() && i != j implies (
        #[trigger] ids[i]) != #[trigger] ids[j] by {
            if i < j {
                assert(rows[i].session_id != rows[j].session_id);
            } else {
                assert(rows[j].session_id != rows[i].session_id);
            }
        }
    }
    if ids.no_duplicates() {
        assert forall|i: int, j: int| 0 <= i < j < rows.len() implies (
        #[trigger] rows[i]).session_id != (#[trigger] rows[j]).session_id by {
            assert(ids[i] != ids[j]);
        }
    }
}

/// A session has the row that stands in the table for it, wherever that is, and none where no
/// row has its identifier.
pub proof fn law_session_has_its_row(rows: Seq<BindingView>, session_id: Seq<char>, index: int)
    requires
        sessions_unique(rows),
    ensures
        0 <= index < rows.len() && rows[index].session_id == session_id ==> find(rows, session_id)
            == Some(rows[index]),
        (forall|i: int| 0 <= i < rows.len() ==> (#[trigger] rows[i]).session_id != session_id)
            <==> find(rows, session_id) is None,
        find(rows, session_id) matches Some(row) ==> row.session_id == session_id && rows.contains(
            row,
        ),
{
    lemma_find_absent(rows, session_id);
    if 0 <= index < rows.len() && rows[index].session_id == session_id {
        lemma_find_present(rows, index);
    }
    if find(rows, session_id) is Some {
        let at = choose|i: int|
            0 <= i < rows.len() && (#[trigger] rows[i]).session_id == session_id;
        lemma_find_present(rows, at);
    }
}

/// A row is read for every count from zero to the greatest number of 32 bits, whatever its other
/// fields hold, and the binding then has its fields. For any other count the error names the
/// count.
pub proof fn law_row_is_read_whatever_else_it_holds(
    row: &BindingRow,
    binding: Result<SessionBinding, AppError>,
)
    requires
        call_ensures(BindingRow::read, (row,), binding),
    ensures
        0 <= row.request_count <= u32::MAX ==> {
            &&& binding matches Ok(b)
            &&& b.session_id@ == row.session_id@
            &&& b.app_type@ == row.app_type@
            &&& b.provider_id@ == row.provider_id@
            &&& b.bound_at == row.bound_at
            &&& b.last_seen_at == row.last_seen_at
            &&& b.request_count == row.request_count
        },
        !(0 <= row.request_count <= u32::MAX) ==> binding == Err::<SessionBinding, AppError>(
            AppError::RequestCountOutOfRange { value: row.request_count },
        ),
{
}

/// The binding of a session is read from its row, wherever in the table that stands: for every
/// count from zero to the greatest number of 32 bits, whatever the other fields hold. For any
/// other count the error names the count, and a session without a row has no binding.
pub proof fn law_binding_is_that_of_the_row(
    db: &Database,
    session_id: &str,
    found: Result<Option<SessionBinding>, AppError>,
    index: int,
)
    requires
        call_ensures(Database::get_session_binding, (db, session_id), found),
    ensures
        (forall|i: int|
            0 <= i < db@.bindings.len() ==> (#[trigger] db@.bindings[i]).session_id
                != session_id@) ==> found matches Ok(None),
        0 <= index < db@.bindings.len() && db@.bindings[index].session_id == session_id@ ==> {
            let row = db@.bindings[index];
            &&& 0 <= row.request_count <= u32::MAX ==> {
                &&& found matches Ok(Some(b))
                &&& b.session_id@ == row.session_id
                &&& b.app_type@ == row.app_type
                &&& b.provider_id@ == row.provider_id
                &&& b.bound_at == row.bound_at
                &&& b.last_seen_at == row.last_seen_at
                &&& b.request_count == row.request_count
            }
            &&& !(0 <= row.request_count <= u32::MAX) ==> found == Err::<
                Option<SessionBinding>,
                AppError,
            >(AppError::RequestCountOutOfRange { value: row.request_count })
        },
{
    law_session_has_its_row(db@.bindings, session_id@, index);
}

/// A row can be read exactly where its count is from zero to the greatest number of 32 bits: no
/// other field has a say.
pub proof fn law_count_alone_decides_reading(row: BindingView)
    ensures
        is_readable(row) <==> 0 <= row.request_count <= u32::MAX,
{
}

/// The error in reading rows is that of the first whose count is out of range, and names this
/// count; there is none where all counts are in range.
pub proof fn law_first_bad_count_is_the_error(rows: Seq<BindingView>, error: AppError)
    ensures
        read_error(rows) == Some(error) <==> exists|i: int|
            0 <= i < rows.len() && error == (AppError::RequestCountOutOfRange {
                value: (#[trigger] rows[i]).request_count,
            }) && !(0 <= rows[i].request_count <= u32::MAX) && forall|k: int|
                0 <= k < i ==> 0 <= (#[trigger] rows[k]).request_count <= u32::MAX,
        read_error(rows) is None <==> forall|i: int|
            0 <= i < rows.len() ==> 0 <= (#[trigger] rows[i]).request_count <= u32::MAX,
    decreases rows.len(),
{
    if rows.len() > 0 {
        let head = rows.drop_last();
        let last = rows.len() - 1;
        law_first_bad_count_is_the_error(head, error);
        assert forall|i: int| 0 <= i < last implies #[trigger] head[i] == rows[i] by {}
        if read_error(head) == Some(error) {
            let i = choose|i: int|
                0 <= i < head.len() && error == (AppError::RequestCountOutOfRange {
                    value: (#[trigger] head[i]).request_count,
                }) && !(0 <= head[i].request_count <= u32::MAX) && forall|k: int|
                    0 <= k < i ==> 0 <= (#[trigger] head[k]).request_count <= u32::MAX;
            assert(rows[i] == head[i]);
            assert forall|k: int| 0 <= k < i implies 0 <= (#[trigger] rows[k]).request_count
                <= u32::MAX by {
                assert(0 <= head[k].request_count <= u32::MAX);
            }
        }
        if exists|i: int|
            0 <= i < rows.len() && error == (AppError::RequestCountOutOfRange {
                value: (#[trigger] rows[i]).request_count,
            }) && !(0 <= rows[i].request_count <= u32::MAX) && forall|k: int|
                0 <= k < i ==> 0 <= (#[trigger] rows[k]).request_count <= u32::MAX {
            let i = choose|i: int|
                0 <= i < rows.len() && error == (AppError::RequestCountOutOfRange {
                    value: (#[trigger] rows[i]).request_count,
                }) && !(0 <= rows[i].request_count <= u32::MAX) && forall|k: int|
                    0 <= k < i ==> 0 <= (#[trigger] rows[k]).request_count <= u32::MAX;
            if i < last {
                assert(head[i] == rows[i]);
                assert forall|k: int| 0 <= k < i implies 0 <= (#[trigger] head[k]).request_count
                    <= u32::MAX by {
                    assert(0 <= rows[k].request_count <= u32::MAX);
                }
            } else {
                assert forall|k: int| 0 <= k < head.len() implies 0 <= (
                #[trigger] head[k]).request_count <= u32::MAX by {
                    assert(0 <= rows[k].request_count <= u32::MAX);
                }
            }
        }
        if read_error(head) is None {
            assert forall|i: int| 0 <= i < last implies 0 <= (#[trigger] rows[i]).request_count
                <= u32::MAX by {
                assert(0 <= head[i].request_count <= u32::MAX);
            }
            assert(rows[last] == rows.last());
        }
        if forall|i: int|
            0 <= i < rows.len() ==> 0 <= (#[trigger] rows[i]).request_count <= u32::MAX {
            assert forall|k: int| 0 <= k < head.len() implies 0 <= (
            #[trigger] head[k]).request_count <= u32::MAX by {
                assert(0 <= rows[k].request_count <= u32::MAX);
            }
            assert(0 <= rows[last].request_count <= u32::MAX);
        }
    }
}

/// The first request of a session adds one row at the end: with the app and the provider that it
/// names, bound and last seen at its time, with one request. The other rows stay as they are.
pub proof fn law_first_request_adds_a_row(
    rows: Seq<BindingView>,
    session_id: Seq<char>,
    app_type: Seq<char>,
    provider_id: Seq<char>,
    now: i64,
)
    requires
        forall|i: int| 0 <= i < rows.len() ==> (#[trigger] rows[i]).session_id != session_id,
    ensures
        upserted(rows, session_id, app_type, provider_id, now) == rows.push(
            BindingView {
                session_id,
                app_type,
                provider_id,
                bound_at: now,
                last_seen_at: now,
                request_count: 1,
            },
        ),
{
    lemma_find_absent(rows, session_id);
}

/// A later request changes the row of its session where that stands: it was last seen at the time
/// of the request, and has one request more. Its other fields and the other rows stay as they
/// are, whatever app and provider the request names.
pub proof fn law_later_request_changes_its_row_alone(
    rows: Seq<BindingView>,
    index: int,
    app_type: Seq<char>,
    provider_id: Seq<char>,
    now: i64,
)
    requires
        sessions_unique(rows),
        0 <= index < rows.len(),
        rows[index].request_count < i64::MAX,
    ensures
        upserted(rows, rows[index].session_id, app_type, provider_id, now) == rows.update(
            index,
            BindingView {
                session_id: rows[index].session_id,
                app_type: rows[index].app_type,
                provider_id: rows[index].provider_id,
                bound_at: rows[index].bound_at,
                last_seen_at: now,
                request_count: (rows[index].request_count + 1) as i64,
            },
        ),
{
    let session_id = rows[index].session_id;
    lemma_find_present(rows, index);
    let after = upserted(rows, session_id, app_type, provider_id, now);
    assert forall|k: int| 0 <= k < rows.len() && k != index implies #[trigger] after[k]
        == rows[k] by {
        if k < index {
            assert(rows[k].session_id != rows[index].session_id);
        } else {
            assert(rows[index].session_id != rows[k].session_id);
        }
    }
    assert(after[index].request_count == rows[index].request_count + 1);
    assert(after =~= rows.update(
        index,
        BindingView {
            session_id: rows[index].session_id,
            app_type: rows[index].app_type,
            provider_id: rows[index].provider_id,
            bound_at: rows[index].bound_at,
            last_seen_at: now,
            request_count: (rows[index].request_count + 1) as i64,
        },
    ));
}

/// A count at the greatest number of 64 bits stays there; the rest of the row changes as with any
/// later request.
pub proof fn law_greatest_count_stays(
    rows: Seq<BindingView>,
    index: int,
    app_type: Seq<char>,
    provider_id: Seq<char>,
    now: i64,
)
    requires
        sessions_unique(rows),
        0 <= index < rows.len(),
        rows[index].request_count == i64::MAX,
    ensures
        upserted(rows, rows[index].session_id, app_type, provider_id, now) == rows.update(
            index,
            BindingView { last_seen_at: now, ..rows[index] },
        ),
{
    lemma_find_present(rows, index);
    let after = upserted(rows, rows[index].session_id, app_type, provider_id, now);
    assert forall|k: int| 0 <= k < rows.len() && k != index implies #[trigger] after[k]
        == rows[k] by {
        if k < index {
            assert(rows[k].session_id != rows[index].session_id);
        } else {
            assert(rows[index].session_id != rows[k].session_id);
        }
    }
    assert(after =~= rows.update(index, BindingView { last_seen_at: now, ..rows[index] }));
}

/// Each row is removed or kept by itself, and those that are kept stay in their order: removing a
/// session removes the row with its identifier, clearing an app the rows with its name.
pub proof fn law_rows_are_removed_one_by_one(
    first: Seq<BindingView>,
    second: Seq<BindingView>,
    row: BindingView,
    session_id: Seq<char>,
    app_type: Seq<char>,
)
    ensures
        without_session(first + second, session_id) == without_session(first, session_id)
            + without_session(second, session_id),
        row.session_id == session_id ==> without_session(seq![row], session_id).len() == 0,
        row.session_id != session_id ==> without_session(seq![row], session_id) == seq![row],
        without_session(Seq::empty(), session_id).len() == 0,
        without_app(first + second, app_type) == without_app(first, app_type) + without_app(
            second,
            app_type,
        ),
        row.app_type == app_type ==> without_app(seq![row], app_type).len() == 0,
        row.app_type != app_type ==> without_app(seq![row], app_type) == seq![row],
        without_app(Seq::empty(), app_type).len() == 0,
{
    let by_session = |r: BindingView| r.session_id != session_id;
    let by_app = |r: BindingView| r.app_type != app_type;
    Seq::filter_distributes_over_add(first, second, by_session);
    Seq::filter_distributes_over_add(first, second, by_app);
    lemma_one_row(row, by_session);
    lemma_one_row(row, by_app);
    reveal(Seq::filter);
}

proof fn lemma_one_row(row: BindingView, pred: spec_fn(BindingView) -> bool)
    ensures
        seq![row].filter(pred) == (if pred(row) {
            seq![row]
        } else {
            Seq::empty()
        }),
        Seq::<BindingView>::empty().filter(pred) == Seq::<BindingView>::empty(),
{
    reveal(Seq::filter);
    assert(seq![row].drop_last() =~= Seq::empty());
    assert(Seq::<BindingView>::empty().filter(pred) =~= Seq::<BindingView>::empty());
    assert(seq![row].filter(pred) =~= (if pred(row) {
        seq![row]
    } else {
        Seq::empty()
    }));
}

/// A cleanup keeps or removes each row by itself, in their order. It keeps a row exactly where
/// some row of the table of providers, wherever it stands, has the provider's identifier and the
/// app's name and is in the failover queue.
pub proof fn law_any_provider_row_keeps_a_binding(
    providers: Seq<ProviderView>,
    first: Seq<BindingView>,
    second: Seq<BindingView>,
    row: BindingView,
)
    ensures
        backed_rows(providers, first + second) == backed_rows(providers, first) + backed_rows(
            providers,
            second,
        ),
        backed_rows(providers, Seq::empty()).len() == 0,
        (exists|at: int|
            0 <= at < providers.len() && #[trigger] providers[at] == (ProviderView {
                id: row.provider_id,
                app_type: row.app_type,
                in_failover_queue: 1,
            })) ==> backed_rows(providers, seq![row]) == seq![row],
        (forall|at: int|
            0 <= at < providers.len() ==> #[trigger] providers[at] != (ProviderView {
                id: row.provider_id,
                app_type: row.app_type,
                in_failover_queue: 1,
            })) ==> backed_rows(providers, seq![row]).len() == 0,
{
    let pred = |r: BindingView| is_backed(providers, r);
    Seq::filter_distributes_over_add(first, second, pred);
    lemma_one_row(row, pred);
    if is_backed(providers, row) {
        let at = choose|i: int|
            0 <= i < providers.len() && (#[trigger] providers[i]).id == row.provider_id
                && providers[i].app_type == row.app_type && providers[i].in_failover_queue == 1;
        assert(providers[at] == (ProviderView {
            id: row.provider_id,
            app_type: row.app_type,
            in_failover_queue: 1,
        }));
    }
}

/// A binding whose provider has a row in the failover queue, at whatever place, is still found
/// after a cleanup, unchanged. One whose provider has no such row is not found.
pub proof fn law_binding_of_a_queued_provider_survives(
    providers: Seq<ProviderView>,
    rows: Seq<BindingView>,
    index: int,
)
    requires
        sessions_unique(rows),
        0 <= index < rows.len(),
    ensures
        (exists|at: int|
            0 <= at < providers.len() && (#[trigger] providers[at]).id == rows[index].provider_id
                && providers[at].app_type == rows[index].app_type
                && providers[at].in_failover_queue == 1) ==> find(
            backed_rows(providers, rows),
            rows[index].session_id,
        ) == Some(rows[index]),
        (forall|at: int|
            0 <= at < providers.len() ==> !((#[trigger] providers[at]).id
                == rows[index].provider_id && providers[at].app_type == rows[index].app_type
                && providers[at].in_failover_queue == 1)) ==> find(
            backed_rows(providers, rows),
            rows[index].session_id,
        ) is None,
{
    law_cleanup_keeps_backed_bindings_alone(providers, rows, rows[index].session_id);
    lemma_find_present(rows, index);
}

/// More providers never cost a binding, and their order does not matter: a row that is kept with
/// the first providers, or with the second, is kept with both, in either order.
pub proof fn law_more_providers_keep_more_bindings(
    first: Seq<ProviderView>,
    second: Seq<ProviderView>,
    row: BindingView,
)
    ensures
        backed_rows(first + second, seq![row]).len() > 0 <==> backed_rows(first, seq![row]).len()
            > 0 || backed_rows(second, seq![row]).len() > 0,
        backed_rows(first + second, seq![row]) == backed_rows(second + first, seq![row]),
{
    lemma_one_row(row, |r: BindingView| is_backed(first, r));
    lemma_one_row(row, |r: BindingView| is_backed(second, r));
    lemma_one_row(row, |r: BindingView| is_backed(first + second, r));
    lemma_one_row(row, |r: BindingView| is_backed(second + first, r));
    lemma_backed_by_either(first, second, row);
    lemma_backed_by_either(second, first, row);
}

proof fn lemma_backed_by_either(
    first: Seq<ProviderView>,
    second: Seq<ProviderView>,
    row: BindingView,
)
    ensures
        is_backed(first + second, row) <==> is_backed(first, row) || is_backed(second, row),
{
    let both = first + second;
    if is_backed(both, row) {
        let i = choose|i: int|
            0 <= i < both.len() && (#[trigger] both[i]).id == row.provider_id && both[i].app_type
                == row.app_type && both[i].in_failover_queue == 1;
        if i < first.len() {
            assert(first[i] == both[i]);
        } else {
            assert(second[i - first.len()] == both[i]);
        }
    }
    if is_backed(first, row) {
        let i = choose|i: int|
            0 <= i < first.len() && (#[trigger] first[i]).id == row.provider_id
                && first[i].app_type == row.app_type && first[i].in_failover_queue == 1;
        assert(both[i] == first[i]);
    }
    if is_backed(second, row) {
        let i = choose|i: int|
            0 <= i < second.len() && (#[trigger] second[i]).id == row.provider_id
                && second[i].app_type == row.app_type && second[i].in_failover_queue == 1;
        assert(both[first.len() + i] == second[i]);
    }
}

/// The list for an app is read exactly where every row of the app has a count from zero to the
/// greatest number of 32 bits. It then has each row of the app once and no others, those seen
/// last first. Otherwise the error names a count of the app that is out of range.
pub proof fn law_list_has_every_row_of_the_app(
    db: &Database,
    app_type: &str,
    list: Result<Vec<SessionBinding>, AppError>,
)
    requires
        call_ensures(Database::list_session_bindings_for_app, (db, app_type), list),
    ensures
        list is Ok <==> forall|k: int|
            0 <= k < db@.bindings.len() && (#[trigger] db@.bindings[k]).app_type == app_type@ ==> 0
                <= db@.bindings[k].request_count <= u32::MAX,
        list matches Ok(bindings) ==> {
            &&& bindings@.len() == db@.bindings.filter(
                |row: BindingView| row.app_type == app_type@,
            ).len()
            &&& forall|i: int|
                0 <= i < bindings@.len() ==> (#[trigger] bindings@[i])@.app_type == app_type@
                    && db@.bindings.contains(bindings@[i]@)
            &&& forall|i: int, j: int|
                0 <= i < j < bindings@.len() ==> (#[trigger] bindings@[i]).last_seen_at >= (
                #[trigger] bindings@[j]).last_seen_at
            &&& forall|k: int|
                0 <= k < db@.bindings.len() && (#[trigger] db@.bindings[k]).app_type == app_type@
                    ==> exists|i: int|
                    0 <= i < bindings@.len() && (#[trigger] bindings@[i])@ == db@.bindings[k]
        },
        list matches Err(error) ==> exists|k: int|
            0 <= k < db@.bindings.len() && (#[trigger] db@.bindings[k]).app_type == app_type@ && !(0
                <= db@.bindings[k].request_count <= u32::MAX) && error == (
            AppError::RequestCountOutOfRange { value: db@.bindings[k].request_count }),
{
    let rows = db@.bindings;
    let listed = listing(rows, app_type@);
    law_listing_has_all_latest_first(rows, app_type@);
    law_list_is_read_where_every_row_is(rows, app_type@);
    assert(listed.len() == rows.filter(|row: BindingView| row.app_type == app_type@).len());
    match list {
        Ok(bindings) => {
            let said = binding_views(bindings@);
            assert forall|i: int| 0 <= i < bindings@.len() implies (
            #[trigger] bindings@[i])@.app_type == app_type@ && rows.contains(bindings@[i]@) by {
                assert(said[i] == listed[i]);
            }
            assert forall|i: int, j: int| 0 <= i < j < bindings@.len() implies (
            #[trigger] bindings@[i]).last_seen_at >= (#[trigger] bindings@[j]).last_seen_at by {
                assert(said[i] == listed[i] && said[j] == listed[j]);
            }
            assert forall|k: int| 0 <= k < rows.len() && (#[trigger] rows[k]).app_type
                == app_type@ implies exists|i: int|
                0 <= i < bindings@.len() && (#[trigger] bindings@[i])@ == rows[k] by {
                let i = choose|i: int| 0 <= i < listed.len() && listed[i] == rows[k];
                assert(said[i] == bindings@[i]@);
            }
        },
        Err(error) => {
            law_first_bad_count_is_the_error(listed, error);
            let i = choose|i: int|
                0 <= i < listed.len() && error == (AppError::RequestCountOutOfRange {
                    value: (#[trigger] listed[i]).request_count,
                }) && !(0 <= listed[i].request_count <= u32::MAX) && forall|k: int|
                    0 <= k < i ==> 0 <= (#[trigger] listed[k]).request_count <= u32::MAX;
            assert(listed[i].app_type == app_type@ && rows.contains(listed[i]));
            let k = choose|k: int| 0 <= k < rows.len() && rows[k] == listed[i];
            assert(rows[k].app_type == app_type@);
        },
    }
}

/// Of two rows of an app that were seen at the same time, the older one comes first in the list,
/// and of two that were not, the one that was seen later.
pub proof fn law_order_of_two_listed_rows(
    rows: Seq<BindingView>,
    app_type: Seq<char>,
    first: int,
    second: int,
)
    requires
        0 <= first < rows.len(),
        0 <= second < rows.len(),
        rows[first].app_type == app_type,
        rows[second].app_type == app_type,
        rows[first].last_seen_at > rows[second].last_seen_at || (rows[first].last_seen_at
            == rows[second].last_seen_at && first < second),
    ensures
        exists|i: int, j: int|
            0 <= i < j < listing(rows, app_type).len() && #[trigger] listing(rows, app_type)[i]
                == rows[first] && #[trigger] listing(rows, app_type)[j] == rows[second],
{
    let some = lemma_listing_exists(rows, rows.len() as int, app_type);
    assert(is_listing(rows, app_type, some));
    let picked = choose|picked: Seq<int>| is_listing(rows, app_type, picked);
    law_listing_is_unique(rows, app_type, some, picked);
    let list = listing(rows, app_type);
    let i = choose|i: int| 0 <= i < picked.len() && picked[i] == first;
    let j = choose|j: int| 0 <= j < picked.len() && picked[j] == second;
    assert(rows[first].app_type == app_type && picked.contains(first));
    assert(rows[second].app_type == app_type && picked.contains(second));
    if i > j {
        assert(comes_before(rows, picked[j], picked[i]));
    }
    assert(list[i] == rows[first]);
    assert(list[j] == rows[second]);
}

/// A reading of the clock gives its seconds as the timestamp, and zero where the clock stands
/// before the epoch. Seconds beyond the numbers with a sign wrap round.
pub proof fn law_timestamp_is_the_number_of_seconds(seconds: Option<u64>, timestamp: i64)
    requires
        call_ensures(unix_timestamp, (seconds,), timestamp),
    ensures
        seconds is None ==> timestamp == 0,
        seconds matches Some(s) ==> s <= i64::MAX ==> timestamp == s,
        seconds matches Some(s) ==> s > i64::MAX ==> timestamp == s - 0x1_0000_0000_0000_0000,
        timestamp == timestamp_of(seconds),
{
    if let Some(s) = seconds {
        assert(s > 0x7FFF_FFFF_FFFF_FFFF ==> s as i64 == s - 0x1_0000_0000_0000_0000)
            by (bit_vector);
    }
}

} // verus!
