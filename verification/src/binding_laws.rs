//! What holds of session bindings as requests come in and providers come and go.

use crate::session_binding::{
    backed_rows, comes_before, find, first_seen, is_backed, is_listing, is_listing_of_first, is_readable,
    law_listing_is_unique, law_upsert_keeps_sessions_unique, lemma_filter_keeps_unique, lemma_filter_source,
    lemma_find_absent, lemma_find_present, lemma_listing_step, listing, next_count, read_error, seen_again,
    sessions_unique, upserted, without_app, without_session, BindingView, ProviderView,
};
use vstd::prelude::*;

verus! {

/// The first request of a session binds it to the provider, as of now and with one request.
pub proof fn law_first_request_binds(
    rows: Seq<BindingView>,
    session_id: Seq<char>,
    app_type: Seq<char>,
    provider_id: Seq<char>,
    now: i64,
)
    requires
        find(rows, session_id) is None,
    ensures
        find(upserted(rows, session_id, app_type, provider_id, now), session_id) == Some(
            first_seen(session_id, app_type, provider_id, now),
        ),
{
}

/// A later request of a session changes nothing but the count, by one, and the time: the
/// session stays with its provider, whichever one the request names.
pub proof fn law_later_request_keeps_binding(
    rows: Seq<BindingView>,
    session_id: Seq<char>,
    app_type: Seq<char>,
    provider_id: Seq<char>,
    now: i64,
)
    requires
        sessions_unique(rows),
        find(rows, session_id) is Some,
    ensures
        ({
            let before = find(rows, session_id)->0;
            &&& find(
                upserted(rows, session_id, app_type, provider_id, now),
                session_id,
            ) matches Some(after)
            &&& after.session_id == before.session_id
            &&& after.app_type == before.app_type
            &&& after.provider_id == before.provider_id
            &&& after.bound_at == before.bound_at
            &&& after.last_seen_at == now
            &&& after.request_count == next_count(before.request_count)
        }),
{
    let after = upserted(rows, session_id, app_type, provider_id, now);
    lemma_find_absent(rows, session_id);
    let index = choose|i: int| 0 <= i < rows.len() && (#[trigger] rows[i]).session_id == session_id;
    lemma_find_present(rows, index);
    law_upsert_keeps_sessions_unique(
        rows,
        session_id,
        app_type,
        provider_id,
        now,
    );
    assert(after[index] == seen_again(rows[index], now));
    lemma_find_present(after, index);
}

/// A request of a session changes nothing for another session.
pub proof fn law_request_leaves_other_sessions(
    rows: Seq<BindingView>,
    session_id: Seq<char>,
    app_type: Seq<char>,
    provider_id: Seq<char>,
    now: i64,
    other: Seq<char>,
)
    requires
        other != session_id,
    ensures
        find(upserted(rows, session_id, app_type, provider_id, now), other) == find(rows, other),
{
    let after = upserted(rows, session_id, app_type, provider_id, now);
    if find(rows, session_id) is Some {
        lemma_find_same(rows, after, other);
    } else {
        assert(after.drop_last() =~= rows);
    }
}

proof fn lemma_find_same(before: Seq<BindingView>, after: Seq<BindingView>, session_id: Seq<char>)
    requires
        before.len() == after.len(),
        forall|i: int|
            0 <= i < before.len() ==> (#[trigger] after[i]).session_id == before[i].session_id,
        forall|i: int|
            0 <= i < before.len() && (#[trigger] before[i]).session_id == session_id ==> after[i]
                == before[i],
    ensures
        find(after, session_id) == find(before, session_id),
    decreases before.len(),
{
    if before.len() > 0 {
        let last = before.len() - 1;
        assert(after[last].session_id == before[last].session_id);
        assert forall|i: int| 0 <= i < last implies (#[trigger] after.drop_last()[i]).session_id
            == before.drop_last()[i].session_id by {
            assert(after[i].session_id == before[i].session_id);
        }
        assert forall|i: int|
            0 <= i < last && (#[trigger] before.drop_last()[i]).session_id
                == session_id implies after.drop_last()[i] == before.drop_last()[i] by {
            assert(before[i].session_id == session_id);
        }
        lemma_find_same(before.drop_last(), after.drop_last(), session_id);
    }
}

/// No request moves or removes a binding: whatever session it is of, a session that has a
/// binding stays with its app and its provider, and was bound when it was.
pub proof fn law_no_request_moves_a_binding(
    rows: Seq<BindingView>,
    session_id: Seq<char>,
    app_type: Seq<char>,
    provider_id: Seq<char>,
    now: i64,
    bound: Seq<char>,
)
    requires
        sessions_unique(rows),
        find(rows, bound) is Some,
    ensures
        ({
            let before = find(rows, bound)->0;
            &&& find(
                upserted(rows, session_id, app_type, provider_id, now),
                bound,
            ) matches Some(after)
            &&& after.app_type == before.app_type
            &&& after.provider_id == before.provider_id
            &&& after.bound_at == before.bound_at
        }),
{
    if bound == session_id {
        law_later_request_keeps_binding(rows, session_id, app_type, provider_id, now);
    } else {
        law_request_leaves_other_sessions(
            rows,
            session_id,
            app_type,
            provider_id,
            now,
            bound,
        );
    }
}

/// A request of a session: the app and the provider that it names, and its time.
pub struct Request {
    pub app_type: Seq<char>,
    pub provider_id: Seq<char>,
    pub at: i64,
}

/// The rows after the requests of a session, one after the other.
pub open spec fn after_requests(
    rows: Seq<BindingView>,
    session_id: Seq<char>,
    requests: Seq<Request>,
) -> Seq<BindingView>
    decreases requests.len(),
{
    if requests.len() == 0 {
        rows
    } else {
        let last = requests.last();
        upserted(
            after_requests(rows, session_id, requests.drop_last()),
            session_id,
            last.app_type,
            last.provider_id,
            last.at,
        )
    }
}

/// However many requests a new session sends, it stays with the app and the provider of the
/// first, which bound it. Its count is the number of requests, and it was last seen at the
/// last of them.
pub proof fn law_first_provider_keeps_session(
    rows: Seq<BindingView>,
    session_id: Seq<char>,
    requests: Seq<Request>,
)
    requires
        sessions_unique(rows),
        find(rows, session_id) is None,
        0 < requests.len() <= i64::MAX,
    ensures
        sessions_unique(after_requests(rows, session_id, requests)),
        find(after_requests(rows, session_id, requests), session_id) == Some(
            BindingView {
                session_id,
                app_type: requests.first().app_type,
                provider_id: requests.first().provider_id,
                bound_at: requests.first().at,
                last_seen_at: requests.last().at,
                request_count: requests.len() as i64,
            },
        ),
    decreases requests.len(),
{
    let earlier = requests.drop_last();
    let last = requests.last();
    let before = after_requests(rows, session_id, earlier);
    if earlier.len() == 0 {
        assert(before == rows);
        law_first_request_binds(rows, session_id, last.app_type, last.provider_id, last.at);
    } else {
        law_first_provider_keeps_session(rows, session_id, earlier);
        law_later_request_keeps_binding(
            before,
            session_id,
            last.app_type,
            last.provider_id,
            last.at,
        );
    }
    law_upsert_keeps_sessions_unique(
        before,
        session_id,
        last.app_type,
        last.provider_id,
        last.at,
    );
}

proof fn lemma_find_kept(
    rows: Seq<BindingView>,
    pred: spec_fn(BindingView) -> bool,
    session_id: Seq<char>,
)
    requires
        sessions_unique(rows),
    ensures
        find(rows.filter(pred), session_id) == (match find(rows, session_id) {
            Some(row) => if pred(row) {
                Some(row)
            } else {
                None
            },
            None => None,
        }),
    decreases rows.len(),
{
    reveal(Seq::filter);
    if rows.len() > 0 {
        let head = rows.drop_last();
        lemma_find_kept(head, pred, session_id);
        if pred(rows.last()) {
            assert(rows.filter(pred).drop_last() =~= head.filter(pred));
        } else if rows.last().session_id == session_id {
            lemma_find_absent(head, session_id);
            assert forall|i: int| 0 <= i < head.len() implies (#[trigger] head[i]).session_id
                != session_id by {
                assert(rows[i].session_id != rows[rows.len() - 1].session_id);
            }
        }
    }
}

proof fn lemma_all_kept(rows: Seq<BindingView>, pred: spec_fn(BindingView) -> bool)
    requires
        forall|i: int| 0 <= i < rows.len() ==> pred(#[trigger] rows[i]),
    ensures
        rows.filter(pred) == rows,
    decreases rows.len(),
{
    reveal(Seq::filter);
    if rows.len() > 0 {
        assert forall|i: int| 0 <= i < rows.len() - 1 implies pred(
            #[trigger] rows.drop_last()[i],
        ) by {
            assert(pred(rows[i]));
        }
        lemma_all_kept(rows.drop_last(), pred);
        assert(pred(rows[rows.len() - 1]));
    }
    assert(rows.filter(pred) =~= rows);
}

proof fn lemma_keeping_twice(rows: Seq<BindingView>, pred: spec_fn(BindingView) -> bool)
    ensures
        rows.filter(pred).filter(pred) == rows.filter(pred),
{
    let kept = rows.filter(pred);
    assert forall|i: int| 0 <= i < kept.len() implies pred(#[trigger] kept[i]) by {
        lemma_filter_source(rows, pred, i);
    }
    lemma_all_kept(kept, pred);
}

/// Removing the binding of a session leaves it without one, and leaves every other session as
/// it was. To remove it again changes nothing.
pub proof fn law_removal_unbinds_the_session_alone(
    rows: Seq<BindingView>,
    session_id: Seq<char>,
    other: Seq<char>,
)
    requires
        sessions_unique(rows),
    ensures
        sessions_unique(without_session(rows, session_id)),
        find(without_session(rows, session_id), session_id) is None,
        other != session_id ==> find(without_session(rows, session_id), other) == find(rows, other),
        without_session(without_session(rows, session_id), session_id) == without_session(
            rows,
            session_id,
        ),
{
    let pred = |row: BindingView| row.session_id != session_id;
    lemma_filter_keeps_unique(rows, pred);
    lemma_find_kept(rows, pred, session_id);
    lemma_find_kept(rows, pred, other);
    lemma_found_has_session(rows, session_id);
    lemma_found_has_session(rows, other);
    lemma_keeping_twice(rows, pred);
}

proof fn lemma_found_has_session(rows: Seq<BindingView>, session_id: Seq<char>)
    ensures
        find(rows, session_id) matches Some(row) ==> row.session_id == session_id,
    decreases rows.len(),
{
    if rows.len() > 0 {
        lemma_found_has_session(rows.drop_last(), session_id);
    }
}

proof fn lemma_requests_add_one_row(
    rows: Seq<BindingView>,
    session_id: Seq<char>,
    requests: Seq<Request>,
) -> (row: BindingView)
    requires
        find(rows, session_id) is None,
        requests.len() > 0,
    ensures
        row.session_id == session_id,
        after_requests(rows, session_id, requests) == rows.push(row),
    decreases requests.len(),
{
    let earlier = requests.drop_last();
    let last = requests.last();
    let after = after_requests(rows, session_id, requests);
    if earlier.len() == 0 {
        assert(after_requests(rows, session_id, earlier) == rows);
        first_seen(session_id, last.app_type, last.provider_id, last.at)
    } else {
        let before = lemma_requests_add_one_row(rows, session_id, earlier);
        let row = seen_again(before, last.at);
        lemma_find_absent(rows, session_id);
        assert(rows.push(before).last() == before);
        assert(after =~= rows.push(row)) by {
            assert forall|i: int| 0 <= i < rows.len() implies after[i] == rows[i] by {
                assert(rows[i].session_id != session_id);
            }
        }
        row
    }
}

/// Removing a session after its requests gives back the table as it was before the first.
pub proof fn law_removal_undoes_requests(
    rows: Seq<BindingView>,
    session_id: Seq<char>,
    requests: Seq<Request>,
)
    requires
        find(rows, session_id) is None,
    ensures
        without_session(after_requests(rows, session_id, requests), session_id) == rows,
{
    let pred = |row: BindingView| row.session_id != session_id;
    lemma_find_absent(rows, session_id);
    lemma_all_kept(rows, pred);
    if requests.len() > 0 {
        let row = lemma_requests_add_one_row(rows, session_id, requests);
        reveal(Seq::filter);
        assert(rows.push(row).drop_last() =~= rows);
    }
}

/// After its binding was removed, a session can be bound to another provider.
pub proof fn law_removed_session_is_bound_anew(
    rows: Seq<BindingView>,
    session_id: Seq<char>,
    app_type: Seq<char>,
    provider_id: Seq<char>,
    now: i64,
)
    requires
        sessions_unique(rows),
    ensures
        find(
            upserted(
                without_session(rows, session_id),
                session_id,
                app_type,
                provider_id,
                now,
            ),
            session_id,
        ) == Some(first_seen(session_id, app_type, provider_id, now)),
{
    law_removal_unbinds_the_session_alone(rows, session_id, session_id);
    law_first_request_binds(
        without_session(rows, session_id),
        session_id,
        app_type,
        provider_id,
        now,
    );
}

/// Clearing an app unbinds the sessions of the app, and no others. To clear it again changes
/// nothing.
pub proof fn law_clearing_unbinds_the_app_alone(
    rows: Seq<BindingView>,
    app_type: Seq<char>,
    session_id: Seq<char>,
)
    requires
        sessions_unique(rows),
    ensures
        sessions_unique(without_app(rows, app_type)),
        find(without_app(rows, app_type), session_id) == (match find(rows, session_id) {
            Some(row) => if row.app_type == app_type {
                None
            } else {
                Some(row)
            },
            None => None,
        }),
        without_app(without_app(rows, app_type), app_type) == without_app(rows, app_type),
{
    let pred = |row: BindingView| row.app_type != app_type;
    lemma_filter_keeps_unique(rows, pred);
    lemma_find_kept(rows, pred, session_id);
    lemma_keeping_twice(rows, pred);
}

/// What clearing an app removes, and counts, are the rows of the app.
pub proof fn law_clearing_counts_the_rows_of_the_app(rows: Seq<BindingView>, app_type: Seq<char>)
    ensures
        rows.len() - without_app(rows, app_type).len() == rows_of_app(rows, app_type).len(),
    decreases rows.len(),
{
    reveal(Seq::filter);
    if rows.len() > 0 {
        law_clearing_counts_the_rows_of_the_app(rows.drop_last(), app_type);
    }
}

/// A cleanup keeps a session's binding where its provider exists and is in the failover queue,
/// and removes it otherwise. A second cleanup finds nothing to remove.
pub proof fn law_cleanup_keeps_backed_bindings_alone(
    providers: Seq<ProviderView>,
    rows: Seq<BindingView>,
    session_id: Seq<char>,
)
    requires
        sessions_unique(rows),
    ensures
        sessions_unique(backed_rows(providers, rows)),
        find(backed_rows(providers, rows), session_id) == (match find(rows, session_id) {
            Some(row) => if is_backed(providers, row) {
                Some(row)
            } else {
                None
            },
            None => None,
        }),
        backed_rows(providers, backed_rows(providers, rows)) == backed_rows(providers, rows),
{
    let pred = |row: BindingView| is_backed(providers, row);
    lemma_filter_keeps_unique(rows, pred);
    lemma_find_kept(rows, pred, session_id);
    lemma_keeping_twice(rows, pred);
}

/// The rows of an app.
pub open spec fn rows_of_app(rows: Seq<BindingView>, app_type: Seq<char>) -> Seq<BindingView> {
    rows.filter(|row: BindingView| row.app_type == app_type)
}

pub(crate) proof fn lemma_listing_exists(
    rows: Seq<BindingView>,
    upto: int,
    app_type: Seq<char>,
) -> (picked: Seq<int>)
    requires
        0 <= upto <= rows.len(),
    ensures
        is_listing_of_first(rows, upto, app_type, picked),
        picked.len() == rows_of_app(rows.take(upto), app_type).len(),
    decreases upto,
{
    reveal(Seq::filter);
    if upto == 0 {
        Seq::empty()
    } else {
        let last = upto - 1;
        let picked = lemma_listing_exists(rows, last, app_type);
        assert(rows.take(upto).drop_last() =~= rows.take(last));
        if rows[last].app_type == app_type {
            let place = lemma_place(rows, picked, last, picked.len() as int);
            lemma_listing_step(rows, last, app_type, picked, place);
            picked.insert(place, last)
        } else {
            picked
        }
    }
}

proof fn lemma_place(rows: Seq<BindingView>, picked: Seq<int>, row: int, upto: int) -> (place: int)
    requires
        0 <= upto <= picked.len(),
        forall|i: int| 0 <= i < picked.len() ==> 0 <= #[trigger] picked[i] < row,
        forall|i: int, j: int|
            0 <= i < j < picked.len() ==> comes_before(
                rows,
                #[trigger] picked[i],
                #[trigger] picked[j],
            ),
        upto < picked.len() ==> comes_before(rows, row, picked[upto]),
    ensures
        0 <= place <= picked.len(),
        forall|i: int| 0 <= i < place ==> comes_before(rows, #[trigger] picked[i], row),
        place < picked.len() ==> comes_before(rows, row, picked[place]),
    decreases upto,
{
    if upto > 0 && comes_before(rows, row, picked[upto - 1]) {
        lemma_place(rows, picked, row, upto - 1)
    } else {
        if upto > 0 {
            assert(comes_before(rows, picked[upto - 1], row));
        }
        upto
    }
}

/// The list for an app holds all bindings of the app, each once and no others, those seen last
/// first.
pub proof fn law_listing_has_all_latest_first(rows: Seq<BindingView>, app_type: Seq<char>)
    ensures
        listing(rows, app_type).len() == rows_of_app(rows, app_type).len(),
        forall|i: int|
            0 <= i < listing(rows, app_type).len() ==> (#[trigger] listing(
                rows,
                app_type,
            )[i]).app_type == app_type && rows.contains(listing(rows, app_type)[i]),
        forall|i: int, j: int|
            0 <= i < j < listing(rows, app_type).len() ==> (#[trigger] listing(
                rows,
                app_type,
            )[i]).last_seen_at >= (#[trigger] listing(rows, app_type)[j]).last_seen_at,
        forall|k: int|
            0 <= k < rows.len() && (#[trigger] rows[k]).app_type == app_type ==> listing(
                rows,
                app_type,
            ).contains(rows[k]),
{
    let some = lemma_listing_exists(rows, rows.len() as int, app_type);
    assert(rows.take(rows.len() as int) =~= rows);
    assert(is_listing(rows, app_type, some));
    let picked = choose|picked: Seq<int>| is_listing(rows, app_type, picked);
    law_listing_is_unique(rows, app_type, some, picked);
    let list = listing(rows, app_type);
    assert(list =~= Seq::new(picked.len(), |i: int| rows[picked[i]]));
    assert forall|i: int| 0 <= i < list.len() implies (#[trigger] list[i]).app_type == app_type
        && rows.contains(list[i]) by {
        assert(list[i] == rows[picked[i]]);
    }
    assert forall|i: int, j: int| 0 <= i < j < list.len() implies (
    #[trigger] list[i]).last_seen_at >= (#[trigger] list[j]).last_seen_at by {
        assert(comes_before(rows, picked[i], picked[j]));
    }
    assert forall|k: int| 0 <= k < rows.len() && (#[trigger] rows[k]).app_type
        == app_type implies list.contains(rows[k]) by {
        let at = choose|at: int| 0 <= at < picked.len() && picked[at] == k;
        assert(list[at] == rows[k]);
    }
}

proof fn lemma_read_error_is_of_a_row(rows: Seq<BindingView>)
    ensures
        read_error(rows) is None <==> forall|i: int|
            0 <= i < rows.len() ==> is_readable(#[trigger] rows[i]),
    decreases rows.len(),
{
    if rows.len() > 0 {
        let head = rows.drop_last();
        lemma_read_error_is_of_a_row(head);
        if read_error(rows) is None {
            assert forall|i: int| 0 <= i < rows.len() implies is_readable(#[trigger] rows[i]) by {
                if i < head.len() {
                    assert(is_readable(head[i]));
                }
            }
        }
        if forall|i: int| 0 <= i < rows.len() ==> is_readable(#[trigger] rows[i]) {
            assert forall|i: int| 0 <= i < head.len() implies is_readable(#[trigger] head[i]) by {
                assert(is_readable(rows[i]));
            }
            assert(is_readable(rows[rows.len() - 1]));
        }
    }
}

/// The list for an app can be read exactly where every row of the app can.
pub proof fn law_list_is_read_where_every_row_is(rows: Seq<BindingView>, app_type: Seq<char>)
    ensures
        read_error(listing(rows, app_type)) is None <==> forall|k: int|
            0 <= k < rows.len() && (#[trigger] rows[k]).app_type == app_type ==> is_readable(
                rows[k],
            ),
{
    let list = listing(rows, app_type);
    law_listing_has_all_latest_first(rows, app_type);
    lemma_read_error_is_of_a_row(list);
    if read_error(list) is None {
        assert forall|k: int|
            0 <= k < rows.len() && (#[trigger] rows[k]).app_type == app_type implies is_readable(
            rows[k],
        ) by {
            let at = choose|at: int| 0 <= at < list.len() && list[at] == rows[k];
            assert(is_readable(list[at]));
        }
    } else {
        let i = choose|i: int| 0 <= i < list.len() && !is_readable(#[trigger] list[i]);
        assert(list[i].app_type == app_type && rows.contains(list[i]));
        let k = choose|k: int| 0 <= k < rows.len() && rows[k] == list[i];
        assert(rows[k].app_type == app_type);
    }
}

/// A binding in the list is the one that its session has.
pub proof fn law_listed_binding_is_that_of_its_session(
    rows: Seq<BindingView>,
    app_type: Seq<char>,
    index: int,
)
    requires
        sessions_unique(rows),
        0 <= index < listing(rows, app_type).len(),
    ensures
        find(rows, listing(rows, app_type)[index].session_id) == Some(
            listing(rows, app_type)[index],
        ),
{
    law_listing_has_all_latest_first(rows, app_type);
    let row = listing(rows, app_type)[index];
    assert(rows.contains(row));
    let at = choose|at: int| 0 <= at < rows.len() && rows[at] == row;
    lemma_find_present(rows, at);
}

/// After an app was cleared its list is empty.
pub proof fn law_cleared_app_lists_nothing(rows: Seq<BindingView>, app_type: Seq<char>)
    ensures
        listing(without_app(rows, app_type), app_type).len() == 0,
{
    let kept = without_app(rows, app_type);
    law_listing_has_all_latest_first(kept, app_type);
    let list = listing(kept, app_type);
    if list.len() > 0 {
        assert(list[0].app_type == app_type && kept.contains(list[0]));
        let at = choose|at: int| 0 <= at < kept.len() && kept[at] == list[0];
        lemma_filter_source(rows, |row: BindingView| row.app_type != app_type, at);
    }
}

} // verus!
