//! Session bindings: which provider serves a session.
//!
//! Under round-robin polling a new session is bound to the provider that its first request
//! went to. The binding then stays as it is; it is removed only when the provider drops out:
//! when it no longer exists, has left the failover queue or its circuit breaker is open.

use crate::clock::{is_epoch_reading, seconds_since_epoch, timestamp_of, unix_timestamp};
use vstd::prelude::*;

verus! {

/// A session binding.
#[derive(Debug, Clone)]
pub struct SessionBinding {
    pub session_id: String,
    pub app_type: String,
    pub provider_id: String,
    pub bound_at: i64,
    pub last_seen_at: i64,
    pub request_count: u32,
}

/// A row of the table of session bindings, as it is stored.
#[derive(Debug, Clone)]
pub struct BindingRow {
    pub session_id: String,
    pub app_type: String,
    pub provider_id: String,
    pub bound_at: i64,
    pub last_seen_at: i64,
    pub request_count: i64,
}

/// What a session binding, or the row that stores it, says.
pub struct BindingView {
    pub session_id: Seq<char>,
    pub app_type: Seq<char>,
    pub provider_id: Seq<char>,
    pub bound_at: i64,
    pub last_seen_at: i64,
    pub request_count: i64,
}

impl View for SessionBinding {
    type V = BindingView;

    open spec fn view(&self) -> BindingView {
        BindingView {
            session_id: self.session_id@,
            app_type: self.app_type@,
            provider_id: self.provider_id@,
            bound_at: self.bound_at,
            last_seen_at: self.last_seen_at,
            request_count: self.request_count as i64,
        }
    }
}

impl View for BindingRow {
    type V = BindingView;

    open spec fn view(&self) -> BindingView {
        BindingView {
            session_id: self.session_id@,
            app_type: self.app_type@,
            provider_id: self.provider_id@,
            bound_at: self.bound_at,
            last_seen_at: self.last_seen_at,
            request_count: self.request_count,
        }
    }
}

/// A row of the table of providers, as far as bindings depend on it.
#[derive(Debug, Clone)]
pub struct ProviderRow {
    pub id: String,
    pub app_type: String,
    /// `1` where the provider is in the failover queue.
    pub in_failover_queue: i64,
}

/// What a row of the table of providers says.
pub struct ProviderView {
    pub id: Seq<char>,
    pub app_type: Seq<char>,
    pub in_failover_queue: i64,
}

impl View for ProviderRow {
    type V = ProviderView;

    open spec fn view(&self) -> ProviderView {
        ProviderView {
            id: self.id@,
            app_type: self.app_type@,
            in_failover_queue: self.in_failover_queue,
        }
    }
}

/// What the rows say.
pub open spec fn row_views(rows: Seq<BindingRow>) -> Seq<BindingView> {
    Seq::new(rows.len(), |i: int| rows[i]@)
}

/// What the bindings say.
pub open spec fn binding_views(bindings: Seq<SessionBinding>) -> Seq<BindingView> {
    Seq::new(bindings.len(), |i: int| bindings[i]@)
}

/// What the providers' rows say.
pub open spec fn provider_views(rows: Seq<ProviderRow>) -> Seq<ProviderView> {
    Seq::new(rows.len(), |i: int| rows[i]@)
}

/// Why a binding cannot be read.
#[derive(Debug, Clone, Copy, PartialEq, Eq, Structural)]
pub enum AppError {
    /// The stored number of requests does not fit in 32 bits without a sign.
    RequestCountOutOfRange { value: i64 },
}

/// Whether no session has two rows.
pub open spec fn sessions_unique(rows: Seq<BindingView>) -> bool {
    forall|i: int, j: int|
        0 <= i < j < rows.len() ==> (#[trigger] rows[i]).session_id != (
        #[trigger] rows[j]).session_id
}

/// The row of a session.
pub open spec fn find(rows: Seq<BindingView>, session_id: Seq<char>) -> Option<BindingView>
    decreases rows.len(),
{
    if rows.len() == 0 {
        None
    } else if rows.last().session_id == session_id {
        Some(rows.last())
    } else {
        find(rows.drop_last(), session_id)
    }
}

/// The row of a session that sends its first request.
pub open spec fn first_seen(
    session_id: Seq<char>,
    app_type: Seq<char>,
    provider_id: Seq<char>,
    now: i64,
) -> BindingView {
    BindingView {
        session_id,
        app_type,
        provider_id,
        bound_at: now,
        last_seen_at: now,
        request_count: 1,
    }
}

/// The number of requests after one more.
pub open spec fn next_count(count: i64) -> i64 {
    if count < i64::MAX {
        (count + 1) as i64
    } else {
        count
    }
}

/// The row of a session that sends another request: only the count and the time change.
pub open spec fn seen_again(row: BindingView, now: i64) -> BindingView {
    BindingView { last_seen_at: now, request_count: next_count(row.request_count), ..row }
}

/// The rows after a request of the session: its row counts it, or is added.
pub open spec fn upserted(
    rows: Seq<BindingView>,
    session_id: Seq<char>,
    app_type: Seq<char>,
    provider_id: Seq<char>,
    now: i64,
) -> Seq<BindingView> {
    if find(rows, session_id) is Some {
        Seq::new(
            rows.len(),
            |i: int|
                if rows[i].session_id == session_id {
                    seen_again(rows[i], now)
                } else {
                    rows[i]
                },
        )
    } else {
        rows.push(first_seen(session_id, app_type, provider_id, now))
    }
}

/// The rows without that of the session.
pub open spec fn without_session(rows: Seq<BindingView>, session_id: Seq<char>) -> Seq<
    BindingView,
> {
    rows.filter(|row: BindingView| row.session_id != session_id)
}

/// The rows without those of the app.
pub open spec fn without_app(rows: Seq<BindingView>, app_type: Seq<char>) -> Seq<BindingView> {
    rows.filter(|row: BindingView| row.app_type != app_type)
}

/// Whether the row is bound to a provider of its app that exists and is in the failover queue.
pub open spec fn is_backed(providers: Seq<ProviderView>, row: BindingView) -> bool {
    exists|i: int|
        0 <= i < providers.len() && (#[trigger] providers[i]).id == row.provider_id
            && providers[i].app_type == row.app_type && providers[i].in_failover_queue == 1
}

/// The rows that are bound to a provider in the failover queue.
pub open spec fn backed_rows(providers: Seq<ProviderView>, rows: Seq<BindingView>) -> Seq<
    BindingView,
> {
    rows.filter(|row: BindingView| is_backed(providers, row))
}

/// Whether the row at `first` comes before the row at `second` in a list: it was seen later,
/// or at the same time and is the older row.
pub open spec fn comes_before(rows: Seq<BindingView>, first: int, second: int) -> bool {
    rows[first].last_seen_at > rows[second].last_seen_at || (rows[first].last_seen_at
        == rows[second].last_seen_at && first < second)
}

/// Whether `picked` are the positions of the rows in the list for an app, in order: all rows
/// of the app, those seen last first.
pub open spec fn is_listing(
    rows: Seq<BindingView>,
    app_type: Seq<char>,
    picked: Seq<int>,
) -> bool {
    &&& forall|i: int|
        0 <= i < picked.len() ==> 0 <= #[trigger] picked[i] < rows.len()
            && rows[picked[i]].app_type == app_type
    &&& forall|i: int, j: int|
        0 <= i < j < picked.len() ==> comes_before(rows, #[trigger] picked[i], #[trigger] picked[j])
    &&& forall|k: int|
        0 <= k < rows.len() && (#[trigger] rows[k]).app_type == app_type ==> picked.contains(k)
}

/// The rows in the list for an app.
pub open spec fn listing(rows: Seq<BindingView>, app_type: Seq<char>) -> Seq<BindingView> {
    let picked = choose|picked: Seq<int>| is_listing(rows, app_type, picked);
    Seq::new(picked.len(), |i: int| rows[picked[i]])
}

/// Whether the row can be read: its count fits in 32 bits without a sign.
pub open spec fn is_readable(row: BindingView) -> bool {
    0 <= row.request_count <= u32::MAX
}

/// The error in reading the rows, which is that of the first that cannot be read.
pub open spec fn read_error(rows: Seq<BindingView>) -> Option<AppError>
    decreases rows.len(),
{
    if rows.len() == 0 {
        None
    } else if read_error(rows.drop_last()) is Some {
        read_error(rows.drop_last())
    } else if is_readable(rows.last()) {
        None
    } else {
        Some(AppError::RequestCountOutOfRange { value: rows.last().request_count })
    }
}

/// What the tables hold.
pub struct DatabaseView {
    pub bindings: Seq<BindingView>,
    pub providers: Seq<ProviderView>,
}

/// The tables of session bindings and of providers. No session has two bindings.
pub struct Database {
    bindings: Vec<BindingRow>,
    providers: Vec<ProviderRow>,
}

impl View for Database {
    type V = DatabaseView;

    closed spec fn view(&self) -> DatabaseView {
        DatabaseView {
            bindings: row_views(self.bindings@),
            providers: provider_views(self.providers@),
        }
    }
}

impl BindingRow {
    fn copy(&self) -> (row: BindingRow)
        ensures
            row@ == self@,
    {
        BindingRow {
            session_id: self.session_id.clone(),
            app_type: self.app_type.clone(),
            provider_id: self.provider_id.clone(),
            bound_at: self.bound_at,
            last_seen_at: self.last_seen_at,
            request_count: self.request_count,
        }
    }

    /// The binding that the row stores.
    pub fn read(&self) -> (binding: Result<SessionBinding, AppError>)
        ensures
            binding is Ok <==> is_readable(self@),
            binding matches Ok(b) ==> b@ == self@,
            binding matches Err(e) ==> e == (AppError::RequestCountOutOfRange {
                value: self.request_count,
            }),
    {
        if self.request_count < 0 || self.request_count > u32::MAX as i64 {
            return Err(AppError::RequestCountOutOfRange { value: self.request_count });
        }
        Ok(
            SessionBinding {
                session_id: self.session_id.clone(),
                app_type: self.app_type.clone(),
                provider_id: self.provider_id.clone(),
                bound_at: self.bound_at,
                last_seen_at: self.last_seen_at,
                request_count: self.request_count as u32,
            },
        )
    }
}

pub(crate) proof fn lemma_find_absent(rows: Seq<BindingView>, session_id: Seq<char>)
    ensures
        find(rows, session_id) is None <==> forall|i: int|
            0 <= i < rows.len() ==> (#[trigger] rows[i]).session_id != session_id,
    decreases rows.len(),
{
    if rows.len() > 0 {
        let head = rows.drop_last();
        lemma_find_absent(head, session_id);
        if rows.last().session_id != session_id && find(head, session_id) is None {
            assert forall|i: int| 0 <= i < rows.len() implies (#[trigger] rows[i]).session_id
                != session_id by {
                if i < head.len() {
                    assert(head[i].session_id != session_id);
                }
            }
        }
        if forall|i: int| 0 <= i < rows.len() ==> (#[trigger] rows[i]).session_id != session_id {
            assert forall|i: int| 0 <= i < head.len() implies (#[trigger] head[i]).session_id
                != session_id by {
                assert(rows[i].session_id != session_id);
            }
            assert(rows[rows.len() - 1].session_id != session_id);
        }
    }
}

pub(crate) proof fn lemma_find_present(rows: Seq<BindingView>, index: int)
    requires
        sessions_unique(rows),
        0 <= index < rows.len(),
    ensures
        find(rows, rows[index].session_id) == Some(rows[index]),
    decreases rows.len(),
{
    if index < rows.len() - 1 {
        assert(rows[index].session_id != rows[rows.len() - 1].session_id);
        lemma_find_present(rows.drop_last(), index);
    }
}

impl Database {
    #[verifier::type_invariant]
    spec fn inv(&self) -> bool {
        sessions_unique(row_views(self.bindings@))
    }

    /// Empty tables.
    pub fn new() -> (db: Database)
        ensures
            db@.bindings == Seq::<BindingView>::empty(),
            db@.providers == Seq::<ProviderView>::empty(),
    {
        let db = Database { bindings: Vec::new(), providers: Vec::new() };
        assert(db@.bindings =~= Seq::empty());
        assert(db@.providers =~= Seq::empty());
        db
    }

    fn position(&self, session_id: &str) -> (index: Option<usize>)
        ensures
            index matches Some(i) ==> i < self.bindings.len() && self.bindings@[i as int].session_id@
                == session_id@,
            index is Some <==> find(self@.bindings, session_id@) is Some,
            index matches Some(i) ==> find(self@.bindings, session_id@) == Some(
                self@.bindings[i as int],
            ),
    {
        proof {
            use_type_invariant(self);
            lemma_find_absent(self@.bindings, session_id@);
        }
        let wanted = session_id.to_owned();
        let mut i: usize = 0;
        while i < self.bindings.len()
            invariant
                i <= self.bindings.len(),
                wanted@ == session_id@,
                sessions_unique(self@.bindings),
                forall|k: int|
                    0 <= k < i ==> (#[trigger] self@.bindings[k]).session_id != session_id@,
            decreases self.bindings.len() - i,
        {
            if self.bindings[i].session_id == wanted {
                proof {
                    lemma_find_present(self@.bindings, i as int);
                }
                return Some(i);
            }
            i += 1;
        }
        None
    }

    /// The current Unix timestamp, in seconds. It is that of a reading of the system's
    /// clock; no bound is stated for it.
    pub fn unix_now() -> (now: i64)
        ensures
            exists|seconds: Option<u64>| #[trigger]
                is_epoch_reading(seconds) && now == timestamp_of(seconds),
    {
        unix_timestamp(seconds_since_epoch())
    }

    /// The binding of a session.
    pub fn get_session_binding(&self, session_id: &str) -> (found: Result<
        Option<SessionBinding>,
        AppError,
    >)
        ensures
            sessions_unique(self@.bindings),
            match find(self@.bindings, session_id@) {
                None => found matches Ok(None),
                Some(row) => if is_readable(row) {
                    found matches Ok(Some(binding)) && binding@ == row
                } else {
                    found == Err::<Option<SessionBinding>, AppError>(
                        AppError::RequestCountOutOfRange { value: row.request_count },
                    )
                },
            },
    {
        proof {
            use_type_invariant(self);
        }
        match self.position(session_id) {
            Some(i) => match self.bindings[i].read() {
                Ok(binding) => Ok(Some(binding)),
                Err(error) => Err(error),
            },
            None => Ok(None),
        }
    }

    /// Counts a request of the session at the time `now`. A session without a binding is bound
    /// to the provider; one that has a binding keeps it.
    pub fn upsert_session_binding_at(
        &mut self,
        session_id: &str,
        app_type: &str,
        provider_id: &str,
        now: i64,
    ) -> (done: Result<(), AppError>)
        ensures
            done is Ok,
            final(self)@.bindings == upserted(
                old(self)@.bindings,
                session_id@,
                app_type@,
                provider_id@,
                now,
            ),
            final(self)@.providers == old(self)@.providers,
            sessions_unique(final(self)@.bindings),
    {
        proof {
            use_type_invariant(&*self);
        }
        let ghost before = self@.bindings;
        let ghost after = upserted(before, session_id@, app_type@, provider_id@, now);
        let found = self.position(session_id);
        proof {
            law_upsert_keeps_sessions_unique(before, session_id@, app_type@, provider_id@, now);
        }
        let mut rows: Vec<BindingRow> = Vec::new();
        std::mem::swap(&mut rows, &mut self.bindings);
        match found {
            Some(i) => {
                let mut row = rows[i].copy();
                row.last_seen_at = now;
                if row.request_count < i64::MAX {
                    row.request_count = row.request_count + 1;
                }
                rows.set(i, row);
                assert(row_views(rows@) =~= after) by {
                    assert forall|k: int| 0 <= k < before.len() && k != i implies (
                    #[trigger] before[k]).session_id != session_id@ by {
                        if k < i {
                            assert(before[k].session_id != before[i as int].session_id);
                        } else {
                            assert(before[i as int].session_id != before[k].session_id);
                        }
                    }
                }
            },
            None => {
                rows.push(
                    BindingRow {
                        session_id: session_id.to_owned(),
                        app_type: app_type.to_owned(),
                        provider_id: provider_id.to_owned(),
                        bound_at: now,
                        last_seen_at: now,
                        request_count: 1,
                    },
                );
                assert(row_views(rows@) =~= after);
            },
        }
        self.bindings = rows;
        Ok(())
    }

    /// Counts a request of the session. A session without a binding is bound to the provider;
    /// one that has a binding keeps it.
    pub fn upsert_session_binding(
        &mut self,
        session_id: &str,
        app_type: &str,
        provider_id: &str,
    ) -> (done: Result<(), AppError>)
        ensures
            done is Ok,
            exists|seconds: Option<u64>| #[trigger]
                is_epoch_reading(seconds) && final(self)@.bindings == upserted(
                    old(self)@.bindings,
                    session_id@,
                    app_type@,
                    provider_id@,
                    timestamp_of(seconds),
                ),
            final(self)@.providers == old(self)@.providers,
            sessions_unique(final(self)@.bindings),
    {
        let now: i64 = Self::unix_now();
        self.upsert_session_binding_at(session_id, app_type, provider_id, now)
    }
}

/// The rows that `keep` keeps, in their order.
fn kept_rows<F: Fn(&BindingRow) -> bool>(
    rows: &Vec<BindingRow>,
    keep: F,
    Ghost(pred): Ghost<spec_fn(BindingView) -> bool>,
) -> (kept: Vec<BindingRow>)
    requires
        forall|row: &BindingRow| #[trigger] keep.requires((row,)),
        forall|row: &BindingRow, answer: bool| #[trigger]
            keep.ensures((row,), answer) ==> answer == pred(row@),
    ensures
        row_views(kept@) == row_views(rows@).filter(pred),
        kept.len() <= rows.len(),
{
    let ghost all = row_views(rows@);
    let mut kept: Vec<BindingRow> = Vec::new();
    let mut i: usize = 0;
    proof {
        reveal(Seq::filter);
        assert(row_views(kept@) =~= all.take(0).filter(pred));
    }
    while i < rows.len()
        invariant
            i <= rows.len(),
            all == row_views(rows@),
            forall|row: &BindingRow| #[trigger] keep.requires((row,)),
            forall|row: &BindingRow, answer: bool| #[trigger]
                keep.ensures((row,), answer) ==> answer == pred(row@),
            row_views(kept@) == all.take(i as int).filter(pred),
        decreases rows.len() - i,
    {
        let ghost before = row_views(kept@);
        proof {
            reveal(Seq::filter);
            assert(all.take(i + 1).drop_last() =~= all.take(i as int));
        }
        if keep(&rows[i]) {
            kept.push(rows[i].copy());
            assert(row_views(kept@) =~= before.push(all[i as int]));
        }
        i += 1;
    }
    proof {
        assert(all.take(i as int) =~= all);
        all.lemma_filter_len(pred);
        assert(row_views(kept@).len() == kept.len());
    }
    kept
}

impl Database {
    /// Removes the binding of a session.
    pub fn remove_session_binding(&mut self, session_id: &str) -> (done: Result<(), AppError>)
        ensures
            done is Ok,
            final(self)@.bindings == without_session(old(self)@.bindings, session_id@),
            final(self)@.providers == old(self)@.providers,
            sessions_unique(final(self)@.bindings),
    {
        proof {
            use_type_invariant(&*self);
        }
        let wanted = session_id.to_owned();
        let ghost pred = |row: BindingView| row.session_id != session_id@;
        let keep = |row: &BindingRow| -> (answer: bool)
            ensures
                answer == (row@.session_id != wanted@),
            { row.session_id != wanted };
        let kept = kept_rows(&self.bindings, keep, Ghost(pred));
        proof {
            lemma_filter_keeps_unique(self@.bindings, pred);
        }
        self.bindings = kept;
        Ok(())
    }

    /// Removes all bindings of an app, and says how many there were.
    pub fn clear_session_bindings_for_app(&mut self, app_type: &str) -> (count: Result<
        usize,
        AppError,
    >)
        ensures
            final(self)@.bindings == without_app(old(self)@.bindings, app_type@),
            final(self)@.providers == old(self)@.providers,
            sessions_unique(final(self)@.bindings),
            count matches Ok(n) && n == old(self)@.bindings.len() - final(self)@.bindings.len(),
    {
        proof {
            use_type_invariant(&*self);
        }
        let wanted = app_type.to_owned();
        let ghost pred = |row: BindingView| row.app_type != app_type@;
        let keep = |row: &BindingRow| -> (answer: bool)
            ensures
                answer == (row@.app_type != wanted@),
            { row.app_type != wanted };
        let kept = kept_rows(&self.bindings, keep, Ghost(pred));
        let count: usize = self.bindings.len() - kept.len();
        proof {
            lemma_filter_keeps_unique(self@.bindings, pred);
        }
        self.bindings = kept;
        Ok(count)
    }

    fn backs(providers: &Vec<ProviderRow>, row: &BindingRow) -> (found: bool)
        ensures
            found == is_backed(provider_views(providers@), row@),
    {
        let ghost views = provider_views(providers@);
        let mut i: usize = 0;
        while i < providers.len()
            invariant
                i <= providers.len(),
                views == provider_views(providers@),
                forall|k: int|
                    0 <= k < i ==> !((#[trigger] views[k]).id == row@.provider_id
                        && views[k].app_type == row@.app_type && views[k].in_failover_queue == 1),
            decreases providers.len() - i,
        {
            if providers[i].id == row.provider_id && providers[i].app_type == row.app_type
                && providers[i].in_failover_queue == 1 {
                assert(views[i as int].id == row@.provider_id);
                return true;
            }
            i += 1;
        }
        false
    }

    /// Removes the bindings to providers that do not exist or are not in the failover queue,
    /// and says how many there were.
    pub fn cleanup_orphaned_session_bindings(&mut self) -> (count: Result<usize, AppError>)
        ensures
            final(self)@.bindings == backed_rows(old(self)@.providers, old(self)@.bindings),
            final(self)@.providers == old(self)@.providers,
            sessions_unique(final(self)@.bindings),
            count matches Ok(n) && n == old(self)@.bindings.len() - final(self)@.bindings.len(),
    {
        proof {
            use_type_invariant(&*self);
        }
        let providers = &self.providers;
        let ghost pred = |row: BindingView| is_backed(provider_views(providers@), row);
        let keep = |row: &BindingRow| -> (answer: bool)
            ensures
                answer == is_backed(provider_views(providers@), row@),
            { Self::backs(providers, row) };
        let kept = kept_rows(&self.bindings, keep, Ghost(pred));
        let count: usize = self.bindings.len() - kept.len();
        proof {
            lemma_filter_keeps_unique(self@.bindings, pred);
        }
        self.bindings = kept;
        Ok(count)
    }

    /// Tables with these rows; nothing where a session has two rows.
    pub fn from_rows(bindings: Vec<BindingRow>, providers: Vec<ProviderRow>) -> (db: Option<
        Database,
    >)
        ensures
            db is Some <==> sessions_unique(row_views(bindings@)),
            db matches Some(d) ==> d@.bindings == row_views(bindings@) && d@.providers
                == provider_views(providers@),
    {
        let ghost views = row_views(bindings@);
        let mut j: usize = 0;
        while j < bindings.len()
            invariant
                j <= bindings.len(),
                views == row_views(bindings@),
                forall|a: int, b: int|
                    0 <= a < b < j ==> (#[trigger] views[a]).session_id != (
                    #[trigger] views[b]).session_id,
            decreases bindings.len() - j,
        {
            let mut i: usize = 0;
            while i < j
                invariant
                    i <= j < bindings.len(),
                    views == row_views(bindings@),
                    forall|a: int|
                        0 <= a < i ==> (#[trigger] views[a]).session_id
                            != views[j as int].session_id,
                decreases j - i,
            {
                if bindings[i].session_id == bindings[j].session_id {
                    assert(views[i as int].session_id == views[j as int].session_id);
                    return None;
                }
                i += 1;
            }
            j += 1;
        }
        Some(Database { bindings, providers })
    }

    /// The rows of the table of session bindings.
    pub fn binding_rows(&self) -> (rows: &Vec<BindingRow>)
        ensures
            row_views(rows@) == self@.bindings,
            sessions_unique(self@.bindings),
    {
        proof {
            use_type_invariant(self);
        }
        &self.bindings
    }
}

pub(crate) proof fn lemma_filter_keeps_unique(rows: Seq<BindingView>, pred: spec_fn(BindingView) -> bool)
    requires
        sessions_unique(rows),
    ensures
        sessions_unique(rows.filter(pred)),
    decreases rows.len(),
{
    reveal(Seq::filter);
    if rows.len() > 0 {
        let head = rows.drop_last();
        lemma_filter_keeps_unique(head, pred);
        let kept = head.filter(pred);
        let all = rows.filter(pred);
        assert forall|i: int, j: int| 0 <= i < j < all.len() implies (
        #[trigger] all[i]).session_id != (#[trigger] all[j]).session_id by {
            if j < kept.len() {
                assert(kept[i].session_id != kept[j].session_id);
            } else {
                lemma_filter_source(head, pred, i);
                let k = choose|k: int| 0 <= k < head.len() && kept[i] == #[trigger] head[k];
                assert(rows[k].session_id != rows[rows.len() - 1].session_id);
            }
        }
    }
}

pub(crate) proof fn lemma_filter_source(rows: Seq<BindingView>, pred: spec_fn(BindingView) -> bool, index: int)
    requires
        0 <= index < rows.filter(pred).len(),
    ensures
        exists|k: int| 0 <= k < rows.len() && rows.filter(pred)[index] == #[trigger] rows[k],
        pred(rows.filter(pred)[index]),
    decreases rows.len(),
{
    reveal(Seq::filter);
    if rows.len() > 0 {
        let head = rows.drop_last();
        if index < head.filter(pred).len() {
            lemma_filter_source(head, pred, index);
            let k = choose|k: int|
                0 <= k < head.len() && head.filter(pred)[index] == #[trigger] head[k];
            assert(rows.filter(pred)[index] == rows[k]);
        } else {
            assert(rows.filter(pred)[index] == rows[rows.len() - 1]);
        }
    }
}

/// Whether `picked` are the positions in the list for an app, as far as the first `upto` rows
/// go.
pub(crate) open spec fn is_listing_of_first(
    rows: Seq<BindingView>,
    upto: int,
    app_type: Seq<char>,
    picked: Seq<int>,
) -> bool {
    &&& forall|i: int|
        0 <= i < picked.len() ==> 0 <= #[trigger] picked[i] < upto && rows[picked[i]].app_type
            == app_type
    &&& forall|i: int, j: int|
        0 <= i < j < picked.len() ==> comes_before(rows, #[trigger] picked[i], #[trigger] picked[j])
    &&& forall|k: int|
        0 <= k < upto && (#[trigger] rows[k]).app_type == app_type ==> picked.contains(k)
}

/// The list for one row more, which goes to its place.
pub(crate) proof fn lemma_listing_step(
    rows: Seq<BindingView>,
    upto: int,
    app_type: Seq<char>,
    picked: Seq<int>,
    place: int,
)
    requires
        0 <= upto < rows.len(),
        is_listing_of_first(rows, upto, app_type, picked),
        rows[upto].app_type == app_type,
        0 <= place <= picked.len(),
        forall|i: int| 0 <= i < place ==> comes_before(rows, #[trigger] picked[i], upto),
        place < picked.len() ==> comes_before(rows, upto, picked[place]),
    ensures
        is_listing_of_first(rows, upto + 1, app_type, picked.insert(place, upto)),
{
    let next = picked.insert(place, upto);
    assert forall|i: int| 0 <= i < next.len() implies 0 <= #[trigger] next[i] < upto + 1
        && rows[next[i]].app_type == app_type by {
        if i < place {
            assert(next[i] == picked[i]);
        } else if i > place {
            assert(next[i] == picked[i - 1]);
        }
    }
    assert forall|i: int| place <= i < picked.len() implies comes_before(
        rows,
        upto,
        #[trigger] picked[i],
    ) by {
        if i > place {
            assert(comes_before(rows, picked[place], picked[i]));
        }
    }
    assert forall|i: int, j: int| 0 <= i < j < next.len() implies comes_before(
        rows,
        #[trigger] next[i],
        #[trigger] next[j],
    ) by {
        let a = if i < place { i } else { i - 1 };
        let b = if j < place { j } else { j - 1 };
        if i != place {
            assert(next[i] == picked[a]);
        }
        if j != place {
            assert(next[j] == picked[b]);
        }
    }
    assert forall|k: int| 0 <= k < upto + 1 && (#[trigger] rows[k]).app_type
        == app_type implies next.contains(k) by {
        if k == upto {
            assert(next[place] == k);
        } else {
            let was = choose|was: int| 0 <= was < picked.len() && picked[was] == k;
            if was < place {
                assert(next[was] == k);
            } else {
                assert(next[was + 1] == k);
            }
        }
    }
}

/// There is only one list for an app.
pub proof fn law_listing_is_unique(
    rows: Seq<BindingView>,
    app_type: Seq<char>,
    first: Seq<int>,
    second: Seq<int>,
)
    requires
        is_listing(rows, app_type, first),
        is_listing(rows, app_type, second),
    ensures
        first == second,
{
    lemma_listings_agree(rows, app_type, first, second, first.len() as int);
    lemma_listings_agree(rows, app_type, second, first, second.len() as int);
    assert(first =~= second);
}

proof fn lemma_listings_agree(
    rows: Seq<BindingView>,
    app_type: Seq<char>,
    first: Seq<int>,
    second: Seq<int>,
    upto: int,
)
    requires
        is_listing(rows, app_type, first),
        is_listing(rows, app_type, second),
        0 <= upto <= first.len(),
    ensures
        upto <= second.len(),
        forall|i: int| 0 <= i < upto ==> first[i] == second[i],
    decreases upto,
{
    if upto > 0 {
        let at = upto - 1;
        lemma_listings_agree(rows, app_type, first, second, at);
        let a = first[at];
        assert(rows[a].app_type == app_type);
        let k = choose|k: int| 0 <= k < second.len() && second[k] == a;
        if k < at {
            assert(comes_before(rows, first[k], first[at]));
        } else if k > at {
            let b = second[at];
            assert(rows[b].app_type == app_type);
            assert(comes_before(rows, second[at], second[k]));
            let m = choose|m: int| 0 <= m < first.len() && first[m] == b;
            if m < at {
                assert(comes_before(rows, second[m], second[at]));
            } else if m > at {
                assert(comes_before(rows, first[at], first[m]));
            }
        }
    }
}

impl Database {
    fn listed_positions(&self, app_type: &str) -> (picked: Vec<usize>)
        ensures
            is_listing(
                self@.bindings,
                app_type@,
                Seq::new(picked@.len(), |i: int| picked@[i] as int),
            ),
    {
        let wanted = app_type.to_owned();
        let ghost rows = self@.bindings;
        let mut picked: Vec<usize> = Vec::new();
        let ghost mut chosen: Seq<int> = Seq::empty();
        let mut k: usize = 0;
        while k < self.bindings.len()
            invariant
                k <= self.bindings.len(),
                rows == self@.bindings,
                rows.len() == self.bindings.len(),
                wanted@ == app_type@,
                chosen.len() == picked.len(),
                forall|i: int| 0 <= i < picked.len() ==> chosen[i] == #[trigger] picked@[i],
                is_listing_of_first(rows, k as int, app_type@, chosen),
            decreases self.bindings.len() - k,
        {
            assert(rows[k as int] == self.bindings@[k as int]@);
            if self.bindings[k].app_type == wanted {
                let seen: i64 = self.bindings[k].last_seen_at;
                let mut place: usize = 0;
                while place < picked.len() && self.bindings[picked[place]].last_seen_at >= seen
                    invariant
                        k < self.bindings.len(),
                        place <= picked.len(),
                        rows == self@.bindings,
                        rows.len() == self.bindings.len(),
                        chosen.len() == picked.len(),
                        seen == rows[k as int].last_seen_at,
                        forall|i: int|
                            0 <= i < picked.len() ==> chosen[i] == #[trigger] picked@[i],
                        forall|i: int| 0 <= i < chosen.len() ==> 0 <= #[trigger] chosen[i] < k,
                        forall|i: int|
                            0 <= i < place ==> comes_before(rows, #[trigger] chosen[i], k as int),
                    decreases picked.len() - place,
                {
                    assert(chosen[place as int] == picked@[place as int]);
                    assert(rows[chosen[place as int]] == self.bindings@[chosen[place as int]]@);
                    place += 1;
                }
                let ghost next = chosen.insert(place as int, k as int);
                proof {
                    if place < picked.len() {
                        assert(chosen[place as int] == picked@[place as int]);
                        assert(rows[chosen[place as int]]
                            == self.bindings@[chosen[place as int]]@);
                    }
                    lemma_listing_step(rows, k as int, app_type@, chosen, place as int);
                }
                picked.insert(place, k);
                proof {
                    assert forall|i: int| 0 <= i < picked.len() implies next[i]
                        == #[trigger] picked@[i] by {
                        if i < place {
                            assert(next[i] == chosen[i]);
                        } else if i > place {
                            assert(next[i] == chosen[i - 1]);
                        }
                    }
                    chosen = next;
                }
            }
            k += 1;
        }
        assert(Seq::new(picked@.len(), |i: int| picked@[i] as int) =~= chosen);
        picked
    }

    /// All bindings of an app, those seen last first.
    pub fn list_session_bindings_for_app(&self, app_type: &str) -> (list: Result<
        Vec<SessionBinding>,
        AppError,
    >)
        ensures
            sessions_unique(self@.bindings),
            list is Ok <==> read_error(listing(self@.bindings, app_type@)) is None,
            list matches Ok(bindings) ==> binding_views(bindings@) == listing(
                self@.bindings,
                app_type@,
            ),
            list matches Err(error) ==> read_error(listing(self@.bindings, app_type@)) == Some(
                error,
            ),
    {
        proof {
            use_type_invariant(self);
        }
        let ghost rows = self@.bindings;
        let ghost listed = listing(rows, app_type@);
        let picked = self.listed_positions(app_type);
        proof {
            let chosen = Seq::new(picked@.len(), |i: int| picked@[i] as int);
            let other = choose|other: Seq<int>| is_listing(rows, app_type@, other);
            law_listing_is_unique(rows, app_type@, chosen, other);
            assert forall|i: int| 0 <= i < picked.len() implies (#[trigger] picked@[i])
                < rows.len() && listed[i] == rows[picked@[i] as int] by {
                assert(chosen[i] == picked@[i]);
            }
        }
        let mut bindings: Vec<SessionBinding> = Vec::new();
        let mut i: usize = 0;
        while i < picked.len()
            invariant
                i <= picked.len(),
                rows == self@.bindings,
                rows.len() == self.bindings.len(),
                sessions_unique(rows),
                listed == listing(rows, app_type@),
                listed.len() == picked.len(),
                bindings.len() == i,
                forall|k: int|
                    0 <= k < picked.len() ==> (#[trigger] picked@[k]) < rows.len() && listed[k]
                        == rows[picked@[k] as int],
                forall|k: int| 0 <= k < i ==> (#[trigger] bindings@[k])@ == listed[k],
                read_error(listed.take(i as int)) is None,
            decreases picked.len() - i,
        {
            assert(listed.take(i + 1).drop_last() =~= listed.take(i as int));
            let at: usize = picked[i];
            assert(listed[i as int] == self.bindings@[at as int]@);
            match self.bindings[at].read() {
                Ok(binding) => bindings.push(binding),
                Err(error) => {
                    proof {
                        lemma_read_error_stays(listed, i + 1);
                    }
                    return Err(error);
                },
            }
            i += 1;
        }
        assert(listed.take(i as int) =~= listed);
        assert(binding_views(bindings@) =~= listed);
        Ok(bindings)
    }
}

proof fn lemma_read_error_stays(rows: Seq<BindingView>, upto: int)
    requires
        0 <= upto <= rows.len(),
        read_error(rows.take(upto)) is Some,
    ensures
        read_error(rows) == read_error(rows.take(upto)),
    decreases rows.len(),
{
    if upto == rows.len() {
        assert(rows.take(upto) =~= rows);
    } else {
        assert(rows.drop_last().take(upto) =~= rows.take(upto));
        lemma_read_error_stays(rows.drop_last(), upto);
    }
}

/// A request adds no second row for a session.
pub proof fn law_upsert_keeps_sessions_unique(
    rows: Seq<BindingView>,
    session_id: Seq<char>,
    app_type: Seq<char>,
    provider_id: Seq<char>,
    now: i64,
)
    requires
        sessions_unique(rows),
    ensures
        sessions_unique(upserted(rows, session_id, app_type, provider_id, now)),
{
    let after = upserted(rows, session_id, app_type, provider_id, now);
    lemma_find_absent(rows, session_id);
    assert forall|i: int, j: int| 0 <= i < j < after.len() implies (#[trigger] after[i]).session_id
        != (#[trigger] after[j]).session_id by {
        if j < rows.len() {
            assert(rows[i].session_id != rows[j].session_id);
        } else {
            assert(rows[i].session_id != session_id);
        }
    }
}

} // verus!
