//! Which providers are known not to support `count_tokens`.
//!
//! A provider that failed such a request is marked. For five minutes its requests are
//! answered by the estimate at once; after that it is tried again.

use crate::clock::{has_passed, instant_now, nanos_since};
use std::time::Instant;
use vstd::prelude::*;

verus! {

/// How long a mark counts, in nanoseconds: five minutes.
pub const UNSUPPORTED_CACHE_TTL: u128 = 300_000_000_000;

/// When each provider in the list was marked. Of several entries for one provider the last
/// one counts.
pub open spec fn mark_times(marks: Seq<(String, u128)>) -> Map<Seq<char>, u128>
    decreases marks.len(),
{
    if marks.len() == 0 {
        Map::empty()
    } else {
        mark_times(marks.drop_last()).insert(marks.last().0@, marks.last().1)
    }
}

/// Whether no provider is in the list twice.
pub open spec fn marked_once(marks: Seq<(String, u128)>) -> bool {
    forall|i: int, j: int|
        0 <= i < j < marks.len() ==> (#[trigger] marks[i]).0@ != (#[trigger] marks[j]).0@
}

proof fn lemma_absent(marks: Seq<(String, u128)>, provider: Seq<char>)
    requires
        forall|i: int| 0 <= i < marks.len() ==> (#[trigger] marks[i]).0@ != provider,
    ensures
        !mark_times(marks).contains_key(provider),
    decreases marks.len(),
{
    if marks.len() > 0 {
        assert(marks.last().0@ != provider);
        lemma_absent(marks.drop_last(), provider);
    }
}

proof fn lemma_present(marks: Seq<(String, u128)>, index: int)
    requires
        marked_once(marks),
        0 <= index < marks.len(),
    ensures
        mark_times(marks).contains_key(marks[index].0@),
        mark_times(marks)[marks[index].0@] == marks[index].1,
    decreases marks.len(),
{
    if index < marks.len() - 1 {
        assert(marks[index].0@ != marks.last().0@);
        assert(marked_once(marks.drop_last()));
        lemma_present(marks.drop_last(), index);
    }
}

proof fn lemma_update(marks: Seq<(String, u128)>, index: int, mark: (String, u128))
    requires
        marked_once(marks),
        0 <= index < marks.len(),
        marks[index].0@ == mark.0@,
    ensures
        marked_once(marks.update(index, mark)),
        mark_times(marks.update(index, mark)) == mark_times(marks).insert(mark.0@, mark.1),
    decreases marks.len(),
{
    let after = marks.update(index, mark);
    assert forall|i: int, j: int| 0 <= i < j < after.len() implies (#[trigger] after[i]).0@ != (
    #[trigger] after[j]).0@ by {
        assert(marks[i].0@ != marks[j].0@);
    }
    if index == marks.len() - 1 {
        assert(after.drop_last() =~= marks.drop_last());
    } else {
        assert(marks[index].0@ != marks.last().0@);
        assert(marked_once(marks.drop_last()));
        lemma_update(marks.drop_last(), index, mark);
        assert(after.drop_last() =~= marks.drop_last().update(index, mark));
    }
    assert(mark_times(after) =~= mark_times(marks).insert(mark.0@, mark.1));
}

/// How long after `marked` it is at `now`; no time where `now` is earlier.
pub open spec fn time_between(marked: u128, now: u128) -> int {
    if now >= marked {
        now - marked
    } else {
        0
    }
}

/// Whether a provider counts as one without support at `now`: it was marked less than five
/// minutes before.
pub open spec fn is_unsupported(
    marks: Map<Seq<char>, u128>,
    provider: Seq<char>,
    now: u128,
) -> bool {
    marks.contains_key(provider) && time_between(marks[provider], now) < UNSUPPORTED_CACHE_TTL
}

/// The providers that were marked, each with the time of its last mark, in nanoseconds since
/// the cache was made.
pub struct UnsupportedCache {
    started: Instant,
    marks: Vec<(String, u128)>,
}

impl View for UnsupportedCache {
    type V = Map<Seq<char>, u128>;

    closed spec fn view(&self) -> Map<Seq<char>, u128> {
        mark_times(self.marks@)
    }
}

impl UnsupportedCache {
    #[verifier::type_invariant]
    spec fn inv(&self) -> bool {
        marked_once(self.marks@)
    }

    /// The time from which the marks count.
    pub closed spec fn origin(&self) -> Instant {
        self.started
    }

    /// A cache without marks.
    pub fn new() -> (cache: UnsupportedCache)
        ensures
            cache@ == Map::<Seq<char>, u128>::empty(),
    {
        UnsupportedCache { started: instant_now(), marks: Vec::new() }
    }

    fn position(&self, provider_id: &str) -> (index: Option<usize>)
        ensures
            index matches Some(i) ==> i < self.marks.len() && self.marks@[i as int].0@
                == provider_id@,
            index is None ==> forall|i: int|
                0 <= i < self.marks.len() ==> (#[trigger] self.marks@[i]).0@ != provider_id@,
    {
        let wanted = provider_id.to_owned();
        let mut i: usize = 0;
        while i < self.marks.len()
            invariant
                i <= self.marks.len(),
                wanted@ == provider_id@,
                forall|k: int| 0 <= k < i ==> (#[trigger] self.marks@[k]).0@ != provider_id@,
            decreases self.marks.len() - i,
        {
            if self.marks[i].0 == wanted {
                return Some(i);
            }
            i += 1;
        }
        None
    }

    /// Whether the provider counts as one without support at `now`.
    pub fn is_unsupported_at(&self, provider_id: &str, now: u128) -> (found: bool)
        ensures
            found == is_unsupported(self@, provider_id@, now),
    {
        proof {
            use_type_invariant(self);
        }
        match self.position(provider_id) {
            Some(i) => {
                proof {
                    lemma_present(self.marks@, i as int);
                }
                let marked: u128 = self.marks[i].1;
                now < marked || now - marked < UNSUPPORTED_CACHE_TTL
            },
            None => {
                proof {
                    lemma_absent(self.marks@, provider_id@);
                }
                false
            },
        }
    }

    /// Marks the provider at `now`, in place of an earlier mark.
    pub fn mark_at(&mut self, provider_id: &str, now: u128)
        ensures
            final(self)@ == old(self)@.insert(provider_id@, now),
            final(self).origin() == old(self).origin(),
    {
        proof {
            use_type_invariant(&*self);
        }
        let found = self.position(provider_id);
        let mark: (String, u128) = (provider_id.to_owned(), now);
        let mut marks: Vec<(String, u128)> = Vec::new();
        std::mem::swap(&mut marks, &mut self.marks);
        match found {
            Some(i) => {
                proof {
                    lemma_update(marks@, i as int, mark);
                }
                marks.set(i, mark);
            },
            None => {
                let ghost before = marks@;
                marks.push(mark);
                assert(marks@.drop_last() =~= before);
            },
        }
        self.marks = marks;
    }
}

/// Whether the provider was marked as one that does not support `count_tokens`, and the mark
/// still counts.
pub fn is_count_tokens_unsupported(cache: &UnsupportedCache, provider_id: &str) -> (found: bool)
    ensures
        exists|now: u128| #[trigger]
            has_passed(cache.origin(), now) && found == is_unsupported(cache@, provider_id@, now),
{
    let now: u128 = nanos_since(&cache.started);
    assert(has_passed(cache.origin(), now));
    cache.is_unsupported_at(provider_id, now)
}

/// Marks the provider as one that does not support `count_tokens`.
pub fn mark_count_tokens_unsupported(cache: &mut UnsupportedCache, provider_id: &str)
    ensures
        exists|now: u128| #[trigger]
            has_passed(old(cache).origin(), now) && final(cache)@ == old(cache)@.insert(
                provider_id@,
                now,
            ),
        final(cache).origin() == old(cache).origin(),
{
    let now: u128 = nanos_since(&cache.started);
    cache.mark_at(provider_id, now);
}

/// A mark counts for five minutes, and no longer: the provider counts as one without support
/// exactly until the time is up. An earlier mark no longer matters.
pub proof fn law_mark_counts_for_five_minutes(
    marks: Map<Seq<char>, u128>,
    provider: Seq<char>,
    marked: u128,
    now: u128,
)
    ensures
        is_unsupported(marks.insert(provider, marked), provider, now) <==> now < marked
            + UNSUPPORTED_CACHE_TTL,
{
}

/// Marking a provider changes nothing for another one.
pub proof fn law_mark_leaves_other_providers(
    marks: Map<Seq<char>, u128>,
    provider: Seq<char>,
    other: Seq<char>,
    marked: u128,
    now: u128,
)
    requires
        other != provider,
    ensures
        is_unsupported(marks.insert(provider, marked), other, now) == is_unsupported(
            marks,
            other,
            now,
        ),
{
}

/// Once a mark no longer counts, it does not come back by itself.
pub proof fn law_expired_mark_stays_expired(
    marks: Map<Seq<char>, u128>,
    provider: Seq<char>,
    now: u128,
    later: u128,
)
    requires
        now <= later,
        !is_unsupported(marks, provider, now),
    ensures
        !is_unsupported(marks, provider, later),
{
}

} // verus!
