//! The names of docker containers, asked for once and remembered.

use vstd::prelude::*;
use vstd::string::*;

use crate::command::Error;

verus! {

/// How long a container whose name could not be read is left alone before asking again, in
/// nanoseconds.
///
/// Asking a container that is unwell can take a long time or never be answered at all, and a
/// failure that is not remembered runs again on the very next pass over the same process, several
/// times a second.
pub const NAME_RETRY_AFTER: u64 = 60_000_000_000;

/// How many containers are remembered.
pub const NAMES_KEPT: usize = 200;

/// What is known about one container id's name.
#[derive(Debug, PartialEq)]
pub enum CachedName {
    /// Docker answered. A container id's name does not change, so this stands for the run.
    Known(String),
    /// Asking failed, and is not worth trying again until this passes.
    Failed { until: u64 },
}

/// [`CachedName`] with the name as characters.
pub enum CachedNameView {
    Known(Seq<char>),
    Failed { until: u64 },
}

impl View for CachedName {
    type V = CachedNameView;

    open spec fn view(&self) -> CachedNameView {
        match self {
            CachedName::Known(name) => CachedNameView::Known(name@),
            CachedName::Failed { until } => CachedNameView::Failed { until: *until },
        }
    }
}

/// `lru::LruCache`, a map of bounded size that forgets what was used longest ago.
#[verifier::external_type_specification]
#[verifier::external_body]
#[verifier::reject_recursive_types(K)]
#[verifier::reject_recursive_types(V)]
#[verifier::reject_recursive_types(S)]
pub struct ExLruCache<K, V, S>(lru::LruCache<K, V, S>);

/// The hasher of `lru::LruCache`.
#[verifier::external_type_specification]
#[verifier::external_body]
pub struct ExLruHasher(lru::DefaultHasher);

/// The container ids that a cache holds and what is known of each, the one used last first.
pub uninterp spec fn cache_entries(cache: lru::LruCache<String, CachedName>) -> Seq<
    (Seq<char>, CachedNameView),
>;

/// How many entries a cache was made to hold at most.
pub uninterp spec fn cache_limit(cache: lru::LruCache<String, CachedName>) -> nat;

/// The entries but for the one of `id`.
pub open spec fn entries_without(
    entries: Seq<(Seq<char>, CachedNameView)>,
    id: Seq<char>,
) -> Seq<(Seq<char>, CachedNameView)> {
    entries.filter(|entry: (Seq<char>, CachedNameView)| entry.0 != id)
}

/// There is an entry of `id`, and it is `name`.
pub open spec fn has_entry(
    entries: Seq<(Seq<char>, CachedNameView)>,
    id: Seq<char>,
    name: CachedNameView,
) -> bool {
    entries.contains((id, name))
}

/// There is an entry of `id`.
pub open spec fn has_id(entries: Seq<(Seq<char>, CachedNameView)>, id: Seq<char>) -> bool {
    exists|name: CachedNameView| has_entry(entries, id, name)
}

/// `lru::LruCache::new`: an empty cache that holds at most `limit` entries, for which it sets room
/// aside.
#[verifier::external_body]
fn cache_new(limit: usize) -> (cache: lru::LruCache<String, CachedName>)
    requires
        0 < limit <= NAMES_KEPT,
    ensures
        cache_entries(cache).len() == 0,
        cache_limit(cache) == limit,
{
    lru::LruCache::new(std::num::NonZeroUsize::new(limit).unwrap())
}

/// `lru::LruCache::get`: the value of a key, if the cache holds it, and the entry is then the one
/// used last; nothing else changes.
#[verifier::external_body]
fn cache_get<'a>(
    cache: &'a mut lru::LruCache<String, CachedName>,
    id: &str,
) -> (name: Option<&'a CachedName>)
    ensures
        cache_limit(*final(cache)) == cache_limit(*old(cache)),
        match name {
            Some(name) => {
                &&& has_entry(cache_entries(*old(cache)), id@, name@)
                &&& cache_entries(*final(cache)) == seq![(id@, name@)] + entries_without(
                    cache_entries(*old(cache)),
                    id@,
                )
            },
            None => {
                &&& !has_id(cache_entries(*old(cache)), id@)
                &&& cache_entries(*final(cache)) == cache_entries(*old(cache))
            },
        },
{
    cache.get(id)
}

/// `lru::LruCache::put`: the entry of the key is the given one and is the one used last. Where the
/// key is new and the cache was full, the entry used longest ago is gone; every other stays.
#[verifier::external_body]
fn cache_put(cache: &mut lru::LruCache<String, CachedName>, id: String, name: CachedName)
    ensures
        cache_limit(*final(cache)) == cache_limit(*old(cache)),
        cache_entries(*final(cache)) == seq![(id@, name@)] + (if has_id(
            cache_entries(*old(cache)),
            id@,
        ) {
            entries_without(cache_entries(*old(cache)), id@)
        } else if cache_entries(*old(cache)).len() == cache_limit(*old(cache)) {
            cache_entries(*old(cache)).drop_last()
        } else {
            cache_entries(*old(cache))
        }),
{
    cache.put(id, name);
}

/// No container id stands in two entries.
pub open spec fn ids_distinct(entries: Seq<(Seq<char>, CachedNameView)>) -> bool {
    forall|i: int, j: int|
        0 <= i < j < entries.len() ==> (#[trigger] entries[i]).0 != (#[trigger] entries[j]).0
}

/// What is known of `id`.
pub open spec fn entry_of(
    entries: Seq<(Seq<char>, CachedNameView)>,
    id: Seq<char>,
) -> Option<CachedNameView> {
    if has_id(entries, id) {
        Some(choose|name: CachedNameView| has_entry(entries, id, name))
    } else {
        None
    }
}

/// Whether a container of which this is known is worth asking at the time `now`: not where its
/// name is known, nor where asking failed and the wait is not over.
pub open spec fn worth_asking(known: Option<CachedNameView>, now: u64) -> bool {
    match known {
        Some(CachedNameView::Known(_)) => false,
        Some(CachedNameView::Failed { until }) => until <= now,
        None => true,
    }
}

/// The entries after `id` was asked for: its entry, if there is one, is the one used last.
pub open spec fn entries_used(
    entries: Seq<(Seq<char>, CachedNameView)>,
    id: Seq<char>,
) -> Seq<(Seq<char>, CachedNameView)> {
    match entry_of(entries, id) {
        Some(name) => seq![(id, name)] + entries_without(entries, id),
        None => entries,
    }
}

/// The entries after `name` was learned of `id`: that entry is the one used last, and where the
/// id is new and there is no room, the entry used longest ago is gone.
pub open spec fn entries_learned(
    entries: Seq<(Seq<char>, CachedNameView)>,
    id: Seq<char>,
    name: CachedNameView,
) -> Seq<(Seq<char>, CachedNameView)> {
    seq![(id, name)] + (if has_id(entries, id) {
        entries_without(entries, id)
    } else if entries.len() == NAMES_KEPT {
        entries.drop_last()
    } else {
        entries
    })
}

/// Where ids are distinct, an entry of an id is what is known of it.
pub proof fn lemma_entry_of(
    entries: Seq<(Seq<char>, CachedNameView)>,
    id: Seq<char>,
    name: CachedNameView,
)
    requires
        ids_distinct(entries),
        has_entry(entries, id, name),
    ensures
        entry_of(entries, id) == Some(name),
{
    assert(has_id(entries, id));
    let chosen = choose|n: CachedNameView| has_entry(entries, id, n);
    let i = choose|i: int| 0 <= i < entries.len() && entries[i] == (id, name);
    let j = choose|j: int| 0 <= j < entries.len() && entries[j] == (id, chosen);
    assert(entries[i].0 == entries[j].0);
}

/// Taking one id out leaves the others as they are, and takes out one entry at most.
proof fn lemma_without(entries: Seq<(Seq<char>, CachedNameView)>, id: Seq<char>)
    requires
        ids_distinct(entries),
    ensures
        ids_distinct(entries_without(entries, id)),
        forall|i: int|
            0 <= i < entries_without(entries, id).len() ==> {
                let entry = #[trigger] entries_without(entries, id)[i];
                entry.0 != id && entries.contains(entry)
            },
        forall|k: int|
            0 <= k < entries.len() && (#[trigger] entries[k]).0 != id ==> entries_without(
                entries,
                id,
            ).contains(entries[k]),
        entries_without(entries, id).len() <= entries.len(),
        has_id(entries, id) ==> entries_without(entries, id).len() < entries.len(),
    decreases entries.len(),
{
    reveal(Seq::filter);
    let keep = |entry: (Seq<char>, CachedNameView)| entry.0 != id;
    let rest = entries_without(entries, id);
    if entries.len() > 0 {
        let shorter = entries.drop_last();
        let last = entries.last();
        lemma_without(shorter, id);
        let before = entries_without(shorter, id);
        assert(rest == (if keep(last) {
            before.push(last)
        } else {
            before
        }));
        assert forall|i: int| 0 <= i < rest.len() implies {
            let entry = #[trigger] rest[i];
            entry.0 != id && entries.contains(entry)
        } by {
            if i < before.len() {
                assert(rest[i] == before[i]);
                let k = choose|k: int| 0 <= k < shorter.len() && shorter[k] == before[i];
                assert(entries[k] == before[i]);
            } else {
                assert(rest[i] == last);
                assert(entries[entries.len() - 1] == last);
            }
        }
        assert(ids_distinct(rest)) by {
            if keep(last) {
                assert forall|i: int, j: int| 0 <= i < j < rest.len() implies (
                #[trigger] rest[i]).0 != (#[trigger] rest[j]).0 by {
                    if j < before.len() {
                        assert(rest[i] == before[i] && rest[j] == before[j]);
                    } else {
                        assert(rest[i] == before[i]);
                        let k = choose|k: int| 0 <= k < shorter.len() && shorter[k] == before[i];
                        assert(entries[k].0 != entries[entries.len() - 1].0);
                    }
                }
            }
        }
        assert forall|k: int| 0 <= k < entries.len() && (#[trigger] entries[k]).0
            != id implies rest.contains(entries[k]) by {
            if k < shorter.len() {
                assert(shorter[k] == entries[k]);
                assert(before.contains(entries[k]));
                let m = choose|m: int| 0 <= m < before.len() && before[m] == entries[k];
                assert(rest[m] == entries[k]);
            } else {
                assert(rest[rest.len() - 1] == entries[k]);
            }
        }
        if has_id(entries, id) {
            let name = choose|name: CachedNameView| has_entry(entries, id, name);
            let k = choose|k: int| 0 <= k < entries.len() && entries[k] == (id, name);
            if k < shorter.len() {
                assert(shorter[k] == (id, name));
                assert(has_entry(shorter, id, name));
            }
        }
    }
}

/// The containers that have been asked for.
pub struct NameCache {
    cache: lru::LruCache<String, CachedName>,
}

/// What the cache has to say of a container before it is asked for.
#[derive(Debug, PartialEq)]
pub enum Lookup {
    /// Its name is known.
    Known(String),
    /// Asking failed not long ago: it has no name for now.
    Withheld,
    /// It is worth asking.
    Ask,
}

impl NameCache {
    /// What is remembered, the container used last first.
    pub closed spec fn entries(self) -> Seq<(Seq<char>, CachedNameView)> {
        cache_entries(self.cache)
    }

    /// The cache is the size it was made.
    pub closed spec fn sized(self) -> bool {
        cache_limit(self.cache) == NAMES_KEPT
    }

    /// No container is remembered twice, and no more than fit.
    pub open spec fn wf(self) -> bool {
        &&& self.sized()
        &&& self.entries().len() <= NAMES_KEPT
        &&& ids_distinct(self.entries())
    }

    /// A cache that remembers nothing.
    pub fn new() -> (names: Self)
        ensures
            names.wf(),
            names.entries().len() == 0,
    {
        NameCache { cache: cache_new(NAMES_KEPT) }
    }

    /// What is known of a container at the time `now`.
    pub fn look_up(&mut self, id: &str, now: u64) -> (lookup: Lookup)
        requires
            old(self).wf(),
        ensures
            final(self).wf(),
            final(self).entries() == entries_used(old(self).entries(), id@),
            match entry_of(old(self).entries(), id@) {
                Some(CachedNameView::Known(name)) => lookup matches Lookup::Known(text) && text@
                    == name,
                known => lookup == (if worth_asking(known, now) {
                    Lookup::Ask
                } else {
                    Lookup::Withheld
                }),
            },
    {
        let ghost before = self.entries();
        proof {
            lemma_without(before, id@);
            assert forall|name: CachedNameView| has_entry(before, id@, name) implies entry_of(
                before,
                id@,
            ) == Some(name) by {
                lemma_entry_of(before, id@, name);
            }
        }
        match cache_get(&mut self.cache, id) {
            Some(CachedName::Known(name)) => Lookup::Known(name.clone()),
            Some(CachedName::Failed { until }) => if *until > now {
                Lookup::Withheld
            } else {
                Lookup::Ask
            },
            None => Lookup::Ask,
        }
    }

    /// Takes docker's answer about a container, at the time `now`, and gives it back: the name to
    /// show, or why there is none.
    pub fn answered(&mut self, id: &str, answer: Result<String, Error>, now: u64) -> (name: Result<
        String,
        Error,
    >)
        requires
            old(self).wf(),
            now <= u64::MAX - NAME_RETRY_AFTER,
        ensures
            final(self).wf(),
            match answer {
                Ok(text) => {
                    &&& name matches Ok(shown) && shown@ == text@
                    &&& final(self).entries() == entries_learned(
                        old(self).entries(),
                        id@,
                        CachedNameView::Known(text@),
                    )
                },
                Err(error) => {
                    &&& name == Err::<String, Error>(error)
                    &&& final(self).entries() == entries_learned(
                        old(self).entries(),
                        id@,
                        CachedNameView::Failed { until: (now + NAME_RETRY_AFTER) as u64 },
                    )
                },
            },
    {
        proof {
            lemma_without(old(self).entries(), id@);
        }
        let name = match answer {
            Ok(text) => {
                cache_put(&mut self.cache, id.to_owned(), CachedName::Known(text.clone()));
                Ok(text)
            },
            Err(error) => {
                cache_put(
                    &mut self.cache,
                    id.to_owned(),
                    CachedName::Failed { until: now + NAME_RETRY_AFTER },
                );
                Err(error)
            },
        };
        proof {
            lemma_learned(old(self).entries(), id@, self.entries()[0].1);
        }
        name
    }
}

/// Learning of an id keeps ids distinct and keeps to the limit.
proof fn lemma_learned(
    entries: Seq<(Seq<char>, CachedNameView)>,
    id: Seq<char>,
    name: CachedNameView,
)
    requires
        ids_distinct(entries),
        entries.len() <= NAMES_KEPT,
    ensures
        ids_distinct(entries_learned(entries, id, name)),
        entries_learned(entries, id, name).len() <= NAMES_KEPT,
        entry_of(entries_learned(entries, id, name), id) == Some(name),
{
    lemma_without(entries, id);
    let learned = entries_learned(entries, id, name);
    let rest = learned.skip(1);
    assert forall|i: int, j: int| 0 <= i < j < learned.len() implies (#[trigger] learned[i]).0 != (
    #[trigger] learned[j]).0 by {
        assert(learned[j] == rest[j - 1]);
        if i > 0 {
            assert(learned[i] == rest[i - 1]);
        } else if !has_id(entries, id) {
            assert(learned[j] == entries[j - 1]);
            if learned[j].0 == id {
                assert(has_entry(entries, id, learned[j].1));
            }
        }
    }
    assert(learned[0] == (id, name));
    assert(has_entry(learned, id, name));
    lemma_entry_of(learned, id, name);
}

/// What happens to the cache.
pub enum NameEvent {
    /// A container is looked up.
    LookedUp { id: Seq<char> },
    /// Something is learned of a container.
    Learned { id: Seq<char>, name: CachedNameView },
}

impl NameEvent {
    /// The container that it is about.
    pub open spec fn about(self) -> Seq<char> {
        match self {
            NameEvent::LookedUp { id } => id,
            NameEvent::Learned { id, .. } => id,
        }
    }
}

/// The entries after something has happened.
pub open spec fn entries_then(
    entries: Seq<(Seq<char>, CachedNameView)>,
    event: NameEvent,
) -> Seq<(Seq<char>, CachedNameView)> {
    match event {
        NameEvent::LookedUp { id } => entries_used(entries, id),
        NameEvent::Learned { id, name } => entries_learned(entries, id, name),
    }
}

/// The entries after some things have happened, one after another.
pub open spec fn entries_after(
    entries: Seq<(Seq<char>, CachedNameView)>,
    events: Seq<NameEvent>,
) -> Seq<(Seq<char>, CachedNameView)>
    decreases events.len(),
{
    if events.len() == 0 {
        entries
    } else {
        entries_then(entries_after(entries, events.drop_last()), events.last())
    }
}

/// The containers other than `id` that some things were about.
pub open spec fn others_in(events: Seq<NameEvent>, id: Seq<char>) -> Set<Seq<char>>
    decreases events.len(),
{
    if events.len() == 0 {
        Set::empty()
    } else {
        let earlier = others_in(events.drop_last(), id);
        if events.last().about() == id {
            earlier
        } else {
            earlier.insert(events.last().about())
        }
    }
}

/// Nothing new was learned of a container.
pub open spec fn nothing_learned(events: Seq<NameEvent>, id: Seq<char>) -> bool {
    forall|i: int|
        0 <= i < events.len() ==> !(#[trigger] events[i] is Learned && events[i].about() == id)
}

/// `id` is known, and only containers out of `others` have been used since it was.
pub open spec fn is_recent(
    entries: Seq<(Seq<char>, CachedNameView)>,
    id: Seq<char>,
    name: CachedNameView,
    others: Set<Seq<char>>,
) -> bool {
    exists|at: int| #[trigger] stands_recent(entries, id, name, others, at)
}

/// `id` stands at a place before which there are only containers out of `others`.
pub open spec fn stands_recent(
    entries: Seq<(Seq<char>, CachedNameView)>,
    id: Seq<char>,
    name: CachedNameView,
    others: Set<Seq<char>>,
    at: int,
) -> bool {
    &&& 0 <= at < entries.len()
    &&& entries[at] == (id, name)
    &&& forall|i: int| 0 <= i < at ==> others.contains(#[trigger] entries[i].0)
}

/// Distinct ids at the beginning of the entries are no more than a set that holds them.
proof fn lemma_no_more_than(
    entries: Seq<(Seq<char>, CachedNameView)>,
    at: int,
    others: Set<Seq<char>>,
)
    requires
        ids_distinct(entries),
        0 <= at <= entries.len(),
        others.finite(),
        forall|i: int| 0 <= i < at ==> others.contains(#[trigger] entries[i].0),
    ensures
        at <= others.len(),
    decreases at,
{
    if at > 0 {
        let last = entries[at - 1].0;
        assert forall|i: int| 0 <= i < at - 1 implies others.remove(last).contains(
            #[trigger] entries[i].0,
        ) by {
            assert(entries[i].0 != entries[at - 1].0);
        }
        lemma_no_more_than(entries, at - 1, others.remove(last));
    }
}

proof fn lemma_others_finite(events: Seq<NameEvent>, id: Seq<char>)
    ensures
        others_in(events, id).finite(),
        !others_in(events, id).contains(id),
    decreases events.len(),
{
    if events.len() > 0 {
        lemma_others_finite(events.drop_last(), id);
    }
}

/// Using or learning of one id keeps ids distinct and keeps to the limit.
proof fn lemma_then(entries: Seq<(Seq<char>, CachedNameView)>, event: NameEvent)
    requires
        ids_distinct(entries),
        entries.len() <= NAMES_KEPT,
    ensures
        ids_distinct(entries_then(entries, event)),
        entries_then(entries, event).len() <= NAMES_KEPT,
{
    match event {
        NameEvent::LookedUp { id } => {
            if has_id(entries, id) {
                lemma_without(entries, id);
                let used = entries_used(entries, id);
                let rest = entries_without(entries, id);
                assert forall|i: int, j: int| 0 <= i < j < used.len() implies (
                #[trigger] used[i]).0 != (#[trigger] used[j]).0 by {
                    assert(used[j] == rest[j - 1]);
                    if i > 0 {
                        assert(used[i] == rest[i - 1]);
                    }
                }
            }
        },
        NameEvent::Learned { id, name } => {
            lemma_learned(entries, id, name);
        },
    }
}

/// Taking one id out keeps what stands before another before it.
proof fn lemma_without_keeps_order(
    entries: Seq<(Seq<char>, CachedNameView)>,
    other: Seq<char>,
    id: Seq<char>,
    name: CachedNameView,
    others: Set<Seq<char>>,
    at: int,
)
    requires
        ids_distinct(entries),
        stands_recent(entries, id, name, others, at),
        other != id,
    ensures
        is_recent(entries_without(entries, other), id, name, others),
    decreases entries.len(),
{
    reveal(Seq::filter);
    let keep = |entry: (Seq<char>, CachedNameView)| entry.0 != other;
    let shorter = entries.drop_last();
    let last = entries.last();
    let before = entries_without(shorter, other);
    let rest = entries_without(entries, other);
    assert(rest == (if keep(last) {
        before.push(last)
    } else {
        before
    }));
    if at < entries.len() - 1 {
        assert(stands_recent(shorter, id, name, others, at)) by {
            assert forall|i: int| 0 <= i < at implies others.contains(#[trigger] shorter[i].0) by {
                assert(shorter[i] == entries[i]);
            }
        }
        lemma_without_keeps_order(shorter, other, id, name, others, at);
        let p = choose|p: int| #[trigger] stands_recent(before, id, name, others, p);
        assert(stands_recent(rest, id, name, others, p)) by {
            assert forall|i: int| 0 <= i < p implies others.contains(#[trigger] rest[i].0) by {
                assert(rest[i] == before[i]);
            }
        }
    } else {
        lemma_without(shorter, other);
        let p = before.len() as int;
        assert(rest[p] == (id, name));
        assert forall|i: int| 0 <= i < p implies others.contains(#[trigger] rest[i].0) by {
            assert(rest[i] == before[i]);
            assert(shorter.contains(before[i]));
            let k = choose|k: int| 0 <= k < shorter.len() && shorter[k] == before[i];
            assert(entries[k] == before[i]);
        }
        assert(stands_recent(rest, id, name, others, p));
    }
}

/// One more thing happens, and `id` stays as recent as the containers that have been used since.
proof fn lemma_stays_recent(
    entries: Seq<(Seq<char>, CachedNameView)>,
    id: Seq<char>,
    name: CachedNameView,
    others: Set<Seq<char>>,
    event: NameEvent,
)
    requires
        ids_distinct(entries),
        entries.len() <= NAMES_KEPT,
        is_recent(entries, id, name, others),
        others.finite(),
        event.about() == id ==> !(event is Learned),
        event.about() != id ==> others.insert(event.about()).len() < NAMES_KEPT,
    ensures
        is_recent(
            entries_then(entries, event),
            id,
            name,
            if event.about() == id {
                others
            } else {
                others.insert(event.about())
            },
        ),
{
    let at = choose|at: int| #[trigger] stands_recent(entries, id, name, others, at);
    let next = entries_then(entries, event);
    let other = event.about();
    assert(has_entry(entries, id, name)) by {
        assert(entries[at] == (id, name));
    }
    assert(has_id(entries, id));
    if other == id {
        lemma_entry_of(entries, id, name);
        assert(next[0] == (id, name));
        assert(stands_recent(next, id, name, others, 0));
    } else {
        let more = others.insert(other);
        if has_id(entries, other) {
            let rest = entries_without(entries, other);
            lemma_without_keeps_order(entries, other, id, name, others, at);
            let p = choose|p: int| #[trigger] stands_recent(rest, id, name, others, p);
            assert(next.len() == rest.len() + 1);
            assert forall|i: int| 0 <= i < p + 1 implies more.contains(#[trigger] next[i].0) by {
                if i > 0 {
                    assert(next[i] == rest[i - 1]);
                }
            }
            assert(next[p + 1] == rest[p]);
            assert(stands_recent(next, id, name, more, p + 1));
        } else if event is Learned {
            if entries.len() == NAMES_KEPT && at == entries.len() - 1 {
                assert forall|i: int| 0 <= i < at implies more.remove(other).contains(
                    #[trigger] entries[i].0,
                ) by {
                    if entries[i].0 == other {
                        assert(has_entry(entries, other, entries[i].1));
                    }
                }
                lemma_no_more_than(entries, at, more.remove(other));
            }
            assert forall|i: int| 0 <= i < at + 1 implies more.contains(#[trigger] next[i].0) by {
                if i > 0 {
                    assert(next[i] == entries[i - 1]);
                }
            }
            assert(next[at + 1] == entries[at]);
            assert(stands_recent(next, id, name, more, at + 1));
        } else {
            assert(next == entries);
            assert(stands_recent(next, id, name, more, at));
        }
    }
}

proof fn lemma_recent_after(
    entries: Seq<(Seq<char>, CachedNameView)>,
    id: Seq<char>,
    name: CachedNameView,
    events: Seq<NameEvent>,
)
    requires
        ids_distinct(entries),
        entries.len() <= NAMES_KEPT,
        nothing_learned(events, id),
        others_in(events, id).len() < NAMES_KEPT,
    ensures
        ({
            let after = entries_after(entries_learned(entries, id, name), events);
            &&& ids_distinct(after)
            &&& after.len() <= NAMES_KEPT
            &&& is_recent(after, id, name, others_in(events, id))
        }),
    decreases events.len(),
{
    let learned = entries_learned(entries, id, name);
    lemma_learned(entries, id, name);
    if events.len() == 0 {
        assert(learned[0] == (id, name));
        assert(stands_recent(learned, id, name, others_in(events, id), 0));
    } else {
        let shorter = events.drop_last();
        assert(nothing_learned(shorter, id)) by {
            assert forall|i: int| 0 <= i < shorter.len() implies !(#[trigger] shorter[i] is Learned
                && shorter[i].about() == id) by {
                assert(shorter[i] == events[i]);
            }
        }
        lemma_others_finite(shorter, id);
        lemma_others_finite(events, id);
        assert(others_in(shorter, id).len() <= others_in(events, id).len());
        lemma_recent_after(entries, id, name, shorter);
        let before = entries_after(learned, shorter);
        assert(events[events.len() - 1] == events.last());
        lemma_stays_recent(before, id, name, others_in(shorter, id), events.last());
        lemma_then(before, events.last());
    }
}

/// What was learned of a container stands: whatever is looked up and learned afterwards, as long as
/// it is about fewer other containers than are remembered and nothing new is learned of this one,
/// the same is known of it.
pub proof fn law_learned_stands(
    entries: Seq<(Seq<char>, CachedNameView)>,
    id: Seq<char>,
    name: CachedNameView,
    events: Seq<NameEvent>,
)
    requires
        ids_distinct(entries),
        entries.len() <= NAMES_KEPT,
        nothing_learned(events, id),
        others_in(events, id).len() < NAMES_KEPT,
    ensures
        entry_of(entries_after(entries_learned(entries, id, name), events), id) == Some(name),
{
    lemma_recent_after(entries, id, name, events);
    let after = entries_after(entries_learned(entries, id, name), events);
    let others = others_in(events, id);
    let at = choose|at: int| #[trigger] stands_recent(after, id, name, others, at);
    assert(after[at] == (id, name));
    assert(has_entry(after, id, name));
    lemma_entry_of(after, id, name);
}

/// A name that is known stands for the run: a container whose name was learned is not worth asking
/// again at any time, as long as fewer than two hundred others have been looked up since.
pub proof fn law_known_container_is_not_asked_again(
    entries: Seq<(Seq<char>, CachedNameView)>,
    id: Seq<char>,
    name: Seq<char>,
    events: Seq<NameEvent>,
    later: u64,
)
    requires
        ids_distinct(entries),
        entries.len() <= NAMES_KEPT,
        nothing_learned(events, id),
        others_in(events, id).len() < 200,
    ensures
        ({
            let known = CachedNameView::Known(name);
            let after = entries_after(entries_learned(entries, id, known), events);
            &&& entry_of(after, id) == Some(known)
            &&& !worth_asking(entry_of(after, id), later)
        }),
{
    law_learned_stands(entries, id, CachedNameView::Known(name), events);
}

/// A container whose name could not be read is left alone for as long as [`NAME_RETRY_AFTER`]
/// says, and is worth asking again from then on, whatever is looked up and learned of fewer others
/// than are remembered in between.
pub proof fn law_failed_container_is_left_alone(
    entries: Seq<(Seq<char>, CachedNameView)>,
    id: Seq<char>,
    events: Seq<NameEvent>,
    now: u64,
    later: u64,
)
    requires
        ids_distinct(entries),
        entries.len() <= NAMES_KEPT,
        nothing_learned(events, id),
        others_in(events, id).len() < NAMES_KEPT,
        now <= u64::MAX - NAME_RETRY_AFTER,
    ensures
        ({
            let until = (now + NAME_RETRY_AFTER) as u64;
            let failed = entries_learned(entries, id, CachedNameView::Failed { until });
            worth_asking(entry_of(entries_after(failed, events), id), later) <==> later >= now
                + NAME_RETRY_AFTER
        }),
{
    law_learned_stands(
        entries,
        id,
        CachedNameView::Failed { until: (now + NAME_RETRY_AFTER) as u64 },
        events,
    );
}

/// What happens to one container leaves what is known of another as it is, unless that one was
/// used longest ago and had to make room.
pub proof fn law_others_are_kept(
    entries: Seq<(Seq<char>, CachedNameView)>,
    id: Seq<char>,
    other: Seq<char>,
    learned: CachedNameView,
)
    requires
        ids_distinct(entries),
        entries.len() <= NAMES_KEPT,
        has_id(entries, id),
        other != id,
    ensures
        entry_of(entries_used(entries, other), id) == entry_of(entries, id),
        entries.last().0 != id || entries.len() < NAMES_KEPT || has_id(entries, other)
            ==> entry_of(entries_learned(entries, other, learned), id) == entry_of(entries, id),
{
    let name = choose|name: CachedNameView| has_entry(entries, id, name);
    lemma_entry_of(entries, id, name);
    lemma_without(entries, other);
    let at = choose|k: int| 0 <= k < entries.len() && entries[k] == (id, name);
    let next = entries_learned(entries, other, learned);
    lemma_learned(entries, other, learned);
    let used = entries_used(entries, other);
    if has_id(entries, other) {
        let rest = entries_without(entries, other);
        assert(rest.contains(entries[at]));
        let k = choose|k: int| 0 <= k < rest.len() && rest[k] == (id, name);
        assert(next[k + 1] == (id, name));
        assert(has_entry(next, id, name));
        lemma_entry_of(next, id, name);
        assert(used[k + 1] == (id, name));
        assert(has_entry(used, id, name));
        assert forall|i: int, j: int| 0 <= i < j < used.len() implies (#[trigger] used[i]).0 != (
        #[trigger] used[j]).0 by {
            assert(used[j] == rest[j - 1]);
            if i > 0 {
                assert(used[i] == rest[i - 1]);
            }
        }
        lemma_entry_of(used, id, name);
    } else if entries.last().0 != id || entries.len() < NAMES_KEPT {
        assert(next[at + 1] == (id, name));
        assert(has_entry(next, id, name));
        lemma_entry_of(next, id, name);
    }
}

/// A container of which nothing is known is worth asking, one whose name is known never is, and one
/// that failed is from the moment on that its wait is over.
pub proof fn law_asking_is_for_what_is_not_known(name: Seq<char>, until: u64, now: u64)
    ensures
        worth_asking(None, now),
        !worth_asking(Some(CachedNameView::Known(name)), now),
        worth_asking(Some(CachedNameView::Failed { until }), now) <==> now >= until,
{
}

/// Looking a container up changes nothing of what is known, of it or of any other.
pub proof fn law_looking_up_changes_nothing_known(
    entries: Seq<(Seq<char>, CachedNameView)>,
    id: Seq<char>,
    other: Seq<char>,
)
    requires
        ids_distinct(entries),
    ensures
        entry_of(entries_used(entries, id), other) == entry_of(entries, other),
{
    if has_id(entries, id) {
        let name = choose|name: CachedNameView| has_entry(entries, id, name);
        let rest = entries_without(entries, id);
        let used = entries_used(entries, id);
        lemma_without(entries, id);
        assert(used == seq![(id, name)] + rest);
        assert forall|i: int, j: int| 0 <= i < j < used.len() implies (#[trigger] used[i]).0 != (
        #[trigger] used[j]).0 by {
            assert(used[j] == rest[j - 1]);
            if i > 0 {
                assert(used[i] == rest[i - 1]);
            }
        }
        if other == id {
            lemma_entry_of(entries, id, name);
            assert(used[0] == (id, name));
            assert(has_entry(used, id, name));
            lemma_entry_of(used, id, name);
        } else if has_id(entries, other) {
            let known = choose|known: CachedNameView| has_entry(entries, other, known);
            lemma_entry_of(entries, other, known);
            let k = choose|k: int| 0 <= k < entries.len() && entries[k] == (other, known);
            assert(rest.contains(entries[k]));
            let m = choose|m: int| 0 <= m < rest.len() && rest[m] == (other, known);
            assert(used[m + 1] == (other, known));
            assert(has_entry(used, other, known));
            lemma_entry_of(used, other, known);
        } else if has_id(used, other) {
            let known = choose|known: CachedNameView| has_entry(used, other, known);
            let k = choose|k: int| 0 <= k < used.len() && used[k] == (other, known);
            assert(used[k] == rest[k - 1]);
            assert(entries.contains(rest[k - 1]));
            assert(has_entry(entries, other, known));
        }
    }
}

} // verus!
