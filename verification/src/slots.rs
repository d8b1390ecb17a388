//! One section of the page as last gathered, and whether it is still to be believed.

use std::sync::Arc;

use vstd::prelude::*;

use crate::clock::{
    moment_of_unix_secs, unix_secs_of, whole_seconds, whole_seconds_between, Timestamp,
    MAX_UNIX_SECS, MIN_UNIX_SECS,
};
use crate::structures::{Section, SourceStatus};

verus! {

/// A source that has answered within three of its own intervals is doing fine; this is the floor
/// under that, so the fastest sources are not called stale over a momentary hiccup.
pub const MIN_STALE_AFTER_SECS: i64 = 10;

/// The time of the last answer, before a source has ever answered.
pub const NEVER: i64 = i64::MIN;

/// `std::sync::Arc::clone`: another pointer to the same value.
#[verifier::external_body]
pub(crate) fn share<T>(value: &Arc<T>) -> (shared: Arc<T>)
    ensures
        shared == *value,
{
    Arc::clone(value)
}

/// A section held by pointer, and which of its source's gathers it is.
#[derive(Debug)]
pub struct Held<T> {
    pub value: Arc<T>,
    pub version: u64,
}

impl<T> Held<T> {
    /// Whether both are the same gather of one source.
    pub fn is_same_gather(&self, other: &Self) -> (yes: bool)
        ensures
            yes == (self.version == other.version),
    {
        self.version == other.version
    }
}

/// One section of the page, as last gathered by the source that owns it.
#[derive(Debug)]
pub struct Slot<T> {
    value: Arc<T>,
    version: u64,
    last_ok: i64,
    interval_millis: u32,
}

/// What a [`Slot`] holds.
#[verifier::ext_equal]
pub struct SlotView<T> {
    /// What was gathered last.
    pub value: T,
    /// Which gather that is. Moves by one whenever something new is handed on.
    pub version: u64,
    /// Unix seconds of the last successful gather, or [`NEVER`].
    pub last_ok: i64,
    /// How often the source gathers.
    pub interval_millis: u32,
}

impl<T> View for Slot<T> {
    type V = SlotView<T>;

    closed spec fn view(&self) -> SlotView<T> {
        SlotView {
            value: *self.value,
            version: self.version,
            last_ok: self.last_ok,
            interval_millis: self.interval_millis,
        }
    }
}

/// The version after another.
pub open spec fn version_after(version: u64) -> u64 {
    if version == u64::MAX {
        0
    } else {
        (version + 1) as u64
    }
}

impl<T> SlotView<T> {
    /// The source has answered at a moment.
    pub open spec fn marked_ok(self, now: Timestamp) -> Self {
        SlotView { last_ok: now.unix_secs() as i64, ..self }
    }

    /// The source has answered at a moment, and has handed on something new.
    pub open spec fn moved_to(self, value: T, now: Timestamp) -> Self {
        SlotView { value, version: version_after(self.version), ..self.marked_ok(now) }
    }

    /// The time of the last answer is one that the calendar can name.
    pub open spec fn wf(self) -> bool {
        self.last_ok == NEVER || MIN_UNIX_SECS <= self.last_ok <= MAX_UNIX_SECS
    }

    /// How long this source may go without answering before its section is not to be believed:
    /// three of its intervals, rounded up to whole seconds, and no less than the floor.
    pub open spec fn patience_secs(self) -> int {
        let three = (self.interval_millis * 3 + 999) / 1000;
        if three < MIN_STALE_AFTER_SECS {
            MIN_STALE_AFTER_SECS as int
        } else {
            three
        }
    }

    /// When the section was last gathered.
    pub open spec fn gathered_at(self, now: Timestamp) -> Option<Timestamp> {
        if self.last_ok == NEVER {
            None
        } else if MIN_UNIX_SECS <= self.last_ok <= MAX_UNIX_SECS {
            Some(Timestamp { unix_nanos: (self.last_ok * 1_000_000_000) as i128 })
        } else {
            Some(now)
        }
    }

    /// The source has not answered for longer than it may.
    pub open spec fn is_behind(self, now: Timestamp) -> bool {
        match self.gathered_at(now) {
            None => true,
            Some(at) => whole_seconds(now.unix_nanos - at.unix_nanos) > self.patience_secs(),
        }
    }

    /// When the section was last gathered, and whether it has fallen behind.
    pub open spec fn status_at(self, now: Timestamp, watching_for_secs: i64) -> SourceStatus {
        SourceStatus {
            updated_at: self.gathered_at(now),
            stale: watching_for_secs > self.patience_secs() && self.is_behind(now),
        }
    }
}

impl<T> Slot<T> {
    /// The slot before its source has ever answered.
    pub fn new(value: T, interval_millis: u32) -> (slot: Self)
        ensures
            slot@ == (SlotView { value, version: 0, last_ok: NEVER, interval_millis }),
    {
        Slot { value: Arc::new(value), version: 0, last_ok: NEVER, interval_millis }
    }

    /// What was gathered last.
    pub fn load(&self) -> (held: Held<T>)
        ensures
            *held.value == self@.value,
            held.version == self@.version,
    {
        Held { value: share(&self.value), version: self.version }
    }

    /// Hands on a gather the source keeps its own copy of, and says whether anything moved.
    ///
    /// A value equal to the one already published is not handed on: the source is recorded as
    /// having answered, but a section that has not moved wakes nobody and costs no copy.
    pub fn publish(&mut self, value: &T, now: Timestamp) -> (moved: bool) where T: Clone + Section
        requires
            now.wf(),
        ensures
            moved == !old(self)@.value.same_as(value),
            if moved {
                cloned(*value, final(self)@.value) && final(self)@ == old(self)@.moved_to(
                    final(self)@.value,
                    now,
                )
            } else {
                final(self)@ == old(self)@.marked_ok(now)
            },
    {
        self.mark_ok(now);
        if self.value.is_same(value) {
            return false;
        }
        let copy = value.clone();
        self.store(copy);
        true
    }

    /// [`Self::publish`] for a value built fresh each round, which can be handed on as it is.
    pub fn publish_owned(&mut self, value: T, now: Timestamp) -> (moved: bool) where T: Section
        requires
            now.wf(),
        ensures
            moved == !old(self)@.value.same_as(&value),
            final(self)@ == (if moved {
                old(self)@.moved_to(value, now)
            } else {
                old(self)@.marked_ok(now)
            }),
    {
        self.mark_ok(now);
        if self.value.is_same(&value) {
            return false;
        }
        self.store(value);
        true
    }

    /// [`Self::publish_owned`] for a value that cannot be compared, so always handed on.
    pub fn publish_always(&mut self, value: T, now: Timestamp)
        requires
            now.wf(),
        ensures
            final(self)@ == old(self)@.moved_to(value, now),
    {
        self.mark_ok(now);
        self.store(value);
    }

    fn store(&mut self, value: T)
        ensures
            final(self)@ == (SlotView {
                value,
                version: version_after(old(self)@.version),
                ..old(self)@
            }),
    {
        self.value = Arc::new(value);
        self.version = self.version.wrapping_add(1);
    }

    fn mark_ok(&mut self, now: Timestamp)
        requires
            now.wf(),
        ensures
            final(self)@ == old(self)@.marked_ok(now),
            final(self)@.wf(),
    {
        self.last_ok = unix_secs_of(now);
    }

    /// How long this source may go without answering before its section is not to be believed.
    pub fn stale_after_secs(&self) -> (secs: i64)
        ensures
            secs == self@.patience_secs(),
    {
        let three: i64 = (self.interval_millis as i64 * 3 + 999) / 1000;
        if three < MIN_STALE_AFTER_SECS {
            MIN_STALE_AFTER_SECS
        } else {
            three
        }
    }

    /// When this section was last gathered, and whether it has fallen behind.
    ///
    /// `watching_for_secs` is how long something has been watching. Staleness is not judged before
    /// a source has had that long to answer, because the sources park when nobody is watching and
    /// every section would otherwise read as stale for the first moments after a page is opened.
    pub fn status(&self, now: Timestamp, watching_for_secs: i64) -> (status: SourceStatus)
        requires
            now.wf(),
        ensures
            status == self@.status_at(now, watching_for_secs),
    {
        let threshold: i64 = self.stale_after_secs();
        let updated_at: Option<Timestamp> = if self.last_ok == NEVER {
            None
        } else {
            match moment_of_unix_secs(self.last_ok) {
                Some(at) => Some(at),
                None => Some(now),
            }
        };
        let behind: bool = match updated_at {
            None => true,
            Some(at) => whole_seconds_between(now, at) > threshold,
        };
        SourceStatus { updated_at, stale: watching_for_secs > threshold && behind }
    }
}

/// One state of a slot comes next after another: its source has answered, and may have handed
/// something on.
pub open spec fn follows<T>(after: SlotView<T>, before: SlotView<T>) -> bool {
    ||| after.version == before.version && after.value == before.value
    ||| after.version == version_after(before.version)
}

/// One slot's states, one after another.
pub open spec fn is_history<T>(states: Seq<SlotView<T>>) -> bool {
    forall|i: int, j: int|
        0 <= i && j == i + 1 && j < states.len() ==> follows(
            #[trigger] states[j],
            #[trigger] states[i],
        )
}

/// How often something was handed on over a history.
pub open spec fn times_moved<T>(states: Seq<SlotView<T>>) -> nat
    decreases states.len(),
{
    if states.len() <= 1 {
        0
    } else {
        times_moved(states.drop_last()) + (if states.last().version == states[states.len()
            - 2].version {
            0nat
        } else {
            1nat
        })
    }
}

proof fn lemma_version_counts<T>(states: Seq<SlotView<T>>)
    requires
        states.len() > 0,
        is_history(states),
    ensures
        states.last().version == (states[0].version + times_moved(states))
            % 0x1_0000_0000_0000_0000,
        times_moved(states) == 0 ==> states.last().value == states[0].value,
    decreases states.len(),
{
    if states.len() > 1 {
        let earlier = states.drop_last();
        assert(is_history(earlier));
        lemma_version_counts(earlier);
        assert(earlier[0] == states[0]);
        assert(earlier.last() == states[states.len() - 2]);
        assert(follows(states[states.len() - 1], states[states.len() - 2]));
        lemma_count_on((states[0].version + times_moved(earlier)) as nat);
    }
}

proof fn lemma_count_on(count: nat)
    ensures
        (count + 1) % 0x1_0000_0000_0000_0000 == (if count % 0x1_0000_0000_0000_0000
            == 0xffff_ffff_ffff_ffff {
            0
        } else {
            count % 0x1_0000_0000_0000_0000 + 1
        }),
{
}

/// A gather is known by its version: as long as a source hands things on fewer than 2 to the power
/// of 64 times in between, the same version is the same value, and a version that differs has been
/// handed on.
pub proof fn law_version_tells_gathers_apart<T>(states: Seq<SlotView<T>>)
    requires
        states.len() > 0,
        is_history(states),
        times_moved(states) < 0x1_0000_0000_0000_0000,
    ensures
        states.last().version == states[0].version <==> times_moved(states) == 0,
        states.last().version == states[0].version ==> states.last().value == states[0].value,
{
    lemma_version_counts(states);
}

/// Publishing only ever makes history: whatever a source publishes, its slot's next state follows
/// the one before it. It is one that has moved exactly where something was handed on, and the time
/// of the last answer stays one that the calendar can name.
pub proof fn law_publishing_makes_history<T>(states: Seq<SlotView<T>>, value: T, now: Timestamp)
    requires
        states.len() > 0,
        is_history(states),
    ensures
        is_history(states.push(states.last().marked_ok(now))),
        is_history(states.push(states.last().moved_to(value, now))),
        times_moved(states.push(states.last().marked_ok(now))) == times_moved(states),
        times_moved(states.push(states.last().moved_to(value, now))) == times_moved(states) + 1,
        now.wf() ==> states.last().marked_ok(now).wf(),
        now.wf() ==> states.last().moved_to(value, now).wf(),
{
    let marked = states.push(states.last().marked_ok(now));
    let moved = states.push(states.last().moved_to(value, now));
    assert(is_history(marked));
    assert(is_history(moved));
    assert(marked.drop_last() =~= states);
    assert(moved.drop_last() =~= states);
}

/// A section is never called stale before its source has been watched for as long as it may be
/// silent.
pub proof fn law_not_judged_too_early<T>(slot: SlotView<T>, now: Timestamp, watching_for_secs: i64)
    requires
        watching_for_secs <= slot.patience_secs(),
    ensures
        !slot.status_at(now, watching_for_secs).stale,
{
}

/// A source that has answered within its patience is not stale, however long it is watched, and
/// the page shows the second in which it answered.
pub proof fn law_answering_is_not_stale<T>(
    slot: SlotView<T>,
    answered: Timestamp,
    now: Timestamp,
    watching_for_secs: i64,
)
    requires
        answered.wf(),
        now.unix_secs() - answered.unix_secs() <= slot.patience_secs(),
    ensures
        !slot.marked_ok(answered).status_at(now, watching_for_secs).stale,
        slot.marked_ok(answered).status_at(now, watching_for_secs).updated_at matches Some(at)
            && at.unix_secs() == answered.unix_secs() && at.wf(),
{
    let at = slot.marked_ok(answered).gathered_at(now)->0;
    assert(at.unix_nanos == answered.unix_secs() * 1_000_000_000);
}

/// A source that has not answered for longer than its patience is called stale once it has been
/// watched for that long, and so is one that has never answered.
pub proof fn law_silence_is_stale<T>(slot: SlotView<T>, now: Timestamp, watching_for_secs: i64)
    requires
        slot.wf(),
        watching_for_secs > slot.patience_secs(),
        slot.last_ok != NEVER ==> now.unix_secs() - slot.last_ok > slot.patience_secs(),
    ensures
        slot.status_at(now, watching_for_secs).stale,
{
}

/// A source is given three of its own intervals to answer, to the second above, and never less than
/// ten seconds.
pub proof fn law_patience_is_three_intervals<T>(slot: SlotView<T>)
    ensures
        slot.patience_secs() >= 10,
        slot.patience_secs() * 1000 >= 3 * slot.interval_millis,
        slot.patience_secs() > 10 ==> (slot.patience_secs() - 1) * 1000 < 3 * slot.interval_millis,
{
}

/// An answer that changes nothing leaves the section as it is, and one that hands something on puts
/// that in its place; either way the source has answered at that moment, and goes on at its own
/// rate.
pub proof fn law_publishing_is_answering<T>(
    slot: SlotView<T>,
    value: T,
    answered: Timestamp,
    now: Timestamp,
    watching_for_secs: i64,
)
    requires
        answered.wf(),
    ensures
        slot.marked_ok(answered).value == slot.value,
        slot.marked_ok(answered).version == slot.version,
        slot.moved_to(value, answered).value == value,
        slot.moved_to(value, answered).version != slot.version,
        slot.marked_ok(answered).last_ok == answered.unix_secs(),
        slot.moved_to(value, answered).last_ok == answered.unix_secs(),
        slot.marked_ok(answered).interval_millis == slot.interval_millis,
        slot.moved_to(value, answered).interval_millis == slot.interval_millis,
        slot.moved_to(value, answered).status_at(now, watching_for_secs) == slot.marked_ok(
            answered,
        ).status_at(now, watching_for_secs),
{
}

/// A source that has never answered has no time on the page, and one that has shows the second in
/// which it answered last.
pub proof fn law_page_shows_the_last_answer<T>(
    slot: SlotView<T>,
    now: Timestamp,
    watching_for_secs: i64,
)
    requires
        slot.wf(),
    ensures
        slot.last_ok == NEVER ==> slot.status_at(now, watching_for_secs).updated_at is None,
        slot.last_ok != NEVER ==> (slot.status_at(now, watching_for_secs).updated_at matches Some(
            at,
        ) && at.unix_nanos == slot.last_ok * 1_000_000_000),
{
}

} // verus!
