//! What a page that is opened is sent: the history it asks for, then every picture that differs
//! from the one before.

use vstd::prelude::*;
use vstd::string::*;

use crate::clock::{moment_before, Timestamp};
use crate::text::{read_unsigned, unsigned_of};

verus! {

/// How far back a page is shown that does not say, in milliseconds.
pub const DEFAULT_HISTORY_MS: u64 = 60_000;

/// How many entries of the history are sent at a time.
pub const HISTORY_BATCH: usize = 1000;

/// The port that is listened on where none is given.
pub const DEFAULT_PORT: u16 = 8080;

/// How many milliseconds of history a page is shown.
pub open spec fn history_span(history_ms: Option<u64>) -> int {
    match history_ms {
        Some(ms) => ms as int,
        None => DEFAULT_HISTORY_MS as int,
    }
}

/// The earliest moment whose entries a page is shown, which must be one that the calendar can
/// name.
pub fn history_min_time(history_ms: Option<u64>, now: Timestamp) -> (since: Timestamp)
    requires
        now.wf(),
        history_span(history_ms) <= i64::MAX,
        (Timestamp {
            unix_nanos: (now.unix_nanos - history_span(history_ms) * 1_000_000) as i128,
        }).wf(),
    ensures
        since.unix_nanos == now.unix_nanos - history_span(history_ms) * 1_000_000,
        since.wf(),
{
    let ms: u64 = match history_ms {
        Some(ms) => ms,
        None => DEFAULT_HISTORY_MS,
    };
    moment_before(now, ms as i64)
}

/// Whether a page can be shown that much history: whether the span and the moment it begins at
/// can be named.
pub fn history_in_range(history_ms: Option<u64>, now: Timestamp) -> (yes: bool)
    requires
        now.wf(),
    ensures
        yes == (history_span(history_ms) <= i64::MAX && (Timestamp {
            unix_nanos: (now.unix_nanos - history_span(history_ms) * 1_000_000) as i128,
        }).wf()),
{
    let ms: u64 = match history_ms {
        Some(ms) => ms,
        None => DEFAULT_HISTORY_MS,
    };
    let earliest: i128 = -377_705_116_800_000_000_000;
    ms <= i64::MAX as u64 && now.unix_nanos - ms as i128 * 1_000_000 >= earliest
}

/// The history that is being put together for a page.
pub struct History<T> {
    since: Timestamp,
    items: Vec<T>,
}

/// What to do after an entry of the log has been taken.
#[derive(Debug, PartialEq)]
pub enum HistoryStep<T> {
    /// Read the next entry.
    Read,
    /// Send these entries. Where the log is at its end, the history is complete with them.
    Send { batch: Vec<T>, finished: bool },
}

/// An entry of the log is recent enough to be shown: it says when it was made, and not before
/// `since`.
pub open spec fn is_recent(updated_at: Option<Timestamp>, since: Timestamp) -> bool {
    match updated_at {
        Some(at) => at.unix_nanos >= since.unix_nanos,
        None => false,
    }
}

/// The entries that wait to be sent once one more has been taken.
pub open spec fn with_entry<T>(
    items: Seq<T>,
    entry: Option<(Option<Timestamp>, T)>,
    since: Timestamp,
) -> Seq<T> {
    match entry {
        Some((updated_at, item)) if is_recent(updated_at, since) => items.push(item),
        _ => items,
    }
}

impl<T> History<T> {
    /// The entries that wait to be sent.
    pub closed spec fn waiting(self) -> Seq<T> {
        self.items@
    }

    /// The earliest moment whose entries are shown.
    pub closed spec fn starts_at(self) -> Timestamp {
        self.since
    }

    /// Fewer wait than are sent at a time.
    pub open spec fn wf(self) -> bool {
        self.waiting().len() < HISTORY_BATCH
    }

    /// A history with nothing in it yet.
    pub fn new(since: Timestamp) -> (history: Self)
        ensures
            history.wf(),
            history.waiting().len() == 0,
            history.starts_at() == since,
    {
        History { since, items: Vec::new() }
    }

    /// Takes the next entry of the log, with the moment it says it was made at, or the end of the
    /// log.
    pub fn take(&mut self, entry: Option<(Option<Timestamp>, T)>) -> (step: HistoryStep<T>)
        requires
            old(self).wf(),
        ensures
            final(self).wf(),
            final(self).starts_at() == old(self).starts_at(),
            ({
                let kept = with_entry(old(self).waiting(), entry, old(self).starts_at());
                if kept.len() == HISTORY_BATCH || entry is None {
                    &&& step matches HistoryStep::Send { batch, finished }
                    &&& batch@ == kept
                    &&& finished == (entry is None)
                    &&& final(self).waiting().len() == 0
                } else {
                    &&& step is Read
                    &&& final(self).waiting() == kept
                }
            }),
            ({
                let kept = match step {
                    HistoryStep::Send { batch, .. } => batch@,
                    HistoryStep::Read => final(self).waiting(),
                };
                match entry {
                    Some((Some(at), item)) if old(self).starts_at().unix_nanos
                        <= at.unix_nanos => kept == old(self).waiting().push(item),
                    _ => kept == old(self).waiting(),
                }
            }),
    {
        let finished: bool = entry.is_none();
        if let Some((Some(at), item)) = entry {
            if at.unix_nanos >= self.since.unix_nanos {
                self.items.push(item);
            }
        }
        if self.items.len() == HISTORY_BATCH || finished {
            let mut batch: Vec<T> = Vec::new();
            std::mem::swap(&mut batch, &mut self.items);
            HistoryStep::Send { batch, finished }
        } else {
            HistoryStep::Read
        }
    }
}

/// The entries that are recent enough, in order.
pub open spec fn recent<T>(entries: Seq<(Option<Timestamp>, T)>, since: Timestamp) -> Seq<T>
    decreases entries.len(),
{
    if entries.len() == 0 {
        Seq::empty()
    } else {
        with_entry(recent(entries.drop_last(), since), Some(entries.last()), since)
    }
}

/// The BLAKE3 digest of bytes.
pub uninterp spec fn blake3_digest(bytes: Seq<u8>) -> Seq<u8>;

/// `blake3::hash`: a digest of 32 bytes that depends on the bytes alone.
#[verifier::external_body]
fn digest_of(bytes: &[u8]) -> (digest: [u8; 32])
    ensures
        digest@ == blake3_digest(bytes@),
{
    *blake3::hash(bytes).as_bytes()
}

/// A picture with this digest is sent where the one before had another.
pub open spec fn passes(last: Seq<u8>, digest: Seq<u8>) -> bool {
    digest != last
}

/// Lets a picture through to the page where it differs from the one before.
pub struct StatsGate {
    last: [u8; 32],
}

impl StatsGate {
    /// The digest of the picture that was seen last.
    pub closed spec fn last_digest(self) -> Seq<u8> {
        self.last@
    }

    /// A gate that nothing has come to yet.
    pub fn new() -> (gate: Self)
        ensures
            gate.last_digest() == Seq::new(32, |i: int| 0u8),
    {
        let gate = StatsGate { last: [0; 32] };
        assert(gate.last_digest() =~= Seq::new(32, |i: int| 0u8));
        gate
    }

    /// Whether a picture with this digest is to be sent.
    pub fn is_news_by_digest(&mut self, digest: [u8; 32]) -> (send: bool)
        ensures
            send == passes(old(self).last_digest(), digest@),
            final(self).last_digest() == digest@,
    {
        let mut i: usize = 0;
        while i < 32
            invariant
                i <= 32,
                self.last@.len() == 32,
                self.last@ == old(self).last@,
                forall|j: int| 0 <= j < i ==> digest@[j] == self.last@[j],
            decreases 32 - i,
        {
            if digest[i] != self.last[i] {
                assert(digest@ != old(self).last@);
                self.last = digest;
                return true;
            }
            i += 1;
        }
        assert(digest@ =~= self.last@);
        false
    }
}

/// What a page that is open has come to: its history first, then the pictures.
pub struct Page<T> {
    history: History<T>,
    gate: StatsGate,
    phase: Phase,
}

/// How far a page is.
#[derive(Debug, Clone, Copy, PartialEq, Eq, Structural)]
pub enum Phase {
    /// The log is being read for its history.
    Reading,
    /// A batch of its history is on its way. It may be the last.
    SendingHistory { finished: bool },
    /// The picture is being looked at.
    Looking,
    /// A picture is on its way.
    SendingPicture,
    /// Nothing has changed since the picture was looked at.
    Waiting,
    /// Nobody is there any more.
    Closed,
}

/// What happens to a page.
#[derive(Debug)]
pub enum PageEvent<T> {
    /// The next entry of the log, with the moment it says it was made at, or the end of the log.
    Entry(Option<(Option<Timestamp>, T)>),
    /// What was sent has been taken, or nobody is there to take it.
    Sent { taken: bool },
    /// The digest of the picture as it is now.
    Picture { digest: [u8; 32] },
    /// The picture has changed.
    Changed,
}

/// What is to be done for a page next.
#[derive(Debug)]
pub enum PageAction<T> {
    /// Read the next entry of the log.
    ReadEntry,
    /// Send these entries of the history.
    SendHistory { batch: Vec<T> },
    /// Look at the picture.
    LookAtPicture,
    /// Send the picture that was looked at.
    SendPicture,
    /// Wait until the picture changes.
    WaitForChange,
    /// Nothing more.
    Close,
    /// Carry on: the event is not one for this moment.
    Nothing,
}

/// What a [`Page`] holds.
#[verifier::ext_equal]
pub struct PageView<T> {
    /// The entries of the history that wait to be sent.
    pub waiting: Seq<T>,
    /// The earliest moment whose entries are shown.
    pub since: Timestamp,
    /// The digest of the picture that was looked at last.
    pub digest: Seq<u8>,
    /// How far the page is.
    pub phase: Phase,
}

/// [`PageAction`] with the entries as a sequence.
#[verifier::ext_equal]
pub enum PageActionView<T> {
    ReadEntry,
    SendHistory { batch: Seq<T> },
    LookAtPicture,
    SendPicture,
    WaitForChange,
    Close,
    Nothing,
}

impl<T> View for Page<T> {
    type V = PageView<T>;

    closed spec fn view(&self) -> PageView<T> {
        PageView {
            waiting: self.history.waiting(),
            since: self.history.starts_at(),
            digest: self.gate.last_digest(),
            phase: self.phase,
        }
    }
}

impl<T> View for PageAction<T> {
    type V = PageActionView<T>;

    open spec fn view(&self) -> PageActionView<T> {
        match self {
            PageAction::ReadEntry => PageActionView::ReadEntry,
            PageAction::SendHistory { batch } => PageActionView::SendHistory { batch: batch@ },
            PageAction::LookAtPicture => PageActionView::LookAtPicture,
            PageAction::SendPicture => PageActionView::SendPicture,
            PageAction::WaitForChange => PageActionView::WaitForChange,
            PageAction::Close => PageActionView::Close,
            PageAction::Nothing => PageActionView::Nothing,
        }
    }
}

impl<T> PageView<T> {
    /// A page that has just been opened.
    pub open spec fn opened(since: Timestamp) -> Self {
        PageView {
            waiting: Seq::empty(),
            since,
            digest: Seq::new(32, |i: int| 0u8),
            phase: Phase::Reading,
        }
    }

    /// Fewer entries wait than are sent at a time.
    pub open spec fn wf(self) -> bool {
        self.waiting.len() < HISTORY_BATCH
    }

    /// The page in another phase.
    pub open spec fn in_phase(self, phase: Phase) -> Self {
        PageView { phase, ..self }
    }

    /// Where the page is once a picture with this digest has been looked at, and what is to be
    /// done: the picture is sent where its digest differs from that of the one before.
    pub open spec fn looked(self, digest: Seq<u8>) -> (Self, PageActionView<T>) {
        if self.phase != Phase::Looking {
            (self, PageActionView::Nothing)
        } else if passes(self.digest, digest) {
            (
                PageView {
                    digest,
                    phase: Phase::SendingPicture,
                    ..self
                },
                PageActionView::SendPicture,
            )
        } else {
            (
                PageView {
                    digest,
                    phase: Phase::Waiting,
                    ..self
                },
                PageActionView::WaitForChange,
            )
        }
    }

    /// Where the page is after an event, and what is to be done: its history goes out in batches
    /// until the log is at its end, then every picture whose digest differs from the one before,
    /// until nobody is there any more.
    pub open spec fn after(self, event: PageEvent<T>) -> (Self, PageActionView<T>) {
        match (self.phase, event) {
            (Phase::Reading, PageEvent::Entry(entry)) => {
                let kept = with_entry(self.waiting, entry, self.since);
                if kept.len() == HISTORY_BATCH || entry is None {
                    (
                        (PageView { waiting: Seq::empty(), ..self }).in_phase(
                            Phase::SendingHistory { finished: entry is None },
                        ),
                        PageActionView::SendHistory { batch: kept },
                    )
                } else {
                    (PageView { waiting: kept, ..self }, PageActionView::ReadEntry)
                }
            },
            (Phase::SendingHistory { finished }, PageEvent::Sent { taken }) => if !taken {
                (self.in_phase(Phase::Closed), PageActionView::Close)
            } else if finished {
                (self.in_phase(Phase::Looking), PageActionView::LookAtPicture)
            } else {
                (self.in_phase(Phase::Reading), PageActionView::ReadEntry)
            },
            (Phase::Looking, PageEvent::Picture { digest }) => self.looked(digest@),
            (Phase::SendingPicture, PageEvent::Sent { taken }) => if taken {
                (self.in_phase(Phase::Waiting), PageActionView::WaitForChange)
            } else {
                (self.in_phase(Phase::Closed), PageActionView::Close)
            },
            (Phase::Waiting, PageEvent::Changed) => (
                self.in_phase(Phase::Looking),
                PageActionView::LookAtPicture,
            ),
            _ => (self, PageActionView::Nothing),
        }
    }
}

impl<T> Page<T> {
    /// A page that is opened, to be shown what was made from `since` on. The first thing to do is
    /// to read the log.
    pub fn open(since: Timestamp) -> (page: Self)
        ensures
            page@ == PageView::<T>::opened(since),
            page@.wf(),
    {
        let page = Page {
            history: History::new(since),
            gate: StatsGate::new(),
            phase: Phase::Reading,
        };
        assert(page@ =~= PageView::<T>::opened(since));
        page
    }

    /// Takes what has happened, and says what to do next.
    pub fn step(&mut self, event: PageEvent<T>) -> (action: PageAction<T>)
        requires
            old(self)@.wf(),
        ensures
            (final(self)@, action@) == old(self)@.after(event),
            final(self)@.wf(),
    {
        let phase: Phase = self.phase;
        match (phase, event) {
            (Phase::Reading, PageEvent::Entry(entry)) => match self.history.take(entry) {
                HistoryStep::Read => PageAction::ReadEntry,
                HistoryStep::Send { batch, finished } => {
                    self.phase = Phase::SendingHistory { finished };
                    assert(self.history.waiting() =~= Seq::<T>::empty());
                    PageAction::SendHistory { batch }
                },
            },
            (Phase::SendingHistory { finished }, PageEvent::Sent { taken }) => {
                if !taken {
                    self.phase = Phase::Closed;
                    PageAction::Close
                } else if finished {
                    self.phase = Phase::Looking;
                    PageAction::LookAtPicture
                } else {
                    self.phase = Phase::Reading;
                    PageAction::ReadEntry
                }
            },
            (Phase::Looking, PageEvent::Picture { digest }) => {
                if self.gate.is_news_by_digest(digest) {
                    self.phase = Phase::SendingPicture;
                    PageAction::SendPicture
                } else {
                    self.phase = Phase::Waiting;
                    PageAction::WaitForChange
                }
            },
            (Phase::SendingPicture, PageEvent::Sent { taken }) => {
                if taken {
                    self.phase = Phase::Waiting;
                    PageAction::WaitForChange
                } else {
                    self.phase = Phase::Closed;
                    PageAction::Close
                }
            },
            (Phase::Waiting, PageEvent::Changed) => {
                self.phase = Phase::Looking;
                PageAction::LookAtPicture
            },
            _ => PageAction::Nothing,
        }
    }

    /// Takes the picture as it is now, and says what to do next.
    pub fn look(&mut self, picture: &[u8]) -> (action: PageAction<T>)
        requires
            old(self)@.wf(),
        ensures
            (final(self)@, action@) == old(self)@.looked(blake3_digest(picture@)),
            final(self)@.wf(),
    {
        self.step(PageEvent::Picture { digest: digest_of(picture) })
    }
}

/// The page is done with its history.
pub open spec fn is_live(phase: Phase) -> bool {
    phase is Looking || phase is SendingPicture || phase is Waiting || phase is Closed
}

/// The page after some events.
pub open spec fn page_after<T>(since: Timestamp, events: Seq<PageEvent<T>>) -> PageView<T>
    decreases events.len(),
{
    if events.len() == 0 {
        PageView::opened(since)
    } else {
        page_after(since, events.drop_last()).after(events.last()).0
    }
}

/// The entries of the log that the page has read over some events.
pub open spec fn entries_read<T>(since: Timestamp, events: Seq<PageEvent<T>>) -> Seq<
    (Option<Timestamp>, T),
>
    decreases events.len(),
{
    if events.len() == 0 {
        Seq::empty()
    } else {
        let earlier = entries_read(since, events.drop_last());
        match (page_after(since, events.drop_last()).phase, events.last()) {
            (Phase::Reading, PageEvent::Entry(Some(entry))) => earlier.push(entry),
            _ => earlier,
        }
    }
}

/// The batches of its history that the page has been sent over some events.
pub open spec fn batches_sent<T>(since: Timestamp, events: Seq<PageEvent<T>>) -> Seq<Seq<T>>
    decreases events.len(),
{
    if events.len() == 0 {
        Seq::empty()
    } else {
        let earlier = batches_sent(since, events.drop_last());
        match page_after(since, events.drop_last()).after(events.last()).1 {
            PageActionView::SendHistory { batch } => earlier.push(batch),
            _ => earlier,
        }
    }
}

/// Whatever happens, a page is sent the recent entries of the log, each once and in order: those
/// that have been sent and those that wait make up all that are recent of what has been read. Once
/// the page is done with its history, none wait.
pub proof fn law_history_is_complete<T>(since: Timestamp, events: Seq<PageEvent<T>>)
    ensures
        ({
            let page = page_after(since, events);
            let sent = batches_sent(since, events);
            &&& page.wf()
            &&& page.since == since
            &&& sent.flatten() + page.waiting == recent(entries_read(since, events), since)
            &&& page.phase is Reading || page.waiting.len() == 0
        }),
    decreases events.len(),
{
    let page = page_after(since, events);
    let sent = batches_sent(since, events);
    if events.len() == 0 {
        let none: Seq<Seq<T>> = Seq::empty();
        assert(none.flatten() =~= Seq::<T>::empty());
        assert(sent.flatten() + page.waiting =~= recent(entries_read(since, events), since));
    } else {
        let shorter = events.drop_last();
        law_history_is_complete(since, shorter);
        let before = page_after(since, shorter);
        let earlier = batches_sent(since, shorter);
        let read = entries_read(since, shorter);
        if let (Phase::Reading, PageEvent::Entry(entry)) = (before.phase, events.last()) {
            let kept = with_entry(before.waiting, entry, since);
            assert(earlier.flatten() + kept =~= with_entry(
                earlier.flatten() + before.waiting,
                entry,
                since,
            ));
            if let Some(entry) = entry {
                assert(read.push(entry).drop_last() =~= read);
            }
            if kept.len() == HISTORY_BATCH || entry is None {
                earlier.lemma_flatten_push(kept);
                assert(sent.flatten() + page.waiting =~= earlier.flatten() + kept);
            }
        }
    }
}

/// Whatever happens, a picture is only sent once the page is done with its history, and nothing is
/// sent once nobody is there any more.
pub proof fn law_history_comes_first<T>(page: PageView<T>, event: PageEvent<T>)
    ensures
        page.after(event).1 is SendPicture ==> is_live(page.phase),
        page.after(event).1 is SendHistory ==> !is_live(page.phase),
        is_live(page.phase) ==> is_live(page.after(event).0.phase),
        page.phase is Closed ==> page.after(event) == (page, PageActionView::<T>::Nothing),
{
}

/// A picture that comes again is not sent again: once one has been looked at, another is sent where
/// its digest differs, and only there.
pub proof fn law_repeated_picture_is_not_sent<T>(page: PageView<T>, first: Seq<u8>, second: Seq<u8>)
    requires
        page.phase is Looking,
    ensures
        ({
            let seen = page.looked(first).0.in_phase(Phase::Looking);
            seen.looked(second).1 is SendPicture <==> first != second
        }),
{
}

/// The port to listen on: what the first argument says, and where there is none, what the
/// environment says, and where it says nothing, the usual one. What is not a port is refused.
pub fn chosen_port(argument: Option<&str>, environment: Option<&str>) -> (port: Option<u16>)
    ensures
        match given_port(argument, environment) {
            Some(text) => match port {
                Some(p) => unsigned_of(text.spec_bytes(), u16::MAX as nat) == Some(p as nat),
                None => unsigned_of(text.spec_bytes(), u16::MAX as nat) is None,
            },
            None => port == Some(DEFAULT_PORT),
        },
{
    let text: &str = match argument {
        Some(text) => text,
        None => match environment {
            Some(text) => text,
            None => return Some(DEFAULT_PORT),
        },
    };
    match read_unsigned(text.as_bytes(), u16::MAX as u64) {
        Some(port) => Some(port as u16),
        None => None,
    }
}

/// Where the port is said: the argument before the environment.
pub open spec fn given_port<'a>(argument: Option<&'a str>, environment: Option<&'a str>) -> Option<
    &'a str,
> {
    if argument is Some {
        argument
    } else {
        environment
    }
}

/// An entry of the log is shown exactly where it says when it was made and that is not before
/// `since`, however long after it was. The ones that are shown come in the order of the log, each
/// once.
pub proof fn law_shown_is_what_was_made_since<T>(
    entries: Seq<(Option<Timestamp>, T)>,
    since: Timestamp,
)
    ensures
        recent(entries, since) == entries.filter(
            |entry: (Option<Timestamp>, T)|
                entry.0 is Some && since.unix_nanos <= entry.0->0.unix_nanos,
        ).map_values(|entry: (Option<Timestamp>, T)| entry.1),
        forall|i: int|
            0 <= i < entries.len() && (#[trigger] entries[i]).0 is Some && since.unix_nanos
                <= entries[i].0->0.unix_nanos ==> recent(entries, since).contains(entries[i].1),
    decreases entries.len(),
{
    reveal(Seq::filter);
    let made_since = |entry: (Option<Timestamp>, T)|
        entry.0 is Some && since.unix_nanos <= entry.0->0.unix_nanos;
    let item = |entry: (Option<Timestamp>, T)| entry.1;
    let shown = recent(entries, since);
    if entries.len() == 0 {
        assert(entries.filter(made_since).map_values(item) =~= shown);
    } else {
        let earlier = entries.drop_last();
        let before = recent(earlier, since);
        law_shown_is_what_was_made_since(earlier, since);
        assert(entries.filter(made_since).map_values(item) =~= shown);
        assert forall|i: int|
            0 <= i < entries.len() && (#[trigger] entries[i]).0 is Some && since.unix_nanos
                <= entries[i].0->0.unix_nanos implies shown.contains(entries[i].1) by {
            if i < earlier.len() {
                assert(earlier[i] == entries[i]);
                assert(before.contains(entries[i].1));
                let k = before.index_of(entries[i].1);
                assert(shown[k] == entries[i].1);
            } else {
                assert(shown[shown.len() - 1] == entries[i].1);
            }
        }
    }
}

/// An entry that was made at a moment joins those that wait exactly where the moment is not before
/// `since`, and one that does not say when it was made does not. What waits already is kept.
pub proof fn law_entry_is_kept_from_since_on<T>(
    items: Seq<T>,
    at: Timestamp,
    item: T,
    since: Timestamp,
)
    ensures
        since.unix_nanos <= at.unix_nanos ==> with_entry(items, Some((Some(at), item)), since)
            == items.push(item),
        since.unix_nanos > at.unix_nanos ==> with_entry(items, Some((Some(at), item)), since)
            == items,
        with_entry(items, Some((None, item)), since) == items,
        with_entry(items, None::<(Option<Timestamp>, T)>, since) == items,
{
}

/// While its history is read, a page goes on to the next entry until a thousand wait or the log is
/// at its end, and then all that wait are sent. Every batch but the last is a thousand entries, and
/// a log that is at its end is the end of the history.
pub proof fn law_history_goes_out_in_batches<T>(
    page: PageView<T>,
    entry: Option<(Option<Timestamp>, T)>,
)
    requires
        page.phase is Reading,
        page.waiting.len() < 1000,
    ensures
        ({
            let (next, action) = page.after(PageEvent::Entry(entry));
            let kept = match entry {
                Some((Some(at), item)) if page.since.unix_nanos
                    <= at.unix_nanos => page.waiting.push(item),
                _ => page.waiting,
            };
            &&& next.since == page.since
            &&& next.digest == page.digest
            &&& entry is None ==> {
                &&& action == (PageActionView::SendHistory { batch: kept })
                &&& next.phase == (Phase::SendingHistory { finished: true })
            }
            &&& entry is Some && kept.len() == 1000 ==> {
                &&& action == (PageActionView::SendHistory { batch: kept })
                &&& next.phase == (Phase::SendingHistory { finished: false })
            }
            &&& entry is Some && kept.len() < 1000 ==> {
                &&& action == PageActionView::<T>::ReadEntry
                &&& next.phase is Reading
                &&& next.waiting == kept
            }
            &&& action is SendHistory ==> next.waiting.len() == 0
        }),
{
}

/// A page that is there is served on: a batch that was taken is followed by the next entry, and the
/// last one by the picture; a picture that was taken is followed by the next change, and a change
/// by a look at the picture. It is closed only when nobody takes what is sent.
pub proof fn law_page_is_served_on<T>(page: PageView<T>, event: PageEvent<T>)
    ensures
        ({
            let (next, action) = page.after(event);
            let gone = event == (PageEvent::<T>::Sent { taken: false });
            let taken = event == (PageEvent::<T>::Sent { taken: true });
            &&& page.phase == (Phase::SendingHistory { finished: false }) && taken
                ==> action is ReadEntry && next.phase is Reading
            &&& page.phase == (Phase::SendingHistory { finished: true }) && taken
                ==> action is LookAtPicture && next.phase is Looking
            &&& page.phase is SendingPicture && taken ==> action is WaitForChange && next.phase
                is Waiting
            &&& page.phase is Waiting && event is Changed ==> action is LookAtPicture && next.phase
                is Looking
            &&& (page.phase is SendingHistory || page.phase is SendingPicture) && gone
                ==> action is Close && next.phase is Closed
            &&& !(page.phase is Closed) && !gone ==> !(next.phase is Closed)
            &&& action is Close ==> gone
            &&& next.since == page.since
            &&& !(event is Picture) ==> next.digest == page.digest
            &&& !(event is Entry) ==> next.waiting == page.waiting
        }),
{
}

/// What does not belong to the moment changes nothing: an entry while none is read, a picture while
/// none is looked at, a change while none is waited for, and word of a delivery while none is out.
pub proof fn law_untimely_event_changes_nothing<T>(page: PageView<T>, event: PageEvent<T>)
    requires
        event is Entry ==> !(page.phase is Reading),
        event is Picture ==> !(page.phase is Looking),
        event is Changed ==> !(page.phase is Waiting),
        event is Sent ==> !(page.phase is SendingHistory || page.phase is SendingPicture),
    ensures
        page.after(event) == (page, PageActionView::<T>::Nothing),
{
}

/// A picture that is looked at is sent exactly where its digest is not that of the picture before
/// it, and is the one that the next is held against either way.
pub proof fn law_picture_is_sent_where_it_differs<T>(page: PageView<T>, digest: [u8; 32])
    requires
        page.phase is Looking,
    ensures
        ({
            let (next, action) = page.after(PageEvent::Picture { digest });
            &&& (next, action) == page.looked(digest@)
            &&& action is SendPicture <==> digest@ != page.digest
            &&& action is SendPicture || action is WaitForChange
            &&& action is SendPicture ==> next.phase is SendingPicture
            &&& action is WaitForChange ==> next.phase is Waiting
            &&& next.digest == digest@
            &&& next.waiting == page.waiting
            &&& next.since == page.since
        }),
{
}

/// A page is shown as much history as it asks for, and a minute where it does not say.
pub proof fn law_history_is_as_long_as_asked(ms: u64)
    ensures
        history_span(Some(ms)) == ms,
        history_span(None) == 60_000,
{
}

/// What the first argument says of the port goes before what the environment says, and what either
/// says is taken as it is.
pub proof fn law_argument_goes_before_environment<'a>(
    argument: &'a str,
    environment: Option<&'a str>,
)
    ensures
        given_port(Some(argument), environment) == Some(argument),
        given_port(None, environment) == environment,
{
}

} // verus!
