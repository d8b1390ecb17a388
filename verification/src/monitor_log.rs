//! The log of pictures: where each goes, and how they are read back.
//!
//! The log is a row of files, a new one every hour. A picture is written as one run of bytes, its
//! record, at the end of the last file. What the records say is up to the codec; here they are
//! bytes.

use vstd::prelude::*;

use crate::clock::Timestamp;
use crate::text::{decimal, decimal_text};

verus! {

/// How long a file is written to before a new one is begun, in nanoseconds.
pub const FILE_SPAN: u64 = 3_600_000_000_000;

/// How many bytes are read at a time, unless the codec asks for more.
pub const READ_LEN: usize = 4096;

/// One file of the log.
#[derive(Debug, Clone, Copy, PartialEq, Eq, Structural)]
pub struct LogFile {
    /// How many bytes have been written to it.
    pub size: u64,
    /// When it was begun.
    pub start_time: Timestamp,
}

/// A piece of a record that is to be written.
#[derive(Debug, Clone, Copy, PartialEq, Eq, Structural)]
pub struct WritePlan {
    /// Which file to write to.
    pub file: usize,
    /// Where in it.
    pub offset: u64,
}

/// The files once a record has been taken: a new one is begun where the last has been written to
/// for long enough.
pub open spec fn files_for_record(
    files: Seq<LogFile>,
    begun_at: u64,
    start_time: Timestamp,
    now: u64,
) -> Seq<LogFile> {
    if now - begun_at >= FILE_SPAN {
        files.push(LogFile { size: 0, start_time })
    } else {
        files
    }
}

/// The files once `n` bytes have been written: the last is that much longer.
pub open spec fn files_after_write(files: Seq<LogFile>, n: nat) -> Seq<LogFile> {
    files.drop_last().push(
        LogFile { size: (files.last().size + n) as u64, start_time: files.last().start_time },
    )
}

/// The files of the log, and what is still to be written.
pub struct MonitorLog {
    files: Vec<LogFile>,
    begun_at: u64,
    pending: Vec<u8>,
}

impl MonitorLog {
    /// The files, in the order in which they were begun.
    pub closed spec fn log_files(self) -> Seq<LogFile> {
        self.files@
    }

    /// When the last file was begun, on the clock that the span of a file is measured with.
    pub closed spec fn last_begun_at(self) -> u64 {
        self.begun_at
    }

    /// What of the record that is being written has not been written yet.
    pub closed spec fn unwritten(self) -> Seq<u8> {
        self.pending@
    }

    /// There is a file to write to.
    pub open spec fn wf(self) -> bool {
        self.log_files().len() > 0
    }

    /// A log with its first file begun at `start_time`.
    pub fn new(start_time: Timestamp, now: u64) -> (log: Self)
        ensures
            log.wf(),
            log.log_files() == seq![LogFile { size: 0, start_time }],
            log.last_begun_at() == now,
            log.unwritten().len() == 0,
    {
        let mut files: Vec<LogFile> = Vec::new();
        files.push(LogFile { size: 0, start_time });
        let log = MonitorLog { files, begun_at: now, pending: Vec::new() };
        assert(log.log_files() =~= seq![LogFile { size: 0, start_time }]);
        log
    }

    /// The files of the log.
    pub fn files(&self) -> (files: &Vec<LogFile>)
        ensures
            files@ == self.log_files(),
    {
        &self.files
    }

    /// What a file of the log is called.
    pub fn file_name(index: usize) -> (name: String)
        ensures
            name@ == decimal(index as nat),
    {
        decimal_text(index as u64)
    }

    /// Whether the last file has been written to for long enough.
    pub fn is_new_file_due(&self, now: u64) -> (due: bool)
        ensures
            due == (now - self.last_begun_at() >= FILE_SPAN),
    {
        now.saturating_sub(self.begun_at) >= FILE_SPAN
    }

    /// Begins a new file and says which it is.
    pub fn create_log_file(&mut self, start_time: Timestamp, now: u64) -> (index: usize)
        requires
            old(self).wf(),
        ensures
            final(self).wf(),
            index == old(self).log_files().len(),
            final(self).log_files() == old(self).log_files().push(LogFile { size: 0, start_time }),
            final(self).last_begun_at() == now,
            final(self).unwritten() == old(self).unwritten(),
    {
        let index: usize = self.files.len();
        self.files.push(LogFile { size: 0, start_time });
        self.begun_at = now;
        index
    }

    /// Takes a record that is to be written after all that has been taken before, and begins a
    /// new file for it where one is due, of which it says which it is.
    pub fn log_update(
        &mut self,
        record: Vec<u8>,
        start_time: Timestamp,
        now: u64,
    ) -> (begun: Option<usize>)
        requires
            old(self).wf(),
        ensures
            final(self).wf(),
            final(self).unwritten() == old(self).unwritten() + record@,
            final(self).log_files() == files_for_record(
                old(self).log_files(),
                old(self).last_begun_at(),
                start_time,
                now,
            ),
            if now - old(self).last_begun_at() >= FILE_SPAN {
                &&& begun == Some(old(self).log_files().len() as usize)
                &&& final(self).log_files().len() == begun->0 + 1
                &&& final(self).last_begun_at() == now
            } else {
                &&& begun is None
                &&& final(self).last_begun_at() == old(self).last_begun_at()
            },
    {
        let mut record = record;
        self.pending.append(&mut record);
        if self.is_new_file_due(now) {
            Some(self.create_log_file(start_time, now))
        } else {
            None
        }
    }

    /// What is to be written.
    pub fn pending(&self) -> (pending: &Vec<u8>)
        ensures
            pending@ == self.unwritten(),
    {
        &self.pending
    }

    /// Where it is to be written: at the end of the last file, as long as there is anything.
    pub fn next_write(&self) -> (plan: Option<WritePlan>)
        requires
            self.wf(),
        ensures
            match plan {
                Some(plan) => {
                    &&& self.unwritten().len() > 0
                    &&& plan.file == self.log_files().len() - 1
                    &&& plan.offset == self.log_files().last().size
                },
                None => self.unwritten().len() == 0,
            },
    {
        if self.pending.len() == 0 {
            return None;
        }
        let file: usize = self.files.len() - 1;
        Some(WritePlan { file, offset: self.files[file].size })
    }

    /// The first `n` bytes have been written.
    pub fn wrote(&mut self, n: usize)
        requires
            old(self).wf(),
            0 < n <= old(self).unwritten().len(),
            old(self).log_files().last().size + n <= u64::MAX,
        ensures
            final(self).wf(),
            final(self).last_begun_at() == old(self).last_begun_at(),
            final(self).unwritten() == old(self).unwritten().skip(n as int),
            final(self).log_files() == files_after_write(old(self).log_files(), n as nat),
    {
        let last: usize = self.files.len() - 1;
        let mut file: LogFile = self.files[last];
        file.size = file.size + n as u64;
        self.files.set(last, file);
        let rest: Vec<u8> = self.pending.split_off(n);
        self.pending = rest;
        assert(self.unwritten() =~= old(self).unwritten().skip(n as int));
        assert(self.log_files() =~= old(self).log_files().drop_last().push(file));
    }
}

/// What came of the last thing that a cursor asked for.
#[derive(Debug, PartialEq)]
pub enum LogEvent {
    /// The next record is wanted.
    Wanted,
    /// The codec found a record in the first `used` bytes.
    Decoded { used: usize },
    /// The codec found the beginning of a record, and would go on with so many more bytes.
    Incomplete { additional: usize },
    /// The codec found no record.
    Broken,
    /// These bytes were read; none at the end of the file.
    Read { bytes: Vec<u8> },
}

/// What a cursor asks for, or what it has come to.
#[derive(Debug, Clone, Copy, PartialEq, Eq, Structural)]
pub enum LogAction {
    /// Let the codec look for a record in the bytes that have been read.
    Decode,
    /// Read at most so many bytes of a file, from `pos` on.
    Read { file: usize, pos: u64, len: usize },
    /// The record that the codec found is the next one.
    Yield,
    /// There is no further record yet.
    Finished,
    /// What the codec was given is no record.
    Broken,
}

/// A place in the log, from which it is read on.
pub struct LogCursor {
    file_index: usize,
    pos: u64,
    buffer: Vec<u8>,
    read_len: usize,
}

/// [`LogCursor`] as what it stands for.
#[verifier::ext_equal]
pub struct CursorView {
    /// Which file is read.
    pub file: int,
    /// From where on it is read.
    pub pos: int,
    /// What has been read and not yet decoded.
    pub buffer: Seq<u8>,
    /// How many bytes the last read could have taken, where its buffer is still at hand.
    pub read_len: int,
}

impl View for LogCursor {
    type V = CursorView;

    closed spec fn view(&self) -> CursorView {
        CursorView {
            file: self.file_index as int,
            pos: self.pos as int,
            buffer: self.buffer@,
            read_len: self.read_len as int,
        }
    }
}

/// The number of files, counted from the first, that were begun no later than `timestamp`: those
/// before the first that was begun later.
pub open spec fn begun_by(files: Seq<LogFile>, timestamp: Timestamp) -> nat
    decreases files.len(),
{
    if files.len() == 0 || files[0].start_time.unix_nanos > timestamp.unix_nanos {
        0
    } else {
        1 + begun_by(files.skip(1), timestamp)
    }
}

impl CursorView {
    /// At the beginning of a file, with nothing read.
    pub open spec fn at_file(file: int) -> Self {
        CursorView { file, pos: 0, buffer: Seq::empty(), read_len: 0 }
    }

    /// Asks for at least `wanted` bytes, as long as there is a file to read.
    pub open spec fn read_more(self, wanted: int, file_count: int) -> (Self, LogAction) {
        let len = if self.read_len > wanted {
            self.read_len
        } else {
            wanted
        };
        if self.file >= file_count {
            (CursorView { read_len: 0, ..self }, LogAction::Finished)
        } else {
            (
                CursorView { read_len: len, ..self },
                LogAction::Read {
                    file: self.file as usize,
                    pos: self.pos as u64,
                    len: len as usize,
                },
            )
        }
    }

    /// What has been read is decoded, and where nothing has, more is read.
    pub open spec fn begin_round(self, file_count: int) -> (Self, LogAction) {
        if self.buffer.len() > 0 {
            (self, LogAction::Decode)
        } else {
            self.read_more(READ_LEN as int, file_count)
        }
    }

    /// Where the cursor stands, and what it asks for, after an event: a record that was found
    /// leaves the buffer, what was read joins it, and at the end of a file the next is read from
    /// its beginning, if there is one.
    pub open spec fn after(self, event: LogEvent, file_count: int) -> (Self, LogAction) {
        match event {
            LogEvent::Wanted => self.begin_round(file_count),
            LogEvent::Decoded { used } => (
                CursorView { buffer: self.buffer.skip(used as int), ..self },
                LogAction::Yield,
            ),
            LogEvent::Incomplete { additional } => self.read_more(
                if additional > READ_LEN {
                    additional as int
                } else {
                    READ_LEN as int
                },
                file_count,
            ),
            LogEvent::Broken => (self, LogAction::Broken),
            LogEvent::Read { bytes } => if bytes@.len() > 0 {
                (CursorView {
                    pos: self.pos + bytes@.len(),
                    buffer: self.buffer + bytes@,
                    ..self
                }).begin_round(file_count)
            } else if self.file == file_count - 1 {
                (CursorView { read_len: 0, ..self }, LogAction::Finished)
            } else {
                (CursorView { file: self.file + 1, pos: 0, read_len: 0, ..self }).begin_round(
                    file_count,
                )
            },
        }
    }
}

impl MonitorLog {
    /// A cursor at the beginning of the log.
    pub fn cursor(&self) -> (cursor: LogCursor)
        ensures
            cursor@ == CursorView::at_file(0),
    {
        let cursor = LogCursor { file_index: 0, pos: 0, buffer: Vec::new(), read_len: 0 };
        assert(cursor@ =~= CursorView::at_file(0));
        cursor
    }
}

impl LogCursor {
    /// The bytes that have been read and not yet decoded.
    pub fn buffer(&self) -> (buffer: &Vec<u8>)
        ensures
            buffer@ == self@.buffer,
    {
        &self.buffer
    }

    /// Goes to the file that holds what was logged at this moment: the last that was begun no
    /// later, and the first where all were begun later.
    pub fn skip_to_hour(&mut self, files: &Vec<LogFile>, timestamp: Timestamp)
        ensures
            final(self)@ == CursorView::at_file(
                if begun_by(files@, timestamp) > 0 {
                    begun_by(files@, timestamp) - 1
                } else {
                    0
                },
            ),
    {
        self.pos = 0;
        self.buffer.clear();
        self.read_len = 0;
        let mut count: usize = 0;
        assert(files@.skip(0) =~= files@);
        while count < files.len() && files[count].start_time.unix_nanos <= timestamp.unix_nanos
            invariant
                count <= files@.len(),
                begun_by(files@, timestamp) == count + begun_by(
                    files@.skip(count as int),
                    timestamp,
                ),
                self.pos == 0,
                self.buffer@.len() == 0,
                self.read_len == 0,
            decreases files@.len() - count,
        {
            assert(files@.skip(count as int).skip(1) =~= files@.skip(count + 1));
            count += 1;
        }
        assert(begun_by(files@.skip(count as int), timestamp) == 0);
        self.file_index = if count > 0 {
            count - 1
        } else {
            0
        };
        assert(self@.buffer =~= Seq::<u8>::empty());
    }

    fn read_more(&mut self, wanted: usize, file_count: usize) -> (action: LogAction)
        ensures
            (final(self)@, action) == old(self)@.read_more(wanted as int, file_count as int),
    {
        if self.file_index >= file_count {
            self.read_len = 0;
            return LogAction::Finished;
        }
        if self.read_len < wanted {
            self.read_len = wanted;
        }
        LogAction::Read { file: self.file_index, pos: self.pos, len: self.read_len }
    }

    fn begin_round(&mut self, file_count: usize) -> (action: LogAction)
        ensures
            (final(self)@, action) == old(self)@.begin_round(file_count as int),
    {
        if self.buffer.len() > 0 {
            LogAction::Decode
        } else {
            self.read_more(READ_LEN, file_count)
        }
    }

    /// Goes on towards the next record of the log, which has `file_count` files: takes what came
    /// of the last thing that was asked for, and says what to do next.
    pub fn next(&mut self, event: LogEvent, file_count: usize) -> (action: LogAction)
        requires
            event matches LogEvent::Decoded { used } ==> used <= old(self)@.buffer.len(),
            event matches LogEvent::Read { bytes } ==> {
                &&& old(self)@.file < file_count
                &&& old(self)@.pos + bytes@.len() <= u64::MAX
            },
        ensures
            (final(self)@, action) == old(self)@.after(event, file_count as int),
    {
        match event {
            LogEvent::Wanted => self.begin_round(file_count),
            LogEvent::Decoded { used } => {
                let rest: Vec<u8> = self.buffer.split_off(used);
                self.buffer = rest;
                assert(self.buffer@ =~= old(self)@.buffer.skip(used as int));
                LogAction::Yield
            },
            LogEvent::Incomplete { additional } => {
                let wanted: usize = if additional > READ_LEN {
                    additional
                } else {
                    READ_LEN
                };
                self.read_more(wanted, file_count)
            },
            LogEvent::Broken => LogAction::Broken,
            LogEvent::Read { bytes } => {
                if bytes.len() == 0 {
                    self.read_len = 0;
                    if self.file_index == file_count - 1 {
                        return LogAction::Finished;
                    }
                    self.file_index = self.file_index + 1;
                    self.pos = 0;
                } else {
                    let mut bytes = bytes;
                    self.pos = self.pos + bytes.len() as u64;
                    self.buffer.append(&mut bytes);
                }
                self.begin_round(file_count)
            },
        }
    }
}

/// Skipping to a moment loses nothing that was logged from it on. Where the files were begun one
/// after another, every file that is skipped was followed by one begun no later than the moment,
/// and every file after the one that is skipped to was begun later.
pub proof fn law_skipped_files_are_older(files: Seq<LogFile>, timestamp: Timestamp)
    requires
        forall|i: int, j: int|
            0 <= i < j < files.len() ==> (#[trigger] files[i]).start_time.unix_nanos <= (
            #[trigger] files[j]).start_time.unix_nanos,
    ensures
        begun_by(files, timestamp) <= files.len(),
        forall|i: int|
            0 <= i < begun_by(files, timestamp) ==> (#[trigger] files[i]).start_time.unix_nanos
                <= timestamp.unix_nanos,
        forall|i: int|
            begun_by(files, timestamp) <= i < files.len() ==> (
            #[trigger] files[i]).start_time.unix_nanos > timestamp.unix_nanos,
    decreases files.len(),
{
    if files.len() > 0 && files[0].start_time.unix_nanos <= timestamp.unix_nanos {
        let rest = files.skip(1);
        assert forall|i: int, j: int| 0 <= i < j < rest.len() implies (
        #[trigger] rest[i]).start_time.unix_nanos <= (
        #[trigger] rest[j]).start_time.unix_nanos by {
            assert(rest[i] == files[i + 1] && rest[j] == files[j + 1]);
        }
        law_skipped_files_are_older(rest, timestamp);
        assert forall|i: int| 0 <= i < begun_by(files, timestamp) implies (
        #[trigger] files[i]).start_time.unix_nanos <= timestamp.unix_nanos by {
            if i > 0 {
                assert(files[i] == rest[i - 1]);
            }
        }
        assert forall|i: int| begun_by(files, timestamp) <= i < files.len() implies (
        #[trigger] files[i]).start_time.unix_nanos > timestamp.unix_nanos by {
            assert(files[i] == rest[i - 1]);
        }
    } else if files.len() > 0 {
        assert forall|i: int| 0 <= i < files.len() implies (
        #[trigger] files[i]).start_time.unix_nanos > timestamp.unix_nanos by {
            if i > 0 {
                assert(files[0].start_time.unix_nanos <= files[i].start_time.unix_nanos);
            }
        }
    }
}

/// What is left to read from a place on, in a log whose files hold `contents`.
pub open spec fn unread(cursor: CursorView, contents: Seq<Seq<u8>>) -> Seq<u8> {
    cursor.buffer + (if cursor.file < contents.len() {
        contents[cursor.file].skip(cursor.pos) + contents.skip(cursor.file + 1).flatten()
    } else {
        Seq::empty()
    })
}

/// The cursor stands in the log, or behind its last file.
pub open spec fn stands_in(cursor: CursorView, contents: Seq<Seq<u8>>) -> bool {
    &&& 0 <= cursor.file
    &&& 0 <= cursor.pos
    &&& cursor.file < contents.len() ==> cursor.pos <= contents[cursor.file].len()
}

/// An event is what the log and a codec give: a read gives what the file holds from the place on,
/// and nothing only at the end of the file, and a record is found in bytes that have been read.
pub open spec fn event_is_true(
    event: LogEvent,
    cursor: CursorView,
    contents: Seq<Seq<u8>>,
) -> bool {
    match event {
        LogEvent::Decoded { used } => used <= cursor.buffer.len(),
        LogEvent::Read { bytes } => {
            &&& cursor.file < contents.len()
            &&& cursor.pos + bytes@.len() <= contents[cursor.file].len()
            &&& bytes@ == contents[cursor.file].subrange(cursor.pos, cursor.pos + bytes@.len())
            &&& bytes@.len() == 0 ==> cursor.pos == contents[cursor.file].len()
        },
        _ => true,
    }
}

/// Reading on loses nothing and repeats nothing: what is left to read stays what it was, but for
/// the bytes of a record that was found, which are gone from the front of it. Where a read came
/// to the end of the log, only what has been read is left.
pub proof fn law_reading_loses_nothing(
    cursor: CursorView,
    event: LogEvent,
    contents: Seq<Seq<u8>>,
)
    requires
        stands_in(cursor, contents),
        event_is_true(event, cursor, contents),
    ensures
        ({
            let (next, action) = cursor.after(event, contents.len() as int);
            &&& stands_in(next, contents)
            &&& unread(next, contents) == (match event {
                LogEvent::Decoded { used } => unread(cursor, contents).skip(used as int),
                _ => unread(cursor, contents),
            })
            &&& cursor.file < contents.len() ==> next.file < contents.len()
            &&& action == LogAction::Finished ==> unread(next, contents) == next.buffer
        }),
{
    let (next, action) = cursor.after(event, contents.len() as int);
    match event {
        LogEvent::Decoded { used } => {
            assert(unread(next, contents) =~= unread(cursor, contents).skip(used as int));
        },
        LogEvent::Read { bytes } => {
            if bytes@.len() > 0 {
                assert(contents[cursor.file].skip(cursor.pos) =~= bytes@ + contents[next.file].skip(
                    next.pos,
                ));
                assert(unread(next, contents) =~= unread(cursor, contents));
            } else {
                assert(contents[cursor.file].skip(cursor.pos) =~= Seq::<u8>::empty());
                if cursor.file == contents.len() - 1 {
                    lemma_nothing_left(contents);
                    assert(unread(next, contents) =~= next.buffer);
                } else {
                    let later = contents.skip(cursor.file + 1);
                    assert(later.first() == contents[next.file]);
                    assert(later.drop_first() =~= contents.skip(next.file + 1));
                    assert(contents[next.file].skip(0) =~= contents[next.file]);
                    assert(unread(next, contents) =~= unread(cursor, contents));
                }
            }
        },
        _ => {
            assert(unread(next, contents) =~= unread(cursor, contents));
        },
    }
    if action == LogAction::Finished {
        assert(unread(next, contents) =~= next.buffer);
    }
}

proof fn lemma_nothing_left(contents: Seq<Seq<u8>>)
    ensures
        contents.skip(contents.len() as int).flatten() == Seq::<u8>::empty(),
{
    assert(contents.skip(contents.len() as int) =~= Seq::<Seq<u8>>::empty());
    assert(contents.skip(contents.len() as int).flatten() =~= Seq::<u8>::empty());
}

/// How far a cursor that stands in a file of the log is from the end: the files, this one included,
/// and the bytes that are left of them.
pub open spec fn distance(cursor: CursorView, contents: Seq<Seq<u8>>) -> int {
    contents.len() - cursor.file + (contents[cursor.file].len() - cursor.pos) + contents.skip(
        cursor.file + 1,
    ).flatten().len()
}

/// The search for a record comes to an end. Every read that does not come to the end of the log
/// brings the cursor nearer to it, and nothing takes it away; the codec is asked at most once
/// between two reads, and after it has found a record, or the cursor the end, nothing is asked for.
pub proof fn law_search_comes_to_an_end(
    cursor: CursorView,
    event: LogEvent,
    contents: Seq<Seq<u8>>,
)
    requires
        stands_in(cursor, contents),
        cursor.file < contents.len(),
        event_is_true(event, cursor, contents),
    ensures
        ({
            let (next, action) = cursor.after(event, contents.len() as int);
            &&& next.file < contents.len()
            &&& 0 < distance(next, contents) <= distance(cursor, contents)
            &&& event is Read && action != LogAction::Finished ==> distance(next, contents)
                < distance(cursor, contents)
            &&& event is Incomplete ==> action is Read
            &&& event is Decoded ==> action == LogAction::Yield
            &&& action == LogAction::Finished ==> event is Read
        }),
{
    let (next, action) = cursor.after(event, contents.len() as int);
    if event is Read && next.file != cursor.file {
        let later = contents.skip(cursor.file + 1);
        assert(later.first() == contents[next.file]);
        assert(later.drop_first() =~= contents.skip(next.file + 1));
    }
}

/// A file after bytes have been written to it at `offset`.
pub open spec fn written_at(content: Seq<u8>, offset: int, bytes: Seq<u8>) -> Seq<u8> {
    let end = offset + bytes.len();
    content.take(offset) + bytes + (if end < content.len() {
        content.skip(end)
    } else {
        Seq::empty()
    })
}

/// The files are as long as the log takes them for.
pub open spec fn sizes_match(files: Seq<LogFile>, contents: Seq<Seq<u8>>) -> bool {
    &&& files.len() == contents.len()
    &&& forall|i: int| 0 <= i < files.len() ==> (#[trigger] files[i]).size == contents[i].len()
}

/// Writing where the log says and as much as was written puts those bytes behind all that is in
/// the log, and the log still knows how long its files are. A file that is begun changes nothing
/// of what is in the log.
pub proof fn law_writing_appends(
    files: Seq<LogFile>,
    contents: Seq<Seq<u8>>,
    written: Seq<u8>,
    start_time: Timestamp,
)
    requires
        files.len() > 0,
        sizes_match(files, contents),
        files.last().size + written.len() <= u64::MAX,
    ensures
        ({
            let last = files.last();
            let after = contents.drop_last().push(
                written_at(contents.last(), last.size as int, written),
            );
            &&& after.flatten() == contents.flatten() + written
            &&& sizes_match(files_after_write(files, written.len()), after)
        }),
        contents.push(Seq::empty()).flatten() == contents.flatten(),
        sizes_match(
            files.push(LogFile { size: 0, start_time }),
            contents.push(Seq::empty()),
        ),
{
    let last = contents.last();
    let before = contents.drop_last();
    assert(files[files.len() - 1].size == contents[files.len() - 1].len());
    let grown = written_at(last, files.last().size as int, written);
    assert(grown =~= last + written);
    let after = before.push(grown);
    assert(contents =~= before.push(last));
    before.lemma_flatten_push(last);
    before.lemma_flatten_push(grown);
    assert(after.flatten() =~= contents.flatten() + written);
    contents.lemma_flatten_push(Seq::empty());
    assert(contents.flatten() + Seq::<u8>::empty() =~= contents.flatten());
}

/// What a log is while a record is written to it, piece by piece.
#[verifier::ext_equal]
pub struct Writing {
    /// The files of the log.
    pub files: Seq<LogFile>,
    /// What they hold.
    pub contents: Seq<Seq<u8>>,
    /// What of the record has not been written yet.
    pub unwritten: Seq<u8>,
}

impl Writing {
    /// There is a file to write to, which has room for what has not been written yet, and the log
    /// knows how long its files are.
    pub open spec fn wf(self) -> bool {
        &&& self.files.len() > 0
        &&& sizes_match(self.files, self.contents)
        &&& self.files.last().size + self.unwritten.len() <= u64::MAX
    }

    /// The first `n` bytes are written where the log says, at the end of the last file.
    pub open spec fn after_piece(self, n: nat) -> Self {
        Writing {
            files: files_after_write(self.files, n),
            contents: self.contents.drop_last().push(
                written_at(
                    self.contents.last(),
                    self.files.last().size as int,
                    self.unwritten.take(n as int),
                ),
            ),
            unwritten: self.unwritten.skip(n as int),
        }
    }

    /// Some pieces are written, one after another.
    pub open spec fn after_pieces(self, pieces: Seq<nat>) -> Self
        decreases pieces.len(),
    {
        if pieces.len() == 0 {
            self
        } else {
            self.after_pieces(pieces.drop_last()).after_piece(pieces.last())
        }
    }
}

/// No piece is empty, or longer than what has not been written yet.
pub open spec fn pieces_fit(pieces: Seq<nat>, len: nat) -> bool
    decreases pieces.len(),
{
    pieces.len() > 0 ==> {
        let earlier = pieces_len(pieces.drop_last());
        &&& pieces_fit(pieces.drop_last(), len)
        &&& 0 < pieces.last()
        &&& earlier + pieces.last() <= len
    }
}

/// How long some pieces are together.
pub open spec fn pieces_len(pieces: Seq<nat>) -> nat
    decreases pieces.len(),
{
    if pieces.len() == 0 {
        0
    } else {
        pieces_len(pieces.drop_last()) + pieces.last()
    }
}

/// A piece that is written stands at the end of the last file.
proof fn lemma_piece_appends(writing: Writing, n: nat)
    requires
        writing.wf(),
        n <= writing.unwritten.len(),
    ensures
        ({
            let after = writing.after_piece(n);
            &&& after.wf()
            &&& after.contents == writing.contents.drop_last().push(
                writing.contents.last() + writing.unwritten.take(n as int),
            )
        }),
{
    let after = writing.after_piece(n);
    let last = writing.files.len() - 1;
    let piece = writing.unwritten.take(n as int);
    assert(writing.files[last].size == writing.contents[last].len());
    assert(written_at(writing.contents.last(), writing.files.last().size as int, piece)
        =~= writing.contents.last() + piece);
    assert forall|i: int| 0 <= i < after.files.len() implies (#[trigger] after.files[i]).size
        == after.contents[i].len() by {
        if i < last {
            assert(after.files[i] == writing.files[i]);
        }
    }
}

proof fn lemma_pieces_append(writing: Writing, pieces: Seq<nat>)
    requires
        writing.wf(),
        pieces_fit(pieces, writing.unwritten.len()),
    ensures
        ({
            let after = writing.after_pieces(pieces);
            let len = pieces_len(pieces);
            let last = writing.files.last();
            &&& len <= writing.unwritten.len()
            &&& sizes_match(after.files, after.contents)
            &&& after.files == files_after_write(writing.files, len)
            &&& after.contents == writing.contents.drop_last().push(
                writing.contents.last() + writing.unwritten.take(len as int),
            )
            &&& after.unwritten == writing.unwritten.skip(len as int)
        }),
    decreases pieces.len(),
{
    let after = writing.after_pieces(pieces);
    let len = pieces_len(pieces) as int;
    assert(writing.files[writing.files.len() - 1].size == writing.contents[writing.files.len()
        - 1].len());
    if pieces.len() == 0 {
        assert(writing.unwritten.take(0) =~= Seq::<u8>::empty());
        assert(writing.contents.last() + Seq::<u8>::empty() =~= writing.contents.last());
        assert(after.contents =~= writing.contents.drop_last().push(writing.contents.last()));
        assert(after.files =~= files_after_write(writing.files, 0));
        assert(after.unwritten =~= writing.unwritten.skip(0));
    } else {
        let shorter = pieces.drop_last();
        let before = writing.after_pieces(shorter);
        let earlier = pieces_len(shorter) as int;
        let n = pieces.last();
        lemma_pieces_append(writing, shorter);
        let piece = before.unwritten.take(n as int);
        assert(piece.len() == n);
        assert(before.contents.drop_last() =~= writing.contents.drop_last());
        assert(written_at(before.contents.last(), before.files.last().size as int, piece)
            =~= before.contents.last() + piece);
        assert(writing.unwritten.take(earlier) + piece =~= writing.unwritten.take(len));
        assert(before.contents.last() + piece =~= writing.contents.last() + writing.unwritten.take(
            len,
        ));
        assert(after.contents =~= writing.contents.drop_last().push(
            writing.contents.last() + writing.unwritten.take(len),
        ));
        assert(after.files =~= files_after_write(writing.files, len as nat));
        assert(after.unwritten =~= writing.unwritten.skip(len));
        assert forall|i: int| 0 <= i < after.files.len() implies (#[trigger] after.files[i]).size
            == after.contents[i].len() by {
            if i < after.files.len() - 1 {
                assert(after.files[i] == writing.files[i]);
            }
        }
    }
}

/// What the files hold once a record has been taken: a file that is begun for it is empty.
pub open spec fn contents_for_record(
    contents: Seq<Seq<u8>>,
    begun_at: u64,
    now: u64,
) -> Seq<Seq<u8>> {
    if now - begun_at >= FILE_SPAN {
        contents.push(Seq::empty())
    } else {
        contents
    }
}

/// A log once a record has been taken, with nothing of it written yet.
pub open spec fn record_taken(
    files: Seq<LogFile>,
    contents: Seq<Seq<u8>>,
    begun_at: u64,
    record: Seq<u8>,
    start_time: Timestamp,
    now: u64,
) -> Writing {
    Writing {
        files: files_for_record(files, begun_at, start_time, now),
        contents: contents_for_record(contents, begun_at, now),
        unwritten: record,
    }
}

/// A record is never split over two files. Where nothing was left unwritten when it was taken, then
/// however the writes are split, all that has been written of it stands at the end of the last
/// file, and once it has all been written, that is the whole record. The last file is a new one,
/// with nothing else in it, exactly where the one before had been written to for an hour. Every
/// other file keeps its place, its start and what it holds.
pub proof fn law_record_stays_in_one_file(
    files: Seq<LogFile>,
    contents: Seq<Seq<u8>>,
    begun_at: u64,
    record: Seq<u8>,
    start_time: Timestamp,
    now: u64,
    pieces: Seq<nat>,
)
    requires
        files.len() > 0,
        sizes_match(files, contents),
        files_for_record(files, begun_at, start_time, now).last().size + record.len() <= u64::MAX,
        pieces_fit(pieces, record.len()),
    ensures
        ({
            let due = now - begun_at >= FILE_SPAN;
            let taken = record_taken(files, contents, begun_at, record, start_time, now);
            let after = taken.after_pieces(pieces);
            let last = after.files.len() - 1;
            let written = record.take(pieces_len(pieces) as int);
            &&& after.files.len() == after.contents.len() == files.len() + (if due {
                1int
            } else {
                0int
            })
            &&& sizes_match(after.files, after.contents)
            &&& after.unwritten == record.skip(pieces_len(pieces) as int)
            &&& after.contents[last] == (if due {
                written
            } else {
                contents[last] + written
            })
            &&& after.files[last].start_time == (if due {
                start_time
            } else {
                files[last].start_time
            })
            &&& forall|i: int|
                #![trigger after.files[i]]
                #![trigger after.contents[i]]
                0 <= i < last ==> after.files[i] == files[i] && after.contents[i] == contents[i]
            &&& after.unwritten.len() == 0 ==> written == record
        }),
{
    let taken = record_taken(files, contents, begun_at, record, start_time, now);
    assert(sizes_match(taken.files, taken.contents));
    lemma_pieces_append(taken, pieces);
    let written = record.take(pieces_len(pieces) as int);
    assert(Seq::<u8>::empty() + written =~= written);
    if pieces_len(pieces) == record.len() {
        assert(written =~= record);
    }
}

/// A log has grown: what it held before is still where it was, and more stands behind it, in what
/// was its last file or in files begun since.
pub open spec fn extends(after: Seq<Seq<u8>>, before: Seq<Seq<u8>>) -> bool {
    &&& before.len() <= after.len()
    &&& forall|i: int| 0 <= i < before.len() - 1 ==> #[trigger] after[i] == before[i]
    &&& before.len() > 0 ==> before.last().is_prefix_of(after[before.len() - 1])
}

impl Writing {
    /// A log has grown, and its files keep their places and their starts.
    pub open spec fn extends(self, before: Self) -> bool {
        &&& extends(self.contents, before.contents)
        &&& before.files.len() <= self.files.len()
        &&& forall|i: int|
            0 <= i < before.files.len() ==> (#[trigger] self.files[i]).start_time
                == before.files[i].start_time
    }
}

/// What a log holds more than it did before.
pub open spec fn appended(after: Seq<Seq<u8>>, before: Seq<Seq<u8>>) -> Seq<u8> {
    if before.len() == 0 {
        after.flatten()
    } else {
        after[before.len() - 1].skip(before.last().len() as int) + after.skip(
            before.len() as int,
        ).flatten()
    }
}

/// A cursor reads on in a log that grows: wherever it stands, at the end of what was the last file
/// or before there was any file too, what was appended since is left to read behind all that was
/// left before, and nothing else.
pub proof fn law_growing_log_is_read_on(
    cursor: CursorView,
    before: Seq<Seq<u8>>,
    after: Seq<Seq<u8>>,
)
    requires
        stands_in(cursor, before),
        cursor.file < before.len() || (cursor.file == 0 && cursor.pos == 0),
        extends(after, before),
    ensures
        stands_in(cursor, after),
        unread(cursor, after) == unread(cursor, before) + appended(after, before),
{
    let last = before.len() - 1;
    let file = cursor.file;
    let tail = after[last].skip(before.last().len() as int);
    let newer = after.skip(last + 1);
    if before.len() == 0 {
        if after.len() > 0 {
            assert(after.drop_first() =~= after.skip(1));
            assert(after[0].skip(0) =~= after.first());
        }
    } else if file == last {
        assert(before.last() + tail =~= after[last]);
        lemma_nothing_left(before);
        assert(after[last].skip(cursor.pos) =~= before[last].skip(cursor.pos) + tail);
    } else {
        let between = before.subrange(file + 1, last);
        assert(before.last() + tail =~= after[last]);
        assert(after[file] == before[file]);
        assert(before.skip(file + 1) =~= between.push(before.last()));
        between.lemma_flatten_push(before.last());
        assert(after.skip(file + 1) =~= between.push(after[last]) + newer);
        between.lemma_flatten_push(after[last]);
        vstd::seq_lib::lemma_flatten_concat(between.push(after[last]), newer);
        assert(after.skip(file + 1).flatten() =~= before.skip(file + 1).flatten() + tail
            + newer.flatten());
    }
    assert(unread(cursor, after) =~= unread(cursor, before) + appended(after, before));
}

/// Records one after another, each as the codec writes it.
pub open spec fn framed<R>(records: Seq<R>, encode: spec_fn(R) -> Seq<u8>) -> Seq<u8>
    decreases records.len(),
{
    if records.len() == 0 {
        Seq::empty()
    } else {
        encode(records[0]) + framed(records.skip(1), encode)
    }
}

/// A codec that can be read from a stream: a record is at least one byte, it is found wherever
/// its bytes come first, whatever comes after them, and is not found before they are all there.
/// It is found as `read_as` says, which may leave out what the codec does not write.
pub open spec fn is_codec<R>(
    encode: spec_fn(R) -> Seq<u8>,
    decode: spec_fn(Seq<u8>) -> Option<(R, nat)>,
    read_as: spec_fn(R) -> R,
) -> bool {
    &&& forall|r: R| (#[trigger] encode(r)).len() > 0
    &&& forall|r: R, bytes: Seq<u8>|
        (#[trigger] encode(r)).is_prefix_of(bytes) ==> #[trigger] decode(bytes) == Some(
            (read_as(r), encode(r).len()),
        )
    &&& forall|r: R, bytes: Seq<u8>|
        bytes.is_prefix_of(#[trigger] encode(r)) && bytes.len() < encode(r).len() ==> (
        #[trigger] decode(bytes)) is None
}

/// Records that are written behind others come behind them.
proof fn lemma_framed_concat<R>(earlier: Seq<R>, later: Seq<R>, encode: spec_fn(R) -> Seq<u8>)
    ensures
        framed(earlier + later, encode) == framed(earlier, encode) + framed(later, encode),
    decreases earlier.len(),
{
    let all = earlier + later;
    if earlier.len() == 0 {
        assert(all =~= later);
        assert(framed(all, encode) =~= framed(earlier, encode) + framed(later, encode));
    } else {
        lemma_framed_concat(earlier.skip(1), later, encode);
        assert(all.skip(1) =~= earlier.skip(1) + later);
        assert(framed(all, encode) =~= framed(earlier, encode) + framed(later, encode));
    }
}

proof fn lemma_framed_push<R>(records: Seq<R>, record: R, encode: spec_fn(R) -> Seq<u8>)
    ensures
        framed(records.push(record), encode) == framed(records, encode) + encode(record),
{
    let one = seq![record];
    lemma_framed_concat(records, one, encode);
    assert(records.push(record) =~= records + one);
    assert(framed(one.skip(1), encode) =~= Seq::<u8>::empty());
    assert(framed(one, encode) =~= encode(record));
}

/// A log with what its files hold, and with the records that were taken for each of them.
#[verifier::ext_equal]
pub struct Journal<R> {
    /// The files, what they hold, and what of the last record has not been written yet.
    pub writing: Writing,
    /// When the last file was begun.
    pub begun_at: u64,
    /// The records of each file.
    pub kept: Seq<Seq<R>>,
}

/// A step of a log that is written and read.
pub enum LogStep<R> {
    /// A record is taken.
    Took { record: R, start_time: Timestamp, now: u64 },
    /// So many bytes of it are written.
    Wrote { n: nat },
    /// A cursor goes on with this event.
    Read { event: LogEvent },
}

/// When the last file was begun, once a record has been taken.
pub open spec fn begun_for_record(begun_at: u64, now: u64) -> u64 {
    if now - begun_at >= FILE_SPAN {
        now
    } else {
        begun_at
    }
}

/// The records of each file, once a record has been taken.
pub open spec fn kept_for_record<R>(
    kept: Seq<Seq<R>>,
    begun_at: u64,
    record: R,
    now: u64,
) -> Seq<Seq<R>> {
    if now - begun_at >= FILE_SPAN {
        kept.push(seq![record])
    } else {
        kept.drop_last().push(kept.last().push(record))
    }
}

impl<R> Journal<R> {
    /// A log with its first file begun.
    pub open spec fn begun(start_time: Timestamp, now: u64) -> Self {
        Journal {
            writing: Writing {
                files: seq![LogFile { size: 0, start_time }],
                contents: seq![Seq::empty()],
                unwritten: Seq::empty(),
            },
            begun_at: now,
            kept: seq![Seq::empty()],
        }
    }

    /// Every file holds its records one after another, but for what of the last one has not been
    /// written yet, and the log knows how long its files are.
    pub open spec fn wf(self, encode: spec_fn(R) -> Seq<u8>) -> bool {
        let last = self.kept.len() - 1;
        &&& self.writing.wf()
        &&& self.kept.len() == self.writing.contents.len()
        &&& forall|i: int|
            0 <= i < last ==> #[trigger] self.writing.contents[i] == framed(self.kept[i], encode)
        &&& self.writing.contents[last] + self.writing.unwritten == framed(self.kept[last], encode)
    }

    /// The step is one that a log can take: a record is taken when the one before it has been
    /// written, and has room in its file, and no piece is empty or longer than what is left.
    pub open spec fn takes(self, step: LogStep<R>, encode: spec_fn(R) -> Seq<u8>) -> bool {
        match step {
            LogStep::Took { record, start_time, now } => {
                let files = files_for_record(self.writing.files, self.begun_at, start_time, now);
                &&& self.writing.unwritten.len() == 0
                &&& files.last().size + encode(record).len() <= u64::MAX
            },
            LogStep::Wrote { n } => 0 < n <= self.writing.unwritten.len(),
            LogStep::Read { .. } => true,
        }
    }

    /// The log after a step.
    pub open spec fn after(self, step: LogStep<R>, encode: spec_fn(R) -> Seq<u8>) -> Self {
        match step {
            LogStep::Took { record, start_time, now } => Journal {
                writing: record_taken(
                    self.writing.files,
                    self.writing.contents,
                    self.begun_at,
                    encode(record),
                    start_time,
                    now,
                ),
                begun_at: begun_for_record(self.begun_at, now),
                kept: kept_for_record(self.kept, self.begun_at, record, now),
            },
            LogStep::Wrote { n } => Journal { writing: self.writing.after_piece(n), ..self },
            LogStep::Read { .. } => self,
        }
    }

    /// The log after some steps.
    pub open spec fn after_all(
        self,
        steps: Seq<LogStep<R>>,
        encode: spec_fn(R) -> Seq<u8>,
    ) -> Self
        decreases steps.len(),
    {
        if steps.len() == 0 {
            self
        } else {
            self.after_all(steps.drop_last(), encode).after(steps.last(), encode)
        }
    }

    /// The steps are ones that a log can take, one after another.
    pub open spec fn takes_all(
        self,
        steps: Seq<LogStep<R>>,
        encode: spec_fn(R) -> Seq<u8>,
    ) -> bool
        decreases steps.len(),
    {
        steps.len() > 0 ==> {
            &&& self.takes_all(steps.drop_last(), encode)
            &&& self.after_all(steps.drop_last(), encode).takes(steps.last(), encode)
        }
    }
}

/// The records that are taken in some steps.
pub open spec fn taken_in<R>(steps: Seq<LogStep<R>>) -> Seq<R>
    decreases steps.len(),
{
    if steps.len() == 0 {
        Seq::empty()
    } else {
        let earlier = taken_in(steps.drop_last());
        match steps.last() {
            LogStep::Took { record, .. } => earlier.push(record),
            _ => earlier,
        }
    }
}

/// What a log holds grows at its end with each step, by what is written.
proof fn lemma_step_appends<R>(
    journal: Journal<R>,
    step: LogStep<R>,
    encode: spec_fn(R) -> Seq<u8>,
)
    requires
        journal.writing.wf(),
        journal.takes(step, encode),
    ensures
        ({
            let before = journal.writing;
            let after = journal.after(step, encode).writing;
            &&& after.wf()
            &&& after.extends(before)
            &&& before.unwritten + (match step {
                LogStep::Took { record, .. } => encode(record),
                _ => Seq::empty(),
            }) == appended(after.contents, before.contents) + after.unwritten
        }),
{
    let before = journal.writing;
    let after = journal.after(step, encode).writing;
    let last = before.contents.len() - 1;
    assert(before.files[last].size == before.contents[last].len());
    match step {
        LogStep::Wrote { n } => {
            lemma_piece_appends(before, n);
            lemma_nothing_left(after.contents);
            assert(appended(after.contents, before.contents) =~= before.unwritten.take(n as int));
            assert(before.unwritten + Seq::<u8>::empty() =~= before.unwritten.take(n as int)
                + before.unwritten.skip(n as int));
        },
        LogStep::Took { record, start_time, now } => {
            let added = appended(after.contents, before.contents);
            if now - journal.begun_at >= FILE_SPAN {
                let newer = after.contents.skip(last + 1);
                assert(newer =~= seq![Seq::<u8>::empty()]);
                newer.lemma_flatten_one_element();
            } else {
                lemma_nothing_left(after.contents);
            }
            assert(added =~= Seq::<u8>::empty());
            assert(before.unwritten + encode(record) =~= added + after.unwritten);
        },
        LogStep::Read { .. } => {
            lemma_nothing_left(after.contents);
            assert(appended(after.contents, before.contents) =~= Seq::<u8>::empty());
            assert(before.unwritten + Seq::<u8>::empty() =~= Seq::<u8>::empty() + after.unwritten);
        },
    }
}

/// A log that has just been begun holds nothing.
pub proof fn law_log_begins_empty<R>(
    start_time: Timestamp,
    now: u64,
    encode: spec_fn(R) -> Seq<u8>,
)
    ensures
        Journal::<R>::begun(start_time, now).wf(encode),
        Journal::<R>::begun(start_time, now).kept.flatten() == Seq::<R>::empty(),
{
    let journal = Journal::<R>::begun(start_time, now);
    journal.kept.lemma_flatten_one_element();
    assert(journal.writing.contents[0] + journal.writing.unwritten =~= framed(
        journal.kept[0],
        encode,
    ));
}

/// The log keeps every record, in order: however many are taken, over however many files, and
/// however their writes are split, each file holds its records one after another, and all of them
/// together are those that were there before and those that were taken since. Every file keeps its
/// place and its start, and what it held.
pub proof fn law_log_keeps_every_record<R>(
    start: Journal<R>,
    steps: Seq<LogStep<R>>,
    encode: spec_fn(R) -> Seq<u8>,
)
    requires
        start.wf(encode),
        start.takes_all(steps, encode),
    ensures
        start.after_all(steps, encode).wf(encode),
        start.after_all(steps, encode).kept.flatten() == start.kept.flatten() + taken_in(steps),
        start.after_all(steps, encode).writing.extends(start.writing),
    decreases steps.len(),
{
    if steps.len() == 0 {
        assert(start.kept.flatten() + taken_in(steps) =~= start.kept.flatten());
    } else {
        let earlier = steps.drop_last();
        law_log_keeps_every_record(start, earlier, encode);
        let before = start.after_all(earlier, encode);
        lemma_step_keeps(before, steps.last(), encode);
        lemma_step_appends(before, steps.last(), encode);
        let after = start.after_all(steps, encode);
        let last = start.writing.contents.len() - 1;
        assert(start.writing.contents[last].is_prefix_of(after.writing.contents[last]));
        assert(after.kept.flatten() =~= start.kept.flatten() + taken_in(steps));
    }
}

proof fn lemma_step_keeps<R>(
    journal: Journal<R>,
    step: LogStep<R>,
    encode: spec_fn(R) -> Seq<u8>,
)
    requires
        journal.wf(encode),
        journal.takes(step, encode),
    ensures
        journal.after(step, encode).wf(encode),
        journal.after(step, encode).kept.flatten() == (match step {
            LogStep::Took { record, .. } => journal.kept.flatten().push(record),
            _ => journal.kept.flatten(),
        }),
{
    let after = journal.after(step, encode);
    let before = journal.writing;
    let last = journal.kept.len() - 1;
    lemma_step_appends(journal, step, encode);
    match step {
        LogStep::Took { record, now, .. } => {
            let kept = journal.kept;
            assert(before.contents[last] + before.unwritten =~= before.contents[last]);
            if now - journal.begun_at >= FILE_SPAN {
                kept.lemma_flatten_push(seq![record]);
                assert(framed(Seq::<R>::empty(), encode) =~= Seq::<u8>::empty());
                lemma_framed_push(Seq::<R>::empty(), record, encode);
                assert(Seq::<R>::empty().push(record) =~= seq![record]);
                assert(after.kept[last + 1] == seq![record]);
                assert(after.writing.contents[last + 1] + after.writing.unwritten =~= framed(
                    after.kept[last + 1],
                    encode,
                ));
            } else {
                let grown = kept.last().push(record);
                assert(kept =~= kept.drop_last().push(kept.last()));
                kept.drop_last().lemma_flatten_push(kept.last());
                kept.drop_last().lemma_flatten_push(grown);
                lemma_framed_push(kept.last(), record, encode);
                assert(after.writing.contents[last] + after.writing.unwritten =~= framed(
                    after.kept[last],
                    encode,
                ));
            }
            assert(after.kept.flatten() =~= kept.flatten().push(record));
        },
        LogStep::Wrote { n } => {
            lemma_piece_appends(before, n);
            assert(after.writing.contents[last] + after.writing.unwritten
                =~= before.contents[last] + before.unwritten);
        },
        LogStep::Read { .. } => {},
    }
}

/// From the beginning of a file on, the log holds the records of that file and of those after it.
proof fn lemma_file_holds_its_records<R>(
    journal: Journal<R>,
    file: int,
    encode: spec_fn(R) -> Seq<u8>,
)
    requires
        journal.wf(encode),
        0 <= file < journal.kept.len(),
    ensures
        stands_in(CursorView::at_file(file), journal.writing.contents),
        unread(CursorView::at_file(file), journal.writing.contents) + journal.writing.unwritten
            == framed(journal.kept.skip(file).flatten(), encode),
    decreases journal.kept.len() - file,
{
    let contents = journal.writing.contents;
    let unwritten = journal.writing.unwritten;
    let kept = journal.kept;
    let later = kept.skip(file + 1);
    let here = unread(CursorView::at_file(file), contents);
    assert(contents[file].skip(0) =~= contents[file]);
    assert(here =~= contents[file] + contents.skip(file + 1).flatten());
    assert(kept.skip(file).first() == kept[file]);
    assert(kept.skip(file).drop_first() =~= later);
    lemma_framed_concat(kept[file], later.flatten(), encode);
    if file == kept.len() - 1 {
        lemma_nothing_left(contents);
        assert(later =~= Seq::<Seq<R>>::empty());
        assert(framed(later.flatten(), encode) =~= Seq::<u8>::empty());
        assert(here + unwritten =~= framed(kept.skip(file).flatten(), encode));
    } else {
        lemma_file_holds_its_records(journal, file + 1, encode);
        let next = unread(CursorView::at_file(file + 1), contents);
        assert(contents[file + 1].skip(0) =~= contents[file + 1]);
        assert(contents.skip(file + 1).first() == contents[file + 1]);
        assert(contents.skip(file + 1).drop_first() =~= contents.skip(file + 2));
        assert(next =~= contents.skip(file + 1).flatten());
        assert(here + unwritten =~= contents[file] + (next + unwritten));
    }
}

/// An event is what comes of what was asked for: the codec finds a record or only the beginning of
/// one, the log gives what is read, and once a record was found, or there was none yet, the next
/// one is wanted.
pub open spec fn answers<R>(
    event: LogEvent,
    asked: LogAction,
    buffer: Seq<u8>,
    decode: spec_fn(Seq<u8>) -> Option<(R, nat)>,
) -> bool {
    match asked {
        LogAction::Decode => match event {
            LogEvent::Decoded { used } => {
                &&& decode(buffer) is Some
                &&& used == (decode(buffer)->0).1
            },
            LogEvent::Incomplete { .. } => decode(buffer) is None,
            _ => false,
        },
        LogAction::Read { .. } => event is Read,
        LogAction::Yield => event is Wanted,
        LogAction::Finished => event is Wanted,
        LogAction::Broken => false,
    }
}

/// A log that is read while it is written to.
#[verifier::ext_equal]
pub struct LogReading<R> {
    /// The log.
    pub journal: Journal<R>,
    /// Where it is read.
    pub cursor: CursorView,
    /// What the cursor asked for last, or what it came to.
    pub asked: LogAction,
    /// The records that the cursor has come to.
    pub read: Seq<R>,
}

impl<R> LogReading<R> {
    /// A cursor at the beginning of a file, which has come to no record yet.
    pub open spec fn from_file(journal: Journal<R>, file: int) -> Self {
        LogReading {
            journal,
            cursor: CursorView::at_file(file),
            asked: LogAction::Yield,
            read: Seq::empty(),
        }
    }

    /// The step is one that the log, the cursor and this codec can take.
    pub open spec fn takes(
        self,
        step: LogStep<R>,
        encode: spec_fn(R) -> Seq<u8>,
        decode: spec_fn(Seq<u8>) -> Option<(R, nat)>,
    ) -> bool {
        &&& self.journal.takes(step, encode)
        &&& step matches LogStep::Read { event } ==> {
            &&& answers(event, self.asked, self.cursor.buffer, decode)
            &&& event_is_true(event, self.cursor, self.journal.writing.contents)
        }
    }

    /// The log and the cursor after a step.
    pub open spec fn after(
        self,
        step: LogStep<R>,
        encode: spec_fn(R) -> Seq<u8>,
        decode: spec_fn(Seq<u8>) -> Option<(R, nat)>,
    ) -> Self {
        let journal = self.journal.after(step, encode);
        let file_count = self.journal.writing.contents.len() as int;
        match step {
            LogStep::Read { event } => LogReading {
                journal,
                cursor: self.cursor.after(event, file_count).0,
                asked: self.cursor.after(event, file_count).1,
                read: if event is Decoded {
                    self.read.push((decode(self.cursor.buffer)->0).0)
                } else {
                    self.read
                },
            },
            _ => LogReading { journal, ..self },
        }
    }

    /// The log and the cursor after some steps.
    pub open spec fn after_all(
        self,
        steps: Seq<LogStep<R>>,
        encode: spec_fn(R) -> Seq<u8>,
        decode: spec_fn(Seq<u8>) -> Option<(R, nat)>,
    ) -> Self
        decreases steps.len(),
    {
        if steps.len() == 0 {
            self
        } else {
            self.after_all(steps.drop_last(), encode, decode).after(steps.last(), encode, decode)
        }
    }

    /// The steps are ones that the log, the cursor and this codec can take, one after another.
    pub open spec fn takes_all(
        self,
        steps: Seq<LogStep<R>>,
        encode: spec_fn(R) -> Seq<u8>,
        decode: spec_fn(Seq<u8>) -> Option<(R, nat)>,
    ) -> bool
        decreases steps.len(),
    {
        steps.len() > 0 ==> {
            &&& self.takes_all(steps.drop_last(), encode, decode)
            &&& self.after_all(steps.drop_last(), encode, decode).takes(
                steps.last(),
                encode,
                decode,
            )
        }
    }

    /// The cursor stands in one of the files, has come to the first of these records, and has the
    /// others left to read, but for what of the last one has not been written yet. It asks to read
    /// only where the codec has found no record in what was read before.
    pub open spec fn follows(
        self,
        records: Seq<R>,
        encode: spec_fn(R) -> Seq<u8>,
        decode: spec_fn(Seq<u8>) -> Option<(R, nat)>,
        read_as: spec_fn(R) -> R,
    ) -> bool {
        let contents = self.journal.writing.contents;
        let count = self.read.len() as int;
        &&& self.journal.writing.wf()
        &&& stands_in(self.cursor, contents)
        &&& self.cursor.file < contents.len()
        &&& count <= records.len()
        &&& self.read == records.take(count).map_values(read_as)
        &&& self.asked is Read ==> self.cursor.buffer.len() == 0 || decode(
            self.cursor.buffer,
        ) is None
        &&& unread(self.cursor, contents) + self.journal.writing.unwritten == framed(
            records.skip(count),
            encode,
        )
    }
}

/// A cursor at the beginning of a file has the records of that file and of those after it to read,
/// in order, but for what of the last record has not been written yet.
pub proof fn law_cursor_follows_from_its_file<R>(
    journal: Journal<R>,
    file: int,
    encode: spec_fn(R) -> Seq<u8>,
    decode: spec_fn(Seq<u8>) -> Option<(R, nat)>,
    read_as: spec_fn(R) -> R,
)
    requires
        journal.wf(encode),
        0 <= file < journal.kept.len(),
    ensures
        LogReading::from_file(journal, file).follows(
            journal.kept.skip(file).flatten(),
            encode,
            decode,
            read_as,
        ),
{
    let reading = LogReading::from_file(journal, file);
    let records = journal.kept.skip(file).flatten();
    lemma_file_holds_its_records(journal, file, encode);
    assert(records.skip(0) =~= records);
    assert(reading.read =~= records.take(0).map_values(read_as));
}

/// Reading the log gives back what was written to it, while it is written to. Wherever a cursor
/// began, and whatever pieces the log is written and read in, the records that it comes to are
/// those that it had left to read and those that were taken since, in order and each as the codec
/// reads it. It finds that there is no further record yet only where it has come to all that were
/// taken, but for one that has not all been written.
pub proof fn law_log_reads_back<R>(
    start: LogReading<R>,
    steps: Seq<LogStep<R>>,
    records: Seq<R>,
    encode: spec_fn(R) -> Seq<u8>,
    decode: spec_fn(Seq<u8>) -> Option<(R, nat)>,
    read_as: spec_fn(R) -> R,
)
    requires
        is_codec(encode, decode, read_as),
        start.follows(records, encode, decode, read_as),
        start.takes_all(steps, encode, decode),
    ensures
        ({
            let end = start.after_all(steps, encode, decode);
            let all = records + taken_in(steps);
            let found_none = steps.len() > 0 && steps.last() is Read && end.asked is Finished;
            &&& start.journal.takes_all(steps, encode)
            &&& end.journal == start.journal.after_all(steps, encode)
            &&& end.follows(all, encode, decode, read_as)
            &&& found_none && end.journal.writing.unwritten.len() == 0 ==> end.read
                == all.map_values(read_as)
        }),
    decreases steps.len(),
{
    let end = start.after_all(steps, encode, decode);
    let all = records + taken_in(steps);
    if steps.len() == 0 {
        assert(all =~= records);
    } else {
        let earlier = steps.drop_last();
        law_log_reads_back(start, earlier, records, encode, decode, read_as);
        let before = start.after_all(earlier, encode, decode);
        let so_far = records + taken_in(earlier);
        match steps.last() {
            LogStep::Read { event } => {
                lemma_reading_follows(before, event, so_far, encode, decode, read_as);
            },
            step => {
                lemma_writing_is_followed(before, step, so_far, encode, decode, read_as);
                if let LogStep::Took { record, .. } = step {
                    assert(all =~= so_far.push(record));
                }
            },
        }
    }
    let unwritten = end.journal.writing.unwritten;
    if steps.len() > 0 && steps.last() is Read && end.asked is Finished && unwritten.len() == 0 {
        let buffer = end.cursor.buffer;
        let left = all.skip(end.read.len() as int);
        assert(buffer + unwritten =~= buffer);
        if left.len() > 0 {
            let first = encode(left[0]);
            assert(first.is_prefix_of(first + framed(left.skip(1), encode)));
            assert(first.is_prefix_of(buffer));
        }
        assert(all.take(end.read.len() as int) =~= all);
    }
}

/// A cursor that reads on follows the same records.
proof fn lemma_reading_follows<R>(
    reading: LogReading<R>,
    event: LogEvent,
    records: Seq<R>,
    encode: spec_fn(R) -> Seq<u8>,
    decode: spec_fn(Seq<u8>) -> Option<(R, nat)>,
    read_as: spec_fn(R) -> R,
)
    requires
        is_codec(encode, decode, read_as),
        reading.follows(records, encode, decode, read_as),
        reading.takes(LogStep::Read { event }, encode, decode),
    ensures
        ({
            let after = reading.after(LogStep::Read { event }, encode, decode);
            let buffer = after.cursor.buffer;
            &&& after.follows(records, encode, decode, read_as)
            &&& after.asked is Finished ==> {
                &&& unread(after.cursor, after.journal.writing.contents) == buffer
                &&& buffer.len() == 0 || decode(buffer) is None
            }
        }),
{
    let after = reading.after(LogStep::Read { event }, encode, decode);
    let cursor = reading.cursor;
    let contents = reading.journal.writing.contents;
    let unwritten = reading.journal.writing.unwritten;
    let count = reading.read.len() as int;
    law_reading_loses_nothing(cursor, event, contents);
    law_search_comes_to_an_end(cursor, event, contents);
    if let LogEvent::Decoded { used } = event {
        let left = records.skip(count);
        let stream = unread(cursor, contents);
        let all = stream + unwritten;
        let used = used as int;
        assert(cursor.buffer =~= all.take(cursor.buffer.len() as int));
        lemma_first_is_found(cursor.buffer, left, encode, decode, read_as);
        assert(stream.skip(used) + unwritten =~= all.skip(used));
        assert(left[0] == records[count]);
        assert(left.skip(1) =~= records.skip(count + 1));
        assert(records.take(count + 1) =~= records.take(count).push(records[count]));
        assert(after.read =~= records.take(count + 1).map_values(read_as));
    }
}

/// A cursor in a log that is written to follows what is taken too.
proof fn lemma_writing_is_followed<R>(
    reading: LogReading<R>,
    step: LogStep<R>,
    records: Seq<R>,
    encode: spec_fn(R) -> Seq<u8>,
    decode: spec_fn(Seq<u8>) -> Option<(R, nat)>,
    read_as: spec_fn(R) -> R,
)
    requires
        !(step is Read),
        reading.follows(records, encode, decode, read_as),
        reading.takes(step, encode, decode),
    ensures
        reading.after(step, encode, decode).follows(
            match step {
                LogStep::Took { record, .. } => records.push(record),
                _ => records,
            },
            encode,
            decode,
            read_as,
        ),
{
    let after = reading.after(step, encode, decode);
    let cursor = reading.cursor;
    let contents = reading.journal.writing.contents;
    let unwritten = reading.journal.writing.unwritten;
    let grown = after.journal.writing.contents;
    let still = after.journal.writing.unwritten;
    let count = reading.read.len() as int;
    let left = records.skip(count);
    let stream = unread(cursor, contents);
    lemma_step_appends(reading.journal, step, encode);
    law_growing_log_is_read_on(cursor, contents, grown);
    if let LogStep::Took { record, .. } = step {
        let more = records.push(record);
        assert(more.skip(count) =~= left.push(record));
        assert(more.take(count) =~= records.take(count));
        lemma_framed_push(left, record, encode);
        assert(unread(cursor, grown) + still =~= stream + (unwritten + encode(record)));
        assert(stream + (unwritten + encode(record)) =~= (stream + unwritten) + encode(record));
    } else {
        assert(unread(cursor, grown) + still =~= stream + (unwritten + Seq::<u8>::empty()));
        assert(unwritten + Seq::<u8>::empty() =~= unwritten);
    }
}

/// The codec finds the first of the records that a stream begins with, if it finds any.
proof fn lemma_first_is_found<R>(
    buffer: Seq<u8>,
    records: Seq<R>,
    encode: spec_fn(R) -> Seq<u8>,
    decode: spec_fn(Seq<u8>) -> Option<(R, nat)>,
    read_as: spec_fn(R) -> R,
)
    requires
        is_codec(encode, decode, read_as),
        buffer.is_prefix_of(framed(records, encode)),
        decode(buffer) is Some,
    ensures
        records.len() > 0,
        decode(buffer) == Some((read_as(records[0]), encode(records[0]).len())),
        framed(records, encode).skip(encode(records[0]).len() as int) == framed(
            records.skip(1),
            encode,
        ),
{
    let stream = framed(records, encode);
    let (record, used) = decode(buffer)->0;
    assert(buffer =~= stream.take(buffer.len() as int));
    if records.len() == 0 {
        assert(stream.len() == 0);
        assert(buffer.len() == 0);
        assert(encode(record).len() > 0);
        assert(buffer =~= encode(record).subrange(0, 0));
        assert(buffer.is_prefix_of(encode(record)));
    } else {
        let first = encode(records[0]);
        let rest = framed(records.skip(1), encode);
        assert(stream == first + rest);
        if buffer.len() < first.len() {
            assert(buffer =~= first.take(buffer.len() as int));
            assert(buffer.is_prefix_of(first));
        } else {
            assert(first =~= buffer.take(first.len() as int));
            assert(first.is_prefix_of(buffer));
        }
        assert(stream.skip(first.len() as int) =~= rest);
    }
}

/// A cursor reads on from where it stands: it asks for the bytes of the file that it stands in from
/// its place on, at least as many as are read at a time and as the codec would go on with. The
/// codec is asked exactly where something has been read and not been looked at yet.
pub proof fn law_cursor_reads_where_it_stands(
    cursor: CursorView,
    event: LogEvent,
    file_count: int,
)
    requires
        0 <= cursor.file < file_count <= usize::MAX,
        0 <= cursor.pos <= u64::MAX,
        0 <= cursor.read_len <= usize::MAX,
        event matches LogEvent::Read { bytes } ==> cursor.pos + bytes@.len() <= u64::MAX,
    ensures
        ({
            let (next, action) = cursor.after(event, file_count);
            &&& action matches LogAction::Read { file, pos, len } ==> {
                &&& file == next.file
                &&& pos == next.pos
                &&& len >= 4096
                &&& event matches LogEvent::Incomplete { additional } ==> len >= additional
            }
            &&& action is Decode <==> (event is Wanted || event is Read && action != (
            LogAction::Finished)) && next.buffer.len() > 0
            &&& event is Wanted ==> next.buffer == cursor.buffer
            &&& event is Incomplete ==> next.buffer == cursor.buffer
            &&& event is Broken ==> next == cursor && action is Broken
            &&& action is Broken ==> event is Broken
            &&& action is Finished ==> cursor.file == file_count - 1 && next.file == cursor.file
                && next.pos == cursor.pos
        }),
{
}

/// A file is written to for an hour: a record that is taken no sooner than that after the file was
/// begun gets a new one, which begins empty at that moment, and any other goes to the file that is
/// there. No file is changed by it.
pub proof fn law_file_is_begun_every_hour(
    files: Seq<LogFile>,
    begun_at: u64,
    start_time: Timestamp,
    now: u64,
)
    ensures
        ({
            let after = files_for_record(files, begun_at, start_time, now);
            let hour = 3_600_000_000_000int;
            &&& now >= begun_at + hour ==> {
                &&& after.len() == files.len() + 1
                &&& after.last().size == 0
                &&& after.last().start_time == start_time
                &&& begun_for_record(begun_at, now) == now
            }
            &&& now < begun_at + hour ==> after == files && begun_for_record(begun_at, now)
                == begun_at
            &&& forall|i: int| 0 <= i < files.len() ==> #[trigger] after[i] == files[i]
        }),
{
}

} // verus!
