use homemon::clock::Timestamp;
use homemon::http_server::{
    chosen_port, history_in_range, history_min_time, History, HistoryStep, Page, PageAction,
    PageEvent, StatsGate, HISTORY_BATCH,
};
use homemon::monitor_log::{
    LogAction, LogCursor, LogEvent, LogFile, MonitorLog, WritePlan, FILE_SPAN, READ_LEN,
};

fn at(unix_secs: i64) -> Timestamp {
    Timestamp { unix_nanos: unix_secs as i128 * 1_000_000_000 }
}

#[test]
fn history_begins_a_minute_ago_unless_asked() {
    assert_eq!(history_min_time(None, at(1_700_000_060)), at(1_700_000_000));
    assert_eq!(
        history_min_time(Some(1), at(0)),
        Timestamp { unix_nanos: -1_000_000 }
    );
    assert_eq!(history_min_time(Some(0), at(5)), at(5));
}

#[test]
fn history_beyond_the_calendar_is_out_of_range() {
    let now = at(1_700_000_000);
    assert!(history_in_range(None, now));
    assert!(history_in_range(Some(379_405_116_800_000), now));
    assert!(!history_in_range(Some(379_405_116_800_001), now));
    assert!(!history_in_range(Some(u64::MAX), now));
    assert_eq!(history_min_time(Some(379_405_116_800_000), now), at(-377_705_116_800));
}

#[test]
fn old_entries_are_left_out() {
    let mut history: History<u32> = History::new(at(100));
    assert_eq!(history.take(Some((Some(at(99)), 1))), HistoryStep::Read);
    assert_eq!(history.take(Some((Some(at(100)), 2))), HistoryStep::Read);
    assert_eq!(history.take(Some((None, 3))), HistoryStep::Read);
    assert_eq!(history.take(Some((Some(at(101)), 4))), HistoryStep::Read);
    assert_eq!(
        history.take(None),
        HistoryStep::Send { batch: vec![2, 4], finished: true }
    );
}

#[test]
fn empty_history_is_sent_too() {
    let mut history: History<u32> = History::new(at(0));
    assert_eq!(history.take(None), HistoryStep::Send { batch: vec![], finished: true });
}

#[test]
fn history_is_sent_a_batch_at_a_time_and_complete() {
    let mut history: History<usize> = History::new(at(0));
    let mut sent = Vec::new();
    for i in 0..HISTORY_BATCH + 3 {
        match history.take(Some((Some(at(1)), i))) {
            HistoryStep::Read => {}
            HistoryStep::Send { batch, finished } => {
                assert_eq!(i, HISTORY_BATCH - 1);
                assert!(!finished);
                assert_eq!(batch.len(), 1000);
                sent.extend(batch);
            }
        }
    }
    match history.take(None) {
        HistoryStep::Send { batch, finished } => {
            assert!(finished);
            assert_eq!(batch.len(), 3);
            sent.extend(batch);
        }
        HistoryStep::Read => panic!("the end of the log ends the history"),
    }
    assert_eq!(sent, (0..HISTORY_BATCH + 3).collect::<Vec<_>>());
}

#[test]
fn gate_lets_through_what_differs_from_the_last() {
    let mut gate = StatsGate::new();
    assert!(!gate.is_news_by_digest([0; 32]));
    assert!(gate.is_news_by_digest([1; 32]));
    assert!(!gate.is_news_by_digest([1; 32]));
    let mut last_byte = [1; 32];
    last_byte[31] = 2;
    assert!(gate.is_news_by_digest(last_byte));
    assert!(gate.is_news_by_digest([1; 32]));
}

fn live_page() -> Page<u32> {
    let mut page: Page<u32> = Page::open(at(0));
    assert!(matches!(page.step(PageEvent::Entry(None)), PageAction::SendHistory { .. }));
    assert!(matches!(page.step(PageEvent::Sent { taken: true }), PageAction::LookAtPicture));
    page
}

#[test]
fn picture_is_sent_when_it_differs_from_the_last() {
    let mut page = live_page();
    for (picture, is_sent) in
        [("one", true), ("one", false), ("two", true), ("one", true), ("", true), ("", false)]
    {
        match page.look(picture.as_bytes()) {
            PageAction::SendPicture => {
                assert!(is_sent);
                assert!(matches!(
                    page.step(PageEvent::Sent { taken: true }),
                    PageAction::WaitForChange
                ));
            }
            PageAction::WaitForChange => assert!(!is_sent),
            other => panic!("{other:?}"),
        }
        assert!(matches!(page.step(PageEvent::Changed), PageAction::LookAtPicture));
    }
}

#[test]
fn pictures_are_told_apart_by_their_digests() {
    // The digest of nothing at all.
    let empty: [u8; 32] = [
        0xaf, 0x13, 0x49, 0xb9, 0xf5, 0xf9, 0xa1, 0xa6, 0xa0, 0x40, 0x4d, 0xea, 0x36, 0xdc, 0xc9,
        0x49, 0x9b, 0xcb, 0x25, 0xc9, 0xad, 0xc1, 0x12, 0xb7, 0xcc, 0x9a, 0x93, 0xca, 0xe4, 0x1f,
        0x32, 0x62,
    ];
    let mut page = live_page();
    assert!(matches!(page.step(PageEvent::Picture { digest: empty }), PageAction::SendPicture));
    page.step(PageEvent::Sent { taken: true });
    page.step(PageEvent::Changed);
    assert!(matches!(page.look(b""), PageAction::WaitForChange));
}

#[test]
fn page_is_sent_its_history_before_any_picture() {
    let mut page: Page<u32> = Page::open(at(100));
    assert!(matches!(page.look(b"early"), PageAction::Nothing));
    assert!(matches!(
        page.step(PageEvent::Entry(Some((Some(at(99)), 1)))),
        PageAction::ReadEntry
    ));
    assert!(matches!(
        page.step(PageEvent::Entry(Some((Some(at(100)), 2)))),
        PageAction::ReadEntry
    ));
    match page.step(PageEvent::Entry(None)) {
        PageAction::SendHistory { batch } => assert_eq!(batch, vec![2]),
        other => panic!("{other:?}"),
    }
    assert!(matches!(page.step(PageEvent::Sent { taken: true }), PageAction::LookAtPicture));
    assert!(matches!(page.look(b"picture"), PageAction::SendPicture));
}

#[test]
fn page_reads_on_after_a_full_batch() {
    let mut page: Page<usize> = Page::open(at(0));
    for i in 0..HISTORY_BATCH - 1 {
        assert!(matches!(
            page.step(PageEvent::Entry(Some((Some(at(1)), i)))),
            PageAction::ReadEntry
        ));
    }
    match page.step(PageEvent::Entry(Some((Some(at(1)), 999)))) {
        PageAction::SendHistory { batch } => assert_eq!(batch, (0..1000).collect::<Vec<_>>()),
        other => panic!("{other:?}"),
    }
    assert!(matches!(page.step(PageEvent::Sent { taken: true }), PageAction::ReadEntry));
    match page.step(PageEvent::Entry(None)) {
        PageAction::SendHistory { batch } => assert!(batch.is_empty()),
        other => panic!("{other:?}"),
    }
}

#[test]
fn page_that_has_gone_is_sent_nothing_more() {
    let mut page: Page<u32> = Page::open(at(0));
    page.step(PageEvent::Entry(None));
    assert!(matches!(page.step(PageEvent::Sent { taken: false }), PageAction::Close));
    assert!(matches!(page.look(b"picture"), PageAction::Nothing));
    assert!(matches!(page.step(PageEvent::Changed), PageAction::Nothing));

    let mut page = live_page();
    page.look(b"picture");
    assert!(matches!(page.step(PageEvent::Sent { taken: false }), PageAction::Close));
}

#[test]
fn port_is_the_argument_then_the_environment_then_the_usual() {
    assert_eq!(chosen_port(Some("80"), Some("90")), Some(80));
    assert_eq!(chosen_port(None, Some("90")), Some(90));
    assert_eq!(chosen_port(None, None), Some(8080));
    assert_eq!(chosen_port(Some("65535"), None), Some(65535));
    assert_eq!(chosen_port(Some("+8"), None), Some(8));
}

#[test]
fn what_is_no_port_is_refused() {
    assert_eq!(chosen_port(Some("65536"), None), None);
    assert_eq!(chosen_port(Some(""), Some("90")), None);
    assert_eq!(chosen_port(Some("http"), None), None);
    assert_eq!(chosen_port(None, Some("-1")), None);
}

#[test]
fn log_begins_a_file_every_hour() {
    let mut log = MonitorLog::new(at(10), 1000);
    assert_eq!(log.files(), &vec![LogFile { size: 0, start_time: at(10) }]);
    assert!(!log.is_new_file_due(1000 + FILE_SPAN - 1));
    assert_eq!(log.log_update(vec![1, 2], at(11), 1000 + FILE_SPAN - 1), None);
    assert_eq!(log.log_update(vec![3], at(12), 1000 + FILE_SPAN), Some(1));
    assert_eq!(log.files().len(), 2);
    assert_eq!(log.files()[1].start_time, at(12));
    assert_eq!(log.pending(), &vec![1, 2, 3]);
    assert!(!log.is_new_file_due(1000 + FILE_SPAN + 1));
    assert_eq!(FILE_SPAN, 3_600_000_000_000);
}

#[test]
fn files_are_called_by_their_numbers() {
    assert_eq!(MonitorLog::file_name(0), "0");
    assert_eq!(MonitorLog::file_name(120), "120");
}

#[test]
fn record_goes_to_the_end_of_the_last_file() {
    let mut log = MonitorLog::new(at(0), 0);
    assert_eq!(log.next_write(), None);
    log.log_update(vec![1, 2, 3], at(0), 0);
    assert_eq!(log.next_write(), Some(WritePlan { file: 0, offset: 0 }));
    log.wrote(2);
    assert_eq!(log.pending(), &vec![3]);
    assert_eq!(log.next_write(), Some(WritePlan { file: 0, offset: 2 }));
    log.wrote(1);
    assert_eq!(log.next_write(), None);
    assert_eq!(log.files()[0].size, 3);
    assert_eq!(log.create_log_file(at(7), 9), 1);
    log.log_update(vec![4], at(0), 10);
    assert_eq!(log.next_write(), Some(WritePlan { file: 1, offset: 0 }));
}

#[test]
fn cursor_skips_to_the_file_of_a_moment() {
    let files = vec![
        LogFile { size: 0, start_time: at(100) },
        LogFile { size: 0, start_time: at(200) },
        LogFile { size: 0, start_time: at(300) },
    ];
    let log = MonitorLog::new(at(0), 0);
    let mut cursor = log.cursor();
    let first_read = |file: usize| LogAction::Read { file, pos: 0, len: READ_LEN };
    cursor.skip_to_hour(&files, at(250));
    assert_eq!(cursor.next(LogEvent::Wanted, 3), first_read(1));
    cursor.skip_to_hour(&files, at(200));
    assert_eq!(cursor.next(LogEvent::Wanted, 3), first_read(1));
    cursor.skip_to_hour(&files, at(50));
    assert_eq!(cursor.next(LogEvent::Wanted, 3), first_read(0));
    cursor.skip_to_hour(&files, at(1000));
    assert_eq!(cursor.next(LogEvent::Wanted, 3), first_read(2));
}

#[test]
fn cursor_reads_what_the_codec_asks_for() {
    let log = MonitorLog::new(at(0), 0);
    let mut cursor = log.cursor();
    assert_eq!(
        cursor.next(LogEvent::Wanted, 1),
        LogAction::Read { file: 0, pos: 0, len: 4096 }
    );
    assert_eq!(cursor.next(LogEvent::Read { bytes: vec![9, 9] }, 1), LogAction::Decode);
    assert_eq!(cursor.buffer(), &vec![9, 9]);
    assert_eq!(
        cursor.next(LogEvent::Incomplete { additional: 5000 }, 1),
        LogAction::Read { file: 0, pos: 2, len: 5000 }
    );
    assert_eq!(cursor.next(LogEvent::Read { bytes: vec![8] }, 1), LogAction::Decode);
    assert_eq!(cursor.next(LogEvent::Decoded { used: 2 }, 1), LogAction::Yield);
    assert_eq!(cursor.buffer(), &vec![8]);
    assert_eq!(cursor.next(LogEvent::Wanted, 1), LogAction::Decode);
    assert_eq!(cursor.next(LogEvent::Broken, 1), LogAction::Broken);
}

#[test]
fn cursor_goes_on_to_the_next_file() {
    let log = MonitorLog::new(at(0), 0);
    let mut cursor = log.cursor();
    cursor.next(LogEvent::Wanted, 2);
    cursor.next(LogEvent::Read { bytes: vec![1] }, 2);
    cursor.next(LogEvent::Decoded { used: 1 }, 2);
    assert_eq!(
        cursor.next(LogEvent::Wanted, 2),
        LogAction::Read { file: 0, pos: 1, len: 4096 }
    );
    assert_eq!(
        cursor.next(LogEvent::Read { bytes: vec![] }, 2),
        LogAction::Read { file: 1, pos: 0, len: 4096 }
    );
    assert_eq!(cursor.next(LogEvent::Read { bytes: vec![] }, 2), LogAction::Finished);
    // A file that was begun since is read on.
    assert_eq!(
        cursor.next(LogEvent::Wanted, 3),
        LogAction::Read { file: 1, pos: 0, len: 4096 }
    );
}

#[test]
fn log_without_files_is_at_its_end() {
    let log = MonitorLog::new(at(0), 0);
    let mut cursor = log.cursor();
    assert_eq!(cursor.next(LogEvent::Wanted, 0), LogAction::Finished);
}

/// Takes a record and writes it in pieces of two bytes.
fn keep(log: &mut MonitorLog, contents: &mut Vec<Vec<u8>>, record: &[u8], now: u64) {
    if log.log_update(record.to_vec(), at(now as i64 / 1_000_000_000), now).is_some() {
        contents.push(Vec::new());
    }
    while let Some(plan) = log.next_write() {
        let n = log.pending().len().min(2);
        assert_eq!(plan.offset as usize, contents[plan.file].len());
        contents[plan.file].extend(&log.pending()[..n]);
        log.wrote(n);
    }
}

/// Reads records of a length byte and that many bytes, two bytes at a time, up to the end.
fn read_on(cursor: &mut LogCursor, contents: &[Vec<u8>]) -> Vec<Vec<u8>> {
    let mut found = Vec::new();
    let mut event = LogEvent::Wanted;
    loop {
        match cursor.next(event, contents.len()) {
            LogAction::Decode => {
                let need = cursor.buffer()[0] as usize + 1;
                let have = cursor.buffer().len();
                event = if have < need {
                    LogEvent::Incomplete { additional: need - have }
                } else {
                    found.push(cursor.buffer()[..need].to_vec());
                    LogEvent::Decoded { used: need }
                };
            }
            LogAction::Read { file, pos, len } => {
                let rest = &contents[file][pos as usize..];
                let n = rest.len().min(len).min(2);
                event = LogEvent::Read { bytes: rest[..n].to_vec() };
            }
            LogAction::Yield => event = LogEvent::Wanted,
            LogAction::Finished => return found,
            LogAction::Broken => panic!("no record is broken"),
        }
    }
}

#[test]
fn what_is_written_is_read_back() {
    let records: Vec<Vec<u8>> = vec![vec![3, 1, 2, 3], vec![1, 9], vec![2, 7, 8], vec![0]];
    let mut log = MonitorLog::new(at(0), 0);
    let mut contents: Vec<Vec<u8>> = vec![Vec::new()];
    for (i, record) in records.iter().enumerate() {
        keep(&mut log, &mut contents, record, if i < 2 { 0 } else { FILE_SPAN });
    }
    assert_eq!(contents.len(), 2);
    assert_eq!(read_on(&mut log.cursor(), &contents), records);
}

#[test]
fn log_is_read_on_while_it_grows() {
    let mut log = MonitorLog::new(at(0), 0);
    let mut contents: Vec<Vec<u8>> = vec![Vec::new()];
    let mut cursor = log.cursor();
    assert!(read_on(&mut cursor, &contents).is_empty());
    keep(&mut log, &mut contents, &[2, 1, 2], 0);
    assert_eq!(read_on(&mut cursor, &contents), [vec![2, 1, 2]]);
    assert!(read_on(&mut cursor, &contents).is_empty());
    // In the same file, and in two that are begun since.
    keep(&mut log, &mut contents, &[1, 3], 1);
    keep(&mut log, &mut contents, &[0], FILE_SPAN);
    keep(&mut log, &mut contents, &[1, 4], 2 * FILE_SPAN);
    assert_eq!(contents.len(), 3);
    assert_eq!(read_on(&mut cursor, &contents), [vec![1, 3], vec![0], vec![1, 4]]);
    // A record of which a part has been written is read once it is all there.
    log.log_update(vec![3, 7, 8, 9], at(0), 2 * FILE_SPAN);
    contents[2].extend([3, 7]);
    log.wrote(2);
    assert!(read_on(&mut cursor, &contents).is_empty());
    contents[2].extend([8, 9]);
    log.wrote(2);
    assert_eq!(read_on(&mut cursor, &contents), [vec![3, 7, 8, 9]]);
}

#[test]
fn file_that_is_skipped_to_is_read_from_its_first_record() {
    let mut log = MonitorLog::new(at(0), 0);
    let mut contents: Vec<Vec<u8>> = vec![Vec::new()];
    for hour in 0..4u64 {
        keep(&mut log, &mut contents, &[1, hour as u8], hour * FILE_SPAN);
        keep(&mut log, &mut contents, &[2, hour as u8, 9], hour * FILE_SPAN + 1);
    }
    assert_eq!(contents.len(), 4);
    let mut cursor = log.cursor();
    cursor.skip_to_hour(log.files(), at(2 * 3600 + 5));
    keep(&mut log, &mut contents, &[0], 4 * FILE_SPAN);
    assert_eq!(
        read_on(&mut cursor, &contents),
        [vec![1, 2], vec![2, 2, 9], vec![1, 3], vec![2, 3, 9], vec![0]]
    );
}

#[test]
fn record_stays_in_one_file() {
    let mut log = MonitorLog::new(at(0), 0);
    log.log_update(vec![1, 2, 3], at(0), 0);
    while log.next_write().is_some() {
        log.wrote(1);
    }
    // An hour later a new file takes the whole record, in whatever pieces it is written.
    assert_eq!(log.log_update(vec![4, 5, 6, 7], at(9), FILE_SPAN), Some(1));
    for (written, n) in [(0, 1), (1, 2), (3, 1)] {
        assert_eq!(log.next_write(), Some(WritePlan { file: 1, offset: written }));
        log.wrote(n);
    }
    assert_eq!(log.next_write(), None);
    assert_eq!(
        log.files(),
        &vec![LogFile { size: 3, start_time: at(0) }, LogFile { size: 4, start_time: at(9) }]
    );
}
