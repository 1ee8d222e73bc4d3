use chronos_collector::spool_log::{
    append, begin_append, checksum, count_frames, count_removed_segment, dropped, dropped_bytes,
    enforce_segment_budget, error_slot, failure_text, frame, generation_of, generations, report_failure, segment_name,
    short_text, AppendAction, AppendEvent, AppendState, IoKind, SpoolLog, ERROR_KINDS,
    MAX_FRAME_PAYLOAD_BYTES, MAX_SEGMENTS, SEGMENT_MAX_BYTES,
};
use std::collections::BTreeMap;

/// A directory of segments in memory.
struct Disk {
    segments: BTreeMap<u64, Vec<u8>>,
    denied: bool,
    room: usize,
}

impl Disk {
    fn new() -> Disk {
        Disk { segments: BTreeMap::new(), denied: false, room: usize::MAX }
    }

    fn generations(&self) -> Vec<u64> {
        let names: Vec<String> = self.segments.keys().rev().map(|g| segment_name(*g)).collect();
        generations(&names)
    }
}

/// One append in progress.
struct Writer {
    state: AppendState,
    event: AppendEvent,
    open: u64,
    frame: Vec<u8>,
    outcome: Option<Result<(), IoKind>>,
}

impl Writer {
    fn new(log: &mut SpoolLog, signal: &str, id: &str, payload: &[u8]) -> Result<Writer, bool> {
        begin_append(log, signal, "json", id, payload).map(|frame| Writer {
            state: AppendState::Directory,
            event: AppendEvent::Done,
            open: 0,
            frame,
            outcome: None,
        })
    }

    fn step(&mut self, log: &mut SpoolLog, disk: &mut Disk) {
        let (state, action) = append(log, self.state, self.event, self.frame.len());
        self.state = state;
        self.event = match action {
            AppendAction::FindNewest => AppendEvent::Newest(disk.generations().last().copied()),
            AppendAction::OpenAppend(g) => {
                self.open = g;
                if disk.segments.contains_key(&g) {
                    AppendEvent::Done
                } else {
                    AppendEvent::Failed(IoKind::NotFound)
                }
            }
            AppendAction::CreateNew(g) => {
                self.open = g;
                if disk.denied {
                    AppendEvent::Failed(IoKind::PermissionDenied)
                } else if disk.segments.contains_key(&g) {
                    AppendEvent::Failed(IoKind::AlreadyExists)
                } else {
                    disk.segments.insert(g, Vec::new());
                    AppendEvent::Done
                }
            }
            AppendAction::ReadLength => AppendEvent::Length(disk.segments[&self.open].len() as u64),
            AppendAction::EnforceBudget => {
                for g in enforce_segment_budget(&disk.generations()) {
                    let gone = disk.segments.remove(&g).unwrap();
                    count_removed_segment(log, g, gone.len() as u64, &gone);
                }
                AppendEvent::Done
            }
            AppendAction::Write => {
                let n = self.frame.len().min(disk.room);
                disk.segments.get_mut(&self.open).unwrap().extend_from_slice(&self.frame[..n]);
                AppendEvent::Written(n)
            }
            AppendAction::Succeed => {
                self.outcome = Some(Ok(()));
                self.event
            }
            AppendAction::Fail { kind, .. } => {
                self.outcome = Some(Err(kind));
                self.event
            }
        };
    }

    fn run(mut self, log: &mut SpoolLog, disk: &mut Disk) -> Result<(), IoKind> {
        while self.outcome.is_none() {
            self.step(log, disk);
        }
        self.outcome.unwrap()
    }
}

fn write(log: &mut SpoolLog, disk: &mut Disk, signal: &str, id: &str, payload: &[u8]) -> Result<(), IoKind> {
    Writer::new(log, signal, id, payload).unwrap_or_else(|_| panic!("framed")).run(log, disk)
}

#[test]
fn the_golden_vector_matches_the_readers() {
    let encoded = frame("trace", "json", "abc123", b"{}").expect("frame");
    let rendered = encoded.iter().map(|byte| format!("{byte:02x}")).collect::<String>();
    assert_eq!(
        rendered,
        "4348524e3200020000001980212a7b227369676e616c223a227472616365222c\
         22656e636f64696e67223a226a736f6e222c226964223a22616263313233227d7b7d"
    );
    assert_eq!(checksum(b"chronos"), 0x4AE2_E10F);
}

#[test]
fn appends_land_in_one_segment_in_order() {
    let (mut log, mut disk) = (SpoolLog::new(), Disk::new());
    write(&mut log, &mut disk, "trace", "one", b"{\"a\":1}").expect("first");
    write(&mut log, &mut disk, "log", "two", b"{\"b\":2}").expect("second");
    assert_eq!(disk.generations(), vec![1]);
    let first = frame("trace", "json", "one", b"{\"a\":1}").expect("frame");
    let second = frame("log", "json", "two", b"{\"b\":2}").expect("frame");
    assert_eq!(disk.segments[&1], [first, second].concat());
}

#[test]
fn the_segment_budget_drops_the_oldest_and_says_so() {
    let (mut log, mut disk) = (SpoolLog::new(), Disk::new());
    for generation in 1..=MAX_SEGMENTS as u64 + 2 {
        disk.segments.insert(generation, Vec::new());
    }
    let before = dropped(&log);
    for g in enforce_segment_budget(&disk.generations()) {
        let gone = disk.segments.remove(&g).unwrap();
        let line = count_removed_segment(&mut log, g, gone.len() as u64, &gone);
        assert!(line.contains(&segment_name(g)) && line.contains("(0 bytes)"));
    }
    let generations = disk.generations();
    assert_eq!(generations.len(), MAX_SEGMENTS);
    assert_eq!(
        *generations.first().expect("oldest kept"),
        3,
        "the oldest generations are the ones dropped"
    );
    assert!(dropped(&log) > before, "a drop must be counted");
}

#[test]
fn a_removed_segment_counts_as_the_frames_it_held() {
    let mut log = SpoolLog::new();
    let first = frame("trace", "json", "one", b"{}").expect("frame");
    let second = frame("log", "json", "two", b"[]").expect("frame");
    let whole = [first.clone(), second.clone()].concat();
    assert_eq!(count_frames(&whole), 2);
    let line = count_removed_segment(&mut log, 7, whole.len() as u64, &whole);
    assert!(line.contains("segment-000007.spool") && line.contains(&format!("({} bytes)", whole.len())));
    assert_eq!((dropped(&log), dropped_bytes(&log)), (2, whole.len() as u64));
    let torn = [&first[..9], &second[..], &first[..first.len() - 1]].concat();
    assert_eq!(count_frames(&torn), 1);
    let mut spoiled = first.clone();
    spoiled[20] ^= 1;
    assert_eq!(count_frames(&spoiled), 0);
    assert_eq!(count_frames(&[]), 0);
}

#[test]
fn rotation_is_won_by_exactly_one_writer() {
    let (mut log, mut disk) = (SpoolLog::new(), Disk::new());
    disk.segments.insert(1, Vec::new());
    let full = AppendEvent::Length(SEGMENT_MAX_BYTES);
    let rotating = |log: &mut SpoolLog| append(log, AppendState::Measuring { generation: 1 }, full, 9);
    let first = rotating(&mut log);
    let second = rotating(&mut log);
    assert_eq!(first, (AppendState::Rotating { next: 2 }, AppendAction::CreateNew(2)));
    assert_eq!(first, second);
    disk.segments.insert(2, Vec::new());
    let won = append(&mut log, first.0, AppendEvent::Done, 9);
    assert_eq!(won, (AppendState::Trimming, AppendAction::EnforceBudget));
    assert_eq!(append(&mut log, won.0, AppendEvent::Done, 9).1, AppendAction::Write);
    let lost = append(&mut log, second.0, AppendEvent::Failed(IoKind::AlreadyExists), 9);
    assert_eq!(lost.1, AppendAction::FindNewest);
    let newest = AppendEvent::Newest(disk.generations().last().copied());
    let opening = append(&mut log, lost.0, newest, 9);
    assert_eq!(
        opening.1,
        AppendAction::OpenAppend(2),
        "a writer that loses the race appends to the winner's segment"
    );
    assert_eq!(append(&mut log, opening.0, AppendEvent::Done, 9).1, AppendAction::Write);
    assert_eq!(disk.generations(), vec![1, 2]);
}

#[test]
fn an_oversized_document_is_refused_rather_than_framed() {
    let mut log = SpoolLog::new();
    let payload = vec![b'x'; MAX_FRAME_PAYLOAD_BYTES + 1];
    let before = dropped(&log);
    assert!(Writer::new(&mut log, "trace", "big", &payload).is_err());
    assert!(dropped(&log) > before);
    assert_eq!(dropped_bytes(&log), payload.len() as u64);
    assert!(frame("trace", "json", "fits", &payload[1..]).is_some());
}

#[test]
fn a_document_without_a_signal_or_with_a_long_id_is_refused() {
    assert!(frame("", "json", "x", b"{}").is_none());
    assert!(frame("trace", "", "x", b"{}").is_none());
    assert!(frame("trace", "json", &"x".repeat(66_000), b"{}").is_none());
}

#[test]
fn a_header_is_escaped() {
    let encoded = frame("trace", "json", "a\"b", b"").expect("frame");
    let header = std::str::from_utf8(&encoded[14..]).unwrap();
    assert_eq!(header, "{\"signal\":\"trace\",\"encoding\":\"json\",\"id\":\"a\\\"b\"}");
}

#[test]
fn concurrent_writers_never_interleave_a_frame() {
    let (mut log, mut disk) = (SpoolLog::new(), Disk::new());
    let writers = 8;
    let per_writer = 40;
    for sequence in 0..per_writer {
        let mut running: Vec<Writer> = (0..writers)
            .map(|writer| {
                let payload = format!(
                    "{{\"writer\":{writer},\"sequence\":{sequence},\"pad\":\"{}\"}}",
                    "x".repeat(writer * 37 + sequence)
                );
                let id = format!("{writer}-{sequence}");
                Writer::new(&mut log, "trace", &id, payload.as_bytes()).unwrap_or_else(|_| panic!("framed"))
            })
            .collect();
        while running.iter().any(|w| w.outcome.is_none()) {
            for writer in running.iter_mut().filter(|w| w.outcome.is_none()) {
                writer.step(&mut log, &mut disk);
            }
        }
    }
    let mut ids = std::collections::BTreeSet::new();
    for bytes in disk.segments.values() {
        let mut offset = 0;
        while offset < bytes.len() {
            let rest = &bytes[offset..];
            assert_eq!(&rest[..4], b"CHRN", "frame boundary at byte {offset}");
            let header_len = usize::from(u16::from_le_bytes([rest[4], rest[5]]));
            let payload_len = u32::from_le_bytes([rest[6], rest[7], rest[8], rest[9]]) as usize;
            let expected = u32::from_le_bytes([rest[10], rest[11], rest[12], rest[13]]);
            let total = 14 + header_len + payload_len;
            let body = &rest[14..total];
            assert_eq!(checksum(body), expected, "checksum at byte {offset}");
            let header: serde_json::Value =
                serde_json::from_slice(&body[..header_len]).expect("header");
            ids.insert(header["id"].as_str().expect("id").to_owned());
            offset += total;
        }
    }
    assert_eq!(
        ids.len(),
        writers * per_writer,
        "every appended frame must be present exactly once"
    );
}

#[test]
fn an_unwritable_spool_directory_fails_open_and_is_announced() {
    let (mut log, mut disk) = (SpoolLog::new(), Disk::new());
    disk.denied = true;
    let result = write(&mut log, &mut disk, "trace", "denied", b"{}");
    assert!(result.is_err(), "an unwritable spool must report the failure");
    assert!(
        log.announced[error_slot(IoKind::PermissionDenied)],
        "the failure must have been announced once"
    );
    let lost = frame("trace", "json", "denied", b"{}").expect("frame").len();
    assert_eq!((dropped(&log), dropped_bytes(&log)), (1, lost as u64), "and counted");
    let failed = AppendEvent::Failed(IoKind::StorageFull);
    append(&mut log, AppendState::Directory, failed, 10);
    append(&mut log, AppendState::Rotating { next: 2 }, failed, 10);
    assert_eq!((dropped(&log), dropped_bytes(&log)), (3, lost as u64 + 20));
}

#[test]
fn an_error_kind_is_latched_separately_from_the_others() {
    let mut log = SpoolLog::new();
    assert_eq!(log.announced.len(), ERROR_KINDS);
    assert!(report_failure(&mut log, IoKind::PermissionDenied));
    assert!(!report_failure(&mut log, IoKind::PermissionDenied));
    assert!(log.announced[error_slot(IoKind::PermissionDenied)]);
    assert!(
        !log.announced[error_slot(IoKind::StorageFull)],
        "a different kind keeps its own unspent latch"
    );
}

#[test]
fn a_write_to_a_retired_segment_reopens_rather_than_failing() {
    let (mut log, mut disk) = (SpoolLog::new(), Disk::new());
    write(&mut log, &mut disk, "trace", "one", b"{}").expect("first");
    disk.segments.remove(&1);
    write(&mut log, &mut disk, "trace", "two", b"{}").expect("after deletion");
    assert_eq!(disk.generations(), vec![1]);
}

#[test]
fn a_short_write_is_a_lost_frame() {
    let (mut log, mut disk) = (SpoolLog::new(), Disk::new());
    disk.room = 5;
    assert_eq!(write(&mut log, &mut disk, "trace", "x", b"{}"), Err(IoKind::WriteZero));
    assert_eq!(dropped(&log), 1);
    let lost = frame("trace", "json", "x", b"{}").unwrap().len();
    assert_eq!(dropped_bytes(&log), lost as u64);
    let line = short_text(&log, 5, lost, "/spool");
    assert!(line.starts_with(&format!("[chronos-ext] spool append was short (5 of {lost} bytes) at /spool: frame dropped. 1 frames (")));
    let line = failure_text(&log, "PermissionDenied", "denied", "/spool");
    assert!(line.starts_with("[chronos-ext] spool write failed (PermissionDenied: denied) at /spool: this process's telemetry"));
}

#[test]
fn a_full_segment_is_retired_and_the_budget_kept() {
    let (mut log, mut disk) = (SpoolLog::new(), Disk::new());
    for generation in 1..=4 {
        disk.segments.insert(generation, Vec::new());
    }
    let mut writer = Writer::new(&mut log, "trace", "x", b"{}").unwrap_or_else(|_| panic!("framed"));
    while writer.outcome.is_none() {
        if let AppendEvent::Length(_) = writer.event {
            if writer.open == 4 {
                writer.event = AppendEvent::Length(SEGMENT_MAX_BYTES);
            }
        }
        writer.step(&mut log, &mut disk);
    }
    assert_eq!(disk.generations(), vec![2, 3, 4, 5]);
    assert!(!disk.segments[&5].is_empty());
}

#[test]
fn segment_names_give_back_their_generation() {
    assert_eq!(segment_name(7), "segment-000007.spool");
    assert_eq!(segment_name(12_345_678), "segment-12345678.spool");
    for generation in [0, 1, 999_999, 1_000_000, u64::MAX] {
        assert_eq!(generation_of(&segment_name(generation)), Some(generation));
    }
    assert_eq!(generation_of("segment-1.spool"), Some(1));
    assert_eq!(generation_of("segment-.spool"), None);
    assert_eq!(generation_of("segment-x.spool"), None);
    assert_eq!(generation_of("segment-1.spool.tmp"), None);
    assert_eq!(generation_of("segment-18446744073709551616.spool"), None);
    let names = vec!["segment-000010.spool".to_owned(), "notes".to_owned(), "segment-000002.spool".to_owned()];
    assert_eq!(generations(&names), vec![2, 10]);
}
