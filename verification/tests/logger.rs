use csv_logger::actions::FsAction;
use csv_logger::logger::{CsvLogger, RotationPolicy};
use csv_logger::marker::{format_epoch, parse_epoch};
use csv_logger::paths::{epoch_file_path, log_file_path};
use csv_logger::row::Record;
use std::collections::HashMap;

/// An in-memory filesystem: applies the logger's actions the way the real
/// shell would. `AppendBytes` writes through the handle that the last
/// `CreateTruncated` for the path opened, so rows appended after the file
/// was deleted go nowhere, exactly as on a real unlinked file.
struct MemFs {
    files: HashMap<String, Vec<u8>>,
}

impl MemFs {
    fn new() -> MemFs {
        MemFs { files: HashMap::new() }
    }

    fn apply(&mut self, acts: Vec<FsAction>) {
        for a in acts {
            match a {
                FsAction::CreateTruncated { path } => {
                    self.files.insert(path, Vec::new());
                }
                FsAction::AppendBytes { path, bytes } => {
                    if let Some(f) = self.files.get_mut(&path) {
                        f.extend_from_slice(&bytes);
                    }
                }
                FsAction::WriteFile { path, content } => {
                    self.files.insert(path, content.into_bytes());
                }
                FsAction::DeleteIfExists { path } => {
                    self.files.remove(&path);
                }
            }
        }
    }

    fn has_file(&self, path: &str) -> bool {
        self.files.contains_key(path)
    }

    fn content(&self, path: &str) -> String {
        String::from_utf8(self.files.get(path).expect("no such file").clone()).unwrap()
    }
}

fn record(table: &str, s: &str, n: usize) -> Record {
    Record::new(
        table.to_string(),
        vec!["s".to_string(), "n".to_string()],
        vec![s.to_string(), n.to_string()],
    )
}

/// Logs one record the way the shell does: reads the marker file content
/// only when the table has not been seen yet in this process.
fn log_rec(lg: &mut CsvLogger, fs: &mut MemFs, dir: &str, table: &str, s: &str, n: usize) {
    let marker_file = epoch_file_path(dir, table);
    let marker = if lg.has_table(&table.to_string()) {
        None
    } else if fs.has_file(&marker_file) {
        Some(fs.content(&marker_file))
    } else {
        None
    };
    let acts = lg.log(&record(table, s, n), marker.as_deref());
    fs.apply(acts);
}

fn new_logger(dir: &str, max_records: usize, max_epochs: usize) -> CsvLogger {
    CsvLogger::new(dir.to_string(), RotationPolicy { max_records, max_epochs })
}

#[test]
fn test_logger() {
    let dir = "out";
    let mut fs = MemFs::new();
    let mut lg = new_logger(dir, 2, 2);
    log_rec(&mut lg, &mut fs, dir, "test", "a", 0);
    log_rec(&mut lg, &mut fs, dir, "test", "b", 1);
    fs.apply(lg.flush());
    let path = log_file_path(dir, "test", 0);
    assert!(fs.has_file(&path));
    assert_eq!(fs.content(&path), "s,n\na,0\nb,1\n");
}

#[test]
fn test_rotation() {
    let dir = "out";
    let mut fs = MemFs::new();
    let mut lg = new_logger(dir, 2, 2);

    log_rec(&mut lg, &mut fs, dir, "test", "a", 0);
    fs.apply(lg.flush());
    assert!(fs.has_file(&log_file_path(dir, "test", 0)));
    assert!(!fs.has_file(&log_file_path(dir, "test", 1)));

    log_rec(&mut lg, &mut fs, dir, "test", "b", 1);
    assert!(fs.has_file(&log_file_path(dir, "test", 0)));
    assert!(fs.has_file(&log_file_path(dir, "test", 1)));
    assert!(!fs.has_file(&log_file_path(dir, "test", 2)));

    log_rec(&mut lg, &mut fs, dir, "test", "c", 2);
    fs.apply(lg.flush());
    assert!(fs.has_file(&log_file_path(dir, "test", 0)));
    assert!(fs.has_file(&log_file_path(dir, "test", 1)));
    assert!(!fs.has_file(&log_file_path(dir, "test", 2)));

    log_rec(&mut lg, &mut fs, dir, "test", "d", 3);
    assert!(!fs.has_file(&log_file_path(dir, "test", 0)));
    assert!(fs.has_file(&log_file_path(dir, "test", 1)));
    assert!(fs.has_file(&log_file_path(dir, "test", 2)));
    assert!(!fs.has_file(&log_file_path(dir, "test", 3)));
}

#[test]
fn rotation_scenario_contents() {
    let dir = "out";
    let mut fs = MemFs::new();
    let mut lg = new_logger(dir, 2, 2);

    // Two records fill epoch 0; the rotation that opens epoch 1 drains the
    // replaced writer, so epoch 0's file is complete on disk already.
    log_rec(&mut lg, &mut fs, dir, "test", "a", 0);
    log_rec(&mut lg, &mut fs, dir, "test", "b", 1);
    fs.apply(lg.flush());
    assert_eq!(fs.content(&log_file_path(dir, "test", 0)), "s,n\na,0\nb,1\n");

    // The next two records fill epoch 1; the rotation to epoch 2 deletes
    // epoch 0, which falls out of the window of 2.
    log_rec(&mut lg, &mut fs, dir, "test", "c", 2);
    log_rec(&mut lg, &mut fs, dir, "test", "d", 3);
    fs.apply(lg.flush());
    assert!(!fs.has_file(&log_file_path(dir, "test", 0)));
    assert_eq!(fs.content(&log_file_path(dir, "test", 1)), "s,n\nc,2\nd,3\n");
    assert_eq!(fs.content(&log_file_path(dir, "test", 2)), "");
    assert!(!fs.has_file(&log_file_path(dir, "test", 3)));
    assert_eq!(fs.content(&epoch_file_path(dir, "test")), "2");
}

#[test]
fn header_written_once_per_file() {
    let dir = "out";
    let mut fs = MemFs::new();
    let mut lg = new_logger(dir, 5, 2);
    log_rec(&mut lg, &mut fs, dir, "test", "a", 0);
    log_rec(&mut lg, &mut fs, dir, "test", "b", 1);
    log_rec(&mut lg, &mut fs, dir, "test", "c", 2);
    fs.apply(lg.flush());
    let content = fs.content(&log_file_path(dir, "test", 0));
    assert_eq!(content, "s,n\na,0\nb,1\nc,2\n");
    assert_eq!(content.matches("s,n").count(), 1);
}

#[test]
fn flush_twice_is_a_no_op() {
    let dir = "out";
    let mut fs = MemFs::new();
    let mut lg = new_logger(dir, 10, 2);
    log_rec(&mut lg, &mut fs, dir, "test", "a", 0);
    let first = lg.flush();
    assert_eq!(first.len(), 1);
    fs.apply(first);
    let before = fs.content(&log_file_path(dir, "test", 0));
    let second = lg.flush();
    assert_eq!(second.len(), 0);
    fs.apply(second);
    assert_eq!(fs.content(&log_file_path(dir, "test", 0)), before);
}

#[test]
fn epoch_marker_round_trip() {
    assert_eq!(parse_epoch(&format_epoch(0)), Some(0));
    assert_eq!(parse_epoch(&format_epoch(5)), Some(5));
    assert_eq!(parse_epoch(&format_epoch(usize::MAX)), Some(usize::MAX));
    assert_eq!(format_epoch(2026), "2026");
}

#[test]
fn epoch_marker_rejects_corrupt_text() {
    assert_eq!(parse_epoch(""), None);
    assert_eq!(parse_epoch("nonsense"), None);
    assert_eq!(parse_epoch("12x"), None);
    assert_eq!(parse_epoch("-3"), None);
    assert_eq!(parse_epoch("999999999999999999999999999999"), None);
    assert_eq!(parse_epoch("007"), Some(7));
}

#[test]
fn recovery_resumes_at_persisted_epoch() {
    let dir = "out";
    let mut fs = MemFs::new();
    {
        // First process lifetime: fills epoch 0, rotates to epoch 1.
        let mut lg = new_logger(dir, 2, 5);
        log_rec(&mut lg, &mut fs, dir, "test", "a", 0);
        log_rec(&mut lg, &mut fs, dir, "test", "b", 1);
        fs.apply(lg.flush());
        assert_eq!(fs.content(&epoch_file_path(dir, "test")), "1");
    }
    {
        // Fresh process: the persisted number is the next epoch to use, so
        // epoch 1 is reopened truncated and epoch 0 is kept in the window.
        let mut lg = new_logger(dir, 2, 5);
        log_rec(&mut lg, &mut fs, dir, "test", "c", 2);
        fs.apply(lg.flush());
        assert_eq!(lg.tables[0].epoch(), 1);
        assert_eq!(fs.content(&log_file_path(dir, "test", 1)), "s,n\nc,2\n");
        assert_eq!(fs.content(&log_file_path(dir, "test", 0)), "s,n\na,0\nb,1\n");
    }
}

#[test]
fn corrupt_marker_is_deleted_and_recovery_starts_clean() {
    let dir = "out";
    let mut fs = MemFs::new();
    fs.files
        .insert(epoch_file_path(dir, "test"), b"not a number".to_vec());
    let mut lg = new_logger(dir, 2, 2);
    let marker_file = epoch_file_path(dir, "test");
    let marker = fs.content(&marker_file);
    let acts = lg.log(&record("test", "a", 0), Some(&marker));
    assert!(matches!(
        &acts[0],
        FsAction::DeleteIfExists { path } if *path == marker_file
    ));
    fs.apply(acts);
    assert_eq!(lg.tables[0].epoch(), 0);
    assert!(fs.has_file(&log_file_path(dir, "test", 0)));
    assert_eq!(fs.content(&epoch_file_path(dir, "test")), "0");
}

#[test]
fn fields_needing_quotes_are_encoded_not_echoed() {
    let dir = "out";
    let mut fs = MemFs::new();
    let mut lg = new_logger(dir, 10, 2);
    log_rec(&mut lg, &mut fs, dir, "test", "a,b", 0);
    fs.apply(lg.flush());
    assert_eq!(
        fs.content(&log_file_path(dir, "test", 0)),
        "s,n\n\"a,b\",0\n"
    );
}

#[test]
fn row_distribution_over_many_appends() {
    let dir = "out";
    let mut fs = MemFs::new();
    let mut lg = new_logger(dir, 3, 100);
    for i in 0..10 {
        log_rec(&mut lg, &mut fs, dir, "test", "x", i);
    }
    fs.apply(lg.flush());
    // 10 appends with max_records = 3: three full epochs of 3 rows each,
    // and one row in the current epoch 3.
    for e in 0..3 {
        let c = fs.content(&log_file_path(dir, "test", e));
        assert_eq!(c.lines().count(), 4, "epoch {e}: header plus 3 rows");
    }
    assert_eq!(fs.content(&log_file_path(dir, "test", 3)).lines().count(), 2);
    assert!(!fs.has_file(&log_file_path(dir, "test", 4)));
    assert_eq!(lg.tables[0].records_written(), 1);
    assert_eq!(lg.tables[0].epoch(), 3);
}

#[test]
fn zero_epoch_window_keeps_nothing() {
    let dir = "out";
    let mut fs = MemFs::new();
    let mut lg = new_logger(dir, 2, 0);
    log_rec(&mut lg, &mut fs, dir, "test", "a", 0);
    // With a window of zero the retention step prunes the file it just
    // opened; rows written through the still-open handle go nowhere.
    assert!(!fs.has_file(&log_file_path(dir, "test", 0)));
    fs.apply(lg.flush());
    assert!(!fs.has_file(&log_file_path(dir, "test", 0)));
    assert_eq!(fs.content(&epoch_file_path(dir, "test")), "0");
}

#[test]
fn tables_are_independent() {
    let dir = "out";
    let mut fs = MemFs::new();
    let mut lg = new_logger(dir, 2, 2);
    log_rec(&mut lg, &mut fs, dir, "alpha", "a", 0);
    log_rec(&mut lg, &mut fs, dir, "beta", "b", 1);
    log_rec(&mut lg, &mut fs, dir, "alpha", "c", 2);
    fs.apply(lg.flush());
    assert_eq!(fs.content(&log_file_path(dir, "alpha", 0)), "s,n\na,0\nc,2\n");
    assert_eq!(fs.content(&log_file_path(dir, "beta", 0)), "s,n\nb,1\n");
    assert!(fs.has_file(&log_file_path(dir, "alpha", 1)));
    assert!(!fs.has_file(&log_file_path(dir, "beta", 1)));
}

#[test]
fn paths_are_resolved_exactly() {
    assert_eq!(log_file_path("out", "test", 0), "out/test/0.csv");
    assert_eq!(log_file_path("out", "test", 123), "out/test/123.csv");
    assert_eq!(epoch_file_path("out", "test"), "out/test/epoch");
}
