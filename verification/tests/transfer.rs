use myterm::transfer::{
    check_transfer_cancelled, copy_stream_with_progress, count_chunk, transfer_cancelled_result,
    transfer_progress, CopyEnds, CopyRecord, SftpTransferManager, TRANSFER_BUFFER_SIZE,
};
use std::io::{Cursor, Read, Write};
use std::sync::atomic::{AtomicBool, Ordering};

struct Ends<R: Read, W: Write, F: FnMut(u64, u64) -> Result<(), String>> {
    reader: R,
    writer: W,
    on_progress: F,
}

impl<R: Read, W: Write, F: FnMut(u64, u64) -> Result<(), String>> CopyEnds for Ends<R, W, F> {
    fn read_chunk(&mut self, max: usize) -> Result<Vec<u8>, String> {
        let mut buf = vec![0u8; max];
        let n = self.reader.read(&mut buf).map_err(|e| e.to_string())?;
        buf.truncate(n);
        Ok(buf)
    }

    fn write_chunk(&mut self, data: &[u8]) -> Result<(), String> {
        self.writer.write_all(data).map_err(|e| e.to_string())
    }

    fn progress(&mut self, transferred: u64, total: u64) -> Result<(), String> {
        (self.on_progress)(transferred, total)
    }
}

#[test]
fn copy_stream_reports_byte_progress() {
    let reader = Cursor::new(vec![1u8; TRANSFER_BUFFER_SIZE * 2 + 7]);
    let mut writer = Vec::new();
    let cancel = AtomicBool::new(false);
    let mut progress = Vec::new();

    let copied = {
        let mut ends = CopyRecord::new(Ends {
            reader,
            writer: &mut writer,
            on_progress: |bytes, total| {
                progress.push((bytes, total));
                Ok(())
            },
        });
        copy_stream_with_progress(&mut ends, TRANSFER_BUFFER_SIZE as u64 * 2 + 7, &cancel).expect("copy")
    };

    assert_eq!(copied, TRANSFER_BUFFER_SIZE as u64 * 2 + 7);
    assert_eq!(writer.len(), TRANSFER_BUFFER_SIZE * 2 + 7);
    assert_eq!(progress.last(), Some(&(copied, copied)));
    assert!(progress.len() >= 2);
}

#[test]
fn copy_stream_stops_when_cancelled() {
    let reader = Cursor::new(vec![1u8; TRANSFER_BUFFER_SIZE * 3]);
    let mut writer = Vec::new();
    let cancel = AtomicBool::new(false);

    let err = {
        let mut ends = CopyRecord::new(Ends {
            reader,
            writer: &mut writer,
            on_progress: |_, _| {
                cancel.store(true, Ordering::SeqCst);
                Ok(())
            },
        });
        copy_stream_with_progress(&mut ends, TRANSFER_BUFFER_SIZE as u64 * 3, &cancel).expect_err("cancelled")
    };

    assert!(err.contains("cancelled"));
    assert!(writer.len() < TRANSFER_BUFFER_SIZE * 3);
}

struct FailingReader;

impl Read for FailingReader {
    fn read(&mut self, _buf: &mut [u8]) -> std::io::Result<usize> {
        Err(std::io::Error::new(std::io::ErrorKind::Other, "disk gone"))
    }
}

#[test]
fn copy_stream_names_a_failed_read() {
    let cancel = AtomicBool::new(false);
    let mut ends = CopyRecord::new(Ends { reader: FailingReader, writer: Vec::new(), on_progress: |_, _| Ok(()) });
    let err = copy_stream_with_progress(&mut ends, 0, &cancel).expect_err("read fails");
    assert_eq!(err, "Read transfer stream failed: disk gone");
}

#[test]
fn copy_stream_passes_listener_errors_on() {
    let cancel = AtomicBool::new(false);
    let mut ends = CopyRecord::new(Ends {
        reader: Cursor::new(vec![0u8; 10]),
        writer: Vec::new(),
        on_progress: |_, _| Err("window closed".to_string()),
    });
    assert_eq!(copy_stream_with_progress(&mut ends, 10, &cancel).err().unwrap(), "window closed");
}

#[test]
fn empty_source_copies_nothing() {
    let cancel = AtomicBool::new(false);
    let mut calls = 0;
    let mut ends = CopyRecord::new(Ends {
        reader: Cursor::new(Vec::new()),
        writer: Vec::new(),
        on_progress: |_, _| {
            calls += 1;
            Ok(())
        },
    });
    assert_eq!(copy_stream_with_progress(&mut ends, 0, &cancel).unwrap(), 0);
    drop(ends);
    assert_eq!(calls, 0);
}

#[test]
fn cancellation_checks() {
    let flag = AtomicBool::new(false);
    assert!(check_transfer_cancelled(&flag).is_ok());
    flag.store(true, Ordering::SeqCst);
    assert_eq!(check_transfer_cancelled(&flag).err().unwrap(), "Transfer cancelled");
    assert!(transfer_cancelled_result(false).is_ok());
    assert_eq!(transfer_cancelled_result(true).err().unwrap(), "Transfer cancelled");
}

#[test]
fn chunk_counting() {
    assert_eq!(count_chunk(10, 5).unwrap(), 15);
    assert_eq!(count_chunk(u64::MAX, 1).err().unwrap(), "Transfer size overflow");
}

#[test]
fn progress_records() {
    let p = transfer_progress("/srv/a", "a", 3, 9);
    assert_eq!(p.path, "/srv/a");
    assert_eq!(p.file_name, "a");
    assert_eq!((p.bytes_transferred, p.total_bytes), (3, 9));
}

#[test]
fn registered_transfers_can_be_cancelled_until_finished() {
    let mut m = SftpTransferManager::new();
    assert!(!m.cancel("t1"));
    let flag = m.register("t1");
    assert!(!flag.load(Ordering::SeqCst));
    assert!(m.cancel("t1"));
    assert!(flag.load(Ordering::SeqCst));
    m.finish("t1");
    assert!(!m.cancel("t1"));
}

#[test]
fn cancelling_an_unknown_transfer_is_an_error() {
    let mut m = SftpTransferManager::new();
    assert_eq!(m.cancel_transfer("nope").err().unwrap(), "Transfer not found");
    let _flag = m.register("t2");
    assert!(m.cancel_transfer("t2").is_ok());
}

#[test]
fn copy_stream_writes_the_source_in_order() {
    let data: Vec<u8> = (0..(TRANSFER_BUFFER_SIZE + 300)).map(|i| (i % 251) as u8).collect();
    let mut writer = Vec::new();
    let cancel = AtomicBool::new(false);
    let mut reports = Vec::new();
    let copied = {
        let mut ends = CopyRecord::new(Ends {
            reader: Cursor::new(data.clone()),
            writer: &mut writer,
            on_progress: |bytes, total| {
                reports.push((bytes, total));
                Ok(())
            },
        });
        copy_stream_with_progress(&mut ends, 7, &cancel).expect("copy")
    };
    assert_eq!(copied, data.len() as u64);
    assert_eq!(writer, data);
    assert!(reports.iter().all(|&(_, t)| t == 7));
    assert!(reports.windows(2).all(|w| w[0].0 < w[1].0));
    assert_eq!(reports.last().map(|r| r.0), Some(copied));
}

struct CountingReader {
    reads: std::rc::Rc<std::cell::Cell<usize>>,
}

impl Read for CountingReader {
    fn read(&mut self, _buf: &mut [u8]) -> std::io::Result<usize> {
        self.reads.set(self.reads.get() + 1);
        Ok(0)
    }
}

#[test]
fn a_raised_flag_stops_the_copy_before_any_read() {
    let cancel = AtomicBool::new(true);
    let reads = std::rc::Rc::new(std::cell::Cell::new(0));
    let mut reports = 0;
    let mut writer = Vec::new();
    let err = {
        let mut ends = CopyRecord::new(Ends {
            reader: CountingReader { reads: reads.clone() },
            writer: &mut writer,
            on_progress: |_, _| {
                reports += 1;
                Ok(())
            },
        });
        copy_stream_with_progress(&mut ends, 10, &cancel).expect_err("cancelled")
    };
    assert_eq!(err, "Transfer cancelled");
    assert_eq!(reads.get(), 0);
    assert_eq!(reports, 0);
    assert!(writer.is_empty());
}

#[test]
fn a_registered_flag_is_the_one_cancel_raises() {
    let mut m = SftpTransferManager::new();
    let first = m.register("t3");
    let second = m.register("t3");
    assert!(m.cancel_transfer("t3").is_ok());
    assert!(second.load(Ordering::SeqCst));
    assert!(!first.load(Ordering::SeqCst));
}
