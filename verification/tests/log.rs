//! The log ring.

use aetheris::log::{dump, error, info, init, warn, Level, RingLogger};

#[test]
fn ring_logger_keeps_last_n_and_dumps_oldest_first() {
    let mut logger = RingLogger::new(3);
    logger.log(Level::Info, "one".into());
    logger.log(Level::Warn, "two".into());
    logger.log(Level::Error, "three".into());
    logger.log(Level::Info, "four".into());
    let lines = logger.dump();
    assert_eq!(lines.len(), 3);
    assert!(lines[0].contains("two"));
    assert!(lines[0].contains("WARN"));
    assert!(lines[2].contains("four"));
}

#[test]
fn global_init_and_macros() {
    let mut log = None;
    init(&mut log, 4);
    info(&mut log, "hello");
    warn(&mut log, "world");
    let lines = dump(&log);
    assert!(lines.iter().any(|l| l.contains("hello")));
    assert!(lines.iter().any(|l| l.contains("world")));
}

#[test]
fn lines_carry_their_level() {
    let mut log = None;
    init(&mut log, 8);
    info(&mut log, "a");
    warn(&mut log, "b");
    error(&mut log, "c");
    log.as_mut().unwrap().log(Level::Debug, "d".into());
    assert_eq!(dump(&log), vec!["INFO: a", "WARN: b", "ERROR: c", "DEBUG: d"]);
}

#[test]
fn capacity_zero_keeps_one_line() {
    let mut log = None;
    init(&mut log, 0);
    assert!(dump(&log).is_empty());
    info(&mut log, "a");
    info(&mut log, "b");
    assert_eq!(dump(&log), vec!["INFO: b"]);
}

#[test]
fn first_init_wins() {
    let mut log = None;
    warn(&mut log, "lost");
    assert!(dump(&log).is_empty());
    init(&mut log, 2);
    info(&mut log, "a");
    init(&mut log, 9);
    assert_eq!(dump(&log), vec!["INFO: a"]);
    error(&mut log, "b");
    info(&mut log, "c");
    assert_eq!(dump(&log), vec!["ERROR: b", "INFO: c"]);
}
