use cronaut::error::AppError;
use cronaut::logs::{
    build_args, end_event, fetch_logs, line_event, CommandOutput, FetchSpec, LogSource, TailSpec,
    TailTable,
};

#[test]
fn journal_arguments() {
    let a = build_args(&LogSource::Unit { unit: "backup.service".to_string() }, 50, false);
    assert_eq!(a, vec!["--user", "--no-pager", "--output=short-iso", "--lines=50", "-u", "backup.service"]);
    let a = build_args(&LogSource::UserCron, 0, true);
    assert_eq!(a, vec!["--user", "--no-pager", "--output=short-iso", "--lines=0", "--follow", "--user-unit=cron*", "-t", "CRON"]);
    let spec = FetchSpec { source: LogSource::UserCron, lines: 4294967295 };
    assert_eq!(build_args(&spec.source, spec.lines, false)[3], "--lines=4294967295");
    let tail = TailSpec { id: "t1".to_string(), source: LogSource::UserCron, lines: 10 };
    assert_eq!(build_args(&tail.source, tail.lines, true).len(), 8);
}

#[test]
fn snapshot_lines() {
    let args = build_args(&LogSource::UserCron, 2, false);
    let out = CommandOutput { success: true, code: Some(0), stdout: "a\r\nb\n".to_string(), stderr: String::new() };
    assert_eq!(fetch_logs(&args, out).unwrap(), vec!["a", "b"]);
    let out = CommandOutput { success: false, code: Some(1), stdout: String::new(), stderr: "no journal".to_string() };
    match fetch_logs(&args, out) {
        Err(e @ AppError::Command { .. }) => assert_eq!(
            e.message(),
            "command `journalctl --user --no-pager --output=short-iso --lines=2 --user-unit=cron* -t CRON` failed (exit=Some(1)): no journal"
        ),
        other => panic!("unexpected {:?}", other),
    }
}

#[test]
fn event_names() {
    assert_eq!(line_event("abc"), "log:line:abc");
    assert_eq!(end_event("abc"), "log:end:abc");
}

#[test]
fn law_take_after_push_example() {
    let mut t: TailTable<u32> = TailTable::new();
    t.push("a".to_string(), 1);
    t.push("b".to_string(), 2);
    t.push("a".to_string(), 3);
    assert_eq!(t.take(&"c".to_string()), None);
    assert_eq!(t.take(&"a".to_string()), Some(1));
    assert_eq!(t.take(&"a".to_string()), Some(3));
    assert_eq!(t.take(&"a".to_string()), None);
    assert_eq!(t.take(&"b".to_string()), Some(2));
}
