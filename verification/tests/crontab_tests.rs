use cronaut::crontab::{
    add_crontab_entry, is_env_assignment, list_crontab, locate, parse, read_crontab_failure,
    remove_crontab_entry, render, split_entry, toggle_crontab_entry, update_crontab_entry,
    validate_cron_expression, validate_spec, CronEntrySpec, CronLine, DISABLE_PREFIX,
};
use cronaut::error::AppError;

const SAMPLE: &str = "# my jobs\nMAILTO=me@example.com\n\n*/5 * * * * /usr/bin/backup --fast\n@reboot   /usr/bin/start-agent \n# CRONAUT-DISABLED: 0 3 * * 1 cleanup.sh\nthis is not an entry\n";

fn spec(schedule: &str, command: &str) -> CronEntrySpec {
    CronEntrySpec { schedule: schedule.to_string(), command: command.to_string() }
}

fn entry_fields(l: &CronLine) -> (String, usize, String, String, bool, String) {
    match l {
        CronLine::Entry { id, line_number, schedule, command, disabled, raw } => {
            (id.clone(), *line_number, schedule.clone(), command.clone(), *disabled, raw.clone())
        }
        CronLine::Passthrough { .. } => panic!("expected an entry, got {:?}", l),
    }
}

fn passthrough_raw(l: &CronLine) -> String {
    match l {
        CronLine::Passthrough { raw, .. } => raw.clone(),
        CronLine::Entry { .. } => panic!("expected a passthrough line, got {:?}", l),
    }
}

#[test]
fn parse_classifies_each_line() {
    let lines = parse(SAMPLE);
    assert_eq!(lines.len(), 7);
    assert_eq!(passthrough_raw(&lines[0]), "# my jobs");
    assert_eq!(passthrough_raw(&lines[1]), "MAILTO=me@example.com");
    assert_eq!(passthrough_raw(&lines[2]), "");
    assert_eq!(
        entry_fields(&lines[3]),
        (
            "l4".to_string(),
            4,
            "*/5 * * * *".to_string(),
            "/usr/bin/backup --fast".to_string(),
            false,
            "*/5 * * * * /usr/bin/backup --fast".to_string()
        )
    );
    assert_eq!(
        entry_fields(&lines[4]),
        (
            "l5".to_string(),
            5,
            "@reboot".to_string(),
            "/usr/bin/start-agent".to_string(),
            false,
            "@reboot   /usr/bin/start-agent ".to_string()
        )
    );
    assert_eq!(
        entry_fields(&lines[5]),
        (
            "l6".to_string(),
            6,
            "0 3 * * 1".to_string(),
            "cleanup.sh".to_string(),
            true,
            "# CRONAUT-DISABLED: 0 3 * * 1 cleanup.sh".to_string()
        )
    );
    assert_eq!(passthrough_raw(&lines[6]), "this is not an entry");
}

#[test]
fn parse_handles_crlf_and_missing_final_newline() {
    let lines = parse("a=b\r\n* * * * * x\r\nlast");
    assert_eq!(lines.len(), 3);
    assert_eq!(passthrough_raw(&lines[0]), "a=b");
    assert_eq!(entry_fields(&lines[1]).5, "* * * * * x");
    assert_eq!(passthrough_raw(&lines[2]), "last");
    assert!(parse("").is_empty());
    assert_eq!(parse("\n").len(), 1);
}

#[test]
fn list_crontab_is_parse() {
    assert_eq!(list_crontab(SAMPLE).len(), parse(SAMPLE).len());
}

#[test]
fn split_entry_forms() {
    assert_eq!(
        split_entry("  1  2 3 4 5   echo   a  b "),
        Some(("1 2 3 4 5".to_string(), "echo a b".to_string()))
    );
    assert_eq!(split_entry("@daily\tcmd arg "), Some(("@daily".to_string(), "cmd arg".to_string())));
    assert_eq!(split_entry("@ cmd"), Some(("@".to_string(), "cmd".to_string())));
    assert_eq!(split_entry("@daily"), None);
    assert_eq!(split_entry("@daily    "), None);
    assert_eq!(split_entry("1 2 3 4 5"), None);
    assert_eq!(split_entry(""), None);
}

#[test]
fn env_assignment_forms() {
    assert!(is_env_assignment("PATH=/bin"));
    assert!(is_env_assignment("  _X1 = y"));
    assert!(is_env_assignment("A="));
    assert!(!is_env_assignment("1A=b"));
    assert!(!is_env_assignment("A B=c"));
    assert!(!is_env_assignment("=c"));
    assert!(!is_env_assignment("no assignment"));
}

#[test]
fn render_joins_raw_lines() {
    let lines = parse(SAMPLE);
    assert_eq!(render(&lines), SAMPLE);
    assert_eq!(render(&[]), "");
}

#[test]
fn law_rewrite_reads_back_example() {
    let src = "a\r\n* * * * * b\n# c";
    let once = render(&parse(src));
    assert_eq!(once, "a\n* * * * * b\n# c\n");
    let again = parse(&once);
    let first = parse(src);
    assert_eq!(format!("{:?}", again), format!("{:?}", first));
}

#[test]
fn law_render_parse_example() {
    assert_eq!(render(&parse(SAMPLE)), SAMPLE);
    assert_eq!(render(&parse("")), "");
    let src = "a\r\n* * * * * b\n# c";
    let each: String = src.lines().map(|l| format!("{}\n", l)).collect();
    assert_eq!(render(&parse(src)), each);
}

#[test]
fn law_parsed_entries_example() {
    let src = format!("{}\n\t1 2 3 4 5   run  --now  \n{}  @daily   x\n", SAMPLE, DISABLE_PREFIX);
    for (i, l) in parse(&src).iter().enumerate() {
        if let CronLine::Entry { schedule, command, disabled, raw, .. } = l {
            assert_eq!(raw, src.lines().nth(i).unwrap());
            assert_eq!(*disabled, raw.starts_with(DISABLE_PREFIX));
            let source = if *disabled { raw.strip_prefix(DISABLE_PREFIX).unwrap() } else { raw.as_str() };
            assert_eq!(split_entry(source), Some((schedule.clone(), command.clone())));
            assert!(!schedule.is_empty() && !command.is_empty());
            assert_eq!(command, command.trim());
        }
    }
}

#[test]
fn locate_finds_line_numbers() {
    let lines = parse(SAMPLE);
    assert_eq!(locate(&lines, 4).unwrap(), 3);
    match locate(&lines, 99) {
        Err(e) => assert_eq!(e.message(), "not found: line 99 not found"),
        Ok(i) => panic!("unexpected index {}", i),
    }
}

#[test]
fn validate_cron_expressions() {
    assert!(validate_cron_expression("*/5 * * * *".to_string()).is_ok());
    assert!(validate_cron_expression("  0 3 * * 1 ".to_string()).is_ok());
    match validate_cron_expression("not a schedule".to_string()) {
        Err(AppError::Parse(m)) => assert!(m.starts_with("invalid cron expression: ")),
        other => panic!("unexpected {:?}", other),
    }
}

#[test]
fn validate_spec_errors_in_order() {
    match validate_spec(&spec("  ", "")) {
        Err(AppError::Invalid(m)) => assert_eq!(m, "schedule must not be empty"),
        other => panic!("unexpected {:?}", other),
    }
    match validate_spec(&spec("* * * * *", " \t")) {
        Err(AppError::Invalid(m)) => assert_eq!(m, "command must not be empty"),
        other => panic!("unexpected {:?}", other),
    }
    assert!(matches!(validate_spec(&spec("bogus", "x")), Err(AppError::Parse(_))));
    match validate_spec(&spec("* * * * *", "a\nb")) {
        Err(AppError::Invalid(m)) => assert_eq!(m, "command must be a single line"),
        other => panic!("unexpected {:?}", other),
    }
    assert!(validate_spec(&spec("* * * * *", "echo ok")).is_ok());
}

#[test]
fn add_appends_an_entry() {
    let body = add_crontab_entry("# top\n", spec("0 1 * * *", "run.sh")).unwrap();
    assert_eq!(body, "# top\n0 1 * * * run.sh\n");
    let lines = parse(&body);
    assert_eq!(entry_fields(&lines[1]).2, "0 1 * * *");
    assert!(add_crontab_entry("", spec("", "x")).is_err());
    // The schedule is checked in the six-field form, so keywords are refused.
    assert!(matches!(add_crontab_entry("", spec("@daily", "x")), Err(AppError::Parse(_))));
}

#[test]
fn law_add_appends_one_line_example() {
    let cur = "A=1\n# keep\n";
    let body = add_crontab_entry(cur, spec("5 4 * * *", "job")).unwrap();
    let before: Vec<&str> = cur.lines().collect();
    let after: Vec<&str> = body.lines().collect();
    assert_eq!(&after[..2], &before[..]);
    assert_eq!(after[2], "5 4 * * * job");
}

#[test]
fn update_rewrites_one_entry() {
    let body = update_crontab_entry(SAMPLE, 4, spec("0 2 * * *", "/usr/bin/backup")).unwrap();
    let lines: Vec<&str> = body.lines().collect();
    assert_eq!(lines[3], "0 2 * * * /usr/bin/backup");
    assert_eq!(lines[0], "# my jobs");
    let body = update_crontab_entry(SAMPLE, 6, spec("0 4 * * *", "c.sh")).unwrap();
    assert_eq!(body.lines().nth(5).unwrap(), "# CRONAUT-DISABLED: 0 4 * * * c.sh");
    match update_crontab_entry(SAMPLE, 1, spec("0 4 * * *", "c.sh")) {
        Err(AppError::Invalid(m)) => assert_eq!(m, "line is not a managed entry"),
        other => panic!("unexpected {:?}", other),
    }
    assert!(matches!(
        update_crontab_entry(SAMPLE, 42, spec("0 4 * * *", "c.sh")),
        Err(AppError::NotFound(_))
    ));
}

#[test]
fn law_update_keeps_other_lines_example() {
    let body = update_crontab_entry(SAMPLE, 5, spec("15 * * * *", "tick")).unwrap();
    let before: Vec<&str> = SAMPLE.lines().collect();
    let after: Vec<&str> = body.lines().collect();
    assert_eq!(after.len(), before.len());
    for i in 0..before.len() {
        if i != 4 {
            assert_eq!(after[i], before[i]);
        }
    }
    assert_eq!(after[4], "15 * * * * tick");
}

#[test]
fn toggle_disables_and_enables() {
    let off = toggle_crontab_entry(SAMPLE, 4, false).unwrap();
    assert_eq!(off.lines().nth(3).unwrap(), format!("{}*/5 * * * * /usr/bin/backup --fast", DISABLE_PREFIX));
    let on = toggle_crontab_entry(SAMPLE, 6, true).unwrap();
    assert_eq!(on.lines().nth(5).unwrap(), "0 3 * * 1 cleanup.sh");
    assert!(matches!(toggle_crontab_entry(SAMPLE, 3, true), Err(AppError::Invalid(_))));
    assert!(matches!(toggle_crontab_entry(SAMPLE, 0, true), Err(AppError::NotFound(_))));
}

#[test]
fn law_toggle_keeps_other_lines_example() {
    let body = toggle_crontab_entry(SAMPLE, 5, false).unwrap();
    let before: Vec<&str> = SAMPLE.lines().collect();
    let after: Vec<&str> = body.lines().collect();
    for i in 0..before.len() {
        if i != 4 {
            assert_eq!(after[i], before[i]);
        }
    }
}

#[test]
fn law_disable_keeps_entry_example() {
    let body = toggle_crontab_entry(SAMPLE, 4, false).unwrap();
    let (_, _, s, c, d, _) = entry_fields(&parse(&body)[3]);
    assert_eq!((s.as_str(), c.as_str(), d), ("*/5 * * * *", "/usr/bin/backup --fast", true));
}

#[test]
fn law_enable_keeps_entry_example() {
    let off = toggle_crontab_entry(SAMPLE, 4, false).unwrap();
    let on = toggle_crontab_entry(&off, 4, true).unwrap();
    let (_, _, s, c, d, _) = entry_fields(&parse(&on)[3]);
    assert_eq!((s.as_str(), c.as_str(), d), ("*/5 * * * *", "/usr/bin/backup --fast", false));
}

#[test]
fn toggle_keeps_the_original_line() {
    let cur = "0 5 * * *  backup.sh  --all\n";
    let off = toggle_crontab_entry(cur, 1, false).unwrap();
    assert_eq!(off, "# CRONAUT-DISABLED: 0 5 * * *  backup.sh  --all\n");
    assert_eq!(toggle_crontab_entry(&off, 1, false).unwrap(), off);
    assert_eq!(toggle_crontab_entry(&off, 1, true).unwrap(), cur);
    assert_eq!(toggle_crontab_entry(cur, 1, true).unwrap(), cur);
    let spaced = "# CRONAUT-DISABLED:   0 3 * * 1 x\n";
    assert_eq!(toggle_crontab_entry(spaced, 1, true).unwrap(), "  0 3 * * 1 x\n");
}

#[test]
fn law_disable_then_enable_restores_example() {
    for ln in [4, 5] {
        let off = toggle_crontab_entry(SAMPLE, ln, false).unwrap();
        let on = toggle_crontab_entry(&off, ln, true).unwrap();
        assert_eq!(on, SAMPLE);
    }
}

#[test]
fn law_enable_then_disable_restores_example() {
    let on = toggle_crontab_entry(SAMPLE, 6, true).unwrap();
    let off = toggle_crontab_entry(&on, 6, false).unwrap();
    assert_eq!(off, SAMPLE);
}

#[test]
fn law_entry_normal_form_example() {
    let (s, c) = split_entry("\t1   2 3 4 5  a   b").unwrap();
    assert_eq!(split_entry(&format!("{} {}", s, c)), Some((s, c)));
    let (s, c) = split_entry("@weekly   x  y ").unwrap();
    assert_eq!(split_entry(&format!("{} {}", s, c)), Some((s, c)));
}

#[test]
fn remove_drops_one_entry() {
    let body = remove_crontab_entry(SAMPLE, 4).unwrap();
    let mut expected: Vec<&str> = SAMPLE.lines().collect();
    expected.remove(3);
    assert_eq!(body.lines().collect::<Vec<_>>(), expected);
    assert!(matches!(remove_crontab_entry(SAMPLE, 2), Err(AppError::Invalid(_))));
    assert!(matches!(remove_crontab_entry(SAMPLE, 8), Err(AppError::NotFound(_))));
}

#[test]
fn law_passthrough_lines_are_never_edited_example() {
    for ln in [1usize, 2, 3, 7] {
        assert!(matches!(toggle_crontab_entry(SAMPLE, ln, false), Err(AppError::Invalid(_))));
        assert!(matches!(remove_crontab_entry(SAMPLE, ln), Err(AppError::Invalid(_))));
        assert!(matches!(
            update_crontab_entry(SAMPLE, ln, spec("* * * * *", "x")),
            Err(AppError::Invalid(_))
        ));
    }
}

#[test]
fn read_failure_without_crontab_is_empty() {
    assert_eq!(read_crontab_failure(Some(1), "no crontab for alice\n".to_string()).unwrap(), "");
    match read_crontab_failure(Some(2), "boom".to_string()) {
        Err(e) => assert_eq!(e.message(), "command `crontab -l` failed (exit=Some(2)): boom"),
        Ok(s) => panic!("unexpected {:?}", s),
    }
}
