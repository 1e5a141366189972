use cronaut::error::AppError;
use cronaut::timers::{
    create_timer, default_true, disable_timer, enable_timer, grep_value, is_active, is_enabled,
    is_managed_text, list_timer_entries, list_timers, parse_systemctl_time, read_unit_details,
    remove_timer, require_managed, run_timer_now, unit_files, update_timer, validate_name, Timer,
    TimerListFields, TimerSpec, MANAGED_MARKER,
};

fn spec(name: &str, enable: bool, wd: Option<&str>) -> TimerSpec {
    TimerSpec {
        name: name.to_string(),
        description: "Back up home".to_string(),
        schedule: "*-*-* 02:30:00".to_string(),
        command: "/usr/bin/backup --all".to_string(),
        working_directory: wd.map(|w| w.to_string()),
        enable,
    }
}

fn invalid_message(r: Result<(), AppError>) -> String {
    match r {
        Err(AppError::Invalid(m)) => m,
        other => panic!("unexpected {:?}", other),
    }
}

#[test]
fn validate_name_rules() {
    assert!(validate_name("backup-home_2.x").is_ok());
    assert_eq!(invalid_message(validate_name("")), "name must not be empty");
    assert_eq!(invalid_message(validate_name("a/b")), "name may only contain [A-Za-z0-9._-]");
    assert_eq!(invalid_message(validate_name("a b")), "name may only contain [A-Za-z0-9._-]");
    assert_eq!(invalid_message(validate_name("-x")), "name must not start with - or .");
    assert_eq!(invalid_message(validate_name(".x")), "name must not start with - or .");
}

#[test]
fn law_valid_names_are_plain_file_names_example() {
    for name in ["..", "../etc", "a/b", ".hidden", "-rf"] {
        assert!(validate_name(name).is_err(), "{} was accepted", name);
    }
}

#[test]
fn default_enable_is_true() {
    assert!(default_true());
}

#[test]
fn grep_value_reads_keys() {
    let src = "# Description=commented\n; ExecStart=also\n[Unit]\n  description = First one  \r\nDescription=second\nExecStart=/bin/x a=b\n";
    assert_eq!(grep_value(src, "Description"), Some("First one".to_string()));
    assert_eq!(grep_value(src, "execstart"), Some("/bin/x a=b".to_string()));
    assert_eq!(grep_value(src, "WorkingDirectory"), None);
    assert_eq!(grep_value("", "X"), None);
}

#[test]
fn systemctl_times() {
    assert_eq!(parse_systemctl_time("n/a"), None);
    assert_eq!(parse_systemctl_time(""), None);
    assert_eq!(parse_systemctl_time("1700000000000000"), Some(1700000000000000));
    assert_eq!(parse_systemctl_time("+5"), Some(5));
    assert_eq!(parse_systemctl_time("-5"), Some(-5));
    assert_eq!(parse_systemctl_time("7000000000000000000"), Some(7000000000000000000));
    assert_eq!(parse_systemctl_time("-7000000000000000000"), Some(-7000000000000000000));
    assert_eq!(parse_systemctl_time("8210266876799999999"), Some(8210266876799999999));
    assert_eq!(parse_systemctl_time("8210266876800000000"), None);
    assert_eq!(parse_systemctl_time("-8334601228800000000"), Some(-8334601228800000000));
    assert_eq!(parse_systemctl_time("-8334601228800000001"), None);
    assert_eq!(parse_systemctl_time("Wed 2026-06-11 09:00:00 AEST"), None);
    assert_eq!(parse_systemctl_time("9223372036854775807"), None);
    assert_eq!(parse_systemctl_time("9223372036854775808"), None);
    assert_eq!(parse_systemctl_time("-"), None);
    assert_eq!(parse_systemctl_time(" 5"), None);
}

#[test]
fn unit_files_text() {
    let f = unit_files(&spec("backup", true, Some("/home/me")));
    assert_eq!(
        f.service,
        "# Managed-By: cronaut\n[Unit]\nDescription=Back up home\n\n[Service]\nType=oneshot\nExecStart=/usr/bin/backup --all\nWorkingDirectory=/home/me\n\n[Install]\nWantedBy=default.target\n"
    );
    assert_eq!(
        f.timer,
        "# Managed-By: cronaut\n[Unit]\nDescription=Timer for backup\n\n[Timer]\nOnCalendar=*-*-* 02:30:00\nPersistent=true\nUnit=backup.service\n\n[Install]\nWantedBy=timers.target\n"
    );
    let g = unit_files(&spec("backup", true, None));
    assert!(!g.service.contains("WorkingDirectory"));
}

#[test]
fn law_units_read_back_example() {
    for wd in [Some("/srv"), None] {
        let s = spec("nightly", true, wd);
        let f = unit_files(&s);
        let d = read_unit_details(&f.timer, &f.service);
        assert_eq!(d.description, "Back up home");
        assert_eq!(d.schedule, "*-*-* 02:30:00");
        assert_eq!(d.command, "/usr/bin/backup --all");
        assert_eq!(d.working_directory, wd.map(|w| w.to_string()));
        assert!(d.managed);
    }
}

#[test]
fn read_unit_details_of_missing_files() {
    let d = read_unit_details("", "");
    assert_eq!(d.description, "");
    assert_eq!(d.schedule, "");
    assert_eq!(d.command, "");
    assert_eq!(d.working_directory, None);
    assert!(!d.managed);
    assert!(read_unit_details("", "x\n# Managed-By: cronaut\n").managed);
    assert!(is_managed_text(MANAGED_MARKER));
}

#[test]
fn require_managed_cases() {
    assert!(require_managed("/u/a.timer", Some("# Managed-By: cronaut\n")).is_ok());
    match require_managed("/u/a.timer", None) {
        Err(e) => assert_eq!(e.message(), "not found: /u/a.timer does not exist"),
        Ok(()) => panic!("accepted a missing file"),
    }
    match require_managed("/u/a.timer", Some("[Timer]\n")) {
        Err(e) => assert_eq!(
            e.message(),
            "invalid input: refusing to touch /u/a.timer: not managed by cronaut (add `# Managed-By: cronaut` to take ownership)"
        ),
        Ok(()) => panic!("accepted an unmanaged file"),
    }
}

#[test]
fn create_timer_plans() {
    let w = create_timer(&spec("backup", true, None), false).unwrap();
    assert_eq!(
        w.commands,
        vec![
            vec!["--user".to_string(), "daemon-reload".to_string()],
            vec!["--user".to_string(), "enable".to_string(), "--now".to_string(), "backup.timer".to_string()],
        ]
    );
    let w = create_timer(&spec("backup", false, None), false).unwrap();
    assert_eq!(w.commands.len(), 1);
    match create_timer(&spec("backup", true, None), true) {
        Err(e) => assert_eq!(e.message(), "invalid input: unit backup already exists; use update_timer to modify"),
        Ok(_) => panic!("overwrote an existing unit"),
    }
    let mut blank = spec("backup", true, None);
    blank.schedule = " ".to_string();
    assert!(matches!(create_timer(&blank, false), Err(AppError::Invalid(m)) if m == "schedule must not be empty"));
    let mut blank = spec("backup", true, None);
    blank.command = "".to_string();
    assert!(matches!(create_timer(&blank, false), Err(AppError::Invalid(m)) if m == "command must not be empty"));
    assert!(create_timer(&spec("", true, None), false).is_err());
}

#[test]
fn update_timer_plans() {
    let m = Some("# Managed-By: cronaut\n");
    let w = update_timer(&spec("backup", true, None), "t", m, "s", m).unwrap();
    assert_eq!(
        w.commands,
        vec![
            vec!["--user".to_string(), "daemon-reload".to_string()],
            vec!["--user".to_string(), "restart".to_string(), "backup.timer".to_string()],
        ]
    );
    assert!(update_timer(&spec("backup", true, None), "t", m, "s", Some("mine")).is_err());
    assert!(matches!(update_timer(&spec("backup", true, None), "t", None, "s", m), Err(AppError::NotFound(_))));
}

#[test]
fn law_only_managed_units_change_example() {
    let m = Some("# Managed-By: cronaut\n");
    let hand = Some("[Timer]\nOnCalendar=daily\n");
    assert!(remove_timer("x", "t", hand, "s", m).is_err());
    assert!(remove_timer("x", "t", m, "s", hand).is_err());
    assert!(remove_timer("x", "t", m, "s", None).is_err());
    assert!(update_timer(&spec("x", false, None), "t", hand, "s", hand).is_err());
    let r = remove_timer("x", "t", m, "s", m).unwrap();
    assert_eq!(r.disable, vec!["--user", "disable", "--now", "x.timer"]);
    assert_eq!(r.reload, vec!["--user", "daemon-reload"]);
}

#[test]
fn single_unit_commands() {
    assert_eq!(enable_timer("a").unwrap(), vec!["--user", "enable", "--now", "a.timer"]);
    assert_eq!(disable_timer("a").unwrap(), vec!["--user", "disable", "--now", "a.timer"]);
    assert_eq!(run_timer_now("a").unwrap(), vec!["--user", "start", "a.service"]);
    assert!(enable_timer("a b").is_err());
    assert!(disable_timer("").is_err());
    assert!(run_timer_now(".a").is_err());
}

#[test]
fn unit_states() {
    assert!(is_enabled("enabled\n"));
    assert!(is_enabled("  ENABLED "));
    assert!(!is_enabled("disabled\n"));
    assert!(!is_enabled("enabled-runtime\n"));
    assert!(is_active("active\n"));
    assert!(!is_active("inactive\n"));
    assert!(!is_active("Active\n"));
}

#[test]
fn listing_from_json() {
    let json = r#"[
        {"unit": "backup.timer", "next": "1700000000000000", "last": "n/a"},
        {"unit": "other.service", "next": "1", "last": "2"},
        {"unit": "x.timer.timer", "next": 5, "last": "3"},
        {"next": "1"}
    ]"#;
    let ts = list_timers(json);
    assert_eq!(ts.len(), 2);
    assert_eq!(ts[0].name, "backup");
    assert_eq!(ts[0].next_trigger, Some(1700000000000000));
    assert_eq!(ts[0].last_trigger, None);
    assert_eq!(ts[1].name, "x.timer");
    assert_eq!(ts[1].next_trigger, None);
    assert_eq!(ts[1].last_trigger, Some(3));
    assert!(list_timers("not json").is_empty());
    assert!(list_timers("").is_empty());
    assert!(list_timers(" \n ").is_empty());
    assert!(list_timers("{}").is_empty());
}

#[test]
fn listing_from_fields() {
    let ts = list_timer_entries(vec![
        TimerListFields { unit: Some("a.timer".to_string()), next: None, last: Some("7".to_string()) },
        TimerListFields { unit: None, next: None, last: None },
        TimerListFields { unit: Some("a.timer.timer".to_string()), next: None, last: None },
        TimerListFields { unit: Some(".timer".to_string()), next: None, last: None },
    ]);
    assert_eq!(ts.len(), 3);
    assert_eq!(ts[0].name, "a");
    assert_eq!(ts[0].last_trigger, Some(7));
    assert_eq!(ts[1].name, "a.timer");
    assert_eq!(ts[2].name, "");
}

#[test]
fn timer_from_parts() {
    let listed = list_timers(r#"[{"unit":"b.timer","next":"10","last":"20"}]"#).into_iter().next().unwrap();
    let f = unit_files(&spec("b", true, None));
    let t = Timer::from_parts(listed, read_unit_details(&f.timer, &f.service), true, false);
    assert_eq!(t.name, "b");
    assert_eq!(t.next_trigger, Some(10));
    assert_eq!(t.last_trigger, Some(20));
    assert_eq!(t.schedule, "*-*-* 02:30:00");
    assert!(t.enabled && !t.active && t.managed);
}
