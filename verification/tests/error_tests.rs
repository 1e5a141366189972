use cronaut::error::AppError;

#[test]
fn messages() {
    assert_eq!(AppError::invalid("x".to_string()).message(), "invalid input: x");
    assert_eq!(AppError::parse("y".to_string()).message(), "parse error: y");
    assert_eq!(AppError::not_found("z".to_string()).message(), "not found: z");
    assert_eq!(AppError::Io("denied".to_string()).message(), "io: denied");
    assert_eq!(AppError::Serde("bad".to_string()).message(), "serde: bad");
    assert_eq!(AppError::Tauri("t".to_string()).message(), "tauri: t");
    assert_eq!(AppError::Utf8("u".to_string()).message(), "utf-8: u");
    let e = AppError::command("systemctl", &vec!["--user".to_string(), "daemon-reload".to_string()], None, "e".to_string());
    assert_eq!(e.message(), "command `systemctl --user daemon-reload` failed (exit=None): e");
    let e = AppError::command("crontab", &vec!["-".to_string()], Some(-3), String::new());
    assert_eq!(e.message(), "command `crontab -` failed (exit=Some(-3)): ");
    let e = AppError::command("x", &vec![], Some(i32::MIN), String::new());
    assert_eq!(e.message(), "command `x ` failed (exit=Some(-2147483648)): ");
}
