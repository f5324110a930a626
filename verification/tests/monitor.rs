use solark_monitor::clock::WallTime;
use solark_monitor::monitor::{
    after_read, after_round, config_path, error_report, startup_reports, RoomTimer, Source,
};

fn at(secs: i64) -> WallTime {
    WallTime { secs, nanos: 0 }
}

fn shown<T: std::fmt::Debug>(list: &Vec<T>) -> String {
    format!("{:?}", list)
}

#[test]
fn the_config_path_is_the_first_argument() {
    assert_eq!(config_path(&vec![]), "/etc/solark_monitor.toml");
    assert_eq!(config_path(&vec!["prog".to_string()]), "/etc/solark_monitor.toml");
    let args = ["prog", "my.toml", "more"].map(|s| s.to_string()).to_vec();
    assert_eq!(config_path(&args), "my.toml");
}

#[test]
fn reports_name_their_source() {
    assert_eq!(error_report(Source::Startup, "x"), "Startup Error: x");
    assert_eq!(error_report(Source::Modbus, "x"), "Modbus Error: x");
    assert_eq!(error_report(Source::Influx, "x"), "Influx Error: x");
    assert_eq!(error_report(Source::Alerting, ""), "Alerting Error: ");
}

#[test]
fn failures_at_startup_are_reported_in_order() {
    let errors = vec![Some("a".to_string()), None, Some("b".to_string())];
    assert_eq!(startup_reports(&errors), vec!["Startup Error: a", "Startup Error: b"]);
    assert!(startup_reports(&vec![None, None, None]).is_empty());
}

#[test]
fn a_failed_read_closes_the_line() {
    let (actions, goes_on) = after_read(&Some("timeout".to_string()));
    assert_eq!(shown(&actions), "[Report(\"Modbus Error: timeout\"), DisconnectSolark]");
    assert!(!goes_on);
}

#[test]
fn a_round_goes_on_after_a_read() {
    let (actions, goes_on) = after_read(&None);
    assert!(actions.is_empty());
    assert!(goes_on);
}

#[test]
fn a_round_ends_with_tidying() {
    assert_eq!(shown(&after_round(&None, &None)), "[Gc]");
    let w = Some("w".to_string());
    let a = Some("a".to_string());
    assert_eq!(
        shown(&after_round(&w, &None)),
        "[Report(\"Influx Error: w\"), DisconnectInflux, Gc]"
    );
    assert_eq!(
        shown(&after_round(&w, &a)),
        "[Report(\"Influx Error: w\"), DisconnectInflux, Report(\"Alerting Error: a\"), \
         DisconnectAlerting, Gc]"
    );
}

#[test]
fn rooms_are_looked_at_when_due() {
    let mut timer = RoomTimer::new(60, at(100));
    assert!(!timer.is_due(at(160)));
    assert!(timer.is_due(WallTime { secs: 160, nanos: 1 }));
    timer.looked(at(161));
    assert!(!timer.is_due(at(161)));
    assert!(timer.is_due(at(162)));
    let off = RoomTimer::new(0, at(100));
    assert!(!off.is_due(at(1000)));
    let far = RoomTimer::new(u64::MAX, at(i64::MAX));
    assert!(!far.is_due(at(i64::MAX)));
}
