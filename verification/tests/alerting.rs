use solark_monitor::alerting::{
    transition, write_message, AlertDesc, AlertSettings, AlertState, Alerting, ConfigError, Notice,
};
use solark_monitor::clock::WallTime;
use solark_monitor::condition::Limit;
use solark_monitor::matrix::{Matrix, MatrixSettings};
use solark_monitor::solark::RegData;
use solark_monitor::text_map::TextMap;

fn at(secs: i64) -> WallTime {
    WallTime { secs, nanos: 0 }
}

fn account() -> Matrix {
    Matrix::new(&MatrixSettings {
        enable: true,
        user: "@bot:home".to_string(),
        passwd: "secret".to_string(),
        server: "https://home".to_string(),
        allowed_users: vec![],
        room_check_secs: 0,
    })
}

fn desc(metric: &str, check: &str, msg: &str, delaysecs: u64) -> AlertDesc {
    AlertDesc {
        metric: metric.to_string(),
        check: check.to_string(),
        limit: None,
        msg: msg.to_string(),
        delaysecs,
    }
}

fn lookup(names: &[&str]) -> TextMap<usize> {
    let mut map = TextMap::new();
    for (i, n) in names.iter().enumerate() {
        map.insert(n.to_string(), i);
    }
    map
}

fn settings(alerts: Vec<AlertDesc>) -> AlertSettings {
    AlertSettings { enable: true, alerts, alert_timeout_secs: Some(60), alert_timeout_min: None }
}

/// All messages of one pass.
fn pass(a: &mut Alerting, data: &Vec<RegData>, now: WallTime) -> Vec<String> {
    let mut texts = Vec::new();
    let mut from = 0;
    while let Some((next, text)) = a.check(data, now, from) {
        texts.push(text);
        from = next;
    }
    texts
}

#[test]
fn settings_become_alerts() {
    let mut d = desc("soc", "<", "low", 30);
    d.limit = Some(Limit::Between(205));
    let cfg = settings(vec![desc("grid", ">=50", "high", 0), d]);
    let a = Alerting::new(&cfg, account(), lookup(&["soc", "grid"])).unwrap();
    assert!(a.enable);
    assert_eq!(a.alert_timeout_secs, 60);
    assert_eq!(a.alerts.len(), 2);
    assert_eq!(a.alerts[0].midx, 1);
    assert_eq!(a.alerts[0].limit, Limit::At(500));
    assert_eq!(a.alerts[0].state, AlertState::Idle);
    assert_eq!(a.alerts[1].midx, 0);
    assert_eq!(a.alerts[1].limit, Limit::Between(205));
    assert_eq!(a.alerts[1].delay_secs, 30);
    assert_eq!(a.alerts[1].msg, "low");
    assert!(a.msgs.entries.is_empty());
    assert!(a.is_ready_for(2));
    assert!(!a.is_ready_for(1));
}

#[test]
fn bad_settings_are_found_out() {
    let fail = |cfg: &AlertSettings| cfg.find_problem(&lookup(&["soc"]));
    assert_eq!(
        fail(&settings(vec![desc("soc", "<1", "", 0), desc("hz", "~", "", 0)])),
        Some(ConfigError::UnknownMetric(1))
    );
    assert_eq!(
        fail(&settings(vec![desc("soc", "~5", "", 0), desc("hz", "<1", "", 0)])),
        Some(ConfigError::BadCheck(0))
    );
    assert_eq!(fail(&settings(vec![desc("soc", "<", "", 0)])), Some(ConfigError::BadCheck(0)));
    for check in ["", " >", "!5"] {
        let mut d = desc("soc", check, "", 0);
        d.limit = Some(Limit::At(0));
        assert_eq!(fail(&settings(vec![d])), Some(ConfigError::BadCheck(0)));
    }
    let mut cfg = settings(vec![]);
    cfg.alert_timeout_secs = None;
    assert_eq!(fail(&cfg), Some(ConfigError::NoTimeout));
    cfg.alert_timeout_min = Some(u64::MAX / 60 + 1);
    assert_eq!(fail(&cfg), Some(ConfigError::TimeoutTooLong));
    cfg.alert_timeout_min = Some(u64::MAX / 60);
    assert_eq!(fail(&cfg), None);
    let a = Alerting::new(&cfg, account(), lookup(&["soc"])).unwrap();
    assert_eq!(a.alert_timeout_secs, u64::MAX / 60 * 60);
}

#[test]
fn the_timeout_is_in_seconds_or_else_in_minutes() {
    let mut cfg = settings(vec![]);
    cfg.alert_timeout_min = Some(5);
    let a = Alerting::new(&cfg, account(), lookup(&[])).unwrap();
    assert_eq!(a.alert_timeout_secs, 60);
    cfg.alert_timeout_secs = None;
    let a = Alerting::new(&cfg, account(), lookup(&[])).unwrap();
    assert_eq!(a.alert_timeout_secs, 300);
}

#[test]
fn states_and_notices() {
    let t = at(100);
    assert_eq!(
        transition(AlertState::Idle, true, t, 0, 60),
        (AlertState::Firing(t), Some(Notice::Alert))
    );
    assert_eq!(transition(AlertState::Idle, true, t, 1, 60), (AlertState::Pending(t), None));
    assert_eq!(transition(AlertState::Idle, false, t, 0, 60), (AlertState::Idle, None));
    let pending = AlertState::Pending(t);
    assert_eq!(transition(pending, true, at(110), 10, 60), (pending, None));
    let later = WallTime { secs: 110, nanos: 1 };
    assert_eq!(
        transition(pending, true, later, 10, 60),
        (AlertState::Firing(later), Some(Notice::Alert))
    );
    assert_eq!(transition(pending, false, at(110), 10, 60), (AlertState::Idle, None));
    let firing = AlertState::Firing(t);
    assert_eq!(transition(firing, true, at(160), 10, 60), (firing, None));
    assert_eq!(
        transition(firing, true, at(161), 10, 60),
        (AlertState::Firing(at(161)), Some(Notice::Realert))
    );
    assert_eq!(
        transition(firing, false, at(101), 10, 60),
        (AlertState::Idle, Some(Notice::Cleared))
    );
}

#[test]
fn the_longest_waits_and_the_earliest_clock_do_no_harm() {
    let first = WallTime { secs: i64::MIN, nanos: 0 };
    let last = WallTime { secs: i64::MAX, nanos: 999_999_999 };
    assert!(!last.is_past(last, u64::MAX));
    assert!(last.is_within(last, u64::MAX));
    assert!(last.is_past(first, u64::MAX));
    assert!(!first.is_past(last, 0));
    assert!(!WallTime { secs: -1, nanos: 500 }.is_past(at(-1), 1));
}

#[test]
fn messages_quote_their_parts() {
    assert_eq!(
        write_message(Notice::Cleared, "\"low\"", "\"soc\"", -25),
        "Alert Cleared: \"low\", \"soc\"=-2.5"
    );
}

#[test]
fn an_alert_is_raised_repeated_and_cleared() {
    let cfg = settings(vec![desc("soc", "<20", "say \"low\"\n", 0)]);
    let mut a = Alerting::new(&cfg, account(), lookup(&["soc"])).unwrap();
    let low = vec![RegData::Percent(19)];
    let fine = vec![RegData::Percent(20)];
    assert_eq!(pass(&mut a, &fine, at(0)), Vec::<String>::new());
    assert_eq!(
        pass(&mut a, &low, at(10)),
        vec!["Alert: \"say \\\"low\\\"\\n\", \"soc\"=19.0"]
    );
    assert_eq!(pass(&mut a, &low, at(70)), Vec::<String>::new());
    assert_eq!(
        pass(&mut a, &low, at(71)),
        vec!["Realert: \"say \\\"low\\\"\\n\", \"soc\"=19.0"]
    );
    assert_eq!(
        pass(&mut a, &fine, at(72)),
        vec!["Alert Cleared: \"say \\\"low\\\"\\n\", \"soc\"=20.0"]
    );
    assert_eq!(pass(&mut a, &fine, at(73)), Vec::<String>::new());
}

#[test]
fn a_delayed_alert_waits_and_forgets() {
    let cfg = settings(vec![desc("v", ">240", "high", 30)]);
    let mut a = Alerting::new(&cfg, account(), lookup(&["v"])).unwrap();
    let high = vec![RegData::Volts(2401)];
    let fine = vec![RegData::Volts(2400)];
    assert!(pass(&mut a, &high, at(0)).is_empty());
    assert!(pass(&mut a, &high, at(30)).is_empty());
    assert!(pass(&mut a, &fine, at(31)).is_empty());
    assert!(pass(&mut a, &high, at(32)).is_empty());
    assert_eq!(pass(&mut a, &high, at(63)), vec!["Alert: \"high\", \"v\"=240.1"]);
}

#[test]
fn each_alert_goes_its_own_way_over_many_rounds() {
    let cfg = settings(vec![desc("a", ">0", "at once", 0), desc("a", ">0", "later", 10)]);
    let mut a = Alerting::new(&cfg, account(), lookup(&["a"])).unwrap();
    let mut said = Vec::new();
    for (secs, value) in [(0, 1), (5, 1), (11, 1), (62, 1), (73, 1), (80, 0), (81, 0), (90, 1)] {
        for text in pass(&mut a, &vec![RegData::Watts(value)], at(secs)) {
            said.push((secs, text));
        }
    }
    let said: Vec<(i64, &str)> = said.iter().map(|(t, s)| (*t, s.as_str())).collect();
    assert_eq!(
        said,
        vec![
            (0, "Alert: \"at once\", \"a\"=1.0"),
            (11, "Alert: \"later\", \"a\"=1.0"),
            (62, "Realert: \"at once\", \"a\"=1.0"),
            (73, "Realert: \"later\", \"a\"=1.0"),
            (80, "Alert Cleared: \"at once\", \"a\"=0.0"),
            (80, "Alert Cleared: \"later\", \"a\"=0.0"),
            (90, "Alert: \"at once\", \"a\"=1.0"),
        ]
    );
    assert_eq!(a.alerts[0].state, AlertState::Firing(at(90)));
    assert_eq!(a.alerts[1].state, AlertState::Pending(at(90)));
}

#[test]
fn a_pass_shows_the_values_to_every_alert_once() {
    let cfg = settings(vec![
        desc("a", "=1", "one", 0),
        desc("a", "=2", "two", 0),
        desc("a", "!=2", "three", 0),
        desc("b", "=1", "four", 5),
    ]);
    let mut a = Alerting::new(&cfg, account(), lookup(&["a", "b"])).unwrap();
    let data = vec![RegData::Hz(1), RegData::Bool(true)];
    assert_eq!(a.check(&data, at(9), 0).unwrap().0, 1);
    assert_eq!(a.alerts[0].state, AlertState::Firing(at(9)));
    assert_eq!(a.alerts[2].state, AlertState::Idle);
    let (next, text) = a.check(&data, at(9), 1).unwrap();
    assert_eq!((next, text.as_str()), (3, "Alert: \"three\", \"a\"=1.0"));
    assert_eq!(a.alerts[3].state, AlertState::Idle);
    assert!(a.check(&data, at(9), 3).is_none());
    assert_eq!(a.alerts[1].state, AlertState::Idle);
    assert_eq!(a.alerts[2].state, AlertState::Firing(at(9)));
    assert_eq!(a.alerts[3].state, AlertState::Pending(at(9)));
    assert!(a.check(&data, at(9), 4).is_none());
    assert!(a.check(&data, at(9), usize::MAX).is_none());
}

#[test]
fn alerts_that_are_off_say_nothing() {
    let mut cfg = settings(vec![desc("a", "=1", "one", 0)]);
    cfg.enable = false;
    let mut a = Alerting::new(&cfg, account(), lookup(&["a"])).unwrap();
    assert!(a.check(&vec![], at(0), 0).is_none());
    assert_eq!(a.alerts[0].state, AlertState::Idle);
}

#[test]
fn an_error_is_held_back_until_the_timeout() {
    let mut a = Alerting::new(&settings(vec![]), account(), lookup(&[])).unwrap();
    assert!(a.error("broken", at(100)));
    assert!(!a.error("broken", at(159)));
    assert!(a.error("other", at(159)));
    a.gc(at(159));
    assert!(!a.error("broken", at(159)));
    assert!(a.error("broken", at(160)));
    assert!(!a.error("broken", at(219)));
    assert!(a.error("broken", at(220)));
}

#[test]
fn gc_takes_the_first_expired_error() {
    let mut a = Alerting::new(&settings(vec![]), account(), lookup(&[])).unwrap();
    a.error("c", at(0));
    a.error("b", at(0));
    a.error("a", at(50));
    a.gc(at(60));
    assert_eq!(a.msgs.entries.len(), 3);
    a.gc(at(61));
    assert_eq!(a.msgs.get("b"), None);
    assert_eq!(a.msgs.get("c"), Some(at(0)));
    a.gc(at(61));
    a.gc(at(61));
    assert_eq!(a.msgs.get("c"), None);
    assert_eq!(a.msgs.get("a"), Some(at(50)));
    a.gc(at(111));
    assert!(a.msgs.entries.is_empty());
}

#[test]
fn expired_errors_do_not_stay() {
    let mut a = Alerting::new(&settings(vec![]), account(), lookup(&[])).unwrap();
    for msg in ["x", "y", "z"] {
        a.error(msg, at(0));
    }
    // One more error comes up, so four tidyings are enough for three messages.
    a.error("a", at(61));
    for _ in 0..4 {
        a.gc(at(200));
    }
    assert!(a.msgs.entries.is_empty());
}

#[test]
fn the_account_is_reached_through_the_alerts() {
    let mut a = Alerting::new(&settings(vec![]), account(), lookup(&[])).unwrap();
    assert_eq!(a.connect().unwrap().user, "@bot:home");
    assert!(a.check_rooms().is_none());
    assert_eq!(a.alert("hello").unwrap().content.body(), "hello");
    a.alerter.logged_in();
    assert!(a.connect().is_none());
    assert!(a.check_rooms().is_some());
    a.disconnect();
    assert!(a.check_rooms().is_none());
    assert!(a.connect().is_some());
}
