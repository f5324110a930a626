use influxdb2::models::{DataPoint, WriteDataPoint};
use solark_monitor::influx::{Influx, InfluxSettings, SettingsPair};
use solark_monitor::solark::RegData;

fn pair(key: &str, val: &str) -> SettingsPair {
    SettingsPair { key: key.to_string(), val: val.to_string() }
}

fn settings(enable: bool, tags: Vec<SettingsPair>) -> InfluxSettings {
    InfluxSettings {
        enable,
        token: "token".to_string(),
        bucket: "bucket".to_string(),
        org: "org".to_string(),
        url: "http://localhost:8086".to_string(),
        tags,
    }
}

fn line(point: &DataPoint) -> String {
    let mut bytes = Vec::new();
    point.write_data_point_to(&mut bytes).unwrap();
    String::from_utf8(bytes).unwrap()
}

fn names(list: &[&str]) -> Vec<String> {
    list.iter().map(|s| s.to_string()).collect()
}

#[test]
fn each_value_has_a_point() {
    let mut influx = Influx::new(&settings(true, vec![]));
    let data = vec![
        RegData::Bool(true),
        RegData::Bool(false),
        RegData::Watts(-1200),
        RegData::Percent(97),
        RegData::Hz(60),
        RegData::Volts(2415),
    ];
    let write =
        influx.write_point(&data, &names(&["on", "off", "grid", "soc", "freq", "bus"]), 17).unwrap();
    let lines: Vec<String> = write.points.iter().map(line).collect();
    assert_eq!(
        lines,
        vec![
            "on,units=Bool value=1i 17\n",
            "off,units=Bool value=0i 17\n",
            "grid,units=Watts value=-1200i 17\n",
            "soc,units=Percent value=97i 17\n",
            "freq,units=Hz value=60i 17\n",
            "bus,units=Volts value=241.5 17\n",
        ]
    );
    assert_eq!(write.bucket, "bucket");
}

#[test]
fn volts_are_stored_as_the_closest_number() {
    let mut influx = Influx::new(&settings(true, vec![]));
    let all: Vec<i16> = (i16::MIN..=i16::MAX).collect();
    let data: Vec<RegData> = all.iter().map(|v| RegData::Volts(*v)).collect();
    let names = vec!["v".to_string(); all.len()];
    let write = influx.write_point(&data, &names, 0).unwrap();
    assert_eq!(write.points.len(), 65536);
    for (v, point) in all.iter().zip(write.points.iter()) {
        assert_eq!(line(point), format!("v,units=Volts value={} 0\n", *v as f64 / 10.0));
    }
}

#[test]
fn configured_tags_are_set_last() {
    let tags = vec![pair("site", "home"), pair("units", "mine"), pair("site", "barn")];
    let mut influx = Influx::new(&settings(true, tags));
    let write = influx.write_point(&vec![RegData::Hz(60)], &names(&["freq"]), -5).unwrap();
    assert_eq!(line(&write.points[0]), "freq,site=barn,units=mine value=60i -5\n");
}

#[test]
fn a_name_without_a_value_has_no_point() {
    let mut influx = Influx::new(&settings(true, vec![]));
    let write = influx.write_point(&vec![RegData::Hz(1)], &names(&["a", "b"]), 0).unwrap();
    assert_eq!(write.points.len(), 1);
    let write =
        influx.write_point(&vec![RegData::Hz(1), RegData::Hz(2)], &names(&["a"]), 0).unwrap();
    assert_eq!(write.points.len(), 1);
    assert_eq!(line(&write.points[0]), "a,units=Hz value=1i 0\n");
}

#[test]
fn a_client_is_asked_for_once() {
    let mut influx = Influx::new(&settings(true, vec![]));
    let login = influx.connect().unwrap();
    assert_eq!(login.url, "http://localhost:8086");
    assert_eq!(login.org, "org");
    assert_eq!(login.token, "token");
    assert!(influx.connect().is_none());
    assert!(influx.write_point(&vec![], &vec![], 0).unwrap().login.is_none());
    influx.disconnect();
    assert!(influx.write_point(&vec![], &vec![], 0).unwrap().login.is_some());
    assert!(influx.connect().is_none());
}

#[test]
fn a_database_that_is_off_gets_nothing() {
    let mut influx = Influx::new(&settings(false, vec![]));
    assert!(influx.connect().is_none());
    assert!(!influx.connected);
    assert!(influx.write_point(&vec![RegData::Hz(1)], &names(&["a"]), 0).is_none());
}
