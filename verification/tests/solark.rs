use solark_monitor::solark::{
    decode_serial, ReadStep, RegData, RegDataType, RegisterRead, Solark, SolarkReg, SolarkSettings,
    BAUD_RATE, SERIAL_ADDR, SERIAL_COUNT,
};

fn reg(metric: &str, addr: u16, datatype: RegDataType) -> SolarkReg {
    SolarkReg { metric: metric.to_string(), addr, datatype }
}

fn settings(registers: Vec<SolarkReg>) -> SolarkSettings {
    SolarkSettings { poll_secs: 5, port: "/dev/ttyUSB0".to_string(), slave_id: 1, registers }
}

#[test]
fn a_word_reads_as_a_signed_number() {
    assert_eq!(Solark::make_signed(0), 0);
    assert_eq!(Solark::make_signed(0x7fff), 32767);
    assert_eq!(Solark::make_signed(0x8000), -32768);
    assert_eq!(Solark::make_signed(0xffff), -1);
}

#[test]
fn every_word_survives_the_sign() {
    for v in 0..=u16::MAX {
        assert_eq!(Solark::make_signed(v) as u16, v);
    }
}

#[test]
fn registers_read_by_their_type() {
    let word = vec![0xfff6];
    let of = |t| Solark::read_register(&reg("m", 0, t), &word);
    assert_eq!(of(RegDataType::Watts), RegData::Watts(-10));
    assert_eq!(of(RegDataType::Volts), RegData::Volts(-10));
    assert_eq!(of(RegDataType::Percent), RegData::Percent(0xfff6));
    assert_eq!(of(RegDataType::Hz), RegData::Hz(0xfff6));
    assert_eq!(of(RegDataType::Bool), RegData::Bool(true));
    assert_eq!(
        Solark::read_register(&reg("m", 0, RegDataType::Bool), &vec![0]),
        RegData::Bool(false)
    );
}

#[test]
fn a_fault_in_any_word_is_a_fault() {
    let fault = reg("fault", 103, RegDataType::Bool64Bit);
    assert_eq!(Solark::read_register(&fault, &vec![0, 0, 0, 0]), RegData::Bool(false));
    for i in 0..4 {
        let mut words = vec![0, 0, 0, 0];
        words[i] = 0x0100;
        assert_eq!(Solark::read_register(&fault, &words), RegData::Bool(true));
    }
}

#[test]
fn values_in_tenths() {
    assert_eq!(RegData::Bool(true).in_tenths(), 10);
    assert_eq!(RegData::Bool(false).in_tenths(), 0);
    assert_eq!(RegData::Watts(i16::MIN).in_tenths(), -327680);
    assert_eq!(RegData::Percent(u16::MAX).in_tenths(), 655350);
    assert_eq!(RegData::Hz(60).in_tenths(), 600);
    assert_eq!(RegData::Volts(-5).in_tenths(), -5);
}

#[test]
fn the_serial_number_holds_two_characters_a_word() {
    assert_eq!(decode_serial(&vec![]), "");
    assert_eq!(decode_serial(&vec![0x3231, 0x4241]), "21BA");
    assert_eq!(decode_serial(&vec![0xe920]), "\u{e9} ");
}

#[test]
fn connecting_asks_for_the_line_once() {
    let mut s = Solark::new(&settings(vec![]));
    let link = s.connect().unwrap();
    assert_eq!(link.port, "/dev/ttyUSB0");
    assert_eq!(link.baud_rate, 9600);
    assert_eq!(link.slave_id, 1);
    assert_eq!(link.serial_number, RegisterRead { addr: 3, count: 5 });
    assert_eq!((BAUD_RATE, SERIAL_ADDR, SERIAL_COUNT), (9600, 3, 5));
    assert!(!s.disconnect());
    assert_eq!(s.serial, None);
    assert!(!s.connected);
    s.opened(&vec![0x4142]);
    assert_eq!(s.serial.as_deref(), Some("AB"));
    assert!(s.connected);
    assert!(s.connect().is_none());
    assert!(s.disconnect());
    assert!(s.connect().is_none());
}

#[test]
fn a_round_reads_every_register_in_order() {
    let mut s = Solark::new(&settings(vec![
        reg("volts", 150, RegDataType::Volts),
        reg("fault", 103, RegDataType::Bool64Bit),
        reg("soc", 184, RegDataType::Percent),
    ]));
    let answers = vec![vec![2415], vec![0, 0, 1, 0], vec![97]];
    let mut results = Vec::new();
    let mut asked = Vec::new();
    let mut opened = 0;
    while let Some(step) = s.read_all(&results) {
        match step {
            ReadStep::Open(link) => {
                assert_eq!(link.port, "/dev/ttyUSB0");
                opened += 1;
                s.opened(&vec![0x3132]);
            }
            ReadStep::Read(read) => {
                asked.push((read.addr, read.count));
                let words = &answers[results.len()];
                s.record(&mut results, words);
            }
        }
    }
    assert_eq!(opened, 1);
    assert_eq!(asked, vec![(150, 1), (103, 4), (184, 1)]);
    assert_eq!(
        results,
        vec![RegData::Volts(2415), RegData::Bool(true), RegData::Percent(97)]
    );
}

#[test]
fn a_round_without_registers_opens_the_line() {
    let mut s = Solark::new(&settings(vec![]));
    assert!(matches!(s.read_all(&vec![]), Some(ReadStep::Open(_))));
    s.opened(&vec![]);
    assert!(s.read_all(&vec![]).is_none());
}

#[test]
fn names_and_lookup_follow_the_registers() {
    let s = Solark::new(&settings(vec![
        reg("b", 1, RegDataType::Hz),
        reg("a", 2, RegDataType::Hz),
        reg("b", 3, RegDataType::Watts),
    ]));
    assert_eq!(s.make_names_list(), vec!["b", "a", "b"]);
    let lookup = s.make_metric_lookup();
    assert_eq!(lookup.get("a"), Some(1));
    assert_eq!(lookup.get("b"), Some(2));
    assert_eq!(lookup.get("c"), None);
}

#[test]
fn the_poll_duration_is_in_seconds() {
    assert_eq!(Solark::new(&settings(vec![])).get_poll_duration(), 5);
}

#[test]
fn settings_are_copied() {
    let cfg = settings(vec![reg("x", 9, RegDataType::Hz)]);
    let s = Solark::new(&cfg);
    assert_eq!(s.cfg.poll_secs, 5);
    assert_eq!(s.cfg.registers[0].metric, "x");
    assert_eq!(s.cfg.registers[0].addr, 9);
    assert_eq!(s.cfg.registers[0].datatype, RegDataType::Hz);
}
