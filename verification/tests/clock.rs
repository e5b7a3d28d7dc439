use sim800l_gateway::clock::{
    last, parse_cclk, read_cclk, read_network_time, rssi_dbm, signal_bars, store, CclkFields,
    ClockReading, DateTime, LastTime,
};

#[test]
fn parses_cclk_response() {
    let dt = parse_cclk("+CCLK: \"26/08/16,12:34:56+12\"").unwrap();
    assert_eq!(
        dt,
        DateTime {
            year: 2026,
            month: 8,
            day: 16,
            hour: 12,
            minute: 34,
            second: 56,
        }
    );
    assert!(dt.is_plausible());
}

#[test]
fn handles_timezone_variants() {
    let dt = parse_cclk("+CCLK: \"26/08/16,12:34:56-20\"").unwrap();
    assert_eq!((dt.hour, dt.minute, dt.second), (12, 34, 56));
    let dt = parse_cclk("+CCLK: \"26/08/16,12:34:56\"").unwrap();
    assert_eq!(dt.second, 56);
    assert!(parse_cclk("+CCLK:  \"26/08/16,12:34:56+12\"").is_some());
}

#[test]
fn factory_default_is_not_plausible() {
    let dt = parse_cclk("+CCLK: \"04/01/01,00:00:00+00\"").unwrap();
    assert_eq!(dt.year, 2004);
    assert!(!dt.is_plausible());
}

#[test]
fn rejects_malformed_input() {
    for bad in [
        "+CCLK: 26/08/16,12:34:56",        // без кавычек
        "+CCLK: \"26/08/16 12:34:56\"",    // без запятой
        "+CCLK: \"26/08,12:34:56\"",       // мало полей даты
        "+CCLK: \"26/08/16,12:34\"",       // мало полей времени
        "+CCLK: \"26/08/16/01,12:34:56\"", // лишнее поле даты
        "+CCLK: \"xx/08/16,12:34:56\"",    // не число
        "",
    ] {
        assert!(parse_cclk(bad).is_none(), "разобралось: {bad}");
    }
}

#[test]
fn packing_round_trips() {
    for dt in [
        DateTime {
            year: 2026,
            month: 12,
            day: 31,
            hour: 23,
            minute: 59,
            second: 58,
        },
        DateTime {
            year: 2020,
            month: 1,
            day: 1,
            hour: 0,
            minute: 0,
            second: 1,
        },
        DateTime {
            year: 2083,
            month: 12,
            day: 31,
            hour: 23,
            minute: 59,
            second: 59,
        },
    ] {
        assert_eq!(DateTime::unpack(dt.pack()), dt, "{dt:?}");
        assert_ne!(dt.pack(), 0, "ноль зарезервирован под «времени нет»");
    }
    for year in [2004u16, 2019, 2084] {
        let dt = DateTime {
            year,
            month: 1,
            day: 1,
            hour: 0,
            minute: 0,
            second: 0,
        };
        assert_eq!(dt.pack(), 0, "год {year} должен считаться отсутствующим");
    }
}

#[test]
fn signal_scale_is_monotonic_and_bounded() {
    let mut previous = 0;
    for rssi in 0..=31u8 {
        let bars = signal_bars(rssi);
        assert!(bars <= 5);
        assert!(bars >= previous, "шкала пошла вниз на rssi={rssi}");
        previous = bars;
    }
    assert_eq!(signal_bars(31), 5);
    assert_eq!(signal_bars(99), 0, "«не измерено» — пустая шкала");
    assert_eq!(rssi_dbm(20), -73);
    assert_eq!(rssi_dbm(99), 0);
}

#[test]
fn a_stored_time_is_read_back() {
    let mut memory = LastTime::default();
    assert_eq!(last(&memory), None);
    let now = DateTime { year: 2026, month: 8, day: 16, hour: 12, minute: 34, second: 56 };
    store(&mut memory, now);
    assert_eq!(last(&memory), Some(now));
    store(&mut memory, DateTime { year: 2004, ..now });
    assert_eq!(last(&memory), None);
}

#[test]
fn fields_are_packed_next_to_each_other() {
    let t = DateTime { year: 2021, month: 2, day: 3, hour: 4, minute: 5, second: 6 };
    assert_eq!(t.pack(), (1 << 26) | (2 << 22) | (3 << 17) | (4 << 12) | (5 << 6) | 6);
    assert_eq!(DateTime::unpack(0).year, 2020);
}

#[test]
fn plausibility_looks_at_every_field() {
    let good = DateTime { year: 2020, month: 1, day: 1, hour: 0, minute: 0, second: 0 };
    assert!(good.is_plausible());
    assert!(!DateTime { year: 2019, ..good }.is_plausible());
    assert!(!DateTime { month: 0, ..good }.is_plausible());
    assert!(!DateTime { month: 13, ..good }.is_plausible());
    assert!(!DateTime { day: 0, ..good }.is_plausible());
    assert!(!DateTime { day: 32, ..good }.is_plausible());
    assert!(!DateTime { hour: 24, ..good }.is_plausible());
    assert!(!DateTime { minute: 60, ..good }.is_plausible());
    assert!(!DateTime { second: 60, ..good }.is_plausible());
}

#[test]
fn numbers_are_read_as_they_are_written() {
    assert_eq!(
        read_cclk("\"+26/8/016,1:2:3\""),
        Some(CclkFields { year: 26, month: 8, day: 16, hour: 1, minute: 2, second: 3 })
    );
    assert_eq!(read_cclk("\"65535/1/1,0:0:0\"").unwrap().year, 65535);
    assert_eq!(read_cclk("\"65536/1/1,0:0:0\""), None);
    assert_eq!(read_cclk("\"26/256/1,0:0:0\""), None);
    assert_eq!(read_cclk("\"26/1/1,0:0:\""), None);
    assert_eq!(read_cclk("\"26/1/1,0:0:0,junk\""), None);
    assert_eq!(read_cclk("\"26/1/1,0:0:0+1:2\"").unwrap().second, 0);
}

#[test]
fn only_real_time_is_remembered() {
    let mut memory = LastTime::default();
    assert_eq!(
        read_network_time(&mut memory, "+CCLK: \"04/01/01,00:00:00+00\""),
        ClockReading::NotYet
    );
    assert_eq!(last(&memory), None);
    assert_eq!(read_network_time(&mut memory, "ERROR"), ClockReading::Unreadable);
    let now = DateTime { year: 2026, month: 8, day: 16, hour: 12, minute: 34, second: 56 };
    assert_eq!(
        read_network_time(&mut memory, "+CCLK: \"26/08/16,12:34:56+12\""),
        ClockReading::Time(now)
    );
    assert_eq!(last(&memory), Some(now));
    assert_eq!(
        read_network_time(&mut memory, "+CCLK: \"04/01/01,00:00:00+00\""),
        ClockReading::NotYet
    );
    assert_eq!(last(&memory), Some(now));
}

#[test]
fn scale_changes_at_its_borders() {
    let steps = [(3, 0), (4, 1), (7, 1), (8, 2), (13, 2), (14, 3), (18, 3), (19, 4), (21, 4), (22, 5), (25, 5)];
    for (rssi, bars) in steps {
        assert_eq!(signal_bars(rssi), bars, "{rssi}");
    }
    assert_eq!(signal_bars(98), 5);
    assert_eq!(signal_bars(100), 5);
    assert_eq!(rssi_dbm(0), -113);
    assert_eq!(rssi_dbm(22), -69);
    assert_eq!(rssi_dbm(30), -53);
    assert_eq!(rssi_dbm(31), -52);
    assert_eq!(rssi_dbm(98), 83);
}
