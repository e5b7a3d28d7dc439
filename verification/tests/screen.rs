use sim800l_gateway::battery::{
    constant_pwm, next_measure_stage, reading, MeasureStage, Reading, Source, SAMPLES,
};
use sim800l_gateway::clock::{DateTime, LastTime};
use sim800l_gateway::demo::{preview, request};
use sim800l_gateway::display::{candidate_address, draw_signal, render, Bar, Status};
use sim800l_gateway::fmt::Try;
use sim800l_gateway::fuel::{percent, permille, Gauge, Notice};
use sim800l_gateway::health::Drops;
use sim800l_gateway::usb_logger::{style, Level};

fn status() -> Status {
    let now = DateTime { year: 2026, month: 8, day: 6, hour: 9, minute: 4, second: 56 };
    Status {
        time: LastTime { packed: now.pack() },
        charge: Some(85),
        rssi: 20,
        credit: 150,
        blocked: false,
        connected: true,
        drops: Drops { link: 2, mqtt: 0 },
    }
}

#[test]
fn the_whole_screen() {
    let screen = render(&status());
    assert_eq!(screen.time.as_str(), "09:04");
    assert_eq!(screen.date.as_str(), "2026-08-06");
    assert_eq!(screen.charge.as_str(), "85%");
    assert_eq!(screen.credit.as_str(), "Кредит 1.50");
    assert_eq!(screen.status.as_str(), "-73dBm MQTT + 0/2");
    assert_eq!(screen.bars.iter().filter(|b| b.filled).count(), 4);
}

#[test]
fn the_screen_without_anything() {
    let screen = render(&Status {
        time: LastTime::default(),
        charge: None,
        rssi: 99,
        credit: 0,
        blocked: true,
        connected: false,
        drops: Drops { link: 100, mqtt: 99 },
    });
    assert_eq!(screen.time.as_str(), "--:--");
    assert_eq!(screen.date.as_str(), "");
    assert_eq!(screen.charge.as_str(), "--%");
    assert_eq!(screen.credit.as_str(), "Кредит 0.00 ЗАКРЫТО");
    assert_eq!(screen.status.as_str(), "--dBm MQTT - 99/>99");
    assert!(screen.bars.iter().all(|b| !b.filled));
}

#[test]
fn extreme_figures_fit() {
    let screen = render(&Status {
        credit: u32::MAX,
        rssi: 0,
        charge: Some(255),
        drops: Drops { link: u32::MAX, mqtt: u32::MAX },
        ..status()
    });
    assert_eq!(screen.credit.as_str(), "Кредит 42949672.95");
    let closed = render(&Status { credit: u32::MAX, blocked: true, ..status() });
    assert_eq!(closed.credit.as_str(), "Кредит 42949672.95 ЗАКРЫТО");
    assert_eq!(screen.charge.as_str(), "255%");
    assert_eq!(screen.status.as_str(), "-113dBm MQTT + >99/>99");
    assert_eq!(render(&Status { rssi: 98, ..status() }).status.as_str(), "83dBm MQTT + 0/2");
}

#[test]
fn bars_of_the_scale() {
    let bars = draw_signal(2);
    assert_eq!(bars[0], Bar { x: 93, y: 16, width: 5, height: 4, filled: true });
    assert_eq!(bars[1], Bar { x: 100, y: 13, width: 5, height: 7, filled: true });
    assert_eq!(bars[4], Bar { x: 121, y: 4, width: 5, height: 16, filled: false });
}

#[test]
fn two_addresses_are_tried() {
    assert_eq!(candidate_address(0), Some(0x3C));
    assert_eq!(candidate_address(1), Some(0x3D));
    assert_eq!(candidate_address(2), None);
}

#[test]
fn power_on_battery_and_on_usb() {
    let on_battery = reading(&[1500; 16], false);
    assert_eq!(
        on_battery,
        Reading { vsys_mv: 3626, source: Source::Battery, vbat_mv: Some(3876), percent: Some(61) }
    );
    let on_usb = reading(&[1950; 16], true);
    assert_eq!(
        on_usb,
        Reading { vsys_mv: 4714, source: Source::Usb, vbat_mv: None, percent: None }
    );
    let mut samples = [1500u16; 16];
    samples[0] = 1515;
    assert_eq!(reading(&samples, false).vsys_mv, 3626);
    samples[1] = 1501;
    assert_eq!(reading(&samples, false).vsys_mv, 3628);
    assert_eq!(reading(&[4095; 16], false).vsys_mv, 9900);
}

#[test]
fn the_gauge_is_announced_and_missed() {
    let mut gauge = Gauge::default();
    assert_eq!((permille(&gauge), percent(&gauge)), (None, None));
    assert_eq!(gauge.on_reading(None), Notice::Nothing);
    assert_eq!(gauge.on_reading(Some(854)), Notice::Found);
    assert_eq!((permille(&gauge), percent(&gauge)), (Some(854), Some(85)));
    assert_eq!(gauge.on_reading(Some(855)), Notice::Nothing);
    assert_eq!(percent(&gauge), Some(86));
    assert_eq!(gauge.on_reading(Some(0)), Notice::Nothing);
    assert_eq!((permille(&gauge), percent(&gauge)), (Some(0), Some(0)));
    assert_eq!(gauge.on_reading(Some(1000)), Notice::Nothing);
    assert_eq!(percent(&gauge), Some(100));
    assert_eq!(gauge.on_reading(None), Notice::Lost);
    assert_eq!(permille(&gauge), None);
}

#[test]
fn a_request_for_a_host() {
    assert_eq!(
        request("example.com").as_str(),
        "GET / HTTP/1.1\r\nHost: example.com\r\nConnection: close\r\n\r\n"
    );
    let host = "h".repeat(84);
    let cut = format!("GET / HTTP/1.1\r\nHost: {host}");
    assert_eq!(request(&host).as_str(), cut);
    let host = "h".repeat(200);
    assert_eq!(request(&host).as_str(), "GET / HTTP/1.1\r\nHost: ");
    let host = "h".repeat(83);
    assert_eq!(request(&host).as_str().len(), 128);
}

#[test]
fn an_answer_is_shown_in_part() {
    assert_eq!(preview(b"HTTP/1.1 200 OK"), "HTTP/1.1 200 OK");
    assert_eq!(preview(&[b'x'; 200]).len(), 96);
    assert_eq!(preview(&[0xFF]), "<не utf8>");
    let split = "x".repeat(95) + "ю";
    assert_eq!(preview(split.as_bytes()), "<не utf8>");
}

#[test]
fn lines_of_the_log() {
    assert_eq!(style(Level::Info, 4312, "text"), "[INFO ] 4.312 text\r\n");
    assert_eq!(style(Level::Warn, 7, ""), "[WARN ] 0.007 \r\n");
    assert_eq!(style(Level::Error, 60_050, "x"), "[ERROR] 60.050 x\r\n");
    assert_eq!(style(Level::Debug, 0, "x"), "[DEBUG] 0.000 x\r\n");
    assert_eq!(style(Level::Trace, u64::MAX, "x"), "[TRACE] 18446744073709551.615 x\r\n");
}

#[test]
fn options_and_results_are_alike() {
    assert_eq!(Some(3).into_result(), Ok(3));
    assert_eq!(None::<u8>.into_result(), Err(()));
    assert_eq!(Err::<u8, &str>("no").into_result(), Err("no"));
}

#[test]
fn the_supply_is_back_to_normal_after_a_measurement() {
    assert!(constant_pwm(MeasureStage::Settling));
    let mut stage = next_measure_stage(MeasureStage::Settling, true);
    for taken in 0..SAMPLES {
        assert_eq!(stage, MeasureStage::Sampling(taken));
        assert!(constant_pwm(stage));
        stage = next_measure_stage(stage, true);
    }
    assert_eq!(stage, MeasureStage::Measured);
    assert!(!constant_pwm(stage));

    let stage = next_measure_stage(MeasureStage::Sampling(3), false);
    assert_eq!(stage, MeasureStage::Failed);
    assert!(!constant_pwm(stage));
    assert_eq!(next_measure_stage(stage, true), MeasureStage::Failed);
}
