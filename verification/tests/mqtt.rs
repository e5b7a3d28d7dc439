use sim800l_gateway::bounded::Text;
use sim800l_gateway::coin_io::{
    apply_block_command, apply_total_command, register, set_block_mask, unpriced_mask,
    BlockCommand, Gate, LineAction, LineEvent, LineWatcher, TotalBlock, TotalCommand,
};
use sim800l_gateway::coin::Credit;
use sim800l_gateway::led::{led_step, mode, set_mode, toggle, Drive, LedState, LedStep, Mode};
use sim800l_gateway::mqtt::{
    apply_led_command, client_id, dispatch, is_connected, next_level_ms, next_stage, publication,
    queue_sms, route, subscription, topic_filter, topic_name, Controls, Dispatched, LedCommand,
    Outgoing, Route, SessionStage, SmsRefusal, TopicError, Topics,
};

fn topics() -> Topics {
    Topics {
        csq: "gw/csq",
        sms: "gw/sms",
        coin: "gw/coin",
        led: "gw/led",
        coin_block: "gw/coin/block",
        coin_total: "gw/coin/total",
        sms_send: "gw/sms/send/",
        sms_send_filter: "gw/sms/send/+",
    }
}

fn controls() -> Controls {
    Controls {
        led: LedState::default(),
        gate: Gate::default(),
        total: TotalBlock::default(),
    }
}

#[test]
fn a_client_id_is_any_string_that_mqtt_can_carry() {
    let id = client_id("vending-1/+").unwrap();
    let text: &str = id.as_ref();
    assert_eq!(text, "vending-1/+");
    assert!(client_id("").is_some());
    assert!(client_id("a\0b").is_none());
    assert!(client_id(&"x".repeat(65535)).is_some());
    assert!(client_id(&"x".repeat(65536)).is_none());
}

#[test]
fn wildcards_make_a_filter_but_no_name() {
    let name = topic_name("gw/csq").unwrap();
    let text: &str = name.as_ref().as_ref();
    assert_eq!(text, "gw/csq");
    assert_eq!(topic_name("gw/sms/send/+").err(), Some(TopicError::NotATopic));
    assert_eq!(topic_name("gw/#").err(), Some(TopicError::NotATopic));
    assert_eq!(topic_name("").err(), Some(TopicError::NotATopic));
    assert_eq!(topic_name("a\0b").err(), Some(TopicError::NotCarriable));
    let long = "x".repeat(65536);
    assert_eq!(topic_name(&long).err(), Some(TopicError::NotCarriable));
    assert!(topic_name(&long[1..]).is_ok());

    let filter = topic_filter("gw/sms/send/+").unwrap();
    let text: &str = filter.as_ref().as_ref();
    assert_eq!(text, "gw/sms/send/+");
    for good in ["#", "+", "a/#", "+/b", "a/+/c", "/", "a//b", "ю/+"] {
        assert!(topic_filter(good).is_ok(), "{good}");
    }
    for bad in ["", "a#", "#/a", "a+", "+a", "a/#/b", "a/b+/c", "++"] {
        assert_eq!(topic_filter(bad).err(), Some(TopicError::NotATopic), "{bad}");
    }
    assert_eq!(topic_filter("a\0").err(), Some(TopicError::NotCarriable));
}

#[test]
fn a_session_subscribes_before_it_runs() {
    let mut stage = SessionStage::Resolving;
    let mut filters = Vec::new();
    while stage != SessionStage::Running {
        if let SessionStage::Subscribing(n) = stage {
            filters.push(subscription(&topics(), n));
            assert!(is_connected(stage));
        } else {
            assert!(!is_connected(stage));
        }
        stage = next_stage(stage, true);
    }
    assert!(is_connected(stage));
    assert_eq!(filters, vec!["gw/led", "gw/coin/block", "gw/coin/total", "gw/sms/send/+"]);
    assert_eq!(next_stage(SessionStage::Running, true), SessionStage::Running);
    for stage in [
        SessionStage::Resolving,
        SessionStage::Connecting,
        SessionStage::Greeting,
        SessionStage::Subscribing(2),
        SessionStage::Running,
    ] {
        assert_eq!(next_stage(stage, false), SessionStage::Ended);
    }
    assert!(!is_connected(SessionStage::Ended));
}

fn text(s: &str) -> Text {
    Text::holding::<384>(s).unwrap()
}

#[test]
fn level_and_sms_are_kept_by_the_broker() {
    let p = publication(&topics(), Outgoing::Csq(24));
    assert_eq!((p.topic, p.retain, p.payload.as_str()), ("gw/csq", true, "24"));
    let p = publication(&topics(), Outgoing::Csq(255));
    assert_eq!(p.payload.as_str(), "255");
    let p = publication(&topics(), Outgoing::Sms(text("привет")));
    assert_eq!((p.topic, p.retain, p.payload.as_str()), ("gw/sms", true, "привет"));
    let p = publication(&topics(), Outgoing::Coin(text("{}")));
    assert_eq!((p.topic, p.retain, p.payload.as_str()), ("gw/coin", false, "{}"));
}

#[test]
fn a_bounded_text_takes_all_or_nothing() {
    let mut t = Text::new::<8>();
    assert!(t.push_str("foo"));
    assert!(!t.push_str("tender"));
    assert_eq!(t.as_str(), "foo");
    assert!(t.push_str("bar"));
    assert!(!t.push_str("юю"));
    assert!(t.push_str("ю"));
    assert_eq!(t.as_str(), "foobarю");
    assert!(!t.push_str("x"));
    assert!(t.push_str(""));
    assert!(Text::holding::<3>("four").is_none());
    assert_eq!(Text::holding::<4>("four").unwrap().as_str(), "four");
}

#[test]
fn topics_lead_to_their_commands() {
    let t = topics();
    assert_eq!(route(&t, "gw/led"), Route::Led);
    assert_eq!(route(&t, "gw/coin/block"), Route::CoinBlock);
    assert_eq!(route(&t, "gw/coin/total"), Route::CoinTotal);
    assert_eq!(route(&t, "gw/sms/send/37120000000"), Route::SmsTo("37120000000"));
    assert_eq!(route(&t, "gw/sms/send/"), Route::SmsTo(""));
    assert_eq!(route(&t, "gw/sms/send/ю"), Route::SmsTo("ю"));
    assert_eq!(route(&t, "gw/sms/sen"), Route::Unexpected);
    assert_eq!(route(&t, "gw/LED"), Route::Unexpected);
}

#[test]
fn an_sms_is_checked_before_it_is_queued() {
    let sms = queue_sms("37120000000", b"Hello").ok().unwrap();
    assert_eq!(sms.number.as_str(), "37120000000");
    assert_eq!(sms.text.as_str(), "Hello");
    assert_eq!(queue_sms("37120000000", &[0xFF]).err(), Some(SmsRefusal::NotText));
    assert_eq!(queue_sms("1", &[0xFF]).err(), Some(SmsRefusal::NotText));
    assert_eq!(queue_sms("+37120000000", b"Hello").err(), Some(SmsRefusal::BadNumber));
    assert_eq!(queue_sms("37120000000", b"").err(), Some(SmsRefusal::NotSendable));
    assert_eq!(queue_sms("37120000000", "Замятие".as_bytes()).err(), Some(SmsRefusal::NotSendable));
    assert!(queue_sms(&"1".repeat(20), "x".repeat(160).as_bytes()).is_ok());
}

#[test]
fn led_commands() {
    let mut led = LedState::default();
    assert_eq!(mode(&led), Mode::Off);
    assert_eq!(apply_led_command(&mut led, b" on\r\n"), LedCommand::Now(Mode::On));
    assert_eq!(mode(&led), Mode::On);
    assert_eq!(apply_led_command(&mut led, b"Blink"), LedCommand::Now(Mode::Blink));
    assert_eq!(apply_led_command(&mut led, b"TOGGLE"), LedCommand::Now(Mode::Off));
    assert_eq!(apply_led_command(&mut led, b"toggle"), LedCommand::Now(Mode::On));
    assert_eq!(apply_led_command(&mut led, b"OFF"), LedCommand::Now(Mode::Off));
    assert_eq!(apply_led_command(&mut led, b"ON OFF"), LedCommand::NotUnderstood);
    assert_eq!(apply_led_command(&mut led, b"\x0bON"), LedCommand::NotUnderstood);
    assert_eq!(apply_led_command(&mut led, b""), LedCommand::NotUnderstood);
    assert_eq!(mode(&led), Mode::Off);
}

#[test]
fn toggling_puts_out_what_shines() {
    let mut led = LedState::default();
    assert_eq!(toggle(&mut led), Mode::On);
    assert_eq!(toggle(&mut led), Mode::Off);
    set_mode(&mut led, Mode::Blink);
    assert_eq!(toggle(&mut led), Mode::Off);
    assert_eq!(mode(&LedState { code: 77 }), Mode::Off);
    assert_eq!(Mode::from_code(Mode::Blink.code()), Mode::Blink);
}

#[test]
fn led_steps() {
    let mut led = LedState::default();
    let off = led_step(&led, 400);
    assert_eq!(off, LedStep { drive: Drive::Low, wait_ms: 100, stood_ms: 400 });
    set_mode(&mut led, Mode::On);
    let on = led_step(&led, off.stood_ms);
    assert_eq!(on, LedStep { drive: Drive::High, wait_ms: 100, stood_ms: 400 });

    set_mode(&mut led, Mode::Blink);
    let mut stood_ms = on.stood_ms;
    let mut flips = Vec::new();
    for n in 0..9 {
        let step = led_step(&led, stood_ms);
        assert_eq!(step.wait_ms, 100);
        if step.drive == Drive::Flip {
            flips.push(100 * n);
        } else {
            assert_eq!(step.drive, Drive::Keep);
        }
        stood_ms = step.stood_ms;
    }
    assert_eq!(flips, [0, 400, 800]);
}

#[test]
fn each_command_touches_its_own_state() {
    let t = topics();
    let mut c = controls();
    assert!(matches!(dispatch(&t, &mut c, "gw/led", b"ON"), Dispatched::Led(LedCommand::Now(Mode::On))));
    assert!(matches!(
        dispatch(&t, &mut c, "gw/coin/block", b"1,3"),
        Dispatched::Block(BlockCommand::InForce(5))
    ));
    assert!(matches!(
        dispatch(&t, &mut c, "gw/coin/total", b"block"),
        Dispatched::Total(TotalCommand::InForce(true))
    ));
    assert_eq!(mode(&c.led), Mode::On);
    assert_eq!(c.gate.mask, 5);
    assert!(c.total.blocked);
    let before = c;
    assert!(matches!(dispatch(&t, &mut c, "gw/coin/block", b"7"), Dispatched::Block(BlockCommand::NotUnderstood)));
    assert!(matches!(dispatch(&t, &mut c, "gw/sms/send/12345", b"hi"), Dispatched::Sms(Ok(_))));
    assert!(matches!(
        dispatch(&t, &mut c, "gw/sms/send/1", b"hi"),
        Dispatched::Sms(Err(SmsRefusal::BadNumber))
    ));
    assert!(matches!(dispatch(&t, &mut c, "elsewhere", b"ON"), Dispatched::Unexpected));
    assert_eq!(c, before);
}

#[test]
fn blocking_commands_have_to_be_text() {
    let mut gate = Gate::default();
    set_block_mask(&mut gate, 0b10);
    assert_eq!(apply_block_command(&mut gate, &[0xC3]), BlockCommand::NotText);
    assert_eq!(apply_block_command(&mut gate, b"first"), BlockCommand::NotUnderstood);
    assert_eq!(gate.mask, 0b10);
    assert_eq!(apply_block_command(&mut gate, b" ALL "), BlockCommand::InForce(0x3F));
    let mut total = TotalBlock::default();
    assert_eq!(apply_total_command(&mut total, &[0xC3]), TotalCommand::NotText);
    assert_eq!(apply_total_command(&mut total, b"on"), TotalCommand::NotUnderstood);
    assert_eq!(apply_total_command(&mut total, b"Block"), TotalCommand::InForce(true));
    assert!(total.blocked);
}

#[test]
fn a_coin_is_counted_and_reported() {
    let mut account = Credit::default();
    let values = [10, 20, 0, 50, 100, 200];
    let event = register(&mut account, &values, 1).unwrap();
    assert_eq!(event.as_str(), "{\"line\":2,\"value\":20,\"credit\":20}");
    let event = register(&mut account, &values, 5).unwrap();
    assert_eq!(event.as_str(), "{\"line\":6,\"value\":200,\"credit\":220}");
    assert!(register(&mut account, &values, 2).is_none());
    assert!(register(&mut account, &values, 6).is_none());
    assert_eq!(account.total, 220);
    let event = register(&mut account, &[u32::MAX; 6], 0).unwrap();
    assert_eq!(event.as_str(), "{\"line\":1,\"value\":4294967295,\"credit\":4294967295}");
}

#[test]
fn a_line_is_debounced_and_blocked() {
    let (mut watcher, action) = LineWatcher::new(2, 0);
    assert_eq!(action, LineAction::Listen);
    assert_eq!(watcher.on_event(LineEvent::Fell), LineAction::Debounce);
    assert_eq!(watcher.on_event(LineEvent::Settled { low: false }), LineAction::Listen);
    assert_eq!(watcher.on_event(LineEvent::Fell), LineAction::Debounce);
    assert_eq!(watcher.on_event(LineEvent::Settled { low: true }), LineAction::Count);
    assert_eq!(watcher.on_event(LineEvent::Fell), LineAction::Nothing);
    assert_eq!(watcher.on_event(LineEvent::Settled { low: true }), LineAction::Nothing);
    assert_eq!(watcher.on_event(LineEvent::MaskChanged(0b100)), LineAction::Nothing);
    assert_eq!(watcher.on_event(LineEvent::Released), LineAction::Listen);
    assert_eq!(watcher.on_event(LineEvent::MaskChanged(0b100)), LineAction::HoldLow);
    assert_eq!(watcher.on_event(LineEvent::Fell), LineAction::Nothing);
    assert_eq!(watcher.on_event(LineEvent::MaskChanged(0b110)), LineAction::HoldLow);
    assert_eq!(watcher.on_event(LineEvent::MaskChanged(0b010)), LineAction::Listen);
    assert_eq!(LineWatcher::new(1, 0b010).1, LineAction::HoldLow);
}

#[test]
fn lines_without_a_coin_are_blocked() {
    assert_eq!(unpriced_mask(&[10, 20, 0, 50, 100, 0]), 0b100100);
    assert_eq!(unpriced_mask(&[1; 6]), 0);
    assert_eq!(unpriced_mask(&[0; 6]), 0b111111);
}

#[test]
fn only_the_level_moves_its_own_time() {
    assert_eq!(next_level_ms(5_000, true, 7_000, 60), 67_000);
    assert_eq!(next_level_ms(5_000, false, 7_000, 60), 5_000);
}
