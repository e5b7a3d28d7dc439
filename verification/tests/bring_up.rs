use atat::Error as AtError;
use sim800l_gateway::config;
use sim800l_gateway::link::{
    apply_ipv4, forward_sms, loses_link, needs_power_on, next_csq_ms, next_mux_stage, on_at_event,
    on_signal_level, report_bring_up_error, revive_modem_if_stuck, AtAction, AtEvent, LinkEvent, LinkStep,
    MuxEvent, MuxStage, Report, Streaks, WARM_BOOT_MAGIC,
};
use sim800l_gateway::modem::{AtCommand, NewMessageIndex, Urc};
use sim800l_gateway::sim800l::{
    baud_rate, cmux_mode, dial, dial_answer, functionality, gprs_attach, is_reset_urc,
    network_time, pdp_context, sms_indication, sms_text_mode, stat_code, stat_name,
    verbose_errors, Action, BringUp, BringUpError, Command, DialAnswer, Outcome, Plan, Reply,
};

fn plan(attempts: u32, scan: bool, dial: bool) -> Plan {
    Plan { registration_attempts: attempts, scan_on_failure: scan, dial }
}

/// Answers every command well.
fn good_reply(command: Command) -> Outcome {
    Outcome::Replied(match command {
        Command::PinStatus => Reply::Pin("READY".to_string()),
        Command::NetworkRegistration => Reply::Registration(1),
        Command::GprsRegistration => Reply::Registration(5),
        Command::AttachState => Reply::Attachment(1),
        _ => Reply::Done,
    })
}

/// Runs the sequence, answering by `reply`; gives the commands and the end.
fn run(
    plan: Plan,
    saved: bool,
    reply: impl Fn(Command) -> Outcome,
) -> (Vec<Command>, Result<(), BringUpError>, bool) {
    let (mut machine, mut action) = BringUp::new(plan, saved);
    let mut sent = Vec::new();
    for _ in 0..10_000 {
        let outcome = match action {
            Action::Send(command) | Action::SendRetry(command) => {
                sent.push(command);
                reply(command)
            }
            Action::Wait(_) | Action::DropPending => Outcome::Over,
            Action::Done => {
                assert!(matches!(machine.on_outcome(Outcome::Over), Action::Done));
                return (sent, Ok(()), machine.settings_saved());
            }
            Action::Fail(e) => {
                // A sequence that has failed never reports success.
                assert!(matches!(machine.on_outcome(Outcome::Over), Action::Stopped));
                return (sent, Err(e), machine.settings_saved());
            }
            Action::Stopped => panic!("stopped without a failure"),
        };
        action = machine.on_outcome(outcome);
    }
    panic!("no end")
}

#[test]
fn a_healthy_module_is_dialled() {
    let (sent, result, saved) = run(plan(60, true, true), false, good_reply);
    assert!(result.is_ok());
    assert!(saved);
    assert_eq!(
        sent,
        vec![
            Command::At,
            Command::DisableEcho,
            Command::VerboseErrors,
            Command::BaudRate,
            Command::SaveSettings,
            Command::Functionality,
            Command::PinStatus,
            Command::Imsi,
            Command::Iccid,
            Command::SignalQuality,
            Command::NetworkRegistration,
            Command::GprsRegistration,
            Command::PdpContext,
            Command::AttachState,
            Command::ShutIpStack,
            Command::Dial,
        ]
    );
}

#[test]
fn settings_are_kept_once() {
    let (sent, _, saved) = run(plan(60, true, true), true, good_reply);
    assert!(saved);
    assert!(!sent.contains(&Command::SaveSettings));
    let (_, result, saved) = run(plan(60, true, true), false, |c| match c {
        Command::SaveSettings => Outcome::Failed(AtError::Timeout),
        c => good_reply(c),
    });
    assert!(result.is_ok());
    assert!(!saved);
}

#[test]
fn a_module_made_ready_is_not_dialled() {
    let (sent, result, _) = run(plan(60, true, false), true, good_reply);
    assert!(result.is_ok());
    assert_eq!(sent.last(), Some(&Command::ShutIpStack));
}

#[test]
fn silence_ends_after_twenty_tries() {
    let (sent, result, _) = run(plan(60, true, true), false, |_| Outcome::Failed(AtError::Timeout));
    assert_eq!(sent, vec![Command::At; 20]);
    assert!(matches!(result, Err(BringUpError::NoResponse)));
}

#[test]
fn each_failure_has_its_name() {
    let failing = |which: Command| {
        run(plan(2, false, true), true, move |c| {
            if c == which {
                Outcome::Failed(AtError::Parse)
            } else if which == Command::Attach && c == Command::AttachState {
                Outcome::Replied(Reply::Attachment(0))
            } else {
                good_reply(c)
            }
        })
        .1
    };
    assert!(matches!(failing(Command::DisableEcho), Err(BringUpError::At(AtError::Parse))));
    assert!(matches!(failing(Command::PdpContext), Err(BringUpError::At(AtError::Parse))));
    assert!(matches!(failing(Command::PinStatus), Err(BringUpError::SimNotReady)));
    assert!(matches!(failing(Command::NetworkRegistration), Err(BringUpError::NotRegistered)));
    assert!(matches!(failing(Command::GprsRegistration), Err(BringUpError::NotRegistered)));
    assert!(matches!(failing(Command::Attach), Err(BringUpError::NotAttached)));
    assert!(matches!(failing(Command::Dial), Err(BringUpError::DialFailed)));
    for harmless in [
        Command::VerboseErrors,
        Command::BaudRate,
        Command::Functionality,
        Command::Imsi,
        Command::Iccid,
        Command::SignalQuality,
        Command::AttachState,
        Command::ShutIpStack,
    ] {
        assert!(failing(harmless).is_ok(), "{harmless:?}");
    }
}

#[test]
fn a_locked_sim_is_not_ready() {
    let (_, result, _) = run(plan(60, true, true), true, |c| match c {
        Command::PinStatus => Outcome::Replied(Reply::Pin("SIM PIN".to_string())),
        c => good_reply(c),
    });
    assert!(matches!(result, Err(BringUpError::SimNotReady)));
}

#[test]
fn registration_is_looked_for_and_scanned() {
    let (sent, result, _) = run(plan(7, true, true), true, |c| match c {
        Command::GprsRegistration => Outcome::Replied(Reply::Registration(2)),
        c => good_reply(c),
    });
    assert!(matches!(result, Err(BringUpError::NotRegistered)));
    assert_eq!(sent.iter().filter(|c| **c == Command::SignalQuality).count(), 7);
    assert_eq!(sent.iter().filter(|c| **c == Command::Operator).count(), 2);
    assert_eq!(sent.last(), Some(&Command::ScanOperators));
    assert_eq!(config::REGISTRATION_ATTEMPTS, 60);
    assert!(config::SCAN_OPERATORS_ON_FAILURE);
}

#[test]
fn attaching_is_tried_three_times() {
    let (sent, result, _) = run(plan(1, true, true), true, |c| match c {
        Command::AttachState => Outcome::Replied(Reply::Attachment(0)),
        Command::Attach => Outcome::Failed(AtError::Timeout),
        c => good_reply(c),
    });
    assert!(matches!(result, Err(BringUpError::NotAttached)));
    assert_eq!(sent.iter().filter(|c| **c == Command::Attach).count(), 3);
}

#[test]
fn a_restart_ends_the_wait_for_registration() {
    let (mut machine, mut action) = BringUp::new(plan(60, true, true), true);
    assert!(machine.on_urc(&Urc::Ready, true).is_none());
    loop {
        let outcome = match action {
            Action::Send(Command::NetworkRegistration) => break,
            Action::Send(command) | Action::SendRetry(command) => good_reply(command),
            _ => Outcome::Over,
        };
        action = machine.on_outcome(outcome);
    }
    assert!(machine.on_urc(&Urc::PdpDeactivated, true).is_none());
    assert!(machine.on_urc(&Urc::CallReady, false).is_none());
    assert!(matches!(
        machine.on_urc(&Urc::CallReady, true),
        Some(Action::Fail(BringUpError::ModemReset))
    ));
    assert!(matches!(machine.on_outcome(good_reply(Command::Dial)), Action::Stopped));
    assert!(machine.on_urc(&Urc::Ready, true).is_none());
}

fn new_message(index: u32) -> Urc {
    Urc::NewMessage(NewMessageIndex {
        storage: atat::heapless::String::try_from("SM").unwrap(),
        index,
    })
}

#[test]
fn signs_of_a_restart() {
    for ready in [false, true] {
        assert!(is_reset_urc(&Urc::Ready, ready));
        assert!(is_reset_urc(&Urc::PowerDown, ready));
        assert_eq!(is_reset_urc(&Urc::CallReady, ready), ready);
        assert_eq!(is_reset_urc(&Urc::SmsReady, ready), ready);
        assert!(!is_reset_urc(&Urc::PdpDeactivated, ready));
        assert!(!is_reset_urc(&new_message(1), ready));
    }
}

#[test]
fn registration_in_words() {
    assert_eq!(stat_name(None), "нет ответа");
    assert_eq!(stat_name(Some(0)), "не ищет");
    assert_eq!(stat_name(Some(1)), "зарегистрирован (дома)");
    assert_eq!(stat_name(Some(2)), "ищет сеть");
    assert_eq!(stat_name(Some(3)), "ОТКАЗАНО");
    assert_eq!(stat_name(Some(4)), "неизвестно");
    assert_eq!(stat_name(Some(5)), "зарегистрирован (роуминг)");
    assert_eq!(stat_name(Some(6)), "нерасшифрованный код");
    assert_eq!(stat_code(None), -1);
    assert_eq!(stat_code(Some(255)), 255);
}

#[test]
fn commands_carry_their_settings() {
    assert_eq!(verbose_errors().text(), "AT+CMEE=2\r");
    assert_eq!(baud_rate().text(), "AT+IPR=115200\r");
    assert_eq!(functionality().text(), "AT+CFUN=1\r");
    assert_eq!(pdp_context(config::APN).text(), "AT+CGDCONT=1,\"IP\",\"internet\"\r");
    assert_eq!(gprs_attach().text(), "AT+CGATT=1\r");
    assert_eq!(dial().text(), "ATD*99***1#\r");
    assert_eq!(sms_text_mode().text(), "AT+CMGF=1\r");
    assert_eq!(sms_indication().text(), "AT+CNMI=2,1,0,0,0\r");
    assert_eq!(network_time().text(), "AT+CLTS=1\r");
    assert_eq!((config::PPP_USERNAME, config::PPP_PASSWORD), ("", ""));
}

#[test]
fn dialling_is_answered() {
    assert_eq!(dial_answer(b"CONNECT"), DialAnswer::Connected);
    assert_eq!(dial_answer(b"CONNECT 115200"), DialAnswer::Connected);
    assert_eq!(dial_answer(b"ERROR"), DialAnswer::Refused);
    assert_eq!(dial_answer(b"NO CARRIER"), DialAnswer::Refused);
    assert_eq!(dial_answer(b"BUSY"), DialAnswer::Refused);
    assert_eq!(dial_answer(b""), DialAnswer::Other);
    assert_eq!(dial_answer(b"CONNEC"), DialAnswer::Other);
    assert_eq!(dial_answer(b"ATD*99***1#"), DialAnswer::Other);
}

#[test]
fn only_asking_moves_the_time_to_ask() {
    assert_eq!(next_csq_ms(5_000, &AtAction::AskSignalAndTime, 7_000), 37_000);
    assert_eq!(next_csq_ms(5_000, &AtAction::SendSms, 7_000), 5_000);
    assert_eq!(next_csq_ms(5_000, &AtAction::ForwardSms(1), 7_000), 5_000);
}

#[test]
fn the_multiplexer_is_asked_for() {
    assert_eq!(cmux_mode(127).text(), "AT+CMUX=0,0,5,127\r");
}

#[test]
fn errors_of_the_client_are_kept() {
    assert!(matches!(
        BringUpError::from(AtError::Timeout),
        BringUpError::At(AtError::Timeout)
    ));
}

#[test]
fn restarts_in_a_row_point_to_the_supply() {
    let mut resets = 0;
    let reset = BringUpError::ModemReset;
    assert_eq!(report_bring_up_error(&mut resets, &reset), Report::Restarted { streak: 1, hint: false });
    assert_eq!(report_bring_up_error(&mut resets, &reset), Report::Restarted { streak: 2, hint: false });
    assert_eq!(report_bring_up_error(&mut resets, &reset), Report::Restarted { streak: 3, hint: true });
    assert_eq!(report_bring_up_error(&mut resets, &BringUpError::DialFailed), Report::Failed);
    assert_eq!(resets, 0);
}

#[test]
fn only_silence_presses_the_power_key() {
    let mut silent = 0;
    assert!(!revive_modem_if_stuck(&mut silent, &BringUpError::NoResponse));
    assert!(!revive_modem_if_stuck(&mut silent, &BringUpError::NoResponse));
    assert!(revive_modem_if_stuck(&mut silent, &BringUpError::NoResponse));
    assert_eq!(silent, 0);
    assert!(!revive_modem_if_stuck(&mut silent, &BringUpError::NoResponse));
    assert!(!revive_modem_if_stuck(&mut silent, &BringUpError::ModemReset));
    assert_eq!(silent, 0);
    for _ in 0..10 {
        assert!(!revive_modem_if_stuck(&mut silent, &BringUpError::ModemReset));
    }
}

#[test]
fn the_link_goes_round() {
    let mut streaks = Streaks::default();
    for expected in [false, false, true] {
        let (step, report) = streaks.on_event(&LinkEvent::BroughtUp(Err(BringUpError::NoResponse)));
        assert_eq!(step, LinkStep::Recover { press_power_key: expected });
        assert_eq!(report, Some(Report::Failed));
        assert_eq!(streaks.on_event(&LinkEvent::Recovered), (LinkStep::BringUp, None));
    }
    let (_, report) = streaks.on_event(&LinkEvent::BroughtUp(Err(BringUpError::ModemReset)));
    assert_eq!(report, Some(Report::Restarted { streak: 1, hint: false }));
    assert_eq!(streaks.on_event(&LinkEvent::BroughtUp(Ok(()))), (LinkStep::Run, None));
    assert_eq!(streaks, Streaks { resets: 0, silent: 0 });
    assert_eq!(
        streaks.on_event(&LinkEvent::SessionOver),
        (LinkStep::Recover { press_power_key: false }, None)
    );
}

#[test]
fn a_warm_start_leaves_the_power_key_alone() {
    assert!(needs_power_on(0));
    assert!(!needs_power_on(WARM_BOOT_MAGIC));
    assert_eq!(WARM_BOOT_MAGIC, 0x5350_5057);
}

#[test]
fn the_at_channel_serves_three_sources() {
    assert_eq!(on_at_event(&AtEvent::CsqDue), AtAction::AskSignalAndTime);
    assert_eq!(on_at_event(&AtEvent::SmsWaiting), AtAction::SendSms);
    assert_eq!(on_at_event(&AtEvent::Message(new_message(7))), AtAction::ForwardSms(7));
    assert_eq!(on_at_event(&AtEvent::Message(Urc::Ready)), AtAction::Nothing);
}

#[test]
fn an_sms_is_deleted_only_after_it_was_read() {
    let plan = forward_sms(None);
    assert!(!plan.delete && plan.publish.is_none());
    let plan = forward_sms(Some("Hello"));
    assert!(plan.delete);
    assert_eq!(plan.publish.unwrap().as_str(), "Hello");
    let plan = forward_sms(Some(&"x".repeat(385)));
    assert!(plan.delete && plan.publish.is_none());
    assert!(forward_sms(Some(&"ю".repeat(192))).publish.is_some());
}

#[test]
fn addresses_of_the_peer_are_taken_over() {
    assert!(apply_ipv4(None, &[Some([8, 8, 8, 8]), None]).is_none());
    let plan = apply_ipv4(Some([10, 0, 0, 2]), &[None, Some([8, 8, 4, 4])]).unwrap();
    assert_eq!(plan.address, [10, 0, 0, 2]);
    assert_eq!(plan.prefix, 0);
    assert_eq!(plan.dns.as_slice(), [[8, 8, 4, 4]]);
    let plan = apply_ipv4(Some([1, 2, 3, 4]), &[Some([1, 1, 1, 1]), Some([2, 2, 2, 2])]).unwrap();
    assert_eq!(plan.dns.as_slice(), [[1, 1, 1, 1], [2, 2, 2, 2]]);
}

#[test]
fn the_power_key_is_pressed_on_every_third_silence() {
    let mut streaks = Streaks::default();
    let mut pressed = Vec::new();
    for n in 1..=7 {
        let event = LinkEvent::BroughtUp(Err(BringUpError::NoResponse));
        if streaks.on_event(&event).0 == (LinkStep::Recover { press_power_key: true }) {
            pressed.push(n);
        }
    }
    assert_eq!(pressed, [3, 6]);
}

#[test]
fn a_session_through_the_multiplexer_goes_in_order() {
    let stage = next_mux_stage(MuxStage::Raising, &MuxEvent::Raised(true), 0);
    assert_eq!(stage, MuxStage::Dialling);
    let stage = next_mux_stage(stage, &MuxEvent::Dialled(true), 0);
    assert_eq!(stage, MuxStage::ConfiguringSms);
    let stage = next_mux_stage(stage, &MuxEvent::SmsConfigured, 1_000);
    assert_eq!(stage, MuxStage::Waiting { csq_due_ms: 31_000 });

    // An SMS does not put off the question for the signal level.
    let stage = next_mux_stage(stage, &MuxEvent::At(AtEvent::SmsWaiting), 20_000);
    assert_eq!(stage, MuxStage::Serving { csq_due_ms: 31_000, action: AtAction::SendSms });
    let stage = next_mux_stage(stage, &MuxEvent::Served, 29_000);
    assert_eq!(stage, MuxStage::Waiting { csq_due_ms: 31_000 });

    // Nor does a message that nobody asked for.
    let ring = next_mux_stage(stage, &MuxEvent::At(AtEvent::Message(Urc::CallReady)), 30_000);
    assert_eq!(ring, stage);

    let stage = next_mux_stage(stage, &MuxEvent::At(AtEvent::CsqDue), 31_000);
    assert_eq!(
        stage,
        MuxStage::Serving { csq_due_ms: 31_000, action: AtAction::AskSignalAndTime }
    );
    let stage = next_mux_stage(stage, &MuxEvent::Served, 33_000);
    assert_eq!(stage, MuxStage::Waiting { csq_due_ms: 63_000 });
}

#[test]
fn a_session_ends_without_channels_or_connection() {
    let stage = next_mux_stage(MuxStage::Raising, &MuxEvent::Raised(false), 0);
    assert_eq!(stage, MuxStage::Over);
    let stage = next_mux_stage(MuxStage::Dialling, &MuxEvent::Dialled(false), 0);
    assert_eq!(stage, MuxStage::Over);
    assert_eq!(next_mux_stage(stage, &MuxEvent::Raised(true), 0), MuxStage::Over);
    // An event of another stage changes nothing.
    assert_eq!(next_mux_stage(MuxStage::Raising, &MuxEvent::Served, 0), MuxStage::Raising);
}

#[test]
fn only_a_connected_session_loses_its_link() {
    assert!(!loses_link(MuxStage::Raising));
    assert!(!loses_link(MuxStage::Dialling));
    assert!(!loses_link(MuxStage::Over));
    assert!(loses_link(MuxStage::ConfiguringSms));
    assert!(loses_link(MuxStage::Waiting { csq_due_ms: 0 }));
    assert!(loses_link(MuxStage::Serving { csq_due_ms: 0, action: AtAction::SendSms }));
}

#[test]
fn the_last_signal_level_stands_until_the_next() {
    let mut last = 99;
    on_signal_level(&mut last, None);
    assert_eq!(last, 99);
    on_signal_level(&mut last, Some(17));
    assert_eq!(last, 17);
    on_signal_level(&mut last, None);
    assert_eq!(last, 17);
}
