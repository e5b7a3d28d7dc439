use sim800l_gateway::cmux::control;
use sim800l_gateway::cmux::{ChannelState, DecodeError, Frame, FrameKind, Session};
use sim800l_gateway::cmux_transport::{
    announcement_octets, close_octets, control_octets, frame_octets, frame_write,
    handle_control_message, wait_state, BringUpError, Channels, ControlNotice, Error,
    MultiplexerUp, OpenStep, Opening, Pump, PumpAction, ReadOutcome, UpAction, UpEvent, Wait,
};

fn encoded(frame: &Frame<'_>) -> Vec<u8> {
    let mut buf = vec![0u8; frame.encoded_len()];
    frame.encode(&mut buf).unwrap();
    buf
}

fn control_frame(bits: u8, command: bool, value: &[u8]) -> Vec<u8> {
    let mut message = [0u8; 64];
    let n = control::encode(bits, command, value, &mut message).unwrap();
    encoded(&Frame::uih(0, &message[..n]))
}

#[test]
fn service_frames_fit_in_eight_octets() {
    assert_eq!(frame_octets(&Frame::sabm(0)).unwrap(), vec![0xF9, 0x03, 0x3F, 0x01, 0x1C, 0xF9]);
    assert_eq!(frame_octets(&Frame::uih(1, b"ab")).unwrap().len(), 8);
    assert_eq!(frame_octets(&Frame::uih(1, b"abc")), Err(Error::Framing));
    assert_eq!(frame_octets(&Frame::sabm(64)), Err(Error::Framing));
}

#[test]
fn control_messages_are_framed() {
    assert_eq!(control_octets(control::MSC, true, &[7, 8]).unwrap(), control_frame(control::MSC, true, &[7, 8]));
    assert_eq!(control_octets(control::MSC, true, &[0; 6]).unwrap().len(), 14);
    assert_eq!(control_octets(control::MSC, true, &[0; 7]), Err(Error::Framing));
    assert_eq!(announcement_octets(1).unwrap(), control_frame(control::MSC, true, &[0x07, 0x8D]));
    assert_eq!(close_octets().unwrap(), control_frame(control::CLD, true, &[]));
}

#[test]
fn a_write_takes_no_more_than_the_payload() {
    let data = [0x5Au8; 300];
    let (n, framing) = frame_write(2, data.len(), 127).unwrap();
    assert_eq!(n, 127);
    let mut line = framing.header().to_vec();
    line.extend_from_slice(&data[..n]);
    line.extend_from_slice(framing.trailer());
    assert_eq!(line, encoded(&Frame::uih(2, &data[..127])));
    assert_eq!(frame_write(2, 5, 127).unwrap().0, 5);
    assert!(matches!(frame_write(64, 5, 127), Err(Error::Framing)));
    assert!(matches!(frame_write(2, 40_000, 40_000), Err(Error::Framing)));
}

#[test]
fn commands_of_the_modem_are_answered() {
    let answer = |bits: u8, command: bool, value: &[u8]| {
        let mut message = [0u8; 64];
        let n = control::encode(bits, command, value, &mut message).unwrap();
        handle_control_message(&message[..n])
    };
    let status = answer(control::MSC, true, &[0x0B, 0x8D]);
    assert_eq!(status.notice, ControlNotice::Status(Some(2)));
    assert_eq!(status.answer.unwrap().unwrap(), control_frame(control::MSC, false, &[0x0B, 0x8D]));

    assert_eq!(answer(control::MSC, true, &[]).notice, ControlNotice::Status(None));

    let closing = answer(control::CLD, true, &[]);
    assert_eq!(closing.notice, ControlNotice::Closing);
    assert_eq!(closing.answer.unwrap().unwrap(), control_frame(control::CLD, false, &[]));

    let on = answer(control::FCON, true, &[1]);
    assert_eq!(on.notice, ControlNotice::FlowOn);
    assert_eq!(on.answer.unwrap().unwrap(), control_frame(control::FCON, false, &[]));

    let off = answer(control::FCOFF, true, &[]);
    assert_eq!(off.notice, ControlNotice::FlowOff);
    assert_eq!(off.answer.unwrap().unwrap(), control_frame(control::FCOFF, false, &[]));

    let unknown = answer(0x15, true, &[9]);
    assert_eq!(unknown.notice, ControlNotice::Unknown(0x15));
    assert_eq!(
        unknown.answer.unwrap().unwrap(),
        control_frame(control::NSC, false, &[control::type_octet(0x15, true)])
    );

    let response = answer(control::MSC, false, &[0x0B, 0x8D]);
    assert_eq!(response.notice, ControlNotice::Response(control::MSC));
    assert!(response.answer.is_none());

    let broken = handle_control_message(&[0xE3]);
    assert_eq!(broken.notice, ControlNotice::Unreadable);
    assert!(broken.answer.is_none());

    assert!(matches!(answer(control::MSC, true, &[1; 7]).answer, Some(Err(Error::Framing))));
}

fn channels(attempts: u32) -> Channels {
    Channels { at: 1, ppp: 2, attempts, timeout_ms: 2000 }
}

#[test]
fn channels_come_up_in_order() {
    let mut session = Session::new();
    let mut up = MultiplexerUp::new(channels(3));
    let mut action = up.on_event(&mut session, UpEvent::Start);
    let mut steps = Vec::new();
    for _ in 0..10 {
        let event = match action {
            UpAction::Open { dlci, octets } => {
                assert_eq!(octets, encoded(&Frame::sabm(dlci)));
                assert_eq!(session.state(dlci), ChannelState::Opening);
                session.on_frame(&Frame::ua(dlci));
                steps.push(("open", dlci));
                UpEvent::Confirmed
            }
            UpAction::Announce { dlci, octets } => {
                assert_eq!(octets, announcement_octets(dlci).unwrap());
                steps.push(("announce", dlci));
                UpEvent::Announced
            }
            UpAction::Done => {
                steps.push(("done", 0));
                break;
            }
            UpAction::GiveUp(e) => panic!("{e:?}"),
        };
        action = up.on_event(&mut session, event);
    }
    assert_eq!(
        steps,
        vec![("open", 0), ("open", 1), ("announce", 1), ("open", 2), ("announce", 2), ("done", 0)]
    );
}

#[test]
fn a_channel_that_never_answers_ends_it() {
    let mut session = Session::new();
    let mut up = MultiplexerUp::new(channels(2));
    assert!(matches!(up.on_event(&mut session, UpEvent::Start), UpAction::Open { dlci: 0, .. }));
    session.on_frame(&Frame::ua(0));
    assert!(matches!(
        up.on_event(&mut session, UpEvent::Confirmed),
        UpAction::Open { dlci: 1, .. }
    ));
    assert!(matches!(
        up.on_event(&mut session, UpEvent::Expired),
        UpAction::Open { dlci: 1, .. }
    ));
    assert!(matches!(
        up.on_event(&mut session, UpEvent::Expired),
        UpAction::GiveUp(BringUpError::Timeout(1))
    ));
}

#[test]
fn open_channels_are_not_asked_for() {
    let mut session = Session::new();
    for dlci in 0..3 {
        session.open(dlci).unwrap();
        session.on_frame(&Frame::ua(dlci));
    }
    let mut up = MultiplexerUp::new(channels(1));
    assert!(matches!(
        up.on_event(&mut session, UpEvent::Start),
        UpAction::Announce { dlci: 1, .. }
    ));
    assert!(matches!(
        up.on_event(&mut session, UpEvent::Announced),
        UpAction::Announce { dlci: 2, .. }
    ));
    assert!(matches!(up.on_event(&mut session, UpEvent::Announced), UpAction::Done));
    let mut up = MultiplexerUp::new(Channels { at: 70, ..channels(1) });
    assert!(matches!(
        up.on_event(&mut session, UpEvent::Start),
        UpAction::GiveUp(BringUpError::State(70))
    ));
    let mut up = MultiplexerUp::new(channels(0));
    assert!(matches!(
        up.on_event(&mut session, UpEvent::Start),
        UpAction::GiveUp(BringUpError::Timeout(0))
    ));
}

#[test]
fn a_long_write_arrives_whole() {
    let data: Vec<u8> = (0..1000u32).map(|i| (i * 31) as u8).collect();
    let mut line = Vec::new();
    let mut rest = &data[..];
    while !rest.is_empty() {
        let (n, framing) = frame_write(2, rest.len(), 127).unwrap();
        line.extend_from_slice(framing.header());
        line.extend_from_slice(&rest[..n]);
        line.extend_from_slice(framing.trailer());
        rest = &rest[n..];
    }
    let mut pump = Pump::<256>::new();
    let mut session = Session::new();
    let mut arrived = Vec::new();
    for action in pump_all(&mut pump, &mut session, &line) {
        match action {
            PumpAction::Deliver { route: 1, payload } => arrived.extend_from_slice(&payload),
            other => panic!("{other:?}"),
        }
    }
    assert_eq!(arrived, data);
}

#[test]
fn a_silent_modem_is_asked_again() {
    let mut session = Session::new();
    let mut opening = Opening::new(1, 2);
    for _ in 0..2 {
        match opening.next(&mut session) {
            OpenStep::Send(octets) => assert_eq!(octets, encoded(&Frame::sabm(1))),
            other => panic!("{other:?}"),
        }
        assert_eq!(session.state(1), ChannelState::Opening);
        assert_eq!(wait_state(&session, 1, ChannelState::Open, false), Wait::Again);
        assert_eq!(wait_state(&session, 1, ChannelState::Open, true), Wait::Expired);
    }
    assert!(matches!(
        opening.next(&mut session),
        OpenStep::GiveUp(BringUpError::Timeout(1))
    ));
}

#[test]
fn a_confirmed_channel_is_done() {
    let mut session = Session::new();
    let mut opening = Opening::new(1, 2);
    assert!(matches!(opening.next(&mut session), OpenStep::Send(_)));
    session.on_frame(&Frame::ua(1));
    assert_eq!(wait_state(&session, 1, ChannelState::Open, true), Wait::Reached);
    assert!(matches!(opening.next(&mut session), OpenStep::Done));
    assert!(matches!(
        Opening::new(64, 1).next(&mut session),
        OpenStep::GiveUp(BringUpError::State(64))
    ));
    assert!(matches!(
        Opening::new(5, 0).next(&mut session),
        OpenStep::GiveUp(BringUpError::Timeout(5))
    ));
}

#[test]
fn errors_turn_into_one_another() {
    assert_eq!(BringUpError::from(Error::Write), BringUpError::Io(Error::Write));
    assert_eq!(Error::Write.text(), "cmux: ошибка записи в UART");
    assert_eq!(Error::Framing.text(), "cmux: кадр не собрался");
}

fn pump_all(pump: &mut Pump<256>, session: &mut Session, bytes: &[u8]) -> Vec<PumpAction> {
    bytes
        .iter()
        .map(|&b| pump.on_octet(session, &[1, 2, 1], b))
        .filter(|a| !matches!(a, PumpAction::Nothing))
        .collect()
}

#[test]
fn the_pump_hands_data_to_its_channel() {
    let mut pump = Pump::<256>::new();
    let mut session = Session::new();
    let mut line = encoded(&Frame::uih(2, b"ppp"));
    line.extend_from_slice(&encoded(&Frame::uih(1, b"at")));
    line.extend_from_slice(&encoded(&Frame::uih(9, b"?")));
    let actions = pump_all(&mut pump, &mut session, &line);
    assert_eq!(actions.len(), 3);
    assert!(matches!(&actions[0], PumpAction::Deliver { route: 1, payload } if payload == b"ppp"));
    assert!(matches!(&actions[1], PumpAction::Deliver { route: 0, payload } if payload == b"at"));
    assert!(matches!(&actions[2], PumpAction::Unrouted(9)));
}

#[test]
fn the_pump_follows_the_channels() {
    let mut pump = Pump::<256>::default();
    let mut session = Session::new();
    session.open(1).unwrap();
    let actions = pump_all(&mut pump, &mut session, &encoded(&Frame::ua(1)));
    assert!(matches!(actions[..], [PumpAction::Opened(1)]));
    assert_eq!(session.state(1), ChannelState::Open);

    let disc = encoded(&Frame::control(1, FrameKind::Disc, true, true));
    let actions = pump_all(&mut pump, &mut session, &disc);
    match &actions[..] {
        [PumpAction::Answer { dlci: 1, octets: Ok(octets) }] => {
            assert_eq!(octets, &encoded(&Frame::ua(1)))
        }
        other => panic!("{other:?}"),
    }
    let actions = pump_all(&mut pump, &mut session, &encoded(&Frame::control(3, FrameKind::Sabm, true, true)));
    assert!(matches!(&actions[..], [PumpAction::Answer { dlci: 3, octets: Ok(_) }]));
    let actions = pump_all(&mut pump, &mut session, &encoded(&Frame::dm(3)));
    assert!(matches!(&actions[..], [PumpAction::Closed(3)]));
}

#[test]
fn the_pump_serves_the_control_channel() {
    let mut pump = Pump::<256>::new();
    let mut session = Session::new();
    let actions = pump_all(&mut pump, &mut session, &control_frame(control::CLD, true, &[]));
    match &actions[..] {
        [PumpAction::Control(outcome)] => assert_eq!(outcome.notice, ControlNotice::Closing),
        other => panic!("{other:?}"),
    }
}

#[test]
fn the_pump_survives_a_bad_line() {
    let mut pump = Pump::<256>::new();
    let mut session = Session::new();
    let frame = encoded(&Frame::uih(1, b"abc"));
    assert!(pump_all(&mut pump, &mut session, &frame[..4]).is_empty());
    assert_eq!(pump.on_read_error(), ReadOutcome::Failed { first: true });
    assert_eq!(pump.on_read_error(), ReadOutcome::Failed { first: false });
    assert_eq!(pump.on_read(0), ReadOutcome::Pause);
    assert_eq!(pump.on_read(3), ReadOutcome::Octets { recovered_after: 2 });
    assert_eq!(pump.on_read(3), ReadOutcome::Octets { recovered_after: 0 });
    assert_eq!(pump_all(&mut pump, &mut session, &frame).len(), 1);

    let mut damaged = encoded(&Frame::uih(1, b"abc"));
    damaged[1] ^= 0x04;
    let actions = pump_all(&mut pump, &mut session, &damaged);
    assert!(matches!(actions[0], PumpAction::Dropped(DecodeError::Fcs)));
}

#[test]
fn each_route_receives_its_stream() {
    let mut pump = Pump::<256>::new();
    let mut session = Session::new();
    let mut line = b"noise".to_vec();
    for piece in ["one ", "two ", "three"] {
        line.extend_from_slice(&encoded(&Frame::uih(1, piece.as_bytes())));
        line.extend_from_slice(&control_frame(control::FCON, true, &[]));
        line.extend_from_slice(&encoded(&Frame::uih(2, b"ppp,")));
        let mut damaged = encoded(&Frame::uih(1, b"lost"));
        damaged[1] ^= 0x04;
        line.extend_from_slice(&damaged);
        line.extend_from_slice(&encoded(&Frame::uih(9, b"nobody")));
        line.extend_from_slice(&encoded(&Frame::control(5, FrameKind::Sabm, true, true)));
    }
    let mut received = [Vec::new(), Vec::new()];
    let (mut controls, mut answers) = (0, 0);
    for action in pump_all(&mut pump, &mut session, &line) {
        match action {
            PumpAction::Deliver { route, payload } => received[route].extend_from_slice(&payload),
            PumpAction::Control(_) => controls += 1,
            PumpAction::Answer { dlci: 5, octets } => {
                assert_eq!(octets.unwrap(), encoded(&Frame::ua(5)));
                answers += 1;
            }
            _ => {}
        }
    }
    assert_eq!(received[0], b"one two three");
    assert_eq!(received[1], b"ppp,ppp,ppp,");
    assert_eq!((controls, answers), (3, 3));
}

/// What bringing the multiplexer up does, step by step, when each channel is
/// confirmed after so many requests; 0 stands for never.
fn way_up(confirmed_after: [u32; 3], attempts: u32) -> Vec<String> {
    let channels = Channels { at: 1, ppp: 2, attempts, timeout_ms: 2000 };
    let mut session = Session::new();
    let mut up = MultiplexerUp::new(channels);
    let mut requests = [0u32; 3];
    let mut steps = Vec::new();
    let mut event = UpEvent::Start;
    loop {
        event = match up.on_event(&mut session, event) {
            UpAction::Open { dlci, octets } => {
                assert_eq!(octets, encoded(&Frame::sabm(dlci)));
                steps.push(format!("SABM {dlci}"));
                let place = usize::from(dlci);
                requests[place] += 1;
                if requests[place] == confirmed_after[place] {
                    session.on_frame(&Frame::ua(dlci));
                    UpEvent::Confirmed
                } else {
                    UpEvent::Expired
                }
            }
            UpAction::Announce { dlci, octets } => {
                assert_eq!(octets, announcement_octets(dlci).unwrap());
                steps.push(format!("MSC {dlci}"));
                UpEvent::Announced
            }
            UpAction::Done => {
                steps.push("up".to_string());
                return steps;
            }
            UpAction::GiveUp(error) => {
                steps.push(format!("{error:?}"));
                return steps;
            }
        };
    }
}

#[test]
fn the_multiplexer_comes_up_as_a_whole() {
    assert_eq!(
        way_up([1, 1, 1], 3),
        ["SABM 0", "SABM 1", "MSC 1", "SABM 2", "MSC 2", "up"]
    );
    assert_eq!(
        way_up([3, 2, 1], 3),
        ["SABM 0", "SABM 0", "SABM 0", "SABM 1", "SABM 1", "MSC 1", "SABM 2", "MSC 2", "up"]
    );
}

#[test]
fn a_silent_channel_is_asked_for_as_often_as_agreed() {
    assert_eq!(way_up([0, 1, 1], 2), ["SABM 0", "SABM 0", "Timeout(0)"]);
    assert_eq!(way_up([1, 0, 1], 3), ["SABM 0", "SABM 1", "SABM 1", "SABM 1", "Timeout(1)"]);
    assert_eq!(
        way_up([1, 1, 0], 2),
        ["SABM 0", "SABM 1", "MSC 1", "SABM 2", "SABM 2", "Timeout(2)"]
    );
    assert_eq!(way_up([1, 1, 1], 0), ["Timeout(0)"]);
}
