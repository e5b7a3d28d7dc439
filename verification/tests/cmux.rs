//! Frames, the streaming decoder, control messages and channel states.

use sim800l_gateway::cmux::control;
use sim800l_gateway::cmux::control::V24Signals;
use sim800l_gateway::cmux::{
    crc_table, crc_update, fcs, Address, ChannelState, DecodeError, Decoder, EncodeError,
    Event, Frame, FrameKind, Session, SessionError, UihFraming, FCS_GOOD, FLAG, MAX_LEN_LONG,
    PF,
};

type Owned = (Address, FrameKind, bool, Vec<u8>);

fn feed<const N: usize>(
    decoder: &mut Decoder<N>,
    bytes: &[u8],
) -> Vec<Result<Owned, DecodeError>> {
    let mut out = Vec::new();
    for &b in bytes {
        if let Some(result) = decoder.push(b) {
            out.push(result.map(|f| (f.address, f.kind, f.poll_final, f.information.to_vec())));
        }
    }
    out
}

fn encode(frame: &Frame<'_>) -> Vec<u8> {
    let mut buf = vec![0u8; frame.encoded_len()];
    let n = frame.encode(&mut buf).unwrap();
    assert_eq!(n, buf.len(), "encoded_len должен совпадать с записанным");
    buf
}

#[test]
fn crc_table_matches_specification() {
    let head: [u8; 32] = [
        0x00, 0x91, 0xE3, 0x72, 0x07, 0x96, 0xE4, 0x75, 0x0E, 0x9F, 0xED, 0x7C, 0x09, 0x98,
        0xEA, 0x7B, 0x1C, 0x8D, 0xFF, 0x6E, 0x1B, 0x8A, 0xF8, 0x69, 0x12, 0x83, 0xF1, 0x60,
        0x15, 0x84, 0xF6, 0x67,
    ];
    let table = crc_table();
    assert_eq!(&table[..32], &head[..]);
    assert_eq!(table[255], 0xCF, "последнее значение таблицы из Annex B");
}

#[test]
fn canonical_sabm_on_control_channel() {
    let frame = Frame {
        address: Address {
            dlci: 0,
            command: true,
        },
        kind: FrameKind::Sabm,
        poll_final: true,
        information: &[],
    };
    assert_eq!(encode(&frame), vec![0xF9, 0x03, 0x3F, 0x01, 0x1C, 0xF9]);
}

#[test]
fn receiver_check_constant() {
    let header = [0x03u8, 0x3F, 0x01];
    let f = fcs(&header);
    assert_eq!(f, 0x1C);
    assert_eq!(crc_table()[(crc_update(0xFF, &header) ^ f) as usize], FCS_GOOD);
}

#[test]
fn address_round_trip() {
    for dlci in 0..=63u8 {
        for command in [false, true] {
            let a = Address { dlci, command };
            let octet = a.encode();
            assert_eq!(octet & 1, 1, "EA всегда 1");
            assert_eq!(Address::decode(octet), Some(a));
        }
    }
    assert_eq!(Address::decode(0x02), None);
}

#[test]
fn control_round_trip() {
    let kinds = [
        FrameKind::Sabm,
        FrameKind::Ua,
        FrameKind::Dm,
        FrameKind::Disc,
        FrameKind::Uih,
        FrameKind::Ui,
    ];
    for kind in kinds {
        for pf in [false, true] {
            let code = kind.code() | if pf { PF } else { 0 };
            assert_eq!(FrameKind::from_code(code), Some(kind));
            assert_eq!(code & PF != 0, pf);
        }
    }
    assert_eq!(FrameKind::from_code(0x00), None);
}

#[test]
fn round_trip_through_decoder() {
    let payload = b"AT+CSQ\r";
    let frame = Frame {
        address: Address {
            dlci: 1,
            command: true,
        },
        kind: FrameKind::Uih,
        poll_final: false,
        information: payload,
    };
    let bytes = encode(&frame);

    let mut d = Decoder::<256>::new();
    let out = feed(&mut d, &bytes);
    assert_eq!(out.len(), 1);
    let (address, kind, pf, info) = out[0].clone().unwrap();
    assert_eq!(address, frame.address);
    assert_eq!(kind, FrameKind::Uih);
    assert!(!pf);
    assert_eq!(info, payload);
}

#[test]
fn empty_information_still_has_length_octet() {
    let frame = Frame {
        address: Address {
            dlci: 5,
            command: false,
        },
        kind: FrameKind::Ua,
        poll_final: true,
        information: &[],
    };
    let bytes = encode(&frame);
    assert_eq!(bytes.len(), 6);
    assert_eq!(bytes[3], 0x01, "длина 0 с установленным EA");

    let mut d = Decoder::<64>::new();
    let out = feed(&mut d, &bytes);
    assert_eq!(out.len(), 1);
    assert!(out[0].clone().unwrap().3.is_empty());
}

#[test]
fn two_octet_length_for_long_payload() {
    let payload: Vec<u8> = (0..1500u16).map(|i| i as u8).collect();
    let frame = Frame {
        address: Address {
            dlci: 2,
            command: true,
        },
        kind: FrameKind::Uih,
        poll_final: false,
        information: &payload,
    };
    let bytes = encode(&frame);
    assert_eq!(bytes[3] & 1, 0, "EA=0: следом второй октет длины");
    assert_eq!(
        (bytes[3] >> 1) as usize | ((bytes[4] as usize) << 7),
        payload.len()
    );

    let mut d = Decoder::<2048>::new();
    let out = feed(&mut d, &bytes);
    assert_eq!(out.len(), 1);
    assert_eq!(out[0].clone().unwrap().3, payload);
}

#[test]
fn length_boundary_at_127() {
    for len in [126usize, 127, 128, 129] {
        let payload = vec![0xA5u8; len];
        let frame = Frame {
            address: Address {
                dlci: 3,
                command: true,
            },
            kind: FrameKind::Ui,
            poll_final: false,
            information: &payload,
        };
        let bytes = encode(&frame);
        let expected_octets = if len > 127 { 2 } else { 1 };
        assert_eq!(bytes.len(), 5 + expected_octets + len, "длина {len}");

        let mut d = Decoder::<512>::new();
        let out = feed(&mut d, &bytes);
        assert_eq!(out.len(), 1, "длина {len}");
        assert_eq!(out[0].clone().unwrap().3.len(), len);
    }
}

#[test]
fn uih_fcs_covers_header_only() {
    let payload = b"payload";

    let mut uih = encode(&Frame {
        address: Address {
            dlci: 1,
            command: true,
        },
        kind: FrameKind::Uih,
        poll_final: false,
        information: payload,
    });
    let mut ui = encode(&Frame {
        address: Address {
            dlci: 1,
            command: true,
        },
        kind: FrameKind::Ui,
        poll_final: false,
        information: payload,
    });
    assert_ne!(
        uih[uih.len() - 2],
        ui[ui.len() - 2],
        "FCS обязан отличаться: у UI в него входят данные"
    );
    let idx = 5;
    uih[idx] ^= 0xFF;
    ui[idx] ^= 0xFF;
    let mut d = Decoder::<64>::new();
    assert!(feed(&mut d, &uih)[0].is_ok());
    let mut d = Decoder::<64>::new();
    assert_eq!(feed(&mut d, &ui)[0], Err(DecodeError::Fcs));
}

#[test]
fn corrupted_header_is_rejected() {
    let mut bytes = encode(&Frame {
        address: Address {
            dlci: 1,
            command: true,
        },
        kind: FrameKind::Uih,
        poll_final: false,
        information: b"data",
    });
    bytes[1] = Address {
        dlci: 2,
        command: true,
    }
    .encode();

    let mut d = Decoder::<64>::new();
    assert_eq!(feed(&mut d, &bytes)[0], Err(DecodeError::Fcs));
}

#[test]
fn rejects_unknown_control_and_extended_address() {
    let mut d = Decoder::<64>::new();
    assert_eq!(
        feed(&mut d, &[FLAG, 0x03, 0x00]),
        vec![Err(DecodeError::UnknownControl)]
    );

    let mut d = Decoder::<64>::new();
    assert_eq!(
        feed(&mut d, &[FLAG, 0x02]),
        vec![Err(DecodeError::ExtendedAddress)]
    );
}

#[test]
fn rejects_frame_longer_than_buffer() {
    let payload = vec![0u8; 200];
    let bytes = encode(&Frame {
        address: Address {
            dlci: 1,
            command: true,
        },
        kind: FrameKind::Uih,
        poll_final: false,
        information: &payload,
    });
    let mut d = Decoder::<64>::new();
    assert_eq!(feed(&mut d, &bytes)[0], Err(DecodeError::TooLong));
}

#[test]
fn resynchronises_after_garbage() {
    let good = encode(&Frame {
        address: Address {
            dlci: 1,
            command: true,
        },
        kind: FrameKind::Uih,
        poll_final: false,
        information: b"ok",
    });

    let mut stream = vec![0x00, 0xAB, 0xCD, 0xEF];
    stream.extend_from_slice(&good);

    let mut d = Decoder::<64>::new();
    let out = feed(&mut d, &stream);
    let frames: Vec<_> = out.iter().filter(|r| r.is_ok()).collect();
    assert_eq!(frames.len(), 1);
    assert_eq!(out.last().unwrap().clone().unwrap().3, b"ok");
}

#[test]
fn shared_flag_between_frames() {
    let mk = |dlci: u8, info: &'static [u8]| {
        encode(&Frame {
            address: Address {
                dlci,
                command: true,
            },
            kind: FrameKind::Uih,
            poll_final: false,
            information: info,
        })
    };
    let first = mk(1, b"one");
    let second = mk(2, b"two");
    let mut stream = first.clone();
    stream.extend_from_slice(&second[1..]);

    let mut d = Decoder::<64>::new();
    let out = feed(&mut d, &stream);
    assert_eq!(out.len(), 2);
    assert_eq!(out[0].clone().unwrap().0.dlci, 1);
    assert_eq!(out[0].clone().unwrap().3, b"one");
    assert_eq!(out[1].clone().unwrap().0.dlci, 2);
    assert_eq!(out[1].clone().unwrap().3, b"two");
}

#[test]
fn tolerates_inter_frame_fill() {
    let frame = encode(&Frame {
        address: Address {
            dlci: 1,
            command: true,
        },
        kind: FrameKind::Uih,
        poll_final: false,
        information: b"x",
    });
    let mut stream = vec![FLAG; 5];
    stream.extend_from_slice(&frame);
    stream.extend_from_slice(&[FLAG, FLAG]);

    let mut d = Decoder::<64>::new();
    let out = feed(&mut d, &stream);
    assert_eq!(out.len(), 1);
    assert_eq!(out[0].clone().unwrap().3, b"x");
}

#[test]
fn flag_byte_inside_payload_is_transparent() {
    let payload = [FLAG, 0x00, FLAG, FLAG, 0x42];
    let bytes = encode(&Frame {
        address: Address {
            dlci: 1,
            command: true,
        },
        kind: FrameKind::Uih,
        poll_final: false,
        information: &payload,
    });
    let mut d = Decoder::<64>::new();
    let out = feed(&mut d, &bytes);
    assert_eq!(out.len(), 1);
    assert_eq!(out[0].clone().unwrap().3, payload);
}

#[test]
fn control_frame_constructors() {
    assert_eq!(
        encode(&Frame::sabm(0)),
        vec![0xF9, 0x03, 0x3F, 0x01, 0x1C, 0xF9]
    );

    for f in [Frame::ua(1), Frame::dm(1)] {
        assert!(!f.address.command, "ответ шлётся с C/R = 0");
        assert!(f.poll_final, "у ответа бит F взведён");
    }
    for f in [Frame::sabm(1), Frame::disc(1)] {
        assert!(f.address.command, "команда шлётся с C/R = 1");
        assert!(f.poll_final, "у команды бит P взведён");
    }
    assert!(!Frame::uih(1, b"x").poll_final, "у UIH P/F не взводится");
}

#[test]
fn opens_control_channel_then_data_channel() {
    let mut s = Session::new();
    assert_eq!(s.state(0), ChannelState::Closed);

    let sabm = s.open(0).unwrap();
    assert_eq!(sabm.kind, FrameKind::Sabm);
    assert_eq!(s.state(0), ChannelState::Opening);
    assert_eq!(s.on_frame(&Frame::ua(0)), Event::Opened(0));
    assert_eq!(s.state(0), ChannelState::Open);

    s.open(1).unwrap();
    assert_eq!(s.on_frame(&Frame::ua(1)), Event::Opened(1));
    assert_eq!(s.state(1), ChannelState::Open);
    assert_eq!(
        s.on_frame(&Frame::uih(1, b"AT+CSQ\r")),
        Event::Data {
            dlci: 1,
            payload: b"AT+CSQ\r"
        }
    );
}

#[test]
fn dm_refuses_to_open() {
    let mut s = Session::new();
    s.open(2).unwrap();
    assert_eq!(s.on_frame(&Frame::dm(2)), Event::Closed(2));
    assert_eq!(s.state(2), ChannelState::Closed);
    assert!(s.open(2).is_ok());
}

#[test]
fn closes_channel_on_our_initiative() {
    let mut s = Session::new();
    s.open(1).unwrap();
    s.on_frame(&Frame::ua(1));

    let disc = s.close(1).unwrap();
    assert_eq!(disc.kind, FrameKind::Disc);
    assert_eq!(s.state(1), ChannelState::Closing);
    assert_eq!(s.on_frame(&Frame::ua(1)), Event::Closed(1));
    assert_eq!(s.state(1), ChannelState::Closed);
}

#[test]
fn remote_disconnect_is_answered() {
    let mut s = Session::new();
    s.open(1).unwrap();
    s.on_frame(&Frame::ua(1));

    match s.on_frame(&Frame::control(1, FrameKind::Disc, true, true)) {
        Event::RemoteDisconnect { dlci, reply } => {
            assert_eq!(dlci, 1);
            assert_eq!(reply.kind, FrameKind::Ua);
        }
        other => panic!("{other:?}"),
    }
    assert_eq!(s.state(1), ChannelState::Closed);

    match s.on_frame(&Frame::control(1, FrameKind::Disc, true, true)) {
        Event::RemoteDisconnect { reply, .. } => assert_eq!(reply.kind, FrameKind::Dm),
        other => panic!("{other:?}"),
    }
}

#[test]
fn remote_open_is_answered_with_ua() {
    let mut s = Session::new();
    match s.on_frame(&Frame::control(3, FrameKind::Sabm, true, true)) {
        Event::RemoteOpen { dlci, reply } => {
            assert_eq!(dlci, 3);
            assert_eq!(reply.kind, FrameKind::Ua);
        }
        other => panic!("{other:?}"),
    }
    assert_eq!(s.state(3), ChannelState::Open);
}

#[test]
fn rejects_bad_transitions() {
    let mut s = Session::new();
    s.open(1).unwrap();
    assert_eq!(
        s.open(1),
        Err(SessionError::WrongState(ChannelState::Opening))
    );
    assert_eq!(
        s.close(1),
        Err(SessionError::WrongState(ChannelState::Opening))
    );
    assert_eq!(s.open(64), Err(SessionError::DlciOutOfRange));
    let mut s = Session::new();
    assert_eq!(s.on_frame(&Frame::ua(5)), Event::Ignored);
    assert_eq!(s.state(5), ChannelState::Closed);
}

#[test]
fn streaming_framing_matches_whole_frame_encoding() {
    for len in [0usize, 1, 5, 126, 127, 128, 512, 1500] {
        let payload = vec![0x5Au8; len];
        let whole = encode(&Frame::uih(1, &payload));

        let framing = UihFraming::new(1, len).unwrap();
        let mut streamed = Vec::new();
        streamed.extend_from_slice(framing.header());
        streamed.extend_from_slice(&payload);
        streamed.extend_from_slice(framing.trailer());

        assert_eq!(streamed, whole, "длина {len}");
    }
}

#[test]
fn streaming_framing_validates_arguments() {
    assert_eq!(UihFraming::new(64, 0), Err(EncodeError::DlciOutOfRange));
    assert_eq!(
        UihFraming::new(1, MAX_LEN_LONG + 1),
        Err(EncodeError::InformationTooLong)
    );
    assert_eq!(UihFraming::new(1, 127).unwrap().header().len(), 4);
    assert_eq!(UihFraming::new(1, 128).unwrap().header().len(), 5);
}

#[test]
fn force_closed_allows_retry() {
    let mut s = Session::new();
    s.open(1).unwrap();
    assert_eq!(s.state(1), ChannelState::Opening);
    assert!(s.open(1).is_err());

    s.force_closed(1);
    assert_eq!(s.state(1), ChannelState::Closed);
    assert!(s.open(1).is_ok());
    s.force_closed(200);
}

#[test]
fn control_message_type_octets_match_specification() {
    assert_eq!(control::type_octet(control::CLD, true), 0xC3);
    assert_eq!(control::type_octet(control::CLD, false), 0xC1);
    assert_eq!(control::type_octet(control::MSC, true), 0xE3);
    assert_eq!(control::type_octet(control::MSC, false), 0xE1);
    assert_eq!(control::type_octet(control::FCON, true), 0xA3);
    assert_eq!(control::type_octet(control::FCOFF, true), 0x63);
    assert_eq!(control::type_octet(control::NSC, false), 0x11);
    for bits in [control::CLD, control::MSC, control::FCON, control::FCOFF] {
        let command = control::type_octet(bits, true);
        let response = control::type_octet(bits, false);
        assert_eq!(command >> 2, response >> 2);
        assert_eq!(command & 0b10, 0b10);
        assert_eq!(response & 0b10, 0);
    }
}

#[test]
fn control_message_round_trip() {
    let mut buf = [0u8; 8];
    let n = control::encode(control::CLD, true, &[], &mut buf).unwrap();
    assert_eq!(&buf[..n], &[0xC3, 0x01]);
    let (bits, command, value) = control::decode(&buf[..n]).unwrap();
    assert_eq!((bits, command, value), (control::CLD, true, &[][..]));
    let mut tiny = [0u8; 1];
    assert!(control::encode(control::CLD, true, &[], &mut tiny).is_err());
    let mut big = [0u8; 200];
    assert!(control::encode(control::MSC, true, &[0u8; 128], &mut big).is_err());
    assert!(control::decode(&[0xE3]).is_none());
    assert!(control::decode(&[0xE3, 0x05, 0x01]).is_none());
    assert!(control::decode(&[0xE2, 0x01]).is_none());
    assert!(control::decode(&[0xE3, 0x00]).is_none());
}

#[test]
fn msc_encodes_dlci_and_v24_signals() {
    let mut buf = [0u8; 8];
    let n = control::msc(1, V24Signals::dte_ready(), true, &mut buf).unwrap();
    assert_eq!(&buf[..n], &[0xE3, 0x05, 0x07, 0x8D]);

    let (bits, command, value) = control::decode(&buf[..n]).unwrap();
    assert_eq!(bits, control::MSC);
    assert!(command);
    assert_eq!(value[0] >> 2, 1, "DLCI в старших битах");
    assert_eq!(value[0] & 0b11, 0b11, "бит 2 всегда 1, EA = 1");
    assert_eq!(
        V24Signals::decode(value[1]),
        Some(V24Signals::dte_ready())
    );
}

#[test]
fn v24_signal_bits() {
    assert_eq!(V24Signals::dte_ready().encode(), 0x8D);

    let only = |f: fn(&mut V24Signals)| {
        let mut s = V24Signals {
            flow_control: false,
            ready_to_communicate: false,
            ready_to_receive: false,
            incoming_call: false,
            data_valid: false,
        };
        f(&mut s);
        s.encode()
    };
    assert_eq!(only(|s| s.flow_control = true), 0b0000_0011);
    assert_eq!(only(|s| s.ready_to_communicate = true), 0b0000_0101);
    assert_eq!(only(|s| s.ready_to_receive = true), 0b0000_1001);
    assert_eq!(only(|s| s.incoming_call = true), 0b0100_0001);
    assert_eq!(only(|s| s.data_valid = true), 0b1000_0001);
    assert_eq!(V24Signals::dte_ready().encode() & 0b0011_0000, 0);
    assert_eq!(V24Signals::decode(0x00), None, "EA = 0 недопустим");
}

#[test]
fn encode_reports_buffer_and_range_errors() {
    let frame = Frame {
        address: Address {
            dlci: 1,
            command: true,
        },
        kind: FrameKind::Uih,
        poll_final: false,
        information: b"data",
    };
    let mut small = [0u8; 4];
    assert_eq!(frame.encode(&mut small), Err(EncodeError::BufferTooSmall));

    let bad = Frame {
        address: Address {
            dlci: 64,
            command: true,
        },
        ..frame
    };
    let mut buf = [0u8; 32];
    assert_eq!(bad.encode(&mut buf), Err(EncodeError::DlciOutOfRange));
}

#[test]
fn every_kind_survives_the_line() {
    let kinds = [
        FrameKind::Sabm,
        FrameKind::Ua,
        FrameKind::Dm,
        FrameKind::Disc,
        FrameKind::Uih,
        FrameKind::Ui,
    ];
    for kind in kinds {
        for poll_final in [false, true] {
            for len in [0usize, 1, 127, 128, 300] {
                let payload: Vec<u8> = (0..len).map(|i| (i * 7) as u8).collect();
                let frame = Frame {
                    address: Address { dlci: 17, command: false },
                    kind,
                    poll_final,
                    information: &payload,
                };
                let mut d = Decoder::<512>::new();
                assert_eq!(
                    feed(&mut d, &encode(&frame)),
                    vec![Ok((frame.address, kind, poll_final, payload.clone()))]
                );
            }
        }
    }
}

#[test]
fn a_response_on_channel_62_looks_like_fill() {
    let frame = Frame::control(62, FrameKind::Ua, false, true);
    let bytes = encode(&frame);
    assert_eq!(bytes[1], FLAG);
    let mut d = Decoder::<64>::new();
    assert!(feed(&mut d, &bytes).iter().all(|r| r.is_err()));
    let mut d = Decoder::<64>::new();
    assert!(feed(&mut d, &encode(&Frame::sabm(62)))[0].is_ok());
}

#[test]
fn a_missing_closing_flag_is_reported() {
    let mut bytes = encode(&Frame::uih(1, b"x"));
    let last = bytes.len() - 1;
    bytes[last] = 0x00;
    let mut d = Decoder::<64>::new();
    assert_eq!(feed(&mut d, &bytes), vec![Err(DecodeError::MissingClosingFlag)]);
}

#[test]
fn a_reset_decoder_waits_for_a_flag() {
    let bytes = encode(&Frame::uih(1, b"abc"));
    let mut d = Decoder::<64>::new();
    assert!(feed(&mut d, &bytes[..5]).is_empty());
    d.reset();
    assert!(feed(&mut d, &bytes[5..bytes.len() - 1]).is_empty());
    assert_eq!(feed(&mut d, &bytes).len(), 1);
}

#[test]
fn one_changed_octet_changes_the_checksum() {
    let data: Vec<u8> = (0..40u8).collect();
    let good = fcs(&data);
    for i in 0..data.len() {
        for flip in [0x01u8, 0x80, 0xFF] {
            let mut bad = data.clone();
            bad[i] ^= flip;
            assert_ne!(fcs(&bad), good);
        }
    }
}

#[test]
fn checksum_of_nothing_and_of_one_octet() {
    assert_eq!(crc_update(0xFF, &[]), 0xFF);
    assert_eq!(fcs(&[]), 0x00);
    assert_eq!(crc_update(0xFF, &[0x00]), crc_table()[0xFF]);
}

#[test]
fn encode_leaves_the_rest_of_the_buffer_alone() {
    let mut buf = [0x55u8; 10];
    assert_eq!(Frame::sabm(0).encode(&mut buf), Ok(6));
    assert_eq!(buf, [0xF9, 0x03, 0x3F, 0x01, 0x1C, 0xF9, 0x55, 0x55, 0x55, 0x55]);
    let long = vec![0u8; MAX_LEN_LONG + 1];
    assert_eq!(
        Frame::uih(1, &long).encode(&mut buf),
        Err(EncodeError::InformationTooLong)
    );
}

#[test]
fn data_comes_through_in_every_state() {
    let mut s = Session::default();
    assert_eq!(
        s.on_frame(&Frame::uih(9, b"early")),
        Event::Data { dlci: 9, payload: b"early" }
    );
    assert_eq!(s.state(9), ChannelState::Closed);
    assert_eq!(s.state(200), ChannelState::Closed);
    assert_eq!(
        s.on_frame(&Frame::uih(64, b"nowhere")),
        Event::Ignored
    );
}

#[test]
fn channels_do_not_touch_each_other() {
    let mut s = Session::new();
    s.open(3).unwrap();
    s.on_frame(&Frame::ua(3));
    s.open(4).unwrap();
    assert_eq!(s.state(3), ChannelState::Open);
    assert_eq!(s.state(4), ChannelState::Opening);
    assert_eq!(s.on_frame(&Frame::dm(4)), Event::Closed(4));
    assert_eq!(s.state(3), ChannelState::Open);
    assert_eq!(s.close(64), Err(SessionError::DlciOutOfRange));
}

#[test]
fn signals_survive_their_octet() {
    for bits in 0..32u8 {
        let signals = V24Signals {
            flow_control: bits & 1 != 0,
            ready_to_communicate: bits & 2 != 0,
            ready_to_receive: bits & 4 != 0,
            incoming_call: bits & 8 != 0,
            data_valid: bits & 16 != 0,
        };
        assert_eq!(V24Signals::decode(signals.encode()), Some(signals));
    }
}

#[test]
fn a_control_message_with_a_value_is_read_back() {
    let mut buf = [0u8; 16];
    let n = control::encode(control::MSC, false, &[1, 2, 3], &mut buf).unwrap();
    assert_eq!(n, 5);
    assert_eq!(
        control::decode(&buf),
        Some((control::MSC, false, &[1u8, 2, 3][..]))
    );
    assert_eq!(
        control::msc(1, V24Signals::dte_ready(), true, &mut [0u8; 3]),
        Err(control::EncodeError)
    );
}

#[test]
fn both_sides_open_and_close_together() {
    for first in [false, true] {
        let mut here = Session::new();
        let mut there = Session::new();
        if first {
            there.open(5).unwrap();
        }
        let request = here.open(5).unwrap();
        let reply = match there.on_frame(&request) {
            Event::RemoteOpen { dlci: 5, reply } => reply,
            other => panic!("{other:?}"),
        };
        assert_eq!(here.on_frame(&reply), Event::Opened(5));
        assert_eq!((here.state(5), there.state(5)), (ChannelState::Open, ChannelState::Open));

        let request = here.close(5).unwrap();
        if first {
            there.force_closed(5);
        }
        let reply = match there.on_frame(&request) {
            Event::RemoteDisconnect { dlci: 5, reply } => reply,
            other => panic!("{other:?}"),
        };
        assert_eq!(here.on_frame(&reply), Event::Closed(5));
        assert_eq!((here.state(5), there.state(5)), (ChannelState::Closed, ChannelState::Closed));
    }
}

#[test]
fn a_damaged_check_octet_is_seen() {
    for frame in [Frame::uih(1, b"data"), Frame::sabm(0)] {
        let mut bytes = encode(&frame);
        let check = bytes.len() - 2;
        bytes[check] ^= 0x40;
        let mut d = Decoder::<64>::new();
        assert_eq!(feed(&mut d, &bytes), vec![Err(DecodeError::Fcs)]);
    }
}
