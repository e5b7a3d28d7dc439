use atat::digest::parser::urc_helper;
use atat::digest::ParseError as DigestError;
use atat::{DefaultDigester, DigestResult, Digester, Parser};
use sim800l_gateway::modem::{
    imsi_mcc, imsi_mnc, international, parse_raw_line, parse_shut_ok, parse_sms_prompt,
    sms_text_is_sendable, urc_tags, valid_phone, At, AtCommand, DeleteSms, DialPpp, DisableEcho, GetClock, GetGprsAttach,
    GetGprsRegistration, GetIccid, GetImsi, GetNetworkRegistration, GetOperator, GetPinStatus,
    GetSignalQuality, GetSmsStorage, Hangup, NewMessageIndex, ParseError, ReadSms, RegistrationStatus,
    SaveSettings, ScanOperators, SendSmsHeader, SetBaudRate, SetCmuxMode, SetFunctionality,
    SetGprsAttach, SetNetworkTime, SetPdpContext, SetSmsIndication, SetSmsTextMode,
    SetVerboseErrors, ShutIpStack, SmsBody, Urc,
};

fn ser<C: AtCommand>(c: &C) -> String {
    c.text()
}

/// Finds the messages that the modem sends of its own accord, by their tags.
struct Urcs;

impl Parser for Urcs {
    fn parse(buf: &[u8]) -> Result<(&[u8], usize), DigestError> {
        let tags = urc_tags();
        let (_, found) = atat::nom::branch::alt((
            urc_helper(tags[0].as_bytes()),
            urc_helper(tags[1].as_bytes()),
            urc_helper(tags[2].as_bytes()),
            urc_helper(tags[3].as_bytes()),
            urc_helper(tags[4].as_bytes()),
            urc_helper(tags[5].as_bytes()),
        ))(buf)?;
        Ok(found)
    }
}

fn new_message(storage: &str, index: u32) -> NewMessageIndex {
    NewMessageIndex {
        storage: atat::heapless::String::try_from(storage).unwrap(),
        index,
    }
}

fn digest_error(e: ParseError) -> DigestError {
    match e {
        ParseError::Incomplete => DigestError::Incomplete,
        ParseError::NoMatch => DigestError::NoMatch,
    }
}

fn shut_ok(buf: &[u8]) -> Result<(&[u8], usize), DigestError> {
    parse_shut_ok(buf).map_err(digest_error)
}

fn sms_prompt(buf: &[u8]) -> Result<(u8, usize), DigestError> {
    parse_sms_prompt(buf).map_err(digest_error)
}

#[test]
fn commands_serialize_as_expected() {
    assert_eq!(ser(&At), "AT\r");
    assert_eq!(ser(&DisableEcho), "ATE0\r");
    assert_eq!(ser(&SetVerboseErrors { n: 2 }), "AT+CMEE=2\r");
    assert_eq!(ser(&SetBaudRate { rate: 115200 }), "AT+IPR=115200\r");
    assert_eq!(ser(&SetFunctionality { fun: 1 }), "AT+CFUN=1\r");
    assert_eq!(ser(&GetPinStatus), "AT+CPIN?\r");
    assert_eq!(ser(&GetSignalQuality), "AT+CSQ\r");
    assert_eq!(ser(&GetNetworkRegistration), "AT+CREG?\r");
    assert_eq!(ser(&GetGprsRegistration), "AT+CGREG?\r");
    assert_eq!(ser(&GetGprsAttach), "AT+CGATT?\r");
    assert_eq!(ser(&SetGprsAttach { state: 1 }), "AT+CGATT=1\r");
    assert_eq!(ser(&ShutIpStack), "AT+CIPSHUT\r");
    assert_eq!(ser(&SaveSettings), "AT&W\r");
    assert_eq!(
        ser(&SetCmuxMode {
            mode: 0,
            subset: 0,
            port_speed: 5,
            n1: 127
        }),
        "AT+CMUX=0,0,5,127\r"
    );
    assert_eq!(
        ser(&SetPdpContext {
            cid: 1,
            pdp_type: "IP",
            apn: "internet"
        }),
        "AT+CGDCONT=1,\"IP\",\"internet\"\r"
    );
    assert_eq!(ser(&DialPpp { number: "*99***1#" }), "ATD*99***1#\r");
    assert_eq!(ser(&DialPpp { number: "*99#" }), "ATD*99#\r");
    assert_eq!(ser(&Hangup), "ATH\r");
}

#[test]
fn sms_commands_and_notification() {
    assert_eq!(ser(&SetSmsTextMode { mode: 1 }), "AT+CMGF=1\r");
    assert_eq!(
        ser(&SetSmsIndication {
            mode: 2,
            mt: 1,
            bm: 0,
            ds: 0,
            bfr: 0
        }),
        "AT+CNMI=2,1,0,0,0\r"
    );
    assert_eq!(ser(&GetSmsStorage), "AT+CPMS?\r");
    assert_eq!(ser(&ReadSms { index: 3 }), "AT+CMGR=3\r");

    let r = parse_raw_line(b"+CPMS: \"SM\",3,30,\"SM\",3,30,\"SM\",3,30").unwrap();
    assert!(r.text.as_str().contains("3,30"));
    assert_eq!(ser(&DeleteSms { index: 3 }), "AT+CMGD=3\r");

    let urc = Urc::parse(b"+CMTI: \"SM\",3", Some(new_message("SM", 3))).unwrap();
    match urc {
        Urc::NewMessage(n) => {
            assert_eq!(n.storage.as_str(), "SM");
            assert_eq!(n.index, 3);
        }
        other => panic!("{:?}", other),
    }

    let body = b"+CMGR: \"REC UNREAD\",\"+37120000000\",\"\",\"26/08/15,12:00:00+12\"\r\nHello";
    let r = parse_raw_line(body).unwrap();
    assert!(r.text.as_str().contains("+37120000000"));
    assert!(r.text.as_str().ends_with("Hello"));
}

#[test]
fn commands_for_the_clock() {
    assert_eq!(ser(&SetNetworkTime { mode: 1 }), "AT+CLTS=1\r");
    assert_eq!(ser(&GetClock), "AT+CCLK?\r");
    assert_eq!(ser(&ReadSms { index: u32::MAX }), "AT+CMGR=4294967295\r");
}

#[test]
fn cops_parses_both_shapes() {
    assert_eq!(ser(&GetOperator), "AT+COPS?\r");
    assert_eq!(ser(&ScanOperators), "AT+COPS=?\r");

    let r = parse_raw_line(b"+COPS: 0").unwrap();
    assert_eq!(r.text.as_str(), "+COPS: 0");

    let r = parse_raw_line(b"+COPS: 0,0,\"MegaFon\"").unwrap();
    assert_eq!(r.text.as_str(), "+COPS: 0,0,\"MegaFon\"");

    let r = parse_raw_line(
        b"+COPS: (2,\"MegaFon\",\"MegaFon\",\"25002\"),(1,\"MTS\",\"MTS\",\"25001\")",
    )
    .unwrap();
    assert!(r.text.as_str().contains("25002"));
    assert!(r.text.as_str().contains("MTS"));
}

#[test]
fn sim_identity_commands() {
    assert_eq!(ser(&GetImsi), "AT+CIMI\r");
    assert_eq!(ser(&GetIccid), "AT+CCID\r");

    let r = parse_raw_line(b"247010123456789").unwrap();
    assert_eq!(r.text.as_str(), "247010123456789");

    let r = parse_raw_line(b"8937101234567890123").unwrap();
    assert_eq!(r.text.as_str(), "8937101234567890123");
}

#[test]
fn imsi_splits_into_mcc_and_mnc() {
    assert_eq!(imsi_mcc("247020123456789"), "247");
    assert_eq!(imsi_mnc("247020123456789"), "02");

    assert_eq!(imsi_mcc("310260123456789"), "310");
    assert_eq!(imsi_mnc("310260123456789"), "260");

    assert_eq!(imsi_mcc(""), "???");
    assert_eq!(imsi_mnc(""), "??");
    assert_eq!(imsi_mnc("24"), "??");
}

#[test]
fn imsi_is_cut_at_characters_only() {
    assert_eq!(imsi_mcc("юю"), "???");
    assert_eq!(imsi_mcc("2юx"), "2ю");
    assert_eq!(imsi_mnc("247ю"), "ю");
    assert_eq!(imsi_mnc("2470ю"), "??");
    assert_eq!(imsi_mnc("30212"), "??");
    assert_eq!(imsi_mnc("302123"), "123");
    assert_eq!(imsi_mnc("24712"), "12");
    assert_eq!(imsi_mnc("3ю123"), "12");
}

#[test]
fn north_america_has_long_operator_codes() {
    assert_eq!(imsi_mcc("334020123456789"), "334");
    assert_eq!(imsi_mnc("334020123456789"), "020");
    assert_eq!(imsi_mnc("300001"), "001");
    assert_eq!(imsi_mnc("399999"), "999");
    assert_eq!(imsi_mnc("299999"), "99");
    assert_eq!(imsi_mnc("400001"), "00");
    assert_eq!(imsi_mnc("3x0001"), "00");
}

#[test]
fn sms_send_is_two_stage() {
    assert_eq!(
        ser(&SendSmsHeader {
            number: "+37120000000"
        }),
        "AT+CMGS=\"+37120000000\"\r"
    );

    let mut buf = vec![0u8; 256];
    let n = SmsBody { text: "Hello" }.write(&mut buf);
    assert_eq!(&buf[..n], b"Hello\x1a", "ни AT, ни \\r — только текст и Ctrl-Z");

    let r = SmsBody { text: "Hello" }.parse(b"+CMGS: 42").unwrap();
    assert_eq!(r.text.as_str(), "+CMGS: 42");
}

#[test]
fn a_long_sms_body_is_cut() {
    let long = "y".repeat(500);
    let mut buf = vec![0x55u8; 170];
    let n = SmsBody { text: &long }.write(&mut buf);
    assert_eq!(n, 161);
    assert!(buf[..160].iter().all(|&b| b == b'y'));
    assert_eq!(buf[160], 0x1A);
    assert!(buf[161..].iter().all(|&b| b == 0x55));
}

#[test]
fn prompt_is_recognised() {
    let mut d = DefaultDigester::<Urcs>::new().with_custom_prompt(sms_prompt);

    let (res, used) = d.digest(b"\r\n> ");
    assert!(matches!(res, DigestResult::Prompt(b'>')), "{:?}", res);
    assert_eq!(used, 4);

    let (res, _) = d.digest(b"> ");
    assert!(matches!(res, DigestResult::Prompt(b'>')), "{:?}", res);

    let (res, _) = d.digest(b"\r\n+CMGS: 42\r\n\r\nOK\r\n");
    match res {
        DigestResult::Response(Ok(body)) => assert_eq!(body, b"+CMGS: 42"),
        other => panic!("{:?}", other),
    }
}

#[test]
fn half_a_prompt_is_incomplete() {
    assert_eq!(parse_sms_prompt(b"> x"), Ok((b'>', 2)));
    assert_eq!(parse_sms_prompt(b"\r\n> "), Ok((b'>', 4)));
    assert_eq!(parse_sms_prompt(b">"), Err(ParseError::Incomplete));
    assert_eq!(parse_sms_prompt(b"\r\n>"), Err(ParseError::Incomplete));
    assert_eq!(parse_sms_prompt(b""), Err(ParseError::NoMatch));
    assert_eq!(parse_sms_prompt(b"\r\n"), Err(ParseError::NoMatch));
    assert_eq!(parse_sms_prompt(b">x"), Err(ParseError::NoMatch));
}

#[test]
fn phone_numbers_are_digits_only() {
    assert!(valid_phone("37120000000"));
    assert!(valid_phone("12345"));
    for bad in ["+37120000000", "371 2000", "1234", "", "371-20000000", "abcde"] {
        assert!(!valid_phone(bad), "принят: {bad}");
    }
    assert!(valid_phone(&"1".repeat(20)));
    assert!(!valid_phone(&"1".repeat(21)));
}

#[test]
fn only_plain_ascii_is_sendable() {
    assert!(sms_text_is_sendable("Coin jam on line 3"));
    assert!(sms_text_is_sendable(&"x".repeat(160)));

    assert!(!sms_text_is_sendable(""), "пустое отправлять незачем");
    assert!(!sms_text_is_sendable(&"x".repeat(161)), "не влезает в одно");
    assert!(!sms_text_is_sendable("Замятие монеты"), "кириллица");
    assert!(!sms_text_is_sendable("текст\u{1a}хвост"), "Ctrl-Z оборвёт");
    assert!(!sms_text_is_sendable("a\u{1b}b"), "Esc отменит отправку");
}

#[test]
fn raw_line_truncates_instead_of_panicking() {
    let long = vec![b'x'; 4096];
    let r = parse_raw_line(&long).unwrap();
    assert_eq!(r.text.len(), 384, "должно обрезаться по вместимости");
}

#[test]
fn raw_line_truncation_keeps_utf8_intact() {
    let long = "ю".repeat(4096);
    let r = parse_raw_line(long.as_bytes()).unwrap();
    assert_eq!(r.text.chars().count(), 192);
    assert_eq!(r.text.len(), 384);
}

#[test]
fn raw_line_is_cut_before_a_character_that_does_not_fit() {
    let mut long = "x".repeat(383);
    long.push('ю');
    let r = parse_raw_line(long.as_bytes()).unwrap();
    assert_eq!(r.text.len(), 383);
    assert_eq!(r.as_str(), &long[..383]);
    assert_eq!(parse_raw_line(&[b'x', 0xFF]).err().unwrap().valid_up_to(), 1);
    assert_eq!(parse_raw_line(b"").unwrap().as_str(), "");
}

#[test]
fn shut_ok_is_recognised_as_success() {
    let mut d = DefaultDigester::<Urcs>::new().with_custom_success(shut_ok);

    let (res, used) = d.digest(b"\r\nSHUT OK\r\n");
    match res {
        DigestResult::Response(Ok(body)) => assert!(body.is_empty()),
        other => panic!("{:?}", other),
    }
    assert_eq!(used, 11, "токен должен быть съеден целиком");

    let mut plain = DefaultDigester::<Urcs>::new();
    let (res, used) = plain.digest(b"\r\nSHUT OK\r\n");
    assert!(matches!(res, DigestResult::None), "{:?}", res);
    assert_eq!(used, 0, "байты остались бы в буфере");

    let (res, _) = d.digest(b"\r\n+CSQ: 24,0\r\n\r\nOK\r\n");
    match res {
        DigestResult::Response(Ok(body)) => assert_eq!(body, b"+CSQ: 24,0"),
        other => panic!("{:?}", other),
    }
    let (res, _) = d.digest(b"\r\nCONNECT\r\n");
    assert!(matches!(res, DigestResult::Response(Ok(_))), "{:?}", res);
}

#[test]
fn stale_shut_ok_would_break_the_next_command() {
    let mut plain = DefaultDigester::<Urcs>::new();
    let (res, _) = plain.digest(b"\r\nSHUT OK\r\n\r\nCONNECT\r\n");
    match res {
        DigestResult::Response(Ok(body)) => assert_eq!(body, b"SHUT OK"),
        other => panic!("{:?}", other),
    }

    let mut d = DefaultDigester::<Urcs>::new().with_custom_success(shut_ok);
    let (_, used) = d.digest(b"\r\nSHUT OK\r\n\r\nCONNECT\r\n");
    let (res, _) = d.digest(&b"\r\nSHUT OK\r\n\r\nCONNECT\r\n"[used..]);
    match res {
        DigestResult::Response(Ok(body)) => assert!(body.is_empty()),
        other => panic!("{:?}", other),
    }
}

#[test]
fn shut_ok_has_to_come_first() {
    assert_eq!(parse_shut_ok(b"\r\nSHUT OK\r\nmore"), Ok((&b""[..], 11)));
    assert_eq!(parse_shut_ok(b"x\r\nSHUT OK\r\n"), Err(ParseError::NoMatch));
    assert_eq!(parse_shut_ok(b"\r\nSHUT OK\r"), Err(ParseError::NoMatch));
}

#[test]
fn home_and_roaming_are_registered() {
    for stat in 0..=255u8 {
        let status = RegistrationStatus { n: 0, stat };
        assert_eq!(status.is_registered(), stat == 1 || stat == 5);
    }
}

#[test]
fn cmti_does_not_shadow_cmgr() {
    let mut d = DefaultDigester::<Urcs>::new().with_custom_success(shut_ok);

    let (res, _) = d.digest(b"\r\n+CMTI: \"SM\",3\r\n");
    assert!(matches!(res, DigestResult::Urc(_)), "{:?}", res);

    let (res, _) = d.digest(b"\r\n+CMGR: \"REC UNREAD\",\"+371\",\"\",\"x\"\r\nHi\r\n\r\nOK\r\n");
    assert!(matches!(res, DigestResult::Response(Ok(_))), "{:?}", res);
}

#[test]
fn digester_handles_connect_and_urcs() {
    let mut d = DefaultDigester::<Urcs>::default();

    let (res, used) = d.digest(b"\r\nCONNECT\r\n");
    assert!(matches!(res, DigestResult::Response(Ok(_))), "{:?}", res);
    assert_eq!(used, 11);

    let (res, _) = d.digest(b"\r\n+CSQ: 24,0\r\n\r\nOK\r\n");
    match res {
        DigestResult::Response(Ok(b)) => assert_eq!(b, b"+CSQ: 24,0"),
        other => panic!("{:?}", other),
    }

    let (res, _) = d.digest(b"\r\nERROR\r\n");
    assert!(matches!(res, DigestResult::Response(Err(_))), "{:?}", res);

    let (res, _) = d.digest(b"\r\nRDY\r\n");
    assert!(matches!(res, DigestResult::Urc(b"RDY")), "{:?}", res);

    let (res, _) = d.digest(b"\r\n+PDP: DEACT\r\n");
    assert!(matches!(res, DigestResult::Urc(_)), "{:?}", res);
}

#[test]
fn urc_tags_do_not_shadow_command_responses() {
    let mut d = DefaultDigester::<Urcs>::default();
    for probe in [
        &b"\r\n+CREG: 0,1\r\n\r\nOK\r\n"[..],
        &b"\r\n+CGREG: 0,1\r\n\r\nOK\r\n"[..],
        &b"\r\n+CSQ: 24,0\r\n\r\nOK\r\n"[..],
        &b"\r\n+CPIN: READY\r\n\r\nOK\r\n"[..],
        &b"\r\n+CGATT: 1\r\n\r\nOK\r\n"[..],
    ] {
        let (res, _) = d.digest(probe);
        assert!(
            matches!(res, DigestResult::Response(Ok(_))),
            "ответ разобран как URC: {:?}",
            res
        );
    }
}

#[test]
fn urc_enum_maps_tags() {
    assert!(matches!(Urc::parse(b"RDY", None), Some(Urc::Ready)));
    assert!(matches!(Urc::parse(b"Call Ready", None), Some(Urc::CallReady)));
    assert!(matches!(Urc::parse(b"SMS Ready", None), Some(Urc::SmsReady)));
    assert!(matches!(
        Urc::parse(b"NORMAL POWER DOWN", None),
        Some(Urc::PowerDown)
    ));
    assert!(matches!(
        Urc::parse(b"+PDP: DEACT", None),
        Some(Urc::PdpDeactivated)
    ));
    assert!(Urc::parse(b"+CSQ: 24,0", None).is_none());
}

#[test]
fn a_message_needs_its_whole_tag() {
    for line in [&b"RD"[..], b"RDYX", b"rdy", b"", b":", b"+CMTI", b" RDY"] {
        assert!(Urc::parse(line, None).is_none(), "{line:?}");
    }
    assert!(Urc::parse(b"+CMTI: garbage", None).is_none());
    assert!(matches!(Urc::parse(b"RDY: 1", None), Some(Urc::Ready)));
    for tag in urc_tags() {
        assert!(Urc::parse(tag.as_bytes(), Some(new_message("SM", 1))).is_some(), "{tag}");
    }
}

#[test]
fn numbers_get_their_plus_back() {
    assert_eq!(international("37120000000"), "+37120000000");
    assert_eq!(
        ser(&SendSmsHeader { number: &international("37120000000") }),
        "AT+CMGS=\"+37120000000\"\r"
    );
}
