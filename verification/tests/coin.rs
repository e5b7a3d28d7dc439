use sim800l_gateway::coin;
use sim800l_gateway::coin::{
    credit, is_blocked, lookup, parse_block_mask, parse_total_block, Coin, Credit, LINES,
};

#[test]
fn parses_block_commands() {
    assert_eq!(parse_block_mask(""), Some(0));
    assert_eq!(parse_block_mask("   "), Some(0));
    assert_eq!(parse_block_mask("none"), Some(0));
    assert_eq!(parse_block_mask("NONE"), Some(0));
    assert_eq!(parse_block_mask("0"), Some(0));
    assert_eq!(parse_block_mask("all"), Some(0b111111));
    assert_eq!(parse_block_mask("ALL"), Some(0b111111));

    assert_eq!(parse_block_mask("1"), Some(0b000001));
    assert_eq!(parse_block_mask("6"), Some(0b100000));
    assert_eq!(parse_block_mask("1,3"), Some(0b000101));
    assert_eq!(parse_block_mask("1 3"), Some(0b000101));
    assert_eq!(parse_block_mask(" 2 , 4 "), Some(0b001010));
    assert_eq!(parse_block_mask("2,2"), Some(0b000010));
}

#[test]
fn rejects_bad_commands() {
    for bad in ["7", "0,1", "-1", "1,x", "первая", "1..3", "1;3"] {
        assert!(parse_block_mask(bad).is_none(), "принято: {bad}");
    }
}

#[test]
fn mask_addresses_lines_from_zero() {
    let mask = parse_block_mask("1,6").unwrap();
    assert!(is_blocked(mask, 0), "линия 1 — нулевой бит");
    assert!(is_blocked(mask, 5), "линия 6 — пятый бит");
    assert!(!is_blocked(mask, 1));
    assert!(!is_blocked(0xFF, LINES));
}

#[test]
fn parses_total_block_commands() {
    assert_eq!(parse_total_block("block"), Some(true));
    assert_eq!(parse_total_block("BLOCK"), Some(true));
    assert_eq!(parse_total_block(" accept "), Some(false));
    assert_eq!(parse_total_block("ACCEPT"), Some(false));
    for bad in ["on", "off", "1", "0", "", "all", "none", "blocked"] {
        assert!(parse_total_block(bad).is_none(), "принято: {bad}");
    }
}

#[test]
fn lookup_matches_whole_code() {
    const COINS: &[Coin] = &[
        Coin {
            mask: 0b000001,
            value: 142,
            name: "LVL 1",
        },
        Coin {
            mask: 0b000101,
            value: 100,
            name: "EUR 1",
        },
        Coin {
            mask: 0b000110,
            value: 100,
            name: "жетон",
        },
    ];

    assert_eq!(lookup(COINS, 0b000001).unwrap().name, "LVL 1");
    assert_eq!(lookup(COINS, 0b000101).unwrap().name, "EUR 1");
    assert_eq!(lookup(COINS, 0b000110).unwrap().value, 100);
    assert!(lookup(COINS, 0b000100).is_none(), "половина кода — не монета");
    assert!(lookup(COINS, 0b000111).is_none());
    assert!(lookup(COINS, 0).is_none(), "пустой код монетой не является");
}

#[test]
fn credit_accumulates_and_saturates() {
    let mut account = Credit::default();
    assert_eq!(credit(&account), 0);
    assert_eq!(coin::add(&mut account, 150), 150);
    assert_eq!(coin::add(&mut account, 50), 200);
    assert_eq!(credit(&account), 200);
    assert_eq!(coin::add(&mut account, u32::MAX), u32::MAX);
    assert_eq!(coin::add(&mut account, 1), u32::MAX);
}

#[test]
fn words_may_be_separated_loosely() {
    assert_eq!(parse_block_mask("\t1 ,, 2 \u{a0}"), Some(0b000011));
    assert_eq!(parse_block_mask("+5"), Some(0b010000));
    assert_eq!(parse_block_mask("00000000000000000000000004"), Some(0b001000));
    assert_eq!(parse_block_mask(","), Some(0));
    assert_eq!(parse_block_mask("0 0"), None);
    assert_eq!(parse_block_mask("99999999999999999999999"), None);
}

#[test]
fn a_list_blocks_exactly_its_lines() {
    for command in ["1", "2,5", "6 1 3", "all", "none"] {
        let mask = parse_block_mask(command).unwrap();
        for line in 0..LINES {
            let named = command == "all"
                || command.split([',', ' ']).any(|w| w == (line + 1).to_string());
            assert_eq!(is_blocked(mask, line), named, "{command} {line}");
        }
    }
}
