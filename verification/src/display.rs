//! What the screen shows.
//!
//! ```text
//! | 12:34        85%    bars |  time, battery, signal scale
//! | 2026-08-16               |
//! | Кредит 1.50              |  money put in
//! | -73dBm MQTT + 0/2        |  failures: MQTT / link
//! ```
//!
//! The two counters are no ornament: a link that falls every half minute looks
//! sound at a lucky moment.

use vstd::prelude::*;

use crate::bounded;
use crate::bounded::Text;
use crate::clock;
use crate::clock::{DateTime, LastTime};
use crate::health;
use crate::health::Drops;
use crate::text;

verus! {

/// Addresses at which a screen is looked for: that of the factory, and that of
/// a moved jumper.
pub open spec fn candidate_addresses() -> Seq<u8> {
    seq![0x3Cu8, 0x3D]
}

/// The address to try next, after `tried` of them have not answered.
pub fn candidate_address(tried: usize) -> (r: Option<u8>)
    ensures
        r == (if tried < candidate_addresses().len() {
            Some(candidate_addresses()[tried as int])
        } else {
            None::<u8>
        }),
{
    match tried {
        0 => Some(0x3C),
        1 => Some(0x3D),
        _ => None,
    }
}

/// How often the screen is drawn anew, in seconds.
pub const REFRESH_SECS: u64 = 1;

/// Number of bars of the signal scale.
pub const BAR_COUNT: i32 = 5;

/// Where the charge of the battery is written.
pub const BATTERY_X: i32 = 58;

/// Bytes in which the lines are written.
pub const TIME_SIZE: usize = 8;

pub const DATE_SIZE: usize = 16;

pub const CHARGE_SIZE: usize = 8;

pub const CREDIT_SIZE: usize = 40;

pub const STATUS_SIZE: usize = 32;

/// One bar of the signal scale: its box, and whether it is filled or only
/// outlined.
#[derive(Debug, Clone, Copy, PartialEq, Eq, Structural)]
pub struct Bar {
    pub x: i32,
    pub y: i32,
    pub width: u32,
    pub height: u32,
    pub filled: bool,
}

/// Bar number `index` of the scale: five columns in the upper right corner that
/// grow to the right, on one baseline.
pub open spec fn bar_at(index: int, bars: u8) -> Bar {
    Bar {
        x: (93 + 7 * index) as i32,
        y: (20 - (4 + 3 * index)) as i32,
        width: 5,
        height: (4 + 3 * index) as u32,
        filled: index < bars,
    }
}

/// The bars of the scale. An outline in place of nothing shows how many there
/// are in all, so that a weak signal does not look like a dead screen.
pub fn draw_signal(bars: u8) -> (r: [Bar; 5])
    ensures
        forall|i: int| 0 <= i < 5 ==> #[trigger] r@[i] == bar_at(i, bars),
{
    let empty = Bar { x: 0, y: 0, width: 0, height: 0, filled: false };
    let mut scale: [Bar; 5] = [empty; 5];
    let total_width: i32 = BAR_COUNT * 5 + (BAR_COUNT - 1) * 2;
    let left: i32 = 126 - total_width;
    let mut i: usize = 0;
    while i < 5
        invariant
            i <= 5,
            left == 93,
            forall|k: int| 0 <= k < i ==> #[trigger] scale@[k] == bar_at(k, bars),
        decreases 5 - i,
    {
        let index: i32 = i as i32;
        let height: i32 = 4 + index * 3;
        scale[i] = Bar {
            x: left + index * 7,
            y: 20 - height,
            width: 5,
            height: height as u32,
            filled: index < bars as i32,
        };
        i = i + 1;
    }
    scale
}

/// The scale stays on the screen, its bars do not touch, and as many of them
/// are filled as there are divisions.
pub proof fn law_bars_fit_the_screen(i: int, j: int, bars: u8)
    requires
        0 <= i < j < 5,
    ensures
        0 <= bar_at(i, bars).x,
        bar_at(i, bars).x + bar_at(i, bars).width < bar_at(j, bars).x,
        bar_at(j, bars).x + bar_at(j, bars).width <= 126,
        0 <= bar_at(j, bars).y,
        bar_at(i, bars).y + bar_at(i, bars).height == 20,
        bar_at(i, bars).height < bar_at(j, bars).height,
        bar_at(j, bars).filled ==> bar_at(i, bars).filled,
{
}

/// What the screen is drawn from.
#[derive(Debug, Clone, Copy, PartialEq, Eq, Structural)]
pub struct Status {
    pub time: LastTime,
    /// Charge of the battery in percent, `None` without a gauge.
    pub charge: Option<u8>,
    /// `<rssi>` of `+CSQ`.
    pub rssi: u8,
    /// Money put in.
    pub credit: u32,
    /// Whether the whole acceptor is blocked.
    pub blocked: bool,
    /// Whether the broker is connected.
    pub connected: bool,
    pub drops: Drops,
}

/// The lines and the scale of a screen.
pub struct Screen {
    pub time: Text,
    pub date: Text,
    pub charge: Text,
    pub bars: [Bar; 5],
    pub credit: Text,
    pub status: Text,
}

/// The time that may be shown: one that the network sent.
pub open spec fn shown_time(memory: LastTime) -> Option<DateTime> {
    match clock::remembered(memory) {
        Some(now) => if clock::plausible(now) {
            Some(now)
        } else {
            None
        },
        None => None,
    }
}

/// The clock, or dashes while the network has not sent the time: a factory date
/// would be a lie that looks true.
pub open spec fn time_line(memory: LastTime) -> Seq<char> {
    match shown_time(memory) {
        Some(now) => text::padded(now.hour as nat, 2) + ":"@ + text::padded(now.minute as nat, 2),
        None => "--:--"@,
    }
}

/// The date. Until the network has sent the time there is none to show.
pub open spec fn date_line(memory: LastTime) -> Seq<char> {
    match shown_time(memory) {
        Some(now) => text::padded(now.year as nat, 4) + "-"@ + text::padded(now.month as nat, 2)
            + "-"@ + text::padded(now.day as nat, 2),
        None => Seq::empty(),
    }
}

/// The charge in percent, or a dash: an empty place would look as if there were
/// no such figure.
pub open spec fn charge_line(charge: Option<u8>) -> Seq<char> {
    match charge {
        Some(percent) => text::decimal(percent as nat) + "%"@,
        None => "--%"@,
    }
}

/// Money put in, in whole units and hundredths.
pub open spec fn credit_amount(credit: u32) -> Seq<char> {
    "Кредит "@ + text::decimal((credit / 100) as nat) + "."@ + text::padded(
        (credit % 100) as nat,
        2,
    )
}

/// Money put in, with a mark beside it while the whole acceptor is blocked: a
/// closed acceptor that does not show it looks broken.
pub open spec fn credit_line(credit: u32, blocked: bool) -> Seq<char> {
    if blocked {
        credit_amount(credit) + " ЗАКРЫТО"@
    } else {
        credit_amount(credit)
    }
}

/// A number in decimal, with a minus sign if it is below zero.
pub open spec fn signed_decimal(n: int) -> Seq<char> {
    if n < 0 {
        "-"@ + text::decimal((-n) as nat)
    } else {
        text::decimal(n as nat)
    }
}

/// Signal level, state of the broker, and the two counters of failures.
pub open spec fn status_line(rssi: u8, connected: bool, drops: Drops) -> Seq<char> {
    let level = if clock::dbm(rssi) == 0 {
        "--"@
    } else {
        signed_decimal(clock::dbm(rssi))
    };
    let broker = if connected {
        "MQTT +"@
    } else {
        "MQTT -"@
    };
    level + "dBm "@ + broker + " "@ + health::short_text(drops.mqtt) + "/"@ + health::short_text(
        drops.link,
    )
}

// ---------------------------------------------------------------------------
// Room for the lines
// ---------------------------------------------------------------------------

/// A short number takes one byte per digit.
proof fn lemma_two_digits(n: nat)
    requires
        n < 100,
    ensures
        text::padded(n, 2).len() == 2,
        bounded::byte_len(text::padded(n, 2)) == 2,
{
    reveal_with_fuel(text::decimal, 3);
    text::lemma_decimal_is_digits(n);
    bounded::lemma_byte_len_ascii(text::padded(n, 2));
}

proof fn lemma_year(year: u16)
    ensures
        bounded::byte_len(text::padded(year as nat, 4)) <= 5,
{
    reveal_with_fuel(text::decimal, 6);
    text::lemma_decimal_is_digits(year as nat);
    bounded::lemma_byte_len_ascii(text::padded(year as nat, 4));
}

proof fn lemma_time_fits(now: DateTime)
    requires
        clock::plausible(now),
    ensures
        bounded::byte_len(
            text::padded(now.hour as nat, 2) + ":"@ + text::padded(now.minute as nat, 2),
        ) <= TIME_SIZE,
        bounded::byte_len(
            text::padded(now.year as nat, 4) + "-"@ + text::padded(now.month as nat, 2) + "-"@
                + text::padded(now.day as nat, 2),
        ) <= DATE_SIZE,
{
    reveal_strlit(":");
    reveal_strlit("-");
    bounded::lemma_byte_len_ascii(":"@);
    bounded::lemma_byte_len_ascii("-"@);
    lemma_two_digits(now.hour as nat);
    lemma_two_digits(now.minute as nat);
    lemma_two_digits(now.month as nat);
    lemma_two_digits(now.day as nat);
    lemma_year(now.year);
    let hour = text::padded(now.hour as nat, 2);
    bounded::lemma_byte_len_add(hour, ":"@);
    bounded::lemma_byte_len_add(hour + ":"@, text::padded(now.minute as nat, 2));
    let year = text::padded(now.year as nat, 4);
    let month = text::padded(now.month as nat, 2);
    bounded::lemma_byte_len_add(year, "-"@);
    bounded::lemma_byte_len_add(year + "-"@, month);
    bounded::lemma_byte_len_add(year + "-"@ + month, "-"@);
    bounded::lemma_byte_len_add(year + "-"@ + month + "-"@, text::padded(now.day as nat, 2));
}

proof fn lemma_charge_fits(charge: Option<u8>)
    ensures
        bounded::byte_len(charge_line(charge)) <= CHARGE_SIZE,
{
    reveal_strlit("%");
    reveal_strlit("--%");
    bounded::lemma_byte_len_ascii("%"@);
    bounded::lemma_byte_len_ascii("--%"@);
    match charge {
        Some(percent) => {
            reveal_with_fuel(text::decimal, 4);
            text::lemma_decimal_is_digits(percent as nat);
            bounded::lemma_byte_len_add(text::decimal(percent as nat), "%"@);
        },
        None => {},
    }
}

/// Letters of the Cyrillic alphabet take two bytes each.
proof fn lemma_byte_len_two_byte(s: Seq<char>)
    requires
        forall|i: int| 0 <= i < s.len() ==> 0x80 <= #[trigger] s[i] as u32 && (s[i] as u32) < 0x800,
    ensures
        bounded::byte_len(s) == 2 * s.len(),
    decreases s.len(),
{
    if s.len() > 0 {
        lemma_byte_len_two_byte(s.drop_first());
    }
}

proof fn lemma_credit_fits(credit: u32, blocked: bool)
    ensures
        bounded::byte_len(credit_line(credit, blocked)) <= CREDIT_SIZE,
{
    reveal_strlit(" ЗАКРЫТО");
    let mark = " ЗАКРЫТО"@;
    let closed_word = mark.skip(1);
    assert(mark =~= seq![' '] + closed_word);
    lemma_byte_len_two_byte(closed_word);
    bounded::lemma_byte_len_add(seq![' '], closed_word);
    bounded::lemma_byte_len_add(credit_amount(credit), mark);
    reveal_strlit("Кредит ");
    reveal_strlit(".");
    let label = "Кредит "@;
    let word = label.take(6);
    let space = seq![' '];
    assert(label =~= word + space);
    lemma_byte_len_two_byte(word);
    bounded::lemma_byte_len_ascii(space);
    bounded::lemma_byte_len_add(word, space);
    bounded::lemma_byte_len_ascii("."@);
    let units = text::decimal((credit / 100) as nat);
    text::lemma_decimal_is_digits((credit / 100) as nat);
    assert(units.len() <= 8) by {
        reveal_with_fuel(text::decimal, 9);
    }
    lemma_two_digits((credit % 100) as nat);
    bounded::lemma_byte_len_add(label, units);
    bounded::lemma_byte_len_add(label + units, "."@);
    bounded::lemma_byte_len_add(label + units + "."@, text::padded((credit % 100) as nat, 2));
}

proof fn lemma_short_fits(count: u32)
    ensures
        bounded::byte_len(health::short_text(count)) <= 3,
{
    health::law_short_is_narrow_and_true(count);
    if count > 99 {
        reveal_strlit(">99");
        bounded::lemma_byte_len_ascii(">99"@);
    } else {
        text::lemma_decimal_is_digits(count as nat);
    }
}

proof fn lemma_level_fits(n: int)
    requires
        -999 <= n <= 999,
    ensures
        bounded::byte_len(signed_decimal(n)) <= 4,
{
    reveal_with_fuel(text::decimal, 4);
    reveal_strlit("-");
    bounded::lemma_byte_len_ascii("-"@);
    if n < 0 {
        text::lemma_decimal_is_digits((-n) as nat);
        bounded::lemma_byte_len_add("-"@, text::decimal((-n) as nat));
    } else {
        text::lemma_decimal_is_digits(n as nat);
    }
}

proof fn lemma_status_fits(rssi: u8, connected: bool, drops: Drops)
    ensures
        bounded::byte_len(status_line(rssi, connected, drops)) <= STATUS_SIZE,
{
    reveal_strlit("--");
    reveal_strlit("dBm ");
    reveal_strlit("MQTT +");
    reveal_strlit("MQTT -");
    reveal_strlit(" ");
    reveal_strlit("/");
    bounded::lemma_byte_len_ascii("--"@);
    bounded::lemma_byte_len_ascii("dBm "@);
    bounded::lemma_byte_len_ascii("MQTT +"@);
    bounded::lemma_byte_len_ascii("MQTT -"@);
    bounded::lemma_byte_len_ascii(" "@);
    bounded::lemma_byte_len_ascii("/"@);
    lemma_level_fits(clock::dbm(rssi));
    lemma_short_fits(drops.mqtt);
    lemma_short_fits(drops.link);
    let level = if clock::dbm(rssi) == 0 {
        "--"@
    } else {
        signed_decimal(clock::dbm(rssi))
    };
    let broker = if connected {
        "MQTT +"@
    } else {
        "MQTT -"@
    };
    let a = level + "dBm "@;
    let b = a + broker;
    let c = b + " "@;
    let d = c + health::short_text(drops.mqtt);
    let e = d + "/"@;
    bounded::lemma_byte_len_add(level, "dBm "@);
    bounded::lemma_byte_len_add(a, broker);
    bounded::lemma_byte_len_add(b, " "@);
    bounded::lemma_byte_len_add(c, health::short_text(drops.mqtt));
    bounded::lemma_byte_len_add(d, "/"@);
    bounded::lemma_byte_len_add(e, health::short_text(drops.link));
}

// ---------------------------------------------------------------------------
// Writing the lines
// ---------------------------------------------------------------------------

/// A line of capacity `N` that holds what fits in it.
fn line<const N: usize>(content: &str) -> (r: Text)
    ensures
        bounded::byte_len(content@) <= N ==> r@ == content@,
        bounded::text_capacity(r) == N,
{
    let mut text = Text::new::<N>();
    proof {
        bounded::lemma_byte_len_empty();
    }
    text.push_str(content);
    assert(Seq::<char>::empty() + content@ =~= content@);
    text
}

fn write_time(now: &DateTime) -> (r: Text)
    requires
        clock::plausible(*now),
    ensures
        r@ == text::padded(now.hour as nat, 2) + ":"@ + text::padded(now.minute as nat, 2),
{
    let mut shown = String::new();
    text::append_padded(&mut shown, now.hour as u64, 2);
    shown.append(":");
    text::append_padded(&mut shown, now.minute as u64, 2);
    proof {
        lemma_time_fits(*now);
        assert(shown@ =~= text::padded(now.hour as nat, 2) + ":"@ + text::padded(
            now.minute as nat,
            2,
        ));
    }
    line::<TIME_SIZE>(shown.as_str())
}

fn write_date(now: &DateTime) -> (r: Text)
    requires
        clock::plausible(*now),
    ensures
        r@ == text::padded(now.year as nat, 4) + "-"@ + text::padded(now.month as nat, 2) + "-"@
            + text::padded(now.day as nat, 2),
{
    let mut shown = String::new();
    text::append_padded(&mut shown, now.year as u64, 4);
    shown.append("-");
    text::append_padded(&mut shown, now.month as u64, 2);
    shown.append("-");
    text::append_padded(&mut shown, now.day as u64, 2);
    proof {
        lemma_time_fits(*now);
        assert(shown@ =~= text::padded(now.year as nat, 4) + "-"@ + text::padded(
            now.month as nat,
            2,
        ) + "-"@ + text::padded(now.day as nat, 2));
    }
    line::<DATE_SIZE>(shown.as_str())
}

fn write_charge(charge: Option<u8>) -> (r: Text)
    ensures
        r@ == charge_line(charge),
{
    proof {
        lemma_charge_fits(charge);
    }
    match charge {
        Some(percent) => {
            let mut shown = String::new();
            text::append_decimal(&mut shown, percent as u64);
            shown.append("%");
            assert(shown@ =~= charge_line(charge));
            line::<CHARGE_SIZE>(shown.as_str())
        },
        None => line::<CHARGE_SIZE>("--%"),
    }
}

fn write_credit(credit: u32, blocked: bool) -> (r: Text)
    ensures
        r@ == credit_line(credit, blocked),
{
    let mut shown = String::from_str("Кредит ");
    text::append_decimal(&mut shown, (credit / 100) as u64);
    shown.append(".");
    text::append_padded(&mut shown, (credit % 100) as u64, 2);
    assert(shown@ =~= credit_amount(credit));
    if blocked {
        shown.append(" ЗАКРЫТО");
    }
    proof {
        lemma_credit_fits(credit, blocked);
        assert(shown@ =~= credit_line(credit, blocked));
    }
    line::<CREDIT_SIZE>(shown.as_str())
}

fn write_status(rssi: u8, connected: bool, drops: &Drops) -> (r: Text)
    ensures
        r@ == status_line(rssi, connected, *drops),
{
    let dbm: i16 = clock::rssi_dbm(rssi);
    let mut shown = String::new();
    if dbm == 0 {
        shown.append("--");
    } else if dbm < 0 {
        shown.append("-");
        text::append_decimal(&mut shown, (-dbm) as u64);
    } else {
        text::append_decimal(&mut shown, dbm as u64);
    }
    let ghost level = if clock::dbm(rssi) == 0 {
        "--"@
    } else {
        signed_decimal(clock::dbm(rssi))
    };
    assert(shown@ =~= level);
    shown.append("dBm ");
    if connected {
        shown.append("MQTT +");
    } else {
        shown.append("MQTT -");
    }
    shown.append(" ");
    let mqtt = health::short(health::mqtt_drops(drops)).text();
    shown.append(mqtt.as_str());
    shown.append("/");
    let link = health::short(health::link_drops(drops)).text();
    shown.append(link.as_str());
    proof {
        lemma_status_fits(rssi, connected, *drops);
    }
    line::<STATUS_SIZE>(shown.as_str())
}

/// Composes the whole screen.
pub fn render(status: &Status) -> (r: Screen)
    ensures
        r.time@ == time_line(status.time),
        r.date@ == date_line(status.time),
        r.charge@ == charge_line(status.charge),
        forall|i: int| 0 <= i < 5 ==> #[trigger] r.bars@[i] == bar_at(i, clock::bars(status.rssi)),
        r.credit@ == credit_line(status.credit, status.blocked),
        r.status@ == status_line(status.rssi, status.connected, status.drops),
{
    let known: Option<DateTime> = match clock::last(&status.time) {
        Some(now) => {
            if now.is_plausible() {
                Some(now)
            } else {
                None
            }
        },
        None => None,
    };
    let (time, date) = match known {
        Some(now) => (write_time(&now), write_date(&now)),
        None => {
            proof {
                reveal_strlit("--:--");
                bounded::lemma_byte_len_ascii("--:--"@);
            }
            (line::<TIME_SIZE>("--:--"), Text::new::<DATE_SIZE>())
        },
    };
    Screen {
        time,
        date,
        charge: write_charge(status.charge),
        bars: draw_signal(clock::signal_bars(status.rssi)),
        credit: write_credit(status.credit, status.blocked),
        status: write_status(status.rssi, status.connected, &status.drops),
    }
}

/// A total block is always seen: no amount looks the same with and without its
/// mark.
pub proof fn law_total_block_is_seen(credit: u32, other: u32)
    ensures
        credit_line(credit, true) != credit_line(other, false),
{
    reveal_strlit(" ЗАКРЫТО");
    let hundredths = text::padded((other % 100) as nat, 2);
    lemma_two_digits((other % 100) as nat);
    text::lemma_decimal_is_digits((other % 100) as nat);
    assert(credit_line(credit, true).last() == 'О');
    assert(credit_line(other, false).last() == hundredths.last());
    assert('0' <= hundredths.last() <= '9');
}

/// A time that the network did not send is never shown.
pub proof fn law_implausible_time_is_not_shown(memory: LastTime)
    requires
        clock::remembered(memory) matches Some(now) ==> !clock::plausible(now),
    ensures
        time_line(memory) == "--:--"@,
        date_line(memory) == Seq::<char>::empty(),
{
}

/// The bars of the scale stand seven apart from column 93 on, are five wide and
/// grow by three from a height of four, all on line 20. Those below the level
/// are filled.
pub proof fn law_bars_stand_in_place(index: int, bars: u8)
    requires
        0 <= index < 5,
    ensures
        bar_at(index, bars).x == 93 + 7 * index,
        bar_at(index, bars).width == 5,
        bar_at(index, bars).height == 4 + 3 * index,
        bar_at(index, bars).y == 16 - 3 * index,
        bar_at(index, bars).filled <==> bars > index,
{
}

/// A number below a hundred is padded to its two digits.
proof fn lemma_padded_to_two(tens: nat, ones: nat)
    requires
        tens < 10,
        ones < 10,
    ensures
        text::padded((10 * tens + ones) as nat, 2) == text::decimal(tens) + text::decimal(ones),
{
    let n = (10 * tens + ones) as nat;
    assert(n / 10 == tens && n % 10 == ones);
    reveal_with_fuel(text::decimal, 3);
    text::law_padding(n, 2);
    assert(text::padded(n, 2) =~= text::decimal(tens) + text::decimal(ones));
}

/// A number below a hundred in two digits.
pub open spec fn two_digits(n: int) -> Seq<char> {
    text::decimal((n / 10) as nat) + text::decimal((n % 10) as nat)
}

/// A time of the network is shown as hours and minutes in two digits each, and
/// its date as the year, the month and the day. Any other is not shown.
pub proof fn law_time_is_shown(memory: LastTime, now: DateTime)
    requires
        clock::remembered(memory) == Some(now),
    ensures
        ({
            let sent = now.year >= 2020 && 1 <= now.month <= 12 && 1 <= now.day <= 31 && now.hour
                <= 23 && now.minute <= 59 && now.second <= 59;
            &&& sent ==> time_line(memory) == two_digits(now.hour as int) + seq![':'] + two_digits(
                now.minute as int,
            )
            &&& sent ==> date_line(memory) == text::decimal(now.year as nat) + seq!['-']
                + two_digits(now.month as int) + seq!['-'] + two_digits(now.day as int)
            &&& !sent ==> time_line(memory) == seq!['-', '-', ':', '-', '-'] && date_line(
                memory,
            ).len() == 0
        }),
{
    reveal_strlit(":");
    reveal_strlit("-");
    reveal_strlit("--:--");
    assert(":"@ =~= seq![':']);
    assert("-"@ =~= seq!['-']);
    assert("--:--"@ =~= seq!['-', '-', ':', '-', '-']);
    if clock::plausible(now) {
        lemma_padded_to_two((now.hour / 10) as nat, (now.hour % 10) as nat);
        lemma_padded_to_two((now.minute / 10) as nat, (now.minute % 10) as nat);
        lemma_padded_to_two((now.month / 10) as nat, (now.month % 10) as nat);
        lemma_padded_to_two((now.day / 10) as nat, (now.day % 10) as nat);
        text::law_padding(now.year as nat, 4);
        assert(text::decimal(now.year as nat).len() >= 4) by {
            reveal_with_fuel(text::decimal, 5);
        }
    }
}

/// Without a time there are dashes.
pub proof fn law_no_time_is_shown_as_dashes(memory: LastTime)
    requires
        clock::remembered(memory) is None,
    ensures
        time_line(memory) == seq!['-', '-', ':', '-', '-'],
        date_line(memory).len() == 0,
{
    reveal_strlit("--:--");
    assert("--:--"@ =~= seq!['-', '-', ':', '-', '-']);
}

/// A charge can be read back from in front of its percent sign; a missing one
/// is two dashes there.
pub proof fn law_charge_can_be_read_back(charge: Option<u8>)
    ensures
        charge_line(charge).last() == '%',
        charge matches Some(percent) ==> charge_line(charge).drop_last() == text::decimal(
            percent as nat,
        ) && text::number_up_to(charge_line(charge).drop_last(), 255) == Some(percent as nat),
        charge is None ==> charge_line(charge).drop_last() == seq!['-', '-'],
{
    reveal_strlit("%");
    reveal_strlit("--%");
    assert("--%"@.drop_last() =~= seq!['-', '-']);
    if let Some(percent) = charge {
        let digits = text::decimal(percent as nat);
        assert(charge_line(charge).drop_last() =~= digits);
        text::law_number_is_read(false, 0, percent as nat, 255);
        assert(text::written_number(false, 0, percent as nat) =~= digits);
    }
}

/// Money is shown in whole units with just two digits behind the point, and
/// with a mark behind it while the acceptor is blocked.
pub proof fn law_credit_is_shown(units: nat, tenths: nat, hundredths: nat, credit: u32, blocked: bool)
    requires
        tenths < 10,
        hundredths < 10,
        credit == 100 * units + 10 * tenths + hundredths,
    ensures
        credit_line(credit, blocked) == "Кредит "@ + text::decimal(units) + seq!['.']
            + text::decimal(tenths) + text::decimal(hundredths) + if blocked {
            " ЗАКРЫТО"@
        } else {
            Seq::<char>::empty()
        },
{
    reveal_strlit(".");
    assert("."@ =~= seq!['.']);
    assert(credit / 100 == units && credit % 100 == 10 * tenths + hundredths);
    lemma_padded_to_two(tenths, hundredths);
    assert(credit_line(credit, blocked) =~= "Кредит "@ + text::decimal(units) + seq!['.']
        + text::decimal(tenths) + text::decimal(hundredths) + if blocked {
        " ЗАКРЫТО"@
    } else {
        Seq::<char>::empty()
    });
}

/// The status line holds the level with its sign, or dashes when it is not
/// known; whether the broker is connected; and the failures of MQTT in front of
/// those of the link.
pub proof fn law_status_is_shown(rssi: u8, connected: bool, drops: Drops)
    ensures
        ({
            let level = if rssi >= 99 {
                seq!['-', '-']
            } else if rssi == 31 {
                seq!['-', '5', '2']
            } else if rssi <= 56 {
                seq!['-'] + text::decimal((113 - 2 * rssi) as nat)
            } else {
                text::decimal((2 * rssi - 113) as nat)
            };
            let sign = if connected {
                '+'
            } else {
                '-'
            };
            status_line(rssi, connected, drops) == level + "dBm MQTT "@ + seq![sign, ' ']
                + health::short_text(drops.mqtt) + seq!['/'] + health::short_text(drops.link)
        }),
{
    reveal_strlit("--");
    reveal_strlit("-");
    reveal_strlit("dBm ");
    reveal_strlit("dBm MQTT ");
    reveal_strlit("MQTT +");
    reveal_strlit("MQTT -");
    reveal_strlit(" ");
    reveal_strlit("/");
    reveal_with_fuel(text::decimal, 3);
    let level = if rssi >= 99 {
        seq!['-', '-']
    } else if rssi == 31 {
        seq!['-', '5', '2']
    } else if rssi <= 56 {
        seq!['-'] + text::decimal((113 - 2 * rssi) as nat)
    } else {
        text::decimal((2 * rssi - 113) as nat)
    };
    let sign = if connected {
        '+'
    } else {
        '-'
    };
    assert("--"@ =~= seq!['-', '-']);
    assert("-"@ =~= seq!['-']);
    assert("-"@ + text::decimal(52) =~= seq!['-', '5', '2']);
    assert("dBm "@ + "MQTT +"@ + " "@ =~= "dBm MQTT "@ + seq!['+', ' ']);
    assert("dBm "@ + "MQTT -"@ + " "@ =~= "dBm MQTT "@ + seq!['-', ' ']);
    assert("/"@ =~= seq!['/']);
    assert(status_line(rssi, connected, drops) =~= level + "dBm MQTT "@ + seq![sign, ' ']
        + health::short_text(drops.mqtt) + seq!['/'] + health::short_text(drops.link));
}

} // verus!
