//! Date and time from the cellular network, and the signal scale.
//!
//! The modem learns the time from the network at registration. Until it does,
//! it answers with its factory date in 2004, which must not be shown.

use vstd::prelude::*;

use crate::text;

verus! {

/// Date and time without a time zone.
#[derive(Debug, Clone, Copy, PartialEq, Eq, Structural)]
pub struct DateTime {
    /// Full year, such as 2026.
    pub year: u16,
    pub month: u8,
    pub day: u8,
    pub hour: u8,
    pub minute: u8,
    pub second: u8,
}

/// First year of the packed form.
const YEAR_BASE: u16 = 2020;

/// Last year of the packed form.
const YEAR_LAST: u16 = 2083;

/// Whether a value looks like real network time: 2020 or later, every field in
/// its range.
pub open spec fn plausible(t: DateTime) -> bool {
    &&& t.year >= 2020
    &&& 1 <= t.month <= 12
    &&& 1 <= t.day <= 31
    &&& t.hour < 24
    &&& t.minute < 60
    &&& t.second < 60
}

/// The packed form: six bits of years since 2020, four of month, five of day,
/// five of hour, six of minute, six of second. Zero for years outside
/// 2020..=2083.
pub open spec fn packed(t: DateTime) -> u32 {
    if t.year < 2020 || t.year > 2083 {
        0
    } else {
        ((t.year - 2020) as u32) << 26 | (t.month as u32) << 22 | (t.day as u32) << 17 | (
        t.hour as u32) << 12 | (t.minute as u32) << 6 | t.second as u32
    }
}

/// The fields of a packed value.
pub open spec fn unpacked(value: u32) -> DateTime {
    DateTime {
        year: (2020 + (value >> 26)) as u16,
        month: ((value >> 22) & 0x0F) as u8,
        day: ((value >> 17) & 0x1F) as u8,
        hour: ((value >> 12) & 0x1F) as u8,
        minute: ((value >> 6) & 0x3F) as u8,
        second: (value & 0x3F) as u8,
    }
}

impl DateTime {
    /// Whether the value looks like real time from the network.
    pub fn is_plausible(&self) -> (r: bool)
        ensures
            r == plausible(*self),
    {
        self.year >= 2020 && self.month >= 1 && self.month <= 12 && self.day >= 1 && self.day <= 31
            && self.hour < 24 && self.minute < 60 && self.second < 60
    }

    /// Packs into 32 bits. A year outside 2020..=2083 gives 0, that is, "no
    /// time".
    pub fn pack(&self) -> (r: u32)
        ensures
            r == packed(*self),
    {
        if self.year < YEAR_BASE || self.year > YEAR_LAST {
            return 0;
        }
        ((self.year - YEAR_BASE) as u32) << 26 | (self.month as u32) << 22 | (self.day as u32) << 17
            | (self.hour as u32) << 12 | (self.minute as u32) << 6 | self.second as u32
    }

    /// Reads the packed form.
    pub fn unpack(value: u32) -> (r: DateTime)
        ensures
            r == unpacked(value),
    {
        assert(value >> 26 <= 63) by (bit_vector);
        DateTime {
            year: YEAR_BASE + (value >> 26) as u16,
            month: ((value >> 22) & 0x0F) as u8,
            day: ((value >> 17) & 0x1F) as u8,
            hour: ((value >> 12) & 0x1F) as u8,
            minute: ((value >> 6) & 0x3F) as u8,
            second: (value & 0x3F) as u8,
        }
    }
}

/// A plausible time up to 2083 survives packing, and its packed form is never
/// the value that stands for "no time".
pub proof fn law_packing_round_trips(t: DateTime)
    requires
        plausible(t),
        t.year <= 2083,
    ensures
        unpacked(packed(t)) == t,
        packed(t) != 0,
{
    let y = (t.year - 2020) as u32;
    let mo = t.month as u32;
    let d = t.day as u32;
    let h = t.hour as u32;
    let mi = t.minute as u32;
    let s = t.second as u32;
    assert(y <= 63 && 1 <= mo <= 12 && d <= 31 && h < 24 && mi < 60 && s < 60 ==> {
        let p = y << 26 | mo << 22 | d << 17 | h << 12 | mi << 6 | s;
        &&& p >> 26 == y
        &&& (p >> 22) & 0x0F == mo
        &&& (p >> 17) & 0x1F == d
        &&& (p >> 12) & 0x1F == h
        &&& (p >> 6) & 0x3F == mi
        &&& p & 0x3F == s
        &&& p != 0
    }) by (bit_vector);
}

/// The last time that the network sent.
#[derive(Debug, Clone, Copy, PartialEq, Eq, Structural)]
pub struct LastTime {
    /// Packed form; 0 while nothing has been received.
    pub packed: u32,
}

impl Default for LastTime {
    fn default() -> (r: Self)
        ensures
            r.packed == 0,
    {
        LastTime { packed: 0 }
    }
}

/// What a remembered value stands for.
pub open spec fn remembered(memory: LastTime) -> Option<DateTime> {
    if memory.packed == 0 {
        None
    } else {
        Some(unpacked(memory.packed))
    }
}

/// Remembers the time that came from the modem.
pub fn store(memory: &mut LastTime, now: DateTime)
    ensures
        final(memory).packed == packed(now),
{
    memory.packed = now.pack();
}

/// The last known time. `None` while the network has not sent any.
pub fn last(memory: &LastTime) -> (r: Option<DateTime>)
    ensures
        r == remembered(*memory),
{
    if memory.packed == 0 {
        None
    } else {
        Some(DateTime::unpack(memory.packed))
    }
}

/// A stored plausible time is what is read back; a year that cannot be packed
/// reads back as no time at all.
pub proof fn law_last_gives_back_what_was_stored(now: DateTime)
    ensures
        plausible(now) && now.year <= 2083 ==> remembered(LastTime { packed: packed(now) }) == Some(
            now,
        ),
        now.year < 2020 || now.year > 2083 ==> remembered(LastTime { packed: packed(now) }) is None,
{
    if plausible(now) && now.year <= 2083 {
        law_packing_round_trips(now);
    }
}

/// The six numbers of an `AT+CCLK?` answer as they are written: year, month,
/// day, hour, minute, second.
#[derive(Debug, Clone, Copy, PartialEq, Eq, Structural)]
pub struct CclkFields {
    /// Year as written, two digits as a rule.
    pub year: u16,
    pub month: u8,
    pub day: u8,
    pub hour: u8,
    pub minute: u8,
    pub second: u8,
}

/// Three numbers between separators, the first up to `max`, the others up to
/// 255; nothing more and nothing less.
pub open spec fn three_numbers(s: Seq<char>, separator: char, max: nat) -> Option<(nat, nat, nat)> {
    let parts = text::pieces(s, seq![separator]);
    if parts.len() != 3 {
        None
    } else {
        match (
            text::number_up_to(parts[0], max),
            text::number_up_to(parts[1], 255),
            text::number_up_to(parts[2], 255),
        ) {
            (Some(a), Some(b), Some(c)) => Some((a, b, c)),
            _ => None,
        }
    }
}

/// What stands between the first two quotes.
pub open spec fn quoted_part(s: Seq<char>) -> Option<Seq<char>> {
    let parts = text::pieces(s, seq!['"']);
    if parts.len() < 2 {
        None
    } else {
        Some(parts[1])
    }
}

/// The text before and behind the first comma.
pub open spec fn around_comma(s: Seq<char>) -> Option<(Seq<char>, Seq<char>)> {
    let parts = text::pieces(s, seq![',']);
    if parts.len() < 2 {
        None
    } else {
        Some((parts[0], s.skip((parts[0].len() + 1) as int)))
    }
}

/// A time of day without the zone that follows a sign.
pub open spec fn without_zone(s: Seq<char>) -> Seq<char> {
    text::pieces(s, seq!['+', '-'])[0]
}

/// The fields of `+CCLK: "yy/MM/dd,hh:mm:ss±zz"`.
///
/// Reading starts at the quote and not at the prefix: some firmware puts an
/// extra space in between. The zone is dropped: the modem gives local time.
pub open spec fn cclk_numbers(s: Seq<char>) -> Option<CclkFields> {
    match quoted_part(s) {
        None => None,
        Some(quoted) => match around_comma(quoted) {
            None => None,
            Some((date, time)) => match (
                three_numbers(date, '/', 65535),
                three_numbers(without_zone(time), ':', 255),
            ) {
                (Some((year, month, day)), Some((hour, minute, second))) => Some(
                    CclkFields {
                        year: year as u16,
                        month: month as u8,
                        day: day as u8,
                        hour: hour as u8,
                        minute: minute as u8,
                        second: second as u8,
                    },
                ),
                _ => None,
            },
        },
    }
}

fn read_three(chars: &[char], separator: char, max: u16) -> (r: Option<(u16, u8, u8)>)
    ensures
        match r {
            Some((a, b, c)) => three_numbers(chars@, separator, max as nat) == Some(
                (a as nat, b as nat, c as nat),
            ),
            None => three_numbers(chars@, separator, max as nat) is None,
        },
{
    let separators: [char; 1] = [separator];
    assert(separators@ =~= seq![separator]);
    let parts = text::split(chars, &separators);
    if parts.len() != 3 {
        return None;
    }
    let first = text::parse_number(&chars[parts[0].0..parts[0].1], max as u32);
    let second = text::parse_number(&chars[parts[1].0..parts[1].1], 255);
    let third = text::parse_number(&chars[parts[2].0..parts[2].1], 255);
    match (first, second, third) {
        (Some(a), Some(b), Some(c)) => Some((a as u16, b as u8, c as u8)),
        _ => None,
    }
}

/// Reads the six numbers of an `AT+CCLK?` answer.
pub fn read_cclk(response: &str) -> (r: Option<CclkFields>)
    ensures
        r == cclk_numbers(response@),
{
    let chars = text::chars_of(response);
    let quotes: [char; 1] = ['"'];
    assert(quotes@ =~= seq!['"']);
    let parts = text::split(&chars, &quotes);
    if parts.len() < 2 {
        return None;
    }
    let quoted: &[char] = &chars[parts[1].0..parts[1].1];

    let commas: [char; 1] = [','];
    assert(commas@ =~= seq![',']);
    let halves = text::split(quoted, &commas);
    if halves.len() < 2 {
        return None;
    }
    let date: &[char] = &quoted[0..halves[0].1];
    let time: &[char] = &quoted[halves[0].1 + 1..quoted.len()];
    assert(time@ =~= quoted@.skip((date@.len() + 1) as int));

    // The zone goes together with its sign.
    let signs: [char; 2] = ['+', '-'];
    assert(signs@ =~= seq!['+', '-']);
    let zone = text::split(time, &signs);
    let time: &[char] = &time[0..zone[0].1];

    match (read_three(date, '/', 65535), read_three(time, ':', 255)) {
        (Some((year, month, day)), Some((hour, minute, second))) => Some(
            CclkFields { year, month, day, hour: hour as u8, minute, second },
        ),
        _ => None,
    }
}

/// The time that an `AT+CCLK?` answer means: the modem gives the year without
/// its century.
pub open spec fn cclk_time(s: Seq<char>) -> Option<DateTime> {
    match cclk_numbers(s) {
        None => None,
        Some(f) => Some(
            DateTime {
                year: (2000 + f.year) as u16,
                month: f.month,
                day: f.day,
                hour: f.hour,
                minute: f.minute,
                second: f.second,
            },
        ),
    }
}

/// Reads an `AT+CCLK?` answer.
pub fn parse_cclk(response: &str) -> (r: Option<DateTime>)
    requires
        cclk_numbers(response@) matches Some(f) ==> f.year <= 63535,
    ensures
        r == cclk_time(response@),
{
    match read_cclk(response) {
        None => None,
        Some(f) => Some(
            DateTime {
                year: 2000 + f.year,
                month: f.month,
                day: f.day,
                hour: f.hour,
                minute: f.minute,
                second: f.second,
            },
        ),
    }
}

/// What to do with a clock answer of the modem.
#[derive(Debug, Clone, Copy, PartialEq, Eq, Structural)]
pub enum ClockReading {
    /// Real time: remember it.
    Time(DateTime),
    /// A time that cannot be: the network has not sent any yet.
    NotYet,
    /// Not a clock answer at all.
    Unreadable,
}

/// What a clock answer amounts to.
pub open spec fn clock_reading(s: Seq<char>) -> ClockReading {
    match cclk_time(s) {
        None => ClockReading::Unreadable,
        Some(now) => if plausible(now) {
            ClockReading::Time(now)
        } else {
            ClockReading::NotYet
        },
    }
}

/// Takes a clock answer of the modem: real time is remembered, anything else
/// leaves the memory as it was.
pub fn read_network_time(memory: &mut LastTime, response: &str) -> (r: ClockReading)
    requires
        cclk_numbers(response@) matches Some(f) ==> f.year <= 63535,
    ensures
        r == clock_reading(response@),
        final(memory).packed == (match r {
            ClockReading::Time(now) => packed(now),
            _ => old(memory).packed,
        }),
{
    match parse_cclk(response) {
        None => ClockReading::Unreadable,
        Some(now) => {
            if now.is_plausible() {
                store(memory, now);
                ClockReading::Time(now)
            } else {
                ClockReading::NotYet
            }
        },
    }
}

/// Whatever the modem answers, an implausible time is never what is remembered
/// next.
pub proof fn law_factory_date_is_never_remembered(s: Seq<char>)
    ensures
        clock_reading(s) matches ClockReading::Time(now) ==> now.year >= 2020 && plausible(now),
{
}

/// Divisions of the signal scale for an `<rssi>` of `+CSQ`.
pub open spec fn bars(rssi: u8) -> u8 {
    if rssi == 99 || rssi < 4 {
        0
    } else if rssi < 8 {
        1
    } else if rssi < 14 {
        2
    } else if rssi < 19 {
        3
    } else if rssi < 22 {
        4
    } else {
        5
    }
}

/// Number of divisions of the signal scale, 0..=5, for an `<rssi>` of `+CSQ`.
///
/// 0 stands for -113 dBm, 31 for -52 dBm, 99 for "not measured". The borders
/// make the scale behave as on a telephone: one division comes at about
/// -105 dBm, all five from -70 dBm on.
pub fn signal_bars(rssi: u8) -> (r: u8)
    ensures
        r == bars(rssi),
{
    match rssi {
        99 => 0,
        0..=3 => 0,
        4..=7 => 1,
        8..=13 => 2,
        14..=18 => 3,
        19..=21 => 4,
        _ => 5,
    }
}

/// The scale never shrinks as the signal grows, and never has more than five
/// divisions.
pub proof fn law_scale_is_monotonic_and_bounded(weaker: u8, stronger: u8)
    requires
        weaker <= stronger <= 31,
    ensures
        bars(weaker) <= bars(stronger) <= 5,
        bars(31) == 5,
        bars(99) == 0,
{
}

/// `<rssi>` in dBm, 0 for "not measured": steps of 2 dBm from -113 dBm, with
/// -52 dBm at 31, the end of the modem's range.
pub open spec fn dbm(rssi: u8) -> int {
    if rssi >= 99 {
        0
    } else if rssi == 31 {
        -52
    } else {
        2 * rssi - 113
    }
}

/// A measured signal gives one division from -105 dBm on, and all five from
/// -70 dBm on.
pub proof fn law_scale_goes_by_the_level(rssi: u8)
    requires
        rssi <= 31,
    ensures
        bars(rssi) >= 1 <==> dbm(rssi) >= -105,
        bars(rssi) == 5 <==> dbm(rssi) >= -70,
{
}

/// A larger `<rssi>` is a stronger signal.
pub proof fn law_level_grows_with_rssi(weaker: u8, stronger: u8)
    requires
        weaker < stronger < 99,
    ensures
        dbm(weaker) < dbm(stronger),
{
}

/// `<rssi>` in dBm: 0 gives -113, 31 gives -52. "Not measured" (99) gives 0.
pub fn rssi_dbm(rssi: u8) -> (r: i16)
    ensures
        r == dbm(rssi),
{
    if rssi >= 99 {
        0
    } else if rssi == 31 {
        -52
    } else {
        -113 + 2 * rssi as i16
    }
}

/// A time is implausible when one of its fields is not one of a calendar and a
/// clock, or when it is from before 2020: everything else is plausible.
pub proof fn law_implausible_times(t: DateTime)
    ensures
        !plausible(t) <==> (t.year <= 2019 || t.month == 0 || t.month >= 13 || t.day == 0 || t.day
            >= 32 || t.hour >= 24 || t.minute >= 60 || t.second >= 60),
{
}

/// Every second of a day is plausible, on every day of every month from 2020
/// on.
pub proof fn law_every_second_of_a_day_is_plausible(year: u16, month: u8, day: u8, second: int)
    requires
        2020 <= year,
        1 <= month <= 12,
        1 <= day <= 31,
        0 <= second < 86400,
    ensures
        plausible(
            DateTime {
                year,
                month,
                day,
                hour: (second / 3600) as u8,
                minute: (second / 60 % 60) as u8,
                second: (second % 60) as u8,
            },
        ),
{
}

/// Three numbers of two digits with a mark between them.
pub open spec fn three_written(a: nat, mark: char, b: nat, c: nat) -> Seq<char> {
    text::padded(a, 2).push(mark) + text::padded(b, 2).push(mark) + text::padded(c, 2)
}

/// A date and a time as the modem writes them: `yy/MM/dd,hh:mm:ss`.
pub open spec fn written_time(fields: CclkFields) -> Seq<char> {
    three_written(fields.year as nat, '/', fields.month as nat, fields.day as nat).push(',')
        + three_written(fields.hour as nat, ':', fields.minute as nat, fields.second as nat)
}

/// An answer that carries a time is read as that time, whatever stands in front
/// of the quotation mark and whatever the zone is. It is taken when it is from
/// 2020 on and its fields are those of a calendar and a clock, and put off
/// otherwise.
pub proof fn law_written_time_is_taken(
    front: Seq<char>,
    fields: CclkFields,
    zone: Seq<char>,
    rest: Seq<char>,
)
    requires
        !front.contains('"'),
        zone.len() > 0 ==> zone[0] == '+' || zone[0] == '-',
        !zone.contains('"'),
        rest.len() > 0 ==> rest[0] == '"',
        fields.year <= 63535,
    ensures
        ({
            let answer = front + seq!['"'] + written_time(fields) + zone + rest;
            let now = DateTime {
                year: (2000 + fields.year) as u16,
                month: fields.month,
                day: fields.day,
                hour: fields.hour,
                minute: fields.minute,
                second: fields.second,
            };
            &&& cclk_numbers(answer) == Some(fields)
            &&& cclk_time(answer) == Some(now)
            &&& clock_reading(answer) == if fields.year >= 20 && 1 <= fields.month <= 12 && 1
                <= fields.day <= 31 && fields.hour <= 23 && fields.minute <= 59 && fields.second
                <= 59 {
                ClockReading::Time(now)
            } else {
                ClockReading::NotYet
            }
        }),
{
    let date = three_written(fields.year as nat, '/', fields.month as nat, fields.day as nat);
    let time = three_written(fields.hour as nat, ':', fields.minute as nat, fields.second as nat);
    lemma_three_written(fields.year as nat, '/', fields.month as nat, fields.day as nat, 65535);
    lemma_three_written(fields.hour as nat, ':', fields.minute as nat, fields.second as nat, 255);
    lemma_answer_is_taken_apart(front, date, time, zone, rest);
}

proof fn lemma_answer_is_taken_apart(
    front: Seq<char>,
    date: Seq<char>,
    time: Seq<char>,
    zone: Seq<char>,
    rest: Seq<char>,
)
    requires
        !front.contains('"'),
        forall|i: int| 0 <= i < date.len() ==> #[trigger] date[i] == '/' || text::is_digit(date[i]),
        forall|i: int| 0 <= i < time.len() ==> #[trigger] time[i] == ':' || text::is_digit(time[i]),
        zone.len() > 0 ==> zone[0] == '+' || zone[0] == '-',
        !zone.contains('"'),
        rest.len() > 0 ==> rest[0] == '"',
    ensures
        ({
            let answer = front + seq!['"'] + (date.push(',') + time) + zone + rest;
            &&& quoted_part(answer) == Some(date.push(',') + (time + zone))
            &&& around_comma(date.push(',') + (time + zone)) == Some((date, time + zone))
            &&& without_zone(time + zone) == time
        }),
{
    let quoted = date.push(',') + (time + zone);
    assert(front + seq!['"'] + (date.push(',') + time) + zone + rest =~= front.push('"') + (quoted
        + rest));
    lemma_around_comma(date, time + zone);
    lemma_without_zone(time, zone);
    assert forall|i: int| 0 <= i < quoted.len() implies quoted[i] != '"' by {
        if i < date.len() {
            assert(quoted[i] == date[i]);
        } else if date.len() < i <= date.len() + time.len() {
            assert(quoted[i] == time[i - date.len() - 1]);
        } else if i > date.len() {
            let k = i - date.len() - 1 - time.len();
            assert(quoted[i] == zone[k]);
            assert(zone.contains(zone[k]));
        }
    }
    lemma_quoted_part(front, quoted, rest);
}

/// The first comma parts the date from the rest.
proof fn lemma_around_comma(date: Seq<char>, rest: Seq<char>)
    requires
        forall|i: int| 0 <= i < date.len() ==> #[trigger] date[i] != ',',
    ensures
        around_comma(date.push(',') + rest) == Some((date, rest)),
{
    let mark = seq![','];
    assert(mark[0] == ',');
    assert(mark.contains(','));
    text::law_separator_parts_a_text(date, ',', rest, mark);
    text::law_unbroken_text_is_one_piece(date, mark);
    lemma_some_pieces(rest, mark);
    assert((date.push(',') + rest).skip((date.len() + 1) as int) =~= rest);
}

/// A sign ends the time.
proof fn lemma_without_zone(time: Seq<char>, zone: Seq<char>)
    requires
        forall|i: int| 0 <= i < time.len() ==> #[trigger] time[i] != '+' && time[i] != '-',
        zone.len() > 0 ==> zone[0] == '+' || zone[0] == '-',
    ensures
        without_zone(time + zone) == time,
{
    let signs = seq!['+', '-'];
    assert(signs[0] == '+' && signs[1] == '-');
    text::law_unbroken_text_is_one_piece(time, signs);
    if zone.len() == 0 {
        assert(time + zone =~= time);
    } else {
        assert(signs.contains(zone[0]));
        assert(time + zone =~= time.push(zone[0]) + zone.skip(1));
        text::law_separator_parts_a_text(time, zone[0], zone.skip(1), signs);
    }
}

/// What stands in quotation marks is found.
proof fn lemma_quoted_part(front: Seq<char>, quoted: Seq<char>, rest: Seq<char>)
    requires
        !front.contains('"'),
        !quoted.contains('"'),
        rest.len() > 0 ==> rest[0] == '"',
    ensures
        quoted_part(front.push('"') + (quoted + rest)) == Some(quoted),
{
    let mark = seq!['"'];
    assert(mark[0] == '"');
    assert(mark.contains('"'));
    assert forall|i: int| 0 <= i < front.len() implies !mark.contains(#[trigger] front[i]) by {
        assert(front.contains(front[i]));
    }
    text::law_unbroken_text_is_one_piece(front, mark);
    assert forall|i: int| 0 <= i < quoted.len() implies !mark.contains(#[trigger] quoted[i]) by {
        assert(quoted.contains(quoted[i]));
    }
    text::law_unbroken_text_is_one_piece(quoted, mark);
    text::law_separator_parts_a_text(front, '"', quoted + rest, mark);
    if rest.len() == 0 {
        assert(quoted + rest =~= quoted);
    } else {
        assert(quoted + rest =~= quoted.push('"') + rest.skip(1));
        text::law_separator_parts_a_text(quoted, '"', rest.skip(1), mark);
    }
}

proof fn lemma_padded_reads_back(n: nat, max: nat)
    requires
        n <= max,
    ensures
        text::number_up_to(text::padded(n, 2), max) == Some(n),
        forall|i: int|
            0 <= i < text::padded(n, 2).len() ==> text::is_digit(#[trigger] text::padded(n, 2)[i]),
{
    text::lemma_decimal_is_digits(n);
    text::law_padding(n, 2);
    let leading: nat = if text::decimal(n).len() >= 2 {
        0
    } else {
        (2 - text::decimal(n).len()) as nat
    };
    text::law_number_is_read(false, leading, n, max);
    assert(text::padded(n, 2) =~= text::written_number(false, leading, n));
}

proof fn lemma_some_pieces(s: Seq<char>, separators: Seq<char>)
    ensures
        text::pieces(s, separators).len() >= 1,
    decreases s.len(),
{
    if s.len() > 0 {
        lemma_some_pieces(s.drop_last(), separators);
    }
}

#[verifier::rlimit(40)]
proof fn lemma_three_written(a: nat, mark: char, b: nat, c: nat, max: nat)
    requires
        mark == '/' || mark == ':',
        a <= max,
        b <= 255,
        c <= 255,
    ensures
        three_numbers(three_written(a, mark, b, c), mark, max) == Some((a, b, c)),
        forall|i: int|
            0 <= i < three_written(a, mark, b, c).len() ==> #[trigger] three_written(
                a,
                mark,
                b,
                c,
            )[i] == mark || text::is_digit(three_written(a, mark, b, c)[i]),
{
    lemma_padded_reads_back(a, max);
    lemma_padded_reads_back(b, 255);
    lemma_padded_reads_back(c, 255);
    let first = text::padded(a, 2);
    let second = text::padded(b, 2);
    let third = text::padded(c, 2);
    let marks = seq![mark];
    assert(marks[0] == mark);
    assert(marks.contains(mark));
    text::law_unbroken_text_is_one_piece(first, marks);
    text::law_unbroken_text_is_one_piece(second, marks);
    text::law_unbroken_text_is_one_piece(third, marks);
    text::law_separator_parts_a_text(second, mark, third, marks);
    text::law_separator_parts_a_text(first, mark, second.push(mark) + third, marks);
    assert(three_written(a, mark, b, c) =~= first.push(mark) + (second.push(mark) + third));
    assert(text::pieces(three_written(a, mark, b, c), marks) =~= seq![first, second, third]);
}

/// The scale has its borders at -105, -97, -85, -75 and -70 dBm. Above the
/// range of the modem it is full, and empty when nothing was measured.
pub proof fn law_borders_of_the_scale(rssi: u8)
    ensures
        bars(rssi) <= 5,
        rssi <= 31 ==> (bars(rssi) >= 1 <==> 2 * rssi - 113 >= -105),
        rssi <= 31 ==> (bars(rssi) >= 2 <==> 2 * rssi - 113 >= -97),
        rssi <= 31 ==> (bars(rssi) >= 3 <==> 2 * rssi - 113 >= -85),
        rssi <= 31 ==> (bars(rssi) >= 4 <==> 2 * rssi - 113 >= -75),
        rssi <= 31 ==> (bars(rssi) >= 5 <==> 2 * rssi - 113 >= -70),
        rssi > 31 && rssi != 99 ==> bars(rssi) == 5,
        bars(99) == 0,
{
}

/// The level starts at -113 dBm and goes up by 2 dBm with each step; only at
/// 31 it stands at -52 dBm. From 99 on there is none.
pub proof fn law_level_goes_by_steps(rssi: u8)
    ensures
        dbm(0) == -113,
        rssi < 30 ==> dbm((rssi + 1) as u8) == dbm(rssi) + 2,
        dbm(31) == -52,
        dbm(32) == -49,
        32 <= rssi < 98 ==> dbm((rssi + 1) as u8) == dbm(rssi) + 2,
        rssi >= 99 ==> dbm(rssi) == 0,
{
}

/// The packed form is a number in which each field has its weight: a second
/// weighs 1, a minute 64, an hour 4096, a day 131072, a month 4194304 and a
/// year since 2020 67108864. Each field is read from its place.
pub proof fn law_weights_of_the_packed_form(t: DateTime, value: u32)
    ensures
        2020 <= t.year <= 2083 && t.month < 16 && t.day < 32 && t.hour < 32 && t.minute < 64
            && t.second < 64 ==> packed(t) == 67108864 * (t.year - 2020) + 4194304 * t.month
            + 131072 * t.day + 4096 * t.hour + 64 * t.minute + t.second,
        unpacked(value).year == 2020 + value / 67108864,
        unpacked(value).month == value / 4194304 % 16,
        unpacked(value).day == value / 131072 % 32,
        unpacked(value).hour == value / 4096 % 32,
        unpacked(value).minute == value / 64 % 64,
        unpacked(value).second == value % 64,
{
    let y = (t.year - 2020) as u32;
    let mo = t.month as u32;
    let d = t.day as u32;
    let h = t.hour as u32;
    let mi = t.minute as u32;
    let s = t.second as u32;
    assert((y <= 63 && mo < 16 && d < 32 && h < 32 && mi < 64 && s < 64 ==> (y << 26 | mo << 22 | d
        << 17 | h << 12 | mi << 6 | s) == 67108864 * y + 4194304 * mo + 131072 * d + 4096 * h + 64
        * mi + s) && value >> 26 == value / 67108864 && (value >> 22) & 0x0F == value / 4194304 % 16
        && (value >> 17) & 0x1F == value / 131072 % 32 && (value >> 12) & 0x1F == value / 4096 % 32
        && (value >> 6) & 0x3F == value / 64 % 64 && value & 0x3F == value % 64) by (bit_vector);
}

/// Whether three texts with a mark between them read as three numbers.
pub open spec fn three_read(
    s: Seq<char>,
    mark: char,
    numbers: (nat, nat, nat),
    texts: (Seq<char>, Seq<char>, Seq<char>),
) -> bool {
    &&& s == texts.0.push(mark) + texts.1.push(mark) + texts.2
    &&& text::number_up_to(texts.0, 65535) == Some(numbers.0)
    &&& text::number_up_to(texts.1, 255) == Some(numbers.1)
    &&& text::number_up_to(texts.2, 255) == Some(numbers.2)
}

/// Whether a text is three numbers with a mark between them.
pub open spec fn is_three(s: Seq<char>, mark: char, numbers: (nat, nat, nat)) -> bool {
    exists|texts: (Seq<char>, Seq<char>, Seq<char>)| three_read(s, mark, numbers, texts)
}

/// Three numbers are read only from three texts with the marks between them.
proof fn lemma_three_are_written(s: Seq<char>, mark: char, max: nat)
    requires
        max <= 65535,
    ensures
        three_numbers(s, mark, max) matches Some(numbers) ==> numbers.0 <= max && numbers.1 <= 255
            && numbers.2 <= 255 && is_three(s, mark, numbers),
{
    let marks = seq![mark];
    let parts = text::pieces(s, marks);
    if let Some(numbers) = three_numbers(s, mark, max) {
        text::law_first_piece(s, marks);
        let first = parts[0];
        let rest = s.skip(first.len() as int + 1);
        text::law_first_piece(rest, marks);
        let second = parts.skip(1)[0];
        let third = rest.skip(second.len() as int + 1);
        text::law_first_piece(third, marks);
        assert(parts.skip(1).skip(1)[0] == parts[2]);
        assert(s[first.len() as int] == mark);
        assert(rest[second.len() as int] == mark);
        assert(s =~= first.push(mark) + second.push(mark) + third);
        lemma_larger_limit(first, max, 65535);
        assert(three_read(s, mark, numbers, (first, second, third)));
    }
}

/// A number that is read up to a limit is read up to a larger one.
proof fn lemma_larger_limit(s: Seq<char>, max: nat, larger: nat)
    requires
        max <= larger,
        text::number_up_to(s, max) is Some,
    ensures
        text::number_up_to(s, larger) == text::number_up_to(s, max),
        text::number_up_to(s, max)->0 <= max,
{
}

/// Only an answer that carries a time is read: behind its first quotation mark
/// stand three numbers with slashes, a comma, and three numbers with colons, up
/// to the zone or to the next quotation mark.
pub proof fn law_only_times_are_read(s: Seq<char>, fields: CclkFields) -> (parts: (
    Seq<char>,
    Seq<char>,
    Seq<char>,
    Seq<char>,
))
    requires
        cclk_numbers(s) == Some(fields),
    ensures
        s == parts.0.push('"') + parts.1.push(',') + parts.2 + parts.3,
        !parts.0.contains('"'),
        parts.3.len() > 0 ==> parts.3[0] == '"' || parts.3[0] == '+' || parts.3[0] == '-',
        is_three(parts.1, '/', (fields.year as nat, fields.month as nat, fields.day as nat)),
        is_three(parts.2, ':', (fields.hour as nat, fields.minute as nat, fields.second as nat)),
{
    let (front, inner, behind) = lemma_first_quotes(s);
    let (date, later, _) = lemma_split_at_first(inner, seq![',']);
    let (time, zone) = lemma_before_the_zone(later);
    lemma_numbers_of_parts(s, fields, inner, date, later);
    lemma_three_are_written(date, '/', 65535);
    lemma_three_are_written(time, ':', 255);
    lemma_put_together(s, front, inner, behind, date, later, time, zone);
    (front, date, time, zone + behind)
}

/// What stands in front of the first quotation mark of a text, what stands
/// behind it up to the next one, and the rest.
proof fn lemma_first_quotes(s: Seq<char>) -> (parts: (Seq<char>, Seq<char>, Seq<char>))
    requires
        quoted_part(s) is Some,
    ensures
        quoted_part(s) == Some(parts.1),
        parts.0.len() < s.len(),
        parts.0 == s.take(parts.0.len() as int),
        !parts.0.contains('"'),
        s[parts.0.len() as int] == '"',
        s.skip(parts.0.len() as int + 1) == parts.1 + parts.2,
        parts.2.len() > 0 ==> parts.2[0] == '"',
{
    let quotes = seq!['"'];
    assert(quotes[0] == '"');
    let (front, rest, from) = lemma_split_at_first(s, quotes);
    let (inner, _, behind) = lemma_split_at_first(rest, quotes);
    lemma_second_piece(s, front, inner);
    assert(rest =~= inner + behind);
    assert(from[0] == s[front.len() as int]);
    (front, inner, behind)
}

/// A time of day in front of its zone.
proof fn lemma_before_the_zone(s: Seq<char>) -> (parts: (Seq<char>, Seq<char>))
    ensures
        parts.0 == without_zone(s),
        s == parts.0 + parts.1,
        parts.1.len() > 0 ==> parts.1[0] == '+' || parts.1[0] == '-',
{
    let (time, _, zone) = lemma_split_at_first(s, seq!['+', '-']);
    assert(s =~= time + zone);
    (time, zone)
}

/// A text up to its first separator, what stands behind the separator, and
/// everything from the separator on.
proof fn lemma_split_at_first(s: Seq<char>, separators: Seq<char>) -> (parts: (
    Seq<char>,
    Seq<char>,
    Seq<char>,
))
    ensures
        parts.0 == text::pieces(s, separators)[0],
        parts.0.len() <= s.len(),
        parts.0 == s.take(parts.0.len() as int),
        parts.1 == s.skip(parts.0.len() as int + 1),
        parts.2 == s.skip(parts.0.len() as int),
        parts.2.len() > 0 ==> separators.contains(parts.2[0]),
        forall|i: int| 0 <= i < parts.0.len() ==> !separators.contains(#[trigger] parts.0[i]),
        text::pieces(s, separators).len() >= 2 ==> parts.2.len() > 0,
        text::pieces(s, separators).len() < 2 ==> parts.2.len() == 0,
{
    text::law_first_piece(s, separators);
    let first = text::pieces(s, separators)[0];
    if text::pieces(s, separators).len() == 1 {
        assert(s.take(first.len() as int) =~= s);
    }
    (first, s.skip(first.len() as int + 1), s.skip(first.len() as int))
}

/// The second piece of a text is the first one of what stands behind its first
/// separator.
proof fn lemma_second_piece(s: Seq<char>, front: Seq<char>, inner: Seq<char>)
    requires
        text::pieces(s, seq!['"']).len() >= 2,
        front == text::pieces(s, seq!['"'])[0],
        inner == text::pieces(s.skip(front.len() as int + 1), seq!['"'])[0],
    ensures
        quoted_part(s) == Some(inner),
{
    text::law_first_piece(s, seq!['"']);
    let parts = text::pieces(s, seq!['"']);
    assert(parts.skip(1)[0] == parts[1]);
}

/// The numbers of an answer are those of its date and of its time of day.
proof fn lemma_numbers_of_parts(
    s: Seq<char>,
    fields: CclkFields,
    inner: Seq<char>,
    date: Seq<char>,
    later: Seq<char>,
)
    requires
        cclk_numbers(s) == Some(fields),
        quoted_part(s) == Some(inner),
        date == text::pieces(inner, seq![','])[0],
        later == inner.skip(date.len() as int + 1),
    ensures
        date.len() < inner.len(),
        date == inner.take(date.len() as int),
        inner[date.len() as int] == ',',
        three_numbers(date, '/', 65535) == Some(
            (fields.year as nat, fields.month as nat, fields.day as nat),
        ),
        three_numbers(without_zone(later), ':', 255) == Some(
            (fields.hour as nat, fields.minute as nat, fields.second as nat),
        ),
{
    text::law_first_piece(inner, seq![',']);
    lemma_three_are_written(date, '/', 65535);
    lemma_three_are_written(without_zone(later), ':', 255);
}

/// The parts of an answer, put together again.
proof fn lemma_put_together(
    s: Seq<char>,
    front: Seq<char>,
    inner: Seq<char>,
    behind: Seq<char>,
    date: Seq<char>,
    later: Seq<char>,
    time: Seq<char>,
    zone: Seq<char>,
)
    requires
        front.len() < s.len(),
        front == s.take(front.len() as int),
        s[front.len() as int] == '"',
        s.skip(front.len() as int + 1) == inner + behind,
        date.len() < inner.len(),
        date == inner.take(date.len() as int),
        inner[date.len() as int] == ',',
        later == inner.skip(date.len() as int + 1),
        later == time + zone,
    ensures
        s == front.push('"') + date.push(',') + time + (zone + behind),
{
    assert(inner =~= date.push(',') + later);
    assert(s =~= front.push('"') + s.skip(front.len() as int + 1));
    assert(s =~= front.push('"') + date.push(',') + time + (zone + behind));
}

/// An answer without readable numbers gives no time, and is told apart from one
/// whose time cannot be.
pub proof fn law_unreadable_answers(s: Seq<char>)
    ensures
        clock_reading(s) == ClockReading::Unreadable <==> cclk_numbers(s) is None,
        cclk_time(s) is None <==> cclk_numbers(s) is None,
        cclk_numbers(s) matches Some(fields) ==> fields.year <= 63535 ==> cclk_time(s)->0.year
            == 2000 + fields.year,
{
}

} // verus!
