//! AT commands of the SIM800L, and what its replies mean.

use vstd::prelude::*;

use crate::bounded;
use crate::text;

verus! {

// ---------------------------------------------------------------------------
// Replies
// ---------------------------------------------------------------------------

/// Fixed-capacity string of the AT client.
#[verifier::external_type_specification]
#[verifier::external_body]
pub struct ExHeaplessString<const N: usize>(atat::heapless::String<N>);

/// The command is answered by a result code alone.
#[derive(Debug, Clone, Copy, PartialEq, Eq)]
pub struct NoResponse;

/// `+CPIN: READY`
#[derive(Debug)]
pub struct PinStatus {
    pub code: atat::heapless::String<16>,
}

/// `+CSQ: <rssi>,<ber>`; an `rssi` of 31 stands for -52 dBm, 99 means "not
/// known".
#[derive(Debug, Clone, Copy, PartialEq, Eq)]
pub struct SignalQuality {
    pub rssi: u8,
    pub ber: u8,
}

/// `+CREG: <n>,<stat>` and `+CGREG: <n>,<stat>`.
#[derive(Debug, Clone, Copy, PartialEq, Eq)]
pub struct RegistrationStatus {
    pub n: u8,
    pub stat: u8,
}

/// Whether a `<stat>` means "registered": 1 at home, 5 in roaming.
pub open spec fn registered(stat: u8) -> bool {
    stat == 1 || stat == 5
}

impl RegistrationStatus {
    /// Whether the modem is registered.
    pub fn is_registered(&self) -> (r: bool)
        ensures
            r == registered(self.stat),
    {
        self.stat == 1 || self.stat == 5
    }
}

/// `+CGATT: <state>`
#[derive(Debug, Clone, Copy, PartialEq, Eq)]
pub struct GprsAttachState {
    pub state: u8,
}

/// A line of free text.
#[derive(Debug)]
pub struct InfoText {
    pub text: atat::heapless::String<64>,
}

/// How many bytes of a reply are kept.
pub const RAW_LINE_SIZE: usize = 384;

/// A reply as it came, without fields.
///
/// For replies whose form varies: `AT+COPS?` answers with one field or with
/// three.
#[derive(Debug)]
pub struct RawLine {
    pub text: atat::heapless::String<384>,
}

/// The characters that the text of a raw line holds.
pub uninterp spec fn raw_text(text: atat::heapless::String<384>) -> Seq<char>;

/// `heapless::String::new`: an empty string.
#[verifier::external_body]
fn new_raw_text() -> (r: atat::heapless::String<384>)
    ensures
        raw_text(r) == Seq::<char>::empty(),
{
    atat::heapless::String::new()
}

/// `heapless::String::push`: appends the character when its bytes still fit in
/// the 384 of the string, and leaves the string as it was when they do not.
/// Tells which.
#[verifier::external_body]
fn push_raw_text(text: &mut atat::heapless::String<384>, c: char) -> (r: bool)
    ensures
        r == (bounded::byte_len(raw_text(*old(text))) + bounded::byte_len(seq![c]) <= 384),
        raw_text(*final(text)) == (if r {
            raw_text(*old(text)).push(c)
        } else {
            raw_text(*old(text))
        }),
{
    text.push(c).is_ok()
}

/// `heapless::String::as_str`: the string as a slice.
#[verifier::external_body]
fn raw_text_slice(text: &atat::heapless::String<384>) -> (r: &str)
    ensures
        r@ == raw_text(*text),
{
    text.as_str()
}

impl RawLine {
    /// The text of the line.
    pub fn as_str(&self) -> (r: &str)
        ensures
            r@ == raw_text(self.text),
    {
        raw_text_slice(&self.text)
    }
}

/// How many leading characters fit in `capacity` bytes.
pub open spec fn fitting(chars: Seq<char>, capacity: nat) -> nat
    decreases chars.len(),
{
    if chars.len() == 0 || bounded::byte_len(chars) <= capacity {
        chars.len()
    } else {
        fitting(chars.drop_last(), capacity)
    }
}

proof fn lemma_fitting(chars: Seq<char>, count: int, capacity: nat)
    requires
        0 <= count < chars.len(),
        bounded::byte_len(chars.take(count)) <= capacity,
        bounded::byte_len(chars.take(count + 1)) > capacity,
    ensures
        fitting(chars, capacity) == count,
    decreases chars.len(),
{
    let rest = chars.skip(count + 1);
    assert(chars =~= chars.take(count + 1) + rest);
    bounded::lemma_byte_len_add(chars.take(count + 1), rest);
    let shorter = chars.drop_last();
    if count + 1 < chars.len() {
        assert(shorter.take(count) =~= chars.take(count));
        assert(shorter.take(count + 1) =~= chars.take(count + 1));
        lemma_fitting(shorter, count, capacity);
    } else {
        assert(shorter =~= chars.take(count));
        assert(fitting(shorter, capacity) == count);
    }
    assert(fitting(chars, capacity) == fitting(shorter, capacity));
}

/// Keeps a reply, cut to what the buffer holds.
///
/// Cutting is meant: a list of networks is longer than any sensible buffer, and
/// its beginning is enough. A character is never cut in two.
pub fn parse_raw_line(resp: &[u8]) -> (r: Result<RawLine, core::str::Utf8Error>)
    ensures
        r is Ok <==> vstd::utf8::valid_utf8(resp@),
        r matches Ok(line) ==> raw_text(line.text) == vstd::utf8::decode_utf8(resp@).take(
            fitting(vstd::utf8::decode_utf8(resp@), RAW_LINE_SIZE as nat) as int,
        ),
        r matches Err(error) ==> error == text::utf8_error(resp@),
{
    let s: &str = match core::str::from_utf8(resp) {
        Ok(s) => s,
        Err(error) => return Err(error),
    };
    let chars = text::chars_of(s);
    let mut text = new_raw_text();
    let mut i: usize = 0;
    proof {
        bounded::lemma_byte_len_empty();
        assert(chars@.take(0) =~= Seq::<char>::empty());
    }
    while i < chars.len()
        invariant
            i <= chars@.len(),
            chars@ == vstd::utf8::decode_utf8(resp@),
            vstd::utf8::valid_utf8(resp@),
            raw_text(text) == chars@.take(i as int),
            bounded::byte_len(chars@.take(i as int)) <= RAW_LINE_SIZE,
        decreases chars@.len() - i,
    {
        proof {
            assert(chars@.take(i + 1) =~= chars@.take(i as int) + seq![chars@[i as int]]);
            assert(chars@.take(i + 1) =~= chars@.take(i as int).push(chars@[i as int]));
            bounded::lemma_byte_len_add(chars@.take(i as int), seq![chars@[i as int]]);
        }
        if !push_raw_text(&mut text, chars[i]) {
            proof {
                lemma_fitting(chars@, i as int, RAW_LINE_SIZE as nat);
            }
            return Ok(RawLine { text });
        }
        i = i + 1;
    }
    proof {
        assert(chars@.take(i as int) =~= chars@);
    }
    Ok(RawLine { text })
}

/// A kept reply never takes more than the buffer holds, and a reply that fits
/// is kept whole.
pub proof fn law_raw_line_is_cut_to_size(chars: Seq<char>, capacity: nat)
    ensures
        fitting(chars, capacity) <= chars.len(),
        bounded::byte_len(chars.take(fitting(chars, capacity) as int)) <= capacity,
        bounded::byte_len(chars) <= capacity ==> fitting(chars, capacity) == chars.len(),
    decreases chars.len(),
{
    if chars.len() == 0 || bounded::byte_len(chars) <= capacity {
        assert(chars.take(chars.len() as int) =~= chars);
        bounded::lemma_byte_len_empty();
        if chars.len() == 0 {
            assert(chars =~= Seq::<char>::empty());
        }
    } else {
        let shorter = chars.drop_last();
        law_raw_line_is_cut_to_size(shorter, capacity);
        assert(shorter.take(fitting(shorter, capacity) as int) =~= chars.take(
            fitting(shorter, capacity) as int,
        ));
    }
}

/// `+CMTI: "<storage>",<index>`: a new SMS has come.
#[derive(Debug)]
pub struct NewMessageIndex {
    pub storage: atat::heapless::String<8>,
    pub index: u32,
}

/// Messages that the modem sends of its own accord. None of their tags ever
/// begins a reply to a command.
#[derive(Debug)]
pub enum Urc {
    /// The module has started.
    Ready,
    /// Voice is ready.
    CallReady,
    /// SMS is ready.
    SmsReady,
    /// The module goes down, as a rule for lack of power.
    PowerDown,
    /// The network has dropped the PDP context.
    PdpDeactivated,
    /// An SMS has come: where the modem has put it.
    NewMessage(NewMessageIndex),
}

/// The tags of those messages, in the order of their variants.
pub open spec fn tag_list() -> Seq<&'static str> {
    seq!["RDY", "Call Ready", "SMS Ready", "NORMAL POWER DOWN", "+PDP", "+CMTI"]
}

/// The tags of the messages that the modem sends of its own accord.
pub fn urc_tags() -> (r: [&'static str; 6])
    ensures
        r@ == tag_list(),
{
    let tags: [&'static str; 6] = [
        "RDY",
        "Call Ready",
        "SMS Ready",
        "NORMAL POWER DOWN",
        "+PDP",
        "+CMTI",
    ];
    assert(tags@ =~= tag_list());
    tags
}

/// How many bytes stand in front of the first colon of a line, or in the whole
/// line without one.
pub open spec fn tag_len(line: Seq<u8>) -> nat
    decreases line.len(),
{
    if line.len() == 0 || line[0] == 0x3A {
        0
    } else {
        1 + tag_len(line.skip(1))
    }
}

/// The tag of a line: what stands in front of its first colon.
pub open spec fn tag_of(line: Seq<u8>) -> Seq<u8> {
    line.take(tag_len(line) as int)
}

/// What a line says, if it is a message that the modem sends of its own accord.
/// `notice` holds the fields of the line, if they could be read.
pub open spec fn urc_of(line: Seq<u8>, notice: Option<NewMessageIndex>) -> Option<Urc> {
    let tag = tag_of(line);
    if text::spells(tag, "RDY"@) {
        Some(Urc::Ready)
    } else if text::spells(tag, "Call Ready"@) {
        Some(Urc::CallReady)
    } else if text::spells(tag, "SMS Ready"@) {
        Some(Urc::SmsReady)
    } else if text::spells(tag, "NORMAL POWER DOWN"@) {
        Some(Urc::PowerDown)
    } else if text::spells(tag, "+PDP"@) {
        Some(Urc::PdpDeactivated)
    } else if text::spells(tag, "+CMTI"@) {
        match notice {
            Some(notice) => Some(Urc::NewMessage(notice)),
            None => None,
        }
    } else {
        None
    }
}

fn find_colon(line: &[u8]) -> (r: usize)
    ensures
        r == tag_len(line@),
        r <= line@.len(),
{
    let mut i: usize = 0;
    proof {
        assert(line@.skip(0) =~= line@);
    }
    while i < line.len() && line[i] != 0x3A
        invariant
            i <= line@.len(),
            tag_len(line@) == i + tag_len(line@.skip(i as int)),
        decreases line@.len() - i,
    {
        proof {
            assert(line@.skip(i as int).skip(1) =~= line@.skip(i + 1));
        }
        i = i + 1;
    }
    i
}

impl Urc {
    /// Reads a line that the modem sent of its own accord. `notice` holds the
    /// fields of the line, if they could be read: a new SMS is nothing without
    /// its place.
    pub fn parse(line: &[u8], notice: Option<NewMessageIndex>) -> (r: Option<Urc>)
        ensures
            r == urc_of(line@, notice),
    {
        let tag: &[u8] = &line[0..find_colon(line)];
        assert(tag@ =~= tag_of(line@));
        if text::is_spelling(tag, "RDY") {
            Some(Urc::Ready)
        } else if text::is_spelling(tag, "Call Ready") {
            Some(Urc::CallReady)
        } else if text::is_spelling(tag, "SMS Ready") {
            Some(Urc::SmsReady)
        } else if text::is_spelling(tag, "NORMAL POWER DOWN") {
            Some(Urc::PowerDown)
        } else if text::is_spelling(tag, "+PDP") {
            Some(Urc::PdpDeactivated)
        } else if text::is_spelling(tag, "+CMTI") {
            match notice {
                Some(notice) => Some(Urc::NewMessage(notice)),
                None => None,
            }
        } else {
            None
        }
    }
}

/// A line is a message of the modem's own accord exactly when its tag is in the
/// list, as long as the fields of the line can be read.
pub proof fn law_listed_tags_are_the_messages(line: Seq<u8>, notice: NewMessageIndex)
    ensures
        urc_of(line, Some(notice)) is Some <==> exists|k: int|
            0 <= k < 6 && text::spells(tag_of(line), #[trigger] tag_list()[k]@),
{
    assert(tag_list()[0] == "RDY");
    assert(tag_list()[1] == "Call Ready");
    assert(tag_list()[2] == "SMS Ready");
    assert(tag_list()[3] == "NORMAL POWER DOWN");
    assert(tag_list()[4] == "+PDP");
    assert(tag_list()[5] == "+CMTI");
}

/// The names that begin the replies to our own commands.
pub open spec fn reply_names() -> Seq<&'static str> {
    seq![
        "+CPIN",
        "+CSQ",
        "+CREG",
        "+CGREG",
        "+CGATT",
        "+CCLK",
        "+CPMS",
        "+CMGR",
        "+CMGS",
        "+COPS",
    ]
}

/// No reply to a command is ever taken for a message of the modem's own accord:
/// it would never reach whoever waits for it.
pub proof fn law_tags_do_not_shadow_replies(
    line: Seq<u8>,
    k: int,
    notice: Option<NewMessageIndex>,
)
    requires
        0 <= k < reply_names().len(),
        text::spells(tag_of(line), reply_names()[k]@),
    ensures
        urc_of(line, notice) is None,
{
    reveal_strlit("RDY");
    reveal_strlit("Call Ready");
    reveal_strlit("SMS Ready");
    reveal_strlit("NORMAL POWER DOWN");
    reveal_strlit("+PDP");
    reveal_strlit("+CMTI");
    reveal_strlit("+CPIN");
    reveal_strlit("+CSQ");
    reveal_strlit("+CREG");
    reveal_strlit("+CGREG");
    reveal_strlit("+CGATT");
    reveal_strlit("+CCLK");
    reveal_strlit("+CPMS");
    reveal_strlit("+CMGR");
    reveal_strlit("+CMGS");
    reveal_strlit("+COPS");
    let tag = tag_of(line);
    let name = reply_names()[k]@;
    assert(tag[0] as u32 == name[0] as u32);
    assert(tag[1] as u32 == name[1] as u32);
    assert(tag[2] as u32 == name[2] as u32);
    assert(tag[3] as u32 == name[3] as u32);
}

// ---------------------------------------------------------------------------
// SIM identity
// ---------------------------------------------------------------------------

/// Whether the bytes from `from` to `to` of a text are whole characters of it.
pub open spec fn sliceable(s: Seq<char>, from: int, to: int) -> bool {
    let bytes = vstd::utf8::encode_utf8(s);
    &&& 0 <= from <= to <= bytes.len()
    &&& vstd::utf8::is_char_boundary(bytes, from)
    &&& vstd::utf8::is_char_boundary(bytes, to)
}

/// The characters in the bytes from `from` to `to` of a text.
pub open spec fn byte_slice(s: Seq<char>, from: int, to: int) -> Seq<char> {
    vstd::utf8::decode_utf8(vstd::utf8::encode_utf8(s).subrange(from, to))
}

proof fn lemma_boundary_of_head(bytes: Seq<u8>, index: int, to: int)
    requires
        vstd::utf8::valid_utf8(bytes),
        0 <= index <= to <= bytes.len(),
        vstd::utf8::is_char_boundary(bytes, index),
        vstd::utf8::is_char_boundary(bytes, to),
    ensures
        vstd::utf8::valid_utf8(bytes.subrange(0, to)),
        vstd::utf8::is_char_boundary(bytes.subrange(0, to), index),
{
    vstd::utf8::valid_utf8_split(bytes, to);
    let head = bytes.subrange(0, to);
    if index < to {
        vstd::utf8::is_char_boundary_iff_is_leading_byte(bytes, index);
        vstd::utf8::is_char_boundary_iff_is_leading_byte(head, index);
    } else {
        vstd::utf8::is_char_boundary_start_end_of_seq(head);
    }
}

/// The text in the bytes from `from` to `to`, if they are whole characters.
fn get_bytes(s: &str, from: usize, to: usize) -> (r: Option<&str>)
    requires
        from <= to,
    ensures
        r is Some <==> sliceable(s@, from as int, to as int),
        r matches Some(part) ==> part@ == byte_slice(s@, from as int, to as int),
{
    proof {
        vstd::utf8::encode_utf8_valid_utf8(s@);
    }
    let bytes: &[u8] = s.as_bytes();
    if to > bytes.len() || !s.is_char_boundary(from) || !s.is_char_boundary(to) {
        return None;
    }
    proof {
        lemma_boundary_of_head(vstd::utf8::encode_utf8(s@), from as int, to as int);
    }
    let (head, _) = s.split_at(to);
    let (_, part) = head.split_at(from);
    proof {
        assert(vstd::utf8::encode_utf8(part@) =~= vstd::utf8::encode_utf8(s@).subrange(
            from as int,
            to as int,
        ));
        vstd::utf8::encode_utf8_decode_utf8(part@);
    }
    Some(part)
}

/// The country code of an IMSI.
pub open spec fn mcc_of(imsi: Seq<char>) -> Seq<char> {
    if sliceable(imsi, 0, 3) {
        byte_slice(imsi, 0, 3)
    } else {
        "???"@
    }
}

/// Whether operator codes of a country have three digits: North America, whose
/// country codes are 300 to 399.
pub open spec fn has_long_mnc(mcc: Seq<char>) -> bool {
    &&& mcc.len() == 3
    &&& mcc[0] == '3'
    &&& '0' <= mcc[1] <= '9'
    &&& '0' <= mcc[2] <= '9'
}

fn is_long_mnc(mcc: &str) -> (r: bool)
    ensures
        r == has_long_mnc(mcc@),
{
    let chars = text::chars_of(mcc);
    chars.len() == 3 && chars[0] == '3' && '0' <= chars[1] && chars[1] <= '9' && '0' <= chars[2]
        && chars[2] <= '9'
}

/// The operator code of an IMSI.
pub open spec fn mnc_of(imsi: Seq<char>) -> Seq<char> {
    let end: int = if has_long_mnc(mcc_of(imsi)) {
        6
    } else {
        5
    };
    if sliceable(imsi, 3, end) {
        byte_slice(imsi, 3, end)
    } else {
        "??"@
    }
}

/// Country code: the first three digits of an IMSI. `"???"` if it is shorter.
pub fn imsi_mcc(imsi: &str) -> (r: &str)
    ensures
        r@ == mcc_of(imsi@),
{
    match get_bytes(imsi, 0, 3) {
        Some(mcc) => mcc,
        None => "???",
    }
}

/// Operator code, which follows the country code: three digits in North
/// America (country codes 3xx), two elsewhere. `"??"` if the IMSI is shorter.
pub fn imsi_mnc(imsi: &str) -> (r: &str)
    ensures
        r@ == mnc_of(imsi@),
{
    let end: usize = if is_long_mnc(imsi_mcc(imsi)) {
        6
    } else {
        5
    };
    match get_bytes(imsi, 3, end) {
        Some(mnc) => mnc,
        None => "??",
    }
}

// ---------------------------------------------------------------------------
// Replies that are not lines
// ---------------------------------------------------------------------------

/// Why bytes were not recognised.
#[derive(Debug, Clone, Copy, PartialEq, Eq, Structural)]
pub enum ParseError {
    /// They may still become what was looked for.
    Incomplete,
    /// They are something else.
    NoMatch,
}

/// Whether bytes begin with others.
pub open spec fn begins_with(buf: Seq<u8>, token: Seq<u8>) -> bool {
    buf.len() >= token.len() && buf.take(token.len() as int) == token
}

fn starts_with(buf: &[u8], token: &[u8]) -> (r: bool)
    ensures
        r == begins_with(buf@, token@),
{
    if buf.len() < token.len() {
        return false;
    }
    let mut i: usize = 0;
    while i < token.len()
        invariant
            i <= token@.len() <= buf@.len(),
            forall|k: int| 0 <= k < i ==> buf@[k] == token@[k],
        decreases token@.len() - i,
    {
        if buf[i] != token[i] {
            assert(buf@.take(token@.len() as int)[i as int] != token@[i as int]);
            return false;
        }
        i = i + 1;
    }
    assert(buf@.take(token@.len() as int) =~= token@);
    true
}

/// `\r\nSHUT OK\r\n`
pub open spec fn shut_ok_token() -> Seq<u8> {
    seq![0x0Du8, 0x0A, 0x53, 0x48, 0x55, 0x54, 0x20, 0x4F, 0x4B, 0x0D, 0x0A]
}

/// Recognises `SHUT OK`, the odd success reply to `AT+CIPSHUT`: an empty body,
/// and how many bytes to consume.
///
/// It has to stand at the very beginning, so that no other reply in front of it
/// is swallowed.
pub fn parse_shut_ok(buf: &[u8]) -> (r: Result<(&[u8], usize), ParseError>)
    ensures
        begins_with(buf@, shut_ok_token()) ==> (r matches Ok((body, used)) && body@.len() == 0
            && used == 11),
        !begins_with(buf@, shut_ok_token()) ==> r == Err::<(&[u8], usize), ParseError>(
            ParseError::NoMatch,
        ),
{
    let token: [u8; 11] = [0x0D, 0x0A, 0x53, 0x48, 0x55, 0x54, 0x20, 0x4F, 0x4B, 0x0D, 0x0A];
    assert(token@ =~= shut_ok_token());
    if starts_with(buf, &token) {
        Ok((&buf[0..0], 11))
    } else {
        Err(ParseError::NoMatch)
    }
}

/// The bytes behind a leading line break, or all of them without one.
pub open spec fn behind_line_break(buf: Seq<u8>) -> Seq<u8> {
    if begins_with(buf, seq![0x0Du8, 0x0A]) {
        buf.skip(2)
    } else {
        buf
    }
}

/// Recognises the prompt `> ` for the text of an SMS, with or without a line
/// break in front: the prompt character, and how many bytes to consume.
pub fn parse_sms_prompt(buf: &[u8]) -> (r: Result<(u8, usize), ParseError>)
    ensures
        r == ({
            let rest = behind_line_break(buf@);
            if begins_with(rest, seq![0x3Eu8, 0x20]) {
                Ok::<(u8, usize), ParseError>((0x3E, (buf@.len() - rest.len() + 2) as usize))
            } else if rest == seq![0x3Eu8] {
                Err(ParseError::Incomplete)
            } else {
                Err(ParseError::NoMatch)
            }
        }),
{
    let line_break: [u8; 2] = [0x0D, 0x0A];
    let prompt: [u8; 2] = [0x3E, 0x20];
    assert(line_break@ =~= seq![0x0Du8, 0x0A]);
    assert(prompt@ =~= seq![0x3Eu8, 0x20]);
    let skipped: usize = if starts_with(buf, &line_break) {
        2
    } else {
        0
    };
    let rest: &[u8] = &buf[skipped..buf.len()];
    assert(rest@ =~= behind_line_break(buf@));
    if starts_with(rest, &prompt) {
        Ok((0x3E, skipped + 2))
    } else if rest.len() == 1 && rest[0] == 0x3E {
        assert(rest@ =~= seq![0x3Eu8]);
        Err(ParseError::Incomplete)
    } else {
        Err(ParseError::NoMatch)
    }
}

// ---------------------------------------------------------------------------
// SMS
// ---------------------------------------------------------------------------

/// Longest text of one SMS, in characters of the seven-bit alphabet.
pub const SMS_MAX_LEN: usize = 160;

/// Ends the text of an SMS and sends it.
pub const CTRL_Z: u8 = 0x1A;

/// Cancels the text of an SMS.
pub const ESC: u8 = 0x1B;

/// Whether a text is a number to send to: 5 to 20 digits.
pub open spec fn is_phone(number: Seq<char>) -> bool {
    &&& 5 <= number.len() <= 20
    &&& forall|i: int| 0 <= i < number.len() ==> text::is_digit(#[trigger] number[i])
}

/// Whether an SMS can be sent to a number.
///
/// Digits alone: a plus sign is a wildcard in a topic, so numbers travel
/// without it and get it back right before sending.
pub fn valid_phone(number: &str) -> (r: bool)
    ensures
        r == is_phone(number@),
{
    let chars = text::chars_of(number);
    if chars.len() < 5 || chars.len() > 20 {
        return false;
    }
    let mut i: usize = 0;
    while i < chars.len()
        invariant
            i <= chars@.len(),
            chars@ == number@,
            5 <= chars@.len() <= 20,
            forall|k: int| 0 <= k < i ==> text::is_digit(#[trigger] chars@[k]),
        decreases chars@.len() - i,
    {
        if chars[i] < '0' || chars[i] > '9' {
            assert(!text::is_digit(number@[i as int]));
            return false;
        }
        i = i + 1;
    }
    true
}

/// A number in the form in which it is sent: with its plus sign.
pub fn international(number: &str) -> (r: String)
    ensures
        r@ == "+"@ + number@,
{
    let mut full = String::from_str("+");
    full.append(number);
    full
}

/// Whether a character may stand in an SMS: ASCII, but neither of the two that
/// end the input.
pub open spec fn is_plain(c: char) -> bool {
    (c as u32) < 128 && c as u32 != CTRL_Z && c as u32 != ESC
}

/// Whether a text can be sent in one SMS.
pub open spec fn is_sendable(s: Seq<char>) -> bool {
    &&& 1 <= s.len() <= SMS_MAX_LEN
    &&& forall|i: int| 0 <= i < s.len() ==> is_plain(#[trigger] s[i])
}

/// Whether a text can be sent in the seven-bit alphabet.
///
/// Other alphabets would need another encoding of the whole message; refusing
/// is better than sending gibberish.
pub fn sms_text_is_sendable(message: &str) -> (r: bool)
    ensures
        r == is_sendable(message@),
{
    let chars = text::chars_of(message);
    if chars.len() < 1 || chars.len() > SMS_MAX_LEN {
        return false;
    }
    let mut i: usize = 0;
    while i < chars.len()
        invariant
            i <= chars@.len(),
            chars@ == message@,
            1 <= chars@.len() <= SMS_MAX_LEN,
            forall|k: int| 0 <= k < i ==> is_plain(#[trigger] chars@[k]),
        decreases chars@.len() - i,
    {
        let code: u32 = chars[i] as u32;
        if code >= 128 || code == CTRL_Z as u32 || code == ESC as u32 {
            assert(!is_plain(message@[i as int]));
            return false;
        }
        i = i + 1;
    }
    true
}

/// Text of an SMS with the Ctrl-Z that sends it.
///
/// No `AT` in front, no carriage return behind: the modem waits for the bare
/// text after its prompt.
#[derive(Debug, Clone, Copy, PartialEq, Eq)]
pub struct SmsBody<'a> {
    pub text: &'a str,
}

/// What goes to the modem for a text: at most 160 bytes of it, and Ctrl-Z.
pub open spec fn sms_octets(message: Seq<char>) -> Seq<u8> {
    let bytes = vstd::utf8::encode_utf8(message);
    if bytes.len() > SMS_MAX_LEN {
        bytes.take(SMS_MAX_LEN as int).push(CTRL_Z)
    } else {
        bytes.push(CTRL_Z)
    }
}

impl<'a> SmsBody<'a> {
    /// Writes the text and Ctrl-Z to the front of `buf` and returns how many
    /// bytes that took.
    pub fn write(&self, buf: &mut [u8]) -> (r: usize)
        requires
            sms_octets(self.text@).len() <= old(buf)@.len(),
        ensures
            r == sms_octets(self.text@).len(),
            final(buf)@ == sms_octets(self.text@) + old(buf)@.skip(r as int),
    {
        let bytes: &[u8] = self.text.as_bytes();
        let len: usize = if bytes.len() > SMS_MAX_LEN {
            SMS_MAX_LEN
        } else {
            bytes.len()
        };
        let ghost start = buf@;
        crate::cmux::copy_into(buf, 0, &bytes[0..len]);
        buf[len] = CTRL_Z;
        assert(bytes@.subrange(0, len as int) =~= bytes@.take(len as int));
        assert(bytes@.take(bytes@.len() as int) =~= bytes@);
        assert(buf@ =~= sms_octets(self.text@) + start.skip(len + 1));
        len + 1
    }

    /// Reads the reply to the text: the number of the message that was sent.
    pub fn parse(&self, resp: &[u8]) -> (r: Result<RawLine, core::str::Utf8Error>)
        ensures
            r is Ok <==> vstd::utf8::valid_utf8(resp@),
            r matches Ok(line) ==> raw_text(line.text) == vstd::utf8::decode_utf8(resp@).take(
                fitting(vstd::utf8::decode_utf8(resp@), RAW_LINE_SIZE as nat) as int,
            ),
            r matches Err(error) ==> error == text::utf8_error(resp@),
    {
        parse_raw_line(resp)
    }
}

/// A text that passed the check goes out whole, and nothing in it ends the
/// input before its own Ctrl-Z.
pub proof fn law_sendable_text_goes_out_whole(message: Seq<char>)
    requires
        is_sendable(message),
    ensures
        sms_octets(message) == vstd::utf8::encode_utf8(message).push(CTRL_Z),
        vstd::utf8::encode_utf8(message).len() == message.len(),
        forall|i: int|
            0 <= i < message.len() ==> #[trigger] vstd::utf8::encode_utf8(message)[i] != CTRL_Z
                && vstd::utf8::encode_utf8(message)[i] != ESC,
{
    bounded::lemma_byte_len_ascii(message);
    lemma_plain_octets(message);
}

proof fn lemma_plain_octets(message: Seq<char>)
    requires
        forall|i: int| 0 <= i < message.len() ==> is_plain(#[trigger] message[i]),
    ensures
        vstd::utf8::encode_utf8(message).len() == message.len(),
        forall|i: int|
            0 <= i < message.len() ==> #[trigger] vstd::utf8::encode_utf8(message)[i]
                == message[i] as u32,
    decreases message.len(),
{
    if message.len() > 0 {
        let rest = message.drop_first();
        lemma_plain_octets(rest);
        let code = message[0] as u32;
        assert(code < 128 ==> (code & 0x7F) as u8 == code) by (bit_vector);
        assert forall|i: int| 0 <= i < message.len() implies #[trigger] vstd::utf8::encode_utf8(
            message,
        )[i] == message[i] as u32 by {
            if i > 0 {
                assert(vstd::utf8::encode_utf8(message)[i] == vstd::utf8::encode_utf8(rest)[i - 1]);
                assert(rest[i - 1] == message[i]);
            }
        }
    }
}

// ---------------------------------------------------------------------------
// Commands
// ---------------------------------------------------------------------------

/// A command as it goes to the modem: `AT`, the name, and behind `=` the fields,
/// ended by a carriage return.
pub trait AtCommand {
    /// The line that is sent.
    spec fn line(&self) -> Seq<char>;

    /// The line that is sent.
    fn text(&self) -> (r: String)
        ensures
            r@ == self.line(),
    ;
}

/// `AT`: checks the link and starts speed detection.
#[derive(Debug, Clone, Copy, PartialEq, Eq)]
pub struct At;

impl AtCommand for At {
    open spec fn line(&self) -> Seq<char> {
        "AT\r"@
    }

    fn text(&self) -> String {
        String::from_str("AT\r")
    }
}

/// `ATE0`: no echo, which would only be in the way of reading replies.
#[derive(Debug, Clone, Copy, PartialEq, Eq)]
pub struct DisableEcho;

impl AtCommand for DisableEcho {
    open spec fn line(&self) -> Seq<char> {
        "ATE0\r"@
    }

    fn text(&self) -> String {
        String::from_str("ATE0\r")
    }
}

/// `AT&W`: keeps the settings in the profile of the module.
///
/// Writes to memory that wears out, so it must not be sent on every reconnect.
#[derive(Debug, Clone, Copy, PartialEq, Eq)]
pub struct SaveSettings;

impl AtCommand for SaveSettings {
    open spec fn line(&self) -> Seq<char> {
        "AT&W\r"@
    }

    fn text(&self) -> String {
        String::from_str("AT&W\r")
    }
}

/// `AT+CPIN?`
#[derive(Debug, Clone, Copy, PartialEq, Eq)]
pub struct GetPinStatus;

impl AtCommand for GetPinStatus {
    open spec fn line(&self) -> Seq<char> {
        "AT+CPIN?\r"@
    }

    fn text(&self) -> String {
        String::from_str("AT+CPIN?\r")
    }
}

/// `AT+CSQ`
#[derive(Debug, Clone, Copy, PartialEq, Eq)]
pub struct GetSignalQuality;

impl AtCommand for GetSignalQuality {
    open spec fn line(&self) -> Seq<char> {
        "AT+CSQ\r"@
    }

    fn text(&self) -> String {
        String::from_str("AT+CSQ\r")
    }
}

/// `AT+CREG?`: registration in the GSM network.
#[derive(Debug, Clone, Copy, PartialEq, Eq)]
pub struct GetNetworkRegistration;

impl AtCommand for GetNetworkRegistration {
    open spec fn line(&self) -> Seq<char> {
        "AT+CREG?\r"@
    }

    fn text(&self) -> String {
        String::from_str("AT+CREG?\r")
    }
}

/// `AT+CGREG?`: registration for GPRS.
#[derive(Debug, Clone, Copy, PartialEq, Eq)]
pub struct GetGprsRegistration;

impl AtCommand for GetGprsRegistration {
    open spec fn line(&self) -> Seq<char> {
        "AT+CGREG?\r"@
    }

    fn text(&self) -> String {
        String::from_str("AT+CGREG?\r")
    }
}

/// `AT+CIMI`: IMSI of the subscriber. The reply is a bare number.
#[derive(Debug, Clone, Copy, PartialEq, Eq)]
pub struct GetImsi;

impl AtCommand for GetImsi {
    open spec fn line(&self) -> Seq<char> {
        "AT+CIMI\r"@
    }

    fn text(&self) -> String {
        String::from_str("AT+CIMI\r")
    }
}

/// `AT+CCID`: serial number of the SIM card. The reply is a bare number.
#[derive(Debug, Clone, Copy, PartialEq, Eq)]
pub struct GetIccid;

impl AtCommand for GetIccid {
    open spec fn line(&self) -> Seq<char> {
        "AT+CCID\r"@
    }

    fn text(&self) -> String {
        String::from_str("AT+CCID\r")
    }
}

/// `AT+CCLK?`: clock of the module.
#[derive(Debug, Clone, Copy, PartialEq, Eq)]
pub struct GetClock;

impl AtCommand for GetClock {
    open spec fn line(&self) -> Seq<char> {
        "AT+CCLK?\r"@
    }

    fn text(&self) -> String {
        String::from_str("AT+CCLK?\r")
    }
}

/// `AT+CPMS?`: how full the SMS memory is.
#[derive(Debug, Clone, Copy, PartialEq, Eq)]
pub struct GetSmsStorage;

impl AtCommand for GetSmsStorage {
    open spec fn line(&self) -> Seq<char> {
        "AT+CPMS?\r"@
    }

    fn text(&self) -> String {
        String::from_str("AT+CPMS?\r")
    }
}

/// `AT+COPS?`: the network at the moment.
#[derive(Debug, Clone, Copy, PartialEq, Eq)]
pub struct GetOperator;

impl AtCommand for GetOperator {
    open spec fn line(&self) -> Seq<char> {
        "AT+COPS?\r"@
    }

    fn text(&self) -> String {
        String::from_str("AT+COPS?\r")
    }
}

/// `AT+COPS=?`: looks for all networks in sight. Takes minutes.
#[derive(Debug, Clone, Copy, PartialEq, Eq)]
pub struct ScanOperators;

impl AtCommand for ScanOperators {
    open spec fn line(&self) -> Seq<char> {
        "AT+COPS=?\r"@
    }

    fn text(&self) -> String {
        String::from_str("AT+COPS=?\r")
    }
}

/// `AT+CGATT?`
#[derive(Debug, Clone, Copy, PartialEq, Eq)]
pub struct GetGprsAttach;

impl AtCommand for GetGprsAttach {
    open spec fn line(&self) -> Seq<char> {
        "AT+CGATT?\r"@
    }

    fn text(&self) -> String {
        String::from_str("AT+CGATT?\r")
    }
}

/// `AT+CIPSHUT`: shuts the TCP/IP stack of the modem, which would refuse PPP.
#[derive(Debug, Clone, Copy, PartialEq, Eq)]
pub struct ShutIpStack;

impl AtCommand for ShutIpStack {
    open spec fn line(&self) -> Seq<char> {
        "AT+CIPSHUT\r"@
    }

    fn text(&self) -> String {
        String::from_str("AT+CIPSHUT\r")
    }
}

/// `ATH`: hangs up.
#[derive(Debug, Clone, Copy, PartialEq, Eq)]
pub struct Hangup;

impl AtCommand for Hangup {
    open spec fn line(&self) -> Seq<char> {
        "ATH\r"@
    }

    fn text(&self) -> String {
        String::from_str("ATH\r")
    }
}

/// `AT+CMEE=<n>`: 2 asks for errors in words.
#[derive(Debug, Clone, Copy, PartialEq, Eq)]
pub struct SetVerboseErrors {
    pub n: u8,
}

impl AtCommand for SetVerboseErrors {
    open spec fn line(&self) -> Seq<char> {
        "AT+CMEE="@ + text::decimal(self.n as nat) + "\r"@
    }

    fn text(&self) -> String {
        let mut line = String::from_str("AT+CMEE=");
        text::append_decimal(&mut line, self.n as u64);
        line.append("\r");
        line
    }
}

/// `AT+IPR=<rate>`: fixes the speed of the UART.
#[derive(Debug, Clone, Copy, PartialEq, Eq)]
pub struct SetBaudRate {
    pub rate: u32,
}

impl AtCommand for SetBaudRate {
    open spec fn line(&self) -> Seq<char> {
        "AT+IPR="@ + text::decimal(self.rate as nat) + "\r"@
    }

    fn text(&self) -> String {
        let mut line = String::from_str("AT+IPR=");
        text::append_decimal(&mut line, self.rate as u64);
        line.append("\r");
        line
    }
}

/// `AT+CMUX=<mode>,<subset>,<port_speed>,<N1>`: switches the line to the
/// multiplexer. From then on everything travels in frames.
#[derive(Debug, Clone, Copy, PartialEq, Eq)]
pub struct SetCmuxMode {
    pub mode: u8,
    pub subset: u8,
    pub port_speed: u8,
    pub n1: u16,
}

impl AtCommand for SetCmuxMode {
    open spec fn line(&self) -> Seq<char> {
        "AT+CMUX="@ + text::decimal(self.mode as nat) + ","@ + text::decimal(self.subset as nat) + ","@ + text::decimal(self.port_speed as nat) + ","@ + text::decimal(self.n1 as nat) + "\r"@
    }

    fn text(&self) -> String {
        let mut line = String::from_str("AT+CMUX=");
        text::append_decimal(&mut line, self.mode as u64);
        line.append(",");
        text::append_decimal(&mut line, self.subset as u64);
        line.append(",");
        text::append_decimal(&mut line, self.port_speed as u64);
        line.append(",");
        text::append_decimal(&mut line, self.n1 as u64);
        line.append("\r");
        line
    }
}

/// `AT+CFUN=<fun>`: 1 is full functionality.
#[derive(Debug, Clone, Copy, PartialEq, Eq)]
pub struct SetFunctionality {
    pub fun: u8,
}

impl AtCommand for SetFunctionality {
    open spec fn line(&self) -> Seq<char> {
        "AT+CFUN="@ + text::decimal(self.fun as nat) + "\r"@
    }

    fn text(&self) -> String {
        let mut line = String::from_str("AT+CFUN=");
        text::append_decimal(&mut line, self.fun as u64);
        line.append("\r");
        line
    }
}

/// `AT+CMGF=<mode>`: 1 is text mode for SMS.
#[derive(Debug, Clone, Copy, PartialEq, Eq)]
pub struct SetSmsTextMode {
    pub mode: u8,
}

impl AtCommand for SetSmsTextMode {
    open spec fn line(&self) -> Seq<char> {
        "AT+CMGF="@ + text::decimal(self.mode as nat) + "\r"@
    }

    fn text(&self) -> String {
        let mut line = String::from_str("AT+CMGF=");
        text::append_decimal(&mut line, self.mode as u64);
        line.append("\r");
        line
    }
}

/// `AT+CNMI=<mode>,<mt>,<bm>,<ds>,<bfr>`: how new SMS are announced.
#[derive(Debug, Clone, Copy, PartialEq, Eq)]
pub struct SetSmsIndication {
    pub mode: u8,
    pub mt: u8,
    pub bm: u8,
    pub ds: u8,
    pub bfr: u8,
}

impl AtCommand for SetSmsIndication {
    open spec fn line(&self) -> Seq<char> {
        "AT+CNMI="@ + text::decimal(self.mode as nat) + ","@ + text::decimal(self.mt as nat) + ","@ + text::decimal(self.bm as nat) + ","@ + text::decimal(self.ds as nat) + ","@ + text::decimal(self.bfr as nat) + "\r"@
    }

    fn text(&self) -> String {
        let mut line = String::from_str("AT+CNMI=");
        text::append_decimal(&mut line, self.mode as u64);
        line.append(",");
        text::append_decimal(&mut line, self.mt as u64);
        line.append(",");
        text::append_decimal(&mut line, self.bm as u64);
        line.append(",");
        text::append_decimal(&mut line, self.ds as u64);
        line.append(",");
        text::append_decimal(&mut line, self.bfr as u64);
        line.append("\r");
        line
    }
}

/// `AT+CLTS=<mode>`: takes the time from the network, after the next restart.
#[derive(Debug, Clone, Copy, PartialEq, Eq)]
pub struct SetNetworkTime {
    pub mode: u8,
}

impl AtCommand for SetNetworkTime {
    open spec fn line(&self) -> Seq<char> {
        "AT+CLTS="@ + text::decimal(self.mode as nat) + "\r"@
    }

    fn text(&self) -> String {
        let mut line = String::from_str("AT+CLTS=");
        text::append_decimal(&mut line, self.mode as u64);
        line.append("\r");
        line
    }
}

/// `AT+CMGR=<index>`: reads a message.
#[derive(Debug, Clone, Copy, PartialEq, Eq)]
pub struct ReadSms {
    pub index: u32,
}

impl AtCommand for ReadSms {
    open spec fn line(&self) -> Seq<char> {
        "AT+CMGR="@ + text::decimal(self.index as nat) + "\r"@
    }

    fn text(&self) -> String {
        let mut line = String::from_str("AT+CMGR=");
        text::append_decimal(&mut line, self.index as u64);
        line.append("\r");
        line
    }
}

/// `AT+CMGD=<index>`: deletes a message.
#[derive(Debug, Clone, Copy, PartialEq, Eq)]
pub struct DeleteSms {
    pub index: u32,
}

impl AtCommand for DeleteSms {
    open spec fn line(&self) -> Seq<char> {
        "AT+CMGD="@ + text::decimal(self.index as nat) + "\r"@
    }

    fn text(&self) -> String {
        let mut line = String::from_str("AT+CMGD=");
        text::append_decimal(&mut line, self.index as u64);
        line.append("\r");
        line
    }
}

/// `AT+CGATT=<state>`: 1 attaches to GPRS.
#[derive(Debug, Clone, Copy, PartialEq, Eq)]
pub struct SetGprsAttach {
    pub state: u8,
}

impl AtCommand for SetGprsAttach {
    open spec fn line(&self) -> Seq<char> {
        "AT+CGATT="@ + text::decimal(self.state as nat) + "\r"@
    }

    fn text(&self) -> String {
        let mut line = String::from_str("AT+CGATT=");
        text::append_decimal(&mut line, self.state as u64);
        line.append("\r");
        line
    }
}

/// `AT+CGDCONT=<cid>,"<pdp_type>","<apn>"`: defines the PDP context.
#[derive(Debug, Clone, Copy, PartialEq, Eq)]
pub struct SetPdpContext<'a> {
    pub cid: u8,
    pub pdp_type: &'a str,
    pub apn: &'a str,
}

impl<'a> AtCommand for SetPdpContext<'a> {
    open spec fn line(&self) -> Seq<char> {
        "AT+CGDCONT="@ + text::decimal(self.cid as nat) + ",\""@ + self.pdp_type@ + "\",\""@
            + self.apn@ + "\"\r"@
    }

    fn text(&self) -> String {
        let mut line = String::from_str("AT+CGDCONT=");
        text::append_decimal(&mut line, self.cid as u64);
        line.append(",\"");
        line.append(self.pdp_type);
        line.append("\",\"");
        line.append(self.apn);
        line.append("\"\r");
        line
    }
}

/// `ATD<number>`: goes to data mode. The number stands without quotes, which
/// the modem would not understand here.
#[derive(Debug, Clone, Copy, PartialEq, Eq)]
pub struct DialPpp<'a> {
    pub number: &'a str,
}

impl<'a> AtCommand for DialPpp<'a> {
    open spec fn line(&self) -> Seq<char> {
        "ATD"@ + self.number@ + "\r"@
    }

    fn text(&self) -> String {
        let mut line = String::from_str("ATD");
        line.append(self.number);
        line.append("\r");
        line
    }
}

/// `AT+CMGS="<number>"`: the first half of sending an SMS. It is answered by
/// the prompt.
#[derive(Debug, Clone, Copy, PartialEq, Eq)]
pub struct SendSmsHeader<'a> {
    pub number: &'a str,
}

impl<'a> AtCommand for SendSmsHeader<'a> {
    open spec fn line(&self) -> Seq<char> {
        "AT+CMGS=\""@ + self.number@ + "\"\r"@
    }

    fn text(&self) -> String {
        let mut line = String::from_str("AT+CMGS=\"");
        line.append(self.number);
        line.append("\"\r");
        line
    }
}

// ---------------------------------------------------------------------------
// What holds of commands and replies
// ---------------------------------------------------------------------------

/// Every text of 1 to 160 ASCII characters without Ctrl-Z and Esc is sendable,
/// and no other.
pub proof fn law_sendable_texts(s: Seq<char>)
    ensures
        is_sendable(s) <==> 1 <= s.len() <= 160 && forall|i: int|
            0 <= i < s.len() ==> (#[trigger] s[i] as u32) < 0x80 && s[i] as u32 != 0x1A
                && s[i] as u32 != 0x1B,
{
    if is_sendable(s) {
        assert forall|i: int| 0 <= i < s.len() implies (#[trigger] s[i] as u32) < 0x80
            && s[i] as u32 != 0x1A && s[i] as u32 != 0x1B by {
            assert(is_plain(s[i]));
        }
    }
}

/// Every text of 5 to 20 decimal digits is a number to send to, and no other.
pub proof fn law_phone_numbers(number: Seq<char>)
    ensures
        is_phone(number) <==> 5 <= number.len() <= 20 && forall|i: int|
            0 <= i < number.len() ==> '0' <= #[trigger] number[i] <= '9',
{
    if is_phone(number) {
        assert forall|i: int| 0 <= i < number.len() implies '0' <= #[trigger] number[i] <= '9' by {
            assert(text::is_digit(number[i]));
        }
    }
}

/// What goes to the modem ends with Ctrl-Z, in front of which stands the text,
/// or its first 160 bytes.
pub proof fn law_octets_of_a_text(message: Seq<char>)
    ensures
        ({
            let octets = sms_octets(message);
            let whole = vstd::utf8::encode_utf8(message);
            &&& octets.last() == 0x1A
            &&& octets.drop_last().is_prefix_of(whole)
            &&& octets.len() == if whole.len() <= 160 {
                whole.len() + 1
            } else {
                161
            }
        }),
{
    let whole = vstd::utf8::encode_utf8(message);
    assert(sms_octets(message).drop_last() =~= if whole.len() > 160 {
        whole.take(160)
    } else {
        whole
    });
}

/// Registered is who is at home or roaming.
pub proof fn law_registered_stats(stat: u8)
    ensures
        registered(stat) <==> stat == 1 || stat == 5,
{
}

/// As much of a reply is kept as fits: one character more would not.
pub proof fn law_raw_line_is_cut_late(chars: Seq<char>, capacity: nat)
    ensures
        fitting(chars, capacity) < chars.len() ==> bounded::byte_len(
            chars.take(fitting(chars, capacity) as int + 1),
        ) > capacity,
    decreases chars.len(),
{
    if chars.len() > 0 && bounded::byte_len(chars) > capacity {
        let shorter = chars.drop_last();
        law_raw_line_is_cut_late(shorter, capacity);
        law_raw_line_is_cut_to_size(shorter, capacity);
        let kept = fitting(shorter, capacity) as int;
        if kept < shorter.len() {
            assert(shorter.take(kept + 1) =~= chars.take(kept + 1));
        } else {
            assert(chars.take(kept + 1) =~= chars);
        }
    }
}

/// The tag of a line is what stands in front of its first colon, and the whole
/// of a line without one.
pub proof fn law_tag_ends_at_the_colon(front: Seq<u8>, rest: Seq<u8>)
    requires
        !front.contains(0x3A),
    ensures
        tag_of(front) == front,
        tag_of(front + seq![0x3Au8] + rest) == front,
{
    lemma_tag_len(front, Seq::empty());
    lemma_tag_len(front, seq![0x3Au8] + rest);
    let line = front + seq![0x3Au8] + rest;
    assert(front + Seq::<u8>::empty() =~= front);
    assert(front + (seq![0x3Au8] + rest) =~= line);
    assert(line.take(front.len() as int) =~= front);
    assert(front.take(front.len() as int) =~= front);
}

proof fn lemma_tag_len(front: Seq<u8>, rest: Seq<u8>)
    requires
        !front.contains(0x3A),
        rest.len() == 0 || rest[0] == 0x3A,
    ensures
        tag_len(front + rest) == front.len(),
    decreases front.len(),
{
    if front.len() > 0 {
        assert(front.contains(front[0]));
        let shorter = front.skip(1);
        assert((front + rest).skip(1) =~= shorter + rest);
        assert forall|x: u8| shorter.contains(x) implies front.contains(x) by {
            let k = choose|k: int| 0 <= k < shorter.len() && shorter[k] == x;
            assert(front[k + 1] == x);
        }
        lemma_tag_len(shorter, rest);
    } else {
        assert(front + rest =~= rest);
    }
}

/// Each message has its tag, letter for letter, and a line with any other tag
/// is none. A new SMS is a message only with its place.
pub proof fn law_messages_have_their_tags(line: Seq<u8>, notice: Option<NewMessageIndex>)
    ensures
        ({
            let tag = tag_of(line);
            let said = urc_of(line, notice);
            &&& said == Some(Urc::Ready) <==> tag == vstd::utf8::encode_utf8("RDY"@)
            &&& said == Some(Urc::CallReady) <==> tag == vstd::utf8::encode_utf8("Call Ready"@)
            &&& said == Some(Urc::SmsReady) <==> tag == vstd::utf8::encode_utf8("SMS Ready"@)
            &&& said == Some(Urc::PowerDown) <==> tag == vstd::utf8::encode_utf8(
                "NORMAL POWER DOWN"@,
            )
            &&& said == Some(Urc::PdpDeactivated) <==> tag == vstd::utf8::encode_utf8("+PDP"@)
            &&& said matches Some(Urc::NewMessage(place)) ==> notice == Some(place)
            &&& (said matches Some(Urc::NewMessage(_))) <==> notice is Some && tag
                == vstd::utf8::encode_utf8("+CMTI"@)
        }),
{
    reveal_strlit("RDY");
    reveal_strlit("Call Ready");
    reveal_strlit("SMS Ready");
    reveal_strlit("NORMAL POWER DOWN");
    reveal_strlit("+PDP");
    reveal_strlit("+CMTI");
    let tag = tag_of(line);
    text::law_spelling(tag, "RDY"@);
    text::law_spelling(tag, "Call Ready"@);
    text::law_spelling(tag, "SMS Ready"@);
    text::law_spelling(tag, "NORMAL POWER DOWN"@);
    text::law_spelling(tag, "+PDP"@);
    text::law_spelling(tag, "+CMTI"@);
    vstd::utf8::is_ascii_chars_encode_utf8("RDY"@);
    vstd::utf8::is_ascii_chars_encode_utf8("Call Ready"@);
    vstd::utf8::is_ascii_chars_encode_utf8("SMS Ready"@);
    vstd::utf8::is_ascii_chars_encode_utf8("NORMAL POWER DOWN"@);
    vstd::utf8::is_ascii_chars_encode_utf8("+PDP"@);
    vstd::utf8::is_ascii_chars_encode_utf8("+CMTI"@);
}

proof fn lemma_encode_add(a: Seq<char>, b: Seq<char>)
    ensures
        vstd::utf8::encode_utf8(a + b) == vstd::utf8::encode_utf8(a) + vstd::utf8::encode_utf8(b),
    decreases a.len(),
{
    if a.len() == 0 {
        assert(a + b =~= b);
    } else {
        assert((a + b).drop_first() =~= a.drop_first() + b);
        lemma_encode_add(a.drop_first(), b);
    }
    assert(vstd::utf8::encode_utf8(a + b) =~= vstd::utf8::encode_utf8(a) + vstd::utf8::encode_utf8(
        b,
    ));
}

proof fn lemma_boundary_behind(a: Seq<char>, b: Seq<char>)
    ensures
        vstd::utf8::is_char_boundary(
            vstd::utf8::encode_utf8(a + b),
            vstd::utf8::encode_utf8(a).len() as int,
        ),
{
    let whole = vstd::utf8::encode_utf8(a + b);
    let front = vstd::utf8::encode_utf8(a);
    let back = vstd::utf8::encode_utf8(b);
    lemma_encode_add(a, b);
    vstd::utf8::encode_utf8_valid_utf8(a + b);
    vstd::utf8::encode_utf8_valid_utf8(b);
    vstd::utf8::is_char_boundary_start_end_of_seq(whole);
    vstd::utf8::is_char_boundary_start_end_of_seq(back);
    if back.len() > 0 {
        vstd::utf8::is_char_boundary_iff_is_leading_byte(back, 0);
        vstd::utf8::is_char_boundary_iff_is_leading_byte(whole, front.len() as int);
        assert(whole[front.len() as int] == back[0]);
    } else {
        assert(whole =~= front);
    }
}

/// A slice by bytes gives back the text that stands there.
pub proof fn law_slice_by_bytes(front: Seq<char>, part: Seq<char>, back: Seq<char>)
    ensures
        ({
            let from = vstd::utf8::encode_utf8(front).len() as int;
            let to = from + vstd::utf8::encode_utf8(part).len();
            &&& sliceable(front + part + back, from, to)
            &&& byte_slice(front + part + back, from, to) == part
        }),
{
    let from = vstd::utf8::encode_utf8(front).len() as int;
    let to = from + vstd::utf8::encode_utf8(part).len();
    lemma_boundary_behind(front, part + back);
    assert(front + (part + back) =~= front + part + back);
    lemma_boundary_behind(front + part, back);
    lemma_encode_add(front, part);
    lemma_encode_add(front + part, back);
    assert(vstd::utf8::encode_utf8(front + part + back).subrange(from, to)
        =~= vstd::utf8::encode_utf8(part));
    vstd::utf8::encode_utf8_decode_utf8(part);
}

/// An IMSI begins with three digits for the country, behind which two stand for
/// the operator, or three where the country code begins with 3. What is shorter
/// has question marks for the part that is missing.
pub proof fn law_parts_of_an_imsi(imsi: Seq<char>)
    requires
        forall|i: int| 0 <= i < imsi.len() ==> (#[trigger] imsi[i] as u32) < 128,
    ensures
        ({
            let long = imsi.len() >= 3 && imsi[0] == '3' && '0' <= imsi[1] <= '9' && '0' <= imsi[2]
                <= '9';
            &&& imsi.len() >= 3 ==> mcc_of(imsi) == imsi.take(3)
            &&& imsi.len() < 3 ==> mcc_of(imsi) == "???"@
            &&& long && imsi.len() >= 6 ==> mnc_of(imsi) == imsi.subrange(3, 6)
            &&& !long && imsi.len() >= 5 ==> mnc_of(imsi) == imsi.subrange(3, 5)
            &&& long && imsi.len() < 6 ==> mnc_of(imsi) == "??"@
            &&& !long && imsi.len() < 5 ==> mnc_of(imsi) == "??"@
        }),
{
    bounded::lemma_byte_len_ascii(imsi);
    reveal_strlit("???");
    if imsi.len() >= 3 {
        lemma_ascii_is_sliced(imsi, 0, 3);
        assert(imsi.subrange(0, 3) =~= imsi.take(3));
        let end: int = if has_long_mnc(mcc_of(imsi)) {
            6
        } else {
            5
        };
        if imsi.len() >= end {
            lemma_ascii_is_sliced(imsi, 3, end);
        }
    }
}

/// Parts are counted in bytes: a text whose first three bytes are whole
/// characters begins with a country code, and one that cuts a character in two
/// does not.
pub proof fn law_country_code_is_three_bytes(code: Seq<char>, rest: Seq<char>, imsi: Seq<char>)
    ensures
        vstd::utf8::encode_utf8(code).len() == 3 ==> mcc_of(code + rest) == code,
        !vstd::utf8::is_char_boundary(vstd::utf8::encode_utf8(imsi), 3) ==> mcc_of(imsi) == "???"@,
{
    if vstd::utf8::encode_utf8(code).len() == 3 {
        law_slice_by_bytes(Seq::empty(), code, rest);
        bounded::lemma_byte_len_empty();
        assert(Seq::<char>::empty() + code + rest =~= code + rest);
    }
}

/// A country code that is not three digits, or does not begin with 3, has no
/// operator codes of three digits.
pub proof fn law_long_operator_codes(mcc: Seq<char>)
    ensures
        has_long_mnc(mcc) ==> mcc.len() == 3 && mcc[0] == '3',
        has_long_mnc(mcc) ==> forall|i: int| 0 <= i < 3 ==> '0' <= #[trigger] mcc[i] <= '9',
{
}

proof fn lemma_ascii_is_sliced(s: Seq<char>, from: int, to: int)
    requires
        forall|i: int| 0 <= i < s.len() ==> (#[trigger] s[i] as u32) < 128,
        0 <= from <= to <= s.len(),
    ensures
        sliceable(s, from, to),
        byte_slice(s, from, to) == s.subrange(from, to),
{
    let front = s.take(from);
    let part = s.subrange(from, to);
    let back = s.skip(to);
    assert(front + part + back =~= s);
    law_slice_by_bytes(front, part, back);
    bounded::lemma_byte_len_ascii(front);
    bounded::lemma_byte_len_ascii(part);
}

/// Bytes begin with others when those are a prefix of them.
pub proof fn law_beginnings(buf: Seq<u8>, token: Seq<u8>)
    ensures
        begins_with(buf, token) <==> token.is_prefix_of(buf),
        begins_with(token + buf, token),
{
    if token.is_prefix_of(buf) {
        assert(buf.take(token.len() as int) =~= token);
    }
    assert((token + buf).take(token.len() as int) =~= token);
}

/// The reply to `AT+CIPSHUT` is `SHUT OK` on a line of its own.
pub proof fn law_shut_ok_is_spelled_out()
    ensures
        shut_ok_token() == vstd::utf8::encode_utf8("\r\nSHUT OK\r\n"@),
{
    reveal_strlit("\r\nSHUT OK\r\n");
    vstd::utf8::is_ascii_chars_encode_utf8("\r\nSHUT OK\r\n"@);
    assert(shut_ok_token() =~= vstd::utf8::encode_utf8("\r\nSHUT OK\r\n"@));
}

/// One line break is skipped, and nothing else.
pub proof fn law_one_line_break_is_skipped(buf: Seq<u8>)
    ensures
        behind_line_break(seq![0x0Du8, 0x0A] + buf) == buf,
        buf.len() < 2 || buf[0] != 0x0D || buf[1] != 0x0A ==> behind_line_break(buf) == buf,
{
    let line_break = seq![0x0Du8, 0x0A];
    law_beginnings(buf, line_break);
    assert((line_break + buf).skip(2) =~= buf);
    assert(begins_with(buf, line_break) ==> buf[0] == line_break[0] && buf[1] == line_break[1]);
}

/// Numbers in decimal, with commas between them.
pub open spec fn with_commas(numbers: Seq<nat>) -> Seq<char>
    decreases numbers.len(),
{
    if numbers.len() == 0 {
        Seq::empty()
    } else if numbers.len() == 1 {
        text::decimal(numbers[0])
    } else {
        with_commas(numbers.drop_last()) + seq![','] + text::decimal(numbers.last())
    }
}

/// The line of a command that sets numbers: its name, the equals sign, the
/// numbers and a carriage return.
pub open spec fn setting(name: Seq<char>, numbers: Seq<nat>) -> Seq<char> {
    name + seq!['='] + with_commas(numbers) + seq!['\r']
}

/// A command that sets one number names it behind the equals sign.
pub proof fn law_lines_of_settings(
    verbose: SetVerboseErrors,
    speed: SetBaudRate,
    function: SetFunctionality,
    mode: SetSmsTextMode,
    time: SetNetworkTime,
    read: ReadSms,
    delete: DeleteSms,
    attach: SetGprsAttach,
)
    ensures
        verbose.line() == setting("AT+CMEE"@, seq![verbose.n as nat]),
        speed.line() == setting("AT+IPR"@, seq![speed.rate as nat]),
        function.line() == setting("AT+CFUN"@, seq![function.fun as nat]),
        mode.line() == setting("AT+CMGF"@, seq![mode.mode as nat]),
        time.line() == setting("AT+CLTS"@, seq![time.mode as nat]),
        read.line() == setting("AT+CMGR"@, seq![read.index as nat]),
        delete.line() == setting("AT+CMGD"@, seq![delete.index as nat]),
        attach.line() == setting("AT+CGATT"@, seq![attach.state as nat]),
{
    reveal_strlit("\r");
    reveal_strlit("AT+CMEE");
    reveal_strlit("AT+CMEE=");
    reveal_strlit("AT+IPR");
    reveal_strlit("AT+IPR=");
    reveal_strlit("AT+CFUN");
    reveal_strlit("AT+CFUN=");
    reveal_strlit("AT+CMGF");
    reveal_strlit("AT+CMGF=");
    reveal_strlit("AT+CLTS");
    reveal_strlit("AT+CLTS=");
    reveal_strlit("AT+CMGR");
    reveal_strlit("AT+CMGR=");
    reveal_strlit("AT+CMGD");
    reveal_strlit("AT+CMGD=");
    reveal_strlit("AT+CGATT");
    reveal_strlit("AT+CGATT=");
    assert("AT+CMEE="@ =~= "AT+CMEE"@ + seq!['=']);
    assert("AT+IPR="@ =~= "AT+IPR"@ + seq!['=']);
    assert("AT+CFUN="@ =~= "AT+CFUN"@ + seq!['=']);
    assert("AT+CMGF="@ =~= "AT+CMGF"@ + seq!['=']);
    assert("AT+CLTS="@ =~= "AT+CLTS"@ + seq!['=']);
    assert("AT+CMGR="@ =~= "AT+CMGR"@ + seq!['=']);
    assert("AT+CMGD="@ =~= "AT+CMGD"@ + seq!['=']);
    assert("AT+CGATT="@ =~= "AT+CGATT"@ + seq!['=']);
    assert("\r"@ =~= seq!['\r']);
}

/// A command that sets several numbers names them in their order, with commas
/// between them.
pub proof fn law_lines_of_longer_settings(cmux: SetCmuxMode, indication: SetSmsIndication)
    ensures
        cmux.line() == setting(
            "AT+CMUX"@,
            seq![cmux.mode as nat, cmux.subset as nat, cmux.port_speed as nat, cmux.n1 as nat],
        ),
        indication.line() == setting(
            "AT+CNMI"@,
            seq![
                indication.mode as nat,
                indication.mt as nat,
                indication.bm as nat,
                indication.ds as nat,
                indication.bfr as nat,
            ],
        ),
{
    reveal_strlit("\r");
    reveal_strlit(",");
    reveal_strlit("AT+CMUX");
    reveal_strlit("AT+CMUX=");
    reveal_strlit("AT+CNMI");
    reveal_strlit("AT+CNMI=");
    assert("AT+CMUX="@ =~= "AT+CMUX"@ + seq!['=']);
    assert("AT+CNMI="@ =~= "AT+CNMI"@ + seq!['=']);
    assert("\r"@ =~= seq!['\r']);
    assert(","@ =~= seq![',']);
    let a = seq![cmux.mode as nat, cmux.subset as nat, cmux.port_speed as nat, cmux.n1 as nat];
    lemma_four_with_commas(a);
    assert(cmux.line() =~= setting("AT+CMUX"@, a));
    let b = seq![
        indication.mode as nat,
        indication.mt as nat,
        indication.bm as nat,
        indication.ds as nat,
        indication.bfr as nat,
    ];
    lemma_four_with_commas(b.drop_last());
    assert(indication.line() =~= setting("AT+CNMI"@, b));
}

proof fn lemma_four_with_commas(numbers: Seq<nat>)
    requires
        numbers.len() == 4,
    ensures
        with_commas(numbers) == text::decimal(numbers[0]) + seq![','] + text::decimal(numbers[1])
            + seq![','] + text::decimal(numbers[2]) + seq![','] + text::decimal(numbers[3]),
{
    let three = numbers.drop_last();
    let two = three.drop_last();
    let one = two.drop_last();
    assert(with_commas(one) == text::decimal(numbers[0]));
    assert(with_commas(two) == with_commas(one) + seq![','] + text::decimal(numbers[1]));
    assert(with_commas(three) == with_commas(two) + seq![','] + text::decimal(numbers[2]));
}

/// A text in quotes.
pub open spec fn quoted(s: Seq<char>) -> Seq<char> {
    seq!['"'] + s + seq!['"']
}

/// The texts of a command stand in quotes, but for the number that is dialled.
pub proof fn law_lines_with_texts(context: SetPdpContext, dial: DialPpp, header: SendSmsHeader)
    ensures
        context.line() == "AT+CGDCONT="@ + text::decimal(context.cid as nat) + seq![','] + quoted(
            context.pdp_type@,
        ) + seq![','] + quoted(context.apn@) + seq!['\r'],
        dial.line() == "ATD"@ + dial.number@ + seq!['\r'],
        header.line() == "AT+CMGS="@ + quoted(header.number@) + seq!['\r'],
{
    reveal_strlit("\r");
    reveal_strlit(",\"");
    reveal_strlit("\",\"");
    reveal_strlit("\"\r");
    reveal_strlit("AT+CMGS=");
    reveal_strlit("AT+CMGS=\"");
    assert("\r"@ =~= seq!['\r']);
    assert(context.line() =~= "AT+CGDCONT="@ + text::decimal(context.cid as nat) + seq![',']
        + quoted(context.pdp_type@) + seq![','] + quoted(context.apn@) + seq!['\r']);
    assert(header.line() =~= "AT+CMGS="@ + quoted(header.number@) + seq!['\r']);
}

/// The tags stand in the order of their messages.
pub proof fn law_order_of_tags()
    ensures
        tag_list().len() == 6,
        tag_list()[0]@ == "RDY"@,
        tag_list()[1]@ == "Call Ready"@,
        tag_list()[2]@ == "SMS Ready"@,
        tag_list()[3]@ == "NORMAL POWER DOWN"@,
        tag_list()[4]@ == "+PDP"@,
        tag_list()[5]@ == "+CMTI"@,
{
}

} // verus!
