//! Telemetry and commands over MQTT.
//!
//! The signal level is published from time to time, received SMS and coins as
//! they come. Commands come in on topics of their own: the LED, blocking the
//! coin acceptor, sending an SMS.

use rust_mqtt::types::{MqttString, MqttStringError, TopicFilter, TopicName};
use vstd::prelude::*;

use crate::bounded;
use crate::bounded::Text;
use crate::coin_io;
use crate::coin_io::{BlockCommand, Gate, TotalBlock, TotalCommand};
use crate::led;
use crate::led::{LedState, Mode};
use crate::modem;
use crate::text;

verus! {

/// Bytes that a received SMS can take.
pub const SMS_TEXT_SIZE: usize = 384;

/// Bytes that the number of an outgoing SMS can take.
pub const SMS_NUMBER_SIZE: usize = 24;

/// Bytes that the text of an outgoing SMS can take.
pub const SMS_BODY_SIZE: usize = 160;

/// Bytes that a signal level can take.
pub const CSQ_TEXT_SIZE: usize = 8;

/// A signal level that was never measured.
pub const CSQ_UNKNOWN: u8 = 99;

/// Pause before another try after the connection broke, in seconds.
pub const RETRY_DELAY_SECS: u64 = 10;

/// The broker hangs up after so many seconds of silence.
pub const KEEP_ALIVE_SECS: u16 = 120;

// ---------------------------------------------------------------------------
// Topics
// ---------------------------------------------------------------------------

/// A string as MQTT can carry it.
#[verifier::external_type_specification]
#[verifier::external_body]
pub struct ExMqttString<'s>(MqttString<'s>);

/// Why a string cannot be carried.
#[verifier::external_type_specification]
#[verifier::external_body]
pub struct ExMqttStringError(MqttStringError);

/// A topic to publish on.
#[verifier::external_type_specification]
#[verifier::external_body]
pub struct ExTopicName<'t>(TopicName<'t>);

/// A topic to subscribe to.
#[verifier::external_type_specification]
#[verifier::external_body]
pub struct ExTopicFilter<'t>(TopicFilter<'t>);

/// The characters of an MQTT string.
pub uninterp spec fn mqtt_chars(string: MqttString<'_>) -> Seq<char>;

/// The characters of a topic name.
pub uninterp spec fn topic_chars(topic: TopicName<'_>) -> Seq<char>;

/// The characters of a topic filter.
pub uninterp spec fn filter_chars(filter: TopicFilter<'_>) -> Seq<char>;

/// Whether MQTT can carry a string: no null character, and a length that fits
/// in two bytes.
pub open spec fn carriable(s: Seq<char>) -> bool {
    &&& !s.contains('\0')
    &&& bounded::byte_len(s) <= 65535
}

/// `MqttString::try_from`: takes a string without null characters of at most
/// 65535 bytes, refuses any other.
#[verifier::external_body]
fn mqtt_string(s: &str) -> (r: Result<MqttString<'_>, MqttStringError>)
    ensures
        r is Ok <==> carriable(s@),
        r matches Ok(string) ==> mqtt_chars(string) == s@,
{
    MqttString::try_from(s)
}

/// Whether a text is a topic name: not empty, and without wildcards.
pub open spec fn is_topic(s: Seq<char>) -> bool {
    &&& s.len() > 0
    &&& !s.contains('+')
    &&& !s.contains('#')
}

/// `TopicName::new`: takes a string that is not empty and holds no wildcard,
/// refuses any other.
#[verifier::external_body]
fn new_topic_name(string: MqttString<'_>) -> (r: Option<TopicName<'_>>)
    ensures
        r is Some <==> is_topic(mqtt_chars(string)),
        r matches Some(topic) ==> topic_chars(topic) == mqtt_chars(string),
{
    TopicName::new(string)
}

/// Whether a level of a filter is in order: a wildcard stands alone.
pub open spec fn level_in_order(level: Seq<char>) -> bool {
    level.contains('+') || level.contains('#') ==> level.len() == 1
}

/// Whether a text is a filter: not empty, every wildcard alone on its level,
/// and `#` nowhere but at the very end.
pub open spec fn is_filter(s: Seq<char>) -> bool {
    &&& s.len() > 0
    &&& forall|k: int|
        0 <= k < text::pieces(s, seq!['/']).len() ==> level_in_order(
            #[trigger] text::pieces(s, seq!['/'])[k],
        )
    &&& forall|i: int| 0 <= i < s.len() && #[trigger] s[i] == '#' ==> i == s.len() - 1
}

/// `TopicFilter::new`: takes a string that is not empty, in which every
/// wildcard is alone between slashes and `#` comes last; refuses any other.
#[verifier::external_body]
fn new_topic_filter(string: MqttString<'_>) -> (r: Option<TopicFilter<'_>>)
    ensures
        r is Some <==> is_filter(mqtt_chars(string)),
        r matches Some(filter) ==> filter_chars(filter) == mqtt_chars(string),
{
    TopicFilter::new(string)
}

/// Why a topic could not be made.
#[derive(Debug, Clone, Copy, PartialEq, Eq, Structural)]
pub enum TopicError {
    /// MQTT cannot carry the string.
    NotCarriable,
    /// The string is no topic.
    NotATopic,
}

/// Makes the name under which the broker knows the device. `None` when MQTT
/// cannot carry it.
pub fn client_id(id: &str) -> (r: Option<MqttString<'_>>)
    ensures
        r is Some <==> carriable(id@),
        r matches Some(string) ==> mqtt_chars(string) == id@,
{
    match mqtt_string(id) {
        Ok(string) => Some(string),
        Err(_) => None,
    }
}

/// Makes a topic name. A wildcard in it is an error.
pub fn topic_name(name: &str) -> (r: Result<TopicName<'_>, TopicError>)
    ensures
        match r {
            Ok(topic) => carriable(name@) && is_topic(name@) && topic_chars(topic) == name@,
            Err(TopicError::NotCarriable) => !carriable(name@),
            Err(TopicError::NotATopic) => carriable(name@) && !is_topic(name@),
        },
{
    match mqtt_string(name) {
        Err(_) => Err(TopicError::NotCarriable),
        Ok(string) => match new_topic_name(string) {
            Some(topic) => Ok(topic),
            None => Err(TopicError::NotATopic),
        },
    }
}

/// Makes a filter to subscribe with. Unlike in a name, wildcards are allowed
/// where they belong.
pub fn topic_filter(name: &str) -> (r: Result<TopicFilter<'_>, TopicError>)
    ensures
        match r {
            Ok(filter) => carriable(name@) && is_filter(name@) && filter_chars(filter) == name@,
            Err(TopicError::NotCarriable) => !carriable(name@),
            Err(TopicError::NotATopic) => carriable(name@) && !is_filter(name@),
        },
{
    match mqtt_string(name) {
        Err(_) => Err(TopicError::NotCarriable),
        Ok(string) => match new_topic_filter(string) {
            Some(filter) => Ok(filter),
            None => Err(TopicError::NotATopic),
        },
    }
}

/// The topics in use.
#[derive(Debug, Clone, Copy, PartialEq, Eq)]
pub struct Topics {
    /// Signal level goes out here.
    pub csq: &'static str,
    /// Received SMS go out here.
    pub sms: &'static str,
    /// Coins go out here.
    pub coin: &'static str,
    /// LED commands come in here.
    pub led: &'static str,
    /// Commands that block lines come in here.
    pub coin_block: &'static str,
    /// Commands that block the whole acceptor come in here.
    pub coin_total: &'static str,
    /// What stands in front of the number of an SMS to send.
    pub sms_send: &'static str,
    /// Filter that takes in all numbers.
    pub sms_send_filter: &'static str,
}

// ---------------------------------------------------------------------------
// Session
// ---------------------------------------------------------------------------

/// How far a session with the broker has come: the step whose outcome is
/// awaited.
#[derive(Debug, Clone, Copy, PartialEq, Eq, Structural)]
pub enum SessionStage {
    /// Asking for the address of the broker.
    Resolving,
    /// Opening the TCP connection.
    Connecting,
    /// Saying hello to the broker.
    Greeting,
    /// Subscribing to topic number so many, counted from 0.
    Subscribing(u8),
    /// Publishing and listening.
    Running,
    /// Over: everything starts anew after a pause.
    Ended,
}

/// How many topics are subscribed to.
pub const SUBSCRIPTIONS: u8 = 4;

/// The stage that follows when a step succeeded or failed.
pub open spec fn stage_after(stage: SessionStage, succeeded: bool) -> SessionStage {
    if !succeeded {
        SessionStage::Ended
    } else {
        match stage {
            SessionStage::Resolving => SessionStage::Connecting,
            SessionStage::Connecting => SessionStage::Greeting,
            SessionStage::Greeting => SessionStage::Subscribing(0),
            SessionStage::Subscribing(n) => if n + 1 < SUBSCRIPTIONS {
                SessionStage::Subscribing((n + 1) as u8)
            } else {
                SessionStage::Running
            },
            SessionStage::Running => SessionStage::Running,
            SessionStage::Ended => SessionStage::Ended,
        }
    }
}

/// The stage that follows. Any failure ends the session.
pub fn next_stage(stage: SessionStage, succeeded: bool) -> (r: SessionStage)
    ensures
        r == stage_after(stage, succeeded),
{
    if !succeeded {
        return SessionStage::Ended;
    }
    match stage {
        SessionStage::Resolving => SessionStage::Connecting,
        SessionStage::Connecting => SessionStage::Greeting,
        SessionStage::Greeting => SessionStage::Subscribing(0),
        SessionStage::Subscribing(n) => {
            if n < SUBSCRIPTIONS - 1 {
                SessionStage::Subscribing(n + 1)
            } else {
                SessionStage::Running
            }
        },
        SessionStage::Running => SessionStage::Running,
        SessionStage::Ended => SessionStage::Ended,
    }
}

/// Whether the screen shows the broker as connected: from the greeting on.
pub fn is_connected(stage: SessionStage) -> (r: bool)
    ensures
        r == (stage is Subscribing || stage is Running),
{
    match stage {
        SessionStage::Subscribing(_) => true,
        SessionStage::Running => true,
        _ => false,
    }
}

/// The filters to subscribe to, in order.
pub open spec fn subscription_order(topics: Topics) -> Seq<&'static str> {
    seq![topics.led, topics.coin_block, topics.coin_total, topics.sms_send_filter]
}

/// The filter of subscription number `n`.
pub fn subscription(topics: &Topics, n: u8) -> (r: &'static str)
    requires
        n < SUBSCRIPTIONS,
    ensures
        r == subscription_order(*topics)[n as int],
{
    match n {
        0 => topics.led,
        1 => topics.coin_block,
        2 => topics.coin_total,
        _ => topics.sms_send_filter,
    }
}

/// A session runs only after every subscription was made, one after the other.
pub proof fn law_running_needs_all_subscriptions(stage: SessionStage, succeeded: bool)
    requires
        stage matches SessionStage::Subscribing(n) ==> n < SUBSCRIPTIONS,
    ensures
        stage_after(stage, succeeded) == SessionStage::Running ==> succeeded && (stage
            == SessionStage::Running || stage == SessionStage::Subscribing(
            (SUBSCRIPTIONS - 1) as u8,
        )),
        stage_after(stage, succeeded) matches SessionStage::Subscribing(n) ==> n < SUBSCRIPTIONS
            && (n == 0 ==> stage == SessionStage::Greeting) && (n > 0 ==> stage
            == SessionStage::Subscribing((n - 1) as u8)),
        !succeeded ==> stage_after(stage, succeeded) == SessionStage::Ended,
{
}

// ---------------------------------------------------------------------------
// Publishing
// ---------------------------------------------------------------------------

/// What to publish.
pub enum Outgoing {
    /// The signal level, at its time.
    Csq(u8),
    /// A received SMS.
    Sms(Text),
    /// A coin.
    Coin(Text),
}

/// A publication ready to go.
pub struct Publication {
    pub topic: &'static str,
    /// Whether the broker keeps it for later subscribers.
    pub retain: bool,
    pub payload: Text,
}

/// Topic, retention and payload of what is published.
///
/// Level and SMS are kept by the broker, so that a new subscriber sees them at
/// once. A coin means something only when it falls, so it is not kept.
pub open spec fn published(topics: Topics, outgoing: Outgoing) -> (&'static str, bool, Seq<char>) {
    match outgoing {
        Outgoing::Csq(level) => (topics.csq, true, text::decimal(level as nat)),
        Outgoing::Sms(text) => (topics.sms, true, text@),
        Outgoing::Coin(text) => (topics.coin, false, text@),
    }
}

/// Prepares a publication.
pub fn publication(topics: &Topics, outgoing: Outgoing) -> (r: Publication)
    ensures
        (r.topic, r.retain, r.payload@) == published(*topics, outgoing),
{
    match outgoing {
        Outgoing::Csq(level) => {
            let mut payload = Text::new::<CSQ_TEXT_SIZE>();
            let mut digits = String::new();
            text::append_decimal(&mut digits, level as u64);
            proof {
                bounded::lemma_byte_len_empty();
                text::lemma_decimal_is_digits(level as nat);
                reveal_with_fuel(text::decimal, 3);
                assert(digits@ =~= text::decimal(level as nat));
            }
            payload.push_str(digits.as_str());
            assert(payload@ =~= text::decimal(level as nat));
            Publication { topic: topics.csq, retain: true, payload }
        },
        Outgoing::Sms(payload) => Publication { topic: topics.sms, retain: true, payload },
        Outgoing::Coin(payload) => Publication { topic: topics.coin, retain: false, payload },
    }
}

/// When the signal level is published next, in milliseconds since power-up: a
/// period after it was published. Whatever else goes on in the session does not
/// move it. In a new session it is due at once.
pub fn next_level_ms(due_ms: u64, level_published: bool, now_ms: u64, period_secs: u32) -> (r: u64)
    requires
        now_ms + 1000 * period_secs <= u64::MAX,
    ensures
        r == (if level_published {
            now_ms + 1000 * period_secs
        } else {
            due_ms as int
        }),
{
    if level_published {
        now_ms + 1000 * period_secs as u64
    } else {
        due_ms
    }
}

/// A received SMS made fit for the queue. `None` when it is too long for it.
pub fn sms_for_queue(message: &str) -> (r: Option<Text>)
    ensures
        r is Some <==> bounded::byte_len(message@) <= SMS_TEXT_SIZE,
        r matches Some(text) ==> text@ == message@,
{
    Text::holding::<SMS_TEXT_SIZE>(message)
}

// ---------------------------------------------------------------------------
// Commands
// ---------------------------------------------------------------------------

/// Whose command came in.
#[derive(Debug, Clone, Copy, PartialEq, Eq)]
pub enum Route<'a> {
    Led,
    CoinBlock,
    CoinTotal,
    /// An SMS to this number.
    SmsTo(&'a str),
    /// Nobody's.
    Unexpected,
}

/// Whether a text begins with another.
pub open spec fn has_prefix(s: Seq<char>, prefix: Seq<char>) -> bool {
    prefix.len() <= s.len() && s.take(prefix.len() as int) == prefix
}

/// Whether a route is the one of a topic: an exact match of a command topic, or
/// the number behind the topic that sends SMS.
pub open spec fn routes_to(route: Route<'_>, topics: Topics, topic: Seq<char>) -> bool {
    if topic == topics.led@ {
        route is Led
    } else if topic == topics.coin_block@ {
        route is CoinBlock
    } else if topic == topics.coin_total@ {
        route is CoinTotal
    } else if has_prefix(topic, topics.sms_send@) {
        route matches Route::SmsTo(number) && number@ == topic.skip(topics.sms_send@.len() as int)
    } else {
        route is Unexpected
    }
}

/// Finds out whose command came in.
pub fn route<'a>(topics: &Topics, topic: &'a str) -> (r: Route<'a>)
    ensures
        routes_to(r, *topics, topic@),
{
    if text::same_text(topic, topics.led) {
        return Route::Led;
    }
    if text::same_text(topic, topics.coin_block) {
        return Route::CoinBlock;
    }
    if text::same_text(topic, topics.coin_total) {
        return Route::CoinTotal;
    }
    match text::strip_prefix(topic, topics.sms_send) {
        Some(number) => Route::SmsTo(number),
        None => Route::Unexpected,
    }
}

/// An SMS to send: number in digits, and text.
pub struct OutgoingSms {
    pub number: Text,
    pub text: Text,
}

/// Why an SMS was not taken.
#[derive(Debug, Clone, Copy, PartialEq, Eq, Structural)]
pub enum SmsRefusal {
    /// The text is not UTF-8.
    NotText,
    /// The number is not made of 5 to 20 digits.
    BadNumber,
    /// The text is empty, too long, or not plain ASCII.
    NotSendable,
    /// It does not fit in the buffers.
    NoRoom,
}

/// Why an SMS is not taken, if it is not. The first reason counts.
pub open spec fn sms_refusal(number: Seq<char>, payload: Seq<u8>) -> Option<SmsRefusal> {
    if !vstd::utf8::valid_utf8(payload) {
        Some(SmsRefusal::NotText)
    } else if !modem::is_phone(number) {
        Some(SmsRefusal::BadNumber)
    } else if !modem::is_sendable(vstd::utf8::decode_utf8(payload)) {
        Some(SmsRefusal::NotSendable)
    } else {
        None
    }
}

/// Checks an SMS before it is queued.
///
/// Both parts are checked here, so that a refusal is seen next to the command
/// and not a minute later.
pub fn queue_sms(number: &str, payload: &[u8]) -> (r: Result<OutgoingSms, SmsRefusal>)
    ensures
        match sms_refusal(number@, payload@) {
            Some(refusal) => r == Err::<OutgoingSms, SmsRefusal>(refusal),
            None => r matches Ok(sms) && sms.number@ == number@ && sms.text@
                == vstd::utf8::decode_utf8(payload@),
        },
{
    let message: &str = match text::utf8(payload) {
        Some(message) => message,
        None => return Err(SmsRefusal::NotText),
    };
    if !modem::valid_phone(number) {
        return Err(SmsRefusal::BadNumber);
    }
    if !modem::sms_text_is_sendable(message) {
        return Err(SmsRefusal::NotSendable);
    }
    proof {
        bounded::lemma_byte_len_ascii(number@);
        bounded::lemma_byte_len_ascii(message@);
    }
    match (
        Text::holding::<SMS_NUMBER_SIZE>(number),
        Text::holding::<SMS_BODY_SIZE>(message),
    ) {
        (Some(number), Some(text)) => Ok(OutgoingSms { number, text }),
        _ => Err(SmsRefusal::NoRoom),
    }
}

/// What became of an LED command.
#[derive(Debug, Clone, Copy, PartialEq, Eq, Structural)]
pub enum LedCommand {
    /// The LED is in this mode now.
    Now(Mode),
    /// The command is none of the known ones.
    NotUnderstood,
}

/// What an LED command makes of a mode. Case and white space around it do not
/// matter.
pub open spec fn led_command(payload: Seq<u8>, mode: Mode) -> LedCommand {
    let word = text::trimmed_ascii(payload);
    if text::spells_but_case(word, "ON"@) {
        LedCommand::Now(Mode::On)
    } else if text::spells_but_case(word, "OFF"@) {
        LedCommand::Now(Mode::Off)
    } else if text::spells_but_case(word, "BLINK"@) {
        LedCommand::Now(Mode::Blink)
    } else if text::spells_but_case(word, "TOGGLE"@) {
        LedCommand::Now(led::toggled(mode))
    } else {
        LedCommand::NotUnderstood
    }
}

/// Carries out an LED command: `ON`, `OFF`, `BLINK` or `TOGGLE`. One that is
/// not understood changes nothing.
///
/// `TOGGLE` stands apart: the others set a mode, this one depends on it.
pub fn apply_led_command(state: &mut LedState, payload: &[u8]) -> (r: LedCommand)
    ensures
        r == led_command(payload@, led::mode_of(old(state).code)),
        final(state).code == (match r {
            LedCommand::Now(mode) => led::mode_code(mode),
            LedCommand::NotUnderstood => old(state).code,
        }),
{
    let word: &[u8] = text::trim_ascii(payload);
    let mode: Mode = if text::is_spelling_but_case(word, "ON") {
        Mode::On
    } else if text::is_spelling_but_case(word, "OFF") {
        Mode::Off
    } else if text::is_spelling_but_case(word, "BLINK") {
        Mode::Blink
    } else if text::is_spelling_but_case(word, "TOGGLE") {
        return LedCommand::Now(led::toggle(state));
    } else {
        return LedCommand::NotUnderstood;
    };
    led::set_mode(state, mode);
    LedCommand::Now(mode)
}

/// What became of a publication that came in.
pub enum Dispatched {
    Led(LedCommand),
    Block(BlockCommand),
    Total(TotalCommand),
    Sms(Result<OutgoingSms, SmsRefusal>),
    Unexpected,
}

/// What commands can change.
#[derive(Debug, Clone, Copy, PartialEq, Eq, Structural)]
pub struct Controls {
    pub led: LedState,
    pub gate: Gate,
    pub total: TotalBlock,
}

/// Carries out the command that came in on a topic. Each command touches its
/// own state alone, and an unexpected topic touches nothing.
pub fn dispatch(topics: &Topics, controls: &mut Controls, topic: &str, message: &[u8]) -> (r:
    Dispatched)
    ensures
        topic@ == topics.led@ ==> {
            &&& r == Dispatched::Led(led_command(message@, led::mode_of(old(controls).led.code)))
            &&& final(controls).led.code == (match led_command(
                message@,
                led::mode_of(old(controls).led.code),
            ) {
                LedCommand::Now(mode) => led::mode_code(mode),
                LedCommand::NotUnderstood => old(controls).led.code,
            })
        },
        topic@ != topics.led@ ==> final(controls).led == old(controls).led,
        topic@ != topics.led@ && topic@ == topics.coin_block@ ==> {
            &&& r == Dispatched::Block(coin_io::block_command(message@))
            &&& final(controls).gate.mask == (match coin_io::block_command(message@) {
                BlockCommand::InForce(mask) => mask,
                _ => old(controls).gate.mask,
            })
        },
        !(topic@ != topics.led@ && topic@ == topics.coin_block@) ==> final(controls).gate == old(
            controls,
        ).gate,
        topic@ != topics.led@ && topic@ != topics.coin_block@ && topic@ == topics.coin_total@ ==> {
            &&& r == Dispatched::Total(coin_io::total_command(message@))
            &&& final(controls).total.blocked == (match coin_io::total_command(message@) {
                TotalCommand::InForce(blocked) => blocked,
                _ => old(controls).total.blocked,
            })
        },
        !(topic@ != topics.led@ && topic@ != topics.coin_block@ && topic@ == topics.coin_total@)
            ==> final(controls).total == old(controls).total,
        topic@ != topics.led@ && topic@ != topics.coin_block@ && topic@ != topics.coin_total@ ==> {
            if has_prefix(topic@, topics.sms_send@) {
                match sms_refusal(topic@.skip(topics.sms_send@.len() as int), message@) {
                    Some(refusal) => r == Dispatched::Sms(
                        Err::<OutgoingSms, SmsRefusal>(refusal),
                    ),
                    None => r matches Dispatched::Sms(Ok(sms)) && sms.number@ == topic@.skip(
                        topics.sms_send@.len() as int,
                    ) && sms.text@ == vstd::utf8::decode_utf8(message@),
                }
            } else {
                r is Unexpected
            }
        },
{
    match route(topics, topic) {
        Route::Led => Dispatched::Led(apply_led_command(&mut controls.led, message)),
        Route::CoinBlock => Dispatched::Block(
            coin_io::apply_block_command(&mut controls.gate, message),
        ),
        Route::CoinTotal => Dispatched::Total(
            coin_io::apply_total_command(&mut controls.total, message),
        ),
        Route::SmsTo(number) => Dispatched::Sms(queue_sms(number, message)),
        Route::Unexpected => Dispatched::Unexpected,
    }
}

// ---------------------------------------------------------------------------
// What holds of topics, sessions and commands
// ---------------------------------------------------------------------------

/// A topic is any text that is not empty and has no wildcard in it.
pub proof fn law_topics(s: Seq<char>)
    ensures
        is_topic(s) <==> s.len() > 0 && forall|i: int|
            0 <= i < s.len() ==> #[trigger] s[i] != '+' && s[i] != '#',
{
    if is_topic(s) {
        assert forall|i: int| 0 <= i < s.len() implies #[trigger] s[i] != '+' && s[i] != '#' by {
            assert(s.contains(s[i]));
        }
    }
}

/// Every topic is a filter, and so is a topic with a level behind it that is a
/// wildcard. A wildcard next to something else on its level makes no filter.
pub proof fn law_filters(topic: Seq<char>, level: Seq<char>)
    requires
        is_topic(topic),
        !level.contains('/'),
        level.len() > 0,
    ensures
        is_filter(topic),
        is_filter(topic + seq!['/', '+']),
        is_filter(topic + seq!['/', '#']),
        level.contains('+') && level.len() > 1 ==> !is_filter(topic + seq!['/'] + level),
        is_filter(seq!['+']),
        is_filter(seq!['#']),
        !is_filter(seq!['#', '/'] + topic),
        !is_filter(Seq::empty()),
{
    let slash = seq!['/'];
    assert(slash[0] == '/');
    assert(slash.contains('/'));
    law_topics(topic);
    lemma_levels_of_topic(topic);
    lemma_level_is_a_piece(seq!['+']);
    lemma_level_is_a_piece(seq!['#']);
    lemma_level_is_a_piece(level);
    lemma_filter_with_level(topic, seq!['+']);
    lemma_filter_with_level(topic, seq!['#']);
    lemma_filter_with_level(topic, level);
    assert(topic + seq!['/', '+'] =~= topic.push('/') + seq!['+']);
    assert(topic + seq!['/', '#'] =~= topic.push('/') + seq!['#']);
    assert(topic + seq!['/'] + level =~= topic.push('/') + level);
    assert((seq!['#', '/'] + topic)[0] == '#');
}

/// A level without a slash is one piece.
proof fn lemma_level_is_a_piece(level: Seq<char>)
    requires
        !level.contains('/'),
    ensures
        text::pieces(level, seq!['/']) == seq![level],
{
    let slash = seq!['/'];
    assert forall|i: int| 0 <= i < level.len() implies !slash.contains(#[trigger] level[i]) by {
        assert(level.contains(level[i]));
    }
    text::law_unbroken_text_is_one_piece(level, slash);
}

/// The levels of a text are parts of it.
proof fn lemma_pieces_are_parts(s: Seq<char>, separators: Seq<char>, k: int, c: char)
    requires
        0 <= k < text::pieces(s, separators).len(),
        text::pieces(s, separators)[k].contains(c),
    ensures
        s.contains(c),
    decreases s.len(),
{
    if s.len() > 0 {
        let before = s.drop_last();
        let earlier = text::pieces(before, separators);
        let piece = text::pieces(s, separators)[k];
        let at = choose|i: int| 0 <= i < piece.len() && piece[i] == c;
        assert(s.last() == s[s.len() - 1]);
        if s.last() != c {
            if k < earlier.len() {
                if separators.contains(s.last()) {
                    assert(piece == earlier[k]);
                } else if k < earlier.len() - 1 {
                    assert(piece == earlier[k]);
                } else {
                    assert(piece == earlier.last().push(s.last()));
                    assert(earlier[k][at] == c);
                }
                assert(earlier[k].contains(c));
                lemma_pieces_are_parts(before, separators, k, c);
                let i = choose|i: int| 0 <= i < before.len() && before[i] == c;
                assert(s[i] == c);
            } else {
                assert(piece =~= Seq::<char>::empty());
            }
        }
    }
}

/// All levels of a topic are in order.
proof fn lemma_levels_of_topic(topic: Seq<char>)
    requires
        is_topic(topic),
    ensures
        is_filter(topic),
{
    let levels = text::pieces(topic, seq!['/']);
    assert forall|k: int| 0 <= k < levels.len() implies level_in_order(#[trigger] levels[k]) by {
        if levels[k].contains('+') {
            lemma_pieces_are_parts(topic, seq!['/'], k, '+');
        }
        if levels[k].contains('#') {
            lemma_pieces_are_parts(topic, seq!['/'], k, '#');
        }
    }
    law_topics(topic);
}

/// A topic with one more level is a filter when that level is in order and
/// `#` does not stand in front of its end.
proof fn lemma_filter_with_level(topic: Seq<char>, level: Seq<char>)
    requires
        is_topic(topic),
        !level.contains('/'),
        level.len() > 0,
    ensures
        level_in_order(level) ==> is_filter(topic.push('/') + level) && is_filter(level),
        !level_in_order(level) ==> !is_filter(topic.push('/') + level),
{
    let slash = seq!['/'];
    let s = topic.push('/') + level;
    assert(slash[0] == '/');
    lemma_levels_of_topic(topic);
    lemma_level_is_a_piece(level);
    text::law_separator_parts_a_text(topic, '/', level, slash);
    let front = text::pieces(topic, slash);
    let all = text::pieces(s, slash);
    assert(all == front + seq![level]);
    assert(all[front.len() as int] == level);
    if level_in_order(level) {
        assert forall|k: int| 0 <= k < all.len() implies level_in_order(#[trigger] all[k]) by {
            if k < front.len() {
                assert(all[k] == front[k]);
            }
        }
        law_topics(topic);
        assert forall|i: int| 0 <= i < s.len() && #[trigger] s[i] == '#' implies i == s.len()
            - 1 by {
            if i < topic.len() {
                assert(s[i] == topic[i]);
            } else if i > topic.len() {
                assert(level[i - topic.len() - 1] == '#');
                assert(level.contains('#'));
            }
        }
        assert(text::pieces(level, slash)[0] == level);
        assert forall|i: int| 0 <= i < level.len() && #[trigger] level[i] == '#' implies i
            == level.len() - 1 by {
            assert(level.contains('#'));
        }
    }
}

/// What MQTT carries: no null character, and at most 65535 bytes.
pub proof fn law_carriable_strings(s: Seq<char>)
    ensures
        carriable(s) <==> vstd::utf8::encode_utf8(s).len() < 0x1_0000 && forall|i: int|
            0 <= i < s.len() ==> #[trigger] s[i] != '\0',
{
    if carriable(s) {
        assert forall|i: int| 0 <= i < s.len() implies #[trigger] s[i] != '\0' by {
            assert(s.contains(s[i]));
        }
    }
}

/// A session in which every step succeeds finds the broker, connects, greets,
/// subscribes four times and then runs. A session that runs goes on running,
/// and one that is over stays over.
pub proof fn law_course_of_a_session(stage: SessionStage)
    ensures
        ({
            let connecting = stage_after(SessionStage::Resolving, true);
            let greeting = stage_after(connecting, true);
            let first = stage_after(greeting, true);
            let second = stage_after(first, true);
            let third = stage_after(second, true);
            let fourth = stage_after(third, true);
            &&& connecting == SessionStage::Connecting
            &&& greeting == SessionStage::Greeting
            &&& first == SessionStage::Subscribing(0)
            &&& second == SessionStage::Subscribing(1)
            &&& third == SessionStage::Subscribing(2)
            &&& fourth == SessionStage::Subscribing(3)
            &&& stage_after(fourth, true) == SessionStage::Running
        }),
        stage_after(SessionStage::Running, true) == SessionStage::Running,
        stage_after(SessionStage::Ended, true) == SessionStage::Ended,
        stage_after(stage, false) == SessionStage::Ended,
{
}

/// Each command topic is subscribed to exactly once: the LED, the lines, the
/// whole acceptor, and the filter for SMS.
pub proof fn law_order_of_subscriptions(topics: Topics)
    ensures
        subscription_order(topics).len() == 4,
        subscription_order(topics)[0] == topics.led,
        subscription_order(topics)[1] == topics.coin_block,
        subscription_order(topics)[2] == topics.coin_total,
        subscription_order(topics)[3] == topics.sms_send_filter,
{
}

/// Every publication goes out on the topic of its kind. The broker keeps all
/// but coins. Texts go out as they are, and a level can be read back.
pub proof fn law_publications(topics: Topics, outgoing: Outgoing)
    ensures
        ({
            let (topic, retain, payload) = published(topics, outgoing);
            &&& outgoing is Csq ==> topic == topics.csq
            &&& outgoing is Sms ==> topic == topics.sms
            &&& outgoing is Coin ==> topic == topics.coin
            &&& retain <==> !(outgoing is Coin)
            &&& outgoing matches Outgoing::Sms(text) ==> payload == text@
            &&& outgoing matches Outgoing::Coin(text) ==> payload == text@
            &&& outgoing matches Outgoing::Csq(level) ==> text::number_up_to(payload, 255) == Some(
                level as nat,
            ) && (level < 10 ==> payload.len() == 1)
        }),
{
    if let Outgoing::Csq(level) = outgoing {
        text::law_number_is_read(false, 0, level as nat, 255);
        text::law_digits(level as nat);
        assert(text::written_number(false, 0, level as nat) =~= text::decimal(level as nat));
    }
}

/// A command topic leads to its own command. Whatever stands behind the topic
/// for SMS is the number, and any other topic leads nowhere.
pub proof fn law_commands_find_their_way(
    route: Route<'_>,
    topics: Topics,
    topic: Seq<char>,
    number: Seq<char>,
)
    requires
        topics.led@ != topics.coin_block@,
        topics.led@ != topics.coin_total@,
        topics.coin_block@ != topics.coin_total@,
    ensures
        routes_to(route, topics, topics.led@) <==> route is Led,
        routes_to(route, topics, topics.coin_block@) <==> route is CoinBlock,
        routes_to(route, topics, topics.coin_total@) <==> route is CoinTotal,
        topic != topics.led@ && topic != topics.coin_block@ && topic != topics.coin_total@ ==> {
            &&& topic == topics.sms_send@ + number ==> (routes_to(route, topics, topic) <==> (
            route matches Route::SmsTo(called) && called@ == number))
            &&& !topics.sms_send@.is_prefix_of(topic) ==> (routes_to(route, topics, topic)
                <==> route is Unexpected)
        },
{
    let prefix = topics.sms_send@;
    assert((prefix + number).skip(prefix.len() as int) =~= number);
    assert((prefix + number).take(prefix.len() as int) =~= prefix);
    if has_prefix(topic, prefix) {
        assert(prefix.is_prefix_of(topic));
    }
}

/// A text begins with another when that is a prefix of it.
pub proof fn law_prefixes(s: Seq<char>, prefix: Seq<char>)
    ensures
        has_prefix(s, prefix) <==> prefix.is_prefix_of(s),
{
    if prefix.is_prefix_of(s) {
        assert(s.take(prefix.len() as int) =~= prefix);
    }
}

/// An SMS is taken when its number is 5 to 20 digits and its text is 1 to 160
/// ASCII characters without Ctrl-Z and Esc. Otherwise the first reason counts:
/// octets that are no text, then the number, then the text.
pub proof fn law_reasons_to_refuse_an_sms(number: Seq<char>, message: Seq<char>, payload: Seq<u8>)
    ensures
        sms_refusal(number, payload) == Some(SmsRefusal::NotText) <==> !vstd::utf8::valid_utf8(
            payload,
        ),
        ({
            let good_number = 5 <= number.len() <= 20 && forall|i: int|
                0 <= i < number.len() ==> '0' <= #[trigger] number[i] <= '9';
            let good_text = 1 <= message.len() <= 160 && forall|i: int|
                0 <= i < message.len() ==> (#[trigger] message[i] as u32) < 0x80
                    && message[i] as u32 != 0x1A && message[i] as u32 != 0x1B;
            let refusal = sms_refusal(number, vstd::utf8::encode_utf8(message));
            &&& refusal is None <==> good_number && good_text
            &&& refusal == Some(SmsRefusal::BadNumber) <==> !good_number
            &&& refusal == Some(SmsRefusal::NotSendable) <==> good_number && !good_text
        }),
{
    vstd::utf8::encode_utf8_valid_utf8(message);
    vstd::utf8::encode_utf8_decode_utf8(message);
    modem::law_phone_numbers(number);
    modem::law_sendable_texts(message);
}

/// Whether octets are these letters, each in one of its sizes.
pub open spec fn reads(word: Seq<u8>, letters: Seq<char>) -> bool {
    &&& word.len() == letters.len()
    &&& forall|i: int|
        0 <= i < word.len() ==> text::same_letter(#[trigger] word[i] as char, letters[i])
}

/// The four words are understood in any case and with any ASCII white space
/// around them, and nothing else is. `ON`, `OFF` and `BLINK` set their mode
/// whatever it was; `TOGGLE` lights what is dark and puts out what is not.
pub proof fn law_words_for_the_led(front: Seq<u8>, word: Seq<u8>, back: Seq<u8>, mode: Mode)
    requires
        text::is_ascii_blank(front),
        text::is_ascii_blank(back),
        word.len() > 0 ==> !text::is_ascii_space(word[0]) && !text::is_ascii_space(word.last()),
    ensures
        ({
            let done = led_command(front + word + back, mode);
            &&& reads(word, seq!['O', 'N']) ==> done == LedCommand::Now(Mode::On)
            &&& reads(word, seq!['O', 'F', 'F']) ==> done == LedCommand::Now(Mode::Off)
            &&& reads(word, seq!['B', 'L', 'I', 'N', 'K']) ==> done == LedCommand::Now(Mode::Blink)
            &&& reads(word, seq!['T', 'O', 'G', 'G', 'L', 'E']) ==> done == if mode == Mode::Off {
                LedCommand::Now(Mode::On)
            } else {
                LedCommand::Now(Mode::Off)
            }
            &&& done == LedCommand::NotUnderstood <==> !reads(word, seq!['O', 'N']) && !reads(
                word,
                seq!['O', 'F', 'F'],
            ) && !reads(word, seq!['B', 'L', 'I', 'N', 'K']) && !reads(
                word,
                seq!['T', 'O', 'G', 'G', 'L', 'E'],
            )
        }),
{
    reveal_strlit("ON");
    reveal_strlit("OFF");
    reveal_strlit("BLINK");
    reveal_strlit("TOGGLE");
    assert("ON"@ =~= seq!['O', 'N']);
    assert("OFF"@ =~= seq!['O', 'F', 'F']);
    assert("BLINK"@ =~= seq!['B', 'L', 'I', 'N', 'K']);
    assert("TOGGLE"@ =~= seq!['T', 'O', 'G', 'G', 'L', 'E']);
    text::law_ascii_trimming(front, word, back);
    text::law_spelling_but_case(word, "ON"@);
    text::law_spelling_but_case(word, "OFF"@);
    text::law_spelling_but_case(word, "BLINK"@);
    text::law_spelling_but_case(word, "TOGGLE"@);
}

} // verus!
