//! Keeping the link up: what to do when bringing it up fails, and what to do
//! while it stands.

use vstd::prelude::*;

use crate::bounded::Text;
use crate::modem::Urc;
use crate::mqtt;
use crate::sim800l::BringUpError;

verus! {

/// How many restarts of the module in a row point to the supply.
pub const RESET_STREAK_HINT: u32 = 3;

/// After how many silent attempts in a row the power key is pressed.
pub const PWRKEY_AFTER_FAILURES: u32 = 3;

/// Mark of a warm start. It survives a reset of the chip, but not a loss of
/// power.
pub const WARM_BOOT_MAGIC: u32 = 0x5350_5057;

/// How often the signal level is asked for while the link stands, in seconds.
pub const CSQ_PERIOD_SECS: u64 = 30;

/// Whether the power key has to be pressed at start.
///
/// The key toggles the power of the module. After a reset by the watchdog the
/// module is still on, and the key would switch it off.
pub fn needs_power_on(scratch: u32) -> (r: bool)
    ensures
        r == (scratch != WARM_BOOT_MAGIC),
{
    scratch != WARM_BOOT_MAGIC
}

/// What to say about a failure in the log.
#[derive(Debug, Clone, Copy, PartialEq, Eq, Structural)]
pub enum Report {
    /// The module restarted, so many times in a row; with a hint at the supply
    /// or without.
    Restarted { streak: u32, hint: bool },
    /// Another failure.
    Failed,
}

/// Failures in a row.
#[derive(Debug, Clone, Copy, PartialEq, Eq, Structural)]
pub struct Streaks {
    /// Restarts of the module while it came up.
    pub resets: u32,
    /// Attempts on which the module did not answer at all.
    pub silent: u32,
}

impl Default for Streaks {
    fn default() -> (r: Self)
        ensures
            r.resets == 0,
            r.silent == 0,
    {
        Streaks { resets: 0, silent: 0 }
    }
}

/// Counts a failure among the restarts, and says what to report.
pub fn report_bring_up_error(resets: &mut u32, error: &BringUpError) -> (r: Report)
    requires
        *old(resets) < u32::MAX,
    ensures
        *error is ModemReset ==> *final(resets) == *old(resets) + 1 && r == (Report::Restarted {
            streak: *final(resets),
            hint: *final(resets) >= RESET_STREAK_HINT,
        }),
        r matches Report::Restarted { streak, hint } ==> (hint <==> streak >= 3),
        !(*error is ModemReset) ==> *final(resets) == 0 && r == Report::Failed,
{
    match error {
        BringUpError::ModemReset => {
            *resets = *resets + 1;
            Report::Restarted { streak: *resets, hint: *resets >= RESET_STREAK_HINT }
        },
        _ => {
            *resets = 0;
            Report::Failed
        },
    }
}

/// Counts a failure among the silent ones, and says whether to press the power
/// key.
///
/// Only silence counts. Any other failure means that the module is alive, and
/// the key would switch it off; above all a restart, which comes from a weak
/// supply. Once the key is pressed counting starts anew: the module takes
/// seconds to start.
pub fn revive_modem_if_stuck(silent: &mut u32, error: &BringUpError) -> (r: bool)
    requires
        *old(silent) < u32::MAX,
    ensures
        r == (*error is NoResponse && *old(silent) + 1 >= PWRKEY_AFTER_FAILURES),
        *final(silent) == (if *error is NoResponse && !r {
            (*old(silent) + 1) as u32
        } else {
            0
        }),
{
    match error {
        BringUpError::NoResponse => {
            *silent = *silent + 1;
            if *silent < PWRKEY_AFTER_FAILURES {
                return false;
            }
            *silent = 0;
            true
        },
        _ => {
            *silent = 0;
            false
        },
    }
}

/// What the keeper of the link does next.
#[derive(Debug, Clone, Copy, PartialEq, Eq, Structural)]
pub enum LinkStep {
    /// Bring the module up.
    BringUp,
    /// Let data run.
    Run,
    /// Press the power key if asked to, put the modem back to commands, wait,
    /// and start over.
    Recover { press_power_key: bool },
}

/// How a stage of the link ended.
#[derive(Debug)]
pub enum LinkEvent {
    /// Bringing the module up ended.
    BroughtUp(Result<(), BringUpError>),
    /// Data ran, and the session is over.
    SessionOver,
    /// The modem is back at commands and the pause is over.
    Recovered,
}

/// What follows a stage of the link.
pub open spec fn link_step(streaks: Streaks, event: LinkEvent) -> LinkStep {
    match event {
        LinkEvent::BroughtUp(Ok(_)) => LinkStep::Run,
        LinkEvent::BroughtUp(Err(error)) => LinkStep::Recover {
            press_power_key: error is NoResponse && streaks.silent + 1 >= PWRKEY_AFTER_FAILURES,
        },
        LinkEvent::SessionOver => LinkStep::Recover { press_power_key: false },
        LinkEvent::Recovered => LinkStep::BringUp,
    }
}

/// The failures in a row after a stage of the link.
pub open spec fn streaks_after(streaks: Streaks, event: LinkEvent) -> Streaks {
    match event {
        LinkEvent::BroughtUp(Ok(_)) => Streaks { resets: 0, silent: 0 },
        LinkEvent::BroughtUp(Err(error)) => Streaks {
            resets: if error is ModemReset {
                (streaks.resets + 1) as u32
            } else {
                0
            },
            silent: if error is NoResponse && streaks.silent + 1 < PWRKEY_AFTER_FAILURES {
                (streaks.silent + 1) as u32
            } else {
                0
            },
        },
        _ => streaks,
    }
}

impl Streaks {
    /// Takes the end of a stage and says what to do next, and what to report if
    /// bringing the module up failed.
    pub fn on_event(&mut self, event: &LinkEvent) -> (r: (LinkStep, Option<Report>))
        requires
            old(self).resets < u32::MAX,
            old(self).silent < u32::MAX,
        ensures
            r.0 == link_step(*old(self), *event),
            *final(self) == streaks_after(*old(self), *event),
            r.1 == (match *event {
                LinkEvent::BroughtUp(Err(error)) => Some(
                    if error is ModemReset {
                        Report::Restarted {
                            streak: final(self).resets,
                            hint: final(self).resets >= RESET_STREAK_HINT,
                        }
                    } else {
                        Report::Failed
                    },
                ),
                _ => None::<Report>,
            }),
            r.1 matches Some(Report::Restarted { streak, hint }) ==> (hint <==> streak >= 3),
    {
        match event {
            LinkEvent::BroughtUp(Ok(_)) => {
                self.resets = 0;
                self.silent = 0;
                (LinkStep::Run, None)
            },
            LinkEvent::BroughtUp(Err(error)) => {
                let report = report_bring_up_error(&mut self.resets, error);
                let press_power_key: bool = revive_modem_if_stuck(&mut self.silent, error);
                (LinkStep::Recover { press_power_key }, Some(report))
            },
            LinkEvent::SessionOver => (LinkStep::Recover { press_power_key: false }, None),
            LinkEvent::Recovered => (LinkStep::BringUp, None),
        }
    }
}

/// Data runs only after the module came up, and after any end the modem is put
/// back to commands before it is brought up again. Only attempts to bring the
/// module up are counted.
pub proof fn law_link_cycle(streaks: Streaks, event: LinkEvent)
    ensures
        link_step(streaks, event) == LinkStep::Run <==> (event matches LinkEvent::BroughtUp(Ok(_))),
        link_step(streaks, event) == LinkStep::BringUp <==> event is Recovered,
        link_step(streaks, event) is Recover <==> event is SessionOver || (
        event matches LinkEvent::BroughtUp(Err(_))),
        !(event is BroughtUp) ==> streaks_after(streaks, event) == streaks,
{
}

/// The failures in a row after these attempts to bring the module up.
pub open spec fn streaks_over(attempts: Seq<Result<(), BringUpError>>) -> Streaks
    decreases attempts.len(),
{
    if attempts.len() == 0 {
        Streaks { resets: 0, silent: 0 }
    } else {
        streaks_after(
            streaks_over(attempts.drop_last()),
            LinkEvent::BroughtUp(attempts.last()),
        )
    }
}

/// How many of the latest attempts in a row met silence.
pub open spec fn silences(attempts: Seq<Result<(), BringUpError>>) -> nat
    decreases attempts.len(),
{
    if attempts.len() == 0 {
        0
    } else {
        match attempts.last() {
            Err(BringUpError::NoResponse) => silences(attempts.drop_last()) + 1,
            _ => 0,
        }
    }
}

/// How many of the latest attempts in a row ended in a restart of the module.
pub open spec fn restarts(attempts: Seq<Result<(), BringUpError>>) -> nat
    decreases attempts.len(),
{
    if attempts.len() == 0 {
        0
    } else {
        match attempts.last() {
            Err(BringUpError::ModemReset) => restarts(attempts.drop_last()) + 1,
            _ => 0,
        }
    }
}

/// The power key is pressed on every third silent attempt in a row, and at no
/// other time.
pub proof fn law_power_key_needs_three_silences(attempts: Seq<Result<(), BringUpError>>)
    requires
        attempts.len() > 0,
    ensures
        link_step(
            streaks_over(attempts.drop_last()),
            LinkEvent::BroughtUp(attempts.last()),
        ) == (LinkStep::Recover { press_power_key: true }) <==> silences(attempts) > 0 && silences(
            attempts,
        ) % PWRKEY_AFTER_FAILURES as nat == 0,
{
    lemma_silent_streak(attempts.drop_last());
    lemma_silent_streak(attempts);
}

/// The count of silent attempts starts anew when the key is pressed.
proof fn lemma_silent_streak(attempts: Seq<Result<(), BringUpError>>)
    ensures
        streaks_over(attempts).silent == silences(attempts) % PWRKEY_AFTER_FAILURES as nat,
    decreases attempts.len(),
{
    if attempts.len() > 0 {
        lemma_silent_streak(attempts.drop_last());
    }
}

/// The count of restarts is the number of the latest attempts in a row that
/// ended in one.
pub proof fn law_restarts_in_a_row_are_counted(attempts: Seq<Result<(), BringUpError>>)
    requires
        attempts.len() <= u32::MAX,
    ensures
        streaks_over(attempts).resets == restarts(attempts) <= attempts.len(),
    decreases attempts.len(),
{
    if attempts.len() > 0 {
        law_restarts_in_a_row_are_counted(attempts.drop_last());
    }
}

// ---------------------------------------------------------------------------
// While the link stands
// ---------------------------------------------------------------------------

/// What happened on the AT channel while the link stands.
#[derive(Debug)]
pub enum AtEvent {
    /// It is time to ask for the signal level.
    CsqDue,
    /// The modem sent a message of its own accord.
    Message(Urc),
    /// An SMS waits to be sent.
    SmsWaiting,
}

/// What to do about it.
#[derive(Debug, Clone, Copy, PartialEq, Eq, Structural)]
pub enum AtAction {
    /// Ask for the level and for the time.
    AskSignalAndTime,
    /// Read the SMS at this index, hand it on, and delete it.
    ForwardSms(u32),
    /// Send the SMS.
    SendSms,
    Nothing,
}

/// What an event on the AT channel asks for.
pub open spec fn at_action(event: AtEvent) -> AtAction {
    match event {
        AtEvent::CsqDue => AtAction::AskSignalAndTime,
        AtEvent::Message(Urc::NewMessage(notice)) => AtAction::ForwardSms(notice.index),
        AtEvent::Message(_) => AtAction::Nothing,
        AtEvent::SmsWaiting => AtAction::SendSms,
    }
}

/// What to do about an event on the AT channel.
pub fn on_at_event(event: &AtEvent) -> (r: AtAction)
    ensures
        r == at_action(*event),
{
    match event {
        AtEvent::CsqDue => AtAction::AskSignalAndTime,
        AtEvent::Message(Urc::NewMessage(notice)) => AtAction::ForwardSms(notice.index),
        AtEvent::Message(_) => AtAction::Nothing,
        AtEvent::SmsWaiting => AtAction::SendSms,
    }
}

/// When the signal level is asked for next, once an action is done.
pub open spec fn csq_due_after(due_ms: u64, action: AtAction, now_ms: u64) -> u64 {
    if action == AtAction::AskSignalAndTime {
        (now_ms + 1000 * CSQ_PERIOD_SECS) as u64
    } else {
        due_ms
    }
}

/// When the signal level is asked for next, in milliseconds since power-up: a
/// period after it was asked for. Nothing else moves it.
pub fn next_csq_ms(due_ms: u64, action: &AtAction, now_ms: u64) -> (r: u64)
    requires
        now_ms + 1000 * CSQ_PERIOD_SECS <= u64::MAX,
    ensures
        r == csq_due_after(due_ms, *action, now_ms),
{
    match action {
        AtAction::AskSignalAndTime => now_ms + 1000 * CSQ_PERIOD_SECS,
        _ => due_ms,
    }
}

/// How far a session through the multiplexer has come: what is being done.
#[derive(Debug, Clone, Copy, PartialEq, Eq, Structural)]
pub enum MuxStage {
    /// The channels come up.
    Raising,
    /// The data channel dials.
    Dialling,
    /// Data runs, and SMS are set up on the AT channel. Not earlier: each
    /// channel is an AT interface of its own, and its replies are read only
    /// from here on.
    ConfiguringSms,
    /// The AT channel waits for something to do; the signal level is asked for
    /// at this time, in milliseconds since power-up.
    Waiting { csq_due_ms: u64 },
    /// Something is being done on the AT channel.
    Serving { csq_due_ms: u64, action: AtAction },
    /// The session is over.
    Over,
}

/// What became of it.
#[derive(Debug)]
pub enum MuxEvent {
    /// The channels came up, or did not.
    Raised(bool),
    /// The data channel got its connection, or did not.
    Dialled(bool),
    /// SMS are set up, as far as the modem agreed.
    SmsConfigured,
    /// Something happened on the AT channel.
    At(AtEvent),
    /// What was to be done on the AT channel is done, well or not.
    Served,
}

/// The stage that follows an event. An event that belongs to another stage
/// changes nothing.
pub open spec fn mux_stage_after(stage: MuxStage, event: MuxEvent, now_ms: u64) -> MuxStage {
    match (stage, event) {
        (MuxStage::Raising, MuxEvent::Raised(up)) => if up {
            MuxStage::Dialling
        } else {
            MuxStage::Over
        },
        (MuxStage::Dialling, MuxEvent::Dialled(connected)) => if connected {
            MuxStage::ConfiguringSms
        } else {
            MuxStage::Over
        },
        (MuxStage::ConfiguringSms, MuxEvent::SmsConfigured) => MuxStage::Waiting {
            csq_due_ms: (now_ms + 1000 * CSQ_PERIOD_SECS) as u64,
        },
        (MuxStage::Waiting { csq_due_ms }, MuxEvent::At(event)) => if at_action(event)
            == AtAction::Nothing {
            stage
        } else {
            MuxStage::Serving { csq_due_ms, action: at_action(event) }
        },
        (MuxStage::Serving { csq_due_ms, action }, MuxEvent::Served) => MuxStage::Waiting {
            csq_due_ms: csq_due_after(csq_due_ms, action, now_ms),
        },
        _ => stage,
    }
}

/// The stage that follows an event.
pub fn next_mux_stage(stage: MuxStage, event: &MuxEvent, now_ms: u64) -> (r: MuxStage)
    requires
        now_ms + 1000 * CSQ_PERIOD_SECS <= u64::MAX,
    ensures
        r == mux_stage_after(stage, *event, now_ms),
{
    match (stage, event) {
        (MuxStage::Raising, MuxEvent::Raised(up)) => {
            if *up {
                MuxStage::Dialling
            } else {
                MuxStage::Over
            }
        },
        (MuxStage::Dialling, MuxEvent::Dialled(connected)) => {
            if *connected {
                MuxStage::ConfiguringSms
            } else {
                MuxStage::Over
            }
        },
        (MuxStage::ConfiguringSms, MuxEvent::SmsConfigured) => MuxStage::Waiting {
            csq_due_ms: now_ms + 1000 * CSQ_PERIOD_SECS,
        },
        (MuxStage::Waiting { csq_due_ms }, MuxEvent::At(event)) => match on_at_event(event) {
            AtAction::Nothing => stage,
            action => MuxStage::Serving { csq_due_ms, action },
        },
        (MuxStage::Serving { csq_due_ms, action }, MuxEvent::Served) => MuxStage::Waiting {
            csq_due_ms: next_csq_ms(csq_due_ms, &action, now_ms),
        },
        _ => stage,
    }
}

/// Dialling needs the channels, work on the AT channel needs the connection,
/// and a session that is over stays over. Work on the AT channel never ends by
/// itself: it stops with the data.
pub proof fn law_mux_session_goes_in_order(stage: MuxStage, event: MuxEvent, now_ms: u64)
    ensures
        ({
            let next = mux_stage_after(stage, event, now_ms);
            &&& next == MuxStage::Raising ==> stage == MuxStage::Raising
            &&& next == MuxStage::Dialling && stage != next ==> stage == MuxStage::Raising && event
                == MuxEvent::Raised(true)
            &&& next == MuxStage::ConfiguringSms && stage != next ==> stage == MuxStage::Dialling
                && event == MuxEvent::Dialled(true)
            &&& next is Waiting ==> stage == MuxStage::ConfiguringSms || stage is Waiting
                || stage is Serving
            &&& next is Serving ==> stage is Waiting || stage is Serving
            &&& stage == MuxStage::Over ==> next == MuxStage::Over
            &&& has_data(stage) ==> next != MuxStage::Over
        }),
{
}

/// Messages and SMS do not put off the question for the signal level: its time
/// moves only when the question was asked.
pub proof fn law_signal_is_asked_for_in_time(
    csq_due_ms: u64,
    event: AtEvent,
    served_ms: u64,
    now_ms: u64,
)
    ensures
        ({
            let waiting = MuxStage::Waiting { csq_due_ms };
            let served = mux_stage_after(
                mux_stage_after(waiting, MuxEvent::At(event), now_ms),
                MuxEvent::Served,
                served_ms,
            );
            served == if event is CsqDue {
                MuxStage::Waiting { csq_due_ms: (served_ms + 1000 * CSQ_PERIOD_SECS) as u64 }
            } else {
                waiting
            }
        }),
{
}

/// Whether data runs through the session: from the connection on.
pub open spec fn has_data(stage: MuxStage) -> bool {
    stage == MuxStage::ConfiguringSms || stage is Waiting || stage is Serving
}

/// Whether the end of a session that has come to this stage is the loss of a
/// link. A session that never got its connection has lost nothing.
pub fn loses_link(stage: MuxStage) -> (r: bool)
    ensures
        r == has_data(stage),
{
    match stage {
        MuxStage::ConfiguringSms => true,
        MuxStage::Waiting { .. } => true,
        MuxStage::Serving { .. } => true,
        _ => false,
    }
}

/// A link can be lost only once the channels came up and dialling succeeded,
/// and from then on as long as the session goes on.
pub proof fn law_only_a_link_can_be_lost(stage: MuxStage, event: MuxEvent, now_ms: u64)
    ensures
        has_data(mux_stage_after(stage, event, now_ms)) <==> has_data(stage) || stage
            == MuxStage::Dialling && event == MuxEvent::Dialled(true),
{
}

/// Takes over the answer to the question for the signal level. Without an
/// answer the last level stands.
pub fn on_signal_level(last: &mut u8, reply: Option<u8>)
    ensures
        *final(last) == (match reply {
            Some(rssi) => rssi,
            None => *old(last),
        }),
{
    match reply {
        Some(rssi) => {
            *last = rssi;
        },
        None => {},
    }
}

/// What to do with an SMS that was read, or could not be.
pub struct SmsPlan {
    /// Queue this for publication.
    pub publish: Option<Text>,
    /// Delete the SMS from the memory of the SIM card.
    pub delete: bool,
}

/// Decides about an SMS in the memory of the SIM card.
///
/// It is deleted only after it was read: otherwise a lost message would be gone
/// for good.
pub fn forward_sms(read: Option<&str>) -> (r: SmsPlan)
    ensures
        r.delete == read is Some,
        match read {
            None => r.publish is None,
            Some(message) => {
                &&& r.publish is Some <==> crate::bounded::byte_len(message@) <= mqtt::SMS_TEXT_SIZE
                &&& r.publish matches Some(text) ==> text@ == message@
            },
        },
{
    match read {
        None => SmsPlan { publish: None, delete: false },
        Some(message) => SmsPlan { publish: mqtt::sms_for_queue(message), delete: true },
    }
}

/// How many name servers the network stack takes.
pub const MAX_SERVERS: usize = 3;

/// Name servers, at most [`MAX_SERVERS`] of them, in a `heapless::Vec`.
#[verifier::external_body]
#[derive(Debug)]
pub struct Servers {
    inner: heapless::Vec<[u8; 4], 3>,
}

/// The addresses in a list of name servers, in order.
pub uninterp spec fn server_list(servers: Servers) -> Seq<[u8; 4]>;

impl View for Servers {
    type V = Seq<[u8; 4]>;

    open spec fn view(&self) -> Seq<[u8; 4]> {
        server_list(*self)
    }
}

/// `heapless::Vec::new`: an empty list.
#[verifier::external_body]
fn new_servers() -> (r: Servers)
    ensures
        server_list(r) == Seq::<[u8; 4]>::empty(),
{
    Servers { inner: heapless::Vec::new() }
}

/// `heapless::Vec::push`: appends the address while fewer than three are in the
/// list, and leaves the list as it was when it is full. Tells which.
#[verifier::external_body]
fn push_server(servers: &mut Servers, server: [u8; 4]) -> (r: bool)
    ensures
        r == (server_list(*old(servers)).len() < MAX_SERVERS),
        server_list(*final(servers)) == (if r {
            server_list(*old(servers)).push(server)
        } else {
            server_list(*old(servers))
        }),
{
    servers.inner.push(server).is_ok()
}

/// `heapless::Vec::as_slice`: the list as a slice.
#[verifier::external_body]
fn server_slice(servers: &Servers) -> (r: &[[u8; 4]])
    ensures
        r@ == server_list(*servers),
{
    servers.inner.as_slice()
}

impl Servers {
    /// The addresses, in order.
    pub fn as_slice(&self) -> (r: &[[u8; 4]])
        ensures
            r@ == self@,
    {
        server_slice(self)
    }
}

/// IPv4 settings of a point-to-point link.
#[derive(Debug)]
pub struct Ipv4Plan {
    pub address: [u8; 4],
    /// No network part: everything goes through the link, without a gateway.
    pub prefix: u8,
    pub dns: Servers,
}

/// The servers that are there, in order.
pub open spec fn known_servers(servers: Seq<Option<[u8; 4]>>) -> Seq<[u8; 4]>
    decreases servers.len(),
{
    if servers.len() == 0 {
        Seq::empty()
    } else {
        match servers.last() {
            Some(server) => known_servers(servers.drop_last()).push(server),
            None => known_servers(servers.drop_last()),
        }
    }
}

/// The settings that follow from what the peer gave. `None` without an address.
pub fn apply_ipv4(address: Option<[u8; 4]>, servers: &[Option<[u8; 4]>; 2]) -> (r: Option<Ipv4Plan>)
    ensures
        match address {
            None => r is None,
            Some(address) => r matches Some(plan) && plan.address == address && plan.prefix == 0
                && plan.dns@ == known_servers(servers@),
        },
{
    match address {
        None => None,
        Some(address) => {
            let mut dns = new_servers();
            let mut i: usize = 0;
            proof {
                assert(servers@.take(0) =~= Seq::<Option<[u8; 4]>>::empty());
            }
            while i < 2
                invariant
                    i <= 2,
                    dns@ == known_servers(servers@.take(i as int)),
                    dns@.len() <= i,
                decreases 2 - i,
            {
                proof {
                    assert(servers@.take(i + 1).drop_last() =~= servers@.take(i as int));
                    assert(servers@.take(i + 1).last() == servers@[i as int]);
                }
                match servers[i] {
                    Some(server) => {
                        push_server(&mut dns, server);
                    },
                    None => {},
                }
                i = i + 1;
            }
            proof {
                assert(servers@.take(2) =~= servers@);
            }
            Some(Ipv4Plan { address, prefix: 0, dns })
        },
    }
}

// ---------------------------------------------------------------------------
// What holds of events and times
// ---------------------------------------------------------------------------

/// The power key is pressed on the third, the sixth, the ninth silence in a
/// row, and so on, and at no other end of an attempt.
pub proof fn law_power_key_on_every_third_silence(attempts: Seq<Result<(), BringUpError>>)
    requires
        attempts.len() > 0,
    ensures
        ({
            let before = streaks_over(attempts.drop_last());
            let step = link_step(before, LinkEvent::BroughtUp(attempts.last()));
            &&& silences(attempts) > 0 && silences(attempts) % 3 == 0 ==> step
                == LinkStep::Recover { press_power_key: true }
            &&& attempts.last() is Err && silences(attempts) % 3 != 0 ==> step
                == LinkStep::Recover { press_power_key: false }
            &&& attempts.last() is Err && silences(attempts) == 0 ==> step
                == LinkStep::Recover { press_power_key: false }
            &&& attempts.last() is Ok ==> step == LinkStep::Run
        }),
{
    law_power_key_needs_three_silences(attempts);
}

/// The time of the signal leads to the question for it, a new SMS to its
/// forwarding, a waiting one to its sending. Other messages ask for nothing.
pub proof fn law_events_and_their_actions(event: AtEvent, index: u32)
    ensures
        at_action(event) == AtAction::AskSignalAndTime <==> event is CsqDue,
        at_action(event) == AtAction::SendSms <==> event is SmsWaiting,
        at_action(event) == AtAction::ForwardSms(index) <==> (
        event matches AtEvent::Message(Urc::NewMessage(notice)) && notice.index == index),
        at_action(event) == AtAction::Nothing <==> event is Message && !(
        event matches AtEvent::Message(Urc::NewMessage(_))),
{
}

/// A session through the multiplexer raises its channels, dials, sets up SMS,
/// and then waits and serves in turn. The signal level is first asked for
/// thirty seconds after SMS are set up, and then thirty seconds after every
/// answer.
pub proof fn law_course_of_a_mux_session(now_ms: u64, csq_due_ms: u64, event: AtEvent)
    requires
        now_ms + 30_000 <= u64::MAX,
    ensures
        mux_stage_after(MuxStage::Raising, MuxEvent::Raised(true), now_ms) == MuxStage::Dialling,
        mux_stage_after(MuxStage::Raising, MuxEvent::Raised(false), now_ms) == MuxStage::Over,
        mux_stage_after(MuxStage::Dialling, MuxEvent::Dialled(true), now_ms)
            == MuxStage::ConfiguringSms,
        mux_stage_after(MuxStage::Dialling, MuxEvent::Dialled(false), now_ms) == MuxStage::Over,
        mux_stage_after(MuxStage::ConfiguringSms, MuxEvent::SmsConfigured, now_ms)
            == (MuxStage::Waiting { csq_due_ms: (now_ms + 30_000) as u64 }),
        ({
            let waiting = MuxStage::Waiting { csq_due_ms };
            let busy = mux_stage_after(waiting, MuxEvent::At(event), now_ms);
            let rested = mux_stage_after(busy, MuxEvent::Served, now_ms);
            &&& event is CsqDue ==> busy == (MuxStage::Serving {
                csq_due_ms,
                action: AtAction::AskSignalAndTime,
            }) && rested == (MuxStage::Waiting { csq_due_ms: (now_ms + 30_000) as u64 })
            &&& event is SmsWaiting ==> busy == (MuxStage::Serving {
                csq_due_ms,
                action: AtAction::SendSms,
            })
            &&& event matches AtEvent::Message(Urc::NewMessage(notice)) ==> busy
                == (MuxStage::Serving { csq_due_ms, action: AtAction::ForwardSms(notice.index) })
            &&& event is Message && !(event matches AtEvent::Message(Urc::NewMessage(_))) ==> busy
                == waiting
            &&& !(event is CsqDue) ==> rested == waiting
        }),
{
}

/// An event that does not belong to a stage leaves it as it is.
pub proof fn law_stray_events_change_nothing(stage: MuxStage, event: MuxEvent, now_ms: u64)
    requires
        !(stage == MuxStage::Raising && event is Raised),
        !(stage == MuxStage::Dialling && event is Dialled),
        !(stage == MuxStage::ConfiguringSms && event is SmsConfigured),
        !(stage is Waiting && event is At),
        !(stage is Serving && event is Served),
    ensures
        mux_stage_after(stage, event, now_ms) == stage,
{
}

/// The time of the next question moves by the question alone, to thirty seconds
/// after it.
pub proof fn law_question_is_put_every_thirty_seconds(due_ms: u64, action: AtAction, now_ms: u64)
    requires
        now_ms + 30_000 <= u64::MAX,
    ensures
        action == AtAction::AskSignalAndTime ==> csq_due_after(due_ms, action, now_ms) == now_ms
            + 30_000,
        action != AtAction::AskSignalAndTime ==> csq_due_after(due_ms, action, now_ms) == due_ms,
{
}

/// Data runs from the connection to the end of the session.
pub proof fn law_stages_with_data(stage: MuxStage)
    ensures
        !has_data(stage) <==> stage == MuxStage::Raising || stage == MuxStage::Dialling || stage
            == MuxStage::Over,
{
}

/// Servers that are there stay in their order, and those that are not leave no
/// gap.
pub proof fn law_known_servers(a: Seq<Option<[u8; 4]>>, b: Seq<Option<[u8; 4]>>, server: [u8; 4])
    ensures
        known_servers(a + b) == known_servers(a) + known_servers(b),
        known_servers(seq![Some(server)]) == seq![server],
        known_servers(seq![None]) == Seq::<[u8; 4]>::empty(),
    decreases b.len(),
{
    let one = seq![Some(server)];
    let none: Seq<Option<[u8; 4]>> = seq![None];
    reveal_with_fuel(known_servers, 2);
    assert(one.last() == Some(server));
    assert(one.drop_last() =~= Seq::empty());
    assert(none.drop_last() =~= Seq::empty());
    assert(known_servers(one) =~= seq![server]);
    if b.len() == 0 {
        assert(a + b =~= a);
        assert(known_servers(a) + known_servers(b) =~= known_servers(a));
    } else {
        assert((a + b).drop_last() =~= a + b.drop_last());
        law_known_servers(a, b.drop_last(), server);
        assert(known_servers(a + b) =~= known_servers(a) + known_servers(b));
    }
}

} // verus!
